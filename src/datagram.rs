//! The frame of the memcached datagram transport. Each datagram starts with
//! an 8-byte header: request id, sequence number, number of datagrams in the
//! message, and a reserved zero, all big-endian 16-bit numbers. A request
//! goes out as one datagram; a reply may span several, which are put back
//! together by sequence number, and datagrams of other requests or repeated
//! ones are dropped.
use vstd::prelude::*;

use crate::binary::{be16, push_u16, read_u16, u16_at};
use crate::text::{copy_range, push_all};

verus! {

pub const FRAME_HEADER_LEN: usize = 8;

/// The header of a datagram.
pub open spec fn frame_header(id: u16, seq: u16, total: u16) -> Seq<u8> {
    be16(id as nat) + be16(seq as nat) + be16(total as nat) + be16(0)
}

/// A datagram's request id, sequence number, total and payload; `None` for
/// one too short to hold a header.
pub open spec fn frame_at(d: Seq<u8>) -> Option<(u16, u16, u16, Seq<u8>)> {
    if d.len() < FRAME_HEADER_LEN {
        None
    } else {
        Some(
            (
                u16_at(d, 0) as u16,
                u16_at(d, 2) as u16,
                u16_at(d, 4) as u16,
                d.subrange(FRAME_HEADER_LEN as int, d.len() as int),
            ),
        )
    }
}

/// The concatenation of the parts, in order; a missing part counts as empty.
pub open spec fn joined(parts: Seq<Option<Seq<u8>>>) -> Seq<u8>
    decreases parts.len(),
{
    if parts.len() == 0 {
        Seq::empty()
    } else {
        joined(parts.drop_last()) + match parts.last() {
            Some(p) => p,
            None => Seq::empty(),
        }
    }
}

/// Frames a request as the single datagram of request `id`.
pub fn frame(id: u16, payload: &[u8]) -> (r: Vec<u8>)
    ensures
        r@ == frame_header(id, 0, 1) + payload@,
{
    let mut r: Vec<u8> = Vec::new();
    push_u16(&mut r, id);
    push_u16(&mut r, 0);
    push_u16(&mut r, 1);
    push_u16(&mut r, 0);
    push_all(&mut r, payload);
    r
}

/// The reply datagrams of one request, as they arrive.
pub struct Reassembly {
    pub request_id: u16,
    /// One slot per datagram of the reply, once the first one told how many.
    pub parts: Vec<Option<Vec<u8>>>,
}

pub open spec fn part_views(parts: Seq<Option<Vec<u8>>>) -> Seq<Option<Seq<u8>>> {
    parts.map_values(|p: Option<Vec<u8>>| match p {
        Some(v) => Some(v@),
        None => None,
    })
}

impl Reassembly {
    pub open spec fn slots(&self) -> Seq<Option<Seq<u8>>> {
        part_views(self.parts@)
    }

    /// Waits for the reply to request `request_id`.
    pub fn new(request_id: u16) -> (r: Reassembly)
        ensures
            r.request_id == request_id,
            r.slots().len() == 0,
    {
        Reassembly { request_id, parts: Vec::new() }
    }

    /// Takes one datagram. It is kept, and `true` returned, where it belongs
    /// to this request, its sequence number is below its total, the total
    /// agrees with the datagrams kept so far, and its slot is still empty;
    /// otherwise nothing changes.
    pub fn accept(&mut self, datagram: &[u8]) -> (r: bool)
        ensures
            final(self).request_id == old(self).request_id,
            match frame_at(datagram@) {
                Some((id, seq, total, payload)) => {
                    let slots = old(self).slots();
                    if id == old(self).request_id && seq < total && (slots.len() == 0
                        || slots.len() == total) && (slots.len() == 0 || slots[seq as int] is None) {
                        r && final(self).slots() == (if slots.len() == 0 {
                            Seq::new(total as nat, |i: int| None::<Seq<u8>>)
                        } else {
                            slots
                        }).update(seq as int, Some(payload))
                    } else {
                        !r && final(self).slots() == slots
                    }
                },
                None => !r && final(self).slots() == old(self).slots(),
            },
    {
        let n = datagram.len();
        if n < FRAME_HEADER_LEN {
            return false;
        }
        let id = read_u16(datagram, 0);
        let seq = read_u16(datagram, 2);
        let total = read_u16(datagram, 4);
        if id != self.request_id || seq >= total {
            return false;
        }
        if self.parts.len() == 0 {
            let mut i: u16 = 0;
            while i < total
                invariant
                    i <= total,
                    self.parts@.len() == i,
                    forall|j: int| 0 <= j < i ==> self.parts@[j] is None,
                    self.request_id == old(self).request_id,
                decreases total - i,
            {
                self.parts.push(None);
                i = i + 1;
            }
            assert(self.slots() =~= Seq::new(total as nat, |i: int| None::<Seq<u8>>));
        } else if self.parts.len() != total as usize || self.parts[seq as usize].is_some() {
            return false;
        }
        let ghost before = self.slots();
        let payload = copy_range(datagram, FRAME_HEADER_LEN, n);
        let ghost pv = payload@;
        self.parts.set(seq as usize, Some(payload));
        assert(self.slots() =~= before.update(seq as int, Some(pv)));
        true
    }

    /// The whole reply, once every datagram of it has arrived.
    pub fn complete(&self) -> (r: Option<Vec<u8>>)
        ensures
            r is Some <==> (self.slots().len() > 0 && forall|i: int|
                0 <= i < self.slots().len() ==> (#[trigger] self.slots()[i]) is Some),
            r matches Some(v) ==> v@ == joined(self.slots()),
    {
        if self.parts.len() == 0 {
            return None;
        }
        let mut out: Vec<u8> = Vec::new();
        let mut i: usize = 0;
        while i < self.parts.len()
            invariant
                i <= self.parts@.len(),
                forall|j: int| 0 <= j < i ==> (#[trigger] self.slots()[j]) is Some,
                out@ == joined(self.slots().take(i as int)),
            decreases self.parts@.len() - i,
        {
            match &self.parts[i] {
                None => {
                    assert(self.slots()[i as int] is None);
                    return None;
                },
                Some(p) => {
                    assert(self.slots().take(i as int + 1).drop_last() =~= self.slots().take(
                        i as int,
                    ));
                    assert(self.slots()[i as int] == Some(p@));
                    push_all(&mut out, p.as_slice());
                },
            }
            i = i + 1;
        }
        assert(self.slots().take(self.parts@.len() as int) =~= self.slots());
        Some(out)
    }
}

} // verus!
