//! The memcached binary protocol as a session over two byte buffers, like the
//! text one: request calls append framed packets to `out`, `read_packet`
//! takes one complete reply packet from the front of `inp`, and the
//! `*_outcome` functions say what a reply packet means for each command.
//!
//! A packet is a 24-byte header (magic, opcode, key length, extras length,
//! data type, vbucket or status, total body length, opaque, cas; all numbers
//! big-endian) followed by the extras, the key and the value.
use vstd::prelude::*;
use vstd::string::StringSliceAdditionalSpecFns;

use crate::ascii::MAX_KEY_LEN;
use crate::error::{
    breaks, lossy_text, raises, status_error, text_of, ClientError, CommandError, Fault,
    MemcacheError, ServerError,
};
use crate::text::{copy_range, push_all};

verus! {

pub const REQUEST_MAGIC: u8 = 0x80;

pub const RESPONSE_MAGIC: u8 = 0x81;

pub const HEADER_LEN: usize = 24;

pub const OP_GET: u8 = 0x00;

pub const OP_SET: u8 = 0x01;

pub const OP_ADD: u8 = 0x02;

pub const OP_REPLACE: u8 = 0x03;

pub const OP_DELETE: u8 = 0x04;

pub const OP_INCREMENT: u8 = 0x05;

pub const OP_DECREMENT: u8 = 0x06;

pub const OP_FLUSH: u8 = 0x08;

pub const OP_VERSION: u8 = 0x0b;

pub const OP_APPEND: u8 = 0x0e;

pub const OP_PREPEND: u8 = 0x0f;

pub const OP_STAT: u8 = 0x10;

pub const OP_TOUCH: u8 = 0x1c;

pub const OP_SASL_AUTH: u8 = 0x21;

/// The expiration that makes `incr` and `decr` fail on a missing key rather
/// than create it.
pub const NO_AUTO_CREATE: u32 = 0xffff_ffff;

/// `v` as two big-endian bytes.
pub open spec fn be16(v: nat) -> Seq<u8> {
    seq![((v / 256) % 256) as u8, (v % 256) as u8]
}

/// `v` as four big-endian bytes.
pub open spec fn be32(v: nat) -> Seq<u8> {
    be16((v / 65536) % 65536) + be16(v % 65536)
}

/// `v` as eight big-endian bytes.
pub open spec fn be64(v: nat) -> Seq<u8> {
    be32((v / 0x1_0000_0000) % 0x1_0000_0000) + be32(v % 0x1_0000_0000)
}

/// The big-endian number in the two bytes at `i`.
pub open spec fn u16_at(s: Seq<u8>, i: int) -> nat {
    (s[i] as nat) * 256 + (s[i + 1] as nat)
}

/// The big-endian number in the four bytes at `i`.
pub open spec fn u32_at(s: Seq<u8>, i: int) -> nat {
    u16_at(s, i) * 65536 + u16_at(s, i + 2)
}

/// The big-endian number in the eight bytes at `i`.
pub open spec fn u64_at(s: Seq<u8>, i: int) -> nat {
    u32_at(s, i) * 0x1_0000_0000 + u32_at(s, i + 4)
}

/// A request packet.
pub open spec fn request_packet(
    opcode: u8,
    opaque: u32,
    cas: u64,
    extras: Seq<u8>,
    key: Seq<u8>,
    value: Seq<u8>,
) -> Seq<u8> {
    seq![REQUEST_MAGIC, opcode] + be16(key.len()) + seq![extras.len() as u8, 0u8] + be16(0)
        + be32(extras.len() + key.len() + value.len()) + be32(opaque as nat) + be64(cas as nat)
        + extras + key + value
}

/// The opaque that follows `o`; numbering wraps around.
pub open spec fn next_opaque(o: u32) -> u32 {
    if o == u32::MAX {
        0
    } else {
        (o + 1) as u32
    }
}

/// The reply at the front of `s` to the request numbered `awaited`: as
/// `packet_at` reads it, except that a complete packet that echoes another
/// opaque is refused as malformed.
pub open spec fn reply_at(s: Seq<u8>, awaited: u32) -> Option<(Result<PacketView, Fault>, nat)> {
    match packet_at(s) {
        Some((Ok(p), m)) => if p.2 == awaited {
            Some((Ok(p), m))
        } else {
            Some((Err(Fault::Malformed(s.take(HEADER_LEN as int))), m))
        },
        other => other,
    }
}

/// A reply packet: opcode, status, opaque, cas, extras, key and value.
pub type PacketView = (u8, u16, u32, u64, Seq<u8>, Seq<u8>, Seq<u8>);

/// One reply packet.
#[derive(Debug, Clone, PartialEq, Eq)]
pub struct Packet {
    pub opcode: u8,
    pub status: u16,
    pub opaque: u32,
    pub cas: u64,
    pub extras: Vec<u8>,
    pub key: Vec<u8>,
    pub value: Vec<u8>,
}

impl View for Packet {
    type V = PacketView;

    open spec fn view(&self) -> PacketView {
        (self.opcode, self.status, self.opaque, self.cas, self.extras@, self.key@, self.value@)
    }
}

/// The reply packet at the front of `s`, and its length; `None` while it is
/// incomplete. A header whose first byte is not the response magic is refused
/// at once, and so is one whose extras and key overrun its body.
pub open spec fn packet_at(s: Seq<u8>) -> Option<(Result<PacketView, Fault>, nat)> {
    if s.len() < HEADER_LEN {
        None
    } else if s[0] != RESPONSE_MAGIC {
        Some((Err(Fault::BadMagic(s[0])), HEADER_LEN as nat))
    } else {
        let klen = u16_at(s, 2);
        let elen = s[4] as nat;
        let total = u32_at(s, 8);
        if elen + klen > total {
            Some((Err(Fault::Malformed(s.take(HEADER_LEN as int))), HEADER_LEN as nat))
        } else if s.len() < HEADER_LEN + total {
            None
        } else {
            let b = HEADER_LEN as int;
            Some(
                (
                    Ok(
                        (
                            s[1],
                            u16_at(s, 6) as u16,
                            u32_at(s, 12) as u32,
                            u64_at(s, 16) as u64,
                            s.subrange(b, b + elen),
                            s.subrange(b + elen, b + elen + klen),
                            s.subrange(b + elen + klen, b + total),
                        ),
                    ),
                    (HEADER_LEN + total) as nat,
                ),
            )
        }
    }
}

/// A status other than success, as a fault.
pub open spec fn status_fault(status: u16) -> Fault {
    Fault::Status(status_error(status).unwrap())
}

/// What a reply packet to `get` means: the value and its flags, or nothing
/// where the key is missing.
pub open spec fn get_outcome(p: PacketView) -> Result<Option<(Seq<u8>, u32)>, Fault> {
    if p.1 == 0 {
        if p.4.len() == 4 {
            Ok(Some((p.6, u32_at(p.4, 0) as u32)))
        } else {
            Err(Fault::Malformed(p.4))
        }
    } else if p.1 == 1 {
        Ok(None)
    } else {
        Err(status_fault(p.1))
    }
}

/// What a reply packet to `set`, `add`, `replace`, `append`, `prepend`,
/// `flush` or an authentication means: success, or the status as an error.
pub open spec fn done_outcome(p: PacketView) -> Result<(), Fault> {
    if p.1 == 0 {
        Ok(())
    } else {
        Err(status_fault(p.1))
    }
}

/// What a reply packet to a `cas` store means: a changed or missing item is
/// `false`, never an error.
pub open spec fn cas_outcome(p: PacketView) -> Result<bool, Fault> {
    if p.1 == 0 {
        Ok(true)
    } else if p.1 == 1 || p.1 == 2 {
        Ok(false)
    } else {
        Err(status_fault(p.1))
    }
}

/// What a reply packet to `delete` or `touch` means: whether the key was there.
pub open spec fn found_outcome(p: PacketView) -> Result<bool, Fault> {
    if p.1 == 0 {
        Ok(true)
    } else if p.1 == 1 {
        Ok(false)
    } else {
        Err(status_fault(p.1))
    }
}

/// What a reply packet to `incr` or `decr` means: the counter's new value.
pub open spec fn counter_outcome(p: PacketView) -> Result<u64, Fault> {
    if p.1 == 0 {
        if p.6.len() == 8 {
            Ok(u64_at(p.6, 0) as u64)
        } else {
            Err(Fault::Malformed(p.6))
        }
    } else {
        Err(status_fault(p.1))
    }
}

/// What a reply packet to `stat` means: one statistic, or the end of them
/// (a packet with an empty key).
pub open spec fn stat_outcome(p: PacketView) -> Result<Option<(Seq<u8>, Seq<u8>)>, Fault> {
    if p.1 != 0 {
        Err(status_fault(p.1))
    } else if p.5.len() == 0 {
        Ok(None)
    } else {
        Ok(Some((p.5, p.6)))
    }
}

/// A binary protocol session. Requests are numbered through their opaque
/// field, and replies are matched to requests by the opaque they echo.
pub struct BinaryProtocol {
    /// Framed requests that the transport has not taken yet.
    pub out: Vec<u8>,
    /// Reply bytes that the transport delivered and no reader consumed yet.
    pub inp: Vec<u8>,
    /// The opaque that the next request carries.
    pub next: u32,
    /// The opaque of the oldest request whose reply has not been read.
    pub awaited: u32,
}

/// What a request call did: it left the reply buffer alone; where the key is
/// over the limit it failed with `KeyTooLong` and queued nothing; where the
/// packet's body would not fit its 32-bit length it failed with a client
/// error and queued nothing; otherwise it queued the packet, numbered with
/// the session's next opaque, and moved that number on.
pub open spec fn sent(
    before: BinaryProtocol,
    after: BinaryProtocol,
    r: Result<(), MemcacheError>,
    opcode: u8,
    cas: u64,
    extras: Seq<u8>,
    key: Seq<u8>,
    value: Seq<u8>,
) -> bool {
    &&& after.inp@ == before.inp@
    &&& after.awaited == before.awaited
    &&& if key.len() > MAX_KEY_LEN {
        r == Err::<(), MemcacheError>(MemcacheError::ClientError(ClientError::KeyTooLong))
            && after.out@ == before.out@ && after.next == before.next
    } else if extras.len() + key.len() + value.len() > u32::MAX {
        r matches Err(MemcacheError::ClientError(ClientError::Error(_))) && after.out@
            == before.out@ && after.next == before.next
    } else {
        r is Ok && after.out@ == before.out@ + request_packet(
            opcode,
            before.next,
            cas,
            extras,
            key,
            value,
        ) && after.next == next_opaque(before.next)
    }
}

pub(crate) fn push_u16(out: &mut Vec<u8>, v: u16)
    ensures
        final(out)@ == old(out)@ + be16(v as nat),
{
    out.push((v / 256) as u8);
    out.push((v % 256) as u8);
    assert(out@ =~= old(out)@ + be16(v as nat));
}

fn push_u32(out: &mut Vec<u8>, v: u32)
    ensures
        final(out)@ == old(out)@ + be32(v as nat),
{
    let hi = (v / 65536) as u16;
    let lo = (v % 65536) as u16;
    assert(hi as nat == ((v as nat) / 65536) % 65536);
    assert(lo as nat == (v as nat) % 65536);
    push_u16(out, hi);
    push_u16(out, lo);
    assert(out@ =~= old(out)@ + (be16(hi as nat) + be16(lo as nat)));
}

fn push_u64(out: &mut Vec<u8>, v: u64)
    ensures
        final(out)@ == old(out)@ + be64(v as nat),
{
    let hi = (v / 0x1_0000_0000) as u32;
    let lo = (v % 0x1_0000_0000) as u32;
    assert(hi as nat == ((v as nat) / 0x1_0000_0000) % 0x1_0000_0000);
    assert(lo as nat == (v as nat) % 0x1_0000_0000);
    push_u32(out, hi);
    push_u32(out, lo);
    assert(out@ =~= old(out)@ + (be32(hi as nat) + be32(lo as nat)));
}

pub(crate) fn read_u16(s: &[u8], i: usize) -> (r: u16)
    requires
        i + 2 <= s@.len(),
    ensures
        r as nat == u16_at(s@, i as int),
{
    (s[i] as u16) * 256 + (s[i + 1] as u16)
}

fn read_u32(s: &[u8], i: usize) -> (r: u32)
    requires
        i + 4 <= s@.len(),
    ensures
        r as nat == u32_at(s@, i as int),
{
    let _n = s.len();
    (read_u16(s, i) as u32) * 65536 + (read_u16(s, i + 2) as u32)
}

fn read_u64(s: &[u8], i: usize) -> (r: u64)
    requires
        i + 8 <= s@.len(),
    ensures
        r as nat == u64_at(s@, i as int),
{
    let _n = s.len();
    (read_u32(s, i) as u64) * 0x1_0000_0000 + (read_u32(s, i + 4) as u64)
}

fn status_err(status: u16) -> (e: MemcacheError)
    requires
        status != 0,
    ensures
        raises(e, status_fault(status)),
{
    match CommandError::from_status(status) {
        Some(c) => MemcacheError::CommandError(c),
        None => MemcacheError::CommandError(CommandError::Unknown(status)),
    }
}

fn malformed(b: &[u8]) -> (e: MemcacheError)
    ensures
        raises(e, Fault::Malformed(b@)),
{
    MemcacheError::ServerError(ServerError::BadResponse(text_of(b)))
}

/// Reads the reply packet at the front of `s`.
pub fn parse_packet(s: &[u8]) -> (r: Option<(Result<Packet, MemcacheError>, usize)>)
    ensures
        match packet_at(s@) {
            None => r is None,
            Some((o, m)) => r matches Some((res, m2)) && m2 == m && m <= s@.len() && match o {
                Ok(v) => res matches Ok(p) && p@ == v,
                Err(f) => res matches Err(e) && raises(e, f),
            },
        },
{
    let n = s.len();
    if n < HEADER_LEN {
        return None;
    }
    if s[0] != RESPONSE_MAGIC {
        return Some((Err(MemcacheError::ServerError(ServerError::BadMagic(s[0]))), HEADER_LEN));
    }
    let klen = read_u16(s, 2) as u64;
    let elen = s[4] as u64;
    let total = read_u32(s, 8) as u64;
    if elen + klen > total {
        let head = copy_range(s, 0, HEADER_LEN);
        return Some((Err(malformed(head.as_slice())), HEADER_LEN));
    }
    if ((n - HEADER_LEN) as u64) < total {
        return None;
    }
    let b = HEADER_LEN;
    let e = b + elen as usize;
    let k = e + klen as usize;
    let end = b + total as usize;
    let packet = Packet {
        opcode: s[1],
        status: read_u16(s, 6),
        opaque: read_u32(s, 12),
        cas: read_u64(s, 16),
        extras: copy_range(s, b, e),
        key: copy_range(s, e, k),
        value: copy_range(s, k, end),
    };
    Some((Ok(packet), end))
}

impl Packet {
    /// What this packet means as the reply to `get`.
    pub fn get_outcome(&self) -> (r: Result<Option<(Vec<u8>, u32)>, MemcacheError>)
        ensures
            match get_outcome(self@) {
                Ok(None) => r matches Ok(None),
                Ok(Some((v, f))) => r matches Ok(Some((x, g))) && x@ == v && g == f,
                Err(f) => r matches Err(e) && raises(e, f),
            },
    {
        if self.status == 0 {
            if self.extras.len() == 4 {
                let flags = read_u32(self.extras.as_slice(), 0);
                let value = copy_range(self.value.as_slice(), 0, self.value.len());
                assert(self.value@.subrange(0, self.value@.len() as int) =~= self.value@);
                Ok(Some((value, flags)))
            } else {
                Err(malformed(self.extras.as_slice()))
            }
        } else if self.status == 1 {
            Ok(None)
        } else {
            Err(status_err(self.status))
        }
    }

    /// What this packet means as the reply to a store, a flush or an
    /// authentication.
    pub fn done_outcome(&self) -> (r: Result<(), MemcacheError>)
        ensures
            match done_outcome(self@) {
                Ok(_) => r is Ok,
                Err(f) => r matches Err(e) && raises(e, f),
            },
    {
        if self.status == 0 {
            Ok(())
        } else {
            Err(status_err(self.status))
        }
    }

    /// What this packet means as the reply to a `cas` store.
    pub fn cas_outcome(&self) -> (r: Result<bool, MemcacheError>)
        ensures
            match cas_outcome(self@) {
                Ok(b) => r == Ok::<bool, MemcacheError>(b),
                Err(f) => r matches Err(e) && raises(e, f),
            },
    {
        if self.status == 0 {
            Ok(true)
        } else if self.status == 1 || self.status == 2 {
            Ok(false)
        } else {
            Err(status_err(self.status))
        }
    }

    /// What this packet means as the reply to `delete` or `touch`.
    pub fn found_outcome(&self) -> (r: Result<bool, MemcacheError>)
        ensures
            match found_outcome(self@) {
                Ok(b) => r == Ok::<bool, MemcacheError>(b),
                Err(f) => r matches Err(e) && raises(e, f),
            },
    {
        if self.status == 0 {
            Ok(true)
        } else if self.status == 1 {
            Ok(false)
        } else {
            Err(status_err(self.status))
        }
    }

    /// What this packet means as the reply to `incr` or `decr`.
    pub fn counter_outcome(&self) -> (r: Result<u64, MemcacheError>)
        ensures
            match counter_outcome(self@) {
                Ok(n) => r == Ok::<u64, MemcacheError>(n),
                Err(f) => r matches Err(e) && raises(e, f),
            },
    {
        if self.status == 0 {
            if self.value.len() == 8 {
                Ok(read_u64(self.value.as_slice(), 0))
            } else {
                Err(malformed(self.value.as_slice()))
            }
        } else {
            Err(status_err(self.status))
        }
    }

    /// What this packet means as the reply to `version`: the version text.
    pub fn version_outcome(&self) -> (r: Result<String, MemcacheError>)
        ensures
            self.status == 0 ==> (r matches Ok(t) && t@ == lossy_text(self.value@)),
            self.status != 0 ==> (r matches Err(e) && raises(e, status_fault(self.status))),
    {
        if self.status == 0 {
            Ok(text_of(self.value.as_slice()))
        } else {
            Err(status_err(self.status))
        }
    }

    /// What this packet means as one reply to `stat`.
    pub fn stat_outcome(&self) -> (r: Result<Option<(Vec<u8>, Vec<u8>)>, MemcacheError>)
        ensures
            match stat_outcome(self@) {
                Ok(None) => r matches Ok(None),
                Ok(Some((k, v))) => r matches Ok(Some((x, y))) && x@ == k && y@ == v,
                Err(f) => r matches Err(e) && raises(e, f),
            },
    {
        if self.status != 0 {
            Err(status_err(self.status))
        } else if self.key.len() == 0 {
            Ok(None)
        } else {
            let k = copy_range(self.key.as_slice(), 0, self.key.len());
            let v = copy_range(self.value.as_slice(), 0, self.value.len());
            assert(self.key@.subrange(0, self.key@.len() as int) =~= self.key@);
            assert(self.value@.subrange(0, self.value@.len() as int) =~= self.value@);
            Ok(Some((k, v)))
        }
    }
}

/// A header that does not begin with the response magic fails the read with
/// a server error that names the byte found, and that error breaks the
/// connection.
pub proof fn lemma_bad_magic_breaks(s: Seq<u8>, e: MemcacheError)
    requires
        s.len() >= HEADER_LEN,
        s[0] != RESPONSE_MAGIC,
        raises(e, Fault::BadMagic(s[0])),
    ensures
        packet_at(s) == Some((Err::<PacketView, Fault>(Fault::BadMagic(s[0])), HEADER_LEN as nat)),
        e == MemcacheError::ServerError(ServerError::BadMagic(s[0])),
        breaks(e),
{
}

impl BinaryProtocol {
    /// A session with nothing queued and nothing received.
    pub fn new() -> (r: BinaryProtocol)
        ensures
            r.out@ == Seq::<u8>::empty(),
            r.inp@ == Seq::<u8>::empty(),
            r.next == 0,
            r.awaited == 0,
    {
        BinaryProtocol { out: Vec::new(), inp: Vec::new(), next: 0, awaited: 0 }
    }

    /// Hands the queued requests to the transport.
    pub fn take_output(&mut self) -> (r: Vec<u8>)
        ensures
            r@ == old(self).out@,
            final(self).out@ == Seq::<u8>::empty(),
            final(self).inp@ == old(self).inp@,
            final(self).next == old(self).next,
            final(self).awaited == old(self).awaited,
    {
        let mut r: Vec<u8> = Vec::new();
        std::mem::swap(&mut r, &mut self.out);
        r
    }

    /// Takes bytes that the transport delivered.
    pub fn receive(&mut self, bytes: &[u8])
        ensures
            final(self).inp@ == old(self).inp@ + bytes@,
            final(self).out@ == old(self).out@,
            final(self).next == old(self).next,
            final(self).awaited == old(self).awaited,
    {
        push_all(&mut self.inp, bytes);
    }

    /// Reads one reply packet, whatever request it answers: `None`, with
    /// nothing consumed, while it is incomplete; else the packet, or the
    /// fault of its header, with the packet's bytes consumed.
    pub fn read_packet(&mut self) -> (r: Option<Result<Packet, MemcacheError>>)
        ensures
            final(self).out@ == old(self).out@,
            final(self).next == old(self).next,
            final(self).awaited == old(self).awaited,
            match packet_at(old(self).inp@) {
                None => r is None && final(self).inp@ == old(self).inp@,
                Some((o, m)) => r matches Some(res) && final(self).inp@ == old(self).inp@.skip(
                    m as int,
                ) && match o {
                    Ok(v) => res matches Ok(p) && p@ == v,
                    Err(f) => res matches Err(e) && raises(e, f),
                },
            },
    {
        match parse_packet(self.inp.as_slice()) {
            None => None,
            Some((res, m)) => {
                let rest = copy_range(self.inp.as_slice(), m, self.inp.len());
                self.inp = rest;
                Some(res)
            },
        }
    }

    /// Reads the reply to the oldest unanswered request: `None`, with nothing
    /// consumed, while it is incomplete; else the packet, or its fault, with
    /// the packet's bytes consumed and the next request awaited. A reply that
    /// echoes another request's opaque is a malformed reply.
    pub fn read_reply(&mut self) -> (r: Option<Result<Packet, MemcacheError>>)
        ensures
            final(self).out@ == old(self).out@,
            final(self).next == old(self).next,
            match reply_at(old(self).inp@, old(self).awaited) {
                None => r is None && final(self).inp@ == old(self).inp@ && final(self).awaited
                    == old(self).awaited,
                Some((o, m)) => r matches Some(res) && final(self).inp@ == old(self).inp@.skip(
                    m as int,
                ) && final(self).awaited == next_opaque(old(self).awaited) && match o {
                    Ok(v) => res matches Ok(p) && p@ == v,
                    Err(f) => res matches Err(e) && raises(e, f),
                },
            },
    {
        match parse_packet(self.inp.as_slice()) {
            None => None,
            Some((res, m)) => {
                let res = match res {
                    Ok(p) => {
                        if p.opaque == self.awaited {
                            Ok(p)
                        } else {
                            let head = copy_range(self.inp.as_slice(), 0, HEADER_LEN);
                            Err(malformed(head.as_slice()))
                        }
                    },
                    Err(e) => Err(e),
                };
                let rest = copy_range(self.inp.as_slice(), m, self.inp.len());
                self.inp = rest;
                self.awaited = if self.awaited == u32::MAX {
                    0
                } else {
                    self.awaited + 1
                };
                Some(res)
            },
        }
    }

    fn request(&mut self, opcode: u8, cas: u64, extras: &[u8], key: &[u8], value: &[u8]) -> (r:
        Result<(), MemcacheError>)
        requires
            extras@.len() < 256,
        ensures
            sent(*old(self), *final(self), r, opcode, cas, extras@, key@, value@),
    {
        if key.len() > MAX_KEY_LEN {
            return Err(MemcacheError::ClientError(ClientError::KeyTooLong));
        }
        if value.len() > (u32::MAX as usize) - extras.len() - key.len() {
            return Err(
                MemcacheError::ClientError(
                    ClientError::Error("value is too large for one packet".to_owned()),
                ),
            );
        }
        let mut req: Vec<u8> = Vec::new();
        req.push(REQUEST_MAGIC);
        req.push(opcode);
        push_u16(&mut req, key.len() as u16);
        req.push(extras.len() as u8);
        req.push(0);
        push_u16(&mut req, 0);
        push_u32(&mut req, (extras.len() + key.len() + value.len()) as u32);
        push_u32(&mut req, self.next);
        push_u64(&mut req, cas);
        push_all(&mut req, extras);
        push_all(&mut req, key);
        push_all(&mut req, value);
        assert(req@ =~= request_packet(opcode, self.next, cas, extras@, key@, value@));
        push_all(&mut self.out, req.as_slice());
        self.next = if self.next == u32::MAX {
            0
        } else {
            self.next + 1
        };
        Ok(())
    }

    fn store(&mut self, opcode: u8, key: &str, value: &[u8], flags: u32, expiration: u32, cas: u64) -> (r:
        Result<(), MemcacheError>)
        ensures
            sent(
                *old(self),
                *final(self),
                r,
                opcode,
                cas,
                be32(flags as nat) + be32(expiration as nat),
                key.spec_bytes(),
                value@,
            ),
    {
        let mut extras: Vec<u8> = Vec::new();
        push_u32(&mut extras, flags);
        push_u32(&mut extras, expiration);
        self.request(opcode, cas, extras.as_slice(), key.as_bytes(), value)
    }

    /// Queues `get`.
    pub fn get(&mut self, key: &str) -> (r: Result<(), MemcacheError>)
        ensures
            sent(*old(self), *final(self), r, OP_GET, 0, Seq::empty(), key.spec_bytes(), Seq::empty()),
    {
        let none: Vec<u8> = Vec::new();
        self.request(OP_GET, 0, none.as_slice(), key.as_bytes(), none.as_slice())
    }

    /// Queues `set` with the value's flags and expiration.
    pub fn set(&mut self, key: &str, value: &[u8], flags: u32, expiration: u32) -> (r: Result<
        (),
        MemcacheError,
    >)
        ensures
            sent(*old(self), *final(self), r, OP_SET, 0, be32(flags as nat) + be32(expiration as nat), key.spec_bytes(), value@),
    {
        self.store(OP_SET, key, value, flags, expiration, 0)
    }

    /// Queues `add` with the value's flags and expiration.
    pub fn add(&mut self, key: &str, value: &[u8], flags: u32, expiration: u32) -> (r: Result<
        (),
        MemcacheError,
    >)
        ensures
            sent(*old(self), *final(self), r, OP_ADD, 0, be32(flags as nat) + be32(expiration as nat), key.spec_bytes(), value@),
    {
        self.store(OP_ADD, key, value, flags, expiration, 0)
    }

    /// Queues `replace` with the value's flags and expiration.
    pub fn replace(&mut self, key: &str, value: &[u8], flags: u32, expiration: u32) -> (r: Result<
        (),
        MemcacheError,
    >)
        ensures
            sent(*old(self), *final(self), r, OP_REPLACE, 0, be32(flags as nat) + be32(expiration as nat), key.spec_bytes(), value@),
    {
        self.store(OP_REPLACE, key, value, flags, expiration, 0)
    }

    /// Queues a `set` that only stores while the item's cas token is `cas`.
    pub fn cas(&mut self, key: &str, value: &[u8], flags: u32, expiration: u32, cas: u64) -> (r:
        Result<(), MemcacheError>)
        ensures
            sent(*old(self), *final(self), r, OP_SET, cas, be32(flags as nat) + be32(expiration as nat), key.spec_bytes(), value@),
    {
        self.store(OP_SET, key, value, flags, expiration, cas)
    }

    /// Queues `append`.
    pub fn append(&mut self, key: &str, value: &[u8]) -> (r: Result<(), MemcacheError>)
        ensures
            sent(*old(self), *final(self), r, OP_APPEND, 0, Seq::empty(), key.spec_bytes(), value@),
    {
        let none: Vec<u8> = Vec::new();
        self.request(OP_APPEND, 0, none.as_slice(), key.as_bytes(), value)
    }

    /// Queues `prepend`.
    pub fn prepend(&mut self, key: &str, value: &[u8]) -> (r: Result<(), MemcacheError>)
        ensures
            sent(*old(self), *final(self), r, OP_PREPEND, 0, Seq::empty(), key.spec_bytes(), value@),
    {
        let none: Vec<u8> = Vec::new();
        self.request(OP_PREPEND, 0, none.as_slice(), key.as_bytes(), value)
    }

    /// Queues `delete`.
    pub fn delete(&mut self, key: &str) -> (r: Result<(), MemcacheError>)
        ensures
            sent(*old(self), *final(self), r, OP_DELETE, 0, Seq::empty(), key.spec_bytes(), Seq::empty()),
    {
        let none: Vec<u8> = Vec::new();
        self.request(OP_DELETE, 0, none.as_slice(), key.as_bytes(), none.as_slice())
    }

    fn counter(&mut self, opcode: u8, key: &str, amount: u64) -> (r: Result<(), MemcacheError>)
        ensures
            sent(
                *old(self),
                *final(self),
                r,
                opcode,
                0,
                be64(amount as nat) + be64(0) + be32(NO_AUTO_CREATE as nat),
                key.spec_bytes(),
                Seq::empty(),
            ),
    {
        let mut extras: Vec<u8> = Vec::new();
        push_u64(&mut extras, amount);
        push_u64(&mut extras, 0);
        push_u32(&mut extras, NO_AUTO_CREATE);
        let none: Vec<u8> = Vec::new();
        self.request(opcode, 0, extras.as_slice(), key.as_bytes(), none.as_slice())
    }

    /// Queues `incr` by `amount`, which fails on a missing key.
    pub fn increment(&mut self, key: &str, amount: u64) -> (r: Result<(), MemcacheError>)
        ensures
            sent(*old(self), *final(self), r, OP_INCREMENT, 0, be64(amount as nat) + be64(0) + be32(NO_AUTO_CREATE as nat), key.spec_bytes(), Seq::empty()),
    {
        self.counter(OP_INCREMENT, key, amount)
    }

    /// Queues `decr` by `amount`, which fails on a missing key.
    pub fn decrement(&mut self, key: &str, amount: u64) -> (r: Result<(), MemcacheError>)
        ensures
            sent(*old(self), *final(self), r, OP_DECREMENT, 0, be64(amount as nat) + be64(0) + be32(NO_AUTO_CREATE as nat), key.spec_bytes(), Seq::empty()),
    {
        self.counter(OP_DECREMENT, key, amount)
    }

    /// Queues `touch` with a new expiration.
    pub fn touch(&mut self, key: &str, expiration: u32) -> (r: Result<(), MemcacheError>)
        ensures
            sent(*old(self), *final(self), r, OP_TOUCH, 0, be32(expiration as nat), key.spec_bytes(), Seq::empty()),
    {
        let mut extras: Vec<u8> = Vec::new();
        push_u32(&mut extras, expiration);
        let none: Vec<u8> = Vec::new();
        self.request(OP_TOUCH, 0, extras.as_slice(), key.as_bytes(), none.as_slice())
    }

    /// Queues `flush`.
    pub fn flush(&mut self) -> (r: Result<(), MemcacheError>)
        ensures
            sent(*old(self), *final(self), r, OP_FLUSH, 0, Seq::empty(), Seq::empty(), Seq::empty()),
            r is Ok,
    {
        let none: Vec<u8> = Vec::new();
        self.request(OP_FLUSH, 0, none.as_slice(), none.as_slice(), none.as_slice())
    }

    /// Queues `flush` after `delay` seconds.
    pub fn flush_with_delay(&mut self, delay: u32) -> (r: Result<(), MemcacheError>)
        ensures
            sent(*old(self), *final(self), r, OP_FLUSH, 0, be32(delay as nat), Seq::empty(), Seq::empty()),
            r is Ok,
    {
        let mut extras: Vec<u8> = Vec::new();
        push_u32(&mut extras, delay);
        let none: Vec<u8> = Vec::new();
        self.request(OP_FLUSH, 0, extras.as_slice(), none.as_slice(), none.as_slice())
    }

    /// Queues `version`.
    pub fn version(&mut self) -> (r: Result<(), MemcacheError>)
        ensures
            sent(*old(self), *final(self), r, OP_VERSION, 0, Seq::empty(), Seq::empty(), Seq::empty()),
            r is Ok,
    {
        let none: Vec<u8> = Vec::new();
        self.request(OP_VERSION, 0, none.as_slice(), none.as_slice(), none.as_slice())
    }

    /// Queues `stat`; the server answers with one packet per statistic and
    /// one with an empty key at the end.
    pub fn stats(&mut self) -> (r: Result<(), MemcacheError>)
        ensures
            sent(*old(self), *final(self), r, OP_STAT, 0, Seq::empty(), Seq::empty(), Seq::empty()),
            r is Ok,
    {
        let none: Vec<u8> = Vec::new();
        self.request(OP_STAT, 0, none.as_slice(), none.as_slice(), none.as_slice())
    }

    /// Queues a SASL `PLAIN` authentication: the value is a zero byte, the
    /// user name, a zero byte and the password.
    pub fn auth(&mut self, username: &str, password: &str) -> (r: Result<(), MemcacheError>)
        ensures
            sent(
                *old(self),
                *final(self),
                r,
                OP_SASL_AUTH,
                0,
                Seq::empty(),
                "PLAIN".spec_bytes(),
                seq![0u8] + username.spec_bytes() + seq![0u8] + password.spec_bytes(),
            ),
    {
        let mut value: Vec<u8> = Vec::new();
        value.push(0);
        push_all(&mut value, username.as_bytes());
        value.push(0);
        push_all(&mut value, password.as_bytes());
        assert(value@ =~= seq![0u8] + username.spec_bytes() + seq![0u8] + password.spec_bytes());
        let none: Vec<u8> = Vec::new();
        self.request(OP_SASL_AUTH, 0, none.as_slice(), "PLAIN".as_bytes(), value.as_slice())
    }
}

pub proof fn lemma_be16(v: nat)
    requires
        v < 0x1_0000,
    ensures
        be16(v).len() == 2,
        u16_at(be16(v), 0) == v,
{
    assert(((v / 256) % 256) * 256 + v % 256 == v) by (nonlinear_arith)
        requires v < 0x1_0000;
}

pub proof fn lemma_be32(v: nat)
    requires
        v < 0x1_0000_0000,
    ensures
        be32(v).len() == 4,
        u32_at(be32(v), 0) == v,
{
    let hi = (v / 65536) % 65536;
    let lo = v % 65536;
    lemma_be16(hi);
    lemma_be16(lo);
    let s = be32(v);
    assert(s.subrange(0, 2) =~= be16(hi));
    assert(s.subrange(2, 4) =~= be16(lo));
    assert(u16_at(s, 0) == u16_at(be16(hi), 0));
    assert(u16_at(s, 2) == u16_at(be16(lo), 0));
    assert(hi * 65536 + lo == v) by (nonlinear_arith)
        requires hi == (v / 65536) % 65536, lo == v % 65536, v < 0x1_0000_0000;
}

pub proof fn lemma_be64(v: nat)
    requires
        v < 0x1_0000_0000_0000_0000,
    ensures
        be64(v).len() == 8,
        u64_at(be64(v), 0) == v,
{
    let hi = (v / 0x1_0000_0000) % 0x1_0000_0000;
    let lo = v % 0x1_0000_0000;
    lemma_be32(hi);
    lemma_be32(lo);
    let s = be64(v);
    assert(u32_at(s, 0) == u32_at(be32(hi), 0));
    assert(u32_at(s, 4) == u32_at(be32(lo), 0));
    assert(hi * 0x1_0000_0000 + lo == v) by (nonlinear_arith)
        requires
            hi == (v / 0x1_0000_0000) % 0x1_0000_0000,
            lo == v % 0x1_0000_0000,
            v < 0x1_0000_0000_0000_0000,
    ;
}

/// The reply packet that a server sends to `get` for a key holding `value`
/// stored with `flags`, under cas token `cas`.
pub open spec fn value_packet(value: Seq<u8>, flags: u32, cas: u64) -> Seq<u8> {
    seq![RESPONSE_MAGIC, OP_GET] + be16(0) + seq![4u8, 0u8] + be16(0) + be32(4 + value.len())
        + be32(0) + be64(cas as nat) + be32(flags as nat) + value
}

/// A stored value reads back unchanged over the binary protocol: the reply
/// packet to `get` that carries `value` and `flags` is read as exactly that
/// value, those flags and that cas token, and whatever follows the packet
/// stays in the buffer.
pub proof fn lemma_get_round_trip(value: Seq<u8>, flags: u32, cas: u64, rest: Seq<u8>)
    requires
        value.len() + 4 <= u32::MAX,
    ensures
        packet_at(value_packet(value, flags, cas) + rest) matches Some((Ok(p), m)) && m
            == value_packet(value, flags, cas).len() && p.3 == cas && get_outcome(p) == Ok::<
            Option<(Seq<u8>, u32)>,
            Fault,
        >(Some((value, flags))),
{
    let pk = value_packet(value, flags, cas);
    let s = pk + rest;
    lemma_be16(0);
    lemma_be32((4 + value.len()) as nat);
    lemma_be32(0);
    lemma_be64(cas as nat);
    lemma_be32(flags as nat);
    assert(pk.len() == 28 + value.len());
    assert(s.subrange(2, 4) =~= be16(0));
    assert(u16_at(s, 2) == u16_at(be16(0), 0));
    assert(u16_at(s, 6) == u16_at(be16(0), 0));
    assert(s.subrange(8, 12) =~= be32((4 + value.len()) as nat));
    assert(u32_at(s, 8) == u32_at(be32((4 + value.len()) as nat), 0));
    assert(u64_at(s, 16) == u64_at(be64(cas as nat), 0));
    assert(s.subrange(24, 28) =~= be32(flags as nat));
    assert(s.subrange(28, 28) =~= Seq::<u8>::empty());
    assert(s.subrange(28, 28 + value.len() as int) =~= value);
}

} // verus!
