//! Routing keys to servers: a stable 64-bit hash of the key, the server
//! index `hash mod servers`, and the partition of a batch by server.
use vstd::prelude::*;
use vstd::string::StringSliceAdditionalSpecFns;

verus! {

/// The FNV-1a offset basis for 64-bit hashes.
pub const FNV_OFFSET: u64 = 0xcbf2_9ce4_8422_2325;

/// The FNV-1a prime for 64-bit hashes.
pub const FNV_PRIME: u64 = 0x0000_0100_0000_01b3;

/// The 64-bit FNV-1a hash of `s`.
pub open spec fn fnv1a(s: Seq<u8>) -> u64
    decreases s.len(),
{
    if s.len() == 0 {
        FNV_OFFSET
    } else {
        (fnv1a(s.drop_last()) ^ (s.last() as u64)).wrapping_mul(FNV_PRIME)
    }
}

/// The server that a key with hash `hash` goes to, of `servers`.
pub open spec fn server_of(hash: u64, servers: nat) -> nat
    recommends
        servers > 0,
{
    (hash as nat) % servers
}

/// The positions below `k` in `hashes` whose keys go to server `s`, in order.
pub open spec fn positions_below(hashes: Seq<u64>, servers: nat, s: nat, k: nat) -> Seq<usize>
    decreases k,
{
    if k == 0 {
        Seq::empty()
    } else {
        let before = positions_below(hashes, servers, s, (k - 1) as nat);
        if server_of(hashes[k - 1], servers) == s {
            before.push((k - 1) as usize)
        } else {
            before
        }
    }
}

/// The positions in `hashes` whose keys go to server `s`, in order.
pub open spec fn positions_on(hashes: Seq<u64>, servers: nat, s: nat) -> Seq<usize> {
    positions_below(hashes, servers, s, hashes.len())
}

/// The default hash of a key: 64-bit FNV-1a over its bytes, which gives the
/// same value in every process, so that keys keep their servers across
/// restarts.
pub fn default_hash_function(key: &str) -> (r: u64)
    ensures
        r == fnv1a(key.spec_bytes()),
{
    let bytes = key.as_bytes();
    let mut h: u64 = FNV_OFFSET;
    let mut i: usize = 0;
    while i < bytes.len()
        invariant
            i <= bytes@.len(),
            bytes@ == key.spec_bytes(),
            h == fnv1a(bytes@.take(i as int)),
        decreases bytes@.len() - i,
    {
        proof {
            assert(bytes@.take(i as int + 1).drop_last() =~= bytes@.take(i as int));
        }
        h = (h ^ (bytes[i] as u64)).wrapping_mul(FNV_PRIME);
        i = i + 1;
    }
    assert(bytes@.take(bytes@.len() as int) =~= bytes@);
    h
}

/// The index of the server that a key with hash `hash` goes to.
pub fn pick(hash: u64, servers: usize) -> (r: usize)
    requires
        servers > 0,
    ensures
        r as nat == server_of(hash, servers as nat),
        r < servers,
{
    (hash % (servers as u64)) as usize
}

/// Splits a batch by server: entry `s` of the result lists, in order, the
/// positions of the keys (given by their hashes) that go to server `s`.
pub fn group(hashes: &[u64], servers: usize) -> (r: Vec<Vec<usize>>)
    requires
        servers > 0,
    ensures
        r@.len() == servers,
        forall|s: int| 0 <= s < servers ==> (#[trigger] r@[s])@ == positions_on(hashes@, servers as nat, s as nat),
{
    let mut r: Vec<Vec<usize>> = Vec::new();
    let mut s: usize = 0;
    while s < servers
        invariant
            s <= servers,
            r@.len() == s,
            forall|t: int| 0 <= t < s ==> (#[trigger] r@[t])@ == positions_on(hashes@, servers as nat, t as nat),
        decreases servers - s,
    {
        let mut mine: Vec<usize> = Vec::new();
        let mut i: usize = 0;
        while i < hashes.len()
            invariant
                i <= hashes@.len(),
                s < servers,
                mine@ == positions_below(hashes@, servers as nat, s as nat, i as nat),
            decreases hashes@.len() - i,
        {
            if pick(hashes[i], servers) == s {
                mine.push(i);
            }
            i = i + 1;
        }
        r.push(mine);
        s = s + 1;
    }
    r
}

pub proof fn lemma_positions_below(hashes: Seq<u64>, servers: nat, s: nat, k: nat)
    requires
        servers > 0,
        k <= hashes.len(),
        hashes.len() <= usize::MAX,
    ensures
        forall|i: int| 0 <= i < k ==> (positions_below(hashes, servers, s, k).contains(i as usize)
            <==> server_of(hashes[i], servers) == s),
        forall|j: int| 0 <= j < positions_below(hashes, servers, s, k).len() ==> (
        #[trigger] positions_below(hashes, servers, s, k)[j]) < k,
        forall|j: int, l: int|
            0 <= j < l < positions_below(hashes, servers, s, k).len() ==> (
            #[trigger] positions_below(hashes, servers, s, k)[j]) < (
            #[trigger] positions_below(hashes, servers, s, k)[l]),
    decreases k,
{
    if k > 0 {
        let k1 = (k - 1) as nat;
        lemma_positions_below(hashes, servers, s, k1);
        let before = positions_below(hashes, servers, s, k1);
        let now = positions_below(hashes, servers, s, k);
        assert forall|i: int| 0 <= i < k implies (now.contains(i as usize) <==> server_of(
            hashes[i],
            servers,
        ) == s) by {
            if i < k1 {
                if now.contains(i as usize) {
                    let j = choose|j: int| 0 <= j < now.len() && now[j] == i as usize;
                    if j < before.len() {
                        assert(before[j] == i as usize);
                    }
                }
                if before.contains(i as usize) {
                    let j = choose|j: int| 0 <= j < before.len() && before[j] == i as usize;
                    assert(now[j] == i as usize);
                }
            } else {
                if server_of(hashes[i], servers) == s {
                    assert(now[now.len() - 1] == i as usize);
                } else {
                    if before.contains(i as usize) {
                        let j = choose|j: int| 0 <= j < before.len() && before[j] == i as usize;
                        assert(before[j] < k1);
                    }
                }
            }
        }
    }
}

/// The sizes of the groups of the first `n` servers, for the first `k` keys.
pub open spec fn group_sizes(hashes: Seq<u64>, servers: nat, k: nat, n: nat) -> nat
    decreases n,
{
    if n == 0 {
        0
    } else {
        group_sizes(hashes, servers, k, (n - 1) as nat) + positions_below(
            hashes,
            servers,
            (n - 1) as nat,
            k,
        ).len()
    }
}

proof fn lemma_group_sizes_step(hashes: Seq<u64>, servers: nat, k: nat, n: nat)
    requires
        servers > 0,
        1 <= k <= hashes.len(),
    ensures
        group_sizes(hashes, servers, k, n) == group_sizes(hashes, servers, (k - 1) as nat, n) + (
        if server_of(hashes[k - 1], servers) < n {
            1nat
        } else {
            0nat
        }),
    decreases n,
{
    if n > 0 {
        lemma_group_sizes_step(hashes, servers, k, (n - 1) as nat);
    }
}

proof fn lemma_group_sizes_total(hashes: Seq<u64>, servers: nat, k: nat)
    requires
        servers > 0,
        k <= hashes.len(),
    ensures
        group_sizes(hashes, servers, k, servers) == k,
    decreases k,
{
    if k == 0 {
        lemma_group_sizes_empty(hashes, servers, servers);
    } else {
        lemma_group_sizes_total(hashes, servers, (k - 1) as nat);
        lemma_group_sizes_step(hashes, servers, k, servers);
    }
}

proof fn lemma_group_sizes_empty(hashes: Seq<u64>, servers: nat, n: nat)
    ensures
        group_sizes(hashes, servers, 0, n) == 0,
    decreases n,
{
    if n > 0 {
        lemma_group_sizes_empty(hashes, servers, (n - 1) as nat);
    }
}

/// A batch is split without loss or repetition: each key position appears in
/// the group of exactly the server it picks, once, and in no other group, so
/// that the groups together are a permutation of the batch; their sizes add
/// up to the size of the batch.
pub proof fn lemma_group_partition(hashes: Seq<u64>, servers: nat)
    requires
        servers > 0,
        hashes.len() <= usize::MAX,
    ensures
        group_sizes(hashes, servers, hashes.len(), servers) == hashes.len(),
        forall|s: nat, i: int|
            0 <= i < hashes.len() ==> (#[trigger] positions_on(hashes, servers, s).contains(
                i as usize,
            ) <==> server_of(hashes[i], servers) == s),
        forall|s: nat| #[trigger] positions_on(hashes, servers, s).no_duplicates(),
        forall|s: nat, j: int|
            0 <= j < positions_on(hashes, servers, s).len() ==> (#[trigger] positions_on(
                hashes,
                servers,
                s,
            )[j]) < hashes.len(),
{
    lemma_group_sizes_total(hashes, servers, hashes.len());
    assert forall|s: nat, i: int| 0 <= i < hashes.len() implies (#[trigger] positions_on(
        hashes,
        servers,
        s,
    ).contains(i as usize) <==> server_of(hashes[i], servers) == s) by {
        lemma_positions_below(hashes, servers, s, hashes.len());
    }
    assert forall|s: nat| #[trigger] positions_on(hashes, servers, s).no_duplicates() by {
        lemma_positions_below(hashes, servers, s, hashes.len());
        let p = positions_on(hashes, servers, s);
        assert forall|j: int, l: int| 0 <= j < p.len() && 0 <= l < p.len() && j != l implies p[j]
            != p[l] by {
            if j < l {
                assert(p[j] < p[l]);
            } else {
                assert(p[l] < p[j]);
            }
        }
    }
    assert forall|s: nat, j: int| 0 <= j < positions_on(hashes, servers, s).len() implies (
    #[trigger] positions_on(hashes, servers, s)[j]) < hashes.len() by {
        lemma_positions_below(hashes, servers, s, hashes.len());
    }
}

/// Routing is stable: a key's server depends on its hash and the number of
/// servers alone. Two batches that hold keys with the same hash put them in
/// the same group, whatever else either batch holds.
pub proof fn lemma_routing_stable(
    a: Seq<u64>,
    i: int,
    b: Seq<u64>,
    j: int,
    servers: nat,
    s: nat,
)
    requires
        servers > 0,
        a.len() <= usize::MAX,
        b.len() <= usize::MAX,
        0 <= i < a.len(),
        0 <= j < b.len(),
        a[i] == b[j],
    ensures
        positions_on(a, servers, s).contains(i as usize) <==> positions_on(b, servers, s).contains(
            j as usize,
        ),
{
    lemma_group_partition(a, servers);
    lemma_group_partition(b, servers);
}

} // verus!
