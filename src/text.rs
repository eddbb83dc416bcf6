//! Byte-level text helpers for the memcached wire formats: prefixes, lines,
//! space-separated fields and unsigned decimal numbers.
use vstd::prelude::*;

verus! {

/// Line feed: the byte that ends every protocol line.
pub const LF: u8 = 10;

/// Carriage return: the byte before the line feed in a well-formed line.
pub const CR: u8 = 13;

/// The separator between the fields of a protocol line.
pub const SPACE: u8 = 32;

/// `p` is a prefix of `s`.
pub open spec fn is_prefix(p: Seq<u8>, s: Seq<u8>) -> bool {
    p.len() <= s.len() && s.take(p.len() as int) == p
}

/// The first index at or after `from` that holds `b`, if any.
pub open spec fn find_from(s: Seq<u8>, b: u8, from: nat) -> Option<nat>
    decreases s.len() - from,
{
    if from >= s.len() {
        None
    } else if s[from as int] == b {
        Some(from)
    } else {
        find_from(s, b, from + 1)
    }
}

/// The length of the line that starts at `from`, its line feed included, or
/// `None` while no line feed has arrived.
pub open spec fn line_len_at(s: Seq<u8>, from: nat) -> Option<nat> {
    match find_from(s, LF, from) {
        Some(k) => Some((k + 1 - from) as nat),
        None => None,
    }
}

/// A line without its terminator: the final line feed goes, and a carriage
/// return just before it goes too.
pub open spec fn line_body(line: Seq<u8>) -> Seq<u8> {
    if line.len() >= 2 && line[line.len() - 1] == LF && line[line.len() - 2] == CR {
        line.take(line.len() - 2)
    } else if line.len() >= 1 && line[line.len() - 1] == LF {
        line.take(line.len() - 1)
    } else {
        line
    }
}

/// The pieces of `s` from `from` on between single spaces, as `str::split(" ")`
/// gives them: `n` spaces always give `n + 1` pieces, some of them empty.
pub open spec fn fields_from(s: Seq<u8>, from: nat) -> Seq<Seq<u8>>
    decreases s.len() - from via fields_from_decreases
{
    match find_from(s, SPACE, from) {
        Some(k) => seq![s.subrange(from as int, k as int)] + fields_from(s, k + 1),
        None => seq![s.subrange(from as int, s.len() as int)],
    }
}

#[via_fn]
proof fn fields_from_decreases(s: Seq<u8>, from: nat) {
    lemma_find_from_bounds(s, SPACE, from);
}

/// The space-separated fields of `s`.
pub open spec fn fields(s: Seq<u8>) -> Seq<Seq<u8>> {
    fields_from(s, 0)
}

pub open spec fn is_digit(b: u8) -> bool {
    48 <= b <= 57
}

/// A non-empty run of decimal digits.
pub open spec fn is_decimal(s: Seq<u8>) -> bool {
    s.len() > 0 && forall|i: int| 0 <= i < s.len() ==> is_digit(#[trigger] s[i])
}

/// The number that the digits of `s` spell.
pub open spec fn digits_value(s: Seq<u8>) -> nat
    decreases s.len(),
{
    if s.len() == 0 {
        0
    } else {
        digits_value(s.drop_last()) * 10 + (s.last() - 48) as nat
    }
}

/// The decimal digits of `n`, without leading zeros.
pub open spec fn decimal(n: nat) -> Seq<u8>
    decreases n,
{
    if n < 10 {
        seq![(48 + n) as u8]
    } else {
        decimal(n / 10).push((48 + n % 10) as u8)
    }
}

/// What `str::parse::<u64>` gives for a run of digits: the number, or `None`
/// where `s` is not all digits or the number does not fit.
pub open spec fn parsed_u64(s: Seq<u8>) -> Option<u64> {
    if is_decimal(s) && digits_value(s) <= u64::MAX {
        Some(digits_value(s) as u64)
    } else {
        None
    }
}

pub fn starts_with(s: &[u8], p: &[u8]) -> (r: bool)
    ensures
        r == is_prefix(p@, s@),
{
    if p.len() > s.len() {
        return false;
    }
    let mut i: usize = 0;
    while i < p.len()
        invariant
            p@.len() <= s@.len(),
            i <= p@.len(),
            forall|j: int| 0 <= j < i ==> s@[j] == p@[j],
        decreases p@.len() - i,
    {
        if s[i] != p[i] {
            assert(s@.take(p@.len() as int)[i as int] != p@[i as int]);
            return false;
        }
        i = i + 1;
    }
    assert(s@.take(p@.len() as int) =~= p@);
    true
}

pub fn bytes_equal(a: &[u8], b: &[u8]) -> (r: bool)
    ensures
        r == (a@ == b@),
{
    if a.len() != b.len() {
        return false;
    }
    let r = starts_with(a, b);
    assert(a@ =~= a@.take(b@.len() as int));
    r
}

/// Finds the first `b` at or after `from`.
pub fn find_byte(s: &[u8], b: u8, from: usize) -> (r: Option<usize>)
    ensures
        match r {
            Some(k) => find_from(s@, b, from as nat) == Some(k as nat),
            None => find_from(s@, b, from as nat) is None,
        },
{
    let mut i: usize = from;
    while i < s.len()
        invariant
            from <= i || s@.len() <= from,
            find_from(s@, b, from as nat) == find_from(s@, b, i as nat),
        decreases s@.len() - i,
    {
        if s[i] == b {
            return Some(i);
        }
        i = i + 1;
    }
    None
}

/// The line that starts at `from`, as its length with the line feed.
pub fn line_len(s: &[u8], from: usize) -> (r: Option<usize>)
    ensures
        match r {
            Some(n) => line_len_at(s@, from as nat) == Some(n as nat) && from + n <= s@.len()
                && s@.len() <= usize::MAX && n >= 1 && s@[from + n - 1] == LF,
            None => line_len_at(s@, from as nat) is None,
        },
{
    let n = s.len();
    match find_byte(s, LF, from) {
        Some(k) => {
            proof { lemma_find_from_bounds(s@, LF, from as nat); }
            Some(k - from + 1)
        },
        None => None,
    }
}

pub proof fn lemma_find_from_bounds(s: Seq<u8>, b: u8, from: nat)
    ensures
        match find_from(s, b, from) {
            Some(k) => from <= k < s.len() && s[k as int] == b,
            None => true,
        },
    decreases s.len() - from,
{
    if from < s.len() && s[from as int] != b {
        lemma_find_from_bounds(s, b, from + 1);
    }
}

/// Copies `s[from..to]`.
pub fn copy_range(s: &[u8], from: usize, to: usize) -> (r: Vec<u8>)
    requires
        from <= to <= s@.len(),
    ensures
        r@ == s@.subrange(from as int, to as int),
{
    let mut r: Vec<u8> = Vec::with_capacity(to - from);
    let mut i: usize = from;
    while i < to
        invariant
            from <= i <= to <= s@.len(),
            r@ == s@.subrange(from as int, i as int),
        decreases to - i,
    {
        r.push(s[i]);
        i = i + 1;
        assert(r@ =~= s@.subrange(from as int, i as int));
    }
    r
}

/// The body of a line: the line without its terminator.
pub fn trim_line(line: &[u8]) -> (r: Vec<u8>)
    ensures
        r@ == line_body(line@),
{
    let n = line.len();
    if n >= 2 && line[n - 1] == LF && line[n - 2] == CR {
        copy_range(line, 0, n - 2)
    } else if n >= 1 && line[n - 1] == LF {
        copy_range(line, 0, n - 1)
    } else {
        proof { assert(line@.subrange(0, n as int) =~= line@); }
        copy_range(line, 0, n)
    }
}

/// Splits `s` at every single space.
pub fn split_fields(s: &[u8]) -> (r: Vec<Vec<u8>>)
    ensures
        r@.map_values(|v: Vec<u8>| v@) == fields(s@),
{
    let mut r: Vec<Vec<u8>> = Vec::new();
    let mut start: usize = 0;
    let len = s.len();
    loop
        invariant
            len == s@.len(),
            start <= s@.len(),
            fields(s@) == r@.map_values(|v: Vec<u8>| v@) + fields_from(s@, start as nat),
        decreases s@.len() - start,
    {
        match find_byte(s, SPACE, start) {
            Some(k) => {
                proof { lemma_find_from_bounds(s@, SPACE, start as nat); }
                let piece = copy_range(s, start, k);
                let ghost before = r@.map_values(|v: Vec<u8>| v@);
                r.push(piece);
                proof {
                    assert(r@.map_values(|v: Vec<u8>| v@) =~= before.push(piece@));
                    assert(fields(s@) =~= r@.map_values(|v: Vec<u8>| v@) + fields_from(
                        s@,
                        (k + 1) as nat,
                    ));
                }
                start = k + 1;
            },
            None => {
                let piece = copy_range(s, start, s.len());
                let ghost before = r@.map_values(|v: Vec<u8>| v@);
                r.push(piece);
                proof {
                    assert(r@.map_values(|v: Vec<u8>| v@) =~= before.push(piece@));
                    assert(fields(s@) =~= r@.map_values(|v: Vec<u8>| v@));
                }
                return r;
            },
        }
    }
}

pub proof fn lemma_digits_value_push(s: Seq<u8>, d: u8)
    ensures
        digits_value(s.push(d)) == digits_value(s) * 10 + (d - 48) as nat,
{
    assert(s.push(d).drop_last() =~= s);
}

/// A longer run of digits is worth at least as much as its prefix.
pub proof fn lemma_digits_value_grows(s: Seq<u8>, i: int)
    requires
        0 <= i <= s.len(),
        forall|j: int| 0 <= j < s.len() ==> is_digit(#[trigger] s[j]),
    ensures
        digits_value(s.take(i)) <= digits_value(s),
    decreases s.len() - i,
{
    if i < s.len() {
        lemma_digits_value_grows(s, i + 1);
        assert(s.take(i + 1).drop_last() =~= s.take(i));
        assert(digits_value(s.take(i + 1)) == digits_value(s.take(i)) * 10 + (s[i] - 48) as nat);
    } else {
        assert(s.take(i) =~= s);
    }
}

/// Reads a run of decimal digits as a `u64`.
pub fn parse_u64(s: &[u8]) -> (r: Option<u64>)
    ensures
        r == parsed_u64(s@),
{
    if s.len() == 0 {
        return None;
    }
    let mut v: u64 = 0;
    let mut i: usize = 0;
    while i < s.len()
        invariant
            i <= s@.len(),
            forall|j: int| 0 <= j < i ==> is_digit(#[trigger] s@[j]),
            v as nat == digits_value(s@.take(i as int)),
        decreases s@.len() - i,
    {
        let b = s[i];
        if b < 48 || b > 57 {
            assert(!is_digit(s@[i as int]));
            return None;
        }
        proof {
            assert(s@.take(i as int + 1) =~= s@.take(i as int).push(b));
            lemma_digits_value_push(s@.take(i as int), b);
        }
        let d = (b - 48) as u64;
        if v > (u64::MAX - d) / 10 {
            proof {
                assert(v * 10 + d > u64::MAX) by (nonlinear_arith)
                    requires v > (u64::MAX - d) / 10, d <= 9;
                if is_decimal(s@) {
                    lemma_digits_value_grows(s@, i as int + 1);
                }
            }
            return None;
        }
        proof {
            assert(v * 10 + d <= u64::MAX) by (nonlinear_arith)
                requires v <= (u64::MAX - d) / 10, d <= 9;
        }
        v = v * 10 + d;
        i = i + 1;
    }
    assert(s@.take(s@.len() as int) =~= s@);
    Some(v)
}

pub proof fn lemma_decimal_is_digits(n: nat)
    ensures
        is_decimal(decimal(n)),
        digits_value(decimal(n)) == n,
        decimal(n).len() >= 1,
    decreases n,
{
    if n >= 10 {
        lemma_decimal_is_digits(n / 10);
        let d = (48 + n % 10) as u8;
        lemma_digits_value_push(decimal(n / 10), d);
        assert((d - 48) as nat == n % 10);
        assert(n == (n / 10) * 10 + n % 10);
        assert forall|i: int| 0 <= i < decimal(n).len() implies is_digit(#[trigger] decimal(n)[i]) by {
            if i < decimal(n / 10).len() {
                assert(decimal(n)[i] == decimal(n / 10)[i]);
            }
        }
    } else {
        assert(decimal(n).drop_last() =~= Seq::<u8>::empty());
        assert(digits_value(Seq::<u8>::empty()) == 0);
        assert(digits_value(decimal(n)) == n);
    }
}

/// Appends the decimal digits of `n` to `out`.
pub fn push_decimal(out: &mut Vec<u8>, n: u64)
    ensures
        final(out)@ == old(out)@ + decimal(n as nat),
    decreases n,
{
    if n >= 10 {
        push_decimal(out, n / 10);
    }
    out.push((48 + n % 10) as u8);
    assert(out@ =~= old(out)@ + decimal(n as nat));
}

/// Appends all of `b` to `out`.
pub fn push_all(out: &mut Vec<u8>, b: &[u8])
    ensures
        final(out)@ == old(out)@ + b@,
{
    let mut i: usize = 0;
    while i < b.len()
        invariant
            i <= b@.len(),
            out@ == old(out)@ + b@.take(i as int),
        decreases b@.len() - i,
    {
        out.push(b[i]);
        i = i + 1;
        assert(out@ =~= old(out)@ + b@.take(i as int));
    }
    assert(b@.take(b@.len() as int) =~= b@);
}

/// The first `b` at or after `i` is at `k` when `k` holds one and nothing
/// between `i` and `k` does.
pub proof fn lemma_find_first(s: Seq<u8>, b: u8, i: nat, k: nat)
    requires
        i <= k < s.len(),
        s[k as int] == b,
        forall|j: int| i <= j < k ==> s[j] != b,
    ensures
        find_from(s, b, i) == Some(k),
    decreases k - i,
{
    if i < k {
        lemma_find_first(s, b, i + 1, k);
    }
}

/// There is no `b` at or after `i` when nothing from `i` on holds one.
pub proof fn lemma_find_none(s: Seq<u8>, b: u8, i: nat)
    requires
        forall|j: int| i <= j < s.len() ==> s[j] != b,
    ensures
        find_from(s, b, i) is None,
    decreases s.len() - i,
{
    if i < s.len() {
        lemma_find_none(s, b, i + 1);
    }
}

/// The fields from `from` on, where the next space is at `k`.
pub proof fn lemma_fields_step(s: Seq<u8>, from: nat, k: nat)
    requires
        from <= k < s.len(),
        s[k as int] == SPACE,
        forall|j: int| from <= j < k ==> s[j] != SPACE,
    ensures
        fields_from(s, from) == seq![s.subrange(from as int, k as int)] + fields_from(s, k + 1),
{
    lemma_find_first(s, SPACE, from, k);
}

/// The last field, where no space follows `from`.
pub proof fn lemma_fields_last(s: Seq<u8>, from: nat)
    requires
        from <= s.len(),
        forall|j: int| from <= j < s.len() ==> s[j] != SPACE,
    ensures
        fields_from(s, from) == seq![s.subrange(from as int, s.len() as int)],
{
    lemma_find_none(s, SPACE, from);
}

} // verus!
