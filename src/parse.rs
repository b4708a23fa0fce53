use vstd::prelude::*;

verus! {

/// Index of the first `sep` at or after `i`, or the length where there is none.
pub open spec fn sep_from(s: Seq<u8>, i: int, sep: u8) -> int
    decreases s.len() - i,
{
    if i < 0 || i >= s.len() {
        s.len() as int
    } else if s[i] == sep {
        i
    } else {
        sep_from(s, i + 1, sep)
    }
}

/// Where field `k` of `s`, split on `sep`, begins; past the end where `s` has fewer fields.
pub open spec fn field_start(s: Seq<u8>, k: nat, sep: u8) -> int
    decreases k,
{
    if k == 0 {
        0
    } else {
        sep_from(s, field_start(s, (k - 1) as nat, sep), sep) + 1
    }
}

/// Field `k` of `s` split on `sep`; empty where `s` has fewer fields.
pub open spec fn field(s: Seq<u8>, k: nat, sep: u8) -> Seq<u8> {
    let a = field_start(s, k, sep);
    if a <= s.len() {
        s.subrange(a, sep_from(s, a, sep))
    } else {
        Seq::empty()
    }
}

/// Everything from field `k` on, separators included; empty where `s` has fewer fields.
pub open spec fn rest_from(s: Seq<u8>, k: nat, sep: u8) -> Seq<u8> {
    let a = field_start(s, k, sep);
    if a <= s.len() {
        s.subrange(a, s.len() as int)
    } else {
        Seq::empty()
    }
}

pub open spec fn is_digit(b: u8) -> bool {
    48u8 <= b <= 57u8
}

/// The value of a string of decimal digits.
pub open spec fn digits_value(s: Seq<u8>) -> int
    decreases s.len(),
{
    if s.len() == 0 {
        0
    } else {
        digits_value(s.drop_last()) * 10 + (s.last() - 48u8)
    }
}

pub open spec fn all_digits(s: Seq<u8>) -> bool {
    forall|i: int| 0 <= i < s.len() ==> is_digit(#[trigger] s[i])
}

/// A decimal `i32` as Rust's `str::parse` reads one: an optional sign and at
/// least one digit, nothing else, and the value in range.
pub open spec fn parse_i32_spec(s: Seq<u8>) -> Option<i32> {
    let neg = s.len() > 0 && s[0] == 45u8;
    let start: int = if s.len() > 0 && (s[0] == 45u8 || s[0] == 43u8) { 1 } else { 0 };
    let d = s.subrange(start, s.len() as int);
    if d.len() == 0 || !all_digits(d) {
        None
    } else {
        let v = if neg { -digits_value(d) } else { digits_value(d) };
        if i32::MIN <= v <= i32::MAX { Some(v as i32) } else { None }
    }
}

/// Index of the first `sep` at or after `start`, or the length.
pub fn find_sep(s: &[u8], start: usize, sep: u8) -> (r: usize)
    requires
        start <= s@.len(),
    ensures
        r == sep_from(s@, start as int, sep),
        start <= r <= s@.len(),
{
    let mut i = start;
    while i < s.len()
        invariant
            start <= i <= s@.len(),
            sep_from(s@, i as int, sep) == sep_from(s@, start as int, sep),
        decreases s@.len() - i,
    {
        if s[i] == sep {
            return i;
        }
        i = i + 1;
    }
    i
}

/// A copy of `s[a..b]`.
pub fn copy_range(s: &[u8], a: usize, b: usize) -> (r: Vec<u8>)
    requires
        a <= b <= s@.len(),
    ensures
        r@ == s@.subrange(a as int, b as int),
{
    let mut r: Vec<u8> = Vec::new();
    let mut i = a;
    while i < b
        invariant
            a <= i <= b <= s@.len(),
            r@ == s@.subrange(a as int, i as int),
        decreases b - i,
    {
        r.push(s[i]);
        i = i + 1;
        assert(r@ =~= s@.subrange(a as int, i as int));
    }
    r
}

proof fn lemma_digits_grow(s: Seq<u8>, k: int)
    requires
        0 <= k <= s.len(),
        forall|i: int| 0 <= i < s.len() ==> is_digit(#[trigger] s[i]),
    ensures
        digits_value(s.subrange(0, k)) <= digits_value(s),
        0 <= digits_value(s.subrange(0, k)),
    decreases s.len() - k,
{
    lemma_digits_nonneg(s.subrange(0, k));
    if k < s.len() {
        let t = s.subrange(0, k + 1);
        assert(t.drop_last() =~= s.subrange(0, k));
        lemma_digits_grow(s, k + 1);
    } else {
        assert(s.subrange(0, k) =~= s);
    }
}

proof fn lemma_digits_nonneg(s: Seq<u8>)
    requires
        forall|i: int| 0 <= i < s.len() ==> is_digit(#[trigger] s[i]),
    ensures
        0 <= digits_value(s),
    decreases s.len(),
{
    if s.len() > 0 {
        lemma_digits_nonneg(s.drop_last());
    }
}

/// The value of the digits `s[a..b]`, where all are digits and it is at most 2^31.
fn parse_digits(s: &[u8], a: usize, b: usize) -> (r: Option<i64>)
    requires
        a <= b <= s@.len(),
    ensures
        r is Some <==> (all_digits(s@.subrange(a as int, b as int)) && digits_value(
            s@.subrange(a as int, b as int),
        ) <= 0x8000_0000),
        r is Some ==> r->0 == digits_value(s@.subrange(a as int, b as int)),
        r is Some ==> 0 <= r->0 <= 0x8000_0000,
{
    let ghost d = s@.subrange(a as int, b as int);
    let mut acc: i64 = 0;
    let mut i = a;
    while i < b
        invariant
            a <= i <= b <= s@.len(),
            d == s@.subrange(a as int, b as int),
            forall|j: int| a <= j < i ==> is_digit(#[trigger] s@[j]),
            acc == digits_value(s@.subrange(a as int, i as int)),
            0 <= acc <= 0x8000_0000,
        decreases b - i,
    {
        let c = s[i];
        if c < 48u8 || c > 57u8 {
            assert(d[i - a] == s@[i as int]);
            return None;
        }
        let ghost pre = s@.subrange(a as int, i as int);
        let ghost nxt = s@.subrange(a as int, i + 1);
        assert(nxt.drop_last() =~= pre);
        let v = acc * 10 + (c - 48u8) as i64;
        i = i + 1;
        if v > 0x8000_0000 {
            proof {
                assert(nxt.last() == c);
                assert(digits_value(nxt) == v);
                assert(nxt =~= d.subrange(0, nxt.len() as int));
                if all_digits(d) {
                    lemma_digits_grow(d, nxt.len() as int);
                }
            }
            return None;
        }
        acc = v;
    }
    proof {
        assert(s@.subrange(a as int, i as int) =~= d);
        assert forall|j: int| 0 <= j < d.len() implies is_digit(#[trigger] d[j]) by {
            assert(d[j] == s@[a + j]);
        }
    }
    Some(acc)
}

/// Reads a decimal `i32` from `s[a..b]`, as `str::parse::<i32>` would.
pub fn parse_i32(s: &[u8], a: usize, b: usize) -> (r: Option<i32>)
    requires
        a <= b <= s@.len(),
    ensures
        r == parse_i32_spec(s@.subrange(a as int, b as int)),
{
    let ghost t = s@.subrange(a as int, b as int);
    if a == b {
        return None;
    }
    assert(t[0] == s@[a as int]);
    let neg = s[a] == 45u8;
    let start: usize = if s[a] == 45u8 || s[a] == 43u8 { a + 1 } else { a };
    assert(t.subrange(start - a, t.len() as int) =~= s@.subrange(start as int, b as int));
    if start == b {
        return None;
    }
    match parse_digits(s, start, b) {
        None => None,
        Some(v) => {
            if neg {
                Some((0 - v) as i32)
            } else if v <= 0x7fff_ffff {
                Some(v as i32)
            } else {
                None
            }
        },
    }
}


/// Where field `k` of `s` ends; the length where `s` has fewer fields.
pub open spec fn field_end(s: Seq<u8>, k: nat, sep: u8) -> int {
    let a = field_start(s, k, sep);
    if a <= s.len() {
        sep_from(s, a, sep)
    } else {
        s.len() as int
    }
}

proof fn lemma_sep_from_range(s: Seq<u8>, i: int, sep: u8)
    ensures
        0 <= i <= s.len() ==> i <= sep_from(s, i, sep) <= s.len(),
        i >= s.len() ==> sep_from(s, i, sep) == s.len(),
    decreases s.len() - i,
{
    if 0 <= i < s.len() && s[i] != sep {
        lemma_sep_from_range(s, i + 1, sep);
    }
}

proof fn lemma_field_start_nonneg(s: Seq<u8>, k: nat, sep: u8)
    ensures
        field_start(s, k, sep) >= 0,
    decreases k,
{
    if k > 0 {
        lemma_field_start_nonneg(s, (k - 1) as nat, sep);
        let a = field_start(s, (k - 1) as nat, sep);
        if a <= s.len() {
            lemma_sep_from_range(s, a, sep);
        } else {
            lemma_sep_from_range(s, a, sep);
        }
    }
}

/// Bounds of the field that follows the one ending at `prev_end`;
/// an empty range at the end where there is none.
pub(crate) fn next_field(s: &[u8], prev_end: usize, sep: u8, k: Ghost<nat>) -> (r: (usize, usize))
    requires
        prev_end == field_end(s@, k@, sep),
    ensures
        r.0 <= r.1 <= s@.len(),
        r.1 == field_end(s@, k@ + 1, sep),
        s@.subrange(r.0 as int, r.1 as int) == field(s@, k@ + 1, sep),
        s@.subrange(r.0 as int, s@.len() as int) == rest_from(s@, k@ + 1, sep),
{
    proof {
        let a = field_start(s@, k@, sep);
        lemma_field_start_nonneg(s@, k@, sep);
        lemma_sep_from_range(s@, a, sep);
        assert(field_start(s@, k@ + 1, sep) == sep_from(s@, a, sep) + 1);
        lemma_sep_from_range(s@, prev_end + 1, sep);
    }
    if prev_end < s.len() {
        let e = find_sep(s, prev_end + 1, sep);
        (prev_end + 1, e)
    } else {
        assert(s@.subrange(s@.len() as int, s@.len() as int) =~= Seq::<u8>::empty());
        (s.len(), s.len())
    }
}

/// Bounds of the first field.
pub fn first_field(s: &[u8], sep: u8) -> (r: (usize, usize))
    ensures
        r.0 == 0,
        r.1 <= s@.len(),
        r.1 == field_end(s@, 0, sep),
        s@.subrange(0, r.1 as int) == field(s@, 0, sep),
{
    let e = find_sep(s, 0, sep);
    (0, e)
}

} // verus!
