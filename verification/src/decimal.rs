//! Decimal text as the device endpoints speak it: parsing of unsigned
//! values with surrounding whitespace, and their canonical rendering.

use vstd::prelude::*;

use crate::error::BacklightError;

verus! {

/// ASCII whitespace as it appears around endpoint values.
pub open spec fn is_space(b: u8) -> bool {
    b == 32 || b == 9 || b == 10 || b == 13
}

/// ASCII decimal digit.
pub open spec fn is_digit(b: u8) -> bool {
    48 <= b && b <= 57
}

/// The text with leading whitespace removed.
pub open spec fn trim_front(s: Seq<u8>) -> Seq<u8>
    decreases s.len(),
{
    if s.len() > 0 && is_space(s[0]) {
        trim_front(s.subrange(1, s.len() as int))
    } else {
        s
    }
}

/// The text with trailing whitespace removed.
pub open spec fn trim_back(s: Seq<u8>) -> Seq<u8>
    decreases s.len(),
{
    if s.len() > 0 && is_space(s.last()) {
        trim_back(s.drop_last())
    } else {
        s
    }
}

/// The text with surrounding whitespace removed.
pub open spec fn trimmed(s: Seq<u8>) -> Seq<u8> {
    trim_back(trim_front(s))
}

/// Every byte is a decimal digit.
pub open spec fn all_digits(s: Seq<u8>) -> bool {
    forall|i: int| 0 <= i < s.len() ==> is_digit(s[i])
}

/// The number a run of digits denotes, most significant digit first.
pub open spec fn digits_value(s: Seq<u8>) -> int
    decreases s.len(),
{
    if s.len() == 0 {
        0
    } else {
        digits_value(s.drop_last()) * 10 + (s.last() - 48)
    }
}

/// Whether the text denotes a value the device register can hold: after
/// trimming, a non-empty run of digits no larger than `u64::MAX`.
pub open spec fn parseable(s: Seq<u8>) -> bool {
    &&& trimmed(s).len() > 0
    &&& all_digits(trimmed(s))
    &&& digits_value(trimmed(s)) <= u64::MAX
}

/// The value the text denotes.
pub open spec fn parsed_value(s: Seq<u8>) -> int {
    digits_value(trimmed(s))
}

/// The canonical decimal rendering of a value: digits only, no leading zero
/// except on zero itself.
pub open spec fn dec_rep(v: int) -> Seq<u8>
    recommends
        0 <= v,
    decreases v,
{
    if v < 10 {
        seq![(48 + v) as u8]
    } else {
        dec_rep(v / 10).push((48 + v % 10) as u8)
    }
}

/// Reads the decimal value out of endpoint text, exactly when the text
/// denotes one that fits the register; anything else is malformed.
pub fn parse_value(raw: &[u8]) -> (r: Result<u64, BacklightError>)
    ensures
        parseable(raw@) ==> r == Ok::<u64, BacklightError>(parsed_value(raw@) as u64),
        !parseable(raw@) ==> r == Err::<u64, BacklightError>(BacklightError::FormatError),
{
    let n: usize = raw.len();
    let mut i: usize = 0;
    while i < n && (raw[i] == 32 || raw[i] == 9 || raw[i] == 10 || raw[i] == 13)
        invariant
            0 <= i <= n,
            n == raw@.len(),
            forall|k: int| 0 <= k < i ==> is_space(raw@[k]),
        decreases n - i,
    {
        i = i + 1;
    }
    let mut j: usize = n;
    while j > i && (raw[j - 1] == 32 || raw[j - 1] == 9 || raw[j - 1] == 10 || raw[j - 1] == 13)
        invariant
            i <= j <= n,
            n == raw@.len(),
            forall|k: int| j <= k < n ==> is_space(raw@[k]),
        decreases j,
    {
        j = j - 1;
    }
    proof {
        lemma_trim_front_is_subrange(raw@, i as int);
        lemma_trim_back_is_subrange(raw@.subrange(i as int, n as int), j - i);
        assert(raw@.subrange(i as int, n as int).subrange(0, j - i) =~= raw@.subrange(
            i as int,
            j as int,
        ));
        assert(trimmed(raw@) == raw@.subrange(i as int, j as int));
    }
    if i == j {
        proof {
            assert(trimmed(raw@).len() == 0);
        }
        return Err(BacklightError::FormatError);
    }
    let ghost t = raw@.subrange(i as int, j as int);
    let mut value: u64 = 0;
    let mut k: usize = i;
    while k < j
        invariant
            i <= k <= j <= n,
            n == raw@.len(),
            i < j,
            t == raw@.subrange(i as int, j as int),
            t == trimmed(raw@),
            forall|m: int| i <= m < k ==> is_digit(raw@[m]),
            value == digits_value(raw@.subrange(i as int, k as int)),
        decreases j - k,
    {
        let b: u8 = raw[k];
        if b < 48 || b > 57 {
            proof {
                assert(t[k - i] == raw@[k as int]);
                assert(!is_digit(t[k - i]));
            }
            return Err(BacklightError::FormatError);
        }
        let d: u64 = (b - 48) as u64;
        if value > (u64::MAX - d) / 10 {
            proof {
                lemma_overflowing_prefix_means_unparseable(raw@, t, i as int, k as int, j as int);
            }
            return Err(BacklightError::FormatError);
        }
        proof {
            let p = raw@.subrange(i as int, k as int);
            let q = raw@.subrange(i as int, k + 1);
            assert(q.drop_last() =~= p);
            assert(q.last() == raw@[k as int]);
            vstd::arithmetic::div_mod::lemma_fundamental_div_mod(u64::MAX - d, 10);
        }
        value = value * 10 + d;
        k = k + 1;
    }
    proof {
        assert(raw@.subrange(i as int, j as int) == t);
        assert(all_digits(t));
        assert(parseable(raw@));
    }
    Ok(value)
}

/// Once the accumulated prefix can no longer grow without leaving `u64`,
/// no completion of the text denotes a value the register can hold.
proof fn lemma_overflowing_prefix_means_unparseable(
    s: Seq<u8>,
    t: Seq<u8>,
    i: int,
    k: int,
    j: int,
)
    requires
        0 <= i <= k < j <= s.len(),
        t == s.subrange(i, j),
        t == trimmed(s),
        forall|m: int| i <= m < k ==> is_digit(s[m]),
        is_digit(s[k]),
        digits_value(s.subrange(i, k)) * 10 + (s[k] - 48) > u64::MAX,
    ensures
        !parseable(s),
{
    if all_digits(t) {
        let q = s.subrange(i, k + 1);
        assert(q.drop_last() =~= s.subrange(i, k));
        assert(q.last() == s[k]);
        assert(digits_value(q) > u64::MAX);
        assert(q =~= t.subrange(0, k + 1 - i));
        lemma_digits_value_prefix_le(t, k + 1 - i);
    } else {
        assert(!parseable(s));
    }
}

/// A digit run is worth at least any of its prefixes.
proof fn lemma_digits_value_prefix_le(s: Seq<u8>, i: int)
    requires
        all_digits(s),
        0 <= i <= s.len(),
    ensures
        digits_value(s.subrange(0, i)) <= digits_value(s),
    decreases s.len() - i,
{
    if i == s.len() {
        assert(s.subrange(0, i) =~= s);
    } else {
        let p = s.subrange(0, i);
        let q = s.subrange(0, i + 1);
        assert(q.drop_last() =~= p);
        assert(q.last() == s[i]);
        assert(all_digits(p));
        lemma_digits_value_nonneg(p);
        assert(is_digit(s[i]));
        assert(digits_value(p) <= digits_value(q));
        lemma_digits_value_prefix_le(s, i + 1);
    }
}

/// A digit run never denotes a negative number.
proof fn lemma_digits_value_nonneg(s: Seq<u8>)
    requires
        all_digits(s),
    ensures
        digits_value(s) >= 0,
    decreases s.len(),
{
    if s.len() > 0 {
        assert(all_digits(s.drop_last()));
        lemma_digits_value_nonneg(s.drop_last());
        assert(is_digit(s[s.len() - 1]));
    }
}

/// Dropping leading whitespace is taking the suffix that starts at the
/// first non-space byte.
proof fn lemma_trim_front_is_subrange(s: Seq<u8>, i: int)
    requires
        0 <= i <= s.len(),
        forall|k: int| 0 <= k < i ==> is_space(s[k]),
        i == s.len() || !is_space(s[i]),
    ensures
        trim_front(s) == s.subrange(i, s.len() as int),
    decreases i,
{
    if i == 0 {
        assert(s.subrange(0, s.len() as int) =~= s);
    } else {
        assert(is_space(s[0]));
        let rest = s.subrange(1, s.len() as int);
        assert(forall|k: int| 0 <= k < i - 1 ==> is_space(rest[k]));
        lemma_trim_front_is_subrange(rest, i - 1);
        assert(rest.subrange(i - 1, rest.len() as int) =~= s.subrange(i, s.len() as int));
    }
}

/// Dropping trailing whitespace is taking the prefix that ends after the
/// last non-space byte.
proof fn lemma_trim_back_is_subrange(s: Seq<u8>, j: int)
    requires
        0 <= j <= s.len(),
        forall|k: int| j <= k < s.len() ==> is_space(s[k]),
        j == 0 || !is_space(s[j - 1]),
    ensures
        trim_back(s) == s.subrange(0, j),
    decreases s.len() - j,
{
    if j == s.len() {
        assert(s.subrange(0, j) =~= s);
    } else {
        assert(is_space(s.last()));
        let rest = s.drop_last();
        assert(forall|k: int| j <= k < rest.len() ==> is_space(rest[k]));
        lemma_trim_back_is_subrange(rest, j);
        assert(rest.subrange(0, j) =~= s.subrange(0, j));
    }
}

/// Renders a value in decimal, exactly as `dec_rep` describes it.
pub fn format_value(v: u64) -> (r: Vec<u8>)
    ensures
        r@ == dec_rep(v as int),
    decreases v,
{
    if v < 10 {
        let mut r: Vec<u8> = Vec::new();
        r.push(48 + v as u8);
        proof {
            assert(r@ =~= dec_rep(v as int));
        }
        r
    } else {
        let mut r = format_value(v / 10);
        r.push(48 + (v % 10) as u8);
        proof {
            assert(r@ =~= dec_rep(v as int));
        }
        r
    }
}

/// A rendered value is digits through and through.
proof fn lemma_dec_rep_digits(v: int)
    requires
        0 <= v,
    ensures
        dec_rep(v).len() >= 1,
        all_digits(dec_rep(v)),
    decreases v,
{
    if v < 10 {
        assert(is_digit(dec_rep(v)[0]));
    } else {
        lemma_dec_rep_digits(v / 10);
        let s = dec_rep(v);
        assert forall|i: int| 0 <= i < s.len() implies is_digit(s[i]) by {
            if i < dec_rep(v / 10).len() {
                assert(s[i] == dec_rep(v / 10)[i]);
            } else {
                assert(s[i] == (48 + v % 10) as u8);
            }
        }
    }
}

/// A rendered value reads back as itself.
proof fn lemma_dec_rep_value(v: int)
    requires
        0 <= v,
    ensures
        digits_value(dec_rep(v)) == v,
    decreases v,
{
    if v < 10 {
        let s = dec_rep(v);
        assert(s.len() == 1);
        assert(s.drop_last() =~= Seq::<u8>::empty());
        assert(digits_value(Seq::<u8>::empty()) == 0);
        assert(s.last() == (48 + v) as u8);
        assert((48 + v) as u8 == 48 + v);
        assert(digits_value(s) == v);
    } else {
        lemma_dec_rep_value(v / 10);
        let s = dec_rep(v);
        assert(s.drop_last() =~= dec_rep(v / 10));
        assert(s.last() == (48 + v % 10) as u8);
        vstd::arithmetic::div_mod::lemma_fundamental_div_mod(v, 10);
        assert(digits_value(s) == v);
    }
}

/// Formatting a value and parsing the result returns the value unchanged:
/// the text `format_value` puts on the device reads back as the same number.
pub proof fn lemma_format_parse_round_trip(v: u64)
    ensures
        parseable(dec_rep(v as int)),
        parsed_value(dec_rep(v as int)) == v,
{
    lemma_dec_rep_digits(v as int);
    lemma_dec_rep_value(v as int);
    let s = dec_rep(v as int);
    assert(is_digit(s[0]));
    assert(trim_front(s) == s);
    assert(is_digit(s[s.len() - 1]));
    assert(trim_back(s) == s);
    assert(trimmed(s) == s);
}

} // verus!
