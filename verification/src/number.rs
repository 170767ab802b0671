//! Decimal numbers as the standard library reads them into a `u32`.
use vstd::prelude::*;

verus! {

pub open spec fn is_digit(c: char) -> bool {
    '0' <= c && c <= '9'
}

pub open spec fn digit_value(c: char) -> int {
    c as int - '0' as int
}

pub open spec fn all_digits(s: Seq<char>) -> bool {
    forall|i: int| 0 <= i < s.len() ==> is_digit(#[trigger] s[i])
}

/// The value of a run of decimal digits, most significant first.
pub open spec fn digits_value(s: Seq<char>) -> int
    decreases s.len(),
{
    if s.len() == 0 {
        0
    } else {
        digits_value(s.drop_last()) * 10 + digit_value(s.last())
    }
}

/// The digits after an optional leading `+`.
pub open spec fn unsigned_digits(s: Seq<char>) -> Seq<char> {
    if s.len() > 0 && s[0] == '+' {
        s.skip(1)
    } else {
        s
    }
}

/// What `str::parse::<u32>` gives: an optional `+`, then at least one decimal
/// digit and nothing else, with a value that fits in a `u32`.
pub open spec fn parse_u32_spec(s: Seq<char>) -> Option<u32> {
    let d = unsigned_digits(s);
    if d.len() > 0 && all_digits(d) && digits_value(d) <= u32::MAX {
        Some(digits_value(d) as u32)
    } else {
        None
    }
}

/// A longer run of digits has at least the value of any of its prefixes.
proof fn lemma_digits_value_grows(s: Seq<char>, k: int)
    requires
        0 <= k <= s.len(),
        all_digits(s),
    ensures
        0 <= digits_value(s.take(k)) <= digits_value(s),
    decreases s.len(),
{
    if k == s.len() {
        assert(s.take(k) =~= s);
        lemma_digits_value_nonneg(s);
    } else {
        lemma_digits_value_grows(s.drop_last(), k);
        assert(s.drop_last().take(k) =~= s.take(k));
        lemma_digits_value_nonneg(s.drop_last());
    }
}

proof fn lemma_digits_value_nonneg(s: Seq<char>)
    requires
        all_digits(s),
    ensures
        digits_value(s) >= 0,
    decreases s.len(),
{
    if s.len() > 0 {
        lemma_digits_value_nonneg(s.drop_last());
    }
}

/// Reads a `u32` as `str::parse::<u32>` does.
pub fn parse_u32_chars(s: &[char]) -> (r: Option<u32>)
    ensures
        r == parse_u32_spec(s@),
{
    let start: usize = if s.len() > 0 && s[0] == '+' {
        1
    } else {
        0
    };
    let ghost d = unsigned_digits(s@);
    assert(d =~= s@.skip(start as int));
    if start == s.len() {
        return None;
    }
    let mut v: u32 = 0;
    let mut i: usize = start;
    while i < s.len()
        invariant
            start <= i <= s.len(),
            d == s@.skip(start as int),
            d == unsigned_digits(s@),
            all_digits(d.take(i - start)),
            v as int == digits_value(d.take(i - start)),
        decreases s.len() - i,
    {
        let c = s[i];
        assert(d[i - start] == c);
        if !('0' <= c && c <= '9') {
            assert(!all_digits(d));
            return None;
        }
        let dv: u32 = (c as u32) - ('0' as u32);
        let ghost next = d.take(i - start + 1);
        assert(next.drop_last() =~= d.take(i - start));
        assert(next.last() == c);
        assert(all_digits(next));
        match v.checked_mul(10) {
            None => {
                proof {
                    if all_digits(d) {
                        lemma_digits_value_grows(d, i - start + 1);
                    }
                }
                return None;
            },
            Some(m) => match m.checked_add(dv) {
                None => {
                    proof {
                        if all_digits(d) {
                            lemma_digits_value_grows(d, i - start + 1);
                        }
                    }
                    return None;
                },
                Some(n) => {
                    v = n;
                },
            },
        }
        i = i + 1;
    }
    assert(d.take(i - start) =~= d);
    Some(v)
}


/// A single digit reads as its value.
pub proof fn law_parse_single_digit(c: char)
    requires
        is_digit(c),
    ensures
        parse_u32_spec(seq![c]) == Some((c as int - '0' as int) as u32),
{
    let one = seq![c];
    assert(one.drop_last() =~= Seq::<char>::empty());
    assert(unsigned_digits(one) == one);
    assert(digits_value(one.drop_last()) == 0);
    assert(digits_value(one) == digit_value(c));
    assert(all_digits(one));
}

/// Appending a digit multiplies the value by ten and adds the digit; once
/// that passes `u32::MAX` the text no longer reads.
pub proof fn law_parse_appends_digit(s: Seq<char>, v: u32, d: char)
    requires
        parse_u32_spec(s) == Some(v),
        is_digit(d),
    ensures
        v * 10 + (d as int - '0' as int) <= u32::MAX ==> parse_u32_spec(s.push(d)) == Some(
            (v * 10 + (d as int - '0' as int)) as u32,
        ),
        v * 10 + (d as int - '0' as int) > u32::MAX ==> parse_u32_spec(s.push(d)) is None,
{
    let ds = unsigned_digits(s);
    let dp = unsigned_digits(s.push(d));
    assert(s.len() > 0);
    if s[0] == '+' {
        assert(s.push(d).skip(1) =~= s.skip(1).push(d));
    }
    assert(dp =~= ds.push(d));
    assert(dp.drop_last() =~= ds);
    assert forall|i: int| 0 <= i < dp.len() implies is_digit(#[trigger] dp[i]) by {
        if i < ds.len() {
            assert(dp[i] == ds[i]);
        }
    }
    assert(dp.last() == d);
    assert(digits_value(dp) == digits_value(ds) * 10 + digit_value(d));
    lemma_digits_value_nonneg(ds);
    assert(v as int == digits_value(ds));
}

/// A character other than a digit, anywhere but as a leading `+`, makes the
/// text unreadable.
pub proof fn law_parse_rejects_non_digit(s: Seq<char>, k: int)
    requires
        0 <= k < s.len(),
        !is_digit(s[k]),
        !(k == 0 && s[k] == '+'),
    ensures
        parse_u32_spec(s) is None,
{
    let ds = unsigned_digits(s);
    if s.len() > 0 && s[0] == '+' {
        assert(ds[k - 1] == s[k]);
    } else {
        assert(ds[k] == s[k]);
    }
}

/// A leading `+` is allowed once and changes nothing.
pub proof fn law_parse_plus_sign(t: Seq<char>)
    requires
        !(t.len() > 0 && t[0] == '+'),
    ensures
        parse_u32_spec(seq!['+'] + t) == parse_u32_spec(t),
{
    assert((seq!['+'] + t).skip(1) =~= t);
}

} // verus!
