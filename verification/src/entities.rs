//! Decoding of the character references that pages write in attribute values.
use vstd::prelude::*;

use crate::text::{append_chars, chars_to_string, matches_at, occurs_at, str_chars};

verus! {

/// `s` with every occurrence of `from` replaced by `to`, taken left to right
/// without overlap.
pub open spec fn replace_spec(s: Seq<char>, from: Seq<char>, to: Seq<char>) -> Seq<char>
    recommends
        from.len() > 0,
    decreases s.len(),
{
    if from.len() == 0 || s.len() < from.len() {
        s
    } else if s.subrange(0, from.len() as int) == from {
        to + replace_spec(s.skip(from.len() as int), from, to)
    } else {
        seq![s[0]] + replace_spec(s.skip(1), from, to)
    }
}

pub open spec fn amp_ref() -> Seq<char> {
    seq!['&', 'a', 'm', 'p', ';']
}

pub open spec fn lt_ref() -> Seq<char> {
    seq!['&', 'l', 't', ';']
}

pub open spec fn gt_ref() -> Seq<char> {
    seq!['&', 'g', 't', ';']
}

pub open spec fn quot_ref() -> Seq<char> {
    seq!['&', 'q', 'u', 'o', 't', ';']
}

pub open spec fn apos_ref() -> Seq<char> {
    seq!['&', '#', '3', '9', ';']
}

/// The five references `&amp;`, `&lt;`, `&gt;`, `&quot;` and `&#39;` decoded,
/// one after the other, in that order.
pub open spec fn html_decode_spec(s: Seq<char>) -> Seq<char> {
    let s1 = replace_spec(s, amp_ref(), seq!['&']);
    let s2 = replace_spec(s1, lt_ref(), seq!['<']);
    let s3 = replace_spec(s2, gt_ref(), seq!['>']);
    let s4 = replace_spec(s3, quot_ref(), seq!['"']);
    replace_spec(s4, apos_ref(), seq!['\''])
}

/// Every occurrence of `from` in `s` replaced by `to`.
pub fn replace_all(s: &[char], from: &[char], to: &[char]) -> (r: Vec<char>)
    requires
        from.len() > 0,
    ensures
        r@ == replace_spec(s@, from@, to@),
{
    let mut out: Vec<char> = Vec::new();
    let mut i: usize = 0;
    assert(s@.skip(0) =~= s@);
    assert(out@ + s@.skip(0) =~= s@.skip(0));
    while i < s.len()
        invariant
            i <= s.len(),
            from.len() > 0,
            out@ + replace_spec(s@.skip(i as int), from@, to@) == replace_spec(s@, from@, to@),
        decreases s.len() - i,
    {
        let ghost rest = s@.skip(i as int);
        if s.len() - i < from.len() {
            let tail = crate::text::copy_range(s, i, s.len());
            append_chars(&mut out, &tail);
            assert(tail@ == rest);
            i = s.len();
            assert(s@.skip(i as int) =~= Seq::<char>::empty());
        } else if matches_at(s, from, i) {
            assert(rest.subrange(0, from@.len() as int) =~= s@.subrange(i as int, i + from@.len()));
            assert(rest.skip(from@.len() as int) =~= s@.skip(i + from@.len()));
            append_chars(&mut out, to);
            i = i + from.len();
        } else {
            assert(rest.subrange(0, from@.len() as int) =~= s@.subrange(i as int, i + from@.len()));
            assert(rest.skip(1) =~= s@.skip(i + 1));
            assert(rest[0] == s@[i as int]);
            out.push(s[i]);
            i = i + 1;
        }
    }
    assert(s@.skip(i as int) =~= Seq::<char>::empty());
    out
}

/// The five references decoded, as `html_decode_spec` says.
pub fn html_decode_chars(s: &[char]) -> (r: Vec<char>)
    ensures
        r@ == html_decode_spec(s@),
{
    let amp = ['&', 'a', 'm', 'p', ';'];
    let lt = ['&', 'l', 't', ';'];
    let gt = ['&', 'g', 't', ';'];
    let quot = ['&', 'q', 'u', 'o', 't', ';'];
    let apos = ['&', '#', '3', '9', ';'];
    assert(amp@ =~= amp_ref());
    assert(lt@ =~= lt_ref());
    assert(gt@ =~= gt_ref());
    assert(quot@ =~= quot_ref());
    assert(apos@ =~= apos_ref());
    let c_amp = ['&'];
    let c_lt = ['<'];
    let c_gt = ['>'];
    let c_quot = ['"'];
    let c_apos = ['\''];
    assert(c_amp@ =~= seq!['&']);
    assert(c_lt@ =~= seq!['<']);
    assert(c_gt@ =~= seq!['>']);
    assert(c_quot@ =~= seq!['"']);
    assert(c_apos@ =~= seq!['\'']);
    let s1 = replace_all(s, &amp, &c_amp);
    let s2 = replace_all(&s1, &lt, &c_lt);
    let s3 = replace_all(&s2, &gt, &c_gt);
    let s4 = replace_all(&s3, &quot, &c_quot);
    replace_all(&s4, &apos, &c_apos)
}

/// Decodes `&amp;`, `&lt;`, `&gt;`, `&quot;` and `&#39;` in `s`, in that order.
pub fn html_decode(s: &str) -> (r: String)
    ensures
        r@ == html_decode_spec(s@),
{
    let cs = str_chars(s);
    let out = html_decode_chars(&cs);
    chars_to_string(&out)
}

/// Replacing a pattern whose first character does not occur in `s` leaves `s` as it is.
pub proof fn lemma_replace_absent(s: Seq<char>, from: Seq<char>, to: Seq<char>)
    requires
        from.len() > 0,
        !s.contains(from[0]),
    ensures
        replace_spec(s, from, to) == s,
    decreases s.len(),
{
    if s.len() < from.len() {
    } else {
        if s.subrange(0, from.len() as int) == from {
            assert(s[0] == s.subrange(0, from.len() as int)[0]);
            assert(s.contains(s[0]));
        } else {
            assert forall|c: char| s.skip(1).contains(c) implies s.contains(c) by {
                let k = choose|k: int| 0 <= k < s.skip(1).len() && s.skip(1)[k] == c;
                assert(s[k + 1] == c);
            }
            lemma_replace_absent(s.skip(1), from, to);
            assert(seq![s[0]] + s.skip(1) =~= s);
        }
    }
}

/// A replacement that is no longer than its pattern never lengthens the text.
pub proof fn lemma_replace_shortens(s: Seq<char>, from: Seq<char>, to: Seq<char>)
    requires
        from.len() > 0,
        to.len() <= from.len(),
    ensures
        replace_spec(s, from, to).len() <= s.len(),
    decreases s.len(),
{
    if s.len() < from.len() {
    } else if s.subrange(0, from.len() as int) == from {
        lemma_replace_shortens(s.skip(from.len() as int), from, to);
    } else {
        lemma_replace_shortens(s.skip(1), from, to);
    }
}

/// Decoding leaves a text that holds no `&` unchanged.
pub proof fn law_decode_without_ampersand(s: Seq<char>)
    requires
        !s.contains('&'),
    ensures
        html_decode_spec(s) == s,
{
    lemma_replace_absent(s, amp_ref(), seq!['&']);
    lemma_replace_absent(s, lt_ref(), seq!['<']);
    lemma_replace_absent(s, gt_ref(), seq!['>']);
    lemma_replace_absent(s, quot_ref(), seq!['"']);
    lemma_replace_absent(s, apos_ref(), seq!['\'']);
}

/// Decoding never makes a text longer.
pub proof fn law_decode_never_lengthens(s: Seq<char>)
    ensures
        html_decode_spec(s).len() <= s.len(),
{
    let s1 = replace_spec(s, amp_ref(), seq!['&']);
    let s2 = replace_spec(s1, lt_ref(), seq!['<']);
    let s3 = replace_spec(s2, gt_ref(), seq!['>']);
    let s4 = replace_spec(s3, quot_ref(), seq!['"']);
    lemma_replace_shortens(s, amp_ref(), seq!['&']);
    lemma_replace_shortens(s1, lt_ref(), seq!['<']);
    lemma_replace_shortens(s2, gt_ref(), seq!['>']);
    lemma_replace_shortens(s3, quot_ref(), seq!['"']);
    lemma_replace_shortens(s4, apos_ref(), seq!['\'']);
}


/// Where `from` stands nowhere in `s`, replacing it leaves `s` as it is.
pub proof fn lemma_replace_no_occurrence(s: Seq<char>, from: Seq<char>, to: Seq<char>)
    requires
        from.len() > 0,
        forall|i: int| !occurs_at(s, from, i),
    ensures
        replace_spec(s, from, to) == s,
    decreases s.len(),
{
    if s.len() >= from.len() {
        assert(!occurs_at(s, from, 0));
        assert forall|i: int| !occurs_at(s.skip(1), from, i) by {
            if occurs_at(s.skip(1), from, i) {
                assert(s.skip(1).subrange(i, i + from.len()) =~= s.subrange(i + 1, i + 1 + from.len()));
                assert(occurs_at(s, from, i + 1));
            }
        }
        lemma_replace_no_occurrence(s.skip(1), from, to);
        assert(seq![s[0]] + s.skip(1) =~= s);
    }
}

/// Replacing goes on after a replaced occurrence: in `x`, `from`, `y`, where `x`
/// holds no character that could begin `from`, the occurrence becomes `to` and
/// `y` is replaced in its turn.
pub proof fn law_replace_continues_after_match(x: Seq<char>, from: Seq<char>, to: Seq<char>, y: Seq<char>)
    requires
        from.len() > 0,
        !x.contains(from[0]),
    ensures
        replace_spec(x + from + y, from, to) == x + to + replace_spec(y, from, to),
    decreases x.len(),
{
    let s = x + from + y;
    if x.len() == 0 {
        assert(s.subrange(0, from.len() as int) =~= from);
        assert(s.skip(from.len() as int) =~= y);
        assert(x + to + replace_spec(y, from, to) =~= to + replace_spec(y, from, to));
    } else {
        assert(x.contains(x[0]));
        assert(s.subrange(0, from.len() as int)[0] == x[0]);
        assert forall|c: char| x.skip(1).contains(c) implies x.contains(c) by {
            let k = choose|k: int| 0 <= k < x.skip(1).len() && x.skip(1)[k] == c;
            assert(x[k + 1] == c);
        }
        law_replace_continues_after_match(x.skip(1), from, to, y);
        assert(s.skip(1) =~= x.skip(1) + from + y);
        assert(seq![s[0]] + (x.skip(1) + to + replace_spec(y, from, to)) =~= x + to + replace_spec(
            y,
            from,
            to,
        ));
    }
}

proof fn lemma_quoted_text_refs(x: Seq<char>, y: Seq<char>, z: Seq<char>, i: int)
    requires
        !x.contains('&'),
        !y.contains('&'),
        !z.contains('&'),
        0 <= i < (x + quot_ref() + y + quot_ref() + z).len(),
        (x + quot_ref() + y + quot_ref() + z)[i] == '&',
    ensures
        i + 1 < (x + quot_ref() + y + quot_ref() + z).len(),
        (x + quot_ref() + y + quot_ref() + z)[i + 1] == 'q',
{
    let s = x + quot_ref() + y + quot_ref() + z;
    let a = x.len() as int;
    let b = a + 6 + y.len();
    if i < a {
        assert(s[i] == x[i]);
        assert(x.contains(x[i]));
    } else if i < a + 6 {
        assert(s[i] == quot_ref()[i - a]);
        assert(i == a);
        assert(s[i + 1] == quot_ref()[1]);
    } else if i < b {
        assert(s[i] == y[i - a - 6]);
        assert(y.contains(y[i - a - 6]));
    } else if i < b + 6 {
        assert(s[i] == quot_ref()[i - b]);
        assert(i == b);
        assert(s[i + 1] == quot_ref()[1]);
    } else {
        assert(s[i] == z[i - b - 6]);
        assert(z.contains(z[i - b - 6]));
    }
}

proof fn lemma_no_ref_other_than_quot(x: Seq<char>, y: Seq<char>, z: Seq<char>, r: Seq<char>)
    requires
        !x.contains('&'),
        !y.contains('&'),
        !z.contains('&'),
        r.len() >= 2,
        r[0] == '&',
        r[1] != 'q',
    ensures
        forall|i: int| !occurs_at(x + quot_ref() + y + quot_ref() + z, r, i),
{
    let s = x + quot_ref() + y + quot_ref() + z;
    assert forall|i: int| !occurs_at(s, r, i) by {
        if occurs_at(s, r, i) {
            assert(s.subrange(i, i + r.len())[0] == s[i]);
            assert(s.subrange(i, i + r.len())[1] == s[i + 1]);
            lemma_quoted_text_refs(x, y, z, i);
        }
    }
}

/// Every reference is decoded, not only the first: two `&quot;` in a text
/// that holds no other `&` both become `"`.
pub proof fn law_decode_every_reference(x: Seq<char>, y: Seq<char>, z: Seq<char>)
    requires
        !x.contains('&'),
        !y.contains('&'),
        !z.contains('&'),
    ensures
        html_decode_spec(x + quot_ref() + y + quot_ref() + z) == x + seq!['"'] + y + seq!['"'] + z,
{
    let s = x + quot_ref() + y + quot_ref() + z;
    lemma_no_ref_other_than_quot(x, y, z, amp_ref());
    lemma_no_ref_other_than_quot(x, y, z, lt_ref());
    lemma_no_ref_other_than_quot(x, y, z, gt_ref());
    lemma_replace_no_occurrence(s, amp_ref(), seq!['&']);
    lemma_replace_no_occurrence(s, lt_ref(), seq!['<']);
    lemma_replace_no_occurrence(s, gt_ref(), seq!['>']);
    assert(s =~= x + quot_ref() + (y + quot_ref() + z));
    law_replace_continues_after_match(x, quot_ref(), seq!['"'], y + quot_ref() + z);
    law_replace_continues_after_match(y, quot_ref(), seq!['"'], z);
    lemma_replace_absent(z, quot_ref(), seq!['"']);
    let r = x + seq!['"'] + y + seq!['"'] + z;
    assert(x + seq!['"'] + (y + seq!['"'] + z) =~= r);
    assert(!r.contains('&')) by {
        if r.contains('&') {
            let k = choose|k: int| 0 <= k < r.len() && r[k] == '&';
            let a = x.len() as int;
            let b = a + 1 + y.len();
            if k < a {
                assert(x.contains(x[k]));
            } else if k == a {
            } else if k < b {
                assert(y.contains(y[k - a - 1]));
            } else if k == b {
            } else {
                assert(z.contains(z[k - b - 1]));
            }
        }
    }
    lemma_replace_absent(r, apos_ref(), seq!['\'']);
}

} // verus!
