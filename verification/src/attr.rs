//! Reading quoted attribute values out of a tag's text.
use vstd::prelude::*;

use crate::number::{parse_u32_chars, parse_u32_spec};
use crate::text::{
    chars_opt_view, chars_to_string, copy_range, find_char_from, find_from, find_spec,
    lemma_find_spec, lower_seq, lower_text, occurs_at, str_chars, string_opt_view,
};

verus! {

/// The text `attr="` (or `attr='`), which announces a quoted value.
pub open spec fn attr_opening(attr: Seq<char>, q: char) -> Seq<char> {
    attr + seq!['=', q]
}

/// The value quoted with `q` after the first `attr=q` of the tag; none where
/// the opening is missing or the closing quote is. The opening is looked for
/// in the ASCII-folded tag (`lower_seq`, which folds only `A` to `Z`), and the
/// value is cut from the tag itself at the same positions.
pub open spec fn quoted_value(tag: Seq<char>, attr: Seq<char>, q: char) -> Option<Seq<char>> {
    let pat = attr_opening(attr, q);
    match find_spec(lower_seq(tag), pat, 0) {
        None => None,
        Some(pos) => {
            let start = pos + pat.len();
            match find_spec(tag, seq![q], start) {
                None => None,
                Some(end) => Some(tag.subrange(start, end)),
            }
        },
    }
}

/// The value of `attr` in a tag: the double-quoted form is tried first, then the
/// single-quoted one.
pub open spec fn extract_attr_spec(tag: Seq<char>, attr: Seq<char>) -> Option<Seq<char>> {
    match quoted_value(tag, attr, '"') {
        Some(v) => Some(v),
        None => quoted_value(tag, attr, '\''),
    }
}

pub open spec fn width_name() -> Seq<char> {
    seq!['w', 'i', 'd', 't', 'h']
}

pub open spec fn height_name() -> Seq<char> {
    seq!['h', 'e', 'i', 'g', 'h', 't']
}

/// The `width` and `height` attributes of a tag, both read as `u32`.
pub open spec fn parse_dimensions_spec(tag: Seq<char>) -> Option<(u32, u32)> {
    match extract_attr_spec(tag, width_name()) {
        None => None,
        Some(w) => match parse_u32_spec(w) {
            None => None,
            Some(wv) => match extract_attr_spec(tag, height_name()) {
                None => None,
                Some(h) => match parse_u32_spec(h) {
                    None => None,
                    Some(hv) => Some((wv, hv)),
                },
            },
        },
    }
}

fn quoted_value_chars(tag: &[char], lower: &[char], attr: &[char], q: char) -> (r: Option<Vec<char>>)
    requires
        lower@ == lower_seq(tag@),
    ensures
        chars_opt_view(r) == quoted_value(tag@, attr@, q),
{
    let mut pat: Vec<char> = Vec::new();
    crate::text::append_chars(&mut pat, attr);
    pat.push('=');
    pat.push(q);
    assert(pat@ =~= attr_opening(attr@, q));
    match find_from(lower, &pat, 0) {
        None => None,
        Some(pos) => {
            proof {
                lemma_find_spec(lower@, pat@, 0);
                assert(find_spec(lower@, pat@, 0) == Some(pos as int));
                assert(occurs_at(lower@, pat@, pos as int));
                assert(pos + pat@.len() <= lower@.len());
                assert(lower@.len() == lower.len());
                assert(pat@.len() == pat.len());
            }
            let start = pos + pat.len();
            match find_char_from(tag, q, start) {
                None => None,
                Some(end) => {
                    proof {
                        lemma_find_spec(tag@, seq![q], start as int);
                    }
                    Some(copy_range(tag, start, end))
                },
            }
        },
    }
}

/// The value of `attr` in the tag's text, as `extract_attr_spec` says.
pub fn extract_attr_chars(tag: &[char], attr: &[char]) -> (r: Option<Vec<char>>)
    ensures
        chars_opt_view(r) == extract_attr_spec(tag@, attr@),
{
    let lower = lower_text(tag);
    match quoted_value_chars(tag, &lower, attr, '"') {
        Some(v) => Some(v),
        None => quoted_value_chars(tag, &lower, attr, '\''),
    }
}

/// The value of attribute `attr` in the text of a tag: the first `attr="..."`,
/// else the first `attr='...'`, the name matched without regard to ASCII case.
pub fn extract_attr(tag: &str, attr: &str) -> (r: Option<String>)
    ensures
        string_opt_view(r) == extract_attr_spec(tag@, attr@),
{
    let t = str_chars(tag);
    let a = str_chars(attr);
    match extract_attr_chars(&t, &a) {
        Some(v) => Some(chars_to_string(&v)),
        None => None,
    }
}

/// The `width` and `height` of a tag, as `parse_dimensions_spec` says.
pub fn parse_dimensions_chars(tag: &[char]) -> (r: Option<(u32, u32)>)
    ensures
        r == parse_dimensions_spec(tag@),
{
    let width = ['w', 'i', 'd', 't', 'h'];
    let height = ['h', 'e', 'i', 'g', 'h', 't'];
    assert(width@ =~= width_name());
    assert(height@ =~= height_name());
    let w = match extract_attr_chars(tag, &width) {
        Some(v) => v,
        None => return None,
    };
    let wv = match parse_u32_chars(&w) {
        Some(n) => n,
        None => return None,
    };
    let h = match extract_attr_chars(tag, &height) {
        Some(v) => v,
        None => return None,
    };
    let hv = match parse_u32_chars(&h) {
        Some(n) => n,
        None => return None,
    };
    Some((wv, hv))
}

/// The `width` and `height` attributes of a tag, when both are present and
/// both read as `u32`.
pub fn parse_dimensions(tag: &str) -> (r: Option<(u32, u32)>)
    ensures
        r == parse_dimensions_spec(tag@),
{
    let t = str_chars(tag);
    parse_dimensions_chars(&t)
}

/// `v` stands in `tag` right after an opening `attr=q` (the name in any ASCII
/// case) and right before a closing `q`, and holds no `q` itself.
pub open spec fn is_quoted_in(tag: Seq<char>, attr: Seq<char>, q: char, start: int, v: Seq<char>) -> bool {
    &&& q == '"' || q == '\''
    &&& start >= attr.len() + 2
    &&& occurs_at(lower_seq(tag), attr_opening(attr, q), start - attr.len() - 2)
    &&& start + v.len() < tag.len()
    &&& tag.subrange(start, start + v.len()) == v
    &&& tag[start + v.len()] == q
    &&& !v.contains(q)
}

proof fn lemma_quoted_value(tag: Seq<char>, attr: Seq<char>, q: char)
    requires
        q == '"' || q == '\'',
    ensures
        quoted_value(tag, attr, q) matches Some(v) ==> is_quoted_in(
            tag,
            attr,
            q,
            find_spec(lower_seq(tag), attr_opening(attr, q), 0).unwrap() + attr.len() + 2,
            v,
        ),
{
    let pat = attr_opening(attr, q);
    lemma_find_spec(lower_seq(tag), pat, 0);
    if let Some(pos) = find_spec(lower_seq(tag), pat, 0) {
        let start = pos + pat.len();
        lemma_find_spec(tag, seq![q], start);
        if let Some(end) = find_spec(tag, seq![q], start) {
            let v = tag.subrange(start, end);
            assert(tag.subrange(end, end + 1)[0] == tag[end]);
            assert forall|k: int| 0 <= k < v.len() implies v[k] != q by {
                assert(!occurs_at(tag, seq![q], start + k));
                assert(tag.subrange(start + k, start + k + 1) =~= seq![tag[start + k]]);
            }
            assert(tag.subrange(start, start + v.len()) == v);
        }
    }
}

/// A value read for an attribute is exactly the text between the opening
/// `attr="` (or `attr='`) and the next matching quote, and never holds that
/// quote.
pub proof fn law_attr_value_is_quoted(tag: Seq<char>, attr: Seq<char>)
    ensures
        extract_attr_spec(tag, attr) matches Some(v) ==> exists|q: char, start: int|
            is_quoted_in(tag, attr, q, start, v),
{
    lemma_quoted_value(tag, attr, '"');
    lemma_quoted_value(tag, attr, '\'');
    if let Some(v) = quoted_value(tag, attr, '"') {
        let start = find_spec(lower_seq(tag), attr_opening(attr, '"'), 0).unwrap() + attr.len()
            + 2;
        assert(is_quoted_in(tag, attr, '"', start, v));
    } else if let Some(v) = quoted_value(tag, attr, '\'') {
        let start = find_spec(lower_seq(tag), attr_opening(attr, '\''), 0).unwrap() + attr.len()
            + 2;
        assert(is_quoted_in(tag, attr, '\'', start, v));
    }
}


/// `i` is where the first `attr=q` of the tag (the name in any ASCII case) begins.
pub open spec fn is_first_opening(tag: Seq<char>, attr: Seq<char>, q: char, i: int) -> bool {
    &&& occurs_at(lower_seq(tag), attr_opening(attr, q), i)
    &&& forall|j: int| 0 <= j < i ==> !occurs_at(lower_seq(tag), attr_opening(attr, q), j)
}

proof fn lemma_quoted_value_none(tag: Seq<char>, attr: Seq<char>, q: char)
    ensures
        quoted_value(tag, attr, q) is None ==> forall|i: int|
            #![trigger is_first_opening(tag, attr, q, i)]
            is_first_opening(tag, attr, q, i) ==> forall|k: int|
                i + attr.len() + 2 <= k < tag.len() ==> tag[k] != q,
{
    let lower = lower_seq(tag);
    let pat = attr_opening(attr, q);
    lemma_find_spec(lower, pat, 0);
    if quoted_value(tag, attr, q) is None {
        assert forall|i: int| #[trigger] is_first_opening(tag, attr, q, i) implies forall|k: int|
            i + attr.len() + 2 <= k < tag.len() ==> tag[k] != q by {
            let pos = find_spec(lower, pat, 0).unwrap();
            if i < pos {
                assert(!occurs_at(lower, pat, i));
            }
            if pos < i {
                assert(!occurs_at(lower, pat, pos));
            }
            assert(i == pos);
            let start = pos + pat.len();
            lemma_find_spec(tag, seq![q], start);
            assert forall|k: int| i + attr.len() + 2 <= k < tag.len() implies tag[k] != q by {
                assert(!occurs_at(tag, seq![q], k));
                assert(tag.subrange(k, k + 1) =~= seq![tag[k]]);
            }
        }
    }
}

/// When no value is read for an attribute, neither quoting yields one: for
/// each of `"` and `'`, either `attr=` followed by that quote is nowhere in the
/// tag, or no closing quote follows its first occurrence.
pub proof fn law_attr_missing(tag: Seq<char>, attr: Seq<char>)
    ensures
        extract_attr_spec(tag, attr) is None ==> forall|q: char, i: int|
            #![trigger is_first_opening(tag, attr, q, i)]
            (q == '"' || q == '\'') && is_first_opening(tag, attr, q, i) ==> forall|k: int|
                i + attr.len() + 2 <= k < tag.len() ==> tag[k] != q,
{
    lemma_quoted_value_none(tag, attr, '"');
    lemma_quoted_value_none(tag, attr, '\'');
}


/// A value read for an attribute sits right after the first opening `attr=q`
/// (name in any ASCII case) and runs to the next `q`; a single-quoted value
/// is read only when the double-quoted form gives none.
pub proof fn law_attr_value_at_first_opening(tag: Seq<char>, attr: Seq<char>)
    ensures
        extract_attr_spec(tag, attr) matches Some(v) ==> exists|q: char, i: int|
            #[trigger] is_first_opening(tag, attr, q, i) && (q == '"' || (q == '\'' && quoted_value(
                tag,
                attr,
                '"',
            ) is None)) && {
                let start = i + attr.len() + 2;
                &&& start + v.len() < tag.len()
                &&& tag.subrange(start, start + v.len()) == v
                &&& tag[start + v.len()] == q
                &&& !v.contains(q)
            },
{
    lemma_quoted_value(tag, attr, '"');
    lemma_quoted_value(tag, attr, '\'');
    lemma_find_spec(lower_seq(tag), attr_opening(attr, '"'), 0);
    lemma_find_spec(lower_seq(tag), attr_opening(attr, '\''), 0);
    if let Some(v) = quoted_value(tag, attr, '"') {
        let i = find_spec(lower_seq(tag), attr_opening(attr, '"'), 0).unwrap();
        assert(is_first_opening(tag, attr, '"', i));
    } else if let Some(v) = quoted_value(tag, attr, '\'') {
        let i = find_spec(lower_seq(tag), attr_opening(attr, '\''), 0).unwrap();
        assert(is_first_opening(tag, attr, '\'', i));
    }
}

} // verus!
