//! Finding the Flash movie that a game page embeds.
use vstd::prelude::*;

use crate::attr::{
    extract_attr_chars, extract_attr_spec, parse_dimensions_chars, parse_dimensions_spec,
};
use crate::entities::{html_decode_chars, html_decode_spec};
use crate::text::{
    chars_to_string, contains, contains_spec, copy_range, find_char_from, find_from, find_spec,
    lemma_find_spec, lemma_rfind_spec, lower_char, lower_seq, lower_text, occurs_at, rfind_at_or_before,
    rfind_before, rfind_spec,
    str_chars,
};

verus! {

/// Where a page's movie is and, when the page gives them, its width and height.
pub struct SwfInfo {
    pub url: String,
    pub dimensions: Option<(u32, u32)>,
}

impl View for SwfInfo {
    type V = (Seq<char>, Option<(u32, u32)>);

    open spec fn view(&self) -> (Seq<char>, Option<(u32, u32)>) {
        (self.url@, self.dimensions)
    }
}

pub open spec fn embed_open() -> Seq<char> {
    seq!['<', 'e', 'm', 'b', 'e', 'd']
}

pub open spec fn param_open() -> Seq<char> {
    seq!['<', 'p', 'a', 'r', 'a', 'm']
}

pub open spec fn object_open() -> Seq<char> {
    seq!['<', 'o', 'b', 'j', 'e', 'c', 't']
}

pub open spec fn src_name() -> Seq<char> {
    seq!['s', 'r', 'c']
}

pub open spec fn value_name() -> Seq<char> {
    seq!['v', 'a', 'l', 'u', 'e']
}

pub open spec fn swf_ext() -> Seq<char> {
    seq!['.', 's', 'w', 'f']
}

/// `name="movie"`
pub open spec fn movie_name_dq() -> Seq<char> {
    seq!['n', 'a', 'm', 'e', '=', '"', 'm', 'o', 'v', 'i', 'e', '"']
}

/// `name='movie'`
pub open spec fn movie_name_sq() -> Seq<char> {
    seq!['n', 'a', 'm', 'e', '=', '\'', 'm', 'o', 'v', 'i', 'e', '\'']
}

/// The movie named by the `<embed` tag that starts at `abs`: its decoded `src`
/// when that holds `.swf`, with the tag's own dimensions.
pub open spec fn embed_candidate(html: Seq<char>, abs: int) -> Option<(Seq<char>, Option<(u32, u32)>)> {
    match find_spec(html, seq!['>'], abs) {
        None => None,
        Some(close) => {
            let tag = html.subrange(abs, close);
            match extract_attr_spec(tag, src_name()) {
                None => None,
                Some(src) => {
                    let decoded = html_decode_spec(src);
                    if contains_spec(decoded, swf_ext()) {
                        Some((decoded, parse_dimensions_spec(tag)))
                    } else {
                        None
                    }
                },
            }
        },
    }
}

/// The first `<embed` tag at or after `from` that names a movie; the tag name
/// is looked for in the ASCII-folded page (`lower_seq`, which folds only `A`
/// to `Z`) and the tag is read from the page itself at the same position.
pub open spec fn embed_scan(html: Seq<char>, from: int) -> Option<(Seq<char>, Option<(u32, u32)>)>
    decreases html.len() + 1 - from,
{
    let lower = lower_seq(html);
    match find_spec(lower, embed_open(), from) {
        None => None,
        Some(abs) => {
            proof {
                lemma_find_spec(lower, embed_open(), from);
            }
            match embed_candidate(html, abs) {
                Some(r) => Some(r),
                None => embed_scan(html, abs + 6),
            }
        },
    }
}

/// The dimensions of the last `<object` tag that opens before `abs`.
pub open spec fn object_dims(html: Seq<char>, abs: int) -> Option<(u32, u32)> {
    match rfind_spec(lower_seq(html), object_open(), abs) {
        None => None,
        Some(op) => match find_spec(html, seq!['>'], op) {
            None => None,
            Some(c) => parse_dimensions_spec(html.subrange(op, c)),
        },
    }
}

/// The movie named by the `<param` tag that starts at `abs`: when the tag is
/// `name="movie"` (or `name='movie'`) and its decoded `value` holds `.swf`,
/// that value, with the dimensions of the enclosing `<object`.
pub open spec fn param_candidate(html: Seq<char>, abs: int) -> Option<(Seq<char>, Option<(u32, u32)>)> {
    match find_spec(html, seq!['>'], abs) {
        None => None,
        Some(close) => {
            let tag = html.subrange(abs, close);
            let tag_lc = lower_seq(tag);
            if contains_spec(tag_lc, movie_name_dq()) || contains_spec(tag_lc, movie_name_sq()) {
                match extract_attr_spec(tag, value_name()) {
                    None => None,
                    Some(val) => {
                        let decoded = html_decode_spec(val);
                        if contains_spec(decoded, swf_ext()) {
                            Some((decoded, object_dims(html, abs)))
                        } else {
                            None
                        }
                    },
                }
            } else {
                None
            }
        },
    }
}

/// The first `<param` tag at or after `from` that names a movie, found in the
/// ASCII-folded page as `embed_scan` finds `<embed`.
pub open spec fn param_scan(html: Seq<char>, from: int) -> Option<(Seq<char>, Option<(u32, u32)>)>
    decreases html.len() + 1 - from,
{
    let lower = lower_seq(html);
    match find_spec(lower, param_open(), from) {
        None => None,
        Some(abs) => {
            proof {
                lemma_find_spec(lower, param_open(), from);
            }
            match param_candidate(html, abs) {
                Some(r) => Some(r),
                None => param_scan(html, abs + 6),
            }
        },
    }
}

/// The movie of a page: from an `<embed` tag if one names it, else from a
/// `<param name="movie">`; an empty url and no dimensions when neither does.
pub open spec fn extract_swf_info_spec(html: Seq<char>) -> (Seq<char>, Option<(u32, u32)>) {
    match embed_scan(html, 0) {
        Some(r) => r,
        None => match param_scan(html, 0) {
            Some(r) => r,
            None => (Seq::<char>::empty(), None),
        },
    }
}

fn embed_candidate_exec(html: &[char], abs: usize) -> (r: Option<(Vec<char>, Option<(u32, u32)>)>)
    requires
        abs <= html.len(),
    ensures
        match r {
            Some((u, d)) => embed_candidate(html@, abs as int) == Some((u@, d)),
            None => embed_candidate(html@, abs as int) is None,
        },
{
    let close = match find_char_from(html, '>', abs) {
        Some(c) => c,
        None => return None,
    };
    proof {
        lemma_find_spec(html@, seq!['>'], abs as int);
    }
    let tag = copy_range(html, abs, close);
    let src_attr = ['s', 'r', 'c'];
    assert(src_attr@ =~= src_name());
    let src = match extract_attr_chars(&tag, &src_attr) {
        Some(v) => v,
        None => return None,
    };
    let decoded = html_decode_chars(&src);
    let ext = ['.', 's', 'w', 'f'];
    assert(ext@ =~= swf_ext());
    if contains(&decoded, &ext) {
        let dims = parse_dimensions_chars(&tag);
        Some((decoded, dims))
    } else {
        None
    }
}

fn object_dims_exec(html: &[char], lower: &[char], abs: usize) -> (r: Option<(u32, u32)>)
    requires
        abs <= html.len(),
        lower@ == lower_seq(html@),
    ensures
        r == object_dims(html@, abs as int),
{
    let object = ['<', 'o', 'b', 'j', 'e', 'c', 't'];
    assert(object@ =~= object_open());
    let op = match rfind_before(lower, &object, abs) {
        Some(p) => p,
        None => return None,
    };
    proof {
        lemma_rfind_spec(lower@, object@, abs - object@.len());
    }
    let c = match find_char_from(html, '>', op) {
        Some(c) => c,
        None => return None,
    };
    proof {
        lemma_find_spec(html@, seq!['>'], op as int);
    }
    let tag = copy_range(html, op, c);
    parse_dimensions_chars(&tag)
}

fn param_candidate_exec(html: &[char], lower: &[char], abs: usize) -> (r: Option<
    (Vec<char>, Option<(u32, u32)>),
>)
    requires
        abs <= html.len(),
        lower@ == lower_seq(html@),
    ensures
        match r {
            Some((u, d)) => param_candidate(html@, abs as int) == Some((u@, d)),
            None => param_candidate(html@, abs as int) is None,
        },
{
    let close = match find_char_from(html, '>', abs) {
        Some(c) => c,
        None => return None,
    };
    proof {
        lemma_find_spec(html@, seq!['>'], abs as int);
    }
    let tag = copy_range(html, abs, close);
    let tag_lc = lower_text(&tag);
    let dq = ['n', 'a', 'm', 'e', '=', '"', 'm', 'o', 'v', 'i', 'e', '"'];
    let sq = ['n', 'a', 'm', 'e', '=', '\'', 'm', 'o', 'v', 'i', 'e', '\''];
    assert(dq@ =~= movie_name_dq());
    assert(sq@ =~= movie_name_sq());
    if !(contains(&tag_lc, &dq) || contains(&tag_lc, &sq)) {
        return None;
    }
    let value_attr = ['v', 'a', 'l', 'u', 'e'];
    assert(value_attr@ =~= value_name());
    let val = match extract_attr_chars(&tag, &value_attr) {
        Some(v) => v,
        None => return None,
    };
    let decoded = html_decode_chars(&val);
    let ext = ['.', 's', 'w', 'f'];
    assert(ext@ =~= swf_ext());
    if contains(&decoded, &ext) {
        let dims = object_dims_exec(html, lower, abs);
        Some((decoded, dims))
    } else {
        None
    }
}

fn scan_embeds(html: &[char], lower: &[char]) -> (r: Option<(Vec<char>, Option<(u32, u32)>)>)
    requires
        lower@ == lower_seq(html@),
    ensures
        match r {
            Some((u, d)) => embed_scan(html@, 0) == Some((u@, d)),
            None => embed_scan(html@, 0) is None,
        },
{
    let embed = ['<', 'e', 'm', 'b', 'e', 'd'];
    assert(embed@ =~= embed_open());
    let mut search_from: usize = 0;
    loop
        invariant
            lower@ == lower_seq(html@),
            embed@ == embed_open(),
            embed_scan(html@, 0) == embed_scan(html@, search_from as int),
        decreases html.len() + 1 - search_from,
    {
        match find_from(lower, &embed, search_from) {
            None => {
                return None;
            },
            Some(abs) => {
                proof {
                    lemma_find_spec(lower@, embed@, search_from as int);
                }
                match embed_candidate_exec(html, abs) {
                    Some(found) => {
                        return Some(found);
                    },
                    None => {},
                }
                search_from = abs + 6;
            },
        }
    }
}

fn scan_params(html: &[char], lower: &[char]) -> (r: Option<(Vec<char>, Option<(u32, u32)>)>)
    requires
        lower@ == lower_seq(html@),
    ensures
        match r {
            Some((u, d)) => param_scan(html@, 0) == Some((u@, d)),
            None => param_scan(html@, 0) is None,
        },
{
    let param = ['<', 'p', 'a', 'r', 'a', 'm'];
    assert(param@ =~= param_open());
    let mut search_from: usize = 0;
    loop
        invariant
            lower@ == lower_seq(html@),
            param@ == param_open(),
            param_scan(html@, 0) == param_scan(html@, search_from as int),
        decreases html.len() + 1 - search_from,
    {
        match find_from(lower, &param, search_from) {
            None => {
                return None;
            },
            Some(abs) => {
                proof {
                    lemma_find_spec(lower@, param@, search_from as int);
                }
                match param_candidate_exec(html, lower, abs) {
                    Some(found) => {
                        return Some(found);
                    },
                    None => {},
                }
                search_from = abs + 6;
            },
        }
    }
}

/// The movie of a game page, as `extract_swf_info_spec` says.
pub fn extract_swf_info(html: &str) -> (r: SwfInfo)
    ensures
        r@ == extract_swf_info_spec(html@),
{
    let h = str_chars(html);
    let lower = lower_text(&h);
    match scan_embeds(&h, &lower) {
        Some((u, d)) => {
            return SwfInfo { url: chars_to_string(&u), dimensions: d };
        },
        None => {},
    }
    match scan_params(&h, &lower) {
        Some((u, d)) => SwfInfo { url: chars_to_string(&u), dimensions: d },
        None => SwfInfo { url: String::new(), dimensions: None },
    }
}


proof fn lemma_embed_scan_names_swf(html: Seq<char>, from: int)
    ensures
        embed_scan(html, from) matches Some(r) ==> contains_spec(r.0, swf_ext()),
    decreases html.len() + 1 - from,
{
    let lower = lower_seq(html);
    lemma_find_spec(lower, embed_open(), from);
    if let Some(abs) = find_spec(lower, embed_open(), from) {
        if embed_candidate(html, abs) is None {
            lemma_embed_scan_names_swf(html, abs + 6);
        }
    }
}

proof fn lemma_param_scan_names_swf(html: Seq<char>, from: int)
    ensures
        param_scan(html, from) matches Some(r) ==> contains_spec(r.0, swf_ext()),
    decreases html.len() + 1 - from,
{
    let lower = lower_seq(html);
    lemma_find_spec(lower, param_open(), from);
    if let Some(abs) = find_spec(lower, param_open(), from) {
        if param_candidate(html, abs) is None {
            lemma_param_scan_names_swf(html, abs + 6);
        }
    }
}

/// The url found in a page is either empty, with no dimensions, or names a
/// `.swf` movie.
pub proof fn law_found_url_names_swf(html: Seq<char>)
    ensures
        ({
            let (url, dims) = extract_swf_info_spec(html);
            (url.len() == 0 && dims is None) || (url.len() > 0 && contains_spec(url, swf_ext()))
        }),
{
    lemma_embed_scan_names_swf(html, 0);
    lemma_param_scan_names_swf(html, 0);
    let url = extract_swf_info_spec(html).0;
    if contains_spec(url, swf_ext()) {
        lemma_find_spec(url, swf_ext(), 0);
    }
}


/// `url` is the decoded `src` of an `<embed` tag, or the decoded `value` of a
/// `<param` tag, that opens at `abs` (name in any ASCII case) and whose text
/// runs to the `>` at `close`.
pub open spec fn is_movie_tag_value(html: Seq<char>, abs: int, close: int, url: Seq<char>) -> bool {
    let tag = html.subrange(abs, close);
    &&& 0 <= abs <= close < html.len()
    &&& html[close] == '>'
    &&& {
        ||| occurs_at(lower_seq(html), embed_open(), abs) && extract_attr_spec(tag, src_name())
            == Some(raw_attr_value(tag, src_name())) && html_decode_spec(
            raw_attr_value(tag, src_name()),
        ) == url
        ||| occurs_at(lower_seq(html), param_open(), abs) && extract_attr_spec(tag, value_name())
            == Some(raw_attr_value(tag, value_name())) && html_decode_spec(
            raw_attr_value(tag, value_name()),
        ) == url
    }
}

/// The raw value read for `attr` in a tag, empty when there is none.
pub open spec fn raw_attr_value(tag: Seq<char>, attr: Seq<char>) -> Seq<char> {
    match extract_attr_spec(tag, attr) {
        Some(v) => v,
        None => Seq::empty(),
    }
}

proof fn lemma_close_is_gt(html: Seq<char>, abs: int)
    ensures
        find_spec(html, seq!['>'], abs) matches Some(close) ==> abs <= close < html.len()
            && html[close] == '>' && forall|k: int| abs <= k < close ==> html[k] != '>',
{
    lemma_find_spec(html, seq!['>'], abs);
    if let Some(close) = find_spec(html, seq!['>'], abs) {
        assert(html.subrange(close, close + 1)[0] == html[close]);
        assert forall|k: int| abs <= k < close implies html[k] != '>' by {
            assert(!occurs_at(html, seq!['>'], k));
            assert(html.subrange(k, k + 1) =~= seq![html[k]]);
        }
    }
}

proof fn lemma_embed_scan_source(html: Seq<char>, from: int) -> (w: (int, int))
    ensures
        embed_scan(html, from) matches Some(r) ==> is_movie_tag_value(html, w.0, w.1, r.0),
    decreases html.len() + 1 - from,
{
    let lower = lower_seq(html);
    lemma_find_spec(lower, embed_open(), from);
    if let Some(abs) = find_spec(lower, embed_open(), from) {
        if embed_candidate(html, abs) is None {
            lemma_embed_scan_source(html, abs + 6)
        } else {
            lemma_close_is_gt(html, abs);
            (abs, find_spec(html, seq!['>'], abs).unwrap())
        }
    } else {
        (0, 0)
    }
}

proof fn lemma_param_scan_source(html: Seq<char>, from: int) -> (w: (int, int))
    ensures
        param_scan(html, from) matches Some(r) ==> is_movie_tag_value(html, w.0, w.1, r.0),
    decreases html.len() + 1 - from,
{
    let lower = lower_seq(html);
    lemma_find_spec(lower, param_open(), from);
    if let Some(abs) = find_spec(lower, param_open(), from) {
        if param_candidate(html, abs) is None {
            lemma_param_scan_source(html, abs + 6)
        } else {
            lemma_close_is_gt(html, abs);
            (abs, find_spec(html, seq!['>'], abs).unwrap())
        }
    } else {
        (0, 0)
    }
}

/// A non-empty url found in a page is the decoded `src` of one of its `<embed`
/// tags or the decoded `value` of one of its `<param` tags.
pub proof fn law_found_url_comes_from_a_tag(html: Seq<char>)
    ensures
        extract_swf_info_spec(html).0.len() > 0 ==> exists|abs: int, close: int|
            is_movie_tag_value(html, abs, close, extract_swf_info_spec(html).0),
{
    let w1 = lemma_embed_scan_source(html, 0);
    let w2 = lemma_param_scan_source(html, 0);
    if embed_scan(html, 0) is Some {
        assert(is_movie_tag_value(html, w1.0, w1.1, extract_swf_info_spec(html).0));
    } else if param_scan(html, 0) is Some {
        assert(is_movie_tag_value(html, w2.0, w2.1, extract_swf_info_spec(html).0));
    }
}


/// Two occurrences of a pattern whose first character appears nowhere else
/// in it cannot overlap.
proof fn lemma_no_overlap(s: Seq<char>, pat: Seq<char>, a: int, j: int)
    requires
        occurs_at(s, pat, a),
        a < j < a + pat.len(),
        forall|k: int| 1 <= k < pat.len() ==> #[trigger] pat[k] != pat[0],
    ensures
        !occurs_at(s, pat, j),
{
    assert(s.subrange(a, a + pat.len())[j - a] == s[j]);
    if occurs_at(s, pat, j) {
        assert(s.subrange(j, j + pat.len())[0] == s[j]);
    }
}

/// An `<embed` tag opens at `i` (name in any ASCII case).
pub open spec fn embed_at(html: Seq<char>, i: int) -> bool {
    occurs_at(lower_seq(html), embed_open(), i)
}

/// A `<param` tag opens at `i` (name in any ASCII case).
pub open spec fn param_at(html: Seq<char>, i: int) -> bool {
    occurs_at(lower_seq(html), param_open(), i)
}

proof fn lemma_embed_scan_first(html: Seq<char>, from: int) -> (a: int)
    requires
        0 <= from,
    ensures
        embed_scan(html, from) matches Some(r) ==> {
            &&& from <= a && embed_at(html, a)
            &&& embed_candidate(html, a) == Some(r)
            &&& forall|j: int| from <= j < a && #[trigger] embed_at(html, j) ==> embed_candidate(html, j) is None
        },
        embed_scan(html, from) is None ==> forall|j: int|
            from <= j && #[trigger] embed_at(html, j) ==> embed_candidate(html, j) is None,
    decreases html.len() + 1 - from,
{
    let lower = lower_seq(html);
    lemma_find_spec(lower, embed_open(), from);
    match find_spec(lower, embed_open(), from) {
        None => 0,
        Some(abs) => {
            if embed_candidate(html, abs) is Some {
                abs
            } else {
                let a = lemma_embed_scan_first(html, abs + 6);
                assert forall|j: int| abs < j < abs + 6 implies !#[trigger] embed_at(html, j) by {
                    if embed_at(html, j) {
                        lemma_no_overlap(lower, embed_open(), abs, j);
                    }
                }
                a
            }
        },
    }
}

proof fn lemma_param_scan_first(html: Seq<char>, from: int) -> (a: int)
    requires
        0 <= from,
    ensures
        param_scan(html, from) matches Some(r) ==> {
            &&& from <= a && param_at(html, a)
            &&& param_candidate(html, a) == Some(r)
            &&& forall|j: int| from <= j < a && #[trigger] param_at(html, j) ==> param_candidate(html, j) is None
        },
        param_scan(html, from) is None ==> forall|j: int|
            from <= j && #[trigger] param_at(html, j) ==> param_candidate(html, j) is None,
    decreases html.len() + 1 - from,
{
    let lower = lower_seq(html);
    lemma_find_spec(lower, param_open(), from);
    match find_spec(lower, param_open(), from) {
        None => 0,
        Some(abs) => {
            if param_candidate(html, abs) is Some {
                abs
            } else {
                let a = lemma_param_scan_first(html, abs + 6);
                assert forall|j: int| abs < j < abs + 6 implies !#[trigger] param_at(html, j) by {
                    if param_at(html, j) {
                        lemma_no_overlap(lower, param_open(), abs, j);
                    }
                }
                a
            }
        },
    }
}

/// The movie of a page is that of the first `<embed` tag that names one; when
/// none does, that of the first `<param` tag that names one; when none does
/// either, an empty url without dimensions.
pub proof fn law_movie_of_first_naming_tag(html: Seq<char>)
    ensures
        (exists|a: int| #[trigger] embed_at(html, a) && embed_candidate(html, a) is Some) ==> exists|a: int|
            #[trigger] embed_at(html, a) && embed_candidate(html, a) == Some(extract_swf_info_spec(html))
            && forall|j: int| 0 <= j < a && #[trigger] embed_at(html, j) ==> embed_candidate(html, j) is None,
        (forall|a: int| #[trigger] embed_at(html, a) ==> embed_candidate(html, a) is None) && (exists|a: int|
            #[trigger] param_at(html, a) && param_candidate(html, a) is Some) ==> exists|a: int|
            #[trigger] param_at(html, a) && param_candidate(html, a) == Some(extract_swf_info_spec(html))
            && forall|j: int| 0 <= j < a && #[trigger] param_at(html, j) ==> param_candidate(html, j) is None,
        (forall|a: int| #[trigger] embed_at(html, a) ==> embed_candidate(html, a) is None) && (forall|a: int|
            #[trigger] param_at(html, a) ==> param_candidate(html, a) is None) ==> extract_swf_info_spec(html)
            == (Seq::<char>::empty(), None::<(u32, u32)>),
{
    let e = lemma_embed_scan_first(html, 0);
    let p = lemma_param_scan_first(html, 0);
    if exists|a: int| #[trigger] embed_at(html, a) && embed_candidate(html, a) is Some {
        let a = choose|a: int| #[trigger] embed_at(html, a) && embed_candidate(html, a) is Some;
        assert(0 <= a) by {
            assert(occurs_at(lower_seq(html), embed_open(), a));
        }
        assert(embed_at(html, e));
    }
    if (forall|a: int| #[trigger] embed_at(html, a) ==> embed_candidate(html, a) is None) {
        if exists|a: int| #[trigger] param_at(html, a) && param_candidate(html, a) is Some {
            let a = choose|a: int| #[trigger] param_at(html, a) && param_candidate(html, a) is Some;
            assert(0 <= a) by {
                assert(occurs_at(lower_seq(html), param_open(), a));
            }
            if embed_scan(html, 0) is Some {
                assert(embed_at(html, e));
            }
            assert(param_at(html, p));
        } else {
            if embed_scan(html, 0) is Some {
                assert(embed_at(html, e));
            }
            if param_scan(html, 0) is Some {
                assert(param_at(html, p));
            }
        }
    }
}


/// `pat` (lowercase) stands in `s` at `i` with its letters in any ASCII case.
pub open spec fn opens_ci(s: Seq<char>, pat: Seq<char>, i: int) -> bool {
    &&& 0 <= i && i + pat.len() <= s.len()
    &&& forall|k: int| 0 <= k < pat.len() ==> lower_char(#[trigger] s[i + k]) == pat[k]
}

proof fn lemma_opens_ci(s: Seq<char>, pat: Seq<char>, i: int)
    ensures
        opens_ci(s, pat, i) == occurs_at(lower_seq(s), pat, i),
{
    let lower = lower_seq(s);
    if 0 <= i && i + pat.len() <= s.len() {
        if opens_ci(s, pat, i) {
            assert(lower.subrange(i, i + pat.len()) =~= pat) by {
                assert forall|k: int| 0 <= k < pat.len() implies lower.subrange(i, i + pat.len())[k]
                    == pat[k] by {
                    assert(lower_char(s[i + k]) == pat[k]);
                }
            }
        }
        if occurs_at(lower, pat, i) {
            assert forall|k: int| 0 <= k < pat.len() implies lower_char(#[trigger] s[i + k]) == pat[k] by {
                assert(lower.subrange(i, i + pat.len())[k] == lower[i + k]);
            }
        }
    }
}

proof fn lemma_rfind_is_last(s: Seq<char>, pat: Seq<char>, op: int, i: int)
    requires
        occurs_at(s, pat, op),
        op <= i,
        forall|j: int| op < j <= i ==> !occurs_at(s, pat, j),
    ensures
        rfind_at_or_before(s, pat, i) == Some(op),
    decreases i - op,
{
    if i > op {
        lemma_rfind_is_last(s, pat, op, i - 1);
    }
}

proof fn lemma_find_is_first_gt(s: Seq<char>, from: int, c: int)
    requires
        0 <= from <= c < s.len(),
        s[c] == '>',
        forall|k: int| from <= k < c ==> s[k] != '>',
    ensures
        find_spec(s, seq!['>'], from) == Some(c),
{
    lemma_find_spec(s, seq!['>'], from);
    assert(s.subrange(c, c + 1) =~= seq!['>']);
    assert(occurs_at(s, seq!['>'], c));
    match find_spec(s, seq!['>'], from) {
        Some(r) => {
            if r < c {
                assert(s.subrange(r, r + 1)[0] == s[r]);
            }
        },
        None => {},
    }
}

/// For a `<param` movie, the dimensions are those of the last `<object` tag
/// (its name in any ASCII case) that opens before the `<param`: its text runs
/// to the first `>` after it, and its `width` and `height` are what count.
pub proof fn law_param_dims_from_enclosing_object(html: Seq<char>, abs: int, op: int, c: int)
    requires
        opens_ci(html, object_open(), op),
        op + 7 <= abs <= html.len(),
        forall|j: int| op < j && j + 7 <= abs ==> !#[trigger] opens_ci(html, object_open(), j),
        op <= c < html.len(),
        html[c] == '>',
        forall|k: int| op <= k < c ==> html[k] != '>',
    ensures
        param_candidate(html, abs) matches Some((u, d)) ==> d == parse_dimensions_spec(
            html.subrange(op, c),
        ),
{
    let lower = lower_seq(html);
    lemma_opens_ci(html, object_open(), op);
    assert forall|j: int| op < j <= abs - 7 implies !occurs_at(lower, object_open(), j) by {
        lemma_opens_ci(html, object_open(), j);
    }
    lemma_rfind_is_last(lower, object_open(), op, abs - 7);
    lemma_find_is_first_gt(html, op, c);
}

/// For a `<param` movie with no `<object` tag (in any ASCII case) before it,
/// there are no dimensions.
pub proof fn law_param_dims_without_object(html: Seq<char>, abs: int)
    requires
        forall|j: int| j + 7 <= abs ==> !#[trigger] opens_ci(html, object_open(), j),
    ensures
        param_candidate(html, abs) matches Some((u, d)) ==> d is None,
{
    let lower = lower_seq(html);
    lemma_rfind_spec(lower, object_open(), abs - 7);
    if let Some(op) = rfind_spec(lower, object_open(), abs) {
        lemma_opens_ci(html, object_open(), op);
    }
}


/// `r` is the movie that the tag opening at `abs` and ending at the first `>`
/// after it, at `close`, names: either an `<embed` (name in any ASCII case)
/// whose `src`, decoded, is the url and whose own `width` and `height` are the
/// dimensions; or a `<param` with `name="movie"` or `name='movie'` (in any
/// ASCII case) whose `value`, decoded, is the url, with the dimensions of the
/// enclosing `<object`. Either way the url holds `.swf`.
pub open spec fn is_movie_tag(html: Seq<char>, abs: int, close: int, r: (Seq<char>, Option<(u32, u32)>)) -> bool {
    let tag = html.subrange(abs, close);
    &&& 0 <= abs <= close < html.len()
    &&& html[close] == '>'
    &&& forall|k: int| abs <= k < close ==> html[k] != '>'
    &&& contains_spec(r.0, swf_ext())
    &&& {
        ||| {
            &&& opens_ci(html, embed_open(), abs)
            &&& extract_attr_spec(tag, src_name()) is Some
            &&& html_decode_spec(extract_attr_spec(tag, src_name()).unwrap()) == r.0
            &&& r.1 == parse_dimensions_spec(tag)
        }
        ||| {
            &&& opens_ci(html, param_open(), abs)
            &&& (contains_spec(lower_seq(tag), movie_name_dq()) || contains_spec(
                lower_seq(tag),
                movie_name_sq(),
            ))
            &&& extract_attr_spec(tag, value_name()) is Some
            &&& html_decode_spec(extract_attr_spec(tag, value_name()).unwrap()) == r.0
            &&& r.1 == object_dims(html, abs)
        }
    }
}

proof fn lemma_embed_scan_tag(html: Seq<char>, from: int) -> (w: (int, int))
    ensures
        embed_scan(html, from) matches Some(r) ==> is_movie_tag(html, w.0, w.1, r),
    decreases html.len() + 1 - from,
{
    let lower = lower_seq(html);
    lemma_find_spec(lower, embed_open(), from);
    if let Some(abs) = find_spec(lower, embed_open(), from) {
        if embed_candidate(html, abs) is None {
            lemma_embed_scan_tag(html, abs + 6)
        } else {
            lemma_close_is_gt(html, abs);
            lemma_opens_ci(html, embed_open(), abs);
            (abs, find_spec(html, seq!['>'], abs).unwrap())
        }
    } else {
        (0, 0)
    }
}

proof fn lemma_param_scan_tag(html: Seq<char>, from: int) -> (w: (int, int))
    ensures
        param_scan(html, from) matches Some(r) ==> is_movie_tag(html, w.0, w.1, r),
    decreases html.len() + 1 - from,
{
    let lower = lower_seq(html);
    lemma_find_spec(lower, param_open(), from);
    if let Some(abs) = find_spec(lower, param_open(), from) {
        if param_candidate(html, abs) is None {
            lemma_param_scan_tag(html, abs + 6)
        } else {
            lemma_close_is_gt(html, abs);
            lemma_opens_ci(html, param_open(), abs);
            (abs, find_spec(html, seq!['>'], abs).unwrap())
        }
    } else {
        (0, 0)
    }
}

/// A movie found in a page comes, url and dimensions together, from one tag of
/// the page, as `is_movie_tag` says.
pub proof fn law_found_movie_comes_from_a_tag(html: Seq<char>)
    ensures
        extract_swf_info_spec(html).0.len() > 0 ==> exists|abs: int, close: int|
            is_movie_tag(html, abs, close, extract_swf_info_spec(html)),
{
    let w1 = lemma_embed_scan_tag(html, 0);
    let w2 = lemma_param_scan_tag(html, 0);
    if embed_scan(html, 0) is Some {
        assert(is_movie_tag(html, w1.0, w1.1, extract_swf_info_spec(html)));
    } else if param_scan(html, 0) is Some {
        assert(is_movie_tag(html, w2.0, w2.1, extract_swf_info_spec(html)));
    }
}

} // verus!
