//! Picking a download link out of a release listing.
use vstd::prelude::*;

use crate::text::{
    chars_to_string, copy_range, ends_with, ends_with_spec, find_char_from, find_from, find_spec,
    lemma_find_spec, occurs_at, str_chars, string_opt_view,
};

verus! {

/// `"browser_download_url":"`
pub open spec fn download_key() -> Seq<char> {
    seq![
        '"', 'b', 'r', 'o', 'w', 's', 'e', 'r', '_', 'd', 'o', 'w', 'n', 'l', 'o', 'a', 'd', '_',
        'u', 'r', 'l', '"', ':', '"',
    ]
}

/// The first download link at or after `pos` that ends with `suffix`: each
/// `"browser_download_url":"` opens a link that runs to the next `"`; after a
/// link that does not fit, the search goes on from its closing quote.
pub open spec fn release_scan(json: Seq<char>, suffix: Seq<char>, pos: int) -> Option<Seq<char>>
    decreases json.len() + 1 - pos,
{
    match find_spec(json, download_key(), pos) {
        None => None,
        Some(found) => {
            proof {
                lemma_find_spec(json, download_key(), pos);
            }
            let url_start = found + download_key().len();
            match find_spec(json, seq!['"'], url_start) {
                None => None,
                Some(url_end) => {
                    proof {
                        lemma_find_spec(json, seq!['"'], url_start);
                    }
                    let url = json.subrange(url_start, url_end);
                    if ends_with_spec(url, suffix) {
                        Some(url)
                    } else {
                        release_scan(json, suffix, url_end)
                    }
                },
            }
        },
    }
}

/// The first `browser_download_url` of a release listing that ends with `suffix`.
pub fn find_ruffle_url(json: &str, suffix: &str) -> (r: Option<String>)
    ensures
        string_opt_view(r) == release_scan(json@, suffix@, 0),
{
    let js = str_chars(json);
    let suf = str_chars(suffix);
    let key = [
        '"', 'b', 'r', 'o', 'w', 's', 'e', 'r', '_', 'd', 'o', 'w', 'n', 'l', 'o', 'a', 'd', '_',
        'u', 'r', 'l', '"', ':', '"',
    ];
    assert(key@ =~= download_key());
    let mut pos: usize = 0;
    loop
        invariant
            js@ == json@,
            suf@ == suffix@,
            key@ == download_key(),
            release_scan(json@, suffix@, 0) == release_scan(json@, suffix@, pos as int),
        decreases js.len() + 1 - pos,
    {
        let found = match find_from(&js, &key, pos) {
            Some(f) => f,
            None => return None,
        };
        proof {
            lemma_find_spec(js@, key@, pos as int);
        }
        let url_start = found + key.len();
        let url_end = match find_char_from(&js, '"', url_start) {
            Some(e) => e,
            None => return None,
        };
        proof {
            lemma_find_spec(js@, seq!['"'], url_start as int);
        }
        let url = copy_range(&js, url_start, url_end);
        if ends_with(&url, &suf) {
            return Some(chars_to_string(&url));
        }
        pos = url_end;
    }
}

proof fn lemma_release_scan(json: Seq<char>, suffix: Seq<char>, pos: int)
    ensures
        release_scan(json, suffix, pos) matches Some(url) ==> ends_with_spec(url, suffix)
            && !url.contains('"'),
    decreases json.len() + 1 - pos,
{
    lemma_find_spec(json, download_key(), pos);
    if let Some(found) = find_spec(json, download_key(), pos) {
        let url_start = found + download_key().len();
        lemma_find_spec(json, seq!['"'], url_start);
        if let Some(url_end) = find_spec(json, seq!['"'], url_start) {
            let url = json.subrange(url_start, url_end);
            if ends_with_spec(url, suffix) {
                assert forall|k: int| 0 <= k < url.len() implies url[k] != '"' by {
                    assert(!occurs_at(json, seq!['"'], url_start + k));
                    assert(json.subrange(url_start + k, url_start + k + 1) =~= seq![json[url_start + k]]);
                }
            } else {
                lemma_release_scan(json, suffix, url_end);
            }
        }
    }
}

/// A link picked from a listing ends with the asked-for suffix and holds no quote.
pub proof fn law_picked_link_ends_with_suffix(json: Seq<char>, suffix: Seq<char>)
    ensures
        release_scan(json, suffix, 0) matches Some(url) ==> ends_with_spec(url, suffix)
            && !url.contains('"'),
{
    lemma_release_scan(json, suffix, 0);
}


/// The link that a `"browser_download_url":"` at `i` opens runs to `e`: `e`
/// holds the first `"` after the key.
pub open spec fn link_closes_at(json: Seq<char>, i: int, e: int) -> bool {
    &&& occurs_at(json, download_key(), i)
    &&& i + download_key().len() <= e < json.len()
    &&& json[e] == '"'
    &&& forall|k: int| i + download_key().len() <= k < e ==> json[k] != '"'
}

proof fn lemma_release_scan_source(json: Seq<char>, suffix: Seq<char>, pos: int) -> (w: (int, int))
    ensures
        release_scan(json, suffix, pos) matches Some(url) ==> link_closes_at(json, w.0, w.1) && url
            == json.subrange(w.0 + download_key().len(), w.1),
    decreases json.len() + 1 - pos,
{
    lemma_find_spec(json, download_key(), pos);
    if let Some(found) = find_spec(json, download_key(), pos) {
        let url_start = found + download_key().len();
        lemma_find_spec(json, seq!['"'], url_start);
        if let Some(url_end) = find_spec(json, seq!['"'], url_start) {
            let url = json.subrange(url_start, url_end);
            if ends_with_spec(url, suffix) {
                assert forall|k: int| url_start <= k < url_end implies json[k] != '"' by {
                    assert(!occurs_at(json, seq!['"'], k));
                    assert(json.subrange(k, k + 1) =~= seq![json[k]]);
                }
                assert(json.subrange(url_end, url_end + 1)[0] == json[url_end]);
                return (found, url_end);
            } else {
                return lemma_release_scan_source(json, suffix, url_end);
            }
        }
    }
    (0, 0)
}

/// A picked link stands in the listing as a whole link: right after a
/// `"browser_download_url":"` and up to the next `"`.
pub proof fn law_picked_link_stands_in_listing(json: Seq<char>, suffix: Seq<char>)
    ensures
        release_scan(json, suffix, 0) matches Some(url) ==> exists|i: int, e: int|
            #[trigger] link_closes_at(json, i, e) && url == json.subrange(i + download_key().len(), e),
{
    let w = lemma_release_scan_source(json, suffix, 0);
    if release_scan(json, suffix, 0) is Some {
        assert(link_closes_at(json, w.0, w.1));
    }
}

proof fn lemma_release_scan_none(json: Seq<char>, suffix: Seq<char>, pos: int)
    requires
        forall|i: int, e: int|
            #[trigger] link_closes_at(json, i, e) ==> !ends_with_spec(
                json.subrange(i + download_key().len(), e),
                suffix,
            ),
    ensures
        release_scan(json, suffix, pos) is None,
    decreases json.len() + 1 - pos,
{
    lemma_find_spec(json, download_key(), pos);
    if let Some(found) = find_spec(json, download_key(), pos) {
        let url_start = found + download_key().len();
        lemma_find_spec(json, seq!['"'], url_start);
        if let Some(url_end) = find_spec(json, seq!['"'], url_start) {
            assert forall|k: int| url_start <= k < url_end implies json[k] != '"' by {
                assert(!occurs_at(json, seq!['"'], k));
                assert(json.subrange(k, k + 1) =~= seq![json[k]]);
            }
            assert(json.subrange(url_end, url_end + 1)[0] == json[url_end]);
            assert(link_closes_at(json, found, url_end));
            lemma_release_scan_none(json, suffix, url_end);
        }
    }
}

/// When no link of the listing ends with the suffix, none is picked.
pub proof fn law_no_matching_link_no_result(json: Seq<char>, suffix: Seq<char>)
    requires
        forall|i: int, e: int|
            #[trigger] link_closes_at(json, i, e) ==> !ends_with_spec(
                json.subrange(i + download_key().len(), e),
                suffix,
            ),
    ensures
        release_scan(json, suffix, 0) is None,
{
    lemma_release_scan_none(json, suffix, 0);
}


/// The link that `"browser_download_url":"` at `i` opens, closed at `e`, ends
/// with `suffix`.
pub open spec fn link_matches(json: Seq<char>, i: int, e: int, suffix: Seq<char>) -> bool {
    link_closes_at(json, i, e) && ends_with_spec(
        json.subrange(i + download_key().len(), e),
        suffix,
    )
}

/// The key that opens at `i` starts inside the text of another key.
pub open spec fn starts_inside_key(json: Seq<char>, i: int) -> bool {
    exists|j: int| j < i < j + download_key().len() && #[trigger] occurs_at(json, download_key(), j)
}

proof fn lemma_first_quote_unique(json: Seq<char>, i: int, e1: int, e2: int)
    requires
        link_closes_at(json, i, e1),
        link_closes_at(json, i, e2),
    ensures
        e1 == e2,
{
    if e1 < e2 {
        assert(json[e1] != '"');
    } else if e2 < e1 {
        assert(json[e2] != '"');
    }
}

proof fn lemma_release_first(json: Seq<char>, suffix: Seq<char>, pos: int) -> (w: (int, int))
    requires
        0 <= pos,
    ensures
        release_scan(json, suffix, pos) matches Some(url) ==> {
            &&& pos <= w.0 && link_closes_at(json, w.0, w.1)
            &&& url == json.subrange(w.0 + download_key().len(), w.1)
            &&& forall|i2: int, e2: int|
                pos <= i2 < w.0 && #[trigger] link_matches(json, i2, e2, suffix) ==> starts_inside_key(
                    json,
                    i2,
                )
        },
    decreases json.len() + 1 - pos,
{
    let key = download_key();
    lemma_find_spec(json, key, pos);
    if let Some(found) = find_spec(json, key, pos) {
        let url_start = found + key.len();
        lemma_find_spec(json, seq!['"'], url_start);
        if let Some(url_end) = find_spec(json, seq!['"'], url_start) {
            let url = json.subrange(url_start, url_end);
            assert forall|k: int| url_start <= k < url_end implies json[k] != '"' by {
                assert(!occurs_at(json, seq!['"'], k));
                assert(json.subrange(k, k + 1) =~= seq![json[k]]);
            }
            assert(json.subrange(url_end, url_end + 1)[0] == json[url_end]);
            assert(link_closes_at(json, found, url_end));
            if ends_with_spec(url, suffix) {
                return (found, url_end);
            } else {
                let w = lemma_release_first(json, suffix, url_end);
                if release_scan(json, suffix, pos) is Some {
                    assert forall|i2: int, e2: int|
                        pos <= i2 < w.0 && #[trigger] link_matches(json, i2, e2, suffix) implies starts_inside_key(
                        json,
                        i2,
                    ) by {
                        if i2 < found {
                        } else if i2 == found {
                            lemma_first_quote_unique(json, found, url_end, e2);
                        } else if i2 < url_start {
                            assert(occurs_at(json, key, found));
                        } else if i2 < url_end {
                            assert(json.subrange(i2, i2 + key.len())[0] == json[i2]);
                        }
                    }
                }
                return w;
            }
        }
    }
    (0, 0)
}

/// The picked link is the first link of the listing that ends with the
/// suffix, leaving aside keys that start inside the text of another key (the
/// search goes on after the whole of a rejected key).
pub proof fn law_picked_link_is_first_match(json: Seq<char>, suffix: Seq<char>)
    ensures
        release_scan(json, suffix, 0) matches Some(url) ==> exists|i: int, e: int|
            #[trigger] link_closes_at(json, i, e) && url == json.subrange(i + download_key().len(), e)
                && forall|i2: int, e2: int|
                0 <= i2 < i && #[trigger] link_matches(json, i2, e2, suffix) ==> starts_inside_key(
                    json,
                    i2,
                ),
{
    let w = lemma_release_first(json, suffix, 0);
    if release_scan(json, suffix, 0) is Some {
        assert(link_closes_at(json, w.0, w.1));
    }
}

} // verus!
