//! Deciding which navigations of the login view are game links, and the page
//! address that such a link stands for.
use vstd::prelude::*;

use crate::text::{string_opt_view, append_chars, chars_to_string, str_chars};

verus! {

/// The parts of a parsed URL that the launcher reads.
pub struct UrlParts {
    pub scheme: String,
    pub host: Option<String>,
    pub path: String,
    pub query: Option<String>,
}

impl View for UrlParts {
    type V = (Seq<char>, Option<Seq<char>>, Seq<char>, Option<Seq<char>>);

    open spec fn view(&self) -> (Seq<char>, Option<Seq<char>>, Seq<char>, Option<Seq<char>>) {
        (self.scheme@, string_opt_view(self.host), self.path@, string_opt_view(self.query))
    }
}

/// What `url::Url::parse` makes of a text, read through `Url::scheme`,
/// `Url::host_str`, `Url::path` and `Url::query`; none when it refuses it.
pub uninterp spec fn parsed_url(input: Seq<char>) -> Option<
    (Seq<char>, Option<Seq<char>>, Seq<char>, Option<Seq<char>>),
>;

/// Parses an absolute URL with `url::Url::parse` and hands back its scheme, host,
/// path and query as strings (`Url::scheme`, `Url::host_str`, `Url::path`,
/// `Url::query`), or none when the parser refuses the text. The contract claims
/// only that the result is a function of the text, named `parsed_url`; what the
/// parser makes of a text is not stated.
#[verifier::external_body]
fn parse_url(input: &str) -> (r: Option<UrlParts>)
    ensures
        match r {
            Some(p) => parsed_url(input@) == Some(p@),
            None => parsed_url(input@) is None,
        },
{
    match url::Url::parse(input) {
        Ok(u) => Some(UrlParts {
            scheme: u.scheme().to_string(),
            host: u.host_str().map(str::to_string),
            path: u.path().to_string(),
            query: u.query().map(str::to_string),
        }),
        Err(_) => None,
    }
}

/// The schemes that the login view opens itself.
pub open spec fn is_web_scheme(s: Seq<char>) -> bool {
    ||| s == seq!['h', 't', 't', 'p']
    ||| s == seq!['h', 't', 't', 'p', 's']
    ||| s == seq!['d', 'a', 't', 'a']
    ||| s == seq!['b', 'l', 'o', 'b']
    ||| s == seq!['a', 'b', 'o', 'u', 't']
}

/// The page address a game link stands for: its host taken as the scheme
/// (`https` when it has none), then `:`, its path and, when it has one, `?` and
/// its query.
pub open spec fn game_url_spec(p: (Seq<char>, Option<Seq<char>>, Seq<char>, Option<Seq<char>>)) -> Seq<char> {
    let scheme = match p.1 {
        Some(h) => h,
        None => seq!['h', 't', 't', 'p', 's'],
    };
    let query = match p.3 {
        Some(q) => seq!['?'] + q,
        None => Seq::empty(),
    };
    scheme + seq![':'] + p.2 + query
}

/// The page to launch for a navigation: none for a text that does not parse or
/// for a web scheme, which the view opens itself; the game page otherwise.
pub open spec fn navigation_target_spec(
    parsed: Option<(Seq<char>, Option<Seq<char>>, Seq<char>, Option<Seq<char>>)>,
) -> Option<Seq<char>> {
    match parsed {
        None => None,
        Some(p) => if is_web_scheme(p.0) {
            None
        } else {
            Some(game_url_spec(p))
        },
    }
}

fn chars_equal(a: &[char], b: &[char]) -> (r: bool)
    ensures
        r == (a@ == b@),
{
    if a.len() != b.len() {
        return false;
    }
    let mut i: usize = 0;
    while i < a.len()
        invariant
            i <= a.len(),
            a.len() == b.len(),
            forall|k: int| 0 <= k < i ==> a@[k] == b@[k],
        decreases a.len() - i,
    {
        if a[i] != b[i] {
            return false;
        }
        i = i + 1;
    }
    assert(a@ =~= b@);
    true
}

/// Whether the view opens links of this scheme itself.
pub fn is_web_scheme_exec(scheme: &str) -> (r: bool)
    ensures
        r == is_web_scheme(scheme@),
{
    let s = str_chars(scheme);
    let http = ['h', 't', 't', 'p'];
    let https = ['h', 't', 't', 'p', 's'];
    let data = ['d', 'a', 't', 'a'];
    let blob = ['b', 'l', 'o', 'b'];
    let about = ['a', 'b', 'o', 'u', 't'];
    assert(http@ =~= seq!['h', 't', 't', 'p']);
    assert(https@ =~= seq!['h', 't', 't', 'p', 's']);
    assert(data@ =~= seq!['d', 'a', 't', 'a']);
    assert(blob@ =~= seq!['b', 'l', 'o', 'b']);
    assert(about@ =~= seq!['a', 'b', 'o', 'u', 't']);
    chars_equal(&s, &http) || chars_equal(&s, &https) || chars_equal(&s, &data) || chars_equal(
        &s,
        &blob,
    ) || chars_equal(&s, &about)
}

/// The page address a game link stands for, as `game_url_spec` says:
/// `roadclient://https//host/path?query` stands for `https://host/path?query`.
pub fn extract_game_url(url: &UrlParts) -> (r: String)
    ensures
        r@ == game_url_spec(url@),
{
    let mut out: Vec<char> = Vec::new();
    match &url.host {
        Some(h) => {
            let hc = str_chars(h.as_str());
            append_chars(&mut out, &hc);
        },
        None => {
            let https = ['h', 't', 't', 'p', 's'];
            append_chars(&mut out, &https);
            assert(https@ =~= seq!['h', 't', 't', 'p', 's']);
        },
    }
    let ghost scheme = out@;
    out.push(':');
    let pc = str_chars(url.path.as_str());
    append_chars(&mut out, &pc);
    let ghost before_query = out@;
    match &url.query {
        Some(q) => {
            out.push('?');
            let qc = str_chars(q.as_str());
            append_chars(&mut out, &qc);
            assert(out@ =~= before_query + (seq!['?'] + q@));
        },
        None => {
            assert(out@ =~= before_query + Seq::<char>::empty());
        },
    }
    assert(out@ =~= game_url_spec(url@));
    chars_to_string(&out)
}

/// The page to launch for an already parsed navigation, as
/// `navigation_target_spec` says.
pub fn navigation_target(parsed: &Option<UrlParts>) -> (r: Option<String>)
    ensures
        string_opt_view(r) == navigation_target_spec(
            match parsed {
                Some(p) => Some(p@),
                None => None,
            },
        ),
{
    match parsed {
        None => None,
        Some(p) => {
            if is_web_scheme_exec(p.scheme.as_str()) {
                None
            } else {
                Some(extract_game_url(p))
            }
        },
    }
}

/// The game page to launch when the login view navigates to `url_str`; none
/// when the view should open it itself.
pub fn intercept_navigation(url_str: &str) -> (r: Option<String>)
    ensures
        string_opt_view(r) == navigation_target_spec(parsed_url(url_str@)),
{
    let parsed = parse_url(url_str);
    navigation_target(&parsed)
}

/// A navigation is intercepted exactly when its text parses and its scheme is
/// not one the view opens itself.
pub proof fn law_only_foreign_links_are_intercepted(url_str: Seq<char>)
    ensures
        navigation_target_spec(parsed_url(url_str)) is Some <==> (parsed_url(url_str) matches Some(
            p,
        ) && !is_web_scheme(p.0)),
{
}


/// A game link stands for its host (`https` when it has none) as the scheme,
/// then `:` and its path unchanged, then `?` and its query when it has one.
pub proof fn law_game_url_keeps_parts(p: (Seq<char>, Option<Seq<char>>, Seq<char>, Option<Seq<char>>))
    ensures
        ({
            let g = game_url_spec(p);
            let scheme = match p.1 {
                Some(h) => h,
                None => seq!['h', 't', 't', 'p', 's'],
            };
            let tail = match p.3 {
                Some(q) => seq!['?'] + q,
                None => Seq::empty(),
            };
            &&& g.len() == scheme.len() + 1 + p.2.len() + tail.len()
            &&& g.subrange(0, scheme.len() as int) == scheme
            &&& g[scheme.len() as int] == ':'
            &&& g.subrange(scheme.len() + 1 as int, scheme.len() + 1 + p.2.len() as int) == p.2
            &&& g.subrange(g.len() - tail.len() as int, g.len() as int) == tail
        }),
{
    let g = game_url_spec(p);
    let scheme = match p.1 {
        Some(h) => h,
        None => seq!['h', 't', 't', 'p', 's'],
    };
    let tail = match p.3 {
        Some(q) => seq!['?'] + q,
        None => Seq::empty(),
    };
    assert(g == scheme + seq![':'] + p.2 + tail);
    assert(g.subrange(0, scheme.len() as int) =~= scheme);
    assert(g.subrange(scheme.len() + 1 as int, scheme.len() + 1 + p.2.len() as int) =~= p.2);
    assert(g.subrange(g.len() - tail.len() as int, g.len() as int) =~= tail);
}

} // verus!
