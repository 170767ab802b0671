//! Where the player's executable is looked for.
use vstd::prelude::*;

use crate::text::{append_chars, chars_to_string, ends_with, ends_with_spec, str_chars};

verus! {

/// A configured binary that is written as a path (it holds `/` or `\`) is used
/// as it stands; a bare name is looked up.
pub open spec fn is_explicit_path_spec(configured: Seq<char>) -> bool {
    configured.contains('/') || configured.contains('\\')
}

pub open spec fn exe_ext() -> Seq<char> {
    seq!['.', 'e', 'x', 'e']
}

/// The file name looked for under the bundled `ruffle-bin` directory: on
/// Windows the name with `.exe` added unless it already ends so, elsewhere the
/// name itself.
pub open spec fn bundled_binary_name_spec(configured: Seq<char>, windows: bool) -> Seq<char> {
    if windows && !ends_with_spec(configured, exe_ext()) {
        configured + exe_ext()
    } else {
        configured
    }
}

/// The file names tried in each directory of the search path: the name, and on
/// Windows also the name with `.exe` when it does not end so already.
pub open spec fn executable_candidates_spec(name: Seq<char>, windows: bool) -> Seq<Seq<char>> {
    if windows && !ends_with_spec(name, exe_ext()) {
        seq![name, name + exe_ext()]
    } else {
        seq![name]
    }
}

/// The pieces of `s` between separators, empty pieces included, as
/// `str::split` gives them.
pub open spec fn split_spec(s: Seq<char>, sep: char) -> Seq<Seq<char>>
    decreases s.len(),
{
    if s.len() == 0 {
        seq![Seq::empty()]
    } else {
        let prev = split_spec(s.drop_last(), sep);
        if s.last() == sep {
            prev.push(Seq::empty())
        } else {
            prev.update(prev.len() - 1, prev.last().push(s.last()))
        }
    }
}

/// The separator of the search path: `;` on Windows, `:` elsewhere.
pub open spec fn path_list_separator(windows: bool) -> char {
    if windows {
        ';'
    } else {
        ':'
    }
}

proof fn lemma_split_nonempty(s: Seq<char>, sep: char)
    ensures
        split_spec(s, sep).len() >= 1,
    decreases s.len(),
{
    if s.len() > 0 {
        lemma_split_nonempty(s.drop_last(), sep);
    }
}

fn contains_char(s: &[char], c: char) -> (r: bool)
    ensures
        r == s@.contains(c),
{
    let mut i: usize = 0;
    while i < s.len()
        invariant
            i <= s.len(),
            forall|k: int| 0 <= k < i ==> s@[k] != c,
        decreases s.len() - i,
    {
        if s[i] == c {
            assert(s@[i as int] == c);
            return true;
        }
        i = i + 1;
    }
    false
}

/// Whether the configured binary is written as a path rather than a bare name.
pub fn is_explicit_binary_path(configured: &str) -> (r: bool)
    ensures
        r == is_explicit_path_spec(configured@),
{
    let cs = str_chars(configured);
    contains_char(&cs, '/') || contains_char(&cs, '\\')
}

/// The file name looked for under the bundled `ruffle-bin` directory.
pub fn bundled_binary_name(configured: &str, windows: bool) -> (r: String)
    ensures
        r@ == bundled_binary_name_spec(configured@, windows),
{
    let mut cs = str_chars(configured);
    let ext = ['.', 'e', 'x', 'e'];
    assert(ext@ =~= exe_ext());
    if windows && !ends_with(&cs, &ext) {
        append_chars(&mut cs, &ext);
    }
    chars_to_string(&cs)
}

/// The file names tried in each directory of the search path.
pub fn executable_candidates(name: &str, windows: bool) -> (r: Vec<String>)
    ensures
        r.deep_view() == executable_candidates_spec(name@, windows),
{
    let cs = str_chars(name);
    let ext = ['.', 'e', 'x', 'e'];
    assert(ext@ =~= exe_ext());
    let mut out: Vec<String> = Vec::new();
    out.push(name.to_string());
    if windows && !ends_with(&cs, &ext) {
        let mut with_ext = cs.clone();
        append_chars(&mut with_ext, &ext);
        out.push(chars_to_string(&with_ext));
        assert(out.deep_view() =~= seq![name@, name@ + exe_ext()]);
    } else {
        assert(out.deep_view() =~= seq![name@]);
    }
    out
}

/// The directories of a search path value, in order, empty ones included.
pub fn split_search_path(path_var: &str, windows: bool) -> (r: Vec<String>)
    ensures
        r.deep_view() == split_spec(path_var@, path_list_separator(windows)),
{
    let sep = if windows {
        ';'
    } else {
        ':'
    };
    let s = str_chars(path_var);
    let mut done: Vec<String> = Vec::new();
    let mut cur: Vec<char> = Vec::new();
    let mut i: usize = 0;
    assert(s@.take(0) =~= Seq::<char>::empty());
    while i < s.len()
        invariant
            i <= s.len(),
            s@ == path_var@,
            sep == path_list_separator(windows),
            done.deep_view().push(cur@) == split_spec(s@.take(i as int), sep),
        decreases s.len() - i,
    {
        let c = s[i];
        assert(s@.take(i + 1).drop_last() =~= s@.take(i as int));
        let ghost prev = split_spec(s@.take(i as int), sep);
        if c == sep {
            let piece = chars_to_string(&cur);
            done.push(piece);
            cur = Vec::new();
            assert(done.deep_view().push(cur@) =~= prev.push(Seq::empty()));
        } else {
            cur.push(c);
            assert(done.deep_view().push(cur@) =~= prev.update(prev.len() - 1, prev.last().push(c)));
        }
        i = i + 1;
    }
    assert(s@.take(s.len() as int) =~= s@);
    let ghost before = done.deep_view();
    let last = chars_to_string(&cur);
    done.push(last);
    assert(done.deep_view() =~= before.push(cur@));
    done
}

/// No directory read from a search path holds the separator.
pub proof fn law_search_path_pieces_hold_no_separator(path_var: Seq<char>, windows: bool)
    ensures
        forall|k: int|
            0 <= k < split_spec(path_var, path_list_separator(windows)).len() ==> !(#[trigger] split_spec(
                path_var,
                path_list_separator(windows),
            )[k]).contains(path_list_separator(windows)),
    decreases path_var.len(),
{
    let sep = path_list_separator(windows);
    if path_var.len() > 0 {
        law_search_path_pieces_hold_no_separator(path_var.drop_last(), windows);
        lemma_split_nonempty(path_var.drop_last(), sep);
        let prev = split_spec(path_var.drop_last(), sep);
        if path_var.last() != sep {
            let grown = prev.last().push(path_var.last());
            assert(!prev[prev.len() - 1].contains(sep));
            assert forall|c: char| grown.contains(c) implies c != sep by {
                let k = choose|k: int| 0 <= k < grown.len() && grown[k] == c;
                if k < prev.last().len() {
                    assert(prev.last().contains(prev.last()[k]));
                }
            }
        }
    }
}


/// The pieces joined back with the separator between each two.
pub open spec fn join_with(parts: Seq<Seq<char>>, sep: char) -> Seq<char>
    decreases parts.len(),
{
    if parts.len() == 0 {
        Seq::empty()
    } else if parts.len() == 1 {
        parts[0]
    } else {
        join_with(parts.drop_last(), sep) + seq![sep] + parts.last()
    }
}

/// Joining the pieces of a search path with its separator gives the value back.
pub proof fn law_search_path_split_then_join(path_var: Seq<char>, windows: bool)
    ensures
        join_with(split_spec(path_var, path_list_separator(windows)), path_list_separator(windows))
            == path_var,
    decreases path_var.len(),
{
    let sep = path_list_separator(windows);
    if path_var.len() == 0 {
        assert(split_spec(path_var, sep) =~= seq![Seq::<char>::empty()]);
        assert(path_var =~= Seq::<char>::empty());
    } else {
        law_search_path_split_then_join(path_var.drop_last(), windows);
        lemma_split_nonempty(path_var.drop_last(), sep);
        let prev = split_spec(path_var.drop_last(), sep);
        let c = path_var.last();
        if c == sep {
            let next = prev.push(Seq::<char>::empty());
            assert(next.drop_last() =~= prev);
            assert(join_with(next, sep) =~= join_with(prev, sep) + seq![sep] + Seq::<char>::empty());
        } else {
            let next = prev.update(prev.len() - 1, prev.last().push(c));
            if prev.len() == 1 {
                assert(join_with(next, sep) == next[0]);
                assert(join_with(prev, sep) == prev[0]);
            } else {
                assert(next.drop_last() =~= prev.drop_last());
                assert(join_with(next, sep) =~= join_with(prev.drop_last(), sep) + seq![sep]
                    + prev.last().push(c));
            }
        }
        assert(path_var.drop_last().push(c) =~= path_var);
    }
}

/// Where the player's executable is taken from.
pub enum BinaryChoice {
    /// The configured value, as a path: it is absolute or written with separators.
    AsConfigured,
    /// The configured name, which the search path resolves.
    OnSearchPath,
    /// This file name under the bundled `ruffle-bin` directory.
    Bundled(String),
}

/// Picks the executable: a configured path as it stands; a bare name found on
/// the search path as it stands; otherwise the bundled copy. `is_absolute` and
/// `found_on_search_path` are what the caller learnt from the system about the
/// configured value (the second matters only for a bare name).
pub fn choose_binary(configured: &str, is_absolute: bool, found_on_search_path: bool, windows: bool) -> (r:
    BinaryChoice)
    ensures
        match r {
            BinaryChoice::AsConfigured => is_absolute || is_explicit_path_spec(configured@),
            BinaryChoice::OnSearchPath => !is_absolute && !is_explicit_path_spec(configured@)
                && found_on_search_path,
            BinaryChoice::Bundled(name) => !is_absolute && !is_explicit_path_spec(configured@)
                && !found_on_search_path && name@ == bundled_binary_name_spec(configured@, windows),
        },
{
    if is_absolute || is_explicit_binary_path(configured) {
        BinaryChoice::AsConfigured
    } else if found_on_search_path {
        BinaryChoice::OnSearchPath
    } else {
        BinaryChoice::Bundled(bundled_binary_name(configured, windows))
    }
}


/// Whether the chosen player is at hand: a name resolved on the search path
/// is; otherwise its file must exist.
pub fn player_present(choice: &BinaryChoice, file_exists: bool) -> (r: bool)
    ensures
        r == (choice is OnSearchPath || file_exists),
{
    match choice {
        BinaryChoice::OnSearchPath => true,
        _ => file_exists,
    }
}


/// On Windows the bundled name always ends with `.exe`, and a name that
/// already does is kept; elsewhere the name is kept as configured.
pub proof fn law_bundled_name(configured: Seq<char>, windows: bool)
    ensures
        windows ==> ends_with_spec(bundled_binary_name_spec(configured, windows), exe_ext()),
        windows && ends_with_spec(configured, exe_ext()) ==> bundled_binary_name_spec(configured, windows)
            == configured,
        !windows ==> bundled_binary_name_spec(configured, windows) == configured,
{
    if windows && !ends_with_spec(configured, exe_ext()) {
        let r = configured + exe_ext();
        assert(r.subrange(r.len() - 4, r.len() as int) =~= exe_ext());
    }
}

} // verus!
