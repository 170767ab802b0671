//! Joining archive entry names onto a destination directory without letting
//! them climb out of it, with the path rules of Unix (`windows == false`) or
//! of Windows (`windows == true`).
use vstd::prelude::*;

use crate::text::{append_chars, chars_to_string, matches_at, str_chars, string_opt_view};

verus! {

/// A separator of path components: `/`, and on Windows also `\`.
pub open spec fn is_sep(c: char, windows: bool) -> bool {
    c == '/' || (windows && c == '\\')
}

/// The separator that joins components: `\` on Windows, `/` elsewhere.
pub open spec fn main_sep(windows: bool) -> char {
    if windows {
        '\\'
    } else {
        '/'
    }
}

pub open spec fn is_ascii_alpha(c: char) -> bool {
    ('a' <= c && c <= 'z') || ('A' <= c && c <= 'Z')
}

/// A text that begins like a Windows drive: an ASCII letter and `:`.
pub open spec fn is_drive_like(s: Seq<char>) -> bool {
    s.len() >= 2 && is_ascii_alpha(s[0]) && s[1] == ':'
}

/// The first position at or after `from` that holds a separator, or the
/// length of `s` when none does.
pub open spec fn next_sep(s: Seq<char>, from: int, windows: bool) -> int
    decreases s.len() - from,
{
    if from >= s.len() {
        s.len() as int
    } else if is_sep(s[from], windows) {
        from
    } else {
        next_sep(s, from + 1, windows)
    }
}

/// The first `\` at or after `from`, or the length of `s` when there is none.
pub open spec fn next_backslash(s: Seq<char>, from: int) -> int
    decreases s.len() - from,
{
    if from >= s.len() {
        s.len() as int
    } else if s[from] == '\\' {
        from
    } else {
        next_backslash(s, from + 1)
    }
}

/// `s` begins with the verbatim marker `\\?\`.
pub open spec fn is_verbatim(s: Seq<char>) -> bool {
    s.len() >= 4 && s[0] == '\\' && s[1] == '\\' && s[2] == '?' && s[3] == '\\'
}

/// The length of the Windows prefix that a path begins with, as the standard
/// library reads prefixes:
/// - `X:`, a drive;
/// - `\\?\UNC\server\share`, `\\?\X:` (then `\` or the end) and `\\?\name`,
///   the verbatim forms, whose parts are split on `\` only;
/// - `\\.\name`, a device;
/// - `\\server\share`, a share, with both names non-empty;
/// - none otherwise.
/// In the last two forms either separator may stand for `\`.
pub open spec fn windows_prefix_len(s: Seq<char>) -> int {
    if is_drive_like(s) {
        2
    } else if is_verbatim(s) {
        if s.len() >= 8 && s[4] == 'U' && s[5] == 'N' && s[6] == 'C' && s[7] == '\\' {
            let a = next_backslash(s, 8);
            if a >= s.len() {
                s.len() as int
            } else {
                next_backslash(s, a + 1)
            }
        } else if s.len() >= 6 && is_ascii_alpha(s[4]) && s[5] == ':' && (s.len() == 6 || s[6]
            == '\\') {
            6
        } else {
            next_backslash(s, 4)
        }
    } else if s.len() >= 4 && is_sep(s[0], true) && is_sep(s[1], true) && s[2] == '.' && is_sep(
        s[3],
        true,
    ) {
        next_sep(s, 4, true)
    } else if s.len() >= 2 && is_sep(s[0], true) && is_sep(s[1], true) {
        let a = next_sep(s, 2, true);
        if a > 2 && a < s.len() {
            let b = next_sep(s, a + 1, true);
            if b > a + 1 {
                b
            } else {
                0
            }
        } else {
            0
        }
    } else {
        0
    }
}

/// A path component that names something: not empty, not `.` and not `..`.
pub open spec fn is_normal_part(seg: Seq<char>) -> bool {
    seg.len() > 0 && seg != seq!['.'] && seg != seq!['.', '.']
}

/// The normal components of a path read so far, and the component still open
/// after its last separator.
pub open spec fn split_state(s: Seq<char>, windows: bool) -> (Seq<Seq<char>>, Seq<char>)
    decreases s.len(),
{
    if s.len() == 0 {
        (Seq::empty(), Seq::empty())
    } else {
        let (parts, cur) = split_state(s.drop_last(), windows);
        let c = s.last();
        if is_sep(c, windows) {
            (if is_normal_part(cur) {
                parts.push(cur)
            } else {
                parts
            }, Seq::empty())
        } else {
            (parts, cur.push(c))
        }
    }
}

/// The normal components of a path, in order: on Windows its prefix (drive or
/// share) is left out first; root, `.`, `..` and empty components are left
/// out everywhere.
pub open spec fn normal_parts(s: Seq<char>, windows: bool) -> Seq<Seq<char>> {
    let rest = if windows {
        s.skip(windows_prefix_len(s))
    } else {
        s
    };
    let (parts, cur) = split_state(rest, windows);
    if is_normal_part(cur) {
        parts.push(cur)
    } else {
        parts
    }
}

/// `p` extended by one component. On Windows a component that reads like a
/// drive replaces `p` (it carries a prefix of its own). Otherwise the main
/// separator goes between them unless `p` is empty, already ends with a
/// separator, or (on Windows) is a bare drive `X:`.
pub open spec fn push_part(p: Seq<char>, part: Seq<char>, windows: bool) -> Seq<char> {
    if windows && is_drive_like(part) {
        part
    } else if p.len() == 0 || is_sep(p.last(), windows) || (windows && p.len() == 2 && is_drive_like(p)) {
        p + part
    } else {
        p + seq![main_sep(windows)] + part
    }
}

/// `base` extended by each of `parts` in turn.
pub open spec fn join_parts(base: Seq<char>, parts: Seq<Seq<char>>, windows: bool) -> Seq<char>
    decreases parts.len(),
{
    if parts.len() == 0 {
        base
    } else {
        push_part(join_parts(base, parts.drop_last(), windows), parts.last(), windows)
    }
}

/// Some part reads like a drive; on Windows pushing it would replace the whole
/// path instead of extending it.
pub open spec fn has_drive_like_part(parts: Seq<Seq<char>>) -> bool {
    exists|k: int| 0 <= k < parts.len() && is_drive_like(#[trigger] parts[k])
}

/// `p` begins with `base`, and `base` ends at a component boundary of `p`: at
/// its end, before a separator, after one, or after a bare drive `X:`.
pub open spec fn begins_with_path(p: Seq<char>, base: Seq<char>, windows: bool) -> bool {
    &&& base.len() <= p.len()
    &&& p.subrange(0, base.len() as int) == base
    &&& {
        ||| base.len() == 0
        ||| p.len() == base.len()
        ||| is_sep(p[base.len() as int], windows)
        ||| is_sep(base.last(), windows)
        ||| (windows && base.len() == 2 && is_drive_like(base))
    }
}

/// `entry` joined onto `base` with only its normal components, when the
/// result still begins with `base`; none when it does not (on Windows a
/// drive-like component replaces what came before it).
pub open spec fn safe_join_spec(base: Seq<char>, entry: Seq<char>, windows: bool) -> Option<
    Seq<char>,
> {
    let joined = join_parts(base, normal_parts(entry, windows), windows);
    if begins_with_path(joined, base, windows) {
        Some(joined)
    } else {
        None
    }
}

proof fn lemma_push_part_prefix(p: Seq<char>, part: Seq<char>, windows: bool)
    requires
        !(windows && is_drive_like(part)),
    ensures
        push_part(p, part, windows).len() >= p.len() + part.len(),
        push_part(p, part, windows).subrange(0, p.len() as int) == p,
{
    if p.len() == 0 || is_sep(p.last(), windows) || (windows && p.len() == 2 && is_drive_like(p)) {
        assert((p + part).subrange(0, p.len() as int) =~= p);
    } else {
        assert((p + seq![main_sep(windows)] + part).subrange(0, p.len() as int) =~= p);
    }
}

/// Joining parts none of which replaces the path keeps `base` in front, up to
/// a component boundary.
proof fn lemma_join_begins_with_base(base: Seq<char>, parts: Seq<Seq<char>>, windows: bool)
    requires
        forall|k: int| 0 <= k < parts.len() ==> (#[trigger] parts[k]).len() > 0,
        windows ==> !has_drive_like_part(parts),
    ensures
        begins_with_path(join_parts(base, parts, windows), base, windows),
        parts.len() > 0 ==> join_parts(base, parts, windows).len() > base.len(),
    decreases parts.len(),
{
    if parts.len() == 0 {
        assert(base.subrange(0, base.len() as int) =~= base);
    } else {
        let init = parts.drop_last();
        assert forall|k: int| 0 <= k < init.len() implies (#[trigger] init[k]).len() > 0 by {
            assert(init[k] == parts[k]);
        }
        if windows && has_drive_like_part(init) {
            let k = choose|k: int| 0 <= k < init.len() && is_drive_like(#[trigger] init[k]);
            assert(is_drive_like(parts[k]));
        }
        if windows && is_drive_like(parts.last()) {
            assert(is_drive_like(parts[parts.len() - 1]));
        }
        lemma_join_begins_with_base(base, init, windows);
        let prev = join_parts(base, init, windows);
        let last = parts.last();
        assert(last == parts[parts.len() - 1]);
        lemma_push_part_prefix(prev, last, windows);
        let cur = push_part(prev, last, windows);
        assert(cur.subrange(0, base.len() as int) =~= prev.subrange(0, prev.len() as int).subrange(
            0,
            base.len() as int,
        ));
        if init.len() > 0 {
            assert(cur[base.len() as int] == cur.subrange(0, prev.len() as int)[base.len() as int]);
            assert(cur[base.len() as int] == prev[base.len() as int]);
        } else {
            assert(prev == base);
            if !(base.len() == 0 || is_sep(base.last(), windows) || (windows && base.len() == 2
                && is_drive_like(base))) {
                assert(cur == base + seq![main_sep(windows)] + last);
                assert(cur[base.len() as int] == main_sep(windows));
            }
        }
        assert(cur == join_parts(base, parts, windows));
        assert(cur.len() >= base.len());
        assert(cur.subrange(0, base.len() as int) == base);
        assert(begins_with_path(cur, base, windows));
    }
}

fn is_sep_exec(c: char, windows: bool) -> (r: bool)
    ensures
        r == is_sep(c, windows),
{
    c == '/' || (windows && c == '\\')
}

fn is_drive_like_exec(s: &[char]) -> (r: bool)
    ensures
        r == is_drive_like(s@),
{
    s.len() >= 2 && (('a' <= s[0] && s[0] <= 'z') || ('A' <= s[0] && s[0] <= 'Z')) && s[1] == ':'
}

fn next_sep_exec(s: &[char], from: usize, windows: bool) -> (r: usize)
    requires
        from <= s.len(),
    ensures
        r as int == next_sep(s@, from as int, windows),
        from <= r <= s.len(),
{
    let mut i = from;
    while i < s.len() && !is_sep_exec(s[i], windows)
        invariant
            from <= i <= s.len(),
            next_sep(s@, from as int, windows) == next_sep(s@, i as int, windows),
        decreases s.len() - i,
    {
        i = i + 1;
    }
    i
}

fn next_backslash_exec(s: &[char], from: usize) -> (r: usize)
    requires
        from <= s.len(),
    ensures
        r as int == next_backslash(s@, from as int),
        from <= r <= s.len(),
{
    let mut i = from;
    while i < s.len() && s[i] != '\\'
        invariant
            from <= i <= s.len(),
            next_backslash(s@, from as int) == next_backslash(s@, i as int),
        decreases s.len() - i,
    {
        i = i + 1;
    }
    i
}

fn windows_prefix_len_exec(s: &[char]) -> (r: usize)
    ensures
        r as int == windows_prefix_len(s@),
        r <= s.len(),
{
    if is_drive_like_exec(s) {
        return 2;
    }
    if s.len() >= 4 && s[0] == '\\' && s[1] == '\\' && s[2] == '?' && s[3] == '\\' {
        if s.len() >= 8 && s[4] == 'U' && s[5] == 'N' && s[6] == 'C' && s[7] == '\\' {
            let a = next_backslash_exec(s, 8);
            if a >= s.len() {
                return s.len();
            }
            return next_backslash_exec(s, a + 1);
        }
        if s.len() >= 6 && (('a' <= s[4] && s[4] <= 'z') || ('A' <= s[4] && s[4] <= 'Z')) && s[5]
            == ':' && (s.len() == 6 || s[6] == '\\') {
            return 6;
        }
        return next_backslash_exec(s, 4);
    }
    if s.len() >= 4 && is_sep_exec(s[0], true) && is_sep_exec(s[1], true) && s[2] == '.'
        && is_sep_exec(s[3], true) {
        return next_sep_exec(s, 4, true);
    }
    if s.len() >= 2 && is_sep_exec(s[0], true) && is_sep_exec(s[1], true) {
        let a = next_sep_exec(s, 2, true);
        if a > 2 && a < s.len() {
            let b = next_sep_exec(s, a + 1, true);
            if b > a + 1 {
                return b;
            }
        }
    }
    0
}

fn push_part_exec(p: &mut Vec<char>, part: &[char], windows: bool)
    ensures
        final(p)@ == push_part(old(p)@, part@, windows),
{
    if windows && is_drive_like_exec(part) {
        p.clear();
        append_chars(p, part);
        assert(p@ =~= part@);
    } else if p.len() == 0 || is_sep_exec(p[p.len() - 1], windows) || (windows && p.len() == 2
        && is_drive_like_exec(p)) {
        append_chars(p, part);
    } else {
        if windows {
            p.push('\\');
        } else {
            p.push('/');
        }
        append_chars(p, part);
    }
}

fn is_normal_exec(seg: &[char]) -> (r: bool)
    ensures
        r == is_normal_part(seg@),
{
    if seg.len() == 0 {
        return false;
    }
    if seg.len() == 1 && seg[0] == '.' {
        assert(seg@ =~= seq!['.']);
        return false;
    }
    if seg.len() == 2 && seg[0] == '.' && seg[1] == '.' {
        assert(seg@ =~= seq!['.', '.']);
        return false;
    }
    true
}

/// `entry` joined onto `base`, as `safe_join_spec` says.
fn begins_with_path_exec(p: &[char], base: &[char], windows: bool) -> (r: bool)
    ensures
        r == begins_with_path(p@, base@, windows),
{
    if base.len() > p.len() || !matches_at(p, base, 0) {
        return false;
    }
    base.len() == 0 || p.len() == base.len() || is_sep_exec(p[base.len()], windows) || is_sep_exec(
        base[base.len() - 1],
        windows,
    ) || (windows && base.len() == 2 && is_drive_like_exec(base))
}

/// `entry` joined onto `base`, as `safe_join_spec` says.
pub fn safe_join_chars(base: &[char], entry: &[char], windows: bool) -> (r: Option<Vec<char>>)
    ensures
        match r {
            Some(p) => safe_join_spec(base@, entry@, windows) == Some(p@),
            None => safe_join_spec(base@, entry@, windows) is None,
        },
{
    let skip: usize = if windows {
        windows_prefix_len_exec(entry)
    } else {
        0
    };
    let rest = crate::text::copy_range(entry, skip, entry.len());
    assert(rest@ =~= if windows {
        entry@.skip(windows_prefix_len(entry@))
    } else {
        entry@
    });
    let mut result: Vec<char> = Vec::new();
    append_chars(&mut result, base);
    assert(result@ =~= base@);
    let mut cur: Vec<char> = Vec::new();
    let mut i: usize = 0;
    while i < rest.len()
        invariant
            i <= rest.len(),
            result@ == join_parts(base@, split_state(rest@.take(i as int), windows).0, windows),
            cur@ == split_state(rest@.take(i as int), windows).1,
        decreases rest.len() - i,
    {
        let c = rest[i];
        let ghost before = rest@.take(i as int);
        let ghost parts = split_state(before, windows).0;
        assert(rest@.take(i + 1).drop_last() =~= before);
        if is_sep_exec(c, windows) {
            if is_normal_exec(&cur) {
                push_part_exec(&mut result, &cur, windows);
                assert(parts.push(cur@).drop_last() =~= parts);
            }
            cur = Vec::new();
        } else {
            cur.push(c);
        }
        i = i + 1;
    }
    assert(rest@.take(rest.len() as int) =~= rest@);
    let ghost parts = split_state(rest@, windows).0;
    if is_normal_exec(&cur) {
        push_part_exec(&mut result, &cur, windows);
        assert(parts.push(cur@).drop_last() =~= parts);
    }
    if begins_with_path_exec(&result, base, windows) {
        Some(result)
    } else {
        None
    }
}

/// Joins `entry_name` onto `base`, keeping only the components that name
/// something, so that `..`, `.`, a root, a Windows drive or share prefix and
/// empty components cannot lead out of `base`. With `windows` set, `\` is a
/// separator as well as `/`, parts are joined with `\`, and an entry with a
/// drive-like component is refused.
pub fn safe_join(base: &str, entry_name: &str, windows: bool) -> (r: Option<String>)
    ensures
        string_opt_view(r) == safe_join_spec(base@, entry_name@, windows),
{
    let b = str_chars(base);
    let e = str_chars(entry_name);
    match safe_join_chars(&b, &e, windows) {
        Some(p) => Some(chars_to_string(&p)),
        None => None,
    }
}

proof fn lemma_split_state_normal(s: Seq<char>, windows: bool)
    ensures
        forall|k: int|
            0 <= k < split_state(s, windows).0.len() ==> is_normal_part(
                #[trigger] split_state(s, windows).0[k],
            ) && !split_state(s, windows).0[k].contains('/') && (windows ==> !split_state(
                s,
                windows,
            ).0[k].contains('\\')),
        !split_state(s, windows).1.contains('/'),
        windows ==> !split_state(s, windows).1.contains('\\'),
    decreases s.len(),
{
    if s.len() > 0 {
        lemma_split_state_normal(s.drop_last(), windows);
        let (parts, cur) = split_state(s.drop_last(), windows);
        if !is_sep(s.last(), windows) {
            assert forall|c: char| cur.push(s.last()).contains(c) implies !is_sep(c, windows) by {
                let k = choose|k: int| 0 <= k < cur.push(s.last()).len() && cur.push(s.last())[k] == c;
                if k < cur.len() {
                    assert(cur.contains(cur[k]));
                }
            }
        }
    }
}

/// The join of an entry that is not refused is `base` followed by normal
/// components: none is empty, `.` or `..`, none holds `/` (nor, on Windows,
/// `\`), and the result begins with `base` up to a component boundary. Under
/// Unix rules, and on Windows when no component reads like a drive, the join
/// is never refused.
pub proof fn law_join_stays_under_base(base: Seq<char>, entry: Seq<char>, windows: bool)
    ensures
        safe_join_spec(base, entry, windows) matches Some(p) ==> {
            &&& begins_with_path(p, base, windows)
            &&& p == join_parts(base, normal_parts(entry, windows), windows)
        },
        !windows || !has_drive_like_part(normal_parts(entry, windows)) ==> safe_join_spec(
            base,
            entry,
            windows,
        ) is Some,
        forall|k: int|
            0 <= k < normal_parts(entry, windows).len() ==> {
                let part = #[trigger] normal_parts(entry, windows)[k];
                &&& is_normal_part(part)
                &&& !part.contains('/')
                &&& windows ==> !part.contains('\\')
            },
{
    let rest = if windows {
        entry.skip(windows_prefix_len(entry))
    } else {
        entry
    };
    lemma_split_state_normal(rest, windows);
    let parts = normal_parts(entry, windows);
    assert forall|k: int| 0 <= k < parts.len() implies (#[trigger] parts[k]).len() > 0 by {
        assert(is_normal_part(parts[k]));
    }
    if !windows || !has_drive_like_part(parts) {
        lemma_join_begins_with_base(base, parts, windows);
    }
}


proof fn lemma_split_append(x: Seq<char>, y: Seq<char>, windows: bool)
    requires
        split_state(x, windows).1 == Seq::<char>::empty(),
    ensures
        split_state(x + y, windows) == (split_state(x, windows).0 + split_state(y, windows).0,
        split_state(y, windows).1),
    decreases y.len(),
{
    if y.len() == 0 {
        assert(x + y =~= x);
        assert(split_state(x, windows).0 + Seq::<Seq<char>>::empty() =~= split_state(x, windows).0);
    } else {
        lemma_split_append(x, y.drop_last(), windows);
        assert((x + y).drop_last() =~= x + y.drop_last());
        assert((x + y).last() == y.last());
        let x0 = split_state(x, windows).0;
        let (y0, y1) = split_state(y.drop_last(), windows);
        assert((x0 + y0).push(y1) =~= x0 + y0.push(y1));
    }
}

proof fn lemma_join_append(base: Seq<char>, ps: Seq<Seq<char>>, qs: Seq<Seq<char>>, windows: bool)
    ensures
        join_parts(base, ps + qs, windows) == join_parts(join_parts(base, ps, windows), qs, windows),
    decreases qs.len(),
{
    if qs.len() == 0 {
        assert(ps + qs =~= ps);
    } else {
        lemma_join_append(base, ps, qs.drop_last(), windows);
        assert((ps + qs).drop_last() =~= ps + qs.drop_last());
        assert((ps + qs).last() == qs.last());
    }
}

/// Under Unix rules, joining `a/b` is joining `a`, then `b` onto the result.
pub proof fn law_join_in_two_steps(base: Seq<char>, a: Seq<char>, b: Seq<char>)
    ensures
        safe_join_spec(base, a + seq!['/'] + b, false) == match safe_join_spec(base, a, false) {
            Some(p) => safe_join_spec(p, b, false),
            None => None,
        },
{
    let a_sep = a + seq!['/'];
    assert(a_sep.drop_last() =~= a);
    lemma_split_append(a_sep, b, false);
    let (pa, ca) = split_state(a, false);
    let pb = split_state(b, false).0;
    let cb = split_state(b, false).1;
    assert(normal_parts(a, false) == if is_normal_part(ca) { pa.push(ca) } else { pa });
    assert(split_state(a_sep, false).0 == normal_parts(a, false));
    assert(a + seq!['/'] + b == a_sep + b);
    if is_normal_part(cb) {
        assert((normal_parts(a, false) + pb).push(cb) =~= normal_parts(a, false) + pb.push(cb));
    }
    assert(normal_parts(a + seq!['/'] + b, false) =~= normal_parts(a, false) + normal_parts(b, false));
    lemma_join_append(base, normal_parts(a, false), normal_parts(b, false), false);
    law_join_stays_under_base(base, a + seq!['/'] + b, false);
    law_join_stays_under_base(base, a, false);
    law_join_stays_under_base(join_parts(base, normal_parts(a, false), false), b, false);
}


proof fn lemma_split_without_separator(c: Seq<char>, windows: bool)
    requires
        forall|k: int| 0 <= k < c.len() ==> !is_sep(#[trigger] c[k], windows),
    ensures
        split_state(c, windows) == (Seq::<Seq<char>>::empty(), c),
    decreases c.len(),
{
    if c.len() > 0 {
        assert forall|k: int| 0 <= k < c.drop_last().len() implies !is_sep(
            #[trigger] c.drop_last()[k],
            windows,
        ) by {
            assert(c.drop_last()[k] == c[k]);
        }
        lemma_split_without_separator(c.drop_last(), windows);
        assert(!is_sep(c[c.len() - 1], windows));
        assert(c.drop_last().push(c.last()) =~= c);
    }
}

/// Every component that names something is kept: an entry made of one
/// component `c` (not empty, not `.` or `..`, without separator, and on Windows
/// not beginning like a drive) joins onto `base` as `base`, a separator (none
/// when `base` is empty or already ends with one), then `c`.
pub proof fn law_named_component_is_kept(base: Seq<char>, c: Seq<char>, windows: bool)
    requires
        c.len() > 0,
        c != seq!['.'],
        c != seq!['.', '.'],
        forall|k: int| 0 <= k < c.len() ==> c[k] != '/' && (windows ==> c[k] != '\\'),
        windows ==> !is_drive_like(c),
    ensures
        safe_join_spec(base, c, windows) == Some(
            if base.len() == 0 || base.last() == '/' || (windows && base.last() == '\\') || (windows
                && base.len() == 2 && is_drive_like(base)) {
                base + c
            } else {
                base + seq![if windows { '\\' } else { '/' }] + c
            },
        ),
{
    assert forall|k: int| 0 <= k < c.len() implies !is_sep(#[trigger] c[k], windows) by {}
    if windows {
        assert(!is_sep(c[0], true));
        assert(windows_prefix_len(c) == 0);
        assert(c.skip(0) =~= c);
    }
    lemma_split_without_separator(c, windows);
    assert(normal_parts(c, windows) =~= seq![c]);
    assert(seq![c].drop_last() =~= Seq::<Seq<char>>::empty());
    if windows && has_drive_like_part(seq![c]) {
        let k = choose|k: int| 0 <= k < 1 && is_drive_like(#[trigger] seq![c][k]);
        assert(seq![c][k] == c);
    }
    assert(join_parts(base, seq![c].drop_last(), windows) == base);
    assert(seq![c].last() == c);
    assert(join_parts(base, seq![c], windows) == push_part(base, c, windows));
    law_join_stays_under_base(base, c, windows);
}

} // verus!
