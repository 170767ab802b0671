//! Reading a zip archive and planning where each of its entries goes.
use std::io::Read;
use vstd::prelude::*;

use crate::paths::{begins_with_path, law_join_stays_under_base, safe_join, safe_join_spec};

verus! {

/// One entry of an archive: its name as the archive writes it, whether it is a
/// directory, the data read from it, and whether the data was read to its end.
pub struct ZipEntryData {
    pub name: String,
    pub is_dir: bool,
    pub contents: Vec<u8>,
    pub read_ok: bool,
}

impl View for ZipEntryData {
    type V = (Seq<char>, bool, Seq<u8>, bool);

    open spec fn view(&self) -> (Seq<char>, bool, Seq<u8>, bool) {
        (self.name@, self.is_dir, self.contents@, self.read_ok)
    }
}

/// What the `zip` crate reads from archive bytes (`ZipArchive::new`, then
/// `by_index` for each index below `len`, `name`, `is_dir` and `read_to_end`):
/// none when the archive cannot be opened, else one item per entry in index
/// order, none for an entry that cannot be opened.
pub uninterp spec fn zip_listing(data: Seq<u8>) -> Option<Seq<Option<(Seq<char>, bool, Seq<u8>, bool)>>>;

pub open spec fn entries_view(v: Seq<Option<ZipEntryData>>) -> Seq<Option<(Seq<char>, bool, Seq<u8>, bool)>> {
    v.map_values(
        |e: Option<ZipEntryData>|
            match e {
                Some(d) => Some(d@),
                None => None,
            },
    )
}

/// Reads the entries of a zip archive held in memory with the `zip` crate:
/// `ZipArchive::new` on the bytes, then for each index `by_index`, and of each
/// entry it opens `name`, `is_dir` and the data `read_to_end` gets (with
/// whether it got to the end). The contract names the result `zip_listing`
/// of the bytes, and claims of it only what `is_dir` is in the crate's source:
/// the name ends with `/` or `\`. How archives are decoded is not stated.
#[verifier::external_body]
fn read_zip_entries(data: &[u8]) -> (r: Option<Vec<Option<ZipEntryData>>>)
    ensures
        match r {
            Some(v) => zip_listing(data@) == Some(entries_view(v@)) && forall|i: int|
                0 <= i < v@.len() ==> (#[trigger] v@[i] matches Some(d) ==> d.is_dir == (
                d.name@.len() > 0 && (d.name@.last() == '/' || d.name@.last() == '\\'))),
            None => zip_listing(data@) is None,
        },
{
    let Ok(mut archive) = zip::ZipArchive::new(std::io::Cursor::new(data)) else { return None };
    let mut out = Vec::new();
    for i in 0..archive.len() {
        out.push(match archive.by_index(i) {
            Ok(mut e) => {
                let mut contents = Vec::new();
                let read_ok = e.read_to_end(&mut contents).is_ok();
                Some(ZipEntryData { name: e.name().to_string(), is_dir: e.is_dir(), contents, read_ok })
            },
            Err(_) => None,
        });
    }
    Some(out)
}

/// What extracting one entry does.
pub enum ExtractStep {
    /// The entry could not be opened; it is passed over.
    SkipUnreadable,
    /// The entry's name would lead out of the destination; it is passed over.
    SkipUnsafe(String),
    /// Create this directory (and its parents).
    CreateDir(String),
    /// Create this file (and the directories above it) with these bytes; the
    /// flag says whether they are all of the entry's data, else a read failure
    /// is to be reported after writing them.
    WriteFile(String, Vec<u8>, bool),
}

/// `step` is what extracting `entry` into `dest` does: pass over an entry that
/// cannot be opened or whose name `safe_join` refuses, else create the joined
/// path as a directory, or as a file with the entry's data.
pub open spec fn step_matches(
    step: ExtractStep,
    entry: Option<(Seq<char>, bool, Seq<u8>, bool)>,
    dest: Seq<char>,
    windows: bool,
) -> bool {
    match entry {
        None => step is SkipUnreadable,
        Some((name, is_dir, contents, read_ok)) => match safe_join_spec(dest, name, windows) {
            None => match step {
                ExtractStep::SkipUnsafe(n) => n@ == name,
                _ => false,
            },
            Some(path) => if is_dir {
                match step {
                    ExtractStep::CreateDir(p) => p@ == path,
                    _ => false,
                }
            } else {
                match step {
                    ExtractStep::WriteFile(p, c, ok) => p@ == path && c@ == contents && ok
                        == read_ok,
                    _ => false,
                }
            },
        },
    }
}

/// The steps for entries already read, one per entry, in order.
pub fn plan_extraction_steps(dest: &str, entries: &Vec<Option<ZipEntryData>>, windows: bool) -> (r: Vec<ExtractStep>)
    ensures
        r@.len() == entries@.len(),
        forall|i: int|
            0 <= i < r@.len() ==> step_matches(
                #[trigger] r@[i],
                entries_view(entries@)[i],
                dest@,
                windows,
            ),
{
    let mut steps: Vec<ExtractStep> = Vec::new();
    let mut i: usize = 0;
    while i < entries.len()
        invariant
            i <= entries.len(),
            steps@.len() == i,
            forall|k: int|
                0 <= k < i ==> step_matches(#[trigger] steps@[k], entries_view(entries@)[k], dest@, windows),
        decreases entries.len() - i,
    {
        let step = match &entries[i] {
            None => ExtractStep::SkipUnreadable,
            Some(e) => match safe_join(dest, e.name.as_str(), windows) {
                None => ExtractStep::SkipUnsafe(e.name.clone()),
                Some(path) => if e.is_dir {
                    ExtractStep::CreateDir(path)
                } else {
                    ExtractStep::WriteFile(path, e.contents.clone(), e.read_ok)
                },
            },
        };
        assert(step_matches(step, entries_view(entries@)[i as int], dest@, windows));
        steps.push(step);
        i = i + 1;
    }
    steps
}

/// The extraction steps for a zip archive held in memory; none when the
/// archive cannot be opened.
pub fn plan_zip_extraction(dest: &str, data: &[u8], windows: bool) -> (r: Option<Vec<ExtractStep>>)
    ensures
        r is None <==> zip_listing(data@) is None,
        r matches Some(steps) ==> zip_listing(data@) matches Some(listing) && steps@.len()
            == listing.len() && forall|i: int|
            0 <= i < steps@.len() ==> step_matches(#[trigger] steps@[i], listing[i], dest@, windows),
{
    match read_zip_entries(data) {
        None => None,
        Some(entries) => Some(plan_extraction_steps(dest, &entries, windows)),
    }
}

/// Every directory or file a plan creates lies under the destination: its
/// path begins with `dest` up to a component boundary.
pub proof fn law_steps_stay_under_dest(
    step: ExtractStep,
    entry: Option<(Seq<char>, bool, Seq<u8>, bool)>,
    dest: Seq<char>,
    windows: bool,
)
    requires
        step_matches(step, entry, dest, windows),
    ensures
        match step {
            ExtractStep::CreateDir(p) => begins_with_path(p@, dest, windows),
            ExtractStep::WriteFile(p, _, _) => begins_with_path(p@, dest, windows),
            _ => true,
        },
{
    if let Some((name, _, _, _)) = entry {
        law_join_stays_under_base(dest, name, windows);
    }
}

} // verus!
