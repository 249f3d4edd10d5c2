//! What waits to be imported.
use vstd::prelude::*;

use crate::order::{lemma_keyed, lemma_text_order, sort, sorted, text_before, text_lt, Ranking};
use crate::path::{extension, file_name, join, join_path, last_name, path_extension};
use crate::text::{lower, same_text, to_lower};

verus! {

/// What an import candidate is.
#[derive(Debug, Clone, Copy, PartialEq, Eq, Structural)]
pub enum CandidateKind {
    Directory,
    Archive,
}

impl CandidateKind {
    /// The kind in words.
    pub fn as_str(self) -> (r: &'static str)
        ensures
            r@ == match self {
                CandidateKind::Directory => "directory"@,
                CandidateKind::Archive => "archive"@,
            },
    {
        match self {
            CandidateKind::Directory => "directory",
            CandidateKind::Archive => "archive",
        }
    }
}

/// Something that can be imported.
#[derive(Debug, PartialEq, Eq)]
pub struct ImportCandidate {
    pub path: String,
    pub kind: CandidateKind,
}

/// An entry of the inbox.
#[derive(Debug)]
pub struct InboxEntry {
    pub path: String,
    pub is_dir: bool,
    pub is_file: bool,
}

/// The inbox below the working directory.
pub fn default_directory(current_dir: &str) -> (r: String)
    ensures
        r@ == join_path(current_dir@, "mods"@),
{
    join(current_dir, "mods")
}

/// Whether an extension, in small letters, is that of an archive.
pub open spec fn archive_extension(small: Seq<char>) -> bool {
    ||| small == "zip"@
    ||| small == "7z"@
    ||| small == "rar"@
    ||| small == "tar"@
    ||| small == "gz"@
    ||| small == "bz2"@
    ||| small == "xz"@
    ||| small == "zst"@
}

/// Whether a path names an archive that can be unpacked, told by its extension.
pub open spec fn supported(path: Seq<char>) -> bool {
    match path_extension(path) {
        Some(extension) => archive_extension(lower(extension)),
        None => false,
    }
}

/// Whether a path names an archive that can be unpacked.
pub fn is_supported_archive(path: &str) -> (r: bool)
    ensures
        r == supported(path@),
{
    match extension(path) {
        None => false,
        Some(extension) => {
            let small = to_lower(&extension);
            same_text(&small, "zip") || same_text(&small, "7z") || same_text(&small, "rar")
                || same_text(&small, "tar") || same_text(&small, "gz") || same_text(&small, "bz2")
                || same_text(&small, "xz") || same_text(&small, "zst")
        },
    }
}

/// The candidate that an entry of the inbox is.
pub open spec fn candidate(entry: InboxEntry) -> Option<ImportCandidate> {
    if entry.is_dir {
        Some(ImportCandidate { path: entry.path, kind: CandidateKind::Directory })
    } else if entry.is_file && supported(entry.path@) {
        Some(ImportCandidate { path: entry.path, kind: CandidateKind::Archive })
    } else {
        None
    }
}

/// The candidates among entries, in their order.
pub open spec fn candidates(entries: Seq<InboxEntry>) -> Seq<ImportCandidate>
    decreases entries.len(),
{
    if entries.len() == 0 {
        Seq::empty()
    } else {
        match candidate(entries.last()) {
            Some(found) => candidates(entries.drop_last()).push(found),
            None => candidates(entries.drop_last()),
        }
    }
}

/// What a candidate is listed by: its name in small letters.
pub open spec fn listed_name(path: Seq<char>) -> Seq<char> {
    match last_name(path) {
        Some(name) => lower(name),
        None => Seq::empty(),
    }
}

fn name_for_list(path: &str) -> (r: String)
    ensures
        r@ == listed_name(path@),
{
    match file_name(path) {
        Some(name) => to_lower(&name),
        None => String::new(),
    }
}

/// Candidates by their names in small letters.
pub struct ByName;

impl Ranking<ImportCandidate> for ByName {
    open spec fn lt(a: ImportCandidate, b: ImportCandidate) -> bool {
        text_lt(listed_name(a.path@), listed_name(b.path@))
    }

    proof fn laws() {
        lemma_text_order();
        let lt = |a: Seq<char>, b: Seq<char>| text_lt(a, b);
        let key = |c: ImportCandidate| listed_name(c.path@);
        lemma_keyed(lt, key);
        let keyed = |a: ImportCandidate, b: ImportCandidate| lt(key(a), key(b));
        let own = |a: ImportCandidate, b: ImportCandidate| Self::lt(a, b);
        assert(keyed =~= own);
    }

    fn before(a: &ImportCandidate, b: &ImportCandidate) -> (r: bool) {
        text_before(&name_for_list(&a.path), &name_for_list(&b.path))
    }
}

/// The candidates of an inbox, by their names in small letters.
pub fn scan(entries: Vec<InboxEntry>) -> (r: Vec<ImportCandidate>)
    ensures
        r@ == sorted::<ImportCandidate, ByName>(candidates(entries@)),
{
    let ghost all = entries@;
    let mut found: Vec<ImportCandidate> = Vec::new();
    for entry in it: entries
        invariant
            it.seq() == all,
            found@ == candidates(all.take(it.index() as int)),
    {
        assert(all.take(it.index() + 1).drop_last() =~= all.take(it.index() as int));
        if entry.is_dir {
            found.push(ImportCandidate { path: entry.path, kind: CandidateKind::Directory });
        } else if entry.is_file && is_supported_archive(&entry.path) {
            found.push(ImportCandidate { path: entry.path, kind: CandidateKind::Archive });
        }
    }
    assert(all.take(all.len() as int) =~= all);
    sort::<ImportCandidate, ByName>(found)
}

proof fn lemma_candidates(entries: Seq<InboxEntry>, found: ImportCandidate)
    ensures
        candidates(entries).contains(found) <==> exists|i: int|
            0 <= i < entries.len() && candidate(#[trigger] entries[i]) == Some(found),
    decreases entries.len(),
{
    if entries.len() > 0 {
        let front = entries.drop_last();
        let n = entries.len() - 1;
        lemma_candidates(front, found);
        let had = candidates(front);
        let all = candidates(entries);
        if all.contains(found) {
            let k = choose|k: int| 0 <= k < all.len() && all[k] == found;
            if k < had.len() {
                assert(had[k] == found);
                let i = choose|i: int|
                    0 <= i < front.len() && candidate(#[trigger] front[i]) == Some(found);
                assert(entries[i] == front[i]);
            } else {
                assert(candidate(entries[n]) == Some(found));
            }
        }
        if exists|i: int| 0 <= i < entries.len() && candidate(#[trigger] entries[i]) == Some(found) {
            let i = choose|i: int|
                0 <= i < entries.len() && candidate(#[trigger] entries[i]) == Some(found);
            if i < n {
                assert(front[i] == entries[i]);
                let k = choose|k: int| 0 <= k < had.len() && had[k] == found;
                assert(all[k] == found);
            } else {
                assert(all[had.len() as int] == found);
            }
        }
    }
}

/// The inbox offers every directory, and every file whose extension is that of an archive
/// in any case of letters, each as what it is, and nothing else. They stand in the order
/// of their names in small letters.
pub proof fn law_inbox_offers_what_can_be_imported(entries: Seq<InboxEntry>, i: int)
    requires
        0 <= i < entries.len(),
    ensures
        ({
            let offered = sorted::<ImportCandidate, ByName>(candidates(entries));
            let entry = entries[i];
            let ending = path_extension(entry.path@);
            let packed = ending is Some && (lower(ending->0) == "zip"@ || lower(ending->0) == "7z"@
                || lower(ending->0) == "rar"@ || lower(ending->0) == "tar"@ || lower(ending->0)
                == "gz"@ || lower(ending->0) == "bz2"@ || lower(ending->0) == "xz"@ || lower(
                ending->0,
            ) == "zst"@);
            &&& entry.is_dir ==> offered.contains(
                ImportCandidate { path: entry.path, kind: CandidateKind::Directory },
            )
            &&& !entry.is_dir && entry.is_file && packed ==> offered.contains(
                ImportCandidate { path: entry.path, kind: CandidateKind::Archive },
            )
            &&& candidate(entry) is Some <==> entry.is_dir || (entry.is_file && packed)
            &&& forall|a: int, b: int|
                0 <= a < b < offered.len() ==> !text_lt(
                    listed_name((#[trigger] offered[b]).path@),
                    listed_name((#[trigger] offered[a]).path@),
                )
            &&& forall|a: int|
                0 <= a < offered.len() ==> exists|k: int|
                    0 <= k < entries.len() && candidate(#[trigger] entries[k]) == Some(
                        #[trigger] offered[a],
                    )
        }),
{
    broadcast use vstd::seq_lib::group_to_multiset_ensures;

    let found = candidates(entries);
    let offered = sorted::<ImportCandidate, ByName>(found);
    crate::order::lemma_sorted::<ImportCandidate, ByName>(found);
    let entry = entries[i];
    if candidate(entry) is Some {
        let one = candidate(entry)->0;
        lemma_candidates(entries, one);
        assert(found.to_multiset().count(one) > 0);
        assert(offered.contains(one));
    }
    assert forall|a: int, b: int| 0 <= a < b < offered.len() implies !text_lt(
        listed_name((#[trigger] offered[b]).path@),
        listed_name((#[trigger] offered[a]).path@),
    ) by {
        assert(!ByName::lt(offered[b], offered[a]));
    }
    assert forall|a: int| 0 <= a < offered.len() implies exists|k: int|
        0 <= k < entries.len() && candidate(#[trigger] entries[k]) == Some(#[trigger] offered[a]) by {
        let one = offered[a];
        assert(offered.to_multiset().count(one) > 0);
        assert(found.contains(one));
        lemma_candidates(entries, one);
    }
}

} // verus!
