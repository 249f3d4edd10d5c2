//! How an archive or a directory becomes a mod of the library.
use vstd::prelude::*;

use crate::catalog::{
    catalog, framework_views, frameworks, infer_requirements, inferred, literal_views, Framework,
    FrameworkDescriptor,
};
use crate::models::{Dependency, ModKind, ModRelease, Timestamp};
use crate::order::{sort, sorted};
use crate::outside::{fresh_id, json_field_of, parse_json_field, uuid_form};
use crate::path::{
    absolute, components, extension, file_stem, inner_parts, is_absolute, join, join_path, lead,
    lemma_join_parts, lemma_joined_name, lemma_one_piece, lies_under, option_view, part_views,
    parts, path_extension, path_stem, ByPath, Part, PathPart,
};
use crate::paths::AppPaths;
use crate::text::{
    begins_with, chars_of, law_lower_is_by_characters, lines, lower, same_ignoring_case,
    split_lines, split_on, to_lower, views,
};

verus! {

/// What the user says of a mod that is imported.
#[derive(Debug)]
pub struct ImportOptions {
    pub name: Option<String>,
    pub version: String,
}

impl Default for ImportOptions {
    fn default() -> (r: Self)
        ensures
            r.name is None,
            r.version@ == "unknown"@,
    {
        ImportOptions { name: None, version: "unknown".to_owned() }
    }
}

/// Why something cannot be imported.
pub enum ImportFault {
    SourceMissing(Seq<char>),
    AbsolutePath(Seq<char>),
    UnsafePath(Seq<char>),
    TooManyEntries,
    EmptyArchive,
    SymbolicLink(Seq<char>),
    SpecialFile(Seq<char>),
    TooManyFiles,
    TooLarge,
    AmbiguousLayout(Seq<char>),
    TooManyWrappers,
    NoFiles,
    AlreadyInstalled(Seq<char>),
    DestinationExists(Seq<char>),
}

/// Why something cannot be imported.
#[derive(Debug)]
pub enum ImportError {
    SourceMissing(String),
    AbsolutePath(String),
    UnsafePath(String),
    TooManyEntries,
    EmptyArchive,
    SymbolicLink(String),
    SpecialFile(String),
    TooManyFiles,
    TooLarge,
    AmbiguousLayout(String),
    TooManyWrappers,
    NoFiles,
    AlreadyInstalled(String),
    DestinationExists(String),
}

impl View for ImportError {
    type V = ImportFault;

    open spec fn view(&self) -> ImportFault {
        match self {
            ImportError::SourceMissing(text) => ImportFault::SourceMissing(text@),
            ImportError::AbsolutePath(text) => ImportFault::AbsolutePath(text@),
            ImportError::UnsafePath(text) => ImportFault::UnsafePath(text@),
            ImportError::TooManyEntries => ImportFault::TooManyEntries,
            ImportError::EmptyArchive => ImportFault::EmptyArchive,
            ImportError::SymbolicLink(text) => ImportFault::SymbolicLink(text@),
            ImportError::SpecialFile(text) => ImportFault::SpecialFile(text@),
            ImportError::TooManyFiles => ImportFault::TooManyFiles,
            ImportError::TooLarge => ImportFault::TooLarge,
            ImportError::AmbiguousLayout(text) => ImportFault::AmbiguousLayout(text@),
            ImportError::TooManyWrappers => ImportFault::TooManyWrappers,
            ImportError::NoFiles => ImportFault::NoFiles,
            ImportError::AlreadyInstalled(text) => ImportFault::AlreadyInstalled(text@),
            ImportError::DestinationExists(text) => ImportFault::DestinationExists(text@),
        }
    }
}

/// A fault in words.
pub open spec fn fault_text(fault: ImportFault) -> Seq<char> {
    match fault {
        ImportFault::SourceMissing(path) => "import source does not exist: "@ + path,
        ImportFault::AbsolutePath(path) => "archive contains absolute path "@ + path,
        ImportFault::UnsafePath(path) => "archive contains unsafe path "@ + path,
        ImportFault::TooManyEntries => "archive has more than 200,000 entries"@,
        ImportFault::EmptyArchive => "archive is empty"@,
        ImportFault::SymbolicLink(path) => "archive contains a symbolic link: "@ + path,
        ImportFault::SpecialFile(path) => "archive contains a special file: "@ + path,
        ImportFault::TooManyFiles => "extracted archive has too many files"@,
        ImportFault::TooLarge => "extracted archive exceeds the 100 GiB safety limit"@,
        ImportFault::AmbiguousLayout(path) => "ambiguous archive layout at "@ + path
            + "; expected a game-root folder such as archive, bin, r6, red4ext, or mods"@,
        ImportFault::TooManyWrappers => "archive has too many wrapper directories"@,
        ImportFault::NoFiles => "archive contains no installable files"@,
        ImportFault::AlreadyInstalled(id) => "mod id "@ + id
            + " is already installed; remove or update it instead of importing twice"@,
        ImportFault::DestinationExists(path) => "release destination already exists: "@ + path,
    }
}

impl ImportError {
    /// What went wrong, in words.
    pub fn message(&self) -> (r: String)
        ensures
            r@ == fault_text(self@),
    {
        match self {
            ImportError::SourceMissing(path) => "import source does not exist: ".to_owned().concat(
                path,
            ),
            ImportError::AbsolutePath(path) => "archive contains absolute path ".to_owned().concat(
                path,
            ),
            ImportError::UnsafePath(path) => "archive contains unsafe path ".to_owned().concat(path),
            ImportError::TooManyEntries => "archive has more than 200,000 entries".to_owned(),
            ImportError::EmptyArchive => "archive is empty".to_owned(),
            ImportError::SymbolicLink(path) => "archive contains a symbolic link: ".to_owned().concat(
                path,
            ),
            ImportError::SpecialFile(path) => "archive contains a special file: ".to_owned().concat(
                path,
            ),
            ImportError::TooManyFiles => "extracted archive has too many files".to_owned(),
            ImportError::TooLarge =>
                "extracted archive exceeds the 100 GiB safety limit".to_owned(),
            ImportError::AmbiguousLayout(path) => "ambiguous archive layout at ".to_owned().concat(
                path,
            ).concat("; expected a game-root folder such as archive, bin, r6, red4ext, or mods"),
            ImportError::TooManyWrappers => "archive has too many wrapper directories".to_owned(),
            ImportError::NoFiles => "archive contains no installable files".to_owned(),
            ImportError::AlreadyInstalled(id) => "mod id ".to_owned().concat(id).concat(
                " is already installed; remove or update it instead of importing twice",
            ),
            ImportError::DestinationExists(path) => "release destination already exists: ".to_owned().concat(
                path,
            ),
        }
    }
}

/// What is wrong with a path inside an archive.
pub open spec fn path_fault(path: Seq<char>) -> Option<ImportFault> {
    if absolute(path) {
        Some(ImportFault::AbsolutePath(path))
    } else if parts(path).contains(Part::Parent) {
        Some(ImportFault::UnsafePath(path))
    } else {
        None
    }
}

/// Whether a result is a success or fails with a fault.
pub open spec fn fails_with(r: Result<(), ImportError>, fault: Option<ImportFault>) -> bool {
    match r {
        Ok(()) => fault is None,
        Err(error) => fault == Some(error@),
    }
}

/// Checks that a path inside an archive stays inside.
pub fn validate_relative_path(path: &str) -> (r: Result<(), ImportError>)
    ensures
        fails_with(r, path_fault(path@)),
{
    if is_absolute(path) {
        return Err(ImportError::AbsolutePath(path.to_owned()));
    }
    let all = components(path);
    let ghost found = part_views(all@);
    let mut i: usize = 0;
    while i < all.len()
        invariant
            i <= all@.len(),
            found == part_views(all@),
            found == parts(path@),
            !absolute(path@),
            forall|j: int| 0 <= j < i ==> found[j] != Part::Parent,
        decreases all@.len() - i,
    {
        assert(found[i as int] == all@[i as int]@);
        match &all[i] {
            PathPart::Parent => {
                return Err(ImportError::UnsafePath(path.to_owned()));
            },
            PathPart::Root => {
                assert(false) by {
                    lemma_no_root(path@, i as int);
                }
            },
            _ => {},
        }
        i += 1;
    }
    Ok(())
}

proof fn lemma_no_root(path: Seq<char>, i: int)
    requires
        !absolute(path),
        0 <= i < parts(path).len(),
    ensures
        parts(path)[i] != Part::Root,
{
}

/// An accepted path leads nowhere but below the directory that it is put into: it
/// begins with the parts of the directory, and no part behind these leads up.
pub proof fn law_accepted_paths_stay_inside(base: Seq<char>, path: Seq<char>)
    requires
        base.len() > 0,
        path_fault(path) is None,
    ensures
        lies_under(join_path(base, path), base),
        forall|i: int|
            parts(base).len() <= i < parts(join_path(base, path)).len() ==> (#[trigger] parts(
                join_path(base, path),
            )[i]) is Name,
{
    crate::path::lemma_join_parts(base, path);
    let whole = parts(join_path(base, path));
    let inner = inner_parts(path);
    assert(parts(base) =~= whole.subrange(0, parts(base).len() as int));
    assert forall|i: int| parts(base).len() <= i < whole.len() implies (#[trigger] whole[i]) is Name by {
        let n = i - parts(base).len();
        assert(whole[i] == inner[n]);
        assert(parts(path)[lead(path).len() + n] == inner[n]);
        let keep = |piece: Seq<char>| crate::path::counts(piece);
        let pieces = crate::text::split_on(path, '/');
        let k = crate::order::lemma_filtered(pieces, keep, n);
        assert(inner[n] == crate::path::part_of(pieces[k]));
    }
}

/// What is wrong with the entry at `i` of an archive.
pub open spec fn listing_fault(entries: Seq<Seq<char>>, i: int) -> Option<ImportFault> {
    if i >= 200_000 {
        Some(ImportFault::TooManyEntries)
    } else {
        path_fault(entries[i])
    }
}

/// What is wrong with the list of the entries of an archive: the first fault.
pub open spec fn archive_fault(entries: Seq<Seq<char>>) -> Option<ImportFault>
    decreases entries.len(),
{
    if entries.len() == 0 {
        Some(ImportFault::EmptyArchive)
    } else if entries.len() > 1 && archive_fault(entries.drop_last()) is Some {
        archive_fault(entries.drop_last())
    } else {
        listing_fault(entries, entries.len() - 1)
    }
}

/// Checks the listing of an archive before it is unpacked.
pub fn validate_archive_listing(listing: &str) -> (r: Result<(), ImportError>)
    ensures
        fails_with(r, archive_fault(lines(listing@))),
{
    let entries = split_lines(listing);
    let ghost all = lines(listing@);
    if entries.len() == 0 {
        assert(views(entries@).len() == 0);
        return Err(ImportError::EmptyArchive);
    }
    let mut i: usize = 0;
    while i < entries.len()
        invariant
            i <= entries@.len(),
            all == views(entries@),
            all == lines(listing@),
            i > 0 ==> archive_fault(all.take(i as int)) is None,
        decreases entries@.len() - i,
    {
        let ghost now = all.take(i + 1);
        assert(now.drop_last() =~= all.take(i as int));
        assert(all[i as int] == entries@[i as int]@);
        assert(archive_fault(now) == listing_fault(now, i as int));
        let found = if i >= 200_000 {
            Err(ImportError::TooManyEntries)
        } else {
            validate_relative_path(&entries[i])
        };
        if found.is_err() {
            proof {
                lemma_fault_stays(all, i + 1);
            }
            return found;
        }
        i += 1;
    }
    assert(all.take(i as int) =~= all);
    Ok(())
}

proof fn lemma_fault_stays(entries: Seq<Seq<char>>, n: int)
    requires
        0 < n <= entries.len(),
        archive_fault(entries.take(n)) is Some,
    ensures
        archive_fault(entries) == archive_fault(entries.take(n)),
    decreases entries.len() - n,
{
    if n < entries.len() {
        assert(entries.take(n + 1).drop_last() =~= entries.take(n));
        lemma_fault_stays(entries, n + 1);
    } else {
        assert(entries.take(n) =~= entries);
    }
}

/// An archive is accepted where it has an entry, at most two hundred thousand,
/// and each of them stays inside.
pub proof fn law_accepted_archives_are_safe(entries: Seq<Seq<char>>)
    ensures
        archive_fault(entries) is None <==> 0 < entries.len() <= 200_000 && forall|i: int|
            0 <= i < entries.len() ==> path_fault(#[trigger] entries[i]) is None,
    decreases entries.len(),
{
    if entries.len() > 0 {
        let front = entries.drop_last();
        let n = entries.len() - 1;
        law_accepted_archives_are_safe(front);
        if archive_fault(entries) is None {
            assert forall|i: int| 0 <= i < entries.len() implies path_fault(#[trigger] entries[i]) is None by {
                if i < n {
                    assert(front[i] == entries[i]);
                }
            }
        } else if entries.len() <= 200_000 {
            if archive_fault(front) is Some && entries.len() > 1 {
                let i = choose|i: int| 0 <= i < front.len() && path_fault(#[trigger] front[i]) is Some;
                assert(entries[i] == front[i]);
            } else {
                assert(path_fault(entries[n]) is Some);
            }
        }
    }
}

/// What an item of an unpacked archive is.
#[derive(Debug, Clone, Copy, PartialEq, Eq, Structural)]
pub enum ItemKind {
    File,
    Directory,
    SymbolicLink,
    Special,
}

/// An item of an unpacked archive.
#[derive(Debug)]
pub struct TreeItem {
    pub relative_path: String,
    pub kind: ItemKind,
    pub size: u64,
}

/// How many files there are among items.
pub open spec fn file_count(items: Seq<TreeItem>) -> nat
    decreases items.len(),
{
    if items.len() == 0 {
        0
    } else if items.last().kind == ItemKind::File {
        file_count(items.drop_last()) + 1
    } else {
        file_count(items.drop_last())
    }
}

/// How many bytes the files among items have.
pub open spec fn byte_count(items: Seq<TreeItem>) -> nat
    decreases items.len(),
{
    if items.len() == 0 {
        0
    } else if items.last().kind == ItemKind::File {
        byte_count(items.drop_last()) + items.last().size as nat
    } else {
        byte_count(items.drop_last())
    }
}

/// What is wrong with the last of some items.
pub open spec fn item_fault(items: Seq<TreeItem>) -> Option<ImportFault> {
    let item = items.last();
    if path_fault(item.relative_path@) is Some {
        path_fault(item.relative_path@)
    } else {
        match item.kind {
            ItemKind::SymbolicLink => Some(ImportFault::SymbolicLink(item.relative_path@)),
            ItemKind::Special => Some(ImportFault::SpecialFile(item.relative_path@)),
            ItemKind::Directory => None,
            ItemKind::File => if file_count(items) > 200_000 {
                Some(ImportFault::TooManyFiles)
            } else if byte_count(items) > 107_374_182_400 {
                Some(ImportFault::TooLarge)
            } else {
                None
            },
        }
    }
}

/// What is wrong with an unpacked archive: the first fault of its items.
pub open spec fn tree_fault(items: Seq<TreeItem>) -> Option<ImportFault>
    decreases items.len(),
{
    if items.len() == 0 {
        None
    } else if tree_fault(items.drop_last()) is Some {
        tree_fault(items.drop_last())
    } else {
        item_fault(items)
    }
}

proof fn lemma_tree_fault_stays(items: Seq<TreeItem>, n: int)
    requires
        0 <= n <= items.len(),
        tree_fault(items.take(n)) is Some,
    ensures
        tree_fault(items) == tree_fault(items.take(n)),
    decreases items.len() - n,
{
    if n < items.len() {
        assert(items.take(n + 1).drop_last() =~= items.take(n));
        lemma_tree_fault_stays(items, n + 1);
    } else {
        assert(items.take(n) =~= items);
    }
}

/// Checks the items of an unpacked archive.
pub fn validate_extracted_tree(items: &[TreeItem]) -> (r: Result<(), ImportError>)
    ensures
        fails_with(r, tree_fault(items@)),
{
    let mut files: u32 = 0;
    let mut bytes: u64 = 0;
    let mut i: usize = 0;
    while i < items.len()
        invariant
            i <= items@.len(),
            tree_fault(items@.take(i as int)) is None,
            files == file_count(items@.take(i as int)),
            bytes == byte_count(items@.take(i as int)),
            files <= 200_000,
            bytes <= 107_374_182_400,
        decreases items@.len() - i,
    {
        let ghost now = items@.take(i + 1);
        assert(now.drop_last() =~= items@.take(i as int));
        assert(tree_fault(now) == item_fault(now));
        let item = &items[i];
        let mut found = validate_relative_path(&item.relative_path);
        if found.is_ok() {
            match item.kind {
                ItemKind::SymbolicLink => {
                    found = Err(ImportError::SymbolicLink(item.relative_path.clone()));
                },
                ItemKind::Special => {
                    found = Err(ImportError::SpecialFile(item.relative_path.clone()));
                },
                ItemKind::Directory => {},
                ItemKind::File => {
                    files += 1;
                    if files > 200_000 {
                        found = Err(ImportError::TooManyFiles);
                    } else if item.size > 107_374_182_400 - bytes {
                        found = Err(ImportError::TooLarge);
                    } else {
                        bytes += item.size;
                    }
                },
            }
        }
        if found.is_err() {
            proof {
                lemma_tree_fault_stays(items@, i + 1);
            }
            return found;
        }
        i += 1;
    }
    assert(items@.take(i as int) =~= items@);
    Ok(())
}

proof fn lemma_counts_grow(items: Seq<TreeItem>, n: int)
    requires
        0 <= n <= items.len(),
    ensures
        file_count(items.take(n)) <= file_count(items),
        byte_count(items.take(n)) <= byte_count(items),
    decreases items.len() - n,
{
    if n < items.len() {
        lemma_counts_grow(items, n + 1);
        assert(items.take(n + 1).drop_last() =~= items.take(n));
    } else {
        assert(items.take(n) =~= items);
    }
}

/// An unpacked archive is accepted where every path stays inside, nothing is a
/// link or a special file, and the limits on files and bytes are kept.
pub proof fn law_accepted_trees_are_safe(items: Seq<TreeItem>)
    ensures
        tree_fault(items) is None <==> {
            &&& file_count(items) <= 200_000
            &&& byte_count(items) <= 107_374_182_400
            &&& forall|i: int|
                0 <= i < items.len() ==> path_fault((#[trigger] items[i]).relative_path@) is None && (
                items[i].kind == ItemKind::File || items[i].kind == ItemKind::Directory)
        },
    decreases items.len(),
{
    if items.len() > 0 {
        let front = items.drop_last();
        let n = items.len() - 1;
        law_accepted_trees_are_safe(front);
        lemma_counts_grow(items, n);
        assert(items.take(n) =~= front);
        if tree_fault(items) is None {
            assert forall|i: int| 0 <= i < items.len() implies path_fault(
                (#[trigger] items[i]).relative_path@,
            ) is None && (items[i].kind == ItemKind::File || items[i].kind == ItemKind::Directory) by {
                if i < n {
                    assert(front[i] == items[i]);
                }
            }
        } else if forall|i: int|
            0 <= i < items.len() ==> path_fault((#[trigger] items[i]).relative_path@) is None && (
            items[i].kind == ItemKind::File || items[i].kind == ItemKind::Directory) {
            assert forall|i: int| 0 <= i < front.len() implies path_fault(
                (#[trigger] front[i]).relative_path@,
            ) is None && (front[i].kind == ItemKind::File || front[i].kind == ItemKind::Directory) by {
                assert(front[i] == items[i]);
            }
            assert(items[n] == items.last());
        }
    }
}

/// Whether a character may stand in the name of a file that the library makes up.
pub open spec fn safe_char(c: char) -> bool {
    ||| 'a' <= c && c <= 'z'
    ||| 'A' <= c && c <= 'Z'
    ||| '0' <= c && c <= '9'
    ||| c == '.'
    ||| c == '-'
    ||| c == '_'
}

/// A text as the name of a file: `_` for every character that may not stand
/// there, and `unknown` for no text.
pub open spec fn safe_name(value: Seq<char>) -> Seq<char> {
    if value.len() == 0 {
        "unknown"@
    } else {
        value.map_values(
            |c: char|
                if safe_char(c) {
                    c
                } else {
                    '_'
                },
        )
    }
}

/// A text as the name of a file.
pub fn safe_component(value: &str) -> (r: String)
    ensures
        r@ == safe_name(value@),
{
    let chars = chars_of(value);
    if chars.len() == 0 {
        return "unknown".to_owned();
    }
    let ghost turn = |c: char|
        if safe_char(c) {
            c
        } else {
            '_'
        };
    let mut r = String::new();
    let mut i: usize = 0;
    assert(r@ =~= chars@.take(0).map_values(turn));
    while i < chars.len()
        invariant
            i <= chars@.len(),
            turn == (|c: char|
                if safe_char(c) {
                    c
                } else {
                    '_'
                }),
            r@ == chars@.take(i as int).map_values(turn),
        decreases chars@.len() - i,
    {
        let c = chars[i];
        let safe = ('a' <= c && c <= 'z') || ('A' <= c && c <= 'Z') || ('0' <= c && c <= '9') || c == '.'
            || c == '-' || c == '_';
        r.push(
            if safe {
                c
            } else {
                '_'
            },
        );
        assert(chars@.take(i + 1).map_values(turn) =~= chars@.take(i as int).map_values(turn).push(
            turn(chars@[i as int]),
        ));
        i += 1;
    }
    assert(chars@.take(i as int) =~= value@);
    r
}

/// The name of a file that the library makes up is not empty, holds safe
/// characters alone, and is its own name.
pub proof fn law_safe_names(value: Seq<char>)
    ensures
        safe_name(value).len() > 0,
        forall|i: int| 0 <= i < safe_name(value).len() ==> safe_char(#[trigger] safe_name(value)[i]),
        safe_name(safe_name(value)) == safe_name(value),
{
    reveal_strlit("unknown");
    assert(safe_name(safe_name(value)) =~= safe_name(value));
}

/// The file `info.json` of a directory.
#[derive(Debug)]
pub enum InfoFile {
    Absent,
    Unreadable,
    Text(String),
}

/// An entry of a directory of an unpacked archive.
#[derive(Debug)]
pub struct RawEntry {
    pub name: String,
    pub is_dir: bool,
    pub is_file: bool,
    /// Whether it is a directory with a file `info.json`.
    pub has_info: bool,
}

/// How an unpacked archive is put into the layer of a mod.
#[derive(Debug)]
pub enum LayerPlan {
    /// The whole of it is the REDmod directory with this path in the layer.
    Redmod(String),
    /// Each of its directories is a REDmod.
    RedmodDirs,
    /// It holds a game tree, maybe inside wrapper directories.
    GameTree,
}

/// Whether a directory holds REDmods and nothing else.
pub open spec fn all_redmods(entries: Seq<RawEntry>) -> bool {
    entries.len() > 0 && forall|i: int|
        0 <= i < entries.len() ==> (#[trigger] entries[i]).is_dir && entries[i].has_info
}

/// Decides how an unpacked archive is put into the layer. `name` is the name that
/// its `info.json` gives, where it has one.
pub fn plan_layer_named(has_info: bool, name: &Option<String>, entries: &[RawEntry]) -> (r: LayerPlan)
    ensures
        match r {
            LayerPlan::Redmod(place) => has_info && place@ == join_path(
                "mods"@,
                safe_name(
                    match option_view(*name) {
                        Some(name) => name,
                        None => "ImportedREDmod"@,
                    },
                ),
            ),
            LayerPlan::RedmodDirs => !has_info && all_redmods(entries@),
            LayerPlan::GameTree => !has_info && !all_redmods(entries@),
        },
{
    if has_info {
        let place = match name {
            Some(name) => safe_component(name),
            None => safe_component("ImportedREDmod"),
        };
        return LayerPlan::Redmod(join("mods", &place));
    }
    let mut i: usize = 0;
    while i < entries.len()
        invariant
            i <= entries@.len(),
            !has_info,
            forall|j: int|
                0 <= j < i ==> (#[trigger] entries@[j]).is_dir && entries@[j].has_info,
        decreases entries@.len() - i,
    {
        if !(entries[i].is_dir && entries[i].has_info) {
            return LayerPlan::GameTree;
        }
        i += 1;
    }
    if entries.len() > 0 {
        LayerPlan::RedmodDirs
    } else {
        LayerPlan::GameTree
    }
}

/// The name that a file `info.json` gives.
pub open spec fn info_name(info: InfoFile) -> Option<Seq<char>> {
    match info {
        InfoFile::Text(text) => json_field_of(text@, "name"@),
        _ => None,
    }
}

/// The name of the REDmod that a file `info.json` describes.
pub fn redmod_name(info: &InfoFile) -> (r: Option<String>)
    ensures
        option_view(r) == info_name(*info),
{
    match info {
        InfoFile::Text(text) => parse_json_field(text, "name"),
        _ => None,
    }
}

/// Decides how an unpacked archive is put into the layer.
pub fn plan_layer(info: &InfoFile, entries: &[RawEntry]) -> (r: LayerPlan)
    ensures
        match r {
            LayerPlan::Redmod(place) => !(info is Absent) && place@ == join_path(
                "mods"@,
                safe_name(
                    match info_name(*info) {
                        Some(name) => name,
                        None => "ImportedREDmod"@,
                    },
                ),
            ),
            LayerPlan::RedmodDirs => info is Absent && all_redmods(entries@),
            LayerPlan::GameTree => info is Absent && !all_redmods(entries@),
        },
{
    let has_info = match info {
        InfoFile::Absent => false,
        _ => true,
    };
    plan_layer_named(has_info, &redmod_name(info), entries)
}

/// Whether a name is that of a directory at the root of the game, in any case.
pub open spec fn game_root(name: Seq<char>) -> bool {
    let small = lower(name);
    ||| small == lower("archive"@)
    ||| small == lower("bin"@)
    ||| small == lower("engine"@)
    ||| small == lower("r6"@)
    ||| small == lower("red4ext"@)
    ||| small == lower("mods"@)
    ||| small == lower("tools"@)
}

fn is_game_root(name: &str) -> (r: bool)
    ensures
        r == game_root(name@),
{
    same_ignoring_case(name, "archive") || same_ignoring_case(name, "bin") || same_ignoring_case(
        name,
        "engine",
    ) || same_ignoring_case(name, "r6") || same_ignoring_case(name, "red4ext")
        || same_ignoring_case(name, "mods") || same_ignoring_case(name, "tools")
}

/// Whether some entry of a directory has the name of a directory at the root of
/// the game.
pub open spec fn holds_game_root(entries: Seq<RawEntry>) -> bool {
    exists|i: int| 0 <= i < entries.len() && game_root((#[trigger] entries[i]).name@)
}

/// Whether the entry at `i` is the one directory among entries without files.
pub open spec fn sole_directory(entries: Seq<RawEntry>, i: int) -> bool {
    &&& 0 <= i < entries.len()
    &&& entries[i].is_dir
    &&& forall|j: int|
        0 <= j < entries.len() ==> !(#[trigger] entries[j]).is_file && (j != i ==> !entries[j].is_dir)
}

/// One step of the search for the root of a game tree.
#[derive(Debug)]
pub enum RootStep {
    /// The directory is the root.
    Found,
    /// The search goes on in the entry at this place.
    Into(usize),
    Failed(ImportError),
}

/// Decides where the root of a game tree is looked for, at a directory that lies
/// `level` wrapper directories deep.
pub fn find_effective_root(level: u8, directory: &str, entries: &[RawEntry]) -> (r: RootStep)
    ensures
        if level >= 6 {
            r is Failed && r->Failed_0@ == ImportFault::TooManyWrappers
        } else if holds_game_root(entries@) {
            r is Found
        } else {
            match r {
                RootStep::Found => false,
                RootStep::Into(i) => sole_directory(entries@, i as int),
                RootStep::Failed(error) => error@ == ImportFault::AmbiguousLayout(directory@)
                    && forall|i: int| !sole_directory(entries@, i),
            }
        },
{
    if level >= 6 {
        return RootStep::Failed(ImportError::TooManyWrappers);
    }
    let mut found: Option<usize> = None;
    let mut several = false;
    let mut files = false;
    let mut i: usize = 0;
    while i < entries.len()
        invariant
            i <= entries@.len(),
            level < 6,
            forall|j: int| 0 <= j < i ==> !game_root((#[trigger] entries@[j]).name@),
            files == exists|j: int| 0 <= j < i && (#[trigger] entries@[j]).is_file,
            match found {
                Some(k) => k < i && entries@[k as int].is_dir && (!several ==> forall|j: int|
                    0 <= j < i && j != k ==> !(#[trigger] entries@[j]).is_dir),
                None => !several && forall|j: int| 0 <= j < i ==> !(#[trigger] entries@[j]).is_dir,
            },
            several ==> exists|a: int, b: int|
                0 <= a < b < i && (#[trigger] entries@[a]).is_dir && (#[trigger] entries@[b]).is_dir,
        decreases entries@.len() - i,
    {
        let entry = &entries[i];
        if is_game_root(&entry.name) {
            assert(holds_game_root(entries@));
            return RootStep::Found;
        }
        if entry.is_file {
            files = true;
        }
        if entry.is_dir {
            match found {
                Some(k) => {
                    assert(entries@[k as int].is_dir && entries@[i as int].is_dir);
                    several = true;
                },
                None => {
                    found = Some(i);
                },
            }
        }
        i += 1;
    }
    match found {
        Some(k) => {
            if !files && !several {
                return RootStep::Into(k);
            }
        },
        None => {},
    }
    assert forall|i: int| !sole_directory(entries@, i) by {
        if sole_directory(entries@, i) {
            assert(entries@[i].is_dir);
        }
    }
    RootStep::Failed(ImportError::AmbiguousLayout(directory.to_owned()))
}

/// A path with `/` for every backslash.
pub open spec fn slashed(path: Seq<char>) -> Seq<char> {
    path.map_values(
        |c: char|
            if c == '\\' {
                '/'
            } else {
                c
            },
    )
}

/// A path with `/` for every backslash.
pub fn slash_form(path: &str) -> (r: String)
    ensures
        r@ == slashed(path@),
{
    let chars = chars_of(path);
    let ghost turn = |c: char|
        if c == '\\' {
            '/'
        } else {
            c
        };
    let mut r = String::new();
    let mut i: usize = 0;
    assert(r@ =~= chars@.take(0).map_values(turn));
    while i < chars.len()
        invariant
            i <= chars@.len(),
            turn == (|c: char|
                if c == '\\' {
                    '/'
                } else {
                    c
                }),
            r@ == chars@.take(i as int).map_values(turn),
        decreases chars@.len() - i,
    {
        r.push(
            if chars[i] == '\\' {
                '/'
            } else {
                chars[i]
            },
        );
        assert(chars@.take(i + 1).map_values(turn) =~= chars@.take(i as int).map_values(turn).push(
            turn(chars@[i as int]),
        ));
        i += 1;
    }
    assert(chars@.take(i as int) =~= path@);
    r
}

/// Sorts the paths of files.
pub fn collect_files(found: Vec<String>) -> (r: Vec<String>)
    ensures
        r@ == sorted::<String, ByPath>(found@),
{
    sort::<String, ByPath>(found)
}

/// Whether a path is one of the places that a framework is known by, or below it.
pub open spec fn at_signature(path: Seq<char>, signature: Seq<char>) -> bool {
    lower(path) == lower(signature) || (lower(signature) + "/"@).is_prefix_of(lower(path))
}

/// Whether some path is one of the places that a framework is known by, or below
/// it.
pub open spec fn some_at(paths: Seq<String>, signature: Seq<char>) -> bool {
    exists|i: int| 0 <= i < paths.len() && at_signature((#[trigger] paths[i])@, signature)
}

/// Whether all the places that a framework is known by are among paths.
pub open spec fn bears(paths: Seq<String>, framework: Framework) -> bool {
    forall|s: int|
        0 <= s < framework.signatures.len() ==> some_at(paths, #[trigger] framework.signatures[s])
}

/// Whether the framework at `i` of the catalog is the first that paths bear.
pub open spec fn detected_at(paths: Seq<String>, i: int) -> bool {
    &&& 0 <= i < catalog().len()
    &&& bears(paths, catalog()[i])
    &&& forall|j: int| 0 <= j < i ==> !bears(paths, #[trigger] catalog()[j])
}

/// The framework that paths bear.
pub open spec fn detected(paths: Seq<String>) -> Option<Framework> {
    if exists|i: int| detected_at(paths, i) {
        Some(catalog()[choose|i: int| detected_at(paths, i)])
    } else {
        None
    }
}

fn any_at_signature(paths: &[String], signature: &str) -> (r: bool)
    ensures
        r == some_at(paths@, signature@),
{
    let small = to_lower(signature);
    let below = to_lower(signature).concat("/");
    let mut i: usize = 0;
    while i < paths.len()
        invariant
            i <= paths@.len(),
            small@ == lower(signature@),
            below@ == lower(signature@) + "/"@,
            forall|j: int| 0 <= j < i ==> !at_signature((#[trigger] paths@[j])@, signature@),
        decreases paths@.len() - i,
    {
        let path = to_lower(&paths[i]);
        if path == small || begins_with(&path, &below) {
            assert(at_signature(paths@[i as int]@, signature@));
            return true;
        }
        i += 1;
    }
    false
}

fn bears_all(paths: &[String], framework: &FrameworkDescriptor) -> (r: bool)
    ensures
        r == bears(paths@, framework@),
{
    let ghost signatures = literal_views(framework.signatures@);
    let mut s: usize = 0;
    while s < framework.signatures.len()
        invariant
            s <= framework.signatures@.len(),
            signatures == literal_views(framework.signatures@),
            forall|t: int| 0 <= t < s ==> some_at(paths@, #[trigger] signatures[t]),
        decreases framework.signatures@.len() - s,
    {
        assert(signatures[s as int] == framework.signatures@[s as int]@);
        if !any_at_signature(paths, framework.signatures[s]) {
            assert(framework@.signatures[s as int] == signatures[s as int]);
            return false;
        }
        s += 1;
    }
    assert(framework@.signatures == signatures);
    true
}

/// The framework that the files of a mod are, told by the places of its files.
pub fn detect_framework(paths: &[String]) -> (r: Option<FrameworkDescriptor>)
    ensures
        match r {
            Some(framework) => detected(paths@) == Some(framework@),
            None => detected(paths@) is None,
        },
{
    let mut all = frameworks();
    let ghost known = framework_views(all@);
    let mut i: usize = 0;
    while i < all.len()
        invariant
            i <= all@.len(),
            known == framework_views(all@),
            known == catalog(),
            forall|j: int| 0 <= j < i ==> !bears(paths@, #[trigger] catalog()[j]),
        decreases all@.len() - i,
    {
        assert(known[i as int] == all@[i as int]@);
        if bears_all(paths, &all[i]) {
            assert(detected_at(paths@, i as int));
            proof {
                let k = choose|k: int| detected_at(paths@, k);
                assert(k == i);
            }
            return Some(all.remove(i));
        }
        i += 1;
    }
    assert forall|k: int| !detected_at(paths@, k) by {
        if detected_at(paths@, k) {
            assert(bears(paths@, catalog()[k]));
        }
    }
    None
}

/// Whether some path begins with a prefix.
pub open spec fn some_under(paths: Seq<String>, prefix: Seq<char>) -> bool {
    exists|i: int| 0 <= i < paths.len() && prefix.is_prefix_of((#[trigger] paths[i])@)
}

/// What a mod with files at some paths is made of.
pub open spec fn kind_of(paths: Seq<String>, framework: bool) -> ModKind {
    let redmod = some_under(paths, "mods/"@);
    let legacy = some_under(paths, "archive/"@) || some_under(paths, "bin/"@) || some_under(
        paths,
        "engine/"@,
    ) || some_under(paths, "r6/"@) || some_under(paths, "red4ext/"@);
    if framework {
        ModKind::Framework
    } else if redmod && legacy {
        ModKind::Mixed
    } else if redmod {
        ModKind::Redmod
    } else {
        ModKind::Legacy
    }
}

fn any_under(paths: &[String], prefix: &str) -> (r: bool)
    ensures
        r == some_under(paths@, prefix@),
{
    let mut i: usize = 0;
    while i < paths.len()
        invariant
            i <= paths@.len(),
            forall|j: int| 0 <= j < i ==> !prefix@.is_prefix_of((#[trigger] paths@[j])@),
        decreases paths@.len() - i,
    {
        if begins_with(&paths[i], prefix) {
            return true;
        }
        i += 1;
    }
    false
}

/// What a mod is made of, told by the places of its files.
pub fn detect_kind(paths: &[String], framework: bool) -> (r: ModKind)
    ensures
        r == kind_of(paths@, framework),
{
    if framework {
        return ModKind::Framework;
    }
    let redmod = any_under(paths, "mods/");
    let legacy = any_under(paths, "archive/") || any_under(paths, "bin/") || any_under(
        paths,
        "engine/",
    ) || any_under(paths, "r6/") || any_under(paths, "red4ext/");
    if redmod && legacy {
        ModKind::Mixed
    } else if redmod {
        ModKind::Redmod
    } else {
        ModKind::Legacy
    }
}

/// Where the archive with a digest is kept.
pub fn archive_place(paths: &AppPaths, digest: &str, extension: &str) -> (r: String)
    ensures
        r@ == join_path(
            join_path(paths.data_dir@, "archives"@),
            digest@ + "."@ + extension@,
        ),
{
    join(&paths.archives_dir(), &digest.to_owned().concat(".").concat(extension))
}

/// The extension under which an archive is kept.
pub fn archive_extension(source: &str) -> (r: String)
    ensures
        r@ == match path_extension(source@) {
            Some(extension) => extension,
            None => "archive"@,
        },
{
    match extension(source) {
        Some(extension) => extension,
        None => "archive".to_owned(),
    }
}

/// What an import puts on record.
#[derive(Debug)]
pub struct ImportPlan {
    pub release: ModRelease,
    pub dependencies: Vec<Dependency>,
}

/// What an import is made of.
pub struct ImportFacts<'a> {
    pub source: &'a str,
    pub relative_paths: &'a Vec<String>,
    pub archive_sha256: &'a str,
    pub now: Timestamp,
    pub mods: &'a Vec<ModRelease>,
}

/// The name of an imported mod: that of the options, that of the framework, that
/// of the source, in this order.
pub open spec fn chosen_name(
    option: Option<Seq<char>>,
    framework: Option<Framework>,
    source: Seq<char>,
) -> Seq<char> {
    match (option, framework, path_stem(source)) {
        (Some(name), _, _) => name,
        (None, Some(framework), _) => framework.name,
        (None, None, Some(stem)) => stem,
        (None, None, None) => "Imported mod"@,
    }
}

/// The id of an imported mod: that of the framework, or else a fresh one.
pub open spec fn chosen_id(framework: Option<Framework>, fresh: Seq<char>) -> Seq<char> {
    match framework {
        Some(framework) => framework.id,
        None => fresh,
    }
}

/// A list of dependencies, as triples.
pub open spec fn dependency_views(list: Seq<Dependency>) -> Seq<(Seq<char>, Seq<char>, bool)> {
    list.map_values(|d: Dependency| (d.mod_id@, d.requires_id@, d.inferred))
}

/// The dependencies of an imported mod: what its framework is known to require,
/// and what its files are seen to need beside itself.
pub open spec fn imported_dependencies(
    id: Seq<char>,
    framework: Option<Framework>,
    paths: Seq<String>,
) -> Seq<(Seq<char>, Seq<char>, bool)> {
    (match framework {
        Some(framework) => framework.requires.map_values(|r: Seq<char>| (id, r, false)),
        None => Seq::empty(),
    }) + inferred(paths).filter(|r: Seq<char>| r != id).map_values(|r: Seq<char>| (id, r, true))
}

/// Whether a mod with an id is in the library.
pub open spec fn has_id(mods: Seq<ModRelease>, id: Seq<char>) -> bool {
    exists|i: int| 0 <= i < mods.len() && (#[trigger] mods[i]).id@ == id
}

/// Whether a plan is what an import with a fresh id makes.
pub open spec fn is_import_of(
    plan: ImportPlan,
    paths: AppPaths,
    facts: ImportFacts<'_>,
    option_name: Option<Seq<char>>,
    version: Seq<char>,
    fresh: Seq<char>,
) -> bool {
    let framework = detected(facts.relative_paths@);
    let id = chosen_id(framework, fresh);
    &&& plan.release.id@ == id
    &&& plan.release.name@ == chosen_name(option_name, framework, facts.source@)
    &&& plan.release.version@ == version
    &&& plan.release.kind == kind_of(facts.relative_paths@, framework is Some)
    &&& plan.release.archive_sha256@ == facts.archive_sha256@
    &&& plan.release.layer_path@ == join_path(
        join_path(join_path(paths.data_dir@, "releases"@), id),
        safe_name(version),
    )
    &&& plan.release.source@ == facts.source@
    &&& plan.release.installed_at == facts.now
    &&& dependency_views(plan.dependencies@) == imported_dependencies(
        id,
        framework,
        facts.relative_paths@,
    )
}

fn find_id(mods: &Vec<ModRelease>, id: &String) -> (r: bool)
    ensures
        r == has_id(mods@, id@),
{
    let mut i: usize = 0;
    while i < mods.len()
        invariant
            i <= mods@.len(),
            forall|j: int| 0 <= j < i ==> (#[trigger] mods@[j]).id@ != id@,
        decreases mods@.len() - i,
    {
        if mods[i].id == *id {
            return true;
        }
        i += 1;
    }
    false
}

fn known_dependencies(id: &String, framework: &FrameworkDescriptor) -> (r: Vec<Dependency>)
    ensures
        dependency_views(r@) == framework@.requires.map_values(|r: Seq<char>| (id@, r, false)),
{
    let ghost needs = framework@.requires;
    let mut r: Vec<Dependency> = Vec::new();
    let mut i: usize = 0;
    while i < framework.requires.len()
        invariant
            i <= framework.requires@.len(),
            needs == literal_views(framework.requires@),
            r@.len() == i,
            forall|j: int|
                0 <= j < i ==> (#[trigger] r@[j]).mod_id@ == id@ && r@[j].requires_id@ == needs[j]
                    && !r@[j].inferred,
        decreases framework.requires@.len() - i,
    {
        assert(needs[i as int] == framework.requires@[i as int]@);
        r.push(
            Dependency {
                mod_id: id.clone(),
                requires_id: framework.requires[i].to_owned(),
                inferred: false,
            },
        );
        i += 1;
    }
    assert(dependency_views(r@) =~= framework@.requires.map_values(
        |r: Seq<char>| (id@, r, false),
    ));
    r
}

fn add_inferred(list: &mut Vec<Dependency>, id: &String, found: &Vec<String>)
    ensures
        dependency_views(final(list)@) == dependency_views(old(list)@) + views(found@).filter(
            |r: Seq<char>| r != id@,
        ).map_values(|r: Seq<char>| (id@, r, true)),
{
    let ghost had = dependency_views(list@);
    let ghost all = views(found@);
    let ghost keep = |r: Seq<char>| r != id@;
    let ghost turn = |r: Seq<char>| (id@, r, true);
    let mut i: usize = 0;
    assert(all.take(0).filter(keep) =~= Seq::<Seq<char>>::empty()) by {
        reveal(Seq::filter);
    }
    assert(had + all.take(0).filter(keep).map_values(turn) =~= had);
    while i < found.len()
        invariant
            i <= found@.len(),
            all == views(found@),
            keep == (|r: Seq<char>| r != id@),
            turn == (|r: Seq<char>| (id@, r, true)),
            dependency_views(list@) == had + all.take(i as int).filter(keep).map_values(turn),
        decreases found@.len() - i,
    {
        let ghost so_far = dependency_views(list@);
        let ghost before = all.take(i as int).filter(keep);
        let ghost now = all.take(i + 1);
        assert(now.drop_last() =~= all.take(i as int));
        assert(all[i as int] == found@[i as int]@);
        assert(now.filter(keep) == if keep(all[i as int]) {
            before.push(all[i as int])
        } else {
            before
        }) by {
            reveal(Seq::filter);
        }
        if found[i] != *id {
            list.push(
                Dependency { mod_id: id.clone(), requires_id: found[i].clone(), inferred: true },
            );
            assert(dependency_views(list@) =~= so_far.push(turn(all[i as int])));
            assert(now.filter(keep).map_values(turn) =~= before.map_values(turn).push(
                turn(all[i as int]),
            ));
            assert(dependency_views(list@) =~= had + now.filter(keep).map_values(turn));
        }
        i += 1;
    }
    assert(all.take(i as int) =~= all);
}

/// Decides what an import puts on record. `fresh` is the id of a mod that is no
/// framework.
pub fn plan_import(
    paths: &AppPaths,
    facts: &ImportFacts<'_>,
    options: ImportOptions,
    fresh: String,
) -> (r: Result<ImportPlan, ImportError>)
    ensures
        match r {
            Ok(plan) => {
                &&& facts.relative_paths@.len() > 0
                &&& !has_id(facts.mods@, chosen_id(detected(facts.relative_paths@), fresh@))
                &&& is_import_of(
                    plan,
                    *paths,
                    *facts,
                    option_view(options.name),
                    options.version@,
                    fresh@,
                )
            },
            Err(error) => if facts.relative_paths@.len() == 0 {
                error@ == ImportFault::NoFiles
            } else {
                &&& has_id(facts.mods@, chosen_id(detected(facts.relative_paths@), fresh@))
                &&& error@ == ImportFault::AlreadyInstalled(
                    chosen_id(detected(facts.relative_paths@), fresh@),
                )
            },
        },
{
    if facts.relative_paths.len() == 0 {
        return Err(ImportError::NoFiles);
    }
    let framework = detect_framework(facts.relative_paths);
    let id = match &framework {
        Some(framework) => framework.id.to_owned(),
        None => fresh,
    };
    if find_id(facts.mods, &id) {
        return Err(ImportError::AlreadyInstalled(id));
    }
    let name = match options.name {
        Some(name) => name,
        None => match &framework {
            Some(framework) => framework.name.to_owned(),
            None => match file_stem(facts.source) {
                Some(stem) => stem,
                None => "Imported mod".to_owned(),
            },
        },
    };
    let layer_path = join(&join(&paths.releases_dir(), &id), &safe_component(&options.version));
    let kind = detect_kind(facts.relative_paths, framework.is_some());
    let mut dependencies: Vec<Dependency> = match &framework {
        Some(framework) => known_dependencies(&id, framework),
        None => Vec::new(),
    };
    assert(framework is None ==> dependency_views(dependencies@) =~= Seq::empty());
    add_inferred(&mut dependencies, &id, &infer_requirements(facts.relative_paths));
    Ok(
        ImportPlan {
            release: ModRelease {
                id,
                name,
                version: options.version,
                kind,
                archive_sha256: facts.archive_sha256.to_owned(),
                layer_path,
                source: facts.source.to_owned(),
                installed_at: facts.now,
            },
            dependencies,
        },
    )
}

/// Decides what an import puts on record, with a fresh id for a mod that is no
/// framework.
pub fn import(paths: &AppPaths, facts: &ImportFacts<'_>, options: ImportOptions) -> (r: Result<
    ImportPlan,
    ImportError,
>)
    ensures
        facts.relative_paths@.len() == 0 ==> r is Err && r->Err_0@ == ImportFault::NoFiles,
        facts.relative_paths@.len() > 0 ==> exists|fresh: Seq<char>|
            #[trigger]
            uuid_form(fresh) && match r {
                Ok(plan) => !has_id(
                    facts.mods@,
                    chosen_id(detected(facts.relative_paths@), fresh),
                ) && is_import_of(
                    plan,
                    *paths,
                    *facts,
                    option_view(options.name),
                    options.version@,
                    fresh,
                ),
                Err(error) => has_id(
                    facts.mods@,
                    chosen_id(detected(facts.relative_paths@), fresh),
                ) && error@ == ImportFault::AlreadyInstalled(
                    chosen_id(detected(facts.relative_paths@), fresh),
                ),
            },
{
    let fresh = fresh_id();
    let ghost made = fresh@;
    let r = plan_import(paths, facts, options, fresh);
    assert(uuid_form(made));
    r
}

/// Whether a text is a name of its own in a path.
pub open spec fn is_plain_name(text: Seq<char>) -> bool {
    &&& text.len() > 0
    &&& text != seq!['.'] && text != seq!['.', '.']
    &&& forall|i: int| 0 <= i < text.len() ==> text[i] != '/'
}

spec fn first_are_plain(text: Seq<char>, n: nat) -> bool
    decreases n,
{
    n == 0 || (text[n - 1] != '/' && first_are_plain(text, (n - 1) as nat))
}

proof fn lemma_first_are_plain(text: Seq<char>, n: nat)
    requires
        first_are_plain(text, n),
    ensures
        forall|i: int| 0 <= i < n ==> text[i] != '/',
    decreases n,
{
    if n > 0 {
        lemma_first_are_plain(text, (n - 1) as nat);
    }
}

proof fn lemma_plain_name(text: Seq<char>)
    requires
        text.len() > 2,
        first_are_plain(text, text.len()),
    ensures
        is_plain_name(text),
{
    lemma_first_are_plain(text, text.len());
}

proof fn lemma_known_ids(i: int)
    requires
        0 <= i < catalog().len(),
    ensures
        is_plain_name(catalog()[i].id),
{
    reveal_with_fuel(first_are_plain, 20);
    if i == 0 {
        reveal_strlit("cyber-engine-tweaks");
        assert(catalog()[0].id == "cyber-engine-tweaks"@);
        lemma_plain_name("cyber-engine-tweaks"@);
    } else if i == 1 {
        reveal_strlit("redscript");
        assert(catalog()[1].id == "redscript"@);
        lemma_plain_name("redscript"@);
    } else if i == 2 {
        reveal_strlit("red4ext");
        assert(catalog()[2].id == "red4ext"@);
        lemma_plain_name("red4ext"@);
    } else if i == 3 {
        reveal_strlit("archivexl");
        assert(catalog()[3].id == "archivexl"@);
        lemma_plain_name("archivexl"@);
    } else if i == 4 {
        reveal_strlit("tweakxl");
        assert(catalog()[4].id == "tweakxl"@);
        lemma_plain_name("tweakxl"@);
    } else {
        reveal_strlit("codeware");
        assert(catalog()[5].id == "codeware"@);
        lemma_plain_name("codeware"@);
    }
}

/// What is imported goes into the storage of the library: into a directory for its id
/// and below it one for its version. A version of one or two dots and nothing else
/// names no directory.
pub proof fn law_imports_go_into_managed_storage(
    plan: ImportPlan,
    paths: AppPaths,
    facts: ImportFacts<'_>,
    option_name: Option<Seq<char>>,
    version: Seq<char>,
    fresh: Seq<char>,
)
    requires
        is_import_of(plan, paths, facts, option_name, version, fresh),
        uuid_form(fresh),
        version != seq!['.'] && version != seq!['.', '.'],
    ensures
        ({
            let releases = join_path(paths.data_dir@, "releases"@);
            &&& parts(plan.release.layer_path@) == parts(releases).push(
                Part::Name(plan.release.id@),
            ).push(Part::Name(safe_name(version)))
            &&& lies_under(plan.release.layer_path@, releases)
        }),
{
    reveal_strlit("releases");
    reveal_strlit("unknown");
    let framework = detected(facts.relative_paths@);
    let id = chosen_id(framework, fresh);
    let releases = join_path(paths.data_dir@, "releases"@);
    let name = safe_name(version);
    if framework is Some {
        lemma_known_ids(choose|i: int| detected_at(facts.relative_paths@, i));
    } else {
        assert(is_plain_name(fresh)) by {
            assert(fresh.len() == 36);
            assert forall|i: int| 0 <= i < fresh.len() implies fresh[i] != '/' by {}
        }
    }
    law_safe_names(version);
    assert(is_plain_name(name)) by {
        assert forall|i: int| 0 <= i < name.len() implies name[i] != '/' by {
            assert(safe_char(name[i]));
        }
        if name == seq!['.'] || name == seq!['.', '.'] {
            assert(version.len() == name.len());
            assert forall|i: int| 0 <= i < version.len() implies version[i] == '.' by {
                assert(name[i] == '.');
            }
            assert(version =~= name);
        }
    }
    assert(releases.len() > 0);
    lemma_joined_name(releases, id);
    lemma_joined_name(join_path(releases, id), name);
    assert(parts(releases) =~= parts(plan.release.layer_path@).subrange(
        0,
        parts(releases).len() as int,
    ));
}

/// Refuses an import whose source is not there.
pub fn check_source(source: &str, present: bool) -> (r: Result<(), ImportError>)
    ensures
        fails_with(
            r,
            if present {
                None
            } else {
                Some(ImportFault::SourceMissing(source@))
            },
        ),
{
    if present {
        Ok(())
    } else {
        Err(ImportError::SourceMissing(source.to_owned()))
    }
}

/// Refuses an import whose place is taken.
pub fn check_destination(plan: &ImportPlan, taken: bool) -> (r: Result<(), ImportError>)
    ensures
        fails_with(
            r,
            if taken {
                Some(ImportFault::DestinationExists(plan.release.layer_path@))
            } else {
                None
            },
        ),
{
    if taken {
        Err(ImportError::DestinationExists(plan.release.layer_path.clone()))
    } else {
        Ok(())
    }
}

/// Whether some path is a place or lies below it, in any case of letters.
pub open spec fn reaches(paths: Seq<String>, place: Seq<char>) -> bool {
    exists|i: int, rest: Seq<char>|
        0 <= i < paths.len() && (lower((#[trigger] paths[i])@) == lower(place) || lower(paths[i]@)
            == #[trigger] (lower(place) + "/"@ + rest))
}

proof fn lemma_reaches(paths: Seq<String>, place: Seq<char>)
    ensures
        reaches(paths, place) <==> some_at(paths, place),
{
    let below = lower(place) + "/"@;
    if reaches(paths, place) {
        let (i, rest) = choose|i: int, rest: Seq<char>|
            0 <= i < paths.len() && (lower((#[trigger] paths[i])@) == lower(place) || lower(
                paths[i]@,
            ) == #[trigger] (lower(place) + "/"@ + rest));
        if lower(paths[i]@) == below + rest {
            assert(below =~= (below + rest).subrange(0, below.len() as int));
        }
        assert(at_signature(paths[i]@, place));
    }
    if some_at(paths, place) {
        let i = choose|i: int| 0 <= i < paths.len() && at_signature((#[trigger] paths[i])@, place);
        let small = lower(paths[i]@);
        if small != lower(place) {
            let rest = small.skip(below.len() as int);
            assert(small =~= below + rest);
            assert(small == lower(place) + "/"@ + rest);
        } else {
            assert(lower(place) + "/"@ + seq!['x'] == lower(place) + "/"@ + seq!['x']);
        }
        assert(reaches(paths, place));
    }
}

proof fn lemma_first_borne(paths: Seq<String>, i: int) -> (j: int)
    requires
        0 <= i < catalog().len(),
        bears(paths, catalog()[i]),
    ensures
        0 <= j <= i,
        detected_at(paths, j),
        detected(paths) == Some(catalog()[j]),
    decreases i,
{
    if forall|k: int| 0 <= k < i ==> !bears(paths, #[trigger] catalog()[k]) {
        assert(detected_at(paths, i));
        let c = choose|c: int| detected_at(paths, c);
        assert(detected_at(paths, c));
        assert(c == i) by {
            if c < i {
                assert(!bears(paths, catalog()[c]));
            }
            if i < c {
                assert(!bears(paths, catalog()[i]));
            }
        }
        i
    } else {
        let k = choose|k: int| 0 <= k < i && bears(paths, #[trigger] catalog()[k]);
        lemma_first_borne(paths, k)
    }
}

/// A framework is recognised by its files: paths that for each of its places have that
/// place or a file below it, bear it, whatever else there is. What is recognised then is
/// the framework, or one that the catalog has before it.
pub proof fn law_frameworks_are_recognised(
    paths: Seq<String>,
    i: int,
    at: Seq<int>,
    names: Seq<Seq<char>>,
)
    requires
        0 <= i < catalog().len(),
        at.len() == catalog()[i].signatures.len(),
        names.len() == at.len(),
        forall|s: int|
            0 <= s < at.len() ==> {
                let place = #[trigger] catalog()[i].signatures[s];
                &&& 0 <= at[s] < paths.len()
                &&& paths[at[s]]@ == place || paths[at[s]]@ == place + "/"@ + names[s]
            },
    ensures
        exists|j: int| 0 <= j <= i && detected(paths) == Some(#[trigger] catalog()[j]),
{
    assert forall|s: int| 0 <= s < catalog()[i].signatures.len() implies some_at(
        paths,
        #[trigger] catalog()[i].signatures[s],
    ) by {
        let place = catalog()[i].signatures[s];
        let path = paths[at[s]]@;
        if path != place {
            reveal_strlit("/");
            law_lower_is_by_characters(place + "/"@, names[s]);
            law_lower_is_by_characters(place, "/"@);
            law_lower_is_by_characters("/"@, place);
            assert(lower(path) == lower(place) + "/"@ + lower(names[s]));
        } else {
            assert(lower(place) + "/"@ + seq!['x'] == lower(place) + "/"@ + seq!['x']);
        }
        assert(reaches(paths, place));
        lemma_reaches(paths, place);
    }
    let j = lemma_first_borne(paths, i);
    assert(detected(paths) == Some(catalog()[j]));
}

/// Each framework is known by its own files, in this order: Cyber Engine Tweaks by its
/// library and its directory, redscript by its compiler and its configuration, RED4ext by
/// its library and its loader, ArchiveXL, TweakXL and Codeware by their directories below
/// the plugins of RED4ext. Paths without any of these are no framework.
pub proof fn law_frameworks_are_known_by_their_files(paths: Seq<String>)
    ensures
        ({
            let tweaks = reaches(paths, "bin/x64/version.dll"@) && reaches(
                paths,
                "bin/x64/plugins/cyber_engine_tweaks"@,
            );
            let script = reaches(paths, "engine/tools/scc.exe"@) && reaches(
                paths,
                "engine/config/base/scripts.ini"@,
            );
            let loader = reaches(paths, "red4ext/RED4ext.dll"@) && reaches(
                paths,
                "bin/x64/winmm.dll"@,
            );
            let archives = reaches(paths, "red4ext/plugins/ArchiveXL"@);
            let records = reaches(paths, "red4ext/plugins/TweakXL"@);
            let code = reaches(paths, "red4ext/plugins/Codeware"@);
            let found = detected(paths);
            &&& found is Some <==> tweaks || script || loader || archives || records || code
            &&& found is Some ==> found->0.id == if tweaks {
                "cyber-engine-tweaks"@
            } else if script {
                "redscript"@
            } else if loader {
                "red4ext"@
            } else if archives {
                "archivexl"@
            } else if records {
                "tweakxl"@
            } else {
                "codeware"@
            }
            &&& found is Some ==> found->0.name == if tweaks {
                "Cyber Engine Tweaks"@
            } else if script {
                "redscript"@
            } else if loader {
                "RED4ext"@
            } else if archives {
                "ArchiveXL"@
            } else if records {
                "TweakXL"@
            } else {
                "Codeware"@
            }
            &&& found is Some ==> found->0.requires == if tweaks || script || loader {
                Seq::<Seq<char>>::empty()
            } else {
                seq!["red4ext"@]
            }
        }),
{
    lemma_reaches(paths, "bin/x64/version.dll"@);
    lemma_reaches(paths, "bin/x64/plugins/cyber_engine_tweaks"@);
    lemma_reaches(paths, "engine/tools/scc.exe"@);
    lemma_reaches(paths, "engine/config/base/scripts.ini"@);
    lemma_reaches(paths, "red4ext/RED4ext.dll"@);
    lemma_reaches(paths, "bin/x64/winmm.dll"@);
    lemma_reaches(paths, "red4ext/plugins/ArchiveXL"@);
    lemma_reaches(paths, "red4ext/plugins/TweakXL"@);
    lemma_reaches(paths, "red4ext/plugins/Codeware"@);
    let all = catalog();
    let tweaks = some_at(paths, "bin/x64/version.dll"@) && some_at(
        paths,
        "bin/x64/plugins/cyber_engine_tweaks"@,
    );
    let script = some_at(paths, "engine/tools/scc.exe"@) && some_at(
        paths,
        "engine/config/base/scripts.ini"@,
    );
    let loader = some_at(paths, "red4ext/RED4ext.dll"@) && some_at(paths, "bin/x64/winmm.dll"@);
    assert(bears(paths, all[0]) == tweaks) by {
        assert(all[0].signatures[0] == "bin/x64/version.dll"@);
        assert(all[0].signatures[1] == "bin/x64/plugins/cyber_engine_tweaks"@);
    }
    assert(bears(paths, all[1]) == script) by {
        assert(all[1].signatures[0] == "engine/tools/scc.exe"@);
        assert(all[1].signatures[1] == "engine/config/base/scripts.ini"@);
    }
    assert(bears(paths, all[2]) == loader) by {
        assert(all[2].signatures[0] == "red4ext/RED4ext.dll"@);
        assert(all[2].signatures[1] == "bin/x64/winmm.dll"@);
    }
    assert(bears(paths, all[3]) == some_at(paths, "red4ext/plugins/ArchiveXL"@)) by {
        assert(all[3].signatures[0] == "red4ext/plugins/ArchiveXL"@);
    }
    assert(bears(paths, all[4]) == some_at(paths, "red4ext/plugins/TweakXL"@)) by {
        assert(all[4].signatures[0] == "red4ext/plugins/TweakXL"@);
    }
    assert(bears(paths, all[5]) == some_at(paths, "red4ext/plugins/Codeware"@)) by {
        assert(all[5].signatures[0] == "red4ext/plugins/Codeware"@);
    }
    let first = if tweaks {
        0int
    } else if script {
        1
    } else if loader {
        2
    } else if some_at(paths, "red4ext/plugins/ArchiveXL"@) {
        3
    } else if some_at(paths, "red4ext/plugins/TweakXL"@) {
        4
    } else if some_at(paths, "red4ext/plugins/Codeware"@) {
        5
    } else {
        6
    };
    if first < 6 {
        let j = lemma_first_borne(paths, first);
        assert(bears(paths, all[j]));
        assert(j == first);
    } else {
        assert forall|i: int| !detected_at(paths, i) by {
            if detected_at(paths, i) {
                assert(i == 0 || i == 1 || i == 2 || i == 3 || i == 4 || i == 5);
            }
        }
    }
}

/// A mod below the plugins of RED4ext in the directory of a framework is that framework,
/// where nothing shows one that the catalog has before it.
pub proof fn law_plugin_directories_are_frameworks(path: String, name: Seq<char>)
    ensures
        path@ == "red4ext/plugins/ArchiveXL/"@ + name ==> detected(seq![path]) is Some && detected(
            seq![path],
        )->0.id == "archivexl"@,
        path@ == "red4ext/plugins/TweakXL/"@ + name ==> detected(seq![path]) is Some && detected(
            seq![path],
        )->0.id == "tweakxl"@,
        path@ == "red4ext/plugins/Codeware/"@ + name ==> detected(seq![path]) is Some && detected(
            seq![path],
        )->0.id == "codeware"@,
{
    reveal_strlit("/");
    reveal_strlit("red4ext/plugins/ArchiveXL/");
    reveal_strlit("red4ext/plugins/TweakXL/");
    reveal_strlit("red4ext/plugins/Codeware/");
    reveal_strlit("red4ext/plugins/ArchiveXL");
    reveal_strlit("red4ext/plugins/TweakXL");
    reveal_strlit("red4ext/plugins/Codeware");
    reveal_strlit("bin/x64/version.dll");
    reveal_strlit("engine/tools/scc.exe");
    reveal_strlit("bin/x64/winmm.dll");
    let paths = seq![path];
    law_frameworks_are_known_by_their_files(paths);
    lemma_reaches(paths, "bin/x64/version.dll"@);
    lemma_reaches(paths, "engine/tools/scc.exe"@);
    lemma_reaches(paths, "bin/x64/winmm.dll"@);
    lemma_reaches(paths, "red4ext/plugins/ArchiveXL"@);
    lemma_reaches(paths, "red4ext/plugins/TweakXL"@);
    lemma_reaches(paths, "red4ext/plugins/Codeware"@);
    let a = "red4ext/plugins/ArchiveXL"@;
    let t = "red4ext/plugins/TweakXL"@;
    let c = "red4ext/plugins/Codeware"@;
    assert("red4ext/plugins/ArchiveXL/"@ =~= a + "/"@);
    assert("red4ext/plugins/TweakXL/"@ =~= t + "/"@);
    assert("red4ext/plugins/Codeware/"@ =~= c + "/"@);
    law_lower_is_by_characters(a + "/"@, name);
    law_lower_is_by_characters(t + "/"@, name);
    law_lower_is_by_characters(c + "/"@, name);
    law_lower_is_by_characters(a, "/"@);
    law_lower_is_by_characters(t, "/"@);
    law_lower_is_by_characters(c, "/"@);
    law_lower_is_by_characters("/"@, a);
    let small = lower(path@);
    if path@ == "red4ext/plugins/ArchiveXL/"@ + name || path@ == "red4ext/plugins/TweakXL/"@ + name
        || path@ == "red4ext/plugins/Codeware/"@ + name {
        assert(path@[0] == 'r' && small[0] == 'r');
        assert(lower("bin/x64/version.dll"@)[0] == 'b');
        assert(lower("engine/tools/scc.exe"@)[0] == 'e');
        assert(lower("bin/x64/winmm.dll"@)[0] == 'b');
        assert(!some_at(paths, "bin/x64/version.dll"@)) by {
            assert forall|i: int| 0 <= i < paths.len() implies !at_signature(
                (#[trigger] paths[i])@,
                "bin/x64/version.dll"@,
            ) by {
                let below = lower("bin/x64/version.dll"@) + "/"@;
                assert(below[0] == 'b');
            }
        }
        assert(!some_at(paths, "bin/x64/winmm.dll"@)) by {
            assert forall|i: int| 0 <= i < paths.len() implies !at_signature(
                (#[trigger] paths[i])@,
                "bin/x64/winmm.dll"@,
            ) by {
                let below = lower("bin/x64/winmm.dll"@) + "/"@;
                assert(below[0] == 'b');
            }
        }
        assert(!some_at(paths, "engine/tools/scc.exe"@)) by {
            assert forall|i: int| 0 <= i < paths.len() implies !at_signature(
                (#[trigger] paths[i])@,
                "engine/tools/scc.exe"@,
            ) by {
                let below = lower("engine/tools/scc.exe"@) + "/"@;
                assert(below[0] == 'e');
            }
        }
    }
    if path@ == "red4ext/plugins/ArchiveXL/"@ + name {
        assert(lower(paths[0]@) == lower(a) + "/"@ + lower(name));
        assert(reaches(paths, a));
    }
    if path@ == "red4ext/plugins/TweakXL/"@ + name {
        assert(lower(paths[0]@) == lower(t) + "/"@ + lower(name));
        assert(reaches(paths, t));
        assert(small[16] == 't');
        assert(lower(a)[16] == 'a');
        assert(!some_at(paths, a)) by {
            assert forall|i: int| 0 <= i < paths.len() implies !at_signature(
                (#[trigger] paths[i])@,
                a,
            ) by {
                assert((lower(a) + "/"@)[16] == 'a');
            }
        }
    }
    if path@ == "red4ext/plugins/Codeware/"@ + name {
        assert(lower(paths[0]@) == lower(c) + "/"@ + lower(name));
        assert(reaches(paths, c));
        assert(small[16] == 'c');
        assert(lower(a)[16] == 'a' && lower(t)[16] == 't');
        assert(!some_at(paths, a)) by {
            assert forall|i: int| 0 <= i < paths.len() implies !at_signature(
                (#[trigger] paths[i])@,
                a,
            ) by {
                assert((lower(a) + "/"@)[16] == 'a');
            }
        }
        assert(!some_at(paths, t)) by {
            assert forall|i: int| 0 <= i < paths.len() implies !at_signature(
                (#[trigger] paths[i])@,
                t,
            ) by {
                assert((lower(t) + "/"@)[16] == 't');
            }
        }
    }
}

/// A mod is a framework where it was recognised as one. Otherwise it is a REDmod where it
/// has files below `mods/` and none elsewhere in the tree of the game, mixed where it has
/// both, and a mod of the old kind where it has none below `mods/`.
pub proof fn law_kinds_follow_the_files(paths: Seq<String>, framework: bool)
    ensures
        ({
            let redmod = exists|i: int|
                0 <= i < paths.len() && "mods/"@.is_prefix_of((#[trigger] paths[i])@);
            let legacy = exists|i: int|
                0 <= i < paths.len() && ("archive/"@.is_prefix_of((#[trigger] paths[i])@)
                    || "bin/"@.is_prefix_of(paths[i]@) || "engine/"@.is_prefix_of(paths[i]@)
                    || "r6/"@.is_prefix_of(paths[i]@) || "red4ext/"@.is_prefix_of(paths[i]@));
            let kind = kind_of(paths, framework);
            &&& kind == ModKind::Framework <==> framework
            &&& kind == ModKind::Redmod <==> !framework && redmod && !legacy
            &&& kind == ModKind::Mixed <==> !framework && redmod && legacy
            &&& kind == ModKind::Legacy <==> !framework && !redmod
        }),
{
    let legacy = exists|i: int|
        0 <= i < paths.len() && ("archive/"@.is_prefix_of((#[trigger] paths[i])@)
            || "bin/"@.is_prefix_of(paths[i]@) || "engine/"@.is_prefix_of(paths[i]@)
            || "r6/"@.is_prefix_of(paths[i]@) || "red4ext/"@.is_prefix_of(paths[i]@));
    if legacy {
        let i = choose|i: int|
            0 <= i < paths.len() && ("archive/"@.is_prefix_of((#[trigger] paths[i])@)
                || "bin/"@.is_prefix_of(paths[i]@) || "engine/"@.is_prefix_of(paths[i]@)
                || "r6/"@.is_prefix_of(paths[i]@) || "red4ext/"@.is_prefix_of(paths[i]@));
        assert("archive/"@.is_prefix_of(paths[i]@) ==> some_under(paths, "archive/"@));
        assert("bin/"@.is_prefix_of(paths[i]@) ==> some_under(paths, "bin/"@));
        assert("engine/"@.is_prefix_of(paths[i]@) ==> some_under(paths, "engine/"@));
        assert("r6/"@.is_prefix_of(paths[i]@) ==> some_under(paths, "r6/"@));
        assert("red4ext/"@.is_prefix_of(paths[i]@) ==> some_under(paths, "red4ext/"@));
    }
}

proof fn lemma_recorded(
    id: Seq<char>,
    found: Option<Framework>,
    files: Seq<String>,
    needed: Seq<char>,
)
    ensures
        ({
            let recorded = imported_dependencies(id, found, files);
            &&& inferred(files).contains(needed) && needed != id ==> recorded.contains(
                (id, needed, true),
            )
            &&& found is Some && found->0.requires.contains(needed) ==> recorded.contains(
                (id, needed, false),
            )
            &&& forall|i: int|
                0 <= i < recorded.len() ==> {
                    let (of, requires_id, is_inferred) = #[trigger] recorded[i];
                    &&& of == id
                    &&& is_inferred ==> inferred(files).contains(requires_id) && requires_id != of
                    &&& !is_inferred ==> found is Some && found->0.requires.contains(requires_id)
                }
        }),
{
    broadcast use crate::order::lemma_same_filter;

    let all = inferred(files);
    let keep = |r: Seq<char>| r != id;
    let known = if found is Some {
        found->0.requires.len() as int
    } else {
        0
    };
    let rest = all.filter(keep);
    let recorded = imported_dependencies(id, found, files);
    assert(recorded.len() == known + rest.len());
    assert forall|n: int| 0 <= n < rest.len() implies recorded[known + n] == (
        id,
        #[trigger] rest[n],
        true,
    ) by {}
    if all.contains(needed) && needed != id {
        let k = choose|k: int| 0 <= k < all.len() && all[k] == needed;
        all.lemma_filter_contains(keep, k);
        let n = choose|n: int| 0 <= n < rest.len() && rest[n] == needed;
        assert(recorded[known + n] == (id, needed, true));
    }
    if found is Some && found->0.requires.contains(needed) {
        let k = choose|k: int|
            0 <= k < found->0.requires.len() && found->0.requires[k] == needed;
        assert(recorded[k] == (id, needed, false));
    }
    assert forall|i: int| 0 <= i < recorded.len() implies {
        let (of, requires_id, is_inferred) = #[trigger] recorded[i];
        &&& of == id
        &&& is_inferred ==> all.contains(requires_id) && requires_id != of
        &&& !is_inferred ==> found is Some && found->0.requires.contains(requires_id)
    } by {
        if i >= known {
            let n = i - known;
            let k = crate::order::lemma_filtered(all, keep, n);
            assert(recorded[known + n] == (id, rest[n], true));
        } else {
            assert(recorded[i] == (id, found->0.requires[i], false));
        }
    }
}

/// What an import puts on record: the id of the framework that the files are, or the fresh
/// one; the name that was asked for, or that of the framework, or that of the source; and
/// as they came the version, the digest of the archive, the source and the moment. What
/// its files require is recorded as its dependencies, each against its own id and never
/// against itself, what it is known to require as a framework as known.
pub proof fn law_imports_are_recorded(
    plan: ImportPlan,
    paths: AppPaths,
    facts: ImportFacts<'_>,
    option_name: Option<Seq<char>>,
    version: Seq<char>,
    fresh: Seq<char>,
    needed: Seq<char>,
)
    requires
        is_import_of(plan, paths, facts, option_name, version, fresh),
    ensures
        ({
            let files = facts.relative_paths@;
            let found = detected(files);
            let release = plan.release;
            let recorded = dependency_views(plan.dependencies@);
            &&& found is Some ==> release.id@ == found->0.id && release.kind == ModKind::Framework
            &&& found is None ==> release.id@ == fresh && release.kind != ModKind::Framework
            &&& option_name is Some ==> release.name@ == option_name->0
            &&& option_name is None && found is Some ==> release.name@ == found->0.name
            &&& option_name is None && found is None && path_stem(facts.source@) is Some
                ==> release.name@ == path_stem(facts.source@)->0
            &&& release.version@ == version
            &&& release.archive_sha256@ == facts.archive_sha256@
            &&& release.source@ == facts.source@
            &&& release.installed_at == facts.now
            &&& inferred(files).contains(needed) && needed != release.id@ ==> recorded.contains(
                (release.id@, needed, true),
            )
            &&& found is Some && found->0.requires.contains(needed) ==> recorded.contains(
                (release.id@, needed, false),
            )
            &&& forall|i: int|
                0 <= i < recorded.len() ==> {
                    let (id, requires_id, is_inferred) = #[trigger] recorded[i];
                    &&& id == release.id@
                    &&& is_inferred ==> inferred(files).contains(requires_id) && requires_id != id
                    &&& !is_inferred ==> found is Some && found->0.requires.contains(requires_id)
                }
        }),
{
    lemma_recorded(
        chosen_id(detected(facts.relative_paths@), fresh),
        detected(facts.relative_paths@),
        facts.relative_paths@,
        needed,
    );
}

/// A path is refused exactly where it begins at the root or goes up on its way, as every
/// path does that has two dots between its separators.
pub proof fn law_paths_that_leave_are_refused(path: Seq<char>, front: Seq<char>, rest: Seq<char>)
    requires
        front.len() > 0,
        !absolute(rest),
    ensures
        path_fault(path) is None <==> !(path.len() > 0 && path[0] == '/') && !parts(path).contains(
            Part::Parent,
        ),
        path.len() > 0 && path[0] == '/' ==> path_fault(path) == Some(
            ImportFault::AbsolutePath(path),
        ),
        path_fault(".."@) is Some,
        path_fault(join_path(".."@, rest)) is Some,
        path_fault(join_path(front, ".."@)) is Some,
        path_fault(join_path(join_path(front, ".."@), rest)) is Some,
{
    reveal_strlit("..");
    let up = ".."@;
    assert(up =~= seq!['.', '.']);
    let keep = |piece: Seq<char>| crate::path::counts(piece);
    lemma_one_piece(up);
    assert(split_on(up, '/') =~= seq![up]);
    assert(seq![up].filter(keep) =~= seq![up]) by {
        reveal(Seq::filter);
        assert(seq![up].drop_last() =~= Seq::<Seq<char>>::empty());
        assert(Seq::<Seq<char>>::empty().filter(keep) =~= Seq::<Seq<char>>::empty());
    }
    assert(inner_parts(up)[0] == Part::Parent);
    assert(parts(up)[0] == Part::Parent);
    lemma_join_parts(up, rest);
    assert(parts(join_path(up, rest))[0] == Part::Parent);
    let n = parts(front).len() as int;
    let above = join_path(front, up);
    lemma_join_parts(front, up);
    assert(parts(above)[n] == Part::Parent);
    lemma_join_parts(above, rest);
    assert(parts(join_path(above, rest))[n] == Part::Parent);
}

/// A directory is taken for the root of the game where it holds one of the directories
/// that the game has there, in any case of letters, and no other name makes it one.
pub proof fn law_game_roots_are_known(name: Seq<char>)
    ensures
        game_root(name) <==> lower(name) == "archive"@ || lower(name) == "bin"@ || lower(name)
            == "engine"@ || lower(name) == "r6"@ || lower(name) == "red4ext"@ || lower(name)
            == "mods"@ || lower(name) == "tools"@,
{
    reveal_strlit("archive");
    reveal_strlit("bin");
    reveal_strlit("engine");
    reveal_strlit("r6");
    reveal_strlit("red4ext");
    reveal_strlit("mods");
    reveal_strlit("tools");
    let none = Seq::<char>::empty();
    law_lower_is_by_characters("archive"@, none);
    law_lower_is_by_characters("bin"@, none);
    law_lower_is_by_characters("engine"@, none);
    law_lower_is_by_characters("r6"@, none);
    law_lower_is_by_characters("red4ext"@, none);
    law_lower_is_by_characters("mods"@, none);
    law_lower_is_by_characters("tools"@, none);
}

/// A made-up name keeps every character that may stand in one, in its place, and has `_`
/// for the others.
pub proof fn law_safe_names_keep_safe_characters(value: Seq<char>, i: int)
    requires
        0 <= i < value.len(),
    ensures
        safe_name(value).len() == value.len(),
        ({
            let c = value[i];
            let plain = ('a' <= c && c <= 'z') || ('A' <= c && c <= 'Z') || ('0' <= c && c <= '9')
                || c == '.' || c == '-' || c == '_';
            safe_name(value)[i] == if plain {
                c
            } else {
                '_'
            }
        }),
{
}

/// A path is taken with slashes: each backslash becomes one, and nothing else changes.
pub proof fn law_backslashes_become_slashes(path: Seq<char>, i: int)
    requires
        0 <= i < path.len(),
    ensures
        slashed(path).len() == path.len(),
        slashed(path)[i] == if path[i] == '\\' {
            '/'
        } else {
            path[i]
        },
{
}

/// The search for the root of the game goes into a directory only where that is the only
/// one and no file lies beside it, and stops where a directory of the game is found.
pub proof fn law_only_wrappers_are_entered(entries: Seq<RawEntry>, i: int)
    ensures
        sole_directory(entries, i) <==> 0 <= i < entries.len() && entries[i].is_dir && (forall|j: int|
            0 <= j < entries.len() ==> !(#[trigger] entries[j]).is_file) && (forall|j: int|
            0 <= j < entries.len() && (#[trigger] entries[j]).is_dir ==> j == i),
        holds_game_root(entries) <==> exists|k: int|
            0 <= k < entries.len() && game_root((#[trigger] entries[k]).name@),
        all_redmods(entries) <==> entries.len() > 0 && forall|k: int|
            0 <= k < entries.len() ==> (#[trigger] entries[k]).is_dir && entries[k].has_info,
{
    if 0 <= i < entries.len() && entries[i].is_dir && (forall|j: int|
        0 <= j < entries.len() ==> !(#[trigger] entries[j]).is_file) && (forall|j: int|
        0 <= j < entries.len() && (#[trigger] entries[j]).is_dir ==> j == i) {
        assert forall|j: int| 0 <= j < entries.len() implies !(#[trigger] entries[j]).is_file && (j
            != i ==> !entries[j].is_dir) by {}
    }
}

} // verus!
