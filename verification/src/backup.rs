//! Backups of the state of profiles and of saves.
use vstd::prelude::*;

use crate::models::Timestamp;
use crate::order::{lemma_filtered, lemma_sorted, sort, sorted, Ranking};
use crate::outside::{common_era, format_moment, formatted, is_figures, moment_text, rfc3339_of};
use crate::path::{
    absolute, components, counts, extension, file_name, inner_parts, is_absolute, is_name, join,
    join_path, last_dot, last_name, law_parent_and_name_make_the_path, lead, lemma_join_parts,
    lemma_joined_name, lies_under, option_view, parent, parent_path, part_views, parts,
    path_extension, path_lt, same_place, starts_with, ByPath, Part, PathPart,
};
use crate::paths::AppPaths;
use crate::text::{
    add_if, before_char, chars_of, if_so, lemma_before_char, lemma_before_char_is, lines, same_text,
    split_lines, split_on, trim, trimmed, views, CharClass,
};

verus! {

/// Whether a character is an ASCII letter or digit.
pub open spec fn is_plain(c: char) -> bool {
    ('a' <= c && c <= 'z') || ('A' <= c && c <= 'Z') || ('0' <= c && c <= '9')
}

/// A label with a hyphen for every character that is no ASCII letter or digit.
pub open spec fn safe(label: Seq<char>) -> Seq<char> {
    label.map_values(
        |c: char|
            if is_plain(c) {
                c
            } else {
                '-'
            },
    )
}

/// A label as it stands in a file name.
pub fn safe_label(label: &str) -> (r: String)
    ensures
        r@ == safe(label@),
{
    let chars = chars_of(label);
    let mut r = String::new();
    let mut i: usize = 0;
    while i < chars.len()
        invariant
            i <= chars@.len(),
            chars@ == label@,
            r@ =~= safe(label@.take(i as int)),
        decreases chars@.len() - i,
    {
        let c = chars[i];
        if ('a' <= c && c <= 'z') || ('A' <= c && c <= 'Z') || ('0' <= c && c <= '9') {
            r.push(c);
        } else {
            r.push('-');
        }
        i += 1;
    }
    assert(label@.take(i as int) =~= label@);
    r
}

/// A label in a file name has no other characters than ASCII letters, digits and
/// hyphens, and one that has no others is kept.
pub proof fn law_labels_are_plain(label: Seq<char>)
    ensures
        forall|i: int|
            0 <= i < safe(label).len() ==> is_plain(#[trigger] safe(label)[i]) || safe(label)[i] == '-',
        (forall|i: int| 0 <= i < label.len() ==> is_plain(#[trigger] label[i]) || label[i] == '-')
            ==> safe(label) == label,
{
    if forall|i: int| 0 <= i < label.len() ==> is_plain(#[trigger] label[i]) || label[i] == '-' {
        assert(safe(label) =~= label);
    }
}

/// Why a backup cannot be made.
#[derive(Debug, Clone, Copy, PartialEq, Eq, Structural)]
pub enum BackupError {
    /// The profile has no state.
    NoProfile,
    /// The save set has no directory.
    NoSaveSet,
    /// There is no directory with the saves of Steam.
    NoSteamSaves,
    /// There is nothing above the directory with the saves of Steam.
    NoParent,
    /// The directory with the saves of Steam has no name.
    NoName,
    /// The moment is too far away to be written as a date.
    NoDate,
}

impl BackupError {
    /// What went wrong with a directory, in words.
    pub fn message(self, directory: &str) -> (r: String)
        ensures
            r@ == match self {
                BackupError::NoProfile => "profile state does not exist: "@ + directory@,
                BackupError::NoSaveSet => "managed save set does not exist: "@ + directory@,
                BackupError::NoSteamSaves => "Steam save directory does not exist: "@ + directory@,
                BackupError::NoParent => "Steam save directory has no parent"@,
                BackupError::NoName => "Steam save directory has no name"@,
                BackupError::NoDate => "the moment cannot be written as a date"@,
            },
    {
        match self {
            BackupError::NoProfile => "profile state does not exist: ".to_owned().concat(directory),
            BackupError::NoSaveSet => "managed save set does not exist: ".to_owned().concat(directory),
            BackupError::NoSteamSaves => "Steam save directory does not exist: ".to_owned().concat(
                directory,
            ),
            BackupError::NoParent => "Steam save directory has no parent".to_owned(),
            BackupError::NoName => "Steam save directory has no name".to_owned(),
            BackupError::NoDate => "the moment cannot be written as a date".to_owned(),
        }
    }
}

/// What a command that failed is reported as: what it was for, and what it wrote to
/// its error stream without the white space around it.
pub fn command_failed(what: &str, stderr: &str) -> (r: String)
    ensures
        r@ == what@ + trimmed(stderr@, CharClass::White),
{
    what.to_owned().concat(&trim(stderr, &CharClass::White))
}

/// The name of the file of a backup.
pub open spec fn archive_name(moment: Seq<char>, label: Seq<char>) -> Seq<char> {
    moment + "-"@ + safe(label) + ".tar.zst"@
}

fn name_of_archive(moment: &str, label: &str) -> (r: String)
    ensures
        r@ == archive_name(moment@, label@),
{
    moment.to_owned().concat("-").concat(&safe_label(label)).concat(".tar.zst")
}

/// A file that is written before a backup and removed after it.
#[derive(Debug)]
pub struct Marker {
    pub path: String,
    pub text: String,
}

/// How a backup is made.
#[derive(Debug)]
pub struct BackupPlan {
    /// The directory of the backups of this kind, made where it is missing.
    pub directory: String,
    /// The file of the backup.
    pub archive: String,
    /// The directory that the members are taken from.
    pub base: String,
    /// What goes into the backup.
    pub members: Vec<String>,
    /// How many backups of this kind are kept.
    pub keep: usize,
    pub marker: Option<Marker>,
}

impl BackupPlan {
    /// The arguments of the command that makes the backup.
    pub open spec fn arguments(self) -> Seq<Seq<char>> {
        seq!["-caf"@, self.archive@, "-C"@, self.base@] + views(self.members@)
    }

    /// The arguments of the command that makes the backup.
    pub fn args(&self) -> (r: Vec<String>)
        ensures
            views(r@) == self.arguments(),
    {
        let mut r: Vec<String> = Vec::new();
        r.push("-caf".to_owned());
        r.push(self.archive.clone());
        r.push("-C".to_owned());
        r.push(self.base.clone());
        let ghost front = seq!["-caf"@, self.archive@, "-C"@, self.base@];
        let ghost all = views(self.members@);
        assert(views(r@) =~= front + all.take(0));
        let mut i: usize = 0;
        while i < self.members.len()
            invariant
                i <= self.members@.len(),
                all == views(self.members@),
                views(r@) =~= front + all.take(i as int),
            decreases self.members@.len() - i,
        {
            let ghost had = views(r@);
            r.push(self.members[i].clone());
            assert(all[i as int] == self.members@[i as int]@);
            assert(views(r@) =~= had.push(all[i as int]));
            i += 1;
        }
        assert(all.take(i as int) =~= all);
        r
    }
}

/// Where the backups of a profile are kept.
pub open spec fn backup_place(paths: AppPaths, profile_id: Seq<char>) -> Seq<char> {
    join_path(join_path(paths.data_dir@, "backups"@), profile_id)
}

/// Where the backups of a profile are kept.
pub fn backup_dir(paths: &AppPaths, profile_id: &str) -> (r: String)
    ensures
        r@ == backup_place(*paths, profile_id@),
{
    join(&paths.backups_dir(), profile_id)
}

/// The changed files of the game, below the directory of a profile.
pub const UPPER: &'static str = "runtime-upper";

/// The saves, below the directory of a profile.
pub const SAVED_GAMES: &'static str = "prefix/drive_c/users/steamuser/Saved Games";

/// What there is of the state of a profile.
pub struct ProfileFacts {
    /// Whether the profile has a directory.
    pub is_dir: bool,
    /// Whether there are changed files of the game.
    pub has_upper: bool,
    /// Whether there are saves.
    pub has_saves: bool,
}

/// Why the state of a profile cannot be backed up.
pub open spec fn profile_fault(facts: ProfileFacts, now: Timestamp) -> Option<BackupError> {
    if !facts.is_dir {
        Some(BackupError::NoProfile)
    } else if formatted(now, "%Y%m%d-%H%M%S"@) is None || rfc3339_of(now) is None {
        Some(BackupError::NoDate)
    } else {
        None
    }
}

/// Whether a plan is that of a backup of the state of a profile.
pub open spec fn is_profile_backup(
    plan: BackupPlan,
    paths: AppPaths,
    profile_id: Seq<char>,
    label: Seq<char>,
    facts: ProfileFacts,
    now: Timestamp,
) -> bool {
    &&& plan.directory@ == backup_place(paths, profile_id)
    &&& plan.archive@ == join_path(
        plan.directory@,
        archive_name(formatted(now, "%Y%m%d-%H%M%S"@)->0, label),
    )
    &&& is_figures(formatted(now, "%Y%m%d-%H%M%S"@)->0)
    &&& plan.base@ == join_path(paths.data_dir@, "profiles"@)
    &&& views(plan.members@) == seq![profile_id + "/backup-marker.txt"@] + if_so(
        facts.has_upper,
        profile_id + "/"@ + UPPER@,
    ) + if_so(facts.has_saves, profile_id + "/"@ + SAVED_GAMES@)
    &&& plan.keep == 10
    &&& plan.marker is Some
    &&& plan.marker->0.path@ == join_path(paths.profile_place(profile_id), "backup-marker.txt"@)
    &&& plan.marker->0.text@ == "profile="@ + profile_id + "\ncreated="@ + rfc3339_of(now)->0 + "\n"@
}

/// Plans a backup of the state of a profile: a marker, and of the changed files of
/// the game and the saves what there is. Ten backups of a profile are kept.
pub fn create(
    paths: &AppPaths,
    profile_id: &str,
    label: &str,
    facts: &ProfileFacts,
    now: Timestamp,
) -> (r: Result<BackupPlan, BackupError>)
    ensures
        match r {
            Ok(plan) => profile_fault(*facts, now) is None && is_profile_backup(
                plan,
                *paths,
                profile_id@,
                label@,
                *facts,
                now,
            ),
            Err(error) => profile_fault(*facts, now) == Some(error),
        },
        facts.is_dir && common_era(now) ==> r is Ok,
{
    if !facts.is_dir {
        return Err(BackupError::NoProfile);
    }
    let moment = match format_moment(now, "%Y%m%d-%H%M%S") {
        Some(moment) => moment,
        None => return Err(BackupError::NoDate),
    };
    let created = match moment_text(now) {
        Some(created) => created,
        None => return Err(BackupError::NoDate),
    };
    let directory = backup_dir(paths, profile_id);
    let mut members: Vec<String> = Vec::new();
    members.push(profile_id.to_owned().concat("/backup-marker.txt"));
    assert(views(members@) =~= seq![profile_id@ + "/backup-marker.txt"@]);
    add_if(&mut members, facts.has_upper, &profile_id.to_owned().concat("/").concat(UPPER));
    add_if(&mut members, facts.has_saves, &profile_id.to_owned().concat("/").concat(SAVED_GAMES));
    Ok(
        BackupPlan {
            archive: join(&directory, &name_of_archive(&moment, label)),
            directory,
            base: paths.profiles_dir(),
            members,
            keep: 10,
            marker: Some(
                Marker {
                    path: join(&paths.profile_dir(profile_id), "backup-marker.txt"),
                    text: "profile=".to_owned().concat(profile_id).concat("\ncreated=").concat(
                        &created,
                    ).concat("\n"),
                },
            ),
        },
    )
}

/// Why a save set cannot be backed up.
pub open spec fn save_set_fault(is_dir: bool, now: Timestamp) -> Option<BackupError> {
    if !is_dir {
        Some(BackupError::NoSaveSet)
    } else if formatted(now, "%Y%m%d-%H%M%S%.3f"@) is None {
        Some(BackupError::NoDate)
    } else {
        None
    }
}

/// Whether a plan is that of a backup of a save set.
pub open spec fn is_save_set_backup(
    plan: BackupPlan,
    paths: AppPaths,
    save_set_id: Seq<char>,
    label: Seq<char>,
    now: Timestamp,
) -> bool {
    &&& plan.directory@ == join_path(
        join_path(join_path(paths.data_dir@, "backups"@), "save-sets"@),
        save_set_id,
    )
    &&& plan.archive@ == join_path(
        plan.directory@,
        archive_name(formatted(now, "%Y%m%d-%H%M%S%.3f"@)->0, label),
    )
    &&& plan.base@ == join_path(paths.data_dir@, "save-sets"@)
    &&& views(plan.members@) == seq![save_set_id]
    &&& plan.keep == 20
    &&& plan.marker is None
}

/// Plans a backup of a save set, of which twenty are kept. A flag tells whether the
/// save set has a directory.
pub fn create_save_set(
    paths: &AppPaths,
    save_set_id: &str,
    label: &str,
    is_dir: bool,
    now: Timestamp,
) -> (r: Result<BackupPlan, BackupError>)
    ensures
        match r {
            Ok(plan) => save_set_fault(is_dir, now) is None && is_save_set_backup(
                plan,
                *paths,
                save_set_id@,
                label@,
                now,
            ),
            Err(error) => save_set_fault(is_dir, now) == Some(error),
        },
        is_dir && common_era(now) ==> r is Ok,
{
    if !is_dir {
        return Err(BackupError::NoSaveSet);
    }
    let moment = match format_moment(now, "%Y%m%d-%H%M%S%.3f") {
        Some(moment) => moment,
        None => return Err(BackupError::NoDate),
    };
    let directory = join(&join(&paths.backups_dir(), "save-sets"), save_set_id);
    let mut members: Vec<String> = Vec::new();
    members.push(save_set_id.to_owned());
    assert(views(members@) =~= seq![save_set_id@]);
    Ok(
        BackupPlan {
            archive: join(&directory, &name_of_archive(&moment, label)),
            directory,
            base: paths.save_sets_dir(),
            members,
            keep: 20,
            marker: None,
        },
    )
}

/// Why the saves of Steam cannot be backed up.
pub open spec fn steam_fault(source: Seq<char>, is_dir: bool, now: Timestamp) -> Option<BackupError> {
    if !is_dir {
        Some(BackupError::NoSteamSaves)
    } else if formatted(now, "%Y%m%d-%H%M%S%.3f"@) is None {
        Some(BackupError::NoDate)
    } else if parent_path(source) is None {
        Some(BackupError::NoParent)
    } else if last_name(source) is None {
        Some(BackupError::NoName)
    } else {
        None
    }
}

/// Whether a plan is that of a backup of the saves of Steam.
pub open spec fn is_steam_backup(
    plan: BackupPlan,
    paths: AppPaths,
    source: Seq<char>,
    label: Seq<char>,
    now: Timestamp,
) -> bool {
    &&& plan.directory@ == join_path(join_path(paths.data_dir@, "backups"@), "steam-saves"@)
    &&& plan.archive@ == join_path(
        plan.directory@,
        archive_name(formatted(now, "%Y%m%d-%H%M%S%.3f"@)->0, label),
    )
    &&& plan.base@ == parent_path(source)->0
    &&& views(plan.members@) == seq![last_name(source)->0]
    &&& plan.keep == 20
    &&& plan.marker is None
}

/// Plans a backup of the saves of Steam, of which twenty are kept. A flag tells
/// whether the saves have a directory.
pub fn create_steam_saves(
    paths: &AppPaths,
    source: &str,
    label: &str,
    is_dir: bool,
    now: Timestamp,
) -> (r: Result<BackupPlan, BackupError>)
    ensures
        match r {
            Ok(plan) => steam_fault(source@, is_dir, now) is None && is_steam_backup(
                plan,
                *paths,
                source@,
                label@,
                now,
            ),
            Err(error) => steam_fault(source@, is_dir, now) == Some(error),
        },
        is_dir && common_era(now) && last_name(source@) is Some ==> r is Ok,
{
    if !is_dir {
        return Err(BackupError::NoSteamSaves);
    }
    let moment = match format_moment(now, "%Y%m%d-%H%M%S%.3f") {
        Some(moment) => moment,
        None => return Err(BackupError::NoDate),
    };
    let directory = join(&paths.backups_dir(), "steam-saves");
    let base = match parent(source) {
        Some(base) => base,
        None => return Err(BackupError::NoParent),
    };
    let name = match file_name(source) {
        Some(name) => name,
        None => return Err(BackupError::NoName),
    };
    let mut members: Vec<String> = Vec::new();
    let ghost last = name@;
    members.push(name);
    assert(views(members@) =~= seq![last]);
    Ok(
        BackupPlan {
            archive: join(&directory, &name_of_archive(&moment, label)),
            directory,
            base,
            members,
            keep: 20,
            marker: None,
        },
    )
}

/// Whether a file is a backup, by its name.
pub open spec fn is_backup_file(path: Seq<char>) -> bool {
    path_extension(path) == Some("zst"@)
}

/// The files of a list that are backups.
pub open spec fn backup_files(files: Seq<String>) -> Seq<String> {
    files.filter(|file: String| is_backup_file(file@))
}

fn reversed(list: Vec<String>) -> (r: Vec<String>)
    ensures
        r@ == list@.reverse(),
{
    let mut r: Vec<String> = Vec::new();
    let mut i: usize = list.len();
    while i > 0
        invariant
            i <= list@.len(),
            r@.len() == list@.len() - i,
            forall|j: int| 0 <= j < r@.len() ==> #[trigger] r@[j] == list@[list@.len() - 1 - j],
        decreases i,
    {
        i -= 1;
        r.push(list[i].clone());
    }
    assert(r@ =~= list@.reverse());
    r
}

/// The backups of a profile, the newest first, by the files in their directory.
/// There are none where there is no directory.
pub fn list(files: &Option<Vec<String>>) -> (r: Vec<String>)
    ensures
        r@ == match *files {
            Some(files) => sorted::<String, ByPath>(backup_files(files@)).reverse(),
            None => Seq::empty(),
        },
{
    let files = match files {
        Some(files) => files,
        None => return Vec::new(),
    };
    let ghost keep = |file: String| is_backup_file(file@);
    let mut found: Vec<String> = Vec::new();
    let mut i: usize = 0;
    assert(found@ =~= files@.take(0).filter(keep)) by {
        reveal(Seq::filter);
    }
    while i < files.len()
        invariant
            i <= files@.len(),
            keep == (|file: String| is_backup_file(file@)),
            found@ == files@.take(i as int).filter(keep),
        decreases files@.len() - i,
    {
        let ghost now = files@.take(i + 1);
        assert(now.drop_last() =~= files@.take(i as int));
        let is_backup = match extension(&files[i]) {
            Some(extension) => same_text(&extension, "zst"),
            None => false,
        };
        assert(is_backup == keep(now.last()));
        if is_backup {
            found.push(files[i].clone());
        }
        assert(found@ == now.filter(keep)) by {
            reveal(Seq::filter);
        }
        i += 1;
    }
    assert(files@.take(i as int) =~= files@);
    reversed(sort::<String, ByPath>(found))
}

/// The files that go when only so many of a directory are kept: all but the last in
/// the order of paths.
pub open spec fn pruned(files: Seq<String>, keep: int) -> Seq<String> {
    let newest_first = sorted::<String, ByPath>(files).reverse();
    if newest_first.len() <= keep {
        Seq::empty()
    } else {
        newest_first.skip(keep)
    }
}

/// The files of a directory that are removed so that only so many are kept: the
/// oldest by name.
pub fn prune(files: Vec<String>, keep: usize) -> (r: Vec<String>)
    ensures
        r@ == pruned(files@, keep as int),
{
    let ghost all = files@;
    let newest_first = reversed(sort::<String, ByPath>(files));
    let mut r: Vec<String> = Vec::new();
    let mut i: usize = keep;
    while i < newest_first.len()
        invariant
            keep <= i,
            i <= newest_first@.len() || i == keep,
            r@ =~= if newest_first@.len() <= keep {
                Seq::empty()
            } else {
                newest_first@.subrange(keep as int, i as int)
            },
        decreases newest_first@.len() - i,
    {
        r.push(newest_first[i].clone());
        i += 1;
    }
    proof {
        if newest_first@.len() > keep {
            assert(newest_first@.subrange(keep as int, i as int) =~= newest_first@.skip(keep as int));
        }
    }
    r
}

/// Pruning keeps the newest by name: as many as are to be kept stay, where there
/// are so many, and none that goes comes after one that stays.
pub proof fn law_prune_keeps_the_newest(files: Seq<String>, keep: int)
    requires
        keep >= 0,
    ensures
        ({
            let newest_first = sorted::<String, ByPath>(files).reverse();
            &&& newest_first.to_multiset() == files.to_multiset()
            &&& pruned(files, keep).len() == if files.len() > keep {
                files.len() - keep
            } else {
                0
            }
            &&& forall|i: int, j: int|
                0 <= i < keep && i < newest_first.len() && 0 <= j < pruned(files, keep).len()
                    ==> !path_lt((#[trigger] newest_first[i])@, (#[trigger] pruned(files, keep)[j])@)
        }),
{
    broadcast use vstd::seq_lib::group_to_multiset_ensures;

    let up = sorted::<String, ByPath>(files);
    lemma_sorted::<String, ByPath>(files);
    let newest_first = up.reverse();
    lemma_reverse_multiset(up);
    let gone = pruned(files, keep);
    assert forall|i: int, j: int|
        0 <= i < keep && i < newest_first.len() && 0 <= j < gone.len() implies !path_lt(
        (#[trigger] newest_first[i])@,
        (#[trigger] gone[j])@,
    ) by {
        let n = up.len();
        assert(newest_first[i] == up[n - 1 - i]);
        assert(gone[j] == up[n - 1 - (keep + j)]);
        assert(!ByPath::lt(up[n - 1 - i], up[n - 1 - (keep + j)]));
    }
}

proof fn lemma_reverse_multiset(s: Seq<String>)
    ensures
        s.reverse().to_multiset() == s.to_multiset(),
    decreases s.len(),
{
    broadcast use vstd::seq_lib::group_to_multiset_ensures;

    if s.len() == 0 {
        assert(s.reverse() =~= s);
    } else {
        let front = s.drop_last();
        lemma_reverse_multiset(front);
        assert(s =~= front.push(s.last()));
        assert(s.reverse() =~= seq![s.last()] + front.reverse());
        vstd::seq_lib::lemma_multiset_commutative(seq![s.last()], front.reverse());
        assert(seq![s.last()] =~= Seq::<String>::empty().push(s.last()));
        assert(s.reverse().to_multiset() =~= s.to_multiset());
    }
}

/// A backup that was made is among those that are listed, and it is not refused as one
/// that is not managed.
pub proof fn law_made_backups_are_listed(
    plan: BackupPlan,
    paths: AppPaths,
    profile_id: Seq<char>,
    label: Seq<char>,
    facts: ProfileFacts,
    now: Timestamp,
)
    requires
        is_profile_backup(plan, paths, profile_id, label, facts, now),
        !absolute(profile_id),
    ensures
        is_backup_file(plan.archive@),
        archive_fault(true, plan.archive@, join_path(paths.data_dir@, "backups"@)) is None,
{
    let moment = formatted(now, "%Y%m%d-%H%M%S"@)->0;
    let name = archive_name(moment, label);
    let root = join_path(paths.data_dir@, "backups"@);
    reveal_strlit("backups");
    reveal_strlit("-");
    reveal_strlit(".tar.zst");
    reveal_strlit("zst");
    let n = name.len() as int;
    assert(name.len() == moment.len() + 1 + label.len() + 8);
    assert forall|i: int| 0 <= i < n implies name[i] != '/' by {
        if i < moment.len() {
            assert(name[i] == moment[i]);
        } else if moment.len() < i < moment.len() + 1 + label.len() {
            assert(name[i] == safe(label)[i - moment.len() - 1]);
        }
    }
    assert(name[n - 1] == 't' && name[n - 2] == 's' && name[n - 3] == 'z' && name[n - 4] == '.');
    assert(last_dot(name) == n - 4) by {
        let a = name.drop_last();
        let b = a.drop_last();
        let c = b.drop_last();
        assert(last_dot(c) == n - 4);
        assert(last_dot(b) == last_dot(c));
        assert(last_dot(a) == last_dot(b));
    }
    assert(name.skip(n - 3) =~= "zst"@);
    assert(root.len() > 0);
    lemma_join_parts(root, profile_id);
    lemma_joined_name(plan.directory@, name);
    assert(parts(root).is_prefix_of(parts(plan.archive@)));
}

/// Why a backup is not restored.
#[derive(Debug, Clone, Copy, PartialEq, Eq, Structural)]
pub enum RestoreError {
    Missing,
    Unmanaged,
    Empty,
    Absolute,
    Traversal,
    OtherProfile,
}

impl RestoreError {
    /// What is wrong, in words.
    pub fn message(self) -> (r: &'static str)
        ensures
            r@ == match self {
                RestoreError::Missing => "backup archive does not exist"@,
                RestoreError::Unmanaged =>
                    "refusing to restore an archive outside the managed backup directory"@,
                RestoreError::Empty => "backup archive is empty"@,
                RestoreError::Absolute => "backup contains an absolute path"@,
                RestoreError::Traversal => "backup contains path traversal"@,
                RestoreError::OtherProfile => "backup contains state for a different profile"@,
            },
    {
        match self {
            RestoreError::Missing => "backup archive does not exist",
            RestoreError::Unmanaged =>
                "refusing to restore an archive outside the managed backup directory",
            RestoreError::Empty => "backup archive is empty",
            RestoreError::Absolute => "backup contains an absolute path",
            RestoreError::Traversal => "backup contains path traversal",
            RestoreError::OtherProfile => "backup contains state for a different profile",
        }
    }
}

/// What is wrong with an entry of a backup.
pub open spec fn entry_fault(entry: Seq<char>, profile_id: Seq<char>) -> Option<RestoreError> {
    if absolute(entry) {
        Some(RestoreError::Absolute)
    } else if parts(entry).contains(Part::Parent) {
        Some(RestoreError::Traversal)
    } else if !lies_under(entry, profile_id) {
        Some(RestoreError::OtherProfile)
    } else {
        None
    }
}

/// What is wrong with the first entry of a list that something is wrong with.
pub open spec fn first_fault(entries: Seq<Seq<char>>, profile_id: Seq<char>) -> Option<RestoreError>
    decreases entries.len(),
{
    if entries.len() == 0 {
        None
    } else if entry_fault(entries[0], profile_id) is Some {
        entry_fault(entries[0], profile_id)
    } else {
        first_fault(entries.drop_first(), profile_id)
    }
}

/// What is wrong with the entries of a backup of a profile.
pub open spec fn listing_fault(listing: Seq<char>, profile_id: Seq<char>) -> Option<RestoreError> {
    if listing.len() == 0 {
        Some(RestoreError::Empty)
    } else {
        first_fault(lines(listing), profile_id)
    }
}

/// A fault or its absence as a result.
pub open spec fn outcome(r: Result<(), RestoreError>) -> Option<RestoreError> {
    match r {
        Ok(_) => None,
        Err(error) => Some(error),
    }
}

fn goes_up(path: &str) -> (r: bool)
    ensures
        r == parts(path@).contains(Part::Parent),
{
    let all = components(path);
    let ghost there = part_views(all@);
    let mut i: usize = 0;
    while i < all.len()
        invariant
            i <= all@.len(),
            there == part_views(all@),
            there == parts(path@),
            forall|j: int| 0 <= j < i ==> there[j] != Part::Parent,
        decreases all@.len() - i,
    {
        assert(there[i as int] == all@[i as int]@);
        if let PathPart::Parent = all[i] {
            assert(there[i as int] == Part::Parent);
            return true;
        }
        i += 1;
    }
    false
}

fn check_entry(entry: &str, profile_id: &str) -> (r: Result<(), RestoreError>)
    ensures
        outcome(r) == entry_fault(entry@, profile_id@),
{
    if is_absolute(entry) {
        Err(RestoreError::Absolute)
    } else if goes_up(entry) {
        Err(RestoreError::Traversal)
    } else if !starts_with(entry, profile_id) {
        Err(RestoreError::OtherProfile)
    } else {
        Ok(())
    }
}

/// Whether the entries of a backup all belong to the state of a profile.
pub fn validate_restore_archive(listing: &str, profile_id: &str) -> (r: Result<(), RestoreError>)
    ensures
        outcome(r) == listing_fault(listing@, profile_id@),
{
    if listing.is_empty() {
        return Err(RestoreError::Empty);
    }
    let entries = split_lines(listing);
    let ghost all = views(entries@);
    let mut i: usize = 0;
    assert(all.skip(0) =~= all);
    while i < entries.len()
        invariant
            i <= entries@.len(),
            all == views(entries@),
            all == lines(listing@),
            listing@.len() > 0,
            first_fault(all, profile_id@) == first_fault(all.skip(i as int), profile_id@),
        decreases entries@.len() - i,
    {
        assert(all.skip(i as int)[0] == entries@[i as int]@);
        assert(all.skip(i as int).drop_first() =~= all.skip(i + 1));
        if let Err(error) = check_entry(&entries[i], profile_id) {
            return Err(error);
        }
        i += 1;
    }
    Ok(())
}

/// Why an archive is not looked into: there is no such file, or it is not a backup
/// of the application.
pub open spec fn archive_fault(is_file: bool, archive: Seq<char>, root: Seq<char>) -> Option<
    RestoreError,
> {
    if !is_file {
        Some(RestoreError::Missing)
    } else if !lies_under(archive, root) {
        Some(RestoreError::Unmanaged)
    } else {
        None
    }
}

/// Whether an archive may be looked into. Both paths are taken without links.
pub fn check_archive(is_file: bool, archive: &str, backup_root: &str) -> (r: Result<(), RestoreError>)
    ensures
        outcome(r) == archive_fault(is_file, archive@, backup_root@),
{
    if !is_file {
        Err(RestoreError::Missing)
    } else if !starts_with(archive, backup_root) {
        Err(RestoreError::Unmanaged)
    } else {
        Ok(())
    }
}

/// How a backup is restored.
#[derive(Debug)]
pub struct RestorePlan {
    /// The label of the backup that is made of the present state before, where there
    /// is any.
    pub backup_first: Option<String>,
    /// The arguments of the command that restores.
    pub args: Vec<String>,
}

/// What is known of an archive that is to be restored.
pub struct RestoreFacts {
    pub is_file: bool,
    /// The path of the archive, without links.
    pub archive: String,
    /// The directory of the backups, without links.
    pub backup_root: String,
    /// The entries of the archive, one to a line.
    pub listing: String,
    /// Whether the profile has any state now.
    pub has_state: bool,
}

/// Why an archive is not restored.
pub open spec fn restore_fault(facts: RestoreFacts, profile_id: Seq<char>) -> Option<RestoreError> {
    let fault = archive_fault(facts.is_file, facts.archive@, facts.backup_root@);
    if fault is Some {
        fault
    } else {
        listing_fault(facts.listing@, profile_id)
    }
}

/// Plans the restoring of the state of a profile. The present state is backed up
/// before.
pub fn restore(paths: &AppPaths, profile_id: &str, facts: &RestoreFacts) -> (r: Result<
    RestorePlan,
    RestoreError,
>)
    ensures
        match r {
            Ok(plan) => {
                &&& restore_fault(*facts, profile_id@) is None
                &&& option_view(plan.backup_first) == if facts.has_state {
                    Some("pre-restore"@)
                } else {
                    None
                }
                &&& views(plan.args@) == seq![
                    "-xf"@,
                    facts.archive@,
                    "-C"@,
                    join_path(paths.data_dir@, "profiles"@),
                ]
                &&& plan.backup_first is Some <==> facts.has_state
                &&& forall|made: BackupPlan, label: Seq<char>, state: ProfileFacts, at: Timestamp|
                    #[trigger]
                    is_profile_backup(made, *paths, profile_id@, label, state, at)
                        ==> plan.args@.len() == 4 && plan.args@[1]@ == facts.archive@
                        && plan.args@[3]@ == made.base@
            },
            Err(error) => restore_fault(*facts, profile_id@) == Some(error),
        },
{
    if let Err(error) = check_archive(facts.is_file, &facts.archive, &facts.backup_root) {
        return Err(error);
    }
    if let Err(error) = validate_restore_archive(&facts.listing, profile_id) {
        return Err(error);
    }
    let mut args: Vec<String> = Vec::new();
    args.push("-xf".to_owned());
    args.push(facts.archive.clone());
    args.push("-C".to_owned());
    args.push(paths.profiles_dir());
    assert(views(args@) =~= seq![
        "-xf"@,
        facts.archive@,
        "-C"@,
        join_path(paths.data_dir@, "profiles"@),
    ]);
    assert(views(args@)[1] == args@[1]@ && views(args@)[3] == args@[3]@);
    Ok(
        RestorePlan {
            backup_first: if facts.has_state {
                Some("pre-restore".to_owned())
            } else {
                None
            },
            args,
        },
    )
}

proof fn lemma_no_fault(entries: Seq<Seq<char>>, profile_id: Seq<char>, i: int)
    requires
        first_fault(entries, profile_id) is None,
        0 <= i < entries.len(),
    ensures
        entry_fault(entries[i], profile_id) is None,
    decreases entries.len(),
{
    if i > 0 {
        lemma_no_fault(entries.drop_first(), profile_id, i - 1);
        assert(entries.drop_first()[i - 1] == entries[i]);
    }
}

proof fn lemma_inner_names(path: Seq<char>, i: int)
    requires
        0 <= i < inner_parts(path).len(),
    ensures
        inner_parts(path)[i] != Part::Root,
        inner_parts(path)[i] != Part::Current,
{
    let all = split_on(path, '/');
    let k = lemma_filtered(all, |piece: Seq<char>| counts(piece), i);
    assert(counts(all[k]));
}

/// What is restored stays in the directory of its profile: every entry of an archive
/// that is accepted goes to a place at or below it, and none goes up on the way.
pub proof fn law_restored_state_stays_in_its_profile(
    paths: AppPaths,
    profile_id: Seq<char>,
    facts: RestoreFacts,
    i: int,
)
    requires
        restore_fault(facts, profile_id) is None,
        0 <= i < lines(facts.listing@).len(),
    ensures
        lies_under(
            join_path(join_path(paths.data_dir@, "profiles"@), lines(facts.listing@)[i]),
            paths.profile_place(profile_id),
        ),
        !parts(lines(facts.listing@)[i]).contains(Part::Parent),
{
    let entry = lines(facts.listing@)[i];
    let base = join_path(paths.data_dir@, "profiles"@);
    reveal_strlit("profiles");
    lemma_no_fault(lines(facts.listing@), profile_id, i);
    assert(!absolute(entry) && lies_under(entry, profile_id));
    assert(base.len() > 0);
    let x = parts(profile_id);
    let y = parts(entry);
    assert(x == y.subrange(0, x.len() as int));
    if absolute(profile_id) {
        assert(x[0] == Part::Root);
        assert(y[0] == Part::Root);
        if lead(entry).len() == 0 {
            lemma_inner_names(entry, 0);
        }
        assert(false);
    }
    lemma_join_parts(base, entry);
    lemma_join_parts(base, profile_id);
    let a = inner_parts(profile_id);
    let b = inner_parts(entry);
    if lead(profile_id).len() != lead(entry).len() && x.len() > 0 {
        assert(x[0] == y[0]);
        if lead(profile_id).len() == 0 {
            lemma_inner_names(profile_id, 0);
        } else {
            lemma_inner_names(entry, 0);
        }
        assert(false);
    }
    assert(a.len() <= b.len());
    assert forall|k: int| 0 <= k < a.len() implies a[k] == b[k] by {
        let n = lead(profile_id).len();
        assert(x[n + k] == a[k]);
        assert(y[lead(entry).len() + k] == b[k]);
        assert(x[n + k] == y[n + k]);
    }
    let front = parts(base) + a;
    let whole = parts(base) + b;
    assert(front =~= whole.subrange(0, front.len() as int));
}

proof fn lemma_entry_below(entry: Seq<char>, below: Seq<char>, profile_id: Seq<char>)
    requires
        entry.len() > 0,
        entry_fault(entry, profile_id) is None,
        !absolute(below),
        !inner_parts(below).contains(Part::Parent),
    ensures
        entry_fault(join_path(entry, below), profile_id) is None,
        join_path(entry, below).len() > 0,
{
    lemma_join_parts(entry, below);
    let whole = join_path(entry, below);
    let up = parts(entry);
    assert(parts(whole) =~= up + inner_parts(below));
    assert(whole[0] == entry[0]);
    assert(!parts(whole).contains(Part::Parent)) by {
        if parts(whole).contains(Part::Parent) {
            let k = choose|k: int| 0 <= k < parts(whole).len() && parts(whole)[k] == Part::Parent;
            if k < up.len() {
                assert(up[k] == Part::Parent);
            } else {
                assert(inner_parts(below)[k - up.len()] == Part::Parent);
            }
        }
    }
    let id = parts(profile_id);
    assert(id == up.subrange(0, id.len() as int));
    assert(id =~= parts(whole).subrange(0, id.len() as int));
}

proof fn lemma_plain_inside(path: Seq<char>)
    requires
        forall|i: int| 0 <= i < path.len() ==> path[i] != '.',
    ensures
        !inner_parts(path).contains(Part::Parent),
{
    if inner_parts(path).contains(Part::Parent) {
        let i = choose|i: int| 0 <= i < inner_parts(path).len() && inner_parts(path)[i] == Part::Parent;
        let all = split_on(path, '/');
        let k = lemma_filtered(all, |piece: Seq<char>| counts(piece), i);
        assert(all[k] == seq!['.', '.']);
        lemma_piece_char(path, k, 0);
        assert(all[k][0] == '.');
    }
}

proof fn lemma_piece_char(text: Seq<char>, k: int, i: int)
    requires
        0 <= k < split_on(text, '/').len(),
        0 <= i < split_on(text, '/')[k].len(),
    ensures
        text.contains(split_on(text, '/')[k][i]),
    decreases text.len(),
{
    let n = before_char(text, '/');
    lemma_before_char(text, '/');
    let all = split_on(text, '/');
    if n >= text.len() {
        assert(all[k][i] == text[i]);
    } else if k == 0 {
        assert(all[k] == text.take(n as int));
        assert(all[k][i] == text[i]);
    } else {
        let rest = text.skip(n as int + 1);
        assert(all[k] == split_on(rest, '/')[k - 1]);
        lemma_piece_char(rest, k - 1, i);
        let j = choose|j: int| 0 <= j < rest.len() && rest[j] == all[k][i];
        assert(text[n + 1 + j] == rest[j]);
    }
}

proof fn lemma_members(
    plan: BackupPlan,
    paths: AppPaths,
    profile_id: Seq<char>,
    label: Seq<char>,
    facts: ProfileFacts,
    now: Timestamp,
    i: int,
)
    requires
        is_profile_backup(plan, paths, profile_id, label, facts, now),
        0 <= i < plan.members@.len(),
    ensures
        ({
            let member = plan.members@[i]@;
            ||| member == profile_id + "/backup-marker.txt"@
            ||| member == profile_id + "/"@ + UPPER@
            ||| member == profile_id + "/"@ + SAVED_GAMES@
        }),
{
    let first = seq![profile_id + "/backup-marker.txt"@];
    let second = if_so(facts.has_upper, profile_id + "/"@ + UPPER@);
    let third = if_so(facts.has_saves, profile_id + "/"@ + SAVED_GAMES@);
    let all = first + second + third;
    let member = plan.members@[i]@;
    assert(views(plan.members@).len() == plan.members@.len());
    assert(views(plan.members@)[i] == member);
    assert(member == all[i]);
    if i >= 1 {
        if i - 1 < second.len() {
            assert(all[i] == second[i - 1]);
        } else {
            assert(all[i] == third[i - 1 - second.len()]);
        }
    }
}

/// What was backed up can be restored: no member of a backup of a profile, and
/// nothing below one, is refused when it is restored to that profile.
pub proof fn law_backups_can_be_restored(
    plan: BackupPlan,
    paths: AppPaths,
    profile_id: Seq<char>,
    label: Seq<char>,
    facts: ProfileFacts,
    now: Timestamp,
    i: int,
    below: Seq<char>,
)
    requires
        is_profile_backup(plan, paths, profile_id, label, facts, now),
        profile_id.len() > 0 && profile_id.last() != '/',
        !absolute(profile_id) && !parts(profile_id).contains(Part::Parent),
        0 <= i < plan.members@.len(),
        !absolute(below),
        !inner_parts(below).contains(Part::Parent),
    ensures
        entry_fault(plan.members@[i]@, profile_id) is None,
        entry_fault(join_path(plan.members@[i]@, below), profile_id) is None,
{
    reveal_strlit("/backup-marker.txt");
    reveal_strlit("backup-marker.txt");
    reveal_strlit("/");
    reveal_strlit("runtime-upper");
    reveal_strlit("prefix/drive_c/users/steamuser/Saved Games");
    let member = plan.members@[i]@;
    let id = profile_id;
    assert(parts(id) =~= parts(id).subrange(0, parts(id).len() as int));
    assert(entry_fault(id, id) is None);
    let marker = "backup-marker.txt"@;
    assert(id + "/backup-marker.txt"@ =~= join_path(id, marker));
    assert(id + "/"@ + UPPER@ =~= join_path(id, UPPER@));
    assert(id + "/"@ + SAVED_GAMES@ =~= join_path(id, SAVED_GAMES@));
    lemma_plain_inside(UPPER@);
    lemma_plain_inside(SAVED_GAMES@);
    assert(!inner_parts(marker).contains(Part::Parent)) by {
        if inner_parts(marker).contains(Part::Parent) {
            let all = split_on(marker, '/');
            lemma_before_char_is(marker, '/', marker.len());
            let n = choose|n: int| 0 <= n < inner_parts(marker).len() && inner_parts(marker)[n]
                == Part::Parent;
            let k = lemma_filtered(all, |piece: Seq<char>| counts(piece), n);
            assert(all =~= seq![marker]);
            assert(marker.len() == 17);
        }
    }
    lemma_entry_below(id, marker, id);
    lemma_entry_below(id, UPPER@, id);
    lemma_entry_below(id, SAVED_GAMES@, id);
    lemma_members(plan, paths, id, label, facts, now, i);
    lemma_entry_below(member, below, id);
}

/// A backup of a profile holds its marker; its changed files of the game where it has
/// any, whatever else there is; its saves where it has any, whatever else there is; and
/// nothing more. The ten newest are kept.
pub proof fn law_backups_hold_what_there_is(
    plan: BackupPlan,
    paths: AppPaths,
    profile_id: Seq<char>,
    label: Seq<char>,
    facts: ProfileFacts,
    now: Timestamp,
)
    requires
        is_profile_backup(plan, paths, profile_id, label, facts, now),
    ensures
        views(plan.members@).contains(profile_id + "/backup-marker.txt"@),
        facts.has_upper ==> views(plan.members@).contains(profile_id + "/runtime-upper"@),
        facts.has_saves ==> views(plan.members@).contains(
            profile_id + "/prefix/drive_c/users/steamuser/Saved Games"@,
        ),
        forall|i: int|
            0 <= i < plan.members@.len() ==> {
                ||| (#[trigger] plan.members@[i])@ == profile_id + "/backup-marker.txt"@
                ||| facts.has_upper && plan.members@[i]@ == profile_id + "/runtime-upper"@
                ||| facts.has_saves && plan.members@[i]@ == profile_id
                    + "/prefix/drive_c/users/steamuser/Saved Games"@
            },
        plan.keep == 10,
{
    reveal_strlit("/");
    reveal_strlit("runtime-upper");
    reveal_strlit("/runtime-upper");
    reveal_strlit("prefix/drive_c/users/steamuser/Saved Games");
    reveal_strlit("/prefix/drive_c/users/steamuser/Saved Games");
    let members = views(plan.members@);
    let upper = profile_id + "/runtime-upper"@;
    let saves = profile_id + "/prefix/drive_c/users/steamuser/Saved Games"@;
    assert(profile_id + "/"@ + UPPER@ =~= upper);
    assert(profile_id + "/"@ + SAVED_GAMES@ =~= saves);
    let first = seq![profile_id + "/backup-marker.txt"@];
    let second = if_so(facts.has_upper, upper);
    let third = if_so(facts.has_saves, saves);
    assert(members == first + second + third);
    assert(members[0] == profile_id + "/backup-marker.txt"@);
    if facts.has_upper {
        assert(members[1] == upper);
    }
    if facts.has_saves {
        assert(members[1 + second.len() as int] == saves);
    }
    assert(members.len() == plan.members@.len());
    assert forall|i: int| 0 <= i < plan.members@.len() implies {
        ||| (#[trigger] plan.members@[i])@ == profile_id + "/backup-marker.txt"@
        ||| facts.has_upper && plan.members@[i]@ == upper
        ||| facts.has_saves && plan.members@[i]@ == saves
    } by {
        assert(members[i] == plan.members@[i]@);
        if 1 <= i && i - 1 < second.len() {
            assert(members[i] == second[i - 1]);
        } else if 1 <= i {
            assert(members[i] == third[i - 1 - second.len()]);
        }
    }
}

/// A backup of a profile is made by the place that its members are taken from: seen
/// from there, they are the directory that changes of the game go to and a directory
/// above the saves of the profile. A backup that is restored goes to the same place.
pub proof fn law_backups_reach_the_state(
    plan: BackupPlan,
    paths: AppPaths,
    profile_id: Seq<char>,
    label: Seq<char>,
    facts: ProfileFacts,
    now: Timestamp,
)
    requires
        is_profile_backup(plan, paths, profile_id, label, facts, now),
        is_name(profile_id),
    ensures
        plan.base@ == join_path(paths.data_dir@, "profiles"@),
        join_path(plan.base@, profile_id + "/runtime-upper"@) == join_path(
            join_path(plan.base@, profile_id),
            "runtime-upper"@,
        ),
        lies_under(
            join_path(
                join_path(plan.base@, profile_id),
                "prefix/drive_c/users/steamuser/Saved Games/CD Projekt Red/Cyberpunk 2077"@,
            ),
            join_path(plan.base@, profile_id + "/prefix/drive_c/users/steamuser/Saved Games"@),
        ),
        lies_under(plan.archive@, join_path(join_path(paths.data_dir@, "backups"@), profile_id)),
{
    reveal_strlit("profiles");
    reveal_strlit("backups");
    reveal_strlit("/runtime-upper");
    reveal_strlit("runtime-upper");
    reveal_strlit(".tar.zst");
    reveal_strlit("/prefix/drive_c/users/steamuser/Saved Games");
    reveal_strlit("CD Projekt Red/Cyberpunk 2077");
    reveal_strlit("prefix/drive_c/users/steamuser/Saved Games");
    reveal_strlit("prefix/drive_c/users/steamuser/Saved Games/CD Projekt Red/Cyberpunk 2077");
    let base = plan.base@;
    assert(profile_id.contains(profile_id[0]) && profile_id.contains(profile_id.last()));
    let own = join_path(base, profile_id);
    assert(own =~= base + seq!['/'] + profile_id);
    assert(join_path(base, profile_id + "/runtime-upper"@) =~= join_path(own, "runtime-upper"@));
    let all = "prefix/drive_c/users/steamuser/Saved Games/CD Projekt Red/Cyberpunk 2077"@;
    let above = join_path(base, profile_id + "/prefix/drive_c/users/steamuser/Saved Games"@);
    let rest = "CD Projekt Red/Cyberpunk 2077"@;
    assert(join_path(own, all) =~= join_path(above, rest));
    lemma_join_parts(above, rest);
    assert(parts(above) =~= parts(join_path(above, rest)).subrange(0, parts(above).len() as int));
    let name = archive_name(formatted(now, "%Y%m%d-%H%M%S"@)->0, label);
    assert(name[0] == formatted(now, "%Y%m%d-%H%M%S"@)->0[0]);
    let dir = plan.directory@;
    assert(dir =~= join_path(paths.data_dir@, "backups"@) + seq!['/'] + profile_id);
    lemma_join_parts(dir, name);
    assert(parts(dir) =~= parts(plan.archive@).subrange(0, parts(dir).len() as int));
}

/// A backup of the saves of Steam, and one of a save set, hold the very directory that
/// they are of, whole, and go where backups of their kind are kept. The twenty newest
/// are kept.
pub proof fn law_save_backups_hold_the_saves(
    plan: BackupPlan,
    paths: AppPaths,
    source: Seq<char>,
    save_set_id: Seq<char>,
    label: Seq<char>,
    now: Timestamp,
)
    ensures
        is_steam_backup(plan, paths, source, label, now) && steam_fault(source, true, now) is None
            ==> plan.members@.len() == 1
            && same_place(join_path(plan.base@, plan.members@[0]@), source)
            && plan.directory@ == join_path(join_path(paths.data_dir@, "backups"@), "steam-saves"@)
            && plan.keep == 20,
        is_save_set_backup(plan, paths, save_set_id, label, now) ==> plan.members@.len() == 1
            && join_path(plan.base@, plan.members@[0]@) == join_path(
            join_path(paths.data_dir@, "save-sets"@),
            save_set_id,
        ) && plan.directory@ == join_path(
            join_path(join_path(paths.data_dir@, "backups"@), "save-sets"@),
            save_set_id,
        ) && plan.keep == 20,
{
    let members = views(plan.members@);
    assert(members.len() == plan.members@.len());
    if members.len() == 1 {
        assert(members[0] == plan.members@[0]@);
    }
    if is_steam_backup(plan, paths, source, label, now) && steam_fault(source, true, now)
        is None {
        law_parent_and_name_make_the_path(source);
    }
}

/// The backups of a profile are listed from the newest to the oldest by their names:
/// each file that ends in `.zst` and has a name before that, once, and no other.
pub proof fn law_backups_are_listed_newest_first(files: Seq<String>, dir: Seq<char>, stem: Seq<char>)
    requires
        dir.len() > 0,
        is_name(stem),
    ensures
        ({
            let shown = sorted::<String, ByPath>(backup_files(files)).reverse();
            &&& forall|i: int, j: int|
                0 <= i < j < shown.len() ==> !path_lt((#[trigger] shown[i])@, (#[trigger] shown[j])@)
            &&& forall|file: String|
                #![trigger shown.contains(file)]
                shown.contains(file) <==> files.contains(file) && path_extension(file@) == Some(
                    "zst"@,
                )
        }),
        is_backup_file(join_path(dir, stem + ".zst"@)),
        !is_backup_file(join_path(dir, stem + ".zip"@)),
{
    broadcast use vstd::seq_lib::group_to_multiset_ensures;

    let kept = backup_files(files);
    let shown = sorted::<String, ByPath>(kept).reverse();
    lemma_sorted::<String, ByPath>(kept);
    lemma_reverse_multiset(sorted::<String, ByPath>(kept));
    let up = sorted::<String, ByPath>(kept);
    assert forall|i: int, j: int| 0 <= i < j < shown.len() implies !path_lt(
        (#[trigger] shown[i])@,
        (#[trigger] shown[j])@,
    ) by {
        assert(shown[i] == up[up.len() - 1 - i] && shown[j] == up[up.len() - 1 - j]);
        assert(!ByPath::lt(up[up.len() - 1 - i], up[up.len() - 1 - j]));
    }
    assert forall|file: String|
        #![trigger shown.contains(file)]
        shown.contains(file) <==> files.contains(file) && path_extension(file@) == Some("zst"@) by {
        let keep = |file: String| is_backup_file(file@);
        assert(shown.contains(file) == (shown.to_multiset().count(file) > 0));
        assert(kept.contains(file) == (kept.to_multiset().count(file) > 0));
        if kept.contains(file) {
            let n = choose|n: int| 0 <= n < kept.len() && kept[n] == file;
            let k = lemma_filtered(files, keep, n);
            assert(files.contains(file));
        }
        if files.contains(file) && keep(file) {
            let k = choose|k: int| 0 <= k < files.len() && files[k] == file;
            files.lemma_filter_contains(keep, k);
        }
    }
    lemma_named(dir, stem, ".zst"@, "zst"@);
    lemma_named(dir, stem, ".zip"@, "zip"@);
    reveal_strlit("zst");
    reveal_strlit("zip");
    assert("zst"@[1] == 's' && "zip"@[1] == 'i');
}

proof fn lemma_named(dir: Seq<char>, stem: Seq<char>, end: Seq<char>, ext: Seq<char>)
    requires
        dir.len() > 0,
        is_name(stem),
        end == ".zst"@ && ext == "zst"@ || end == ".zip"@ && ext == "zip"@,
    ensures
        path_extension(join_path(dir, stem + end)) == Some(ext),
{
    reveal_strlit(".zst");
    reveal_strlit("zst");
    reveal_strlit(".zip");
    reveal_strlit("zip");
    let name = stem + end;
    assert forall|i: int| 0 <= i < name.len() implies name[i] != '/' by {
        if i < stem.len() {
            assert(stem.contains(stem[i]));
        }
    }
    lemma_joined_name(dir, name);
    let n = name.len();
    reveal_with_fuel(last_dot, 5);
    assert(name.drop_last().drop_last().drop_last() =~= stem + seq!['.']);
    assert(name.drop_last().last() == end[2]);
    assert(name.drop_last().drop_last().last() == end[1]);
    assert((stem + seq!['.']).last() == '.');
    assert(last_dot(name) == stem.len());
    assert(name.skip(stem.len() as int + 1) =~= ext);
}

/// A label keeps every ASCII letter and digit in its place and has a hyphen for all else.
pub proof fn law_labels_keep_letters_and_digits(label: Seq<char>, i: int)
    requires
        0 <= i < label.len(),
    ensures
        safe(label).len() == label.len(),
        ({
            let c = label[i];
            let plain = ('a' <= c && c <= 'z') || ('A' <= c && c <= 'Z') || ('0' <= c && c <= '9');
            safe(label)[i] == if plain {
                c
            } else {
                '-'
            }
        }),
{
}

/// Only what is a backup of the application, and of the profile, is restored: an archive is
/// accepted exactly where it is a file below the directory of backups, has an entry, and
/// each of its entries is relative, never goes up, and lies with the profile.
pub proof fn law_only_own_backups_are_restored(facts: RestoreFacts, profile_id: Seq<char>)
    ensures
        restore_fault(facts, profile_id) is None <==> {
            &&& facts.is_file
            &&& parts(facts.backup_root@).is_prefix_of(parts(facts.archive@))
            &&& facts.listing@.len() > 0
            &&& forall|i: int|
                0 <= i < lines(facts.listing@).len() ==> {
                    let entry = #[trigger] lines(facts.listing@)[i];
                    &&& !(entry.len() > 0 && entry[0] == '/')
                    &&& !parts(entry).contains(Part::Parent)
                    &&& parts(profile_id).is_prefix_of(parts(entry))
                }
        },
{
    lemma_all_sound(lines(facts.listing@), profile_id);
}

proof fn lemma_all_sound(entries: Seq<Seq<char>>, profile_id: Seq<char>)
    ensures
        first_fault(entries, profile_id) is None <==> forall|i: int|
            0 <= i < entries.len() ==> entry_fault(#[trigger] entries[i], profile_id) is None,
    decreases entries.len(),
{
    if entries.len() > 0 {
        let rest = entries.drop_first();
        lemma_all_sound(rest, profile_id);
        assert forall|i: int| 0 <= i < rest.len() implies #[trigger] rest[i] == entries[i + 1] by {}
        if first_fault(entries, profile_id) is None {
            assert forall|i: int| 0 <= i < entries.len() implies entry_fault(
                #[trigger] entries[i],
                profile_id,
            ) is None by {
                if i > 0 {
                    assert(rest[i - 1] == entries[i]);
                }
            }
        }
        if forall|i: int|
            0 <= i < entries.len() ==> entry_fault(#[trigger] entries[i], profile_id) is None {
            assert(entry_fault(entries[0], profile_id) is None);
            assert forall|i: int| 0 <= i < rest.len() implies entry_fault(
                #[trigger] rest[i],
                profile_id,
            ) is None by {
                assert(entry_fault(entries[i + 1], profile_id) is None);
            }
        }
    }
}

} // verus!
