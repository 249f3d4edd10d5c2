//! Saves: where they are, how profiles share them, and how they go to Steam and
//! back.
use vstd::prelude::*;

use crate::models::{GameInstall, Profile, SaveSet, Timestamp};
use crate::outside::{common_era, format_moment, formatted, fresh_id, is_figures, uuid_form};
use crate::path::{
    absolute, is_name, join, join_path, lemma_below, lemma_join_parts, lemma_one_piece,
    lemma_same_name, lies_under, option_view, parent, parent_path, parts, same_path, same_place,
};
use crate::paths::AppPaths;
use crate::save_steps::{
    after_failure, all_done, changes, deeds, done, done_before, files_at, first_deeds, is_control,
    just, lemma_goes_on, lemma_step_more, lemma_two_done, or_undo, plan_under, planned,
    push_or_undo, push_step, step_under, transferred, Deed, Held, Planned, SaveAction, SaveStep,
};
use crate::text::{chars_of, has_piece, lower, occurs, same_text, split_on, text_between, to_lower};

verus! {

/// The saves of a profile, below its directory.
pub const SAVE_RELATIVE: &'static str =
    "prefix/drive_c/users/steamuser/Saved Games/CD Projekt Red/Cyberpunk 2077";

/// The file by which Steam controls its cloud.
pub const CONTROL_FILE: &'static str = "steam_autocloud.vdf";

/// What came of sharing saves.
#[derive(Debug)]
pub struct ShareResult {
    pub save_set: SaveSet,
    /// Where the saves are that the target had before.
    pub detached_target: Option<String>,
}

/// What came of a transfer of saves.
#[derive(Debug)]
pub struct TransferResult {
    pub save_slots: usize,
    pub backup: Option<String>,
}

/// The saves of a profile.
pub open spec fn profile_saves(paths: AppPaths, profile_id: Seq<char>) -> Seq<char> {
    join_path(paths.profile_place(profile_id), SAVE_RELATIVE@)
}

/// The saves of a profile.
pub fn profile_save_dir(paths: &AppPaths, profile_id: &str) -> (r: String)
    ensures
        r@ == profile_saves(*paths, profile_id@),
{
    join(&paths.profile_dir(profile_id), SAVE_RELATIVE)
}

/// The saves of a save set.
pub open spec fn managed_saves(paths: AppPaths, save_set_id: Seq<char>) -> Seq<char> {
    join_path(paths.save_set_place(save_set_id), "Cyberpunk 2077"@)
}

/// The saves of a save set.
pub fn managed_save_dir(paths: &AppPaths, save_set_id: &str) -> (r: String)
    ensures
        r@ == managed_saves(*paths, save_set_id@),
{
    join(&paths.save_set_dir(save_set_id), "Cyberpunk 2077")
}

/// The saves of a game at Steam.
pub open spec fn steam_saves(game: GameInstall) -> Seq<char> {
    join_path(
        join_path(game.library@, "steamapps/compatdata/1091500/pfx/drive_c/users/steamuser"@),
        "Saved Games/CD Projekt Red/Cyberpunk 2077"@,
    )
}

/// The saves of a game at Steam.
pub fn steam_save_dir(game: &GameInstall) -> (r: String)
    ensures
        r@ == steam_saves(*game),
{
    join(
        &join(&game.library, "steamapps/compatdata/1091500/pfx/drive_c/users/steamuser"),
        "Saved Games/CD Projekt Red/Cyberpunk 2077",
    )
}

/// What stands in the way of a change of saves.
#[derive(Debug, Clone, Copy, PartialEq, Eq, Structural)]
pub enum SavesFault {
    /// The two profiles are one.
    SameProfile,
    /// The profile is running.
    Running,
    SteamRunning,
    GameRunning,
    /// Steam has no save slots.
    NoSteamSlots,
    /// The profile has no save slots.
    NoProfileSlots,
    /// No save slots were staged.
    NoStagedSlots,
    /// The save set has no directory.
    NoManaged,
    /// There is nothing where a link was expected.
    NoLink,
    /// There are private saves where a link was expected.
    PrivateInPlace,
    /// The link does not lead to the save set.
    ForeignLink,
    /// There is a link where there should be none.
    UnmanagedLink,
    /// An item of a save set is neither a file nor a directory.
    UnsupportedInSet,
    /// An item of a transfer is neither a file nor a directory.
    UnsupportedInTransfer,
    /// There is nothing above the destination.
    NoParent,
    /// The moment is too far away to be written as a date.
    NoDate,
}

/// What stands in the way of a change of saves, and what it is about.
#[derive(Debug)]
pub struct SavesError {
    pub fault: SavesFault,
    /// The name of a profile, or a path.
    pub about: String,
}

/// A fault with what it is about.
pub open spec fn fault_of(error: SavesError) -> (SavesFault, Seq<char>) {
    (error.fault, error.about@)
}

/// A fault in words.
pub open spec fn fault_text(fault: SavesFault, about: Seq<char>) -> Seq<char> {
    match fault {
        SavesFault::SameProfile => "choose two different profiles"@,
        SavesFault::Running => "profile "@ + about
            + " is running; stop it before changing save sharing"@,
        SavesFault::SteamRunning =>
            "exit Steam completely before importing or exporting saves to avoid a Steam Cloud race"@,
        SavesFault::GameRunning => "Cyberpunk is still running; exit it before transferring saves"@,
        SavesFault::NoSteamSlots => "Steam save directory contains no Cyberpunk save slots: "@ + about,
        SavesFault::NoProfileSlots => "profile contains no Cyberpunk save slots: "@ + about,
        SavesFault::NoStagedSlots => "staged transfer contains no Cyberpunk save slots"@,
        SavesFault::NoManaged => "managed save set is missing: "@ + about,
        SavesFault::NoLink => "inspect save link "@ + about,
        SavesFault::PrivateInPlace =>
            "profile has private saves where a managed save link was expected: "@ + about,
        SavesFault::ForeignLink => "profile save link points outside its managed save set: "@ + about,
        SavesFault::UnmanagedLink => "profile save path is already an unmanaged symbolic link"@,
        SavesFault::UnsupportedInSet => "unsupported item in save set: "@ + about,
        SavesFault::UnsupportedInTransfer => "unsupported item in save transfer: "@ + about,
        SavesFault::NoParent => "save destination has no parent"@,
        SavesFault::NoDate => "the moment cannot be written as a date"@,
    }
}

impl SavesError {
    /// What stands in the way, in words.
    pub fn message(&self) -> (r: String)
        ensures
            r@ == fault_text(self.fault, self.about@),
    {
        let about = self.about.as_str();
        match self.fault {
            SavesFault::SameProfile => "choose two different profiles".to_owned(),
            SavesFault::Running => "profile ".to_owned().concat(about).concat(
                " is running; stop it before changing save sharing",
            ),
            SavesFault::SteamRunning =>
                "exit Steam completely before importing or exporting saves to avoid a Steam Cloud race".to_owned(),
            SavesFault::GameRunning =>
                "Cyberpunk is still running; exit it before transferring saves".to_owned(),
            SavesFault::NoSteamSlots =>
                "Steam save directory contains no Cyberpunk save slots: ".to_owned().concat(about),
            SavesFault::NoProfileSlots => "profile contains no Cyberpunk save slots: ".to_owned().concat(
                about,
            ),
            SavesFault::NoStagedSlots => "staged transfer contains no Cyberpunk save slots".to_owned(),
            SavesFault::NoManaged => "managed save set is missing: ".to_owned().concat(about),
            SavesFault::NoLink => "inspect save link ".to_owned().concat(about),
            SavesFault::PrivateInPlace =>
                "profile has private saves where a managed save link was expected: ".to_owned().concat(
                about,
            ),
            SavesFault::ForeignLink =>
                "profile save link points outside its managed save set: ".to_owned().concat(about),
            SavesFault::UnmanagedLink =>
                "profile save path is already an unmanaged symbolic link".to_owned(),
            SavesFault::UnsupportedInSet => "unsupported item in save set: ".to_owned().concat(about),
            SavesFault::UnsupportedInTransfer => "unsupported item in save transfer: ".to_owned().concat(
                about,
            ),
            SavesFault::NoParent => "save destination has no parent".to_owned(),
            SavesFault::NoDate => "the moment cannot be written as a date".to_owned(),
        }
    }
}

fn refuse(fault: SavesFault, about: &str) -> (r: SavesError)
    ensures
        fault_of(r) == (fault, about@),
{
    SavesError { fault, about: about.to_owned() }
}

/// Whether a process is the game: its directory has a number for a name, and its
/// command names the executable of the game in any case of letters.
pub fn is_game_process(name: &str, command: &Option<String>) -> (r: bool)
    ensures
        r == ((forall|i: int| 0 <= i < name@.len() ==> '0' <= #[trigger] name@[i] && name@[i] <= '9')
            && command is Some && occurs(lower(command->0@), "cyberpunk2077.exe"@)),
{
    let chars = chars_of(name);
    let mut i: usize = 0;
    while i < chars.len()
        invariant
            i <= chars@.len(),
            chars@ == name@,
            forall|j: int| 0 <= j < i ==> '0' <= #[trigger] name@[j] && name@[j] <= '9',
        decreases chars@.len() - i,
    {
        if !('0' <= chars[i] && chars[i] <= '9') {
            return false;
        }
        i += 1;
    }
    match command {
        Some(command) => has_piece(&to_lower(command), "cyberpunk2077.exe"),
        None => false,
    }
}

/// What runs at the moment.
pub struct Activity {
    /// Whether the profile is locked.
    pub profile: bool,
    pub steam: bool,
    pub game: bool,
}

/// Why saves cannot be transferred at the moment.
pub open spec fn busy(activity: Activity, name: Seq<char>) -> Option<(SavesFault, Seq<char>)> {
    if activity.profile {
        Some((SavesFault::Running, name))
    } else if activity.steam {
        Some((SavesFault::SteamRunning, name))
    } else if activity.game {
        Some((SavesFault::GameRunning, name))
    } else {
        None
    }
}

/// Whether a profile is not running.
pub fn ensure_profile_idle(profile: &Profile, locked: bool) -> (r: Result<(), SavesError>)
    ensures
        r is Ok <==> !locked,
        r is Err ==> fault_of(r->Err_0) == (SavesFault::Running, profile.name@),
{
    if locked {
        Err(refuse(SavesFault::Running, &profile.name))
    } else {
        Ok(())
    }
}

/// Whether saves can be transferred: neither the profile nor Steam nor the game is
/// running.
pub fn ensure_transfer_idle(profile: &Profile, activity: &Activity) -> (r: Result<(), SavesError>)
    ensures
        match r {
            Ok(_) => busy(*activity, profile.name@) is None,
            Err(error) => busy(*activity, profile.name@) == Some(fault_of(error)),
        },
{
    if let Err(error) = ensure_profile_idle(profile, activity.profile) {
        return Err(error);
    }
    if activity.steam {
        return Err(refuse(SavesFault::SteamRunning, &profile.name));
    }
    if activity.game {
        return Err(refuse(SavesFault::GameRunning, &profile.name));
    }
    Ok(())
}

/// What is found at the path of the saves of a profile.
#[derive(Debug)]
pub enum SavePath {
    Missing,
    /// A file or a directory.
    Private,
    /// A link, and where it leads.
    Link(String),
}

/// Why the saves of a profile are not those of a save set.
pub open spec fn link_fault(at: Seq<char>, managed: Seq<char>, found: SavePath) -> Option<
    (SavesFault, Seq<char>),
> {
    match found {
        SavePath::Missing => Some((SavesFault::NoLink, at)),
        SavePath::Private => Some((SavesFault::PrivateInPlace, at)),
        SavePath::Link(target) => if same_place(target@, managed) {
            None
        } else {
            Some((SavesFault::ForeignLink, target@))
        },
    }
}

/// Whether the saves of a profile are a link to those of a save set.
pub fn ensure_managed_link(at: &str, managed: &str, found: &SavePath) -> (r: Result<(), SavesError>)
    ensures
        match r {
            Ok(_) => link_fault(at@, managed@, *found) is None,
            Err(error) => link_fault(at@, managed@, *found) == Some(fault_of(error)),
        },
{
    match found {
        SavePath::Missing => Err(refuse(SavesFault::NoLink, at)),
        SavePath::Private => Err(refuse(SavesFault::PrivateInPlace, at)),
        SavePath::Link(target) => if same_path(target, managed) {
            Ok(())
        } else {
            Err(refuse(SavesFault::ForeignLink, target))
        },
    }
}

/// Why the saves of a profile cannot be made a link to those of a save set.
pub open spec fn relink_fault(
    at: Seq<char>,
    managed: Seq<char>,
    managed_is_dir: bool,
    found: SavePath,
) -> Option<(SavesFault, Seq<char>)> {
    if !managed_is_dir {
        Some((SavesFault::NoManaged, managed))
    } else if found is Missing {
        None
    } else {
        link_fault(at, managed, found)
    }
}

/// Whether a link has to be made so that a profile has the saves of its save set. It
/// has to where there is nothing yet; a profile without a save set needs none.
pub fn ensure_link(
    paths: &AppPaths,
    profile_id: &str,
    save_set: &Option<SaveSet>,
    managed_is_dir: bool,
    found: &SavePath,
) -> (r: Result<bool, SavesError>)
    ensures
        match *save_set {
            None => r == Ok::<bool, SavesError>(false),
            Some(set) => {
                let fault = relink_fault(
                    profile_saves(*paths, profile_id@),
                    managed_saves(*paths, set.id@),
                    managed_is_dir,
                    *found,
                );
                match r {
                    Ok(make) => fault is None && make == (found is Missing),
                    Err(error) => fault == Some(fault_of(error)),
                }
            },
        },
{
    let set = match save_set {
        Some(set) => set,
        None => return Ok(false),
    };
    let at = profile_save_dir(paths, profile_id);
    let managed = managed_save_dir(paths, &set.id);
    if !managed_is_dir {
        return Err(refuse(SavesFault::NoManaged, &managed));
    }
    if let SavePath::Missing = found {
        return Ok(true);
    }
    match ensure_managed_link(&at, &managed, found) {
        Ok(_) => Ok(false),
        Err(error) => Err(error),
    }
}

/// Whether the saves of a profile may become those of a new save set: they must not
/// be a link.
pub fn ensure_no_link(at: &str, found: &SavePath) -> (r: Result<(), SavesError>)
    ensures
        r is Err <==> found is Link,
        r is Err ==> fault_of(r->Err_0) == (SavesFault::UnmanagedLink, at@),
{
    match found {
        SavePath::Link(_) => Err(refuse(SavesFault::UnmanagedLink, at)),
        _ => Ok(()),
    }
}

/// What a link that cannot be made is reported as.
pub fn link_failed(at: &str, to: &str) -> (r: String)
    ensures
        r@ == "link profile saves "@ + at@ + " to "@ + to@,
{
    "link profile saves ".to_owned().concat(at).concat(" to ").concat(to)
}

/// What an item of a directory is.
#[derive(Debug, Clone, Copy, PartialEq, Eq, Structural)]
pub enum SaveItemKind {
    Directory,
    File,
    Other,
}

/// An item of a directory.
pub struct SaveItem {
    pub name: String,
    pub kind: SaveItemKind,
}

/// Whether an item is a save slot's data.
pub open spec fn is_slot(item: SaveItem) -> bool {
    item.kind == SaveItemKind::File && item.name@ == "sav.dat"@
}

/// The number of save slots among the items of a tree: that of the files named
/// `sav.dat`.
pub fn count_save_slots(items: &Vec<SaveItem>) -> (r: usize)
    ensures
        r == items@.filter(|item: SaveItem| is_slot(item)).len(),
{
    let ghost keep = |item: SaveItem| is_slot(item);
    let mut count: usize = 0;
    let mut i: usize = 0;
    assert(items@.take(0).filter(keep).len() == 0) by {
        reveal(Seq::filter);
    }
    while i < items.len()
        invariant
            i <= items@.len(),
            keep == (|item: SaveItem| is_slot(item)),
            count == items@.take(i as int).filter(keep).len(),
            count <= i,
        decreases items@.len() - i,
    {
        let ghost now = items@.take(i + 1);
        assert(now.drop_last() =~= items@.take(i as int));
        let counts = items[i].kind == SaveItemKind::File && same_text(&items[i].name, "sav.dat");
        assert(counts == keep(now.last()));
        assert(now.filter(keep).len() == items@.take(i as int).filter(keep).len() + if counts {
            1int
        } else {
            0
        }) by {
            reveal(Seq::filter);
        }
        if counts {
            count += 1;
        }
        i += 1;
    }
    assert(items@.take(i as int) =~= items@);
    count
}

/// What is done with an item of a tree that is copied.
#[derive(Debug, Clone, Copy, PartialEq, Eq, Structural)]
pub enum CopyAction {
    Skip,
    Descend,
    Copy,
}

/// What is done with an item of a transfer of saves: directories and files are
/// copied, but for the file by which Steam controls its cloud.
pub fn copy_save_item(item: &SaveItem, path: &str) -> (r: Result<CopyAction, SavesError>)
    ensures
        r is Err <==> item.name@ != CONTROL_FILE@ && item.kind == SaveItemKind::Other,
        r is Err ==> fault_of(r->Err_0) == (SavesFault::UnsupportedInTransfer, path@),
        r is Ok && r->Ok_0 == CopyAction::Skip <==> item.name@ == "steam_autocloud.vdf"@,
        r is Ok ==> r->Ok_0 == if item.name@ == CONTROL_FILE@ {
            CopyAction::Skip
        } else if item.kind == SaveItemKind::Directory {
            CopyAction::Descend
        } else {
            CopyAction::Copy
        },
{
    if same_text(&item.name, CONTROL_FILE) {
        return Ok(CopyAction::Skip);
    }
    match item.kind {
        SaveItemKind::Directory => Ok(CopyAction::Descend),
        SaveItemKind::File => Ok(CopyAction::Copy),
        SaveItemKind::Other => Err(refuse(SavesFault::UnsupportedInTransfer, path)),
    }
}

/// What is done with an item of a save set that is copied.
pub fn copy_item(item: &SaveItem, path: &str) -> (r: Result<CopyAction, SavesError>)
    ensures
        r is Err <==> item.kind == SaveItemKind::Other,
        r is Err ==> fault_of(r->Err_0) == (SavesFault::UnsupportedInSet, path@),
        r is Ok ==> r->Ok_0 == if item.kind == SaveItemKind::Directory {
            CopyAction::Descend
        } else {
            CopyAction::Copy
        },
{
    match item.kind {
        SaveItemKind::Directory => Ok(CopyAction::Descend),
        SaveItemKind::File => Ok(CopyAction::Copy),
        SaveItemKind::Other => Err(refuse(SavesFault::UnsupportedInSet, path)),
    }
}

/// Whether saves that were staged hold a save slot.
pub fn ensure_staged(staging: &str, slots: usize) -> (r: Result<(), SavesError>)
    ensures
        r is Ok <==> slots > 0,
        r is Err ==> fault_of(r->Err_0) == (SavesFault::NoStagedSlots, staging@),
{
    if slots > 0 {
        Ok(())
    } else {
        Err(refuse(SavesFault::NoStagedSlots, staging))
    }
}

/// The name of a new save set of a profile.
pub open spec fn save_set_name(name: Seq<char>, id: Seq<char>) -> Seq<char> {
    name + " modded saves ("@ + id.take(8) + ")"@
}

fn new_save_set(id: &str, profile: &Profile, now: Timestamp) -> (r: SaveSet)
    requires
        id@.len() >= 8,
    ensures
        r.id@ == id@,
        r.name@ == save_set_name(profile.name@, id@),
        r.created_at == now,
{
    let chars = chars_of(id);
    let short = text_between(&chars, 0, 8);
    assert(short@ =~= id@.take(8));
    SaveSet {
        id: id.to_owned(),
        name: profile.name.clone().concat(" modded saves (").concat(&short).concat(")"),
        created_at: now,
    }
}

/// The steps by which the saves of a profile become those of a new save set. A link
/// is left in their place.
pub open spec fn creation(
    paths: AppPaths,
    profile_id: Seq<char>,
    save_set_id: Seq<char>,
    had_saves: bool,
) -> Seq<Planned> {
    let own = profile_saves(paths, profile_id);
    let managed = managed_saves(paths, save_set_id);
    let back = if had_saves {
        seq![Deed::Move { from: managed, to: own }]
    } else {
        Seq::empty()
    };
    seq![
        just(Deed::CheckNoLink { at: own }),
        just(Deed::MakeDir { at: paths.save_set_place(save_set_id) }),
        if had_saves {
            or_undo(
                Deed::Move { from: own, to: managed },
                Seq::empty(),
                Some("move private saves into managed save set"@),
            )
        } else {
            just(Deed::MakeDir { at: managed })
        },
        or_undo(Deed::Link { at: own, to: managed }, back, None),
        or_undo(
            Deed::RecordSet { save_set_id, profile_id },
            seq![Deed::RemoveFile { at: own }] + back,
            Some("record managed save set"@),
        ),
    ]
}

fn moves_back(had_saves: bool, from: &str, to: &str) -> (r: Vec<SaveAction>)
    ensures
        deeds(r@) == if had_saves {
            seq![Deed::Move { from: from@, to: to@ }]
        } else {
            Seq::empty()
        },
{
    let mut r: Vec<SaveAction> = Vec::new();
    if had_saves {
        r.push(SaveAction::Move { from: from.to_owned(), to: to.to_owned() });
        assert(deeds(r@) =~= seq![Deed::Move { from: from@, to: to@ }]);
    } else {
        assert(deeds(r@) =~= Seq::<Deed>::empty());
    }
    r
}

fn unlinks_and_moves_back(link: &str, had_saves: bool, from: &str) -> (r: Vec<SaveAction>)
    ensures
        deeds(r@) == seq![Deed::RemoveFile { at: link@ }] + if had_saves {
            seq![Deed::Move { from: from@, to: link@ }]
        } else {
            Seq::empty()
        },
{
    let mut r: Vec<SaveAction> = Vec::new();
    r.push(SaveAction::RemoveFile { at: link.to_owned() });
    if had_saves {
        r.push(SaveAction::Move { from: from.to_owned(), to: link.to_owned() });
    }
    assert(deeds(r@) =~= seq![Deed::RemoveFile { at: link@ }] + if had_saves {
        seq![Deed::Move { from: from@, to: link@ }]
    } else {
        Seq::empty()
    });
    r
}

fn push_creation(
    list: &mut Vec<SaveStep>,
    paths: &AppPaths,
    profile_id: &str,
    save_set_id: &str,
    had_saves: bool,
)
    ensures
        planned(final(list)@) == planned(old(list)@) + creation(
            *paths,
            profile_id@,
            save_set_id@,
            had_saves,
        ),
{
    let ghost start = planned(list@);
    let own = profile_save_dir(paths, profile_id);
    let managed = managed_save_dir(paths, save_set_id);
    push_step(list, SaveAction::CheckNoLink { at: own.clone() });
    push_step(list, SaveAction::MakeDir { at: paths.save_set_dir(save_set_id) });
    if had_saves {
        let none: Vec<SaveAction> = Vec::new();
        assert(deeds(none@) =~= Seq::<Deed>::empty());
        push_or_undo(
            list,
            SaveAction::Move { from: own.clone(), to: managed.clone() },
            none,
            Some("move private saves into managed save set".to_owned()),
        );
    } else {
        push_step(list, SaveAction::MakeDir { at: managed.clone() });
    }
    push_or_undo(
        list,
        SaveAction::Link { at: own.clone(), to: managed.clone() },
        moves_back(had_saves, &managed, &own),
        None,
    );
    push_or_undo(
        list,
        SaveAction::RecordSet {
            save_set_id: save_set_id.to_owned(),
            profile_id: profile_id.to_owned(),
        },
        unlinks_and_moves_back(&own, had_saves, &managed),
        Some("record managed save set".to_owned()),
    );
    assert(planned(list@) =~= start + creation(*paths, profile_id@, save_set_id@, had_saves));
}

/// Where the saves of a profile go when it is given those of a save set.
pub open spec fn detached_place(paths: AppPaths, profile_id: Seq<char>, moment: Seq<char>) -> Seq<
    char,
> {
    join_path(join_path(paths.profile_place(profile_id), "detached-saves"@), moment)
}

/// The steps by which the path of the saves of a profile is made free: a link goes,
/// private saves are moved away, to where `detached` says.
pub open spec fn detachment(
    paths: AppPaths,
    profile_id: Seq<char>,
    found: SavePath,
    detached: Seq<char>,
) -> Seq<Planned> {
    let own = profile_saves(paths, profile_id);
    match found {
        SavePath::Missing => Seq::empty(),
        SavePath::Link(_) => seq![just(Deed::RemoveFile { at: own })],
        SavePath::Private => seq![
            just(
                Deed::MakeDir {
                    at: join_path(paths.profile_place(profile_id), "detached-saves"@),
                },
            ),
            just(Deed::Move { from: own, to: detached }),
        ],
    }
}

fn push_detachment(
    list: &mut Vec<SaveStep>,
    paths: &AppPaths,
    profile_id: &str,
    found: &SavePath,
    detached: &str,
)
    ensures
        planned(final(list)@) == planned(old(list)@) + detachment(
            *paths,
            profile_id@,
            *found,
            detached@,
        ),
{
    let ghost start = planned(list@);
    let own = profile_save_dir(paths, profile_id);
    match found {
        SavePath::Missing => {},
        SavePath::Link(_) => {
            push_step(list, SaveAction::RemoveFile { at: own });
        },
        SavePath::Private => {
            push_step(
                list,
                SaveAction::MakeDir { at: join(&paths.profile_dir(profile_id), "detached-saves") },
            );
            push_step(list, SaveAction::Move { from: own, to: detached.to_owned() });
        },
    }
    assert(planned(list@) =~= start + detachment(*paths, profile_id@, *found, detached@));
}

/// What is known of two profiles that are to share saves.
pub struct ShareFacts {
    /// Whether the profile whose saves are shared is running.
    pub source_locked: bool,
    /// Whether the profile that is given the saves is running.
    pub target_locked: bool,
    pub source_set: Option<SaveSet>,
    pub target_set: Option<SaveSet>,
    /// Whether there are saves at the path of the first profile.
    pub source_has_saves: bool,
    /// What is found at the path of the saves of the second profile.
    pub target_path: SavePath,
}

/// The save set that two profiles share: that of the first, or a new one.
pub open spec fn shared_set(facts: ShareFacts, id: Seq<char>) -> Seq<char> {
    match facts.source_set {
        Some(set) => set.id@,
        None => id,
    }
}

/// Whether the second profile has the save set of the first already.
pub open spec fn shares_already(facts: ShareFacts, id: Seq<char>) -> bool {
    facts.target_set is Some && facts.target_set->0.id@ == shared_set(facts, id)
}

/// Why two profiles cannot share saves.
pub open spec fn share_fault(
    source: Profile,
    target: Profile,
    facts: ShareFacts,
    id: Seq<char>,
    now: Timestamp,
) -> Option<(SavesFault, Seq<char>)> {
    if source.id@ == target.id@ {
        Some((SavesFault::SameProfile, source.id@))
    } else if facts.source_locked {
        Some((SavesFault::Running, source.name@))
    } else if facts.target_locked {
        Some((SavesFault::Running, target.name@))
    } else if !shares_already(facts, id) && facts.target_path is Private && formatted(
        now,
        "%Y%m%d-%H%M%S%.3f"@,
    ) is None {
        Some((SavesFault::NoDate, target.name@))
    } else {
        None
    }
}

/// Where the private saves of the second profile go.
pub open spec fn detached_saves(
    paths: AppPaths,
    target: Profile,
    facts: ShareFacts,
    id: Seq<char>,
    now: Timestamp,
) -> Option<Seq<char>> {
    if !shares_already(facts, id) && facts.target_path is Private {
        Some(detached_place(paths, target.id@, formatted(now, "%Y%m%d-%H%M%S%.3f"@)->0))
    } else {
        None
    }
}

/// The steps by which the second profile is given the saves of a save set that it
/// does not have.
pub open spec fn attachment(
    paths: AppPaths,
    target: Profile,
    facts: ShareFacts,
    save_set_id: Seq<char>,
    detached: Option<Seq<char>>,
) -> Seq<Planned> {
    let own = profile_saves(paths, target.id@);
    (match facts.target_set {
        Some(current) => seq![
            just(Deed::BackupSet { save_set_id: current.id@, label: "before-reassign"@ }),
        ],
        None => Seq::empty(),
    }) + detachment(
        paths,
        target.id@,
        facts.target_path,
        match detached {
            Some(place) => place,
            None => Seq::empty(),
        },
    ) + seq![
        just(Deed::Link { at: own, to: managed_saves(paths, save_set_id) }),
        or_undo(
            Deed::Attach { profile_id: target.id@, save_set_id },
            seq![Deed::RemoveFile { at: own }] + match detached {
                Some(place) => seq![Deed::Move { from: place, to: own }],
                None => Seq::empty(),
            },
            Some("record shared save set for target profile"@),
        ),
    ]
}

/// The steps by which two profiles come to share saves. Both are backed up before
/// anything else.
pub open spec fn sharing(
    paths: AppPaths,
    source: Profile,
    target: Profile,
    facts: ShareFacts,
    id: Seq<char>,
    now: Timestamp,
) -> Seq<Planned> {
    let save_set_id = shared_set(facts, id);
    seq![
        just(Deed::BackupProfile { profile_id: source.id@, label: "before-save-sharing"@ }),
        just(Deed::BackupProfile { profile_id: target.id@, label: "before-save-sharing"@ }),
    ] + (match facts.source_set {
        Some(_) => seq![just(Deed::EnsureLink { profile_id: source.id@ })],
        None => creation(paths, source.id@, id, facts.source_has_saves),
    }) + seq![just(Deed::BackupSet { save_set_id, label: "before-attach"@ })] + if shares_already(
        facts,
        id,
    ) {
        seq![just(Deed::EnsureLink { profile_id: target.id@ })]
    } else {
        attachment(
            paths,
            target,
            facts,
            save_set_id,
            detached_saves(paths, target, facts, id, now),
        )
    }
}

fn push_attachment(
    list: &mut Vec<SaveStep>,
    paths: &AppPaths,
    target: &Profile,
    facts: &ShareFacts,
    save_set_id: &str,
    detached: &Option<String>,
)
    ensures
        planned(final(list)@) == planned(old(list)@) + attachment(
            *paths,
            *target,
            *facts,
            save_set_id@,
            option_view(*detached),
        ),
{
    let ghost start = planned(list@);
    let own = profile_save_dir(paths, &target.id);
    if let Some(current) = &facts.target_set {
        push_step(
            list,
            SaveAction::BackupSet {
                save_set_id: current.id.clone(),
                label: "before-reassign".to_owned(),
            },
        );
    }
    let none = String::new();
    assert(none@ =~= Seq::<char>::empty());
    let place = match detached {
        Some(place) => place,
        None => &none,
    };
    push_detachment(list, paths, &target.id, &facts.target_path, place);
    push_step(
        list,
        SaveAction::Link { at: own.clone(), to: managed_save_dir(paths, save_set_id) },
    );
    push_or_undo(
        list,
        SaveAction::Attach {
            profile_id: target.id.clone(),
            save_set_id: save_set_id.to_owned(),
        },
        unlinks_and_moves_back(&own, detached.is_some(), place),
        Some("record shared save set for target profile".to_owned()),
    );
    assert(planned(list@) =~= start + attachment(
        *paths,
        *target,
        *facts,
        save_set_id@,
        option_view(*detached),
    ));
}

/// Plans the sharing of saves, with the id of the save set that is made where the
/// first profile has none.
pub fn share_with_id(
    id: &str,
    paths: &AppPaths,
    source: &Profile,
    target: &Profile,
    facts: &ShareFacts,
    now: Timestamp,
) -> (r: Result<(ShareResult, Vec<SaveStep>), SavesError>)
    requires
        id@.len() >= 8,
    ensures
        match r {
            Ok((result, steps)) => {
                &&& share_fault(*source, *target, *facts, id@, now) is None
                &&& planned(steps@) == sharing(*paths, *source, *target, *facts, id@, now)
                &&& option_view(result.detached_target) == detached_saves(
                    *paths,
                    *target,
                    *facts,
                    id@,
                    now,
                )
                &&& result.detached_target is Some ==> is_figures(
                    formatted(now, "%Y%m%d-%H%M%S%.3f"@)->0,
                )
                &&& match facts.source_set {
                    Some(set) => result.save_set.id@ == set.id@ && result.save_set.name@ == set.name@
                        && result.save_set.created_at == set.created_at,
                    None => result.save_set.id@ == id@ && result.save_set.name@ == save_set_name(
                        source.name@,
                        id@,
                    ) && result.save_set.created_at == now,
                }
            },
            Err(error) => share_fault(*source, *target, *facts, id@, now) == Some(fault_of(error)),
        },
        common_era(now) && source.id@ != target.id@ && !facts.source_locked && !facts.target_locked
            ==> r is Ok,
{
    if same_text(&source.id, &target.id) {
        return Err(refuse(SavesFault::SameProfile, &source.id));
    }
    if let Err(error) = ensure_profile_idle(source, facts.source_locked) {
        return Err(error);
    }
    if let Err(error) = ensure_profile_idle(target, facts.target_locked) {
        return Err(error);
    }
    let save_set = match &facts.source_set {
        Some(set) => SaveSet {
            id: set.id.clone(),
            name: set.name.clone(),
            created_at: set.created_at,
        },
        None => new_save_set(id, source, now),
    };
    let already = match &facts.target_set {
        Some(current) => same_text(&current.id, &save_set.id),
        None => false,
    };
    let private = match facts.target_path {
        SavePath::Private => true,
        _ => false,
    };
    let detached: Option<String> = if !already && private {
        match format_moment(now, "%Y%m%d-%H%M%S%.3f") {
            Some(moment) => Some(
                join(&join(&paths.profile_dir(&target.id), "detached-saves"), &moment),
            ),
            None => return Err(refuse(SavesFault::NoDate, &target.name)),
        }
    } else {
        None
    };
    let mut steps: Vec<SaveStep> = Vec::new();
    push_step(
        &mut steps,
        SaveAction::BackupProfile {
            profile_id: source.id.clone(),
            label: "before-save-sharing".to_owned(),
        },
    );
    push_step(
        &mut steps,
        SaveAction::BackupProfile {
            profile_id: target.id.clone(),
            label: "before-save-sharing".to_owned(),
        },
    );
    match &facts.source_set {
        Some(_) => push_step(&mut steps, SaveAction::EnsureLink { profile_id: source.id.clone() }),
        None => push_creation(&mut steps, paths, &source.id, id, facts.source_has_saves),
    }
    push_step(
        &mut steps,
        SaveAction::BackupSet {
            save_set_id: save_set.id.clone(),
            label: "before-attach".to_owned(),
        },
    );
    if already {
        push_step(&mut steps, SaveAction::EnsureLink { profile_id: target.id.clone() });
    } else {
        push_attachment(&mut steps, paths, target, facts, &save_set.id, &detached);
    }
    assert(planned(steps@) =~= sharing(*paths, *source, *target, *facts, id@, now));
    Ok((ShareResult { save_set, detached_target: detached }, steps))
}

/// Plans the sharing of saves. The second profile is given those of the first, and
/// what it had itself is kept.
pub fn share(
    paths: &AppPaths,
    source: &Profile,
    target: &Profile,
    facts: &ShareFacts,
    now: Timestamp,
) -> (r: Result<(ShareResult, Vec<SaveStep>), SavesError>)
    ensures
        match r {
            Ok((result, steps)) => {
                let id = result.save_set.id@;
                &&& share_fault(*source, *target, *facts, id, now) is None
                &&& planned(steps@) == sharing(*paths, *source, *target, *facts, id, now)
                &&& option_view(result.detached_target) == detached_saves(
                    *paths,
                    *target,
                    *facts,
                    id,
                    now,
                )
                &&& result.detached_target is Some ==> is_figures(
                    formatted(now, "%Y%m%d-%H%M%S%.3f"@)->0,
                )
                &&& match facts.source_set {
                    Some(set) => id == set.id@ && result.save_set.name@ == set.name@
                        && result.save_set.created_at == set.created_at,
                    None => uuid_form(id) && result.save_set.name@ == save_set_name(source.name@, id)
                        && result.save_set.created_at == now,
                }
            },
            Err(error) => exists|id: Seq<char>| #[trigger]
                uuid_form(id) && share_fault(*source, *target, *facts, id, now) == Some(
                    fault_of(error),
                ),
        },
        common_era(now) && source.id@ != target.id@ && !facts.source_locked && !facts.target_locked
            ==> r is Ok,
{
    let id = fresh_id();
    assert(uuid_form(id@));
    share_with_id(&id, paths, source, target, facts, now)
}

/// The steps by which a profile is given a copy of its own of the saves that it
/// shares.
pub open spec fn privatization(paths: AppPaths, profile_id: Seq<char>, save_set_id: Seq<char>) -> Seq<
    Planned,
> {
    let own = profile_saves(paths, profile_id);
    let managed = managed_saves(paths, save_set_id);
    let back = seq![Deed::RemoveTree { at: own }, Deed::Link { at: own, to: managed }];
    seq![
        just(Deed::BackupSet { save_set_id, label: "before-detach"@ }),
        just(Deed::BackupProfile { profile_id, label: "before-save-detach"@ }),
        just(Deed::CheckLink { at: own, to: managed }),
        just(Deed::RemoveFile { at: own }),
        or_undo(
            Deed::CopyTree { from: managed, to: own },
            back,
            Some("copy shared saves into private profile storage"@),
        ),
        or_undo(Deed::Detach { profile_id }, back, Some("detach save set from profile"@)),
    ]
}

fn relinks(own: &str, managed: &str) -> (r: Vec<SaveAction>)
    ensures
        deeds(r@) == seq![
            Deed::RemoveTree { at: own@ },
            Deed::Link { at: own@, to: managed@ },
        ],
{
    let mut r: Vec<SaveAction> = Vec::new();
    r.push(SaveAction::RemoveTree { at: own.to_owned() });
    r.push(SaveAction::Link { at: own.to_owned(), to: managed.to_owned() });
    assert(deeds(r@) =~= seq![
        Deed::RemoveTree { at: own@ },
        Deed::Link { at: own@, to: managed@ },
    ]);
    r
}

/// Plans how a profile gets saves of its own. `None` where it has no save set and so
/// has them already.
pub fn make_private(
    paths: &AppPaths,
    profile: &Profile,
    locked: bool,
    save_set: &Option<SaveSet>,
) -> (r: Result<Option<Vec<SaveStep>>, SavesError>)
    ensures
        match r {
            Ok(plan) => !locked && match *save_set {
                Some(set) => plan is Some && planned(plan->0@) == privatization(
                    *paths,
                    profile.id@,
                    set.id@,
                ),
                None => plan is None,
            },
            Err(error) => locked && fault_of(error) == (SavesFault::Running, profile.name@),
        },
{
    if let Err(error) = ensure_profile_idle(profile, locked) {
        return Err(error);
    }
    let set = match save_set {
        Some(set) => set,
        None => return Ok(None),
    };
    let own = profile_save_dir(paths, &profile.id);
    let managed = managed_save_dir(paths, &set.id);
    let mut steps: Vec<SaveStep> = Vec::new();
    push_step(
        &mut steps,
        SaveAction::BackupSet { save_set_id: set.id.clone(), label: "before-detach".to_owned() },
    );
    push_step(
        &mut steps,
        SaveAction::BackupProfile {
            profile_id: profile.id.clone(),
            label: "before-save-detach".to_owned(),
        },
    );
    push_step(&mut steps, SaveAction::CheckLink { at: own.clone(), to: managed.clone() });
    push_step(&mut steps, SaveAction::RemoveFile { at: own.clone() });
    push_or_undo(
        &mut steps,
        SaveAction::CopyTree { from: managed.clone(), to: own.clone() },
        relinks(&own, &managed),
        Some("copy shared saves into private profile storage".to_owned()),
    );
    push_or_undo(
        &mut steps,
        SaveAction::Detach { profile_id: profile.id.clone() },
        relinks(&own, &managed),
        Some("detach save set from profile".to_owned()),
    );
    assert(planned(steps@) =~= privatization(*paths, profile.id@, set.id@));
    Ok(Some(steps))
}

/// The saves that a profile plays with: those of its save set, or its own.
pub open spec fn saves_in_use(paths: AppPaths, profile_id: Seq<char>, save_set: Option<SaveSet>) -> Seq<
    char,
> {
    match save_set {
        Some(set) => managed_saves(paths, set.id@),
        None => profile_saves(paths, profile_id),
    }
}

fn save_dir_in_use(paths: &AppPaths, profile_id: &str, save_set: &Option<SaveSet>) -> (r: String)
    ensures
        r@ == saves_in_use(*paths, profile_id@, *save_set),
{
    match save_set {
        Some(set) => managed_save_dir(paths, &set.id),
        None => profile_save_dir(paths, profile_id),
    }
}

/// The steps by which the saves of Steam become those of a profile.
pub open spec fn importing(
    paths: AppPaths,
    profile_id: Seq<char>,
    game: GameInstall,
    save_set: Option<SaveSet>,
) -> Seq<Planned> {
    (match save_set {
        Some(set) => seq![
            just(Deed::EnsureLink { profile_id }),
            just(Deed::BackupSet { save_set_id: set.id@, label: "before-steam-import"@ }),
        ],
        None => seq![just(Deed::BackupProfile { profile_id, label: "before-steam-import"@ })],
    }) + seq![
        just(
            Deed::ReplaceTree {
                from: steam_saves(game),
                to: saves_in_use(paths, profile_id, save_set),
                keep_control: false,
            },
        ),
    ]
}

/// Plans how the saves of Steam become those of a profile, by the number of save
/// slots that Steam has.
pub fn import_from_steam(
    paths: &AppPaths,
    profile: &Profile,
    game: &GameInstall,
    activity: &Activity,
    save_set: &Option<SaveSet>,
    save_slots: usize,
) -> (r: Result<Vec<SaveStep>, SavesError>)
    ensures
        ({
            let fault = if busy(*activity, profile.name@) is Some {
                busy(*activity, profile.name@)
            } else if save_slots == 0 {
                Some((SavesFault::NoSteamSlots, steam_saves(*game)))
            } else {
                None
            };
            match r {
                Ok(steps) => fault is None && planned(steps@) == importing(
                    *paths,
                    profile.id@,
                    *game,
                    *save_set,
                ),
                Err(error) => fault == Some(fault_of(error)),
            }
        }),
{
    if let Err(error) = ensure_transfer_idle(profile, activity) {
        return Err(error);
    }
    let source = steam_save_dir(game);
    if save_slots == 0 {
        return Err(refuse(SavesFault::NoSteamSlots, &source));
    }
    let mut steps: Vec<SaveStep> = Vec::new();
    match save_set {
        Some(set) => {
            push_step(&mut steps, SaveAction::EnsureLink { profile_id: profile.id.clone() });
            push_step(
                &mut steps,
                SaveAction::BackupSet {
                    save_set_id: set.id.clone(),
                    label: "before-steam-import".to_owned(),
                },
            );
        },
        None => push_step(
            &mut steps,
            SaveAction::BackupProfile {
                profile_id: profile.id.clone(),
                label: "before-steam-import".to_owned(),
            },
        ),
    }
    push_step(
        &mut steps,
        SaveAction::ReplaceTree {
            from: source,
            to: save_dir_in_use(paths, &profile.id, save_set),
            keep_control: false,
        },
    );
    assert(planned(steps@) =~= importing(*paths, profile.id@, *game, *save_set));
    Ok(steps)
}

/// What is done before the saves of a profile are counted that go to Steam, and where
/// they are.
pub fn export_start(
    paths: &AppPaths,
    profile: &Profile,
    activity: &Activity,
    save_set: &Option<SaveSet>,
) -> (r: Result<(String, Vec<SaveStep>), SavesError>)
    ensures
        match r {
            Ok((source, steps)) => {
                &&& busy(*activity, profile.name@) is None
                &&& source@ == saves_in_use(*paths, profile.id@, *save_set)
                &&& planned(steps@) == match *save_set {
                    Some(_) => seq![just(Deed::EnsureLink { profile_id: profile.id@ })],
                    None => Seq::empty(),
                }
            },
            Err(error) => busy(*activity, profile.name@) == Some(fault_of(error)),
        },
{
    if let Err(error) = ensure_transfer_idle(profile, activity) {
        return Err(error);
    }
    let mut steps: Vec<SaveStep> = Vec::new();
    assert(planned(steps@) =~= Seq::<Planned>::empty());
    if save_set.is_some() {
        push_step(&mut steps, SaveAction::EnsureLink { profile_id: profile.id.clone() });
    }
    assert(planned(steps@) =~= match *save_set {
        Some(_) => seq![just(Deed::EnsureLink { profile_id: profile.id@ })],
        None => Seq::empty(),
    });
    Ok((save_dir_in_use(paths, &profile.id, save_set), steps))
}

/// The steps by which the saves of a profile become those of Steam.
pub open spec fn exporting(source: Seq<char>, game: GameInstall, steam_is_dir: bool) -> Seq<Planned> {
    (if steam_is_dir {
        seq![
            just(Deed::BackupSteam { source: steam_saves(game), label: "before-profile-export"@ }),
        ]
    } else {
        Seq::empty()
    }) + seq![
        just(Deed::ReplaceTree { from: source, to: steam_saves(game), keep_control: true }),
    ]
}

/// Plans how saves become those of Steam, by the number of save slots that they have.
/// A flag tells whether Steam has a directory of saves.
pub fn export_to_steam(source: &str, game: &GameInstall, save_slots: usize, steam_is_dir: bool) -> (r:
    Result<Vec<SaveStep>, SavesError>)
    ensures
        match r {
            Ok(steps) => save_slots > 0 && planned(steps@) == exporting(source@, *game, steam_is_dir),
            Err(error) => save_slots == 0 && fault_of(error) == (SavesFault::NoProfileSlots, source@),
        },
{
    if save_slots == 0 {
        return Err(refuse(SavesFault::NoProfileSlots, source));
    }
    let mut steps: Vec<SaveStep> = Vec::new();
    let target = steam_save_dir(game);
    if steam_is_dir {
        push_step(
            &mut steps,
            SaveAction::BackupSteam {
                source: target.clone(),
                label: "before-profile-export".to_owned(),
            },
        );
    }
    push_step(
        &mut steps,
        SaveAction::ReplaceTree { from: source.to_owned(), to: target, keep_control: true },
    );
    assert(planned(steps@) =~= exporting(source@, *game, steam_is_dir));
    Ok(steps)
}

/// What is found at the place that saves are put at.
pub struct DestinationFacts {
    /// Whether anything is there.
    pub exists: bool,
    /// Whether it is a link.
    pub is_link: bool,
    /// Whether it holds the file by which Steam controls its cloud.
    pub has_control: bool,
}

/// Where saves are staged, and where those go that they replace: beside them, under
/// names of their own.
pub open spec fn beside(destination: Seq<char>, mark: Seq<char>, id: Seq<char>) -> Seq<char> {
    join_path(parent_path(destination)->0, mark + id)
}

/// The steps by which saves are put in the place of others. They are copied to a
/// place beside it first, so that the old ones go only when the new ones are there.
pub open spec fn replacing(
    source: Seq<char>,
    destination: Seq<char>,
    keep_control: bool,
    facts: DestinationFacts,
    id: Seq<char>,
) -> Seq<Planned> {
    let staging = beside(destination, ".cp2077-mod-tui-stage-"@, id);
    let parked = beside(destination, ".cp2077-mod-tui-replaced-"@, id);
    seq![
        just(Deed::MakeDir { at: parent_path(destination)->0 }),
        or_undo(
            Deed::CopySaves { from: source, to: staging },
            seq![Deed::RemoveTree { at: staging }],
            Some("stage save transfer"@),
        ),
        just(Deed::CheckSlots { at: staging }),
    ] + (if facts.exists {
        seq![
            or_undo(
                Deed::Move { from: destination, to: parked },
                Seq::empty(),
                Some("park existing save directory"@),
            ),
        ]
    } else {
        Seq::empty()
    }) + seq![
        or_undo(
            Deed::Move { from: staging, to: destination },
            (if facts.exists {
                seq![Deed::Move { from: parked, to: destination }]
            } else {
                Seq::empty()
            }) + seq![Deed::RemoveTree { at: staging }],
            Some("activate transferred save directory"@),
        ),
    ] + (if facts.exists && keep_control && facts.has_control {
        seq![
            just(Deed::MoveFile { name: CONTROL_FILE@, from: parked, to: destination }),
        ]
    } else {
        Seq::empty()
    }) + (if !facts.exists {
        Seq::empty()
    } else if facts.is_link {
        seq![just(Deed::RemoveFile { at: parked })]
    } else {
        seq![just(Deed::RemoveTree { at: parked })]
    })
}

fn moves_back_and_clears(had: bool, parked: &str, destination: &str, staging: &str) -> (r: Vec<
    SaveAction,
>)
    ensures
        deeds(r@) == (if had {
            seq![Deed::Move { from: parked@, to: destination@ }]
        } else {
            Seq::empty()
        }) + seq![Deed::RemoveTree { at: staging@ }],
{
    let mut r = moves_back(had, parked, destination);
    let ghost had_deeds = deeds(r@);
    r.push(SaveAction::RemoveTree { at: staging.to_owned() });
    assert(deeds(r@) =~= had_deeds + seq![Deed::RemoveTree { at: staging@ }]);
    r
}

/// Plans how saves are put in the place of others, with the id that the names of the
/// places beside it end with.
pub fn replace_with_id(
    id: &str,
    source: &str,
    destination: &str,
    keep_control: bool,
    facts: &DestinationFacts,
) -> (r: Result<Vec<SaveStep>, SavesError>)
    ensures
        match r {
            Ok(steps) => parent_path(destination@) is Some && planned(steps@) == replacing(
                source@,
                destination@,
                keep_control,
                *facts,
                id@,
            ),
            Err(error) => parent_path(destination@) is None && fault_of(error) == (
                SavesFault::NoParent,
                destination@,
            ),
        },
{
    let above = match parent(destination) {
        Some(above) => above,
        None => return Err(refuse(SavesFault::NoParent, destination)),
    };
    let staging = join(&above, &".cp2077-mod-tui-stage-".to_owned().concat(id));
    let parked = join(&above, &".cp2077-mod-tui-replaced-".to_owned().concat(id));
    let mut clear: Vec<SaveAction> = Vec::new();
    clear.push(SaveAction::RemoveTree { at: staging.clone() });
    assert(deeds(clear@) =~= seq![Deed::RemoveTree { at: staging@ }]);
    let mut steps: Vec<SaveStep> = Vec::new();
    push_step(&mut steps, SaveAction::MakeDir { at: above });
    push_or_undo(
        &mut steps,
        SaveAction::CopySaves { from: source.to_owned(), to: staging.clone() },
        clear,
        Some("stage save transfer".to_owned()),
    );
    push_step(&mut steps, SaveAction::CheckSlots { at: staging.clone() });
    if facts.exists {
        let none: Vec<SaveAction> = Vec::new();
        assert(deeds(none@) =~= Seq::<Deed>::empty());
        push_or_undo(
            &mut steps,
            SaveAction::Move { from: destination.to_owned(), to: parked.clone() },
            none,
            Some("park existing save directory".to_owned()),
        );
    }
    push_or_undo(
        &mut steps,
        SaveAction::Move { from: staging.clone(), to: destination.to_owned() },
        moves_back_and_clears(facts.exists, &parked, destination, &staging),
        Some("activate transferred save directory".to_owned()),
    );
    if facts.exists && keep_control && facts.has_control {
        push_step(
            &mut steps,
            SaveAction::MoveFile {
                name: CONTROL_FILE.to_owned(),
                from: parked.clone(),
                to: destination.to_owned(),
            },
        );
    }
    if facts.exists {
        if facts.is_link {
            push_step(&mut steps, SaveAction::RemoveFile { at: parked.clone() });
        } else {
            push_step(&mut steps, SaveAction::RemoveTree { at: parked.clone() });
        }
    }
    assert(planned(steps@) =~= replacing(source@, destination@, keep_control, *facts, id@));
    Ok(steps)
}

/// Plans how saves are put in the place of others, under fresh names beside it.
pub fn replace_save_tree(
    source: &str,
    destination: &str,
    keep_control: bool,
    facts: &DestinationFacts,
) -> (r: Result<Vec<SaveStep>, SavesError>)
    ensures
        match r {
            Ok(steps) => parent_path(destination@) is Some && exists|id: Seq<char>| #[trigger]
                uuid_form(id) && planned(steps@) == replacing(
                    source@,
                    destination@,
                    keep_control,
                    *facts,
                    id,
                ),
            Err(error) => parent_path(destination@) is None && fault_of(error) == (
                SavesFault::NoParent,
                destination@,
            ),
        },
{
    let id = fresh_id();
    assert(uuid_form(id@));
    replace_with_id(&id, source, destination, keep_control, facts)
}

/// The places that a profile and a save set have.
pub struct Places {
    pub own: Seq<char>,
    pub above_detached: Seq<char>,
    pub detached: Seq<char>,
    pub managed: Seq<char>,
    pub above_managed: Seq<char>,
}

/// The places that a profile and a save set have, where the saves of the profile are
/// moved away at a moment.
pub open spec fn places_of(
    paths: AppPaths,
    profile_id: Seq<char>,
    save_set_id: Seq<char>,
    moment: Seq<char>,
) -> Places {
    Places {
        own: profile_saves(paths, profile_id),
        above_detached: join_path(paths.profile_place(profile_id), "detached-saves"@),
        detached: detached_place(paths, profile_id, moment),
        managed: managed_saves(paths, save_set_id),
        above_managed: paths.save_set_place(save_set_id),
    }
}

proof fn lemma_spelled(
    paths: AppPaths,
    profile_id: Seq<char>,
    save_set_id: Seq<char>,
    moment: Seq<char>,
)
    requires
        is_name(profile_id),
        is_name(save_set_id),
        is_figures(moment),
    ensures
        ({
            let at = places_of(paths, profile_id, save_set_id, moment);
            let profiles = join_path(paths.data_dir@, "profiles"@);
            let sets = join_path(paths.data_dir@, "save-sets"@);
            let n = profiles.len() - 8;
            let under = profiles + seq!['/'] + profile_id + seq!['/'];
            &&& n >= 0 && sets.len() - 9 == n
            &&& profiles[n] == 'p' && sets[n] == 's'
            &&& at.own == under + SAVE_RELATIVE@
            &&& at.above_detached == under + "detached-saves"@
            &&& at.detached == under + ("detached-saves"@ + seq!['/'] + moment)
            &&& at.above_managed == sets + seq!['/'] + save_set_id
            &&& at.managed == sets + seq!['/'] + save_set_id + seq!['/'] + "Cyberpunk 2077"@
        }),
{
    reveal_strlit("profiles");
    reveal_strlit("save-sets");
    reveal_strlit("detached-saves");
    reveal_strlit("Cyberpunk 2077");
    reveal_strlit("prefix/drive_c/users/steamuser/Saved Games/CD Projekt Red/Cyberpunk 2077");
    let at = places_of(paths, profile_id, save_set_id, moment);
    let profiles = join_path(paths.data_dir@, "profiles"@);
    let sets = join_path(paths.data_dir@, "save-sets"@);
    let under = profiles + seq!['/'] + profile_id + seq!['/'];
    assert(profile_id.contains(profile_id[0]) && profile_id.contains(profile_id.last()));
    assert(save_set_id.contains(save_set_id[0]) && save_set_id.contains(save_set_id.last()));
    lemma_below(profiles, profile_id);
    lemma_below(paths.profile_place(profile_id), SAVE_RELATIVE@);
    lemma_below(paths.profile_place(profile_id), "detached-saves"@);
    lemma_below(sets, save_set_id);
    lemma_below(paths.save_set_place(save_set_id), "Cyberpunk 2077"@);
    assert(moment[0] != '/' && moment.last() != '/');
    lemma_below(at.above_detached, moment);
    assert(at.detached =~= under + ("detached-saves"@ + seq!['/'] + moment));
}

/// The places of a profile and of a save set are different ones.
proof fn lemma_places(paths: AppPaths, profile_id: Seq<char>, save_set_id: Seq<char>, moment: Seq<char>)
    requires
        is_name(profile_id),
        is_name(save_set_id),
        is_figures(moment),
    ensures
        ({
            let at = places_of(paths, profile_id, save_set_id, moment);
            &&& at.own != at.above_detached && at.own != at.detached && at.own != at.managed
            &&& at.own != at.above_managed && at.above_detached != at.detached
            &&& at.above_detached != at.managed && at.above_detached != at.above_managed
            &&& at.detached != at.managed && at.detached != at.above_managed
            &&& at.managed != at.above_managed
        }),
{
    lemma_spelled(paths, profile_id, save_set_id, moment);
    reveal_strlit("detached-saves");
    reveal_strlit("Cyberpunk 2077");
    reveal_strlit("prefix/drive_c/users/steamuser/Saved Games/CD Projekt Red/Cyberpunk 2077");
    let at = places_of(paths, profile_id, save_set_id, moment);
    let profiles = join_path(paths.data_dir@, "profiles"@);
    let n = profiles.len() - 8;
    let m = profiles.len() as int + profile_id.len() + 2;
    assert(at.own[n] == 'p' && at.above_detached[n] == 'p' && at.detached[n] == 'p');
    assert(at.managed[n] == 's' && at.above_managed[n] == 's');
    assert(at.own[m] == 'p' && at.above_detached[m] == 'd' && at.detached[m] == 'd');
}

/// The places of two profiles are different ones.
proof fn lemma_two_profiles(paths: AppPaths, a: Seq<char>, b: Seq<char>, moment: Seq<char>)
    requires
        is_name(a),
        is_name(b),
        a != b,
        is_figures(moment),
    ensures
        ({
            let at = places_of(paths, b, a, moment);
            let own = profile_saves(paths, a);
            own != at.own && own != at.above_detached && own != at.detached
        }),
{
    lemma_spelled(paths, a, a, moment);
    lemma_spelled(paths, b, a, moment);
    let at = places_of(paths, b, a, moment);
    let own = profile_saves(paths, a);
    let profiles = join_path(paths.data_dir@, "profiles"@);
    if own == at.own {
        lemma_same_name(profiles, a, SAVE_RELATIVE@, b, SAVE_RELATIVE@);
    }
    if own == at.above_detached {
        lemma_same_name(profiles, a, SAVE_RELATIVE@, b, "detached-saves"@);
    }
    if own == at.detached {
        lemma_same_name(
            profiles,
            a,
            SAVE_RELATIVE@,
            b,
            "detached-saves"@ + seq!['/'] + moment,
        );
    }
}

/// Where the saves of a profile cannot be made a save set, because the link cannot be
/// made or the save set cannot be recorded, they are where they were, and nothing is
/// left of the save set.
pub proof fn law_refused_creation_leaves_saves(
    paths: AppPaths,
    profile_id: Seq<char>,
    save_set_id: Seq<char>,
    tree: Map<Seq<char>, Held>,
    k: int,
)
    requires
        is_name(profile_id),
        is_name(save_set_id),
        tree.dom().contains(profile_saves(paths, profile_id)),
        !tree.dom().contains(managed_saves(paths, save_set_id)),
        k == 3 || k == 4,
    ensures
        ({
            let own = profile_saves(paths, profile_id);
            let managed = managed_saves(paths, save_set_id);
            let after = after_failure(tree, creation(paths, profile_id, save_set_id, true), k);
            &&& after.dom().contains(own) && after[own] == tree[own]
            &&& !after.dom().contains(managed)
        }),
{
    lemma_places(paths, profile_id, save_set_id, seq!['0']);
    let own = profile_saves(paths, profile_id);
    let managed = managed_saves(paths, save_set_id);
    let plan = creation(paths, profile_id, save_set_id, true);
    lemma_step_more(tree, plan, 0);
    lemma_step_more(tree, plan, 1);
    lemma_step_more(tree, plan, 2);
    lemma_step_more(tree, plan, 3);
    let moved = all_done(tree, first_deeds(plan, 3));
    let linked = all_done(tree, first_deeds(plan, 4));
    lemma_two_done(
        moved,
        Deed::Move { from: managed, to: own },
        Deed::Move { from: managed, to: own },
    );
    lemma_two_done(linked, Deed::RemoveFile { at: own }, Deed::Move { from: managed, to: own });
    assert(plan[4].undo =~= seq![
        Deed::RemoveFile { at: own },
        Deed::Move { from: managed, to: own },
    ]);
}

/// Whether what is known of two profiles that are to share saves is so.
pub open spec fn reports(
    facts: ShareFacts,
    paths: AppPaths,
    source: Profile,
    target: Profile,
    id: Seq<char>,
    tree: Map<Seq<char>, Held>,
) -> bool {
    let from = profile_saves(paths, source.id@);
    let to = profile_saves(paths, target.id@);
    let managed = managed_saves(paths, shared_set(facts, id));
    &&& match facts.source_set {
        Some(_) => tree.dom().contains(from) && tree[from] == Held::LinkTo(managed) && files_at(
            tree,
            managed,
        ) is Some,
        None => !tree.dom().contains(managed) && tree.dom().contains(from)
            == facts.source_has_saves && (facts.source_has_saves ==> files_at(tree, from) is Some),
    }
    &&& match facts.target_path {
        SavePath::Missing => !tree.dom().contains(to),
        SavePath::Private => files_at(tree, to) is Some,
        SavePath::Link(place) => tree.dom().contains(to) && tree[to] == Held::LinkTo(place@),
    }
    &&& shares_already(facts, id) ==> tree.dom().contains(to) && tree[to] == Held::LinkTo(managed)
}

/// The saves that are shared: those of the save set, those of the first profile, or
/// none.
pub open spec fn saves_to_share(
    facts: ShareFacts,
    paths: AppPaths,
    source: Profile,
    id: Seq<char>,
    tree: Map<Seq<char>, Held>,
) -> Map<Seq<char>, int> {
    if facts.source_set is Some {
        files_at(tree, managed_saves(paths, shared_set(facts, id)))->0
    } else if facts.source_has_saves {
        files_at(tree, profile_saves(paths, source.id@))->0
    } else {
        Map::empty()
    }
}

proof fn lemma_shared_so_far(
    paths: AppPaths,
    source: Profile,
    target: Profile,
    facts: ShareFacts,
    id: Seq<char>,
    now: Timestamp,
    moment: Seq<char>,
    tree: Map<Seq<char>, Held>,
) -> (n: int)
    requires
        is_name(source.id@),
        is_name(target.id@),
        source.id@ != target.id@,
        is_name(shared_set(facts, id)),
        is_figures(moment),
        reports(facts, paths, source, target, id, tree),
    ensures
        ({
            let plan = sharing(paths, source, target, facts, id, now);
            let after = all_done(tree, first_deeds(plan, n));
            let from = profile_saves(paths, source.id@);
            let at = places_of(paths, target.id@, shared_set(facts, id), moment);
            &&& 0 <= n <= plan.len()
            &&& plan.skip(n) == if shares_already(facts, id) {
                seq![just(Deed::EnsureLink { profile_id: target.id@ })]
            } else {
                attachment(
                    paths,
                    target,
                    facts,
                    shared_set(facts, id),
                    detached_saves(paths, target, facts, id, now),
                )
            }
            &&& after.dom().contains(from) && after[from] == Held::LinkTo(at.managed)
            &&& files_at(after, at.managed) == Some(saves_to_share(facts, paths, source, id, tree))
            &&& after.dom().contains(at.own) == tree.dom().contains(at.own)
            &&& after.dom().contains(at.own) ==> after[at.own] == tree[at.own]
            &&& after.dom().contains(at.detached) == tree.dom().contains(at.detached)
        }),
{
    let plan = sharing(paths, source, target, facts, id, now);
    let set = shared_set(facts, id);
    let at = places_of(paths, target.id@, set, moment);
    lemma_places(paths, source.id@, set, moment);
    lemma_places(paths, target.id@, set, moment);
    lemma_two_profiles(paths, source.id@, target.id@, moment);
    let rest = if shares_already(facts, id) {
        seq![just(Deed::EnsureLink { profile_id: target.id@ })]
    } else {
        attachment(paths, target, facts, set, detached_saves(paths, target, facts, id, now))
    };
    lemma_step_more(tree, plan, 0);
    lemma_step_more(tree, plan, 1);
    lemma_step_more(tree, plan, 2);
    lemma_step_more(tree, plan, 3);
    let n: int = if facts.source_set is Some {
        4
    } else {
        lemma_step_more(tree, plan, 4);
        lemma_step_more(tree, plan, 5);
        lemma_step_more(tree, plan, 6);
        lemma_step_more(tree, plan, 7);
        8
    };
    assert(plan.skip(n) =~= rest);
    n
}

proof fn lemma_attached(
    paths: AppPaths,
    target: Profile,
    facts: ShareFacts,
    save_set_id: Seq<char>,
    moment: Seq<char>,
    tree: Map<Seq<char>, Held>,
) -> (n: int)
    requires
        ({
            let at = places_of(paths, target.id@, save_set_id, moment);
            &&& is_name(target.id@) && is_name(save_set_id) && is_figures(moment)
            &&& facts.target_path is Private
            &&& tree.dom().contains(at.own)
            &&& !tree.dom().contains(at.detached)
        }),
    ensures
        ({
            let own = profile_saves(paths, target.id@);
            let detached = detached_place(paths, target.id@, moment);
            let plan = attachment(paths, target, facts, save_set_id, Some(detached));
            let after = all_done(tree, first_deeds(plan, n));
            &&& n == plan.len() - 1 && n >= 0
            &&& after.dom().contains(detached) && after[detached] == tree[own]
            &&& after.dom().contains(own) && after[own] == Held::LinkTo(
                managed_saves(paths, save_set_id),
            )
            &&& plan[n].deed == Deed::Attach { profile_id: target.id@, save_set_id }
            &&& plan[n].undo == seq![
                Deed::RemoveFile { at: own },
                Deed::Move { from: detached, to: own },
            ]
        }),
{
    let own = profile_saves(paths, target.id@);
    let detached = detached_place(paths, target.id@, moment);
    let plan = attachment(paths, target, facts, save_set_id, Some(detached));
    assert(seq![Deed::RemoveFile { at: own }] + seq![Deed::Move { from: detached, to: own }] =~= seq![
        Deed::RemoveFile { at: own },
        Deed::Move { from: detached, to: own },
    ]);
    lemma_places(paths, target.id@, save_set_id, moment);
    lemma_step_more(tree, plan, 0);
    lemma_step_more(tree, plan, 1);
    lemma_step_more(tree, plan, 2);
    if facts.target_set is Some {
        lemma_step_more(tree, plan, 3);
        4
    } else {
        3
    }
}

/// Where the sharing of saves cannot be recorded, the private saves of the profile
/// are where they were.
pub proof fn law_refused_sharing_leaves_saves(
    paths: AppPaths,
    target: Profile,
    facts: ShareFacts,
    save_set_id: Seq<char>,
    moment: Seq<char>,
    tree: Map<Seq<char>, Held>,
)
    requires
        ({
            let at = places_of(paths, target.id@, save_set_id, moment);
            &&& is_name(target.id@) && is_name(save_set_id) && is_figures(moment)
            &&& facts.target_path is Private
            &&& tree.dom().contains(at.own)
            &&& !tree.dom().contains(at.detached)
        }),
    ensures
        ({
            let own = profile_saves(paths, target.id@);
            let detached = detached_place(paths, target.id@, moment);
            let plan = attachment(paths, target, facts, save_set_id, Some(detached));
            let after = after_failure(tree, plan, plan.len() - 1);
            &&& after.dom().contains(own) && after[own] == tree[own]
            &&& !after.dom().contains(detached)
        }),
{
    let own = profile_saves(paths, target.id@);
    let detached = detached_place(paths, target.id@, moment);
    let plan = attachment(paths, target, facts, save_set_id, Some(detached));
    let n = lemma_attached(paths, target, facts, save_set_id, moment, tree);
    lemma_two_done(
        all_done(tree, first_deeds(plan, n)),
        Deed::RemoveFile { at: own },
        Deed::Move { from: detached, to: own },
    );
}

proof fn lemma_attach(
    paths: AppPaths,
    target: Profile,
    facts: ShareFacts,
    save_set_id: Seq<char>,
    moment: Seq<char>,
    tree: Map<Seq<char>, Held>,
    other: Seq<char>,
)
    requires
        ({
            let at = places_of(paths, target.id@, save_set_id, moment);
            &&& is_name(target.id@) && is_name(save_set_id) && is_figures(moment)
            &&& facts.target_path is Private ==> tree.dom().contains(at.own)
            &&& other != at.own && other != at.detached && other != at.above_detached
        }),
    ensures
        ({
            let at = places_of(paths, target.id@, save_set_id, moment);
            let detached = if facts.target_path is Private {
                Some(at.detached)
            } else {
                None
            };
            let plan = attachment(paths, target, facts, save_set_id, detached);
            let after = all_done(tree, first_deeds(plan, plan.len() as int));
            &&& after.dom().contains(at.own) && after[at.own] == Held::LinkTo(at.managed)
            &&& facts.target_path is Private ==> after.dom().contains(at.detached)
                && after[at.detached] == tree[at.own]
            &&& after.dom().contains(other) == tree.dom().contains(other)
            &&& after.dom().contains(other) ==> after[other] == tree[other]
        }),
{
    let at = places_of(paths, target.id@, save_set_id, moment);
    let detached = if facts.target_path is Private {
        Some(at.detached)
    } else {
        None
    };
    let plan = attachment(paths, target, facts, save_set_id, detached);
    lemma_places(paths, target.id@, save_set_id, moment);
    lemma_step_more(tree, plan, 0);
    lemma_step_more(tree, plan, 1);
    if plan.len() > 2 {
        lemma_step_more(tree, plan, 2);
    }
    if plan.len() > 3 {
        lemma_step_more(tree, plan, 3);
    }
    if plan.len() > 4 {
        lemma_step_more(tree, plan, 4);
    }
}

/// Two profiles that share saves have them from one place: the saves of both are links
/// to those of the save set, which are what the first profile had. What the second had
/// of its own is where the result says, as it was.
pub proof fn law_sharing_joins_the_saves(
    paths: AppPaths,
    source: Profile,
    target: Profile,
    facts: ShareFacts,
    id: Seq<char>,
    now: Timestamp,
    tree: Map<Seq<char>, Held>,
)
    requires
        is_name(source.id@),
        is_name(target.id@),
        is_name(shared_set(facts, id)),
        share_fault(source, target, facts, id, now) is None,
        detached_saves(paths, target, facts, id, now) is Some ==> is_figures(
            formatted(now, "%Y%m%d-%H%M%S%.3f"@)->0,
        ),
        reports(facts, paths, source, target, id, tree),
    ensures
        ({
            let plan = sharing(paths, source, target, facts, id, now);
            let after = all_done(tree, first_deeds(plan, plan.len() as int));
            let from = profile_saves(paths, source.id@);
            let to = profile_saves(paths, target.id@);
            let managed = managed_saves(paths, shared_set(facts, id));
            &&& after.dom().contains(from) && after[from] == Held::LinkTo(managed)
            &&& after.dom().contains(to) && after[to] == Held::LinkTo(managed)
            &&& files_at(after, managed) == Some(saves_to_share(facts, paths, source, id, tree))
            &&& match detached_saves(paths, target, facts, id, now) {
                Some(place) => files_at(after, place) == files_at(tree, to) && files_at(
                    after,
                    place,
                ) is Some,
                None => true,
            }
        }),
{
    let plan = sharing(paths, source, target, facts, id, now);
    let from = profile_saves(paths, source.id@);
    let set = shared_set(facts, id);
    let managed = managed_saves(paths, set);
    let detached = detached_saves(paths, target, facts, id, now);
    let moment = if detached is Some {
        formatted(now, "%Y%m%d-%H%M%S%.3f"@)->0
    } else {
        seq!['0']
    };
    let n = lemma_shared_so_far(paths, source, target, facts, id, now, moment, tree);
    let middle = all_done(tree, first_deeds(plan, n));
    lemma_goes_on(tree, plan, n, plan.len() - n);
    lemma_places(paths, target.id@, set, moment);
    lemma_two_profiles(paths, source.id@, target.id@, moment);
    if shares_already(facts, id) {
        lemma_step_more(middle, plan.skip(n), 0);
    } else {
        lemma_attach(paths, target, facts, set, moment, middle, from);
        lemma_attach(paths, target, facts, set, moment, middle, managed);
    }
}

/// Where a profile cannot be given saves of its own, because they cannot be copied or
/// the change cannot be recorded, the link to the shared saves is where it was, and
/// these are untouched.
pub proof fn law_refused_detaching_leaves_the_link(
    paths: AppPaths,
    profile_id: Seq<char>,
    save_set_id: Seq<char>,
    tree: Map<Seq<char>, Held>,
    k: int,
)
    requires
        ({
            let own = profile_saves(paths, profile_id);
            let managed = managed_saves(paths, save_set_id);
            &&& is_name(profile_id) && is_name(save_set_id)
            &&& tree.dom().contains(own) && tree[own] == Held::LinkTo(managed)
            &&& files_at(tree, managed) is Some
        }),
        k == 4 || k == 5,
    ensures
        ({
            let own = profile_saves(paths, profile_id);
            let managed = managed_saves(paths, save_set_id);
            let after = after_failure(tree, privatization(paths, profile_id, save_set_id), k);
            &&& after.dom().contains(own) && after[own] == tree[own]
            &&& after.dom().contains(managed) && after[managed] == tree[managed]
        }),
{
    let own = profile_saves(paths, profile_id);
    let managed = managed_saves(paths, save_set_id);
    let plan = privatization(paths, profile_id, save_set_id);
    lemma_places(paths, profile_id, save_set_id, seq!['0']);
    lemma_step_more(tree, plan, 0);
    lemma_step_more(tree, plan, 1);
    lemma_step_more(tree, plan, 2);
    lemma_step_more(tree, plan, 3);
    lemma_step_more(tree, plan, 4);
    lemma_two_done(
        all_done(tree, first_deeds(plan, k)),
        Deed::RemoveTree { at: own },
        Deed::Link { at: own, to: managed },
    );
}

/// A profile that was given saves of its own has what it shared before, and the
/// shared saves are untouched.
pub proof fn law_detaching_copies_the_saves(
    paths: AppPaths,
    profile_id: Seq<char>,
    save_set_id: Seq<char>,
    tree: Map<Seq<char>, Held>,
)
    requires
        ({
            let own = profile_saves(paths, profile_id);
            let managed = managed_saves(paths, save_set_id);
            &&& is_name(profile_id) && is_name(save_set_id)
            &&& tree.dom().contains(own) && files_at(tree, managed) is Some
        }),
    ensures
        ({
            let own = profile_saves(paths, profile_id);
            let managed = managed_saves(paths, save_set_id);
            let after = all_done(tree, first_deeds(privatization(paths, profile_id, save_set_id), 6));
            &&& after.dom().contains(own) && after[own] == tree[managed]
            &&& after.dom().contains(managed) && after[managed] == tree[managed]
        }),
{
    let plan = privatization(paths, profile_id, save_set_id);
    lemma_places(paths, profile_id, save_set_id, seq!['0']);
    lemma_step_more(tree, plan, 0);
    lemma_step_more(tree, plan, 1);
    lemma_step_more(tree, plan, 2);
    lemma_step_more(tree, plan, 3);
    lemma_step_more(tree, plan, 4);
    lemma_step_more(tree, plan, 5);
}

/// The places that take part in putting saves in the place of others are different
/// ones, and those beside it are free.
pub open spec fn set_apart(
    source: Seq<char>,
    destination: Seq<char>,
    id: Seq<char>,
    tree: Map<Seq<char>, Held>,
) -> bool {
    let above = parent_path(destination)->0;
    let staging = beside(destination, ".cp2077-mod-tui-stage-"@, id);
    let parked = beside(destination, ".cp2077-mod-tui-replaced-"@, id);
    &&& source != destination && source != staging && source != parked && source != above
    &&& destination != staging && destination != parked && destination != above
    &&& staging != parked && staging != above && parked != above
    &&& !tree.dom().contains(staging) && !tree.dom().contains(parked)
}

/// Whether what is known of a destination is so.
pub open spec fn describes(
    facts: DestinationFacts,
    destination: Seq<char>,
    tree: Map<Seq<char>, Held>,
) -> bool {
    &&& facts.exists == tree.dom().contains(destination)
    &&& facts.exists ==> match tree[destination] {
        Held::Files(files) => !facts.is_link && facts.has_control == files.dom().contains(
            CONTROL_FILE@,
        ),
        Held::LinkTo(_) => facts.is_link,
    }
}

/// Saves that were put in the place of others are there, without a file by which Steam
/// controls its cloud but for one that is to be kept. Their source is untouched, and
/// nothing is left beside them. A file that is kept is looked for in a directory, not
/// behind a link.
pub proof fn law_replacing_puts_saves_in_place(
    source: Seq<char>,
    destination: Seq<char>,
    keep_control: bool,
    facts: DestinationFacts,
    id: Seq<char>,
    tree: Map<Seq<char>, Held>,
)
    requires
        set_apart(source, destination, id, tree),
        files_at(tree, source) is Some,
        describes(facts, destination, tree),
        facts.exists && keep_control && facts.has_control ==> !facts.is_link,
    ensures
        ({
            let staging = beside(destination, ".cp2077-mod-tui-stage-"@, id);
            let parked = beside(destination, ".cp2077-mod-tui-replaced-"@, id);
            let plan = replacing(source, destination, keep_control, facts, id);
            let after = all_done(tree, first_deeds(plan, plan.len() as int));
            &&& files_at(after, destination) == Some(
                transferred(files_at(tree, source)->0, files_at(tree, destination), keep_control),
            )
            &&& files_at(after, source) == files_at(tree, source)
            &&& !after.dom().contains(staging) && !after.dom().contains(parked)
            &&& files_at(after, destination) == files_at(
                done(tree, Deed::ReplaceTree { from: source, to: destination, keep_control }),
                destination,
            )
        }),
{
    let plan = replacing(source, destination, keep_control, facts, id);
    lemma_step_more(tree, plan, 0);
    lemma_step_more(tree, plan, 1);
    lemma_step_more(tree, plan, 2);
    lemma_step_more(tree, plan, 3);
    if facts.exists {
        lemma_step_more(tree, plan, 4);
        lemma_step_more(tree, plan, 5);
        if keep_control && facts.has_control {
            lemma_step_more(tree, plan, 6);
        }
    }
}

/// Steam keeps the file by which it controls its cloud: after an export it is what it
/// was, and every other file is one of the new saves. After an import there is no such
/// file.
pub proof fn law_steam_keeps_its_control_file(
    files: Map<Seq<char>, int>,
    old: Map<Seq<char>, int>,
    path: Seq<char>,
)
    ensures
        ({
            let exported = transferred(files, Some(old), true);
            &&& exported.dom().contains(CONTROL_FILE@) == old.dom().contains(CONTROL_FILE@)
            &&& old.dom().contains(CONTROL_FILE@) ==> exported[CONTROL_FILE@] == old[CONTROL_FILE@]
            &&& path != CONTROL_FILE@ ==> exported.dom().contains(path) == (files.dom().contains(
                path,
            ) && !is_control(path))
            &&& path != CONTROL_FILE@ && exported.dom().contains(path) ==> exported[path]
                == files[path]
        }),
        !transferred(files, Some(old), false).dom().contains(CONTROL_FILE@),
        !transferred(files, None, true).dom().contains(CONTROL_FILE@),
{
    lemma_control_is_control();
}

proof fn lemma_control_is_control()
    ensures
        is_control(CONTROL_FILE@),
{
    reveal_strlit("steam_autocloud.vdf");
    lemma_one_piece(CONTROL_FILE@);
    assert(split_on(CONTROL_FILE@, '/')[0] == CONTROL_FILE@);
}

/// Where saves cannot be put in the place of others, these are where they were, and
/// nothing is left beside them.
pub proof fn law_refused_replacing_leaves_saves(
    source: Seq<char>,
    destination: Seq<char>,
    keep_control: bool,
    facts: DestinationFacts,
    id: Seq<char>,
    tree: Map<Seq<char>, Held>,
    k: int,
)
    requires
        set_apart(source, destination, id, tree),
        files_at(tree, source) is Some,
        tree.dom().contains(destination) == facts.exists,
        k == 1 || k == if facts.exists {
            4int
        } else {
            3
        },
    ensures
        ({
            let staging = beside(destination, ".cp2077-mod-tui-stage-"@, id);
            let parked = beside(destination, ".cp2077-mod-tui-replaced-"@, id);
            let after = after_failure(
                tree,
                replacing(source, destination, keep_control, facts, id),
                k,
            );
            &&& after.dom().contains(destination) == facts.exists
            &&& facts.exists ==> after[destination] == tree[destination]
            &&& !after.dom().contains(staging) && !after.dom().contains(parked)
        }),
{
    let plan = replacing(source, destination, keep_control, facts, id);
    let staging = beside(destination, ".cp2077-mod-tui-stage-"@, id);
    let parked = beside(destination, ".cp2077-mod-tui-replaced-"@, id);
    let clear = Deed::RemoveTree { at: staging };
    let back = Deed::Move { from: parked, to: destination };
    lemma_step_more(tree, plan, 0);
    lemma_step_more(tree, plan, 1);
    lemma_step_more(tree, plan, 2);
    lemma_step_more(tree, plan, 3);
    let before = all_done(tree, first_deeds(plan, k));
    lemma_two_done(before, clear, clear);
    lemma_two_done(before, back, clear);
    if facts.exists {
        assert(plan[4].undo =~= seq![back, clear]);
    } else {
        assert(plan[3].undo =~= seq![clear]);
    }
}

proof fn lemma_joined_under(base: Seq<char>, name: Seq<char>, root: Seq<char>)
    requires
        base.len() > 0,
        !absolute(name),
        lies_under(base, root),
    ensures
        lies_under(join_path(base, name), root),
        join_path(base, name).len() > 0,
{
    lemma_join_parts(base, name);
    let whole = parts(join_path(base, name));
    let top = parts(root);
    assert(top == parts(base).subrange(0, top.len() as int));
    assert(top =~= whole.subrange(0, top.len() as int));
}

proof fn lemma_places_under(
    paths: AppPaths,
    profile_id: Seq<char>,
    save_set_id: Seq<char>,
    moment: Seq<char>,
)
    requires
        paths.data_dir@.len() > 0,
        is_name(profile_id),
        is_name(save_set_id),
        is_figures(moment),
    ensures
        ({
            let at = places_of(paths, profile_id, save_set_id, moment);
            let root = paths.data_dir@;
            &&& lies_under(at.own, root) && lies_under(at.above_detached, root)
            &&& lies_under(at.detached, root) && lies_under(at.managed, root)
            &&& lies_under(at.above_managed, root)
        }),
{
    reveal_strlit("profiles");
    reveal_strlit("save-sets");
    reveal_strlit("detached-saves");
    reveal_strlit("Cyberpunk 2077");
    reveal_strlit("prefix/drive_c/users/steamuser/Saved Games/CD Projekt Red/Cyberpunk 2077");
    let root = paths.data_dir@;
    let at = places_of(paths, profile_id, save_set_id, moment);
    let place = paths.profile_place(profile_id);
    assert(parts(root) =~= parts(root).subrange(0, parts(root).len() as int));
    assert(profile_id.contains(profile_id[0]) && save_set_id.contains(save_set_id[0]));
    lemma_joined_under(root, "profiles"@, root);
    lemma_joined_under(root, "save-sets"@, root);
    lemma_joined_under(join_path(root, "profiles"@), profile_id, root);
    lemma_joined_under(join_path(root, "save-sets"@), save_set_id, root);
    lemma_joined_under(place, SAVE_RELATIVE@, root);
    lemma_joined_under(place, "detached-saves"@, root);
    lemma_joined_under(at.above_managed, "Cyberpunk 2077"@, root);
    assert(moment[0] != '/');
    lemma_joined_under(at.above_detached, moment, root);
}

proof fn lemma_plans_under(a: Seq<Planned>, b: Seq<Planned>, root: Seq<char>)
    requires
        plan_under(a, root),
        plan_under(b, root),
    ensures
        plan_under(a + b, root),
{
    assert forall|i: int| 0 <= i < (a + b).len() implies step_under(#[trigger] (a + b)[i], root) by {
        if i < a.len() {
            assert((a + b)[i] == a[i]);
        } else {
            assert((a + b)[i] == b[i - a.len()]);
        }
    }
}

proof fn lemma_creation_under(
    paths: AppPaths,
    profile_id: Seq<char>,
    save_set_id: Seq<char>,
    had_saves: bool,
    root: Seq<char>,
)
    requires
        lies_under(profile_saves(paths, profile_id), root),
        lies_under(managed_saves(paths, save_set_id), root),
        lies_under(paths.save_set_place(save_set_id), root),
    ensures
        plan_under(creation(paths, profile_id, save_set_id, had_saves), root),
{
    let plan = creation(paths, profile_id, save_set_id, had_saves);
    assert(step_under(plan[0], root));
    assert(step_under(plan[1], root));
    assert(step_under(plan[2], root));
    assert(step_under(plan[3], root));
    assert(step_under(plan[4], root));
}

proof fn lemma_detachment_under(
    paths: AppPaths,
    profile_id: Seq<char>,
    found: SavePath,
    detached: Seq<char>,
    root: Seq<char>,
)
    requires
        lies_under(profile_saves(paths, profile_id), root),
        lies_under(join_path(paths.profile_place(profile_id), "detached-saves"@), root),
        found is Private ==> lies_under(detached, root),
    ensures
        plan_under(detachment(paths, profile_id, found, detached), root),
{
}

proof fn lemma_attachment_under(
    paths: AppPaths,
    target: Profile,
    facts: ShareFacts,
    save_set_id: Seq<char>,
    detached: Option<Seq<char>>,
    root: Seq<char>,
)
    requires
        lies_under(profile_saves(paths, target.id@), root),
        lies_under(join_path(paths.profile_place(target.id@), "detached-saves"@), root),
        lies_under(managed_saves(paths, save_set_id), root),
        detached is Some == facts.target_path is Private,
        detached is Some ==> lies_under(detached->0, root),
    ensures
        plan_under(attachment(paths, target, facts, save_set_id, detached), root),
{
    let own = profile_saves(paths, target.id@);
    let first = match facts.target_set {
        Some(current) => seq![
            just(Deed::BackupSet { save_set_id: current.id@, label: "before-reassign"@ }),
        ],
        None => Seq::empty(),
    };
    let place = match detached {
        Some(place) => place,
        None => Seq::empty(),
    };
    let second = detachment(paths, target.id@, facts.target_path, place);
    let third = seq![
        just(Deed::Link { at: own, to: managed_saves(paths, save_set_id) }),
        or_undo(
            Deed::Attach { profile_id: target.id@, save_set_id },
            seq![Deed::RemoveFile { at: own }] + match detached {
                Some(place) => seq![Deed::Move { from: place, to: own }],
                None => Seq::empty(),
            },
            Some("record shared save set for target profile"@),
        ),
    ];
    lemma_detachment_under(paths, target.id@, facts.target_path, place, root);
    assert(plan_under(first, root));
    assert(step_under(third[0], root));
    assert(step_under(third[1], root));
    assert(plan_under(third, root));
    lemma_plans_under(first, second, root);
    lemma_plans_under(first + second, third, root);
}

/// Sharing saves has nothing to do with Steam: every place that it names lies in the
/// directory of the application, also where a step fails.
pub proof fn law_sharing_leaves_steam_alone(
    paths: AppPaths,
    source: Profile,
    target: Profile,
    facts: ShareFacts,
    id: Seq<char>,
    now: Timestamp,
)
    requires
        paths.data_dir@.len() > 0,
        is_name(source.id@),
        is_name(target.id@),
        is_name(shared_set(facts, id)),
        detached_saves(paths, target, facts, id, now) is Some ==> is_figures(
            formatted(now, "%Y%m%d-%H%M%S%.3f"@)->0,
        ),
    ensures
        plan_under(sharing(paths, source, target, facts, id, now), paths.data_dir@),
{
    let root = paths.data_dir@;
    let set = shared_set(facts, id);
    let detached = detached_saves(paths, target, facts, id, now);
    let moment = if detached is Some {
        formatted(now, "%Y%m%d-%H%M%S%.3f"@)->0
    } else {
        seq!['0']
    };
    lemma_places_under(paths, source.id@, set, moment);
    lemma_places_under(paths, target.id@, set, moment);
    let first = seq![
        just(Deed::BackupProfile { profile_id: source.id@, label: "before-save-sharing"@ }),
        just(Deed::BackupProfile { profile_id: target.id@, label: "before-save-sharing"@ }),
    ];
    let second = match facts.source_set {
        Some(_) => seq![just(Deed::EnsureLink { profile_id: source.id@ })],
        None => creation(paths, source.id@, id, facts.source_has_saves),
    };
    let third = seq![just(Deed::BackupSet { save_set_id: set, label: "before-attach"@ })];
    let already = seq![just(Deed::EnsureLink { profile_id: target.id@ })];
    if facts.source_set is None {
        lemma_creation_under(paths, source.id@, id, facts.source_has_saves, root);
    }
    assert(plan_under(first, root));
    assert(plan_under(second, root));
    assert(plan_under(third, root));
    lemma_plans_under(first, second, root);
    lemma_plans_under(first + second, third, root);
    if shares_already(facts, id) {
        assert(plan_under(already, root));
        lemma_plans_under(first + second + third, already, root);
    } else {
        let rest = attachment(paths, target, facts, set, detached);
        lemma_attachment_under(paths, target, facts, set, detached, root);
        lemma_plans_under(first + second + third, rest, root);
    }
}

/// An import only reads the saves of Steam: they are what they were.
pub proof fn law_import_only_reads_steam(
    paths: AppPaths,
    profile_id: Seq<char>,
    game: GameInstall,
    save_set: Option<SaveSet>,
    tree: Map<Seq<char>, Held>,
)
    requires
        tree.dom().contains(steam_saves(game)),
        steam_saves(game) != saves_in_use(paths, profile_id, save_set),
    ensures
        ({
            let plan = importing(paths, profile_id, game, save_set);
            let after = all_done(tree, first_deeds(plan, plan.len() as int));
            &&& after.dom().contains(steam_saves(game))
            &&& after[steam_saves(game)] == tree[steam_saves(game)]
        }),
{
    let plan = importing(paths, profile_id, game, save_set);
    lemma_step_more(tree, plan, 0);
    lemma_step_more(tree, plan, 1);
    if save_set is Some {
        lemma_step_more(tree, plan, 2);
    }
}

/// Before sharing moves, removes or replaces anything, both profiles are backed up.
pub proof fn law_sharing_backs_up_first(
    paths: AppPaths,
    source: Profile,
    target: Profile,
    facts: ShareFacts,
    id: Seq<char>,
    now: Timestamp,
    i: int,
)
    requires
        0 <= i < sharing(paths, source, target, facts, id, now).len(),
        changes(sharing(paths, source, target, facts, id, now)[i].deed),
    ensures
        ({
            let plan = sharing(paths, source, target, facts, id, now);
            let label = "before-save-sharing"@;
            &&& done_before(plan, Deed::BackupProfile { profile_id: source.id@, label }, i)
            &&& done_before(plan, Deed::BackupProfile { profile_id: target.id@, label }, i)
        }),
{
    let plan = sharing(paths, source, target, facts, id, now);
    let label = "before-save-sharing"@;
    assert(plan[0].deed == Deed::BackupProfile { profile_id: source.id@, label });
    assert(plan[1].deed == Deed::BackupProfile { profile_id: target.id@, label });
}

/// Before a profile is given saves of its own, they and its state are backed up.
pub proof fn law_detaching_backs_up_first(
    paths: AppPaths,
    profile_id: Seq<char>,
    save_set_id: Seq<char>,
    i: int,
)
    requires
        0 <= i < privatization(paths, profile_id, save_set_id).len(),
        changes(privatization(paths, profile_id, save_set_id)[i].deed),
    ensures
        ({
            let plan = privatization(paths, profile_id, save_set_id);
            &&& done_before(plan, Deed::BackupSet { save_set_id, label: "before-detach"@ }, i)
            &&& done_before(
                plan,
                Deed::BackupProfile { profile_id, label: "before-save-detach"@ },
                i,
            )
        }),
{
    let plan = privatization(paths, profile_id, save_set_id);
    assert(plan[0].deed == Deed::BackupSet { save_set_id, label: "before-detach"@ });
    assert(plan[1].deed == Deed::BackupProfile { profile_id, label: "before-save-detach"@ });
}

/// Before saves are replaced by those of Steam, or those of Steam by others, they are
/// backed up.
pub proof fn law_transfers_back_up_first(
    paths: AppPaths,
    profile_id: Seq<char>,
    game: GameInstall,
    save_set: Option<SaveSet>,
    source: Seq<char>,
    i: int,
)
    ensures
        ({
            let plan = importing(paths, profile_id, game, save_set);
            0 <= i < plan.len() && changes(plan[i].deed) ==> done_before(
                plan,
                match save_set {
                    Some(set) => Deed::BackupSet {
                        save_set_id: set.id@,
                        label: "before-steam-import"@,
                    },
                    None => Deed::BackupProfile { profile_id, label: "before-steam-import"@ },
                },
                i,
            )
        }),
        ({
            let plan = exporting(source, game, true);
            0 <= i < plan.len() && changes(plan[i].deed) ==> done_before(
                plan,
                Deed::BackupSteam { source: steam_saves(game), label: "before-profile-export"@ },
                i,
            )
        }),
{
    let to = importing(paths, profile_id, game, save_set);
    let from = exporting(source, game, true);
    match save_set {
        Some(set) => {
            assert(to[1].deed == Deed::BackupSet {
                save_set_id: set.id@,
                label: "before-steam-import"@,
            });
        },
        None => {
            assert(to[0].deed == Deed::BackupProfile { profile_id, label: "before-steam-import"@ });
        },
    }
    assert(from[0].deed == Deed::BackupSteam {
        source: steam_saves(game),
        label: "before-profile-export"@,
    });
}

/// What is seen at a place: the files of the directory there, or those behind a link.
pub open spec fn seen_at(tree: Map<Seq<char>, Held>, at: Seq<char>) -> Option<Map<Seq<char>, int>> {
    if tree.dom().contains(at) {
        match tree[at] {
            Held::Files(files) => Some(files),
            Held::LinkTo(place) => files_at(tree, place),
        }
    } else {
        None
    }
}

/// Whether two directories hold the same saves: the same files with the same contents,
/// whatever each has of the file by which Steam controls its cloud.
pub open spec fn same_saves(a: Map<Seq<char>, int>, b: Map<Seq<char>, int>) -> bool {
    forall|path: Seq<char>|
        #![trigger a.dom().contains(path)]
        #![trigger b.dom().contains(path)]
        !split_on(path, '/').contains("steam_autocloud.vdf"@) ==> a.dom().contains(path)
            == b.dom().contains(path) && (a.dom().contains(path) ==> a[path] == b[path])
}

/// An export gives Steam the saves that it is of: when it is done, the place where the
/// game finds its saves under Steam holds them, with the control file that Steam had.
/// Nothing else is changed, and so the saves themselves are what they were.
pub proof fn law_export_gives_steam_the_saves(
    source: Seq<char>,
    game: GameInstall,
    steam_is_dir: bool,
    tree: Map<Seq<char>, Held>,
    steam: Seq<char>,
)
    requires
        steam == join_path(
            join_path(game.library@, "steamapps/compatdata/1091500/pfx/drive_c/users/steamuser"@),
            "Saved Games/CD Projekt Red/Cyberpunk 2077"@,
        ),
        source != steam,
        files_at(tree, source) is Some,
    ensures
        ({
            let plan = exporting(source, game, steam_is_dir);
            let after = all_done(tree, first_deeds(plan, plan.len() as int));
            let control = "steam_autocloud.vdf"@;
            let had = files_at(tree, steam);
            &&& files_at(after, steam) is Some
            &&& same_saves(files_at(after, steam)->0, files_at(tree, source)->0)
            &&& files_at(after, steam)->0.dom().contains(control) == (had is Some
                && had->0.dom().contains(control))
            &&& had is Some && had->0.dom().contains(control) ==> files_at(after, steam)->0[control]
                == had->0[control]
            &&& after == tree.insert(steam, after[steam])
            &&& steam_is_dir ==> plan[0].deed == Deed::BackupSteam {
                source: steam,
                label: "before-profile-export"@,
            }
        }),
{
    let plan = exporting(source, game, steam_is_dir);
    lemma_step_more(tree, plan, 0);
    if steam_is_dir {
        lemma_step_more(tree, plan, 1);
    }
    lemma_control_is_control();
    let after = all_done(tree, first_deeds(plan, plan.len() as int));
    assert(after =~= tree.insert(steam, after[steam]));
}

/// An import gives a profile the saves of Steam: when it is done, the saves of its save
/// set, or its own where it has none, are those that the game finds under Steam, without
/// a control file. Nothing else is changed.
pub proof fn law_import_gives_the_profile_the_saves(
    paths: AppPaths,
    profile_id: Seq<char>,
    game: GameInstall,
    save_set: Option<SaveSet>,
    tree: Map<Seq<char>, Held>,
    steam: Seq<char>,
    target: Seq<char>,
)
    requires
        steam == join_path(
            join_path(game.library@, "steamapps/compatdata/1091500/pfx/drive_c/users/steamuser"@),
            "Saved Games/CD Projekt Red/Cyberpunk 2077"@,
        ),
        target == match save_set {
            Some(set) => join_path(
                join_path(join_path(paths.data_dir@, "save-sets"@), set.id@),
                "Cyberpunk 2077"@,
            ),
            None => join_path(
                join_path(join_path(paths.data_dir@, "profiles"@), profile_id),
                "prefix/drive_c/users/steamuser/Saved Games/CD Projekt Red/Cyberpunk 2077"@,
            ),
        },
        steam != target,
        files_at(tree, steam) is Some,
    ensures
        ({
            let plan = importing(paths, profile_id, game, save_set);
            let after = all_done(tree, first_deeds(plan, plan.len() as int));
            &&& files_at(after, target) is Some
            &&& same_saves(files_at(after, target)->0, files_at(tree, steam)->0)
            &&& !files_at(after, target)->0.dom().contains("steam_autocloud.vdf"@)
            &&& after == tree.insert(target, after[target])
        }),
{
    let plan = importing(paths, profile_id, game, save_set);
    lemma_step_more(tree, plan, 0);
    lemma_step_more(tree, plan, 1);
    if save_set is Some {
        lemma_step_more(tree, plan, 2);
    }
    lemma_control_is_control();
    let after = all_done(tree, first_deeds(plan, plan.len() as int));
    assert(after =~= tree.insert(target, after[target]));
}

/// What goes to Steam comes back: where a profile exports its saves and imports those of
/// Steam after that, it has the saves that it had.
pub proof fn law_exported_saves_come_back(
    paths: AppPaths,
    profile_id: Seq<char>,
    game: GameInstall,
    save_set: Option<SaveSet>,
    steam_is_dir: bool,
    tree: Map<Seq<char>, Held>,
    source: Seq<char>,
)
    requires
        source == saves_in_use(paths, profile_id, save_set),
        source != steam_saves(game),
        files_at(tree, source) is Some,
    ensures
        ({
            let out = exporting(source, game, steam_is_dir);
            let back = importing(paths, profile_id, game, save_set);
            let middle = all_done(tree, first_deeds(out, out.len() as int));
            let after = all_done(middle, first_deeds(back, back.len() as int));
            &&& files_at(after, source) is Some
            &&& same_saves(files_at(after, source)->0, files_at(tree, source)->0)
        }),
{
    let steam = steam_saves(game);
    let out = exporting(source, game, steam_is_dir);
    let back = importing(paths, profile_id, game, save_set);
    let middle = all_done(tree, first_deeds(out, out.len() as int));
    let after = all_done(middle, first_deeds(back, back.len() as int));
    law_export_gives_steam_the_saves(source, game, steam_is_dir, tree, steam);
    law_import_gives_the_profile_the_saves(
        paths,
        profile_id,
        game,
        save_set,
        middle,
        steam,
        source,
    );
    let a = files_at(after, source)->0;
    let b = files_at(middle, steam)->0;
    let c = files_at(tree, source)->0;
    assert forall|path: Seq<char>|
        #![trigger a.dom().contains(path)]
        #![trigger c.dom().contains(path)]
        !split_on(path, '/').contains("steam_autocloud.vdf"@) implies a.dom().contains(path)
        == c.dom().contains(path) && (a.dom().contains(path) ==> a[path] == c[path]) by {
        assert(a.dom().contains(path) == b.dom().contains(path));
        assert(b.dom().contains(path) == c.dom().contains(path));
    }
}

/// Saves are moved between Steam and a profile only while nothing that writes them runs:
/// neither the profile nor Steam nor the game. What runs is what the refusal is about, in
/// this order.
pub proof fn law_transfers_wait_for_all_writers(activity: Activity, name: Seq<char>)
    ensures
        busy(activity, name) is None <==> !activity.profile && !activity.steam && !activity.game,
        activity.profile ==> busy(activity, name) == Some((SavesFault::Running, name)),
        !activity.profile && activity.steam ==> busy(activity, name) == Some((SavesFault::SteamRunning, name)),
        !activity.profile && !activity.steam && activity.game ==> busy(activity, name) == Some((SavesFault::GameRunning, name)),
{
}

/// The saves of a profile lie where a game that runs in the prefix of the profile looks
/// for them: at the same place below the drive as the saves under Steam.
pub proof fn law_saves_lie_where_the_game_looks(
    paths: AppPaths,
    profile_id: Seq<char>,
    save_set_id: Seq<char>,
    game: GameInstall,
    inner: Seq<char>,
)
    requires
        is_name(profile_id),
        game.library@.len() > 0,
        inner == "drive_c/users/steamuser/Saved Games/CD Projekt Red/Cyberpunk 2077"@,
    ensures
        profile_saves(paths, profile_id) == join_path(
            join_path(join_path(join_path(paths.data_dir@, "profiles"@), profile_id), "prefix"@),
            inner,
        ),
        steam_saves(game) == join_path(
            join_path(game.library@, "steamapps/compatdata/1091500/pfx"@),
            inner,
        ),
        managed_saves(paths, save_set_id) == join_path(
            join_path(join_path(paths.data_dir@, "save-sets"@), save_set_id),
            "Cyberpunk 2077"@,
        ),
{
    reveal_strlit("profiles");
    reveal_strlit("prefix");
    reveal_strlit("prefix/drive_c/users/steamuser/Saved Games/CD Projekt Red/Cyberpunk 2077");
    reveal_strlit("drive_c/users/steamuser/Saved Games/CD Projekt Red/Cyberpunk 2077");
    reveal_strlit("steamapps/compatdata/1091500/pfx/drive_c/users/steamuser");
    reveal_strlit("steamapps/compatdata/1091500/pfx");
    reveal_strlit("Saved Games/CD Projekt Red/Cyberpunk 2077");
    assert(profile_id.contains(profile_id[0]) && profile_id.contains(profile_id.last()));
    let own = paths.profile_place(profile_id);
    assert(own.last() == profile_id.last());
    assert(profile_saves(paths, profile_id) =~= join_path(join_path(own, "prefix"@), inner));
    assert(steam_saves(game) =~= join_path(
        join_path(game.library@, "steamapps/compatdata/1091500/pfx"@),
        inner,
    ));
}

/// After sharing, the second profile plays with what the first had: both see the same
/// saves, and what the first saw before. Private saves that the second had are not lost:
/// they are whole at the place that the result names.
pub proof fn law_sharing_shows_both_the_same_saves(
    paths: AppPaths,
    source: Profile,
    target: Profile,
    facts: ShareFacts,
    id: Seq<char>,
    now: Timestamp,
    tree: Map<Seq<char>, Held>,
    from: Seq<char>,
    to: Seq<char>,
)
    requires
        is_name(source.id@),
        is_name(target.id@),
        is_name(shared_set(facts, id)),
        share_fault(source, target, facts, id, now) is None,
        detached_saves(paths, target, facts, id, now) is Some ==> is_figures(
            formatted(now, "%Y%m%d-%H%M%S%.3f"@)->0,
        ),
        reports(facts, paths, source, target, id, tree),
        from == profile_saves(paths, source.id@),
        to == profile_saves(paths, target.id@),
    ensures
        ({
            let plan = sharing(paths, source, target, facts, id, now);
            let after = all_done(tree, first_deeds(plan, plan.len() as int));
            let apart = detached_saves(paths, target, facts, id, now);
            &&& seen_at(after, from) is Some
            &&& seen_at(after, to) == seen_at(after, from)
            &&& facts.source_set is Some || facts.source_has_saves ==> seen_at(after, from)
                == seen_at(tree, from)
            &&& facts.source_set is None && !facts.source_has_saves ==> seen_at(after, from) == Some(
                Map::<Seq<char>, int>::empty(),
            )
            &&& facts.target_path is Private ==> apart is Some && seen_at(after, apart->0)
                == seen_at(tree, to) && seen_at(tree, to) is Some
            &&& source.id@ != target.id@ && !facts.source_locked && !facts.target_locked
        }),
{
    law_sharing_joins_the_saves(paths, source, target, facts, id, now, tree);
}

/// A profile that was given saves of its own sees what it saw before, no longer through a
/// link, and what the others share is untouched.
pub proof fn law_detaching_changes_nothing_that_is_seen(
    paths: AppPaths,
    profile_id: Seq<char>,
    save_set_id: Seq<char>,
    tree: Map<Seq<char>, Held>,
    own: Seq<char>,
    managed: Seq<char>,
)
    requires
        is_name(profile_id) && is_name(save_set_id),
        own == profile_saves(paths, profile_id),
        managed == managed_saves(paths, save_set_id),
        tree.dom().contains(own) && tree[own] == Held::LinkTo(managed),
        files_at(tree, managed) is Some,
    ensures
        ({
            let plan = privatization(paths, profile_id, save_set_id);
            let after = all_done(tree, first_deeds(plan, plan.len() as int));
            &&& seen_at(after, own) == seen_at(tree, own)
            &&& files_at(after, own) is Some
            &&& files_at(after, managed) == files_at(tree, managed)
            &&& plan.last().deed == Deed::Detach { profile_id }
        }),
{
    law_detaching_copies_the_saves(paths, profile_id, save_set_id, tree);
}

/// The saves of a profile with a save set are in order where the save set is there and
/// the path of the profile is free or a link to it, and in no other case. Only where the
/// path is free is a link made.
pub proof fn law_links_lead_to_the_save_set(
    at: Seq<char>,
    managed: Seq<char>,
    managed_is_dir: bool,
    found: SavePath,
)
    ensures
        relink_fault(at, managed, managed_is_dir, found) is None <==> managed_is_dir && (found
            is Missing || (found is Link && parts(found->Link_0@) == parts(managed))),
        !managed_is_dir ==> relink_fault(at, managed, managed_is_dir, found) == Some(
            (SavesFault::NoManaged, managed),
        ),
        managed_is_dir && found is Private ==> relink_fault(at, managed, managed_is_dir, found)
            == Some((SavesFault::PrivateInPlace, at)),
        link_fault(at, managed, found) is None <==> found is Link && parts(found->Link_0@) == parts(
            managed,
        ),
{
}

/// A save slot is a file that bears the name of the data of a save, and nothing else is.
pub proof fn law_slots_are_save_data(item: SaveItem)
    ensures
        is_slot(item) <==> item.kind == SaveItemKind::File && item.name@ == "sav.dat"@,
{
}

/// Sharing is put on record: a new save set as that of the first profile, and the save set
/// as that of the second, which comes last, when the saves are in place.
pub proof fn law_sharing_is_recorded(
    paths: AppPaths,
    source: Profile,
    target: Profile,
    facts: ShareFacts,
    id: Seq<char>,
    now: Timestamp,
)
    ensures
        ({
            let plan = sharing(paths, source, target, facts, id, now);
            &&& plan.len() > 0
            &&& facts.source_set is None ==> done_before(
                plan,
                Deed::RecordSet { save_set_id: id, profile_id: source.id@ },
                plan.len() as int,
            )
            &&& facts.source_set is None && !(facts.target_set is Some && facts.target_set->0.id@
                == id) ==> plan.last().deed == Deed::Attach {
                profile_id: target.id@,
                save_set_id: id,
            }
            &&& facts.source_set is Some && !(facts.target_set is Some && facts.target_set->0.id@
                == facts.source_set->0.id@) ==> plan.last().deed == Deed::Attach {
                profile_id: target.id@,
                save_set_id: facts.source_set->0.id@,
            }
            &&& facts.source_set is Some && facts.target_set is Some && facts.target_set->0.id@
                == facts.source_set->0.id@ ==> plan.last().deed == Deed::EnsureLink {
                profile_id: target.id@,
            }
        }),
{
    let plan = sharing(paths, source, target, facts, id, now);
    if facts.source_set is None {
        let made = creation(paths, source.id@, id, facts.source_has_saves);
        assert(plan[6] == made[4]);
        assert(plan[6].deed == Deed::RecordSet { save_set_id: id, profile_id: source.id@ });
    }
}

/// Saves are replaced only by saves that are whole: they are copied beside the place and
/// looked over for a save slot before anything of the old ones is moved or removed.
pub proof fn law_saves_are_staged_first(
    source: Seq<char>,
    destination: Seq<char>,
    keep_control: bool,
    facts: DestinationFacts,
    id: Seq<char>,
    i: int,
)
    requires
        0 <= i < replacing(source, destination, keep_control, facts, id).len(),
    ensures
        ({
            let plan = replacing(source, destination, keep_control, facts, id);
            let staging = join_path(
                parent_path(destination)->0,
                ".cp2077-mod-tui-stage-"@ + id,
            );
            &&& plan[1].deed == Deed::CopySaves { from: source, to: staging }
            &&& plan[2].deed == Deed::CheckSlots { at: staging }
            &&& i < 3 ==> !(plan[i].deed is Move) && !(plan[i].deed is RemoveTree) && !(
            plan[i].deed is RemoveFile)
        }),
{
}

/// A profile plays with the saves of its save set, or with its own where it has none. What
/// is imported goes there, and what is exported comes from there.
pub proof fn law_profiles_play_with_their_saves(paths: AppPaths, profile_id: Seq<char>, set: SaveSet)
    ensures
        saves_in_use(paths, profile_id, Some(set)) == managed_saves(paths, set.id@),
        saves_in_use(paths, profile_id, None) == profile_saves(paths, profile_id),
{
}

} // verus!
