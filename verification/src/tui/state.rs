//! The state of the screen: where the user is and what there is to see.
use vstd::prelude::*;

use crate::catalog::{catalog, frameworks, installed, is_installed};
use crate::doctor::Check;
use crate::inbox::ImportCandidate;
use crate::models::{ModRelease, Profile, ResolvedEntry, SaveSet};
use crate::text::{has_text, views};
use crate::theme::Theme;

verus! {

/// A page of the screen.
#[derive(Debug, Clone, Copy, PartialEq, Eq, Structural)]
pub enum Mode {
    Loadout,
    Add,
    Runtime,
}

/// The number of a page.
pub open spec fn mode_number(mode: Mode) -> u8 {
    match mode {
        Mode::Loadout => 1,
        Mode::Add => 2,
        Mode::Runtime => 3,
    }
}

/// The title of a page.
pub open spec fn mode_title(mode: Mode) -> Seq<char> {
    match mode {
        Mode::Loadout => "Loadout"@,
        Mode::Add => "Add"@,
        Mode::Runtime => "Runtime"@,
    }
}

/// The title of a page where there is little room.
pub open spec fn mode_short_title(mode: Mode) -> Seq<char> {
    match mode {
        Mode::Loadout => "Load"@,
        Mode::Add => "Add"@,
        Mode::Runtime => "Run"@,
    }
}

impl Mode {
    /// The pages in their order.
    pub const ALL: [Mode; 3] = [Mode::Loadout, Mode::Add, Mode::Runtime];

    /// The number of the page.
    pub fn number(self) -> (r: u8)
        ensures
            r == mode_number(self),
    {
        match self {
            Mode::Loadout => 1,
            Mode::Add => 2,
            Mode::Runtime => 3,
        }
    }

    /// The title of the page.
    pub fn title(self) -> (r: &'static str)
        ensures
            r@ == mode_title(self),
    {
        match self {
            Mode::Loadout => "Loadout",
            Mode::Add => "Add",
            Mode::Runtime => "Runtime",
        }
    }

    /// The title of the page where there is little room.
    pub fn short_title(self) -> (r: &'static str)
        ensures
            r@ == mode_short_title(self),
    {
        match self {
            Mode::Loadout => "Load",
            Mode::Add => "Add",
            Mode::Runtime => "Run",
        }
    }
}

/// A part of a page.
#[derive(Debug, Clone, Copy, PartialEq, Eq, Structural)]
pub enum Pane {
    Sidebar,
    Primary,
    Secondary,
}

/// The pane to the left.
pub open spec fn left_of(pane: Pane) -> Pane {
    if pane == Pane::Secondary {
        Pane::Primary
    } else {
        Pane::Sidebar
    }
}

/// The pane to the right.
pub open spec fn right_of(pane: Pane) -> Pane {
    if pane == Pane::Sidebar {
        Pane::Primary
    } else {
        Pane::Secondary
    }
}

/// The pane to the left.
pub fn focus_left(pane: Pane) -> (r: Pane)
    ensures
        r == left_of(pane),
{
    match pane {
        Pane::Secondary => Pane::Primary,
        Pane::Primary | Pane::Sidebar => Pane::Sidebar,
    }
}

/// The pane to the right.
pub fn focus_right(pane: Pane) -> (r: Pane)
    ensures
        r == right_of(pane),
{
    match pane {
        Pane::Sidebar => Pane::Primary,
        Pane::Primary | Pane::Secondary => Pane::Secondary,
    }
}

/// Two steps to one side of the screen reach its end, whatever the start.
pub proof fn law_focus_reaches_the_ends(pane: Pane)
    ensures
        left_of(left_of(pane)) == Pane::Sidebar,
        right_of(right_of(pane)) == Pane::Secondary,
{
}

/// Where the user is on the screen.
#[derive(Debug, Clone, Copy, PartialEq, Eq, Structural)]
pub struct Screen {
    pub mode: Mode,
    pub pane: Pane,
    pub loadout_index: usize,
    pub conflict_index: usize,
    pub show_all_conflicts: bool,
    pub core_index: usize,
    pub inbox_index: usize,
    pub profile_index: usize,
    pub profile_cursor: usize,
    pub backup_index: usize,
    pub help_open: bool,
}

/// What waits for a yes or a no.
#[derive(Debug)]
pub enum PendingAction {
    DisableAllMods,
    RestoreBackup(String),
    ShareSaves { source_id: String, target_id: String },
    MakeSavesPrivate { profile_id: String },
    ImportSteamSaves { profile_id: String },
    ExportSteamSaves { profile_id: String },
    FrameworkPresent { framework_id: String, release_id: String, version: String, copies: usize },
    DeleteMods { ids: Vec<String>, label: String, used_by: Vec<String> },
    EnableMod {
        release_id: String,
        release_name: String,
        enable_deps: Vec<(String, String)>,
        missing_deps: Vec<String>,
        disable_dups: Vec<(String, String)>,
    },
}

/// What waits for a yes or a no, as sequences of characters.
pub enum Question {
    DisableAllMods,
    RestoreBackup(Seq<char>),
    ShareSaves(Seq<char>, Seq<char>),
    MakeSavesPrivate(Seq<char>),
    ImportSteamSaves(Seq<char>),
    ExportSteamSaves(Seq<char>),
    FrameworkPresent(Seq<char>, Seq<char>, Seq<char>, nat),
    DeleteMods(Seq<Seq<char>>, Seq<char>, Seq<Seq<char>>),
    EnableMod(
        Seq<char>,
        Seq<char>,
        Seq<(Seq<char>, Seq<char>)>,
        Seq<Seq<char>>,
        Seq<(Seq<char>, Seq<char>)>,
    ),
}

impl View for PendingAction {
    type V = Question;

    open spec fn view(&self) -> Question {
        match self {
            PendingAction::DisableAllMods => Question::DisableAllMods,
            PendingAction::RestoreBackup(path) => Question::RestoreBackup(path@),
            PendingAction::ShareSaves { source_id, target_id } => Question::ShareSaves(
                source_id@,
                target_id@,
            ),
            PendingAction::MakeSavesPrivate { profile_id } => Question::MakeSavesPrivate(profile_id@),
            PendingAction::ImportSteamSaves { profile_id } => Question::ImportSteamSaves(profile_id@),
            PendingAction::ExportSteamSaves { profile_id } => Question::ExportSteamSaves(profile_id@),
            PendingAction::FrameworkPresent { framework_id, release_id, version, copies } =>
                Question::FrameworkPresent(
                framework_id@,
                release_id@,
                version@,
                *copies as nat,
            ),
            PendingAction::DeleteMods { ids, label, used_by } => Question::DeleteMods(
                views(ids@),
                label@,
                views(used_by@),
            ),
            PendingAction::EnableMod {
                release_id,
                release_name,
                enable_deps,
                missing_deps,
                disable_dups,
            } => Question::EnableMod(
                release_id@,
                release_name@,
                crate::outside::pair_views(enable_deps@),
                views(missing_deps@),
                crate::outside::pair_views(disable_dups@),
            ),
        }
    }
}

/// A question or none.
pub open spec fn question_of(pending: Option<PendingAction>) -> Option<Question> {
    match pending {
        Some(action) => Some(action@),
        None => None,
    }
}

/// All that the screen shows.
pub struct App {
    pub screen: Screen,
    pub status: String,
    pub mods: Vec<ModRelease>,
    pub profiles: Vec<Profile>,
    pub resolved: Vec<ResolvedEntry>,
    pub import_root: String,
    pub import_candidates: Vec<ImportCandidate>,
    pub import_path_input: Option<String>,
    pub profile_name_input: Option<String>,
    pub pending_action: Option<PendingAction>,
    /// The ids of the profiles whose prefix is prepared.
    pub prepared_profiles: Vec<String>,
    /// The save sets by the ids of the profiles that use them.
    pub save_sets: Vec<(String, SaveSet)>,
    pub backups: Vec<String>,
    pub conflicts: Vec<(String, Vec<String>)>,
    pub health_checks: Vec<Check>,
    pub theme: Theme,
}

/// Whether two states show the same things.
pub open spec fn same_data(a: App, b: App) -> bool {
    &&& a.mods == b.mods
    &&& a.profiles == b.profiles
    &&& a.resolved == b.resolved
    &&& a.import_root == b.import_root
    &&& a.import_candidates == b.import_candidates
    &&& a.prepared_profiles == b.prepared_profiles
    &&& a.save_sets == b.save_sets
    &&& a.backups == b.backups
    &&& a.conflicts == b.conflicts
    &&& a.health_checks == b.health_checks
}

/// Whether a contested path is claimed by a mod.
pub open spec fn claimed_by(conflict: (String, Vec<String>), id: Seq<char>) -> bool {
    views(conflict.1@).contains(id)
}

/// The contested paths that are shown: all of them, or those of the highlighted
/// mod where there is one.
pub open spec fn shown_conflicts(app: App) -> Seq<(String, Vec<String>)> {
    if app.screen.show_all_conflicts || app.screen.loadout_index >= app.mods@.len() {
        app.conflicts@
    } else {
        conflicts_of(app.conflicts@, app.mods@[app.screen.loadout_index as int].id@)
    }
}

/// The contested paths that a mod claims.
pub open spec fn conflicts_of(conflicts: Seq<(String, Vec<String>)>, id: Seq<char>) -> Seq<
    (String, Vec<String>),
> {
    conflicts.filter(|conflict: (String, Vec<String>)| claimed_by(conflict, id))
}

/// A list of references, as the things they refer to.
pub open spec fn behind<'a>(list: Seq<&'a (String, Vec<String>)>) -> Seq<(String, Vec<String>)> {
    list.map_values(|conflict: &'a (String, Vec<String>)| *conflict)
}

fn pick_conflicts<'a>(conflicts: &'a Vec<(String, Vec<String>)>, id: &str) -> (r: Vec<
    &'a (String, Vec<String>),
>)
    ensures
        behind(r@) == conflicts_of(conflicts@, id@),
{
    let ghost keep = |conflict: (String, Vec<String>)| claimed_by(conflict, id@);
    let mut r: Vec<&'a (String, Vec<String>)> = Vec::new();
    let mut i: usize = 0;
    assert(behind(r@) =~= conflicts@.take(0).filter(keep)) by {
        reveal(Seq::filter);
    }
    while i < conflicts.len()
        invariant
            i <= conflicts@.len(),
            keep == (|conflict: (String, Vec<String>)| claimed_by(conflict, id@)),
            behind(r@) == conflicts@.take(i as int).filter(keep),
        decreases conflicts@.len() - i,
    {
        let ghost had = behind(r@);
        assert(conflicts@.take(i + 1).drop_last() =~= conflicts@.take(i as int));
        if has_text(&conflicts[i].1, id) {
            r.push(&conflicts[i]);
            assert(behind(r@) =~= had.push(conflicts@[i as int]));
        }
        assert(behind(r@) =~= conflicts@.take(i + 1).filter(keep)) by {
            reveal(Seq::filter);
        }
        i += 1;
    }
    assert(conflicts@.take(i as int) =~= conflicts@);
    r
}

/// The contested paths that are shown.
pub fn visible_conflicts(app: &App) -> (r: Vec<&(String, Vec<String>)>)
    ensures
        behind(r@) == shown_conflicts(*app),
{
    if app.screen.show_all_conflicts || app.screen.loadout_index >= app.mods.len() {
        let mut r: Vec<&(String, Vec<String>)> = Vec::new();
        let mut i: usize = 0;
        while i < app.conflicts.len()
            invariant
                i <= app.conflicts@.len(),
                behind(r@) == app.conflicts@.take(i as int),
            decreases app.conflicts@.len() - i,
        {
            let ghost had = behind(r@);
            r.push(&app.conflicts[i]);
            assert(behind(r@) =~= had.push(app.conflicts@[i as int]));
            assert(app.conflicts@.take(i + 1) =~= app.conflicts@.take(i as int).push(
                app.conflicts@[i as int],
            ));
            i += 1;
        }
        assert(app.conflicts@.take(i as int) =~= app.conflicts@);
        r
    } else {
        pick_conflicts(&app.conflicts, &app.mods[app.screen.loadout_index].id)
    }
}

/// How many contested paths a mod claims.
pub open spec fn clashes(app: App, id: Seq<char>) -> nat {
    conflicts_of(app.conflicts@, id).len()
}

/// How many contested paths a mod claims.
pub fn clash_count(id: &str, app: &App) -> (r: usize)
    ensures
        r == clashes(*app, id@),
{
    let picked = pick_conflicts(&app.conflicts, id);
    assert(behind(picked@).len() == picked@.len());
    picked.len()
}

/// Whether a profile has a prepared prefix.
pub open spec fn is_prepared(app: App, id: Seq<char>) -> bool {
    views(app.prepared_profiles@).contains(id)
}

/// Whether there is a selected profile and it is prepared.
pub open spec fn selection_prepared(app: App) -> bool {
    app.screen.profile_index < app.profiles@.len() && is_prepared(
        app,
        app.profiles@[app.screen.profile_index as int].id@,
    )
}

/// Whether there is a selected profile and it is prepared.
pub fn selected_profile_is_prepared(app: &App) -> (r: bool)
    ensures
        r == selection_prepared(*app),
{
    app.screen.profile_index < app.profiles.len() && has_text(
        &app.prepared_profiles,
        &app.profiles[app.screen.profile_index].id,
    )
}

/// The save set of a profile; the last where several are listed for it.
pub open spec fn save_set_of(list: Seq<(String, SaveSet)>, id: Seq<char>) -> Option<SaveSet>
    decreases list.len(),
{
    if list.len() == 0 {
        None
    } else if list.last().0@ == id {
        Some(list.last().1)
    } else {
        save_set_of(list.drop_last(), id)
    }
}

/// The save set of a profile.
pub fn find_save_set<'a>(list: &'a Vec<(String, SaveSet)>, id: &str) -> (r: Option<&'a SaveSet>)
    ensures
        match r {
            Some(set) => save_set_of(list@, id@) == Some(*set),
            None => save_set_of(list@, id@) is None,
        },
{
    let mut i: usize = list.len();
    assert(list@.take(i as int) =~= list@);
    while i > 0
        invariant
            i <= list@.len(),
            save_set_of(list@, id@) == save_set_of(list@.take(i as int), id@),
        decreases i,
    {
        if crate::text::same_text(&list[i - 1].0, id) {
            return Some(&list[i - 1].1);
        }
        assert(list@.take(i as int).drop_last() =~= list@.take(i - 1));
        i -= 1;
    }
    None
}

/// How many mods are enabled.
pub open spec fn enabled_total(resolved: Seq<ResolvedEntry>) -> nat {
    resolved.filter(|entry: ResolvedEntry| entry.effective_enabled).len()
}

/// Whether a mod is requested and cannot be enabled.
pub open spec fn is_blocked(entry: ResolvedEntry) -> bool {
    entry.entry.requested_enabled && !entry.effective_enabled
}

/// How many mods are requested and cannot be enabled.
pub open spec fn blocked_total(resolved: Seq<ResolvedEntry>) -> nat {
    resolved.filter(|entry: ResolvedEntry| is_blocked(entry)).len()
}

/// How many mods are enabled.
pub fn enabled_count(app: &App) -> (r: usize)
    ensures
        r == enabled_total(app.resolved@),
{
    let ghost keep = |entry: ResolvedEntry| entry.effective_enabled;
    let mut count: usize = 0;
    let mut i: usize = 0;
    assert(app.resolved@.take(0).filter(keep).len() == 0) by {
        reveal(Seq::filter);
    }
    while i < app.resolved.len()
        invariant
            i <= app.resolved@.len(),
            count <= i,
            keep == (|entry: ResolvedEntry| entry.effective_enabled),
            count == app.resolved@.take(i as int).filter(keep).len(),
        decreases app.resolved@.len() - i,
    {
        assert(app.resolved@.take(i + 1).drop_last() =~= app.resolved@.take(i as int));
        if app.resolved[i].effective_enabled {
            count += 1;
        }
        assert(count == app.resolved@.take(i + 1).filter(keep).len()) by {
            reveal(Seq::filter);
        }
        i += 1;
    }
    assert(app.resolved@.take(i as int) =~= app.resolved@);
    count
}

/// How many mods are requested and cannot be enabled.
pub fn blocked_count(app: &App) -> (r: usize)
    ensures
        r == blocked_total(app.resolved@),
        r <= app.resolved@.len(),
{
    let ghost keep = |entry: ResolvedEntry| is_blocked(entry);
    let mut count: usize = 0;
    let mut i: usize = 0;
    assert(app.resolved@.take(0).filter(keep).len() == 0) by {
        reveal(Seq::filter);
    }
    while i < app.resolved.len()
        invariant
            i <= app.resolved@.len(),
            count <= i,
            keep == (|entry: ResolvedEntry| is_blocked(entry)),
            count == app.resolved@.take(i as int).filter(keep).len(),
        decreases app.resolved@.len() - i,
    {
        assert(app.resolved@.take(i + 1).drop_last() =~= app.resolved@.take(i as int));
        if app.resolved[i].entry.requested_enabled && !app.resolved[i].effective_enabled {
            count += 1;
        }
        assert(count == app.resolved@.take(i + 1).filter(keep).len()) by {
            reveal(Seq::filter);
        }
        i += 1;
    }
    assert(app.resolved@.take(i as int) =~= app.resolved@);
    count
}

/// How many of the first `n` frameworks are installed.
pub open spec fn installed_among(mods: Seq<ModRelease>, n: nat) -> nat
    decreases n,
{
    if n == 0 {
        0
    } else if installed(mods, catalog()[n - 1]) {
        installed_among(mods, (n - 1) as nat) + 1
    } else {
        installed_among(mods, (n - 1) as nat)
    }
}

/// How many frameworks are installed.
pub fn core_installed_count(app: &App) -> (r: usize)
    ensures
        r == installed_among(app.mods@, catalog().len()),
        r <= 6,
{
    let all = frameworks();
    let ghost known = crate::catalog::framework_views(all@);
    assert(known.len() == 6);
    let mut count: usize = 0;
    let mut i: usize = 0;
    while i < all.len()
        invariant
            i <= all@.len(),
            all@.len() == 6,
            count <= i,
            known == crate::catalog::framework_views(all@),
            known == catalog(),
            count == installed_among(app.mods@, i as nat),
        decreases all@.len() - i,
    {
        assert(known[i as int] == all@[i as int]@);
        if is_installed(&app.mods, &all[i]) {
            count += 1;
        }
        i += 1;
    }
    count
}

/// The contested paths that are shown are all of them, or those that the highlighted mod
/// claims.
pub proof fn law_conflicts_are_those_of_the_mod(app: App, conflict: (String, Vec<String>))
    ensures
        app.screen.show_all_conflicts ==> shown_conflicts(app) == app.conflicts@,
        app.screen.loadout_index >= app.mods@.len() ==> shown_conflicts(app) == app.conflicts@,
        !app.screen.show_all_conflicts && app.screen.loadout_index < app.mods@.len() ==> (
        shown_conflicts(app).contains(conflict) <==> app.conflicts@.contains(conflict) && views(
            conflict.1@,
        ).contains(app.mods@[app.screen.loadout_index as int].id@)),
{
    broadcast use crate::order::lemma_same_filter;

    if !app.screen.show_all_conflicts && app.screen.loadout_index < app.mods@.len() {
        let id = app.mods@[app.screen.loadout_index as int].id@;
        let keep = |conflict: (String, Vec<String>)| claimed_by(conflict, id);
        let all = app.conflicts@;
        let kept = all.filter(keep);
        if kept.contains(conflict) {
            let n = choose|n: int| 0 <= n < kept.len() && kept[n] == conflict;
            let k = crate::order::lemma_filtered(all, keep, n);
            assert(all[k] == conflict);
        }
        if all.contains(conflict) && claimed_by(conflict, id) {
            let k = choose|k: int| 0 <= k < all.len() && all[k] == conflict;
            all.lemma_filter_contains(keep, k);
        }
    }
}

/// The pages have their numbers, by which their keys open them, and their names.
pub proof fn law_pages_have_their_names()
    ensures
        mode_number(Mode::Loadout) == 1 && mode_title(Mode::Loadout) == "Loadout"@,
        mode_number(Mode::Add) == 2 && mode_title(Mode::Add) == "Add"@,
        mode_number(Mode::Runtime) == 3 && mode_title(Mode::Runtime) == "Runtime"@,
{
}

/// The save set of a profile is the one that it is listed with.
pub proof fn law_save_sets_are_found(list: Seq<(String, SaveSet)>, id: Seq<char>, k: int)
    ensures
        0 <= k < list.len() && list[k].0@ == id && (forall|j: int|
            k < j < list.len() ==> (#[trigger] list[j]).0@ != id) ==> save_set_of(list, id) == Some(
            list[k].1,
        ),
        (forall|j: int| 0 <= j < list.len() ==> (#[trigger] list[j]).0@ != id) ==> save_set_of(list, id)
            is None,
    decreases list.len(),
{
    if list.len() > 0 {
        let front = list.drop_last();
        let n = list.len() - 1;
        law_save_sets_are_found(front, id, k);
        assert forall|j: int| 0 <= j < front.len() implies #[trigger] front[j] == list[j] by {}
        if 0 <= k < n && list[k].0@ == id && (forall|j: int|
            k < j < list.len() ==> (#[trigger] list[j]).0@ != id) {
            assert(list[n].0@ != id);
            assert forall|j: int| k < j < front.len() implies (#[trigger] front[j]).0@ != id by {
                assert(list[j].0@ != id);
            }
        }
        if forall|j: int| 0 <= j < list.len() ==> (#[trigger] list[j]).0@ != id {
            assert(list[n].0@ != id);
            assert forall|j: int| 0 <= j < front.len() implies (#[trigger] front[j]).0@ != id by {
                assert(list[j].0@ != id);
            }
        }
    }
}

/// Every mod that is enabled counts as one, and every mod that was asked for and is not.
pub proof fn law_mods_are_counted(resolved: Seq<ResolvedEntry>, entry: ResolvedEntry)
    ensures
        enabled_total(resolved.push(entry)) == enabled_total(resolved) + if entry.effective_enabled {
            1int
        } else {
            0
        },
        blocked_total(resolved.push(entry)) == blocked_total(resolved)
            + if entry.entry.requested_enabled && !entry.effective_enabled {
            1int
        } else {
            0
        },
        enabled_total(Seq::empty()) == 0,
        blocked_total(Seq::empty()) == 0,
{
    broadcast use crate::order::lemma_same_filter;

    reveal(Seq::filter);
    let more = resolved.push(entry);
    assert(more.drop_last() =~= resolved);
    assert(more.last() == entry);
    let on = |entry: ResolvedEntry| entry.effective_enabled;
    let stuck = |entry: ResolvedEntry| is_blocked(entry);
    assert(more.filter(on).len() == resolved.filter(on).len() + if on(entry) {
        1int
    } else {
        0
    });
    assert(more.filter(stuck).len() == resolved.filter(stuck).len() + if stuck(entry) {
        1int
    } else {
        0
    });
    let none = Seq::<ResolvedEntry>::empty();
    assert(none.filter(on).len() == 0);
    assert(none.filter(stuck).len() == 0);
}

/// Frameworks are counted that some release is a copy of.
pub proof fn law_frameworks_are_counted(mods: Seq<ModRelease>, n: nat)
    ensures
        installed_among(mods, n) <= n,
        installed_among(mods, n) > 0 <==> exists|i: int|
            0 <= i < n && installed(mods, #[trigger] catalog()[i]),
        installed_among(mods, n) == n <==> forall|i: int|
            0 <= i < n ==> installed(mods, #[trigger] catalog()[i]),
    decreases n,
{
    if n > 0 {
        law_frameworks_are_counted(mods, (n - 1) as nat);
        let last = n - 1;
        if installed(mods, catalog()[last]) {
            assert(0 <= last < n && installed(mods, catalog()[last]));
        }
    }
}

} // verus!
