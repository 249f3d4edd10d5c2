//! What the lists and tables of the pages show.
use vstd::prelude::*;

use super::actions::{find_source, name_of, release_name};
use super::health::{flags_of, issue_flags, next_action, next_step, warn_count, warnings};
use super::page::cursor_profile;
use super::state::{
    behind, blocked_count, blocked_total, core_installed_count, enabled_count, enabled_total,
    find_save_set, installed_among, is_prepared, mode_number, mode_short_title, mode_title,
    save_set_of, selected_profile_is_prepared, selection_prepared, shown_conflicts,
    visible_conflicts, App, Mode, Pane,
};
use crate::catalog::{
    catalog, framework_views, frameworks, installed, is_installed, literal_views, Framework,
    FrameworkDescriptor,
};
use crate::doctor::{Check, Finding};
use crate::inbox::{CandidateKind, ImportCandidate};
use crate::models::{kind_name, GameInstall, ModRelease, ResolvedEntry};
use crate::path::{file_name, last_name, same_place};
use crate::text::{
    chars_of, decimal, decimal_signed, decimal_signed_text, decimal_text, has_text, join_texts,
    joined, same_text, views,
};

verus! {

/// Rows of cells, as sequences of characters.
pub open spec fn row_views(rows: Seq<Vec<String>>) -> Seq<Seq<Seq<char>>> {
    rows.map_values(|row: Vec<String>| views(row@))
}

/// The last entry of a mod.
pub open spec fn last_entry(resolved: Seq<ResolvedEntry>, id: Seq<char>) -> Option<ResolvedEntry>
    decreases resolved.len(),
{
    if resolved.len() == 0 {
        None
    } else if resolved.last().entry.mod_id@ == id {
        Some(resolved.last())
    } else {
        last_entry(resolved.drop_last(), id)
    }
}

fn find_last_entry<'a>(resolved: &'a Vec<ResolvedEntry>, id: &str) -> (r: Option<&'a ResolvedEntry>)
    ensures
        match r {
            Some(entry) => last_entry(resolved@, id@) == Some(*entry),
            None => last_entry(resolved@, id@) is None,
        },
{
    let mut i: usize = resolved.len();
    assert(resolved@.take(i as int) =~= resolved@);
    while i > 0
        invariant
            i <= resolved@.len(),
            last_entry(resolved@, id@) == last_entry(resolved@.take(i as int), id@),
        decreases i,
    {
        if same_text(&resolved[i - 1].entry.mod_id, id) {
            return Some(&resolved[i - 1]);
        }
        assert(resolved@.take(i as int).drop_last() =~= resolved@.take(i - 1));
        i -= 1;
    }
    None
}

/// The row of a mod: its state, its issues, its name, version and kind, and its
/// priority.
pub open spec fn mod_row_of(release: ModRelease, app: App) -> Seq<Seq<char>> {
    let entry = last_entry(app.resolved@, release.id@);
    seq![
        match entry {
            Some(entry) => if entry.effective_enabled {
                "[ON]"@
            } else if entry.entry.requested_enabled {
                "[--]"@
            } else {
                "[  ]"@
            },
            None => "[  ]"@,
        },
        flags_of(release, app),
        release.name@,
        release.version@,
        kind_name(release.kind),
        match entry {
            Some(entry) => decimal_signed(entry.entry.priority as int),
            None => Seq::empty(),
        },
    ]
}

fn mod_cells(release: &ModRelease, app: &App) -> (r: Vec<String>)
    ensures
        views(r@) == mod_row_of(*release, *app),
{
    let entry = find_last_entry(&app.resolved, &release.id);
    let state = match entry {
        Some(entry) => if entry.effective_enabled {
            "[ON]"
        } else if entry.entry.requested_enabled {
            "[--]"
        } else {
            "[  ]"
        },
        None => "[  ]",
    };
    let priority = match entry {
        Some(entry) => decimal_signed_text(entry.entry.priority),
        None => String::new(),
    };
    assert(entry is None ==> priority@ =~= Seq::<char>::empty());
    let mut r: Vec<String> = Vec::new();
    r.push(state.to_owned());
    r.push(issue_flags(release, app));
    r.push(release.name.clone());
    r.push(release.version.clone());
    r.push(release.kind.as_str().to_owned());
    r.push(priority);
    assert(views(r@) =~= mod_row_of(*release, *app));
    r
}

/// The rows of the table of mods.
pub fn mod_rows(app: &App) -> (r: Vec<Vec<String>>)
    ensures
        r@.len() == app.mods@.len(),
        forall|i: int|
            0 <= i < r@.len() ==> views((#[trigger] r@[i])@) == mod_row_of(app.mods@[i], *app),
{
    let mut r: Vec<Vec<String>> = Vec::new();
    let mut i: usize = 0;
    while i < app.mods.len()
        invariant
            i <= app.mods@.len(),
            r@.len() == i,
            forall|j: int|
                0 <= j < i ==> views((#[trigger] r@[j])@) == mod_row_of(app.mods@[j], *app),
        decreases app.mods@.len() - i,
    {
        r.push(mod_cells(&app.mods[i], app));
        i += 1;
    }
    r
}

/// The title of the table of mods.
pub fn mods_title(app: &App) -> (r: String)
    ensures
        r@ == " MODS // "@ + decimal(app.conflicts@.len())
            + " CLASHES // SPACE TOGGLE // D DELETE // C CONFLICTS "@,
{
    " MODS // ".to_owned().concat(&decimal_text(app.conflicts.len() as u128)).concat(
        " CLASHES // SPACE TOGGLE // D DELETE // C CONFLICTS ",
    )
}

/// The name of the file at a path, or the path where it has none.
pub open spec fn name_or_path(path: Seq<char>) -> Seq<char> {
    match last_name(path) {
        Some(name) => name,
        None => path,
    }
}

/// The name of the file at a path, or the path where it has none.
pub fn file_name_or_path(path: &str) -> (r: String)
    ensures
        r@ == name_or_path(path@),
{
    match file_name(path) {
        Some(name) => name,
        None => path.to_owned(),
    }
}

fn candidate_row(candidate: &ImportCandidate, imported: bool) -> (r: Vec<String>)
    ensures
        views(r@) == candidate_row_of(*candidate, imported),
{
    let mut r: Vec<String> = Vec::new();
    r.push(
        if imported {
            "IMPORTED".to_owned()
        } else {
            "NEW".to_owned()
        },
    );
    r.push(file_name_or_path(&candidate.path));
    r.push(candidate.kind.as_str().to_owned());
    r.push(candidate.path.clone());
    assert(views(r@) =~= candidate_row_of(*candidate, imported));
    r
}

/// The place of an import candidate: the resolved one, or its path where it was not
/// resolved.
pub open spec fn candidate_place(app: App, resolved: Seq<String>, i: int) -> Seq<char> {
    if i < resolved.len() {
        resolved[i]@
    } else {
        app.import_candidates@[i].path@
    }
}

/// Whether some release came from a place.
pub open spec fn came_from(sources: Seq<String>, place: Seq<char>) -> bool {
    exists|k: int| 0 <= k < sources.len() && same_place((#[trigger] sources[k])@, place)
}

/// The row of an import candidate.
pub open spec fn candidate_row_of(candidate: ImportCandidate, imported: bool) -> Seq<Seq<char>> {
    seq![
        if imported {
            "IMPORTED"@
        } else {
            "NEW"@
        },
        name_or_path(candidate.path@),
        match candidate.kind {
            CandidateKind::Directory => "directory"@,
            CandidateKind::Archive => "archive"@,
        },
        candidate.path@,
    ]
}

/// The rows of the inbox. A candidate was imported where the source of some release
/// is the same place; the sources and the candidates are given as resolved paths.
pub fn candidate_rows(app: &App, sources: &Vec<String>, resolved: &Vec<String>) -> (r: Vec<Vec<String>>)
    ensures
        r@.len() == app.import_candidates@.len(),
        forall|i: int|
            0 <= i < r@.len() ==> views((#[trigger] r@[i])@) == candidate_row_of(
                app.import_candidates@[i],
                came_from(sources@, candidate_place(*app, resolved@, i)),
            ),
{
    let mut r: Vec<Vec<String>> = Vec::new();
    let mut i: usize = 0;
    while i < app.import_candidates.len()
        invariant
            i <= app.import_candidates@.len(),
            r@.len() == i,
            forall|j: int|
                0 <= j < i ==> views((#[trigger] r@[j])@) == candidate_row_of(
                    app.import_candidates@[j],
                    came_from(sources@, candidate_place(*app, resolved@, j)),
                ),
        decreases app.import_candidates@.len() - i,
    {
        let candidate = &app.import_candidates[i];
        let place = if i < resolved.len() {
            resolved[i].as_str()
        } else {
            candidate.path.as_str()
        };
        let found = find_source(sources, place);
        assert(found is Some == came_from(sources@, place@)) by {
            if let Some(k) = found {
                assert(same_place(sources@[k as int]@, place@));
            }
        }
        r.push(candidate_row(candidate, found.is_some()));
        i += 1;
    }
    r
}

/// The title of the inbox.
pub fn inbox_title(app: &App) -> (r: String)
    ensures
        r@ == " INBOX "@ + app.import_root@ + if app.import_candidates@.len() == 0 {
            " "@
        } else {
            " // ENTER/I IMPORT // A OTHER PATH // R RESCAN "@
        },
{
    " INBOX ".to_owned().concat(&app.import_root).concat(
        if app.import_candidates.len() == 0 {
            " "
        } else {
            " // ENTER/I IMPORT // A OTHER PATH // R RESCAN "
        },
    )
}

/// The row of a contested path: the path and the names of its claimants.
pub open spec fn conflict_row_of(conflict: (String, Vec<String>), mods: Seq<ModRelease>) -> Seq<
    Seq<char>,
> {
    seq![
        conflict.0@,
        joined(
            views(conflict.1@).map_values(|owner: Seq<char>| name_of(mods, owner)),
            " > "@,
        ),
    ]
}

fn conflict_cells(conflict: &(String, Vec<String>), mods: &Vec<ModRelease>) -> (r: Vec<String>)
    ensures
        views(r@) == conflict_row_of(*conflict, mods@),
{
    let owners = &conflict.1;
    let ghost turn = |owner: Seq<char>| name_of(mods@, owner);
    let mut names: Vec<String> = Vec::new();
    let mut i: usize = 0;
    while i < owners.len()
        invariant
            i <= owners@.len(),
            names@.len() == i,
            forall|j: int| 0 <= j < i ==> (#[trigger] names@[j])@ == name_of(mods@, owners@[j]@),
        decreases owners@.len() - i,
    {
        names.push(release_name(mods, &owners[i]));
        i += 1;
    }
    assert(views(names@) =~= views(owners@).map_values(turn));
    let mut r: Vec<String> = Vec::new();
    r.push(conflict.0.clone());
    r.push(join_texts(&names, " > "));
    assert(views(r@) =~= conflict_row_of(*conflict, mods@));
    r
}

/// The rows of the table of contested paths.
pub fn conflict_rows(app: &App) -> (r: Vec<Vec<String>>)
    ensures
        r@.len() == shown_conflicts(*app).len(),
        forall|i: int|
            0 <= i < r@.len() ==> views((#[trigger] r@[i])@) == conflict_row_of(
                shown_conflicts(*app)[i],
                app.mods@,
            ),
{
    let shown = visible_conflicts(app);
    let ghost goal = shown_conflicts(*app);
    assert(behind(shown@).len() == shown@.len());
    let mut r: Vec<Vec<String>> = Vec::new();
    let mut i: usize = 0;
    while i < shown.len()
        invariant
            i <= shown@.len(),
            behind(shown@) == goal,
            r@.len() == i,
            forall|j: int|
                0 <= j < i ==> views((#[trigger] r@[j])@) == conflict_row_of(goal[j], app.mods@),
        decreases shown@.len() - i,
    {
        assert(goal[i as int] == *shown@[i as int]);
        r.push(conflict_cells(shown[i], &app.mods));
        i += 1;
    }
    r
}

/// The title of the table of contested paths.
pub fn conflicts_title(app: &App) -> (r: String)
    ensures
        r@ == " FILE CONFLICTS // "@ + decimal(shown_conflicts(*app).len())
            + if app.screen.show_all_conflicts {
            " ALL // SHIFT-C FILTER // C BACK "@
        } else {
            " FOR MOD // SHIFT-C ALL // C BACK "@
        },
{
    let shown = visible_conflicts(app);
    assert(behind(shown@).len() == shown@.len());
    " FILE CONFLICTS // ".to_owned().concat(&decimal_text(shown.len() as u128)).concat(
        if app.screen.show_all_conflicts {
            " ALL // SHIFT-C FILTER // C BACK "
        } else {
            " FOR MOD // SHIFT-C ALL // C BACK "
        },
    )
}

/// What is said where no contested path is shown.
pub fn no_conflicts_text(app: &App) -> (r: &'static str)
    ensures
        r@ == if app.screen.show_all_conflicts {
            "No exact-path collisions in this profile."@
        } else {
            "No collisions for the highlighted mod. Press c to show all."@
        },
{
    if app.screen.show_all_conflicts {
        "No exact-path collisions in this profile."
    } else {
        "No collisions for the highlighted mod. Press c to show all."
    }
}

/// The row of a framework: whether it is installed, its name, what it requires and
/// where it comes from.
pub open spec fn framework_row_of(framework: Framework, mods: Seq<ModRelease>) -> Seq<Seq<char>> {
    seq![
        if installed(mods, framework) {
            "INSTALLED"@
        } else {
            "AVAILABLE"@
        },
        framework.name,
        if framework.requires.len() == 0 {
            "—"@
        } else {
            joined(framework.requires, ", "@)
        },
        framework.repository,
    ]
}

fn owned_literals(list: &Vec<&'static str>) -> (r: Vec<String>)
    ensures
        views(r@) == literal_views(list@),
{
    let mut r: Vec<String> = Vec::new();
    let mut i: usize = 0;
    while i < list.len()
        invariant
            i <= list@.len(),
            r@.len() == i,
            forall|j: int| 0 <= j < i ==> (#[trigger] r@[j])@ == list@[j]@,
        decreases list@.len() - i,
    {
        r.push(list[i].to_owned());
        i += 1;
    }
    assert(views(r@) =~= literal_views(list@));
    r
}

fn framework_cells(framework: &FrameworkDescriptor, mods: &Vec<ModRelease>) -> (r: Vec<String>)
    ensures
        views(r@) == framework_row_of(framework@, mods@),
{
    let needs = owned_literals(&framework.requires);
    assert(views(needs@).len() == needs@.len());
    let mut r: Vec<String> = Vec::new();
    r.push(
        if is_installed(mods, framework) {
            "INSTALLED".to_owned()
        } else {
            "AVAILABLE".to_owned()
        },
    );
    r.push(framework.name.to_owned());
    r.push(
        if needs.len() == 0 {
            "—".to_owned()
        } else {
            join_texts(&needs, ", ")
        },
    );
    r.push(framework.repository.to_owned());
    assert(views(r@) =~= framework_row_of(framework@, mods@));
    r
}

/// The rows of the table of frameworks.
pub fn framework_rows(app: &App) -> (r: Vec<Vec<String>>)
    ensures
        r@.len() == catalog().len(),
        forall|i: int|
            0 <= i < r@.len() ==> views((#[trigger] r@[i])@) == framework_row_of(
                catalog()[i],
                app.mods@,
            ),
{
    let all = frameworks();
    let ghost known = framework_views(all@);
    assert(known.len() == all@.len());
    let mut r: Vec<Vec<String>> = Vec::new();
    let mut i: usize = 0;
    while i < all.len()
        invariant
            i <= all@.len(),
            known == framework_views(all@),
            known == catalog(),
            r@.len() == i,
            forall|j: int|
                0 <= j < i ==> views((#[trigger] r@[j])@) == framework_row_of(
                    catalog()[j],
                    app.mods@,
                ),
        decreases all@.len() - i,
    {
        assert(known[i as int] == all@[i as int]@);
        r.push(framework_cells(&all[i], &app.mods));
        i += 1;
    }
    r
}

/// The title of the table of frameworks.
pub fn frameworks_title(app: &App) -> (r: String)
    ensures
        r@ == " CORE FRAMEWORKS // "@ + decimal(installed_among(app.mods@, catalog().len()))
            + " / "@ + decimal(catalog().len()) + " INSTALLED // F FETCH // D DELETE "@,
{
    let total = frameworks().len();
    assert(total == catalog().len());
    " CORE FRAMEWORKS // ".to_owned().concat(
        &decimal_text(core_installed_count(app) as u128),
    ).concat(" / ").concat(&decimal_text(total as u128)).concat(
        " INSTALLED // F FETCH // D DELETE ",
    )
}

/// The row of a check.
pub open spec fn finding_row(finding: Finding) -> Seq<Seq<char>> {
    seq![
        if finding.ok {
            "OK"@
        } else {
            "WARN"@
        },
        finding.name,
        finding.detail,
        match finding.remedy {
            Some(remedy) => remedy,
            None => Seq::empty(),
        },
    ]
}

/// The rows about the loadout: whether the selected profile is prepared, whether
/// mods are blocked, and whether paths are contested.
pub open spec fn loadout_rows(app: App) -> Seq<Seq<Seq<char>>> {
    let prepared = selection_prepared(app);
    let broken = blocked_total(app.resolved@);
    let contested = app.conflicts@.len();
    seq![
        seq![
            if prepared {
                "OK"@
            } else {
                "WARN"@
            },
            "Selected profile"@,
            if prepared {
                "Isolated runtime is prepared"@
            } else {
                "Isolated runtime needs preparation"@
            },
            if prepared {
                Seq::empty()
            } else {
                "Press p on Loadout or Runtime"@
            },
        ],
        seq![
            if broken == 0 {
                "OK"@
            } else {
                "WARN"@
            },
            "Dependencies"@,
            if broken == 0 {
                "All requested mods can be enabled"@
            } else {
                decimal(broken) + " requested mod(s) are blocked"@
            },
            if broken == 0 {
                Seq::empty()
            } else {
                "Inspect Mods (3) and Core (6)"@
            },
        ],
        seq![
            if contested == 0 {
                "OK"@
            } else {
                "INFO"@
            },
            "File conflicts"@,
            decimal(contested) + " exact-path conflict(s)"@,
            if contested == 0 {
                Seq::empty()
            } else {
                "Review Conflicts (4); priority determines the winner"@
            },
        ],
    ]
}

fn cells(a: String, b: &str, c: String, d: String) -> (r: Vec<String>)
    ensures
        views(r@) == seq![a@, b@, c@, d@],
{
    let mut r: Vec<String> = Vec::new();
    r.push(a);
    r.push(b.to_owned());
    r.push(c);
    r.push(d);
    assert(views(r@) =~= seq![a@, b@, c@, d@]);
    r
}

fn check_cells(check: &Check) -> (r: Vec<String>)
    ensures
        views(r@) == finding_row(check@),
{
    let remedy = match &check.remedy {
        Some(remedy) => remedy.clone(),
        None => String::new(),
    };
    assert(check.remedy is None ==> remedy@ =~= Seq::<char>::empty());
    cells(
        if check.ok {
            "OK".to_owned()
        } else {
            "WARN".to_owned()
        },
        &check.name,
        check.detail.clone(),
        remedy,
    )
}

fn text_or_none(show: bool, text: &str) -> (r: String)
    ensures
        r@ == if show {
            text@
        } else {
            Seq::empty()
        },
{
    if show {
        text.to_owned()
    } else {
        let none = String::new();
        assert(none@ =~= Seq::<char>::empty());
        none
    }
}

/// The rows of the table of checks: one for each check, and those about the
/// loadout.
pub fn check_rows(app: &App) -> (r: Vec<Vec<String>>)
    ensures
        row_views(r@) == app.health_checks@.map_values(|check: Check| finding_row(check@))
            + loadout_rows(*app),
{
    let ghost turn = |check: Check| finding_row(check@);
    let mut r: Vec<Vec<String>> = Vec::new();
    let mut i: usize = 0;
    while i < app.health_checks.len()
        invariant
            i <= app.health_checks@.len(),
            r@.len() == i,
            forall|j: int|
                0 <= j < i ==> views((#[trigger] r@[j])@) == finding_row(app.health_checks@[j]@),
        decreases app.health_checks@.len() - i,
    {
        r.push(check_cells(&app.health_checks[i]));
        i += 1;
    }
    assert(row_views(r@) =~= app.health_checks@.map_values(turn));
    let ghost had = row_views(r@);
    let prepared = selected_profile_is_prepared(app);
    let broken = blocked_count(app);
    let contested = app.conflicts.len();
    r.push(
        cells(
            if prepared {
                "OK".to_owned()
            } else {
                "WARN".to_owned()
            },
            "Selected profile",
            if prepared {
                "Isolated runtime is prepared".to_owned()
            } else {
                "Isolated runtime needs preparation".to_owned()
            },
            text_or_none(!prepared, "Press p on Loadout or Runtime"),
        ),
    );
    r.push(
        cells(
            if broken == 0 {
                "OK".to_owned()
            } else {
                "WARN".to_owned()
            },
            "Dependencies",
            if broken == 0 {
                "All requested mods can be enabled".to_owned()
            } else {
                decimal_text(broken as u128).concat(" requested mod(s) are blocked")
            },
            text_or_none(broken != 0, "Inspect Mods (3) and Core (6)"),
        ),
    );
    r.push(
        cells(
            if contested == 0 {
                "OK".to_owned()
            } else {
                "INFO".to_owned()
            },
            "File conflicts",
            decimal_text(contested as u128).concat(" exact-path conflict(s)"),
            text_or_none(contested != 0, "Review Conflicts (4); priority determines the winner"),
        ),
    );
    assert(row_views(r@) =~= had + loadout_rows(*app));
    r
}

/// The name of the save set of a profile, or `private`.
pub open spec fn saves_text(app: App, id: Seq<char>) -> Seq<char> {
    match save_set_of(app.save_sets@, id) {
        Some(set) => set.name@,
        None => "private"@,
    }
}

fn saves_name(app: &App, id: &str) -> (r: String)
    ensures
        r@ == saves_text(*app, id@),
{
    match find_save_set(&app.save_sets, id) {
        Some(set) => set.name.clone(),
        None => "private".to_owned(),
    }
}

/// Whether a profile is prepared, in words.
pub open spec fn prepared_text(app: App, id: Seq<char>) -> Seq<char> {
    if is_prepared(app, id) {
        "PREPARED"@
    } else {
        "NEEDS PREP"@
    }
}

fn prepared_word(app: &App, id: &str) -> (r: &'static str)
    ensures
        r@ == prepared_text(*app, id@),
{
    if has_text(&app.prepared_profiles, id) {
        "PREPARED"
    } else {
        "NEEDS PREP"
    }
}

/// The line of a profile in the list of profiles.
pub open spec fn profile_line_of(app: App, i: int) -> Seq<char> {
    let profile = app.profiles@[i];
    (if i == app.screen.profile_index {
        "●"@
    } else {
        "○"@
    }) + " "@ + profile.name@ + "  ["@ + prepared_text(app, profile.id@) + "]  saves="@ + saves_text(
        app,
        profile.id@,
    ) + "  build="@ + profile.game_build_id@ + "  runner="@ + profile.runner@
}

/// The lines of the list of profiles.
pub fn profile_lines(app: &App) -> (r: Vec<String>)
    ensures
        r@.len() == app.profiles@.len(),
        forall|i: int| 0 <= i < r@.len() ==> (#[trigger] r@[i])@ == profile_line_of(*app, i),
{
    let mut r: Vec<String> = Vec::new();
    let mut i: usize = 0;
    while i < app.profiles.len()
        invariant
            i <= app.profiles@.len(),
            r@.len() == i,
            forall|j: int| 0 <= j < i ==> (#[trigger] r@[j])@ == profile_line_of(*app, j),
        decreases app.profiles@.len() - i,
    {
        let profile = &app.profiles[i];
        let marker = if i == app.screen.profile_index {
            "●"
        } else {
            "○"
        };
        r.push(
            marker.to_owned().concat(" ").concat(&profile.name).concat("  [").concat(
                prepared_word(app, &profile.id),
            ).concat("]  saves=").concat(&saves_name(app, &profile.id)).concat("  build=").concat(
                &profile.game_build_id,
            ).concat("  runner=").concat(&profile.runner),
        );
        i += 1;
    }
    r
}

/// What is said of the profile under the cursor, line by line.
pub open spec fn profile_detail(app: App) -> Seq<Seq<char>> {
    match cursor_profile(app) {
        Some(profile) => seq![
            profile.name@ + "  ["@ + prepared_text(app, profile.id@) + "]"@,
            "saves="@ + saves_text(app, profile.id@) + "  runner="@ + profile.runner@
                + "  build="@ + profile.game_build_id@,
            "Enter select • n new • s share • u private • i/e Steam • p prepare"@,
            "b create backup • Enter on list restores"@,
        ],
        None => seq!["No profile selected. Press n to create one."@],
    }
}

/// What is said of the profile under the cursor.
pub fn profile_detail_lines(app: &App) -> (r: Vec<String>)
    ensures
        views(r@) == profile_detail(*app),
{
    let mut r: Vec<String> = Vec::new();
    if app.screen.profile_cursor < app.profiles.len() {
        let profile = &app.profiles[app.screen.profile_cursor];
        r.push(
            profile.name.clone().concat("  [").concat(prepared_word(app, &profile.id)).concat("]"),
        );
        r.push(
            "saves=".to_owned().concat(&saves_name(app, &profile.id)).concat("  runner=").concat(
                &profile.runner,
            ).concat("  build=").concat(&profile.game_build_id),
        );
        r.push("Enter select • n new • s share • u private • i/e Steam • p prepare".to_owned());
        r.push("b create backup • Enter on list restores".to_owned());
    } else {
        r.push("No profile selected. Press n to create one.".to_owned());
    }
    assert(views(r@) =~= profile_detail(*app));
    r
}

/// The lines of the list of backups: the names of the files.
pub fn backup_lines(app: &App) -> (r: Vec<String>)
    ensures
        r@.len() == app.backups@.len(),
        forall|i: int| 0 <= i < r@.len() ==> (#[trigger] r@[i])@ == name_or_path(app.backups@[i]@),
{
    let mut r: Vec<String> = Vec::new();
    let mut i: usize = 0;
    while i < app.backups.len()
        invariant
            i <= app.backups@.len(),
            r@.len() == i,
            forall|j: int|
                0 <= j < i ==> (#[trigger] r@[j])@ == name_or_path(app.backups@[j]@),
        decreases app.backups@.len() - i,
    {
        r.push(file_name_or_path(&app.backups[i]));
        i += 1;
    }
    r
}

/// What stands above the table of mods, line by line.
pub open spec fn loadout_header_text(app: App, games: Seq<GameInstall>) -> Seq<Seq<char>> {
    seq![
        "LOADOUT  "@ + decimal(enabled_total(app.resolved@)) + " active / "@ + decimal(
            blocked_total(app.resolved@),
        ) + " blocked / "@ + decimal(app.conflicts@.len()) + " conflicts   CORE "@ + decimal(
            installed_among(app.mods@, catalog().len()),
        ) + "/"@ + decimal(catalog().len()) + "   WARN "@ + decimal(warnings(app)),
        next_step(app, games),
        "Space toggle • +/- priority • d delete • c conflicts • C all clashes • p prepare • x vanilla • Shift-L launch"@,
    ]
}

/// What stands above the table of mods.
pub fn loadout_header(app: &App, games: &[GameInstall]) -> (r: Vec<String>)
    ensures
        views(r@) == loadout_header_text(*app, games@),
{
    let total = frameworks().len();
    assert(total == catalog().len());
    let mut r: Vec<String> = Vec::new();
    r.push(
        "LOADOUT  ".to_owned().concat(&decimal_text(enabled_count(app) as u128)).concat(
            " active / ",
        ).concat(&decimal_text(blocked_count(app) as u128)).concat(" blocked / ").concat(
            &decimal_text(app.conflicts.len() as u128),
        ).concat(" conflicts   CORE ").concat(
            &decimal_text(core_installed_count(app) as u128),
        ).concat("/").concat(&decimal_text(total as u128)).concat("   WARN ").concat(
            &decimal_text(warn_count(app)),
        ),
    );
    r.push(next_action(app, games));
    r.push(
        "Space toggle • +/- priority • d delete • c conflicts • C all clashes • p prepare • x vanilla • Shift-L launch".to_owned(),
    );
    assert(views(r@) =~= loadout_header_text(*app, games@));
    r
}

/// The entry of a page in the sidebar.
pub open spec fn nav_text(mode: Mode, app: App, compact: bool) -> Seq<char> {
    (if app.screen.mode == mode && app.screen.pane == Pane::Sidebar {
        "▶"@
    } else {
        " "@
    }) + decimal(mode_number(mode) as nat) + " "@ + if compact {
        mode_short_title(mode)
    } else {
        mode_title(mode)
    }
}

/// The entry of a page in the sidebar.
pub fn nav_label(mode: Mode, app: &App, compact: bool) -> (r: String)
    ensures
        r@ == nav_text(mode, *app, compact),
{
    let marker = if app.screen.mode == mode && app.screen.pane == Pane::Sidebar {
        "▶"
    } else {
        " "
    };
    let name = if compact {
        mode.short_title()
    } else {
        mode.title()
    };
    marker.to_owned().concat(&decimal_text(mode.number() as u128)).concat(" ").concat(name)
}

/// How many blanks stand between the entry of a page and its badge: what is left of
/// the width, but one at least.
pub fn nav_gap(label: &str, badge: &str, width: u16) -> (r: usize)
    ensures
        r == if width - label@.len() - badge@.len() > 1 {
            width - label@.len() - badge@.len()
        } else {
            1
        },
{
    let taken: u128 = (chars_of(label).len() as u128) + (chars_of(badge).len() as u128);
    if (width as u128) > taken + 1 {
        ((width as u128) - taken) as usize
    } else {
        1
    }
}

/// The name of the selected profile, or `none`.
pub open spec fn selected_name(app: App) -> Seq<char> {
    if app.screen.profile_index < app.profiles@.len() {
        app.profiles@[app.screen.profile_index as int].name@
    } else {
        "none"@
    }
}

fn profile_name(app: &App) -> (r: String)
    ensures
        r@ == selected_name(*app),
{
    if app.screen.profile_index < app.profiles.len() {
        app.profiles[app.screen.profile_index].name.clone()
    } else {
        "none".to_owned()
    }
}

/// What stands above the pages in the sidebar.
pub fn sidebar_head(app: &App) -> (r: String)
    ensures
        r@ == "● "@ + selected_name(*app),
{
    "● ".to_owned().concat(&profile_name(app))
}

/// The title of the status line.
pub fn status_title(app: &App) -> (r: String)
    ensures
        r@ == " STATUS // "@ + selected_name(*app) + " "@,
{
    " STATUS // ".to_owned().concat(&profile_name(app)).concat(" ")
}

/// What stands below the pages in the sidebar, line by line.
pub open spec fn footer_text(theme: Seq<char>, narrow: bool) -> Seq<Seq<char>> {
    if narrow {
        seq![theme, "t theme"@, "? help  L"@]
    } else {
        seq![theme, "t theme  ? help"@, "L launch"@]
    }
}

/// Whether the sidebar has no room for long names.
pub fn is_narrow(width: u16) -> (r: bool)
    ensures
        r == (width < 16),
{
    width < 16
}

/// What stands below the pages in the sidebar.
pub fn sidebar_footer(app: &App, width: u16) -> (r: Vec<String>)
    ensures
        views(r@) == footer_text(app.theme.name@, width < 16),
{
    let mut r: Vec<String> = Vec::new();
    r.push(app.theme.name.clone());
    if is_narrow(width) {
        r.push("t theme".to_owned());
        r.push("? help  L".to_owned());
    } else {
        r.push("t theme  ? help".to_owned());
        r.push("L launch".to_owned());
    }
    assert(views(r@) =~= footer_text(app.theme.name@, width < 16));
    r
}

/// What the page of profiles shows.
#[derive(Debug, Clone, Copy, PartialEq, Eq, Structural)]
pub enum RuntimeParts {
    Both,
    Profiles,
    Detail,
}

/// What the page of profiles shows: both parts side by side where there is room, or
/// else the one with the focus.
pub fn runtime_parts(width: u16, pane: Pane) -> (r: RuntimeParts)
    ensures
        r == if width >= 70 {
            RuntimeParts::Both
        } else if pane == Pane::Secondary {
            RuntimeParts::Detail
        } else {
            RuntimeParts::Profiles
        },
{
    if width >= 70 {
        RuntimeParts::Both
    } else if pane == Pane::Secondary {
        RuntimeParts::Detail
    } else {
        RuntimeParts::Profiles
    }
}

/// What marks the highlighted line of a list, where the pane has the focus.
pub fn list_highlight(app: &App, pane: Pane) -> (r: &'static str)
    ensures
        r@ == if app.screen.pane == pane {
            "▶ "@
        } else {
            "  "@
        },
{
    if app.screen.pane == pane {
        "▶ "
    } else {
        "  "
    }
}

/// The lines of the help.
pub open spec fn help_text(theme: Seq<char>) -> Seq<Seq<char>> {
    seq![
        "1 Loadout   2 Add   3 Runtime   q quit"@,
        "h/l or arrows: sidebar ↔ list ↔ extra pane   j/k move in focus"@,
        "p prepare   Shift-L launch   x/v vanilla loadout"@,
        "Loadout: Space toggle (y fixes deps/dups)   +/- priority   d delete"@,
        "c file conflicts   C all vs selected mod"@,
        "ISSUE flags: dep missing/disabled dependency   clash file conflict   dup duplicate"@,
        "Add Core: f fetch/enable   d delete   (r replaces if already installed)"@,
        "Add Inbox: Enter/i import   a other path   r rescan"@,
        "Runtime: Enter select   n new   s share   u private   i/e Steam"@,
        "Runtime backups: b create   Enter restore"@,
        "t cycle theme   ? or Esc close help"@,
        ""@,
        "Active theme: "@ + theme,
    ]
}

/// The lines of the help.
pub fn help_lines(app: &App) -> (r: Vec<String>)
    ensures
        views(r@) == help_text(app.theme.name@),
{
    let mut r: Vec<String> = Vec::new();
    r.push("1 Loadout   2 Add   3 Runtime   q quit".to_owned());
    r.push("h/l or arrows: sidebar ↔ list ↔ extra pane   j/k move in focus".to_owned());
    r.push("p prepare   Shift-L launch   x/v vanilla loadout".to_owned());
    r.push("Loadout: Space toggle (y fixes deps/dups)   +/- priority   d delete".to_owned());
    r.push("c file conflicts   C all vs selected mod".to_owned());
    r.push(
        "ISSUE flags: dep missing/disabled dependency   clash file conflict   dup duplicate".to_owned(),
    );
    r.push("Add Core: f fetch/enable   d delete   (r replaces if already installed)".to_owned());
    r.push("Add Inbox: Enter/i import   a other path   r rescan".to_owned());
    r.push("Runtime: Enter select   n new   s share   u private   i/e Steam".to_owned());
    r.push("Runtime backups: b create   Enter restore".to_owned());
    r.push("t cycle theme   ? or Esc close help".to_owned());
    r.push("".to_owned());
    r.push("Active theme: ".to_owned().concat(&app.theme.name));
    assert(views(r@) =~= help_text(app.theme.name@));
    r
}

proof fn lemma_only_entry(resolved: Seq<ResolvedEntry>, id: Seq<char>, k: int)
    requires
        0 <= k < resolved.len(),
        resolved[k].entry.mod_id@ == id,
        forall|j: int|
            0 <= j < resolved.len() && j != k ==> (#[trigger] resolved[j]).entry.mod_id@ != id,
    ensures
        last_entry(resolved, id) == Some(resolved[k]),
    decreases resolved.len(),
{
    if k < resolved.len() - 1 {
        assert(resolved[resolved.len() - 1].entry.mod_id@ != id);
        let front = resolved.drop_last();
        assert forall|j: int| 0 <= j < front.len() && j != k implies (
        #[trigger] front[j]).entry.mod_id@ != id by {
            assert(front[j] == resolved[j]);
        }
        lemma_only_entry(front, id, k);
    }
}

/// The table of mods shows what becomes of each: that it is on, that it was asked for and
/// cannot be, or that it is off; and its name, version and priority.
pub proof fn law_rows_show_what_is_on(release: ModRelease, app: App, k: int)
    requires
        0 <= k < app.resolved@.len(),
        app.resolved@[k].entry.mod_id@ == release.id@,
        forall|j: int|
            0 <= j < app.resolved@.len() && j != k ==> (
            #[trigger] app.resolved@[j]).entry.mod_id@ != release.id@,
    ensures
        ({
            let row = mod_row_of(release, app);
            let entry = app.resolved@[k];
            &&& row.len() == 6
            &&& entry.effective_enabled ==> row[0] == "[ON]"@
            &&& !entry.effective_enabled && entry.entry.requested_enabled ==> row[0] == "[--]"@
            &&& !entry.effective_enabled && !entry.entry.requested_enabled ==> row[0] == "[  ]"@
            &&& row[2] == release.name@
            &&& row[3] == release.version@
            &&& row[5] == decimal_signed(entry.entry.priority as int)
        }),
{
    lemma_only_entry(app.resolved@, release.id@, k);
}

/// The inbox marks what was imported already, and shows each candidate by its name, what
/// it is and where it lies.
pub proof fn law_inbox_rows_mark_what_is_imported(candidate: ImportCandidate, imported: bool)
    ensures
        ({
            let row = candidate_row_of(candidate, imported);
            &&& row.len() == 4
            &&& imported ==> row[0] == "IMPORTED"@
            &&& !imported ==> row[0] == "NEW"@
            &&& last_name(candidate.path@) is Some ==> row[1] == last_name(candidate.path@)->0
            &&& candidate.kind == CandidateKind::Directory ==> row[2] == "directory"@
            &&& candidate.kind == CandidateKind::Archive ==> row[2] == "archive"@
            &&& row[3] == candidate.path@
        }),
{
}

/// A contested path is shown with the names of its claimants in their order, the first of
/// which wins it.
pub proof fn law_conflict_rows_name_the_claimants(
    path: String,
    owners: Vec<String>,
    mods: Seq<ModRelease>,
)
    requires
        owners@.len() == 2,
    ensures
        conflict_row_of((path, owners), mods) == seq![
            path@,
            name_of(mods, owners@[0]@) + " > "@ + name_of(mods, owners@[1]@),
        ],
{
    let names = views(owners@).map_values(|owner: Seq<char>| name_of(mods, owner));
    assert(names =~= seq![name_of(mods, owners@[0]@), name_of(mods, owners@[1]@)]);
    assert(names.drop_last() =~= seq![name_of(mods, owners@[0]@)]);
    reveal_with_fuel(joined, 3);
}

/// A framework is shown as installed where some release is a copy of it, with its name and
/// where it comes from.
pub proof fn law_framework_rows_show_what_is_there(framework: Framework, mods: Seq<ModRelease>)
    ensures
        ({
            let row = framework_row_of(framework, mods);
            let there = exists|i: int|
                0 <= i < mods.len() && crate::catalog::is_copy(#[trigger] mods[i], framework);
            &&& row.len() == 4
            &&& there ==> row[0] == "INSTALLED"@
            &&& !there ==> row[0] == "AVAILABLE"@
            &&& row[1] == framework.name
            &&& row[3] == framework.repository
        }),
{
}

/// The selected profile is marked in the list, and each is shown with its name.
pub proof fn law_selected_profile_is_marked(app: App, i: int)
    requires
        0 <= i < app.profiles@.len(),
    ensures
        i == app.screen.profile_index ==> ("●"@ + " "@ + app.profiles@[i].name@).is_prefix_of(
            profile_line_of(app, i),
        ),
        i != app.screen.profile_index ==> ("○"@ + " "@ + app.profiles@[i].name@).is_prefix_of(
            profile_line_of(app, i),
        ),
{
    let line = profile_line_of(app, i);
    let front = (if i == app.screen.profile_index {
        "●"@
    } else {
        "○"@
    }) + " "@ + app.profiles@[i].name@;
    assert(front =~= line.subrange(0, front.len() as int));
}

} // verus!
