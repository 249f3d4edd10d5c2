//! What the commands of the page decide.
use vstd::prelude::*;

use super::page::selected_profile;
use super::plan::{enable_plan, is_enable_plan, EnablePlan};
use super::state::{
    clash_count, clashes, question_of, same_data, App, Mode, Pane, PendingAction, Question, Screen,
};
use crate::catalog::{
    catalog, framework_views, frameworks, is_copy, known, known_at, matching_releases, Framework,
};
use crate::models::{Dependency, LoadoutEntry, ModRelease, Profile};
use crate::order::{add_text, ascending};
use crate::outside::pair_views;
use crate::path::same_path;
use crate::records::{entry_of_mod, entry_stands};
use crate::text::{decimal, decimal_text, join_texts, joined, same_text, views};

verus! {

/// The highlighted mod.
pub open spec fn highlighted(app: App) -> Option<ModRelease> {
    if app.screen.loadout_index < app.mods@.len() {
        Some(app.mods@[app.screen.loadout_index as int])
    } else {
        None
    }
}

/// What a toggle of the highlighted mod leads to.
#[derive(Debug)]
pub enum ToggleStep {
    Nothing,
    /// The mod is turned off.
    Disable { mod_id: String, name: String },
    /// The mod is turned on, with the changes of the plan.
    Enable { mod_id: String, plan: EnablePlan },
}

/// Whether a mod is requested: by its first entry.
pub open spec fn turned_on(entries: Seq<LoadoutEntry>, mod_id: Seq<char>) -> bool {
    exists|i: int| #[trigger] entry_stands(entries, mod_id, i) && entries[i].requested_enabled
}

fn is_turned_on(entries: &[LoadoutEntry], mod_id: &str) -> (r: bool)
    ensures
        r == turned_on(entries@, mod_id@),
{
    match entry_of_mod(entries, mod_id) {
        Some(i) => {
            assert(entry_stands(entries@, mod_id@, i as int));
            assert forall|k: int| entry_stands(entries@, mod_id@, k) implies k == i by {
                if k < i {
                    assert(entries@[k].mod_id@ == mod_id@);
                }
                if i < k {
                    assert(entries@[i as int].mod_id@ == mod_id@);
                }
            }
            entries[i].requested_enabled
        },
        None => {
            assert forall|k: int| !entry_stands(entries@, mod_id@, k) by {
                if entry_stands(entries@, mod_id@, k) {
                    assert(entries@[k].mod_id@ == mod_id@);
                }
            }
            false
        },
    }
}

/// Whether a plan leaves nothing to ask about.
pub open spec fn is_plain(plan: EnablePlan) -> bool {
    plan.enable_deps@.len() == 0 && plan.missing_deps@.len() == 0 && plan.disable_dups@.len() == 0
}

/// Decides what a toggle of the highlighted mod leads to. A mod that is on is
/// turned off. One that is off is turned on, where nothing else has to change; else
/// the changes are asked about.
pub fn request_toggle_selected(app: &mut App, loadout: &[LoadoutEntry], deps: &[Dependency]) -> (r:
    ToggleStep)
    ensures
        same_data(*old(app), *final(app)),
        final(app).screen == old(app).screen,
        final(app).theme == old(app).theme,
        final(app).import_path_input == old(app).import_path_input,
        final(app).profile_name_input == old(app).profile_name_input,
        match (selected_profile(*old(app)), highlighted(*old(app))) {
            (None, _) => {
                &&& r is Nothing
                &&& final(app).status@ == "Create a profile first."@
                &&& final(app).pending_action == old(app).pending_action
            },
            (Some(_), None) => {
                &&& r is Nothing
                &&& final(app).status == old(app).status
                &&& final(app).pending_action == old(app).pending_action
            },
            (Some(_), Some(release)) => if turned_on(loadout@, release.id@) {
                &&& r is Disable
                &&& r->Disable_mod_id@ == release.id@
                &&& r->name@ == release.name@
                &&& final(app).status == old(app).status
                &&& final(app).pending_action == old(app).pending_action
            } else {
                exists|plan: EnablePlan| #[trigger]
                    is_enable_plan(plan, release, old(app).mods@, loadout@, deps@) && if is_plain(
                        plan,
                    ) {
                        &&& r is Enable
                        &&& r->Enable_mod_id@ == release.id@
                        &&& r->plan == plan
                        &&& final(app).status == old(app).status
                        &&& final(app).pending_action == old(app).pending_action
                    } else {
                        &&& r is Nothing
                        &&& final(app).status@ == "Enable "@ + release.name@
                            + " with fixes? y apply, n enable only, Esc cancel."@
                        &&& question_of(final(app).pending_action) == Some(
                            Question::EnableMod(
                                release.id@,
                                release.name@,
                                pair_views(plan.enable_deps@),
                                views(plan.missing_deps@),
                                pair_views(plan.disable_dups@),
                            ),
                        )
                    }
            },
        },
{
    if app.screen.profile_index >= app.profiles.len() {
        app.status = "Create a profile first.".to_owned();
        return ToggleStep::Nothing;
    }
    if app.screen.loadout_index >= app.mods.len() {
        return ToggleStep::Nothing;
    }
    let release = app.mods[app.screen.loadout_index].clone();
    if is_turned_on(loadout, &release.id) {
        return ToggleStep::Disable { mod_id: release.id, name: release.name };
    }
    let plan = enable_plan(&release, &app.mods, loadout, deps);
    assert(is_enable_plan(plan, release, old(app).mods@, loadout@, deps@));
    if plan.needs_prompt() {
        app.status = "Enable ".to_owned().concat(&release.name).concat(
            " with fixes? y apply, n enable only, Esc cancel.",
        );
        app.pending_action = Some(
            PendingAction::EnableMod {
                release_id: release.id,
                release_name: release.name,
                enable_deps: plan.enable_deps,
                missing_deps: plan.missing_deps,
                disable_dups: plan.disable_dups,
            },
        );
        return ToggleStep::Nothing;
    }
    ToggleStep::Enable { mod_id: release.id, plan }
}

/// The mods that enabling a mod turns on or off, in the order of the changes: the
/// mod itself, and where the plan is followed, what has to be enabled and what has
/// to be disabled.
pub open spec fn changes_of(
    release_id: Seq<char>,
    enable: Seq<(Seq<char>, Seq<char>)>,
    disable: Seq<(Seq<char>, Seq<char>)>,
    safe: bool,
) -> Seq<(Seq<char>, bool)> {
    seq![(release_id, true)] + if safe {
        enable.map_values(|p: (Seq<char>, Seq<char>)| (p.0, true)) + disable.map_values(
            |p: (Seq<char>, Seq<char>)| (p.0, false),
        )
    } else {
        Seq::empty()
    }
}

/// A list of changes, as sequences of characters.
pub open spec fn change_views(list: Seq<(String, bool)>) -> Seq<(Seq<char>, bool)> {
    list.map_values(|c: (String, bool)| (c.0@, c.1))
}

fn push_changes(changes: &mut Vec<(String, bool)>, pairs: &Vec<(String, String)>, on: bool)
    ensures
        change_views(final(changes)@) == change_views(old(changes)@) + pair_views(
            pairs@,
        ).map_values(|p: (Seq<char>, Seq<char>)| (p.0, on)),
{
    let ghost had = change_views(changes@);
    let ghost all = pair_views(pairs@);
    let ghost turn = |p: (Seq<char>, Seq<char>)| (p.0, on);
    let mut i: usize = 0;
    assert(had + all.take(0).map_values(turn) =~= had);
    while i < pairs.len()
        invariant
            i <= pairs@.len(),
            all == pair_views(pairs@),
            turn == (|p: (Seq<char>, Seq<char>)| (p.0, on)),
            change_views(changes@) == had + all.take(i as int).map_values(turn),
        decreases pairs@.len() - i,
    {
        let ghost so_far = change_views(changes@);
        assert(all[i as int].0 == pairs@[i as int].0@);
        changes.push((pairs[i].0.clone(), on));
        assert(change_views(changes@) =~= so_far.push(turn(all[i as int])));
        assert(had + all.take(i + 1).map_values(turn) =~= (had + all.take(i as int).map_values(
            turn,
        )).push(turn(all[i as int])));
        i += 1;
    }
    assert(all.take(i as int) =~= all);
}

/// The changes that enabling a mod makes.
pub fn enable_changes(release_id: &str, plan: &EnablePlan, safe: bool) -> (r: Vec<(String, bool)>)
    ensures
        change_views(r@) == changes_of(
            release_id@,
            pair_views(plan.enable_deps@),
            pair_views(plan.disable_dups@),
            safe,
        ),
{
    let mut changes: Vec<(String, bool)> = Vec::new();
    changes.push((release_id.to_owned(), true));
    assert(change_views(changes@) =~= seq![(release_id@, true)]);
    if safe {
        push_changes(&mut changes, &plan.enable_deps, true);
        push_changes(&mut changes, &plan.disable_dups, false);
    }
    assert(change_views(changes@) =~= changes_of(
        release_id@,
        pair_views(plan.enable_deps@),
        pair_views(plan.disable_dups@),
        safe,
    ));
    changes
}

/// What is said of a plan that was followed or not.
pub open spec fn plan_remarks(
    enable: Seq<(Seq<char>, Seq<char>)>,
    missing: Seq<Seq<char>>,
    disable: Seq<(Seq<char>, Seq<char>)>,
    safe: bool,
) -> Seq<Seq<char>> {
    (if safe {
        enable.map_values(|p: (Seq<char>, Seq<char>)| "enabled "@ + p.1) + disable.map_values(
            |p: (Seq<char>, Seq<char>)| "disabled duplicate "@ + p.1,
        )
    } else {
        Seq::empty()
    }) + if missing.len() > 0 {
        seq!["still missing "@ + joined(missing, ", "@) + " — fetch from Add (2, f)"@]
    } else {
        Seq::empty()
    }
}

fn push_remarks(remarks: &mut Vec<String>, pairs: &Vec<(String, String)>, what: &str)
    ensures
        views(final(remarks)@) == views(old(remarks)@) + pair_views(pairs@).map_values(
            |p: (Seq<char>, Seq<char>)| what@ + p.1,
        ),
{
    let ghost had = views(remarks@);
    let ghost all = pair_views(pairs@);
    let ghost turn = |p: (Seq<char>, Seq<char>)| what@ + p.1;
    let mut i: usize = 0;
    assert(had + all.take(0).map_values(turn) =~= had);
    while i < pairs.len()
        invariant
            i <= pairs@.len(),
            all == pair_views(pairs@),
            turn == (|p: (Seq<char>, Seq<char>)| what@ + p.1),
            views(remarks@) == had + all.take(i as int).map_values(turn),
        decreases pairs@.len() - i,
    {
        let ghost so_far = views(remarks@);
        assert(all[i as int].1 == pairs@[i as int].1@);
        remarks.push(what.to_owned().concat(&pairs[i].1));
        assert(views(remarks@) =~= so_far.push(turn(all[i as int])));
        assert(had + all.take(i + 1).map_values(turn) =~= (had + all.take(i as int).map_values(
            turn,
        )).push(turn(all[i as int])));
        i += 1;
    }
    assert(all.take(i as int) =~= all);
}

fn remarks_on_plan(plan: &EnablePlan, safe: bool) -> (r: Vec<String>)
    ensures
        views(r@) == plan_remarks(
            pair_views(plan.enable_deps@),
            views(plan.missing_deps@),
            pair_views(plan.disable_dups@),
            safe,
        ),
{
    let mut remarks: Vec<String> = Vec::new();
    assert(views(remarks@) =~= Seq::<Seq<char>>::empty());
    if safe {
        push_remarks(&mut remarks, &plan.enable_deps, "enabled ");
        push_remarks(&mut remarks, &plan.disable_dups, "disabled duplicate ");
    }
    assert(views(plan.missing_deps@).len() == plan.missing_deps@.len());
    let ghost had = views(remarks@);
    if plan.missing_deps.len() > 0 {
        let text = "still missing ".to_owned().concat(&join_texts(&plan.missing_deps, ", ")).concat(
            " — fetch from Add (2, f)",
        );
        let ghost said = text@;
        remarks.push(text);
        assert(views(remarks@) =~= had + seq![said]);
    }
    assert(views(remarks@) =~= plan_remarks(
        pair_views(plan.enable_deps@),
        views(plan.missing_deps@),
        pair_views(plan.disable_dups@),
        safe,
    ));
    remarks
}

/// Whether the release at `i` is the first with an id.
pub open spec fn release_at(mods: Seq<ModRelease>, id: Seq<char>, i: int) -> bool {
    &&& 0 <= i < mods.len()
    &&& mods[i].id@ == id
    &&& forall|j: int| 0 <= j < i ==> (#[trigger] mods[j]).id@ != id
}

/// The name of the release with an id, or else the id.
pub open spec fn name_of(mods: Seq<ModRelease>, id: Seq<char>) -> Seq<char> {
    if exists|i: int| release_at(mods, id, i) {
        mods[choose|i: int| release_at(mods, id, i)].name@
    } else {
        id
    }
}

/// The name of the release with an id, or else the id.
pub fn release_name(mods: &Vec<ModRelease>, id: &str) -> (r: String)
    ensures
        r@ == name_of(mods@, id@),
{
    let mut i: usize = 0;
    while i < mods.len()
        invariant
            i <= mods@.len(),
            forall|j: int| 0 <= j < i ==> (#[trigger] mods@[j]).id@ != id@,
        decreases mods@.len() - i,
    {
        if same_text(&mods[i].id, id) {
            assert(release_at(mods@, id@, i as int));
            proof {
                let k = choose|k: int| release_at(mods@, id@, k);
                assert(k == i);
            }
            return mods[i].name.clone();
        }
        i += 1;
    }
    assert forall|k: int| !release_at(mods@, id@, k) by {
        if release_at(mods@, id@, k) {
            assert(mods@[k].id@ == id@);
        }
    }
    id.to_owned()
}

/// What is said of a mod that was enabled.
pub open spec fn enabled_text(
    app: App,
    release_id: Seq<char>,
    remarks: Seq<Seq<char>>,
) -> Seq<char> {
    let head = "Enabled "@ + name_of(app.mods@, release_id) + "."@;
    let with_remarks = if remarks.len() > 0 {
        head + " "@ + joined(remarks, "; "@) + "."@
    } else {
        head
    };
    if clashes(app, release_id) > 0 {
        with_remarks + " "@ + decimal(clashes(app, release_id))
            + " file conflict(s). Press c. +/- sets the winner."@
    } else {
        with_remarks
    }
}

/// What is said of a mod that was enabled.
pub fn enabled_status(app: &App, release_id: &str, plan: &EnablePlan, safe: bool) -> (r: String)
    ensures
        r@ == enabled_text(
            *app,
            release_id@,
            plan_remarks(
                pair_views(plan.enable_deps@),
                views(plan.missing_deps@),
                pair_views(plan.disable_dups@),
                safe,
            ),
        ),
{
    let remarks = remarks_on_plan(plan, safe);
    assert(views(remarks@).len() == remarks@.len());
    let count = clash_count(release_id, app);
    let mut status = "Enabled ".to_owned().concat(&release_name(&app.mods, release_id)).concat(".");
    if remarks.len() > 0 {
        status = status.concat(" ").concat(&join_texts(&remarks, "; ")).concat(".");
    }
    if count > 0 {
        status = status.concat(" ").concat(&decimal_text(count as u128)).concat(
            " file conflict(s). Press c. +/- sets the winner.",
        );
    }
    status
}

/// How many copies there are, in words.
pub open spec fn copies_text(count: nat) -> Seq<char> {
    decimal(count) + " cop"@ + if count == 1 {
        "y"@
    } else {
        "ies"@
    }
}

/// How many copies there are, in words.
pub fn count_copies(count: usize) -> (r: String)
    ensures
        r@ == copies_text(count as nat),
{
    decimal_text(count as u128).concat(" cop").concat(
        if count == 1 {
            "y"
        } else {
            "ies"
        },
    )
}

/// The copies of a framework in the library.
pub open spec fn copies_of(mods: Seq<ModRelease>, framework: Framework) -> Seq<ModRelease> {
    mods.filter(|release: ModRelease| is_copy(release, framework))
}

/// What a request for a framework leads to.
#[derive(Debug, Clone, Copy, PartialEq, Eq, Structural)]
pub enum InstallStep {
    /// Nothing is highlighted, or a question is asked.
    Nothing,
    /// The highlighted framework is fetched.
    Fetch,
}

/// Decides what a request for the highlighted framework leads to. Where the library
/// has a copy, it is asked what to do with it.
pub fn request_framework_install(app: &mut App) -> (r: InstallStep)
    ensures
        same_data(*old(app), *final(app)),
        final(app).screen == old(app).screen,
        final(app).theme == old(app).theme,
        final(app).import_path_input == old(app).import_path_input,
        final(app).profile_name_input == old(app).profile_name_input,
        if old(app).screen.core_index >= catalog().len() {
            &&& r is Nothing
            &&& final(app).status == old(app).status
            &&& final(app).pending_action == old(app).pending_action
        } else {
            let framework = catalog()[old(app).screen.core_index as int];
            let copies = copies_of(old(app).mods@, framework);
            if copies.len() > 0 {
                &&& r is Nothing
                &&& question_of(final(app).pending_action) == Some(
                    Question::FrameworkPresent(
                        framework.id,
                        copies[0].id@,
                        copies[0].version@,
                        copies.len(),
                    ),
                )
                &&& final(app).status@ == framework.name + " "@ + copies[0].version@
                    + " is already installed ("@ + copies_text(copies.len())
                    + "). y enable existing, r replace with latest, n cancel."@
            } else {
                &&& r is Fetch
                &&& final(app).status@ == "Fetching "@ + framework.name
                    + " from its upstream release…"@
                &&& final(app).pending_action == old(app).pending_action
            }
        },
{
    let all = frameworks();
    let ghost known = framework_views(all@);
    assert(known.len() == all@.len());
    if app.screen.core_index >= all.len() {
        return InstallStep::Nothing;
    }
    let framework = &all[app.screen.core_index];
    assert(known[app.screen.core_index as int] == framework@);
    let copies = matching_releases(&app.mods, framework);
    let ghost found = copies_of(app.mods@, framework@);
    assert(copies@.map_values(|release: &ModRelease| *release) == found);
    assert(found.len() == copies@.len());
    if copies.len() > 0 {
        assert(found[0] == *copies@[0]);
        let id = copies[0].id.clone();
        let version = copies[0].version.clone();
        let count = copies.len();
        app.status = framework.name.to_owned().concat(" ").concat(&version).concat(
            " is already installed (",
        ).concat(&count_copies(count)).concat(
            "). y enable existing, r replace with latest, n cancel.",
        );
        app.pending_action = Some(
            PendingAction::FrameworkPresent {
                framework_id: framework.id.to_owned(),
                release_id: id,
                version,
                copies: count,
            },
        );
        return InstallStep::Nothing;
    }
    app.status = "Fetching ".to_owned().concat(framework.name).concat(
        " from its upstream release…",
    );
    InstallStep::Fetch
}

/// Turns to the framework that is about to be replaced. Gives its place in the
/// catalog; `None` where the framework is not known.
pub fn begin_replacement(app: &mut App, framework_id: &str) -> (r: Option<usize>)
    ensures
        same_data(*old(app), *final(app)),
        final(app).theme == old(app).theme,
        final(app).import_path_input == old(app).import_path_input,
        final(app).profile_name_input == old(app).profile_name_input,
        final(app).pending_action == old(app).pending_action,
        match r {
            Some(i) => {
                &&& known_at(framework_id@, i as int)
                &&& final(app).screen == (Screen {
                    mode: Mode::Add,
                    pane: Pane::Primary,
                    core_index: i,
                    ..old(app).screen
                })
                &&& final(app).status@ == "Replacing "@ + catalog()[i as int].name
                    + " with its latest upstream release…"@
            },
            None => {
                &&& known(framework_id@) is None
                &&& final(app).screen == old(app).screen
                &&& final(app).status@ == "Unknown framework."@
            },
        },
{
    let all = frameworks();
    let ghost views = framework_views(all@);
    let mut i: usize = 0;
    while i < all.len()
        invariant
            i <= all@.len(),
            views == framework_views(all@),
            views == catalog(),
            *app == *old(app),
            forall|j: int| 0 <= j < i ==> (#[trigger] catalog()[j]).id != framework_id@,
        decreases all@.len() - i,
    {
        assert(views[i as int] == all@[i as int]@);
        if same_text(all[i].id, framework_id) {
            app.screen.mode = Mode::Add;
            app.screen.pane = Pane::Primary;
            app.screen.core_index = i;
            app.status = "Replacing ".to_owned().concat(all[i].name).concat(
                " with its latest upstream release…",
            );
            return Some(i);
        }
        i += 1;
    }
    assert forall|k: int| !known_at(framework_id@, k) by {
        if known_at(framework_id@, k) {
            assert(catalog()[k].id == framework_id@);
        }
    }
    app.status = "Unknown framework.".to_owned();
    None
}

/// Asks about the deletion of the highlighted mod. `used_by` names the profiles
/// that use it.
pub fn request_delete_selected_mod(app: &mut App, used_by: Vec<String>)
    ensures
        same_data(*old(app), *final(app)),
        final(app).screen == old(app).screen,
        final(app).theme == old(app).theme,
        final(app).import_path_input == old(app).import_path_input,
        final(app).profile_name_input == old(app).profile_name_input,
        match highlighted(*old(app)) {
            None => {
                &&& final(app).status@ == "No mod is selected."@
                &&& final(app).pending_action == old(app).pending_action
            },
            Some(release) => {
                &&& question_of(final(app).pending_action) == Some(
                    Question::DeleteMods(
                        seq![release.id@],
                        release.name@ + " "@ + release.version@,
                        views(used_by@),
                    ),
                )
                &&& final(app).status@ == "Delete "@ + release.name@ + " "@ + release.version@
                    + " from the library? Press y to confirm or n to cancel."@
            },
        },
{
    if app.screen.loadout_index >= app.mods.len() {
        app.status = "No mod is selected.".to_owned();
        return ;
    }
    let release = app.mods[app.screen.loadout_index].clone();
    let mut ids: Vec<String> = Vec::new();
    ids.push(release.id.clone());
    assert(views(ids@) =~= seq![release.id@]);
    app.status = "Delete ".to_owned().concat(&release.name).concat(" ").concat(
        &release.version,
    ).concat(" from the library? Press y to confirm or n to cancel.");
    app.pending_action = Some(
        PendingAction::DeleteMods {
            ids,
            label: release.name.clone().concat(" ").concat(&release.version),
            used_by,
        },
    );
}

/// The names that profiles have, each once and in their order.
pub fn gather_names(lists: &Vec<Vec<String>>) -> (r: Vec<String>)
    ensures
        ascending(views(r@)),
        forall|t: Seq<char>| #[trigger]
            views(r@).contains(t) <==> exists|i: int|
                0 <= i < lists@.len() && #[trigger] views(lists@[i]@).contains(t),
{
    let mut r: Vec<String> = Vec::new();
    let mut i: usize = 0;
    while i < lists.len()
        invariant
            i <= lists@.len(),
            ascending(views(r@)),
            forall|t: Seq<char>| #[trigger]
                views(r@).contains(t) <==> exists|k: int|
                    0 <= k < i && #[trigger] views(lists@[k]@).contains(t),
        decreases lists@.len() - i,
    {
        let list = &lists[i];
        let ghost before = views(r@);
        let mut n: usize = 0;
        while n < list.len()
            invariant
                n <= list@.len(),
                ascending(views(r@)),
                forall|t: Seq<char>| #[trigger]
                    views(r@).contains(t) <==> before.contains(t) || views(list@).take(
                        n as int,
                    ).contains(t),
            decreases list@.len() - n,
        {
            let ghost had = views(r@);
            let ghost text = list@[n as int]@;
            add_text(&mut r, list[n].clone());
            proof {
                let now = views(r@);
                let part = views(list@).take(n as int);
                let more = views(list@).take(n + 1);
                assert(more =~= part.push(text));
                assert forall|t: Seq<char>| #[trigger] now.contains(t) <==> before.contains(t)
                    || more.contains(t) by {
                    assert(now.to_set().contains(t) == had.to_set().insert(text).contains(t));
                    assert(now.to_set().contains(t) == now.contains(t));
                    assert(had.to_set().contains(t) == had.contains(t));
                    if part.contains(t) {
                        let k = choose|k: int| 0 <= k < part.len() && part[k] == t;
                        assert(more[k] == t);
                    }
                    if more.contains(t) && t != text {
                        let k = choose|k: int| 0 <= k < more.len() && more[k] == t;
                        assert(part[k] == t);
                    }
                    if t == text {
                        assert(more[n as int] == t);
                    }
                }
            }
            n += 1;
        }
        assert(views(list@).take(n as int) =~= views(list@));
        assert forall|t: Seq<char>| #[trigger] views(r@).contains(t) <==> exists|k: int|
            0 <= k < i + 1 && #[trigger] views(lists@[k]@).contains(t) by {
            if views(list@).contains(t) {
                assert(views(lists@[i as int]@).contains(t));
            }
            if before.contains(t) {
                let k = choose|k: int| 0 <= k < i && #[trigger] views(lists@[k]@).contains(t);
                assert(views(lists@[k]@).contains(t));
            }
        }
        i += 1;
    }
    r
}

/// The ids of releases.
pub open spec fn ids_of(list: Seq<ModRelease>) -> Seq<Seq<char>> {
    list.map_values(|release: ModRelease| release.id@)
}

/// The ids of the copies of the highlighted framework.
pub fn framework_copies(app: &App) -> (r: Vec<String>)
    ensures
        views(r@) == if app.screen.core_index < catalog().len() {
            ids_of(copies_of(app.mods@, catalog()[app.screen.core_index as int]))
        } else {
            Seq::empty()
        },
{
    let all = frameworks();
    let ghost known = framework_views(all@);
    assert(known.len() == all@.len());
    let mut r: Vec<String> = Vec::new();
    if app.screen.core_index >= all.len() {
        assert(views(r@) =~= Seq::<Seq<char>>::empty());
        return r;
    }
    let framework = &all[app.screen.core_index];
    assert(known[app.screen.core_index as int] == framework@);
    let copies = matching_releases(&app.mods, framework);
    let ghost found = copies_of(app.mods@, framework@);
    assert(copies@.map_values(|release: &ModRelease| *release) == found);
    let mut i: usize = 0;
    while i < copies.len()
        invariant
            i <= copies@.len(),
            copies@.map_values(|release: &ModRelease| *release) == found,
            r@.len() == i,
            forall|j: int| 0 <= j < i ==> (#[trigger] r@[j])@ == found[j].id@,
        decreases copies@.len() - i,
    {
        assert(found[i as int] == *copies@[i as int]);
        r.push(copies[i].id.clone());
        i += 1;
    }
    assert(views(r@) =~= ids_of(found));
    r
}

/// Asks about the deletion of the copies of the highlighted framework. `used_by`
/// names the profiles that use them.
pub fn request_delete_selected_framework(app: &mut App, used_by: Vec<String>)
    ensures
        same_data(*old(app), *final(app)),
        final(app).screen == old(app).screen,
        final(app).theme == old(app).theme,
        final(app).import_path_input == old(app).import_path_input,
        final(app).profile_name_input == old(app).profile_name_input,
        if old(app).screen.core_index >= catalog().len() {
            &&& final(app).status == old(app).status
            &&& final(app).pending_action == old(app).pending_action
        } else {
            let framework = catalog()[old(app).screen.core_index as int];
            let copies = copies_of(old(app).mods@, framework);
            if copies.len() == 0 {
                &&& final(app).status@ == framework.name + " is not installed."@
                &&& final(app).pending_action == old(app).pending_action
            } else {
                &&& final(app).status@ == "Delete "@ + framework.name
                    + " from the library? Press y to confirm or n to cancel."@
                &&& question_of(final(app).pending_action) == Some(
                    Question::DeleteMods(
                        ids_of(copies),
                        framework.name + " ("@ + copies_text(copies.len()) + ")"@,
                        views(used_by@),
                    ),
                )
            }
        },
{
    let all = frameworks();
    let ghost known = framework_views(all@);
    assert(known.len() == all@.len());
    if app.screen.core_index >= all.len() {
        return ;
    }
    let framework = &all[app.screen.core_index];
    assert(known[app.screen.core_index as int] == framework@);
    let ids = framework_copies(app);
    assert(views(ids@).len() == ids@.len());
    if ids.len() == 0 {
        app.status = framework.name.to_owned().concat(" is not installed.");
        return ;
    }
    let label = framework.name.to_owned().concat(" (").concat(&count_copies(ids.len())).concat(")");
    app.status = "Delete ".to_owned().concat(framework.name).concat(
        " from the library? Press y to confirm or n to cancel.",
    );
    app.pending_action = Some(PendingAction::DeleteMods { ids, label, used_by });
}

/// Whether the source at `i` is the first at the place of a path.
pub open spec fn source_at(sources: Seq<String>, path: Seq<char>, i: int) -> bool {
    &&& 0 <= i < sources.len()
    &&& crate::path::same_place(sources[i]@, path)
    &&& forall|j: int| 0 <= j < i ==> !crate::path::same_place((#[trigger] sources[j])@, path)
}

/// Which of the resolved sources of releases is the path that is imported.
pub fn find_source(sources: &Vec<String>, path: &str) -> (r: Option<usize>)
    ensures
        match r {
            Some(i) => source_at(sources@, path@, i as int),
            None => forall|i: int|
                0 <= i < sources@.len() ==> !crate::path::same_place(
                    (#[trigger] sources@[i])@,
                    path@,
                ),
        },
{
    let mut i: usize = 0;
    while i < sources.len()
        invariant
            i <= sources@.len(),
            forall|j: int|
                0 <= j < i ==> !crate::path::same_place((#[trigger] sources@[j])@, path@),
        decreases sources@.len() - i,
    {
        if same_path(&sources[i], path) {
            return Some(i);
        }
        i += 1;
    }
    None
}

/// Where a new profile stands in the list of profiles, or the first place.
pub open spec fn created_at(profiles: Seq<Profile>, id: Seq<char>, r: usize) -> bool {
    if exists|i: int| 0 <= i < profiles.len() && (#[trigger] profiles[i]).id@ == id {
        &&& r < profiles.len()
        &&& profiles[r as int].id@ == id
        &&& forall|j: int| 0 <= j < r ==> (#[trigger] profiles[j]).id@ != id
    } else {
        r == 0
    }
}

/// Takes in the profiles with a new one, and selects it.
pub fn profile_created(app: &mut App, profiles: Vec<Profile>, id: &str, name: &str)
    ensures
        final(app).profiles == profiles,
        created_at(profiles@, id@, final(app).screen.profile_index),
        final(app).screen == (Screen {
            profile_index: final(app).screen.profile_index,
            profile_cursor: final(app).screen.profile_index,
            ..old(app).screen
        }),
        final(app).status@ == "Created and selected "@ + name@ + ". Press p to prepare it."@,
        same_data(App { profiles: old(app).profiles, ..*final(app) }, *old(app)),
        final(app).theme == old(app).theme,
        final(app).import_path_input == old(app).import_path_input,
        final(app).profile_name_input == old(app).profile_name_input,
        final(app).pending_action == old(app).pending_action,
{
    let mut at: usize = 0;
    let mut i: usize = 0;
    let mut found = false;
    while i < profiles.len() && !found
        invariant
            i <= profiles@.len(),
            !found ==> at == 0 && forall|j: int|
                0 <= j < i ==> (#[trigger] profiles@[j]).id@ != id@,
            found ==> at < profiles@.len() && profiles@[at as int].id@ == id@ && forall|j: int|
                0 <= j < at ==> (#[trigger] profiles@[j]).id@ != id@,
        decreases profiles@.len() - i,
    {
        if same_text(&profiles[i].id, id) {
            at = i;
            found = true;
        }
        i += 1;
    }
    app.profiles = profiles;
    app.screen.profile_index = at;
    app.screen.profile_cursor = at;
    app.status = "Created and selected ".to_owned().concat(name).concat(
        ". Press p to prepare it.",
    );
}

/// Enabling a mod turns it on; where its plan is followed, all that it lacks is turned on
/// and all that it replaces turned off; where not, nothing else is touched.
pub proof fn law_enabling_follows_the_plan(
    release_id: Seq<char>,
    enable: Seq<(Seq<char>, Seq<char>)>,
    disable: Seq<(Seq<char>, Seq<char>)>,
    safe: bool,
    i: int,
)
    ensures
        changes_of(release_id, enable, disable, safe)[0] == (release_id, true),
        !safe ==> changes_of(release_id, enable, disable, safe).len() == 1,
        safe ==> changes_of(release_id, enable, disable, safe).len() == 1 + enable.len()
            + disable.len(),
        safe && 0 <= i < enable.len() ==> changes_of(release_id, enable, disable, safe)[1 + i] == (
            enable[i].0,
            true,
        ),
        safe && 0 <= i < disable.len() ==> changes_of(release_id, enable, disable, safe)[1
            + enable.len() + i] == (disable[i].0, false),
{
}

} // verus!
