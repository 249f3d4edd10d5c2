//! What is wrong with a loadout and what to do next.
use vstd::prelude::*;

use super::plan::{same_logical_mod, same_mod};
use super::state::{
    blocked_count, blocked_total, clash_count, clashes, core_installed_count, installed_among,
    is_blocked, selected_profile_is_prepared, selection_prepared, App, Mode,
};
use crate::catalog::catalog;
use crate::doctor::Check;
use crate::models::{GameInstall, ModRelease, ResolvedEntry};
use crate::path::option_view;
use crate::text::{add_if, decimal, decimal_text, if_so, join_texts, joined, views};

verus! {

/// Whether the release at `i` is the first other one that is the same mod.
pub open spec fn duplicated_at(release: ModRelease, mods: Seq<ModRelease>, i: int) -> bool {
    &&& 0 <= i < mods.len()
    &&& mods[i].id@ != release.id@
    &&& same_mod(release, mods[i])
    &&& forall|j: int|
        0 <= j < i ==> !((#[trigger] mods[j]).id@ != release.id@ && same_mod(release, mods[j]))
}

/// What a release is a duplicate of, in words.
pub open spec fn duplicate_text(release: ModRelease, mods: Seq<ModRelease>) -> Option<Seq<char>> {
    if exists|i: int| duplicated_at(release, mods, i) {
        Some("duplicate of "@ + mods[choose|i: int| duplicated_at(release, mods, i)].name@)
    } else {
        None
    }
}

/// What a release is a duplicate of, in words.
pub fn duplicate_reason(release: &ModRelease, mods: &[ModRelease]) -> (r: Option<String>)
    ensures
        option_view(r) == duplicate_text(*release, mods@),
{
    let mut i: usize = 0;
    while i < mods.len()
        invariant
            i <= mods@.len(),
            forall|j: int|
                0 <= j < i ==> !((#[trigger] mods@[j]).id@ != release.id@ && same_mod(
                    *release,
                    mods@[j],
                )),
        decreases mods@.len() - i,
    {
        if mods[i].id != release.id && same_logical_mod(release, &mods[i]) {
            assert(duplicated_at(*release, mods@, i as int));
            proof {
                let k = choose|k: int| duplicated_at(*release, mods@, k);
                assert(k == i);
            }
            return Some("duplicate of ".to_owned().concat(&mods[i].name));
        }
        i += 1;
    }
    assert forall|k: int| !duplicated_at(*release, mods@, k) by {
        if duplicated_at(*release, mods@, k) {
            assert(mods@[k].id@ != release.id@);
        }
    }
    None
}

/// Whether a mod has an entry that is requested and cannot be enabled.
pub open spec fn has_blocked_entry(resolved: Seq<ResolvedEntry>, id: Seq<char>) -> bool {
    exists|i: int|
        0 <= i < resolved.len() && (#[trigger] resolved[i]).entry.mod_id@ == id && is_blocked(
            resolved[i],
        )
}

fn is_blocked_mod(resolved: &Vec<ResolvedEntry>, id: &String) -> (r: bool)
    ensures
        r == has_blocked_entry(resolved@, id@),
{
    let mut i: usize = 0;
    while i < resolved.len()
        invariant
            i <= resolved@.len(),
            forall|j: int|
                0 <= j < i ==> !((#[trigger] resolved@[j]).entry.mod_id@ == id@ && is_blocked(
                    resolved@[j],
                )),
        decreases resolved@.len() - i,
    {
        let entry = &resolved[i];
        if entry.entry.mod_id == *id && entry.entry.requested_enabled && !entry.effective_enabled {
            assert(is_blocked(resolved@[i as int]));
            return true;
        }
        i += 1;
    }
    false
}

/// The issues of a mod, as flags.
pub open spec fn flags_of(release: ModRelease, app: App) -> Seq<char> {
    joined(
        if_so(has_blocked_entry(app.resolved@, release.id@), "dep"@) + if_so(
            clashes(app, release.id@) > 0,
            "clash"@,
        ) + if_so(duplicate_text(release, app.mods@) is Some, "dup"@),
        " "@,
    )
}

/// The issues of a mod, as flags.
pub fn issue_flags(release: &ModRelease, app: &App) -> (r: String)
    ensures
        r@ == flags_of(*release, *app),
{
    let mut flags: Vec<String> = Vec::new();
    assert(views(flags@) =~= Seq::<Seq<char>>::empty());
    add_if(&mut flags, is_blocked_mod(&app.resolved, &release.id), "dep");
    add_if(&mut flags, clash_count(&release.id, app) > 0, "clash");
    add_if(&mut flags, duplicate_reason(release, &app.mods).is_some(), "dup");
    assert(views(flags@) =~= if_so(has_blocked_entry(app.resolved@, release.id@), "dep"@) + if_so(
        clashes(*app, release.id@) > 0,
        "clash"@,
    ) + if_so(duplicate_text(*release, app.mods@) is Some, "dup"@));
    join_texts(&flags, " ")
}

/// Whether the entry at `i` is the first of a mod.
pub open spec fn entry_at(resolved: Seq<ResolvedEntry>, id: Seq<char>, i: int) -> bool {
    &&& 0 <= i < resolved.len()
    &&& resolved[i].entry.mod_id@ == id
    &&& forall|j: int| 0 <= j < i ==> (#[trigger] resolved[j]).entry.mod_id@ != id
}

/// The first entry of a mod.
pub open spec fn entry_of(resolved: Seq<ResolvedEntry>, id: Seq<char>) -> Option<ResolvedEntry> {
    if exists|i: int| entry_at(resolved, id, i) {
        Some(resolved[choose|i: int| entry_at(resolved, id, i)])
    } else {
        None
    }
}

/// The first entry of a mod.
pub fn find_entry<'a>(resolved: &'a Vec<ResolvedEntry>, id: &String) -> (r: Option<&'a ResolvedEntry>)
    ensures
        match r {
            Some(entry) => entry_of(resolved@, id@) == Some(*entry),
            None => entry_of(resolved@, id@) is None,
        },
{
    let mut i: usize = 0;
    while i < resolved.len()
        invariant
            i <= resolved@.len(),
            forall|j: int| 0 <= j < i ==> (#[trigger] resolved@[j]).entry.mod_id@ != id@,
        decreases resolved@.len() - i,
    {
        if resolved[i].entry.mod_id == *id {
            assert(entry_at(resolved@, id@, i as int));
            proof {
                let k = choose|k: int| entry_at(resolved@, id@, k);
                assert(k == i);
            }
            return Some(&resolved[i]);
        }
        i += 1;
    }
    assert forall|k: int| !entry_at(resolved@, id@, k) by {
        if entry_at(resolved@, id@, k) {
            assert(resolved@[k].entry.mod_id@ == id@);
        }
    }
    None
}

/// Why a mod is blocked: by its first entry, where that is blocked.
pub open spec fn block_text(resolved: Seq<ResolvedEntry>, id: Seq<char>) -> Seq<Seq<char>> {
    match entry_of(resolved, id) {
        Some(entry) => if is_blocked(entry) {
            seq![
                match option_view(entry.disabled_reason) {
                    Some(why) => why,
                    None => "dependency"@,
                },
            ]
        } else {
            Seq::empty()
        },
        None => Seq::empty(),
    }
}

/// The remarks on a mod.
pub open spec fn remarks_on(release: ModRelease, app: App) -> Seq<Seq<char>> {
    block_text(app.resolved@, release.id@) + if_so(
        clashes(app, release.id@) > 0,
        decimal(clashes(app, release.id@)) + " file conflict(s). Press c to inspect."@,
    ) + match duplicate_text(release, app.mods@) {
        Some(text) => seq![text],
        None => Seq::empty(),
    }
}

/// What is said of the highlighted mod.
pub open spec fn detail_text(app: App) -> Seq<char> {
    if app.screen.loadout_index >= app.mods@.len() {
        "No mod selected."@
    } else {
        let release = app.mods@[app.screen.loadout_index as int];
        if remarks_on(release, app).len() == 0 {
            release.name@ + ": OK"@
        } else {
            release.name@ + ": "@ + joined(remarks_on(release, app), "  //  "@)
        }
    }
}

fn remarks(release: &ModRelease, app: &App) -> (r: Vec<String>)
    ensures
        views(r@) == remarks_on(*release, *app),
{
    let mut parts: Vec<String> = Vec::new();
    assert(views(parts@) =~= Seq::<Seq<char>>::empty());
    if let Some(entry) = find_entry(&app.resolved, &release.id) {
        if entry.entry.requested_enabled && !entry.effective_enabled {
            parts.push(
                match &entry.disabled_reason {
                    Some(why) => why.clone(),
                    None => "dependency".to_owned(),
                },
            );
        }
    }
    assert(views(parts@) =~= block_text(app.resolved@, release.id@));
    let clashes = clash_count(&release.id, app);
    let text = decimal_text(clashes as u128).concat(" file conflict(s). Press c to inspect.");
    add_if(&mut parts, clashes > 0, &text);
    let ghost had = views(parts@);
    match duplicate_reason(release, &app.mods) {
        Some(duplicate) => {
            let ghost said = duplicate@;
            parts.push(duplicate);
            assert(views(parts@) =~= had + seq![said]);
        },
        None => {
            assert(had + Seq::<Seq<char>>::empty() =~= had);
        },
    }
    parts
}

/// What is said of the highlighted mod.
pub fn selected_mod_detail(app: &App) -> (r: String)
    ensures
        r@ == detail_text(*app),
{
    if app.screen.loadout_index >= app.mods.len() {
        return "No mod selected.".to_owned();
    }
    let release = &app.mods[app.screen.loadout_index];
    let parts = remarks(release, app);
    assert(views(parts@).len() == parts@.len());
    if parts.len() == 0 {
        release.name.clone().concat(": OK")
    } else {
        release.name.clone().concat(": ").concat(&join_texts(&parts, "  //  "))
    }
}

/// How many checks failed.
pub open spec fn failures(checks: Seq<Check>) -> nat
    decreases checks.len(),
{
    if checks.len() == 0 {
        0
    } else if checks.last().ok {
        failures(checks.drop_last())
    } else {
        failures(checks.drop_last()) + 1
    }
}

/// How many warnings there are: a failed check each, one for a selected profile
/// that is not prepared, and one for blocked mods.
pub open spec fn warnings(app: App) -> nat {
    failures(app.health_checks@) + (if app.profiles@.len() > 0 && !selection_prepared(app) {
        1nat
    } else {
        0nat
    }) + (if blocked_total(app.resolved@) > 0 {
        1nat
    } else {
        0nat
    })
}

/// How many warnings there are.
pub fn warn_count(app: &App) -> (r: u128)
    ensures
        r == warnings(*app),
{
    let mut count: u128 = 0;
    let mut i: usize = 0;
    while i < app.health_checks.len()
        invariant
            i <= app.health_checks@.len(),
            count <= i,
            count == failures(app.health_checks@.take(i as int)),
        decreases app.health_checks@.len() - i,
    {
        assert(app.health_checks@.take(i + 1).drop_last() =~= app.health_checks@.take(i as int));
        if !app.health_checks[i].ok {
            count += 1;
        }
        i += 1;
    }
    assert(app.health_checks@.take(i as int) =~= app.health_checks@);
    if app.profiles.len() > 0 && !selected_profile_is_prepared(app) {
        count += 1;
    }
    if blocked_count(app) > 0 {
        count += 1;
    }
    count
}

/// What stands beside the title of a page.
pub open spec fn badge_of(mode: Mode, app: App) -> Option<Seq<char>> {
    match mode {
        Mode::Loadout => {
            let count = blocked_total(app.resolved@) + app.conflicts@.len();
            if count > 0 {
                Some(decimal(count))
            } else {
                None
            }
        },
        Mode::Add => None,
        Mode::Runtime => if app.profiles@.len() == 0 || selection_prepared(app) {
            None
        } else {
            Some("prep"@)
        },
    }
}

/// What stands beside the title of a page.
pub fn page_badge(mode: Mode, app: &App) -> (r: Option<String>)
    ensures
        option_view(r) == badge_of(mode, *app),
{
    match mode {
        Mode::Loadout => {
            let count: u128 = (blocked_count(app) as u128) + (app.conflicts.len() as u128);
            if count > 0 {
                Some(decimal_text(count))
            } else {
                None
            }
        },
        Mode::Add => None,
        Mode::Runtime => if app.profiles.len() == 0 || selected_profile_is_prepared(app) {
            None
        } else {
            Some("prep".to_owned())
        },
    }
}

/// Whether the check at `i` is the first that failed.
pub open spec fn first_failure(checks: Seq<Check>, i: int) -> bool {
    &&& 0 <= i < checks.len()
    &&& !checks[i].ok
    &&& forall|j: int| 0 <= j < i ==> (#[trigger] checks[j]).ok
}

/// What to do about a failed check.
pub open spec fn remedy_for(check: Check) -> Seq<char> {
    match option_view(check.remedy) {
        Some(remedy) => remedy,
        None => "Resolve "@ + check.name@ + "."@,
    }
}

/// What the user should do next: the first thing that stands in the way of a
/// launch.
pub open spec fn next_step(app: App, games: Seq<GameInstall>) -> Seq<char> {
    if games.len() == 0 {
        "Install Cyberpunk 2077 in a discoverable Steam library."@
    } else if exists|i: int| first_failure(app.health_checks@, i) {
        remedy_for(app.health_checks@[choose|i: int| first_failure(app.health_checks@, i)])
    } else if installed_among(app.mods@, catalog().len()) == 0 {
        "Press 2, then f to fetch Core frameworks."@
    } else if app.mods@.len() == 0 {
        "Press 2 to import from Add, or a on that mode to import a path. Inbox scans "@
            + app.import_root@ + "."@
    } else if !selection_prepared(app) {
        "Press p to prepare the isolated runtime."@
    } else if blocked_total(app.resolved@) > 0 {
        "Blocked mods are in the loadout table. Space toggles, 2 opens Add for Core."@
    } else if app.conflicts@.len() > 0 {
        "Press c to inspect file conflicts. C shows all collisions."@
    } else {
        "Shift-L launches the selected profile."@
    }
}

fn find_failure(checks: &Vec<Check>) -> (r: Option<usize>)
    ensures
        match r {
            Some(i) => first_failure(checks@, i as int) && (choose|k: int| first_failure(checks@, k))
                == i,
            None => forall|i: int| !first_failure(checks@, i),
        },
{
    let mut i: usize = 0;
    while i < checks.len()
        invariant
            i <= checks@.len(),
            forall|j: int| 0 <= j < i ==> (#[trigger] checks@[j]).ok,
        decreases checks@.len() - i,
    {
        if !checks[i].ok {
            assert(first_failure(checks@, i as int));
            proof {
                let k = choose|k: int| first_failure(checks@, k);
                assert(k == i);
            }
            return Some(i);
        }
        i += 1;
    }
    None
}

/// What the user should do next.
pub fn next_action(app: &App, games: &[GameInstall]) -> (r: String)
    ensures
        r@ == next_step(*app, games@),
{
    if games.len() == 0 {
        return "Install Cyberpunk 2077 in a discoverable Steam library.".to_owned();
    }
    match find_failure(&app.health_checks) {
        Some(i) => {
            let check = &app.health_checks[i];
            return match &check.remedy {
                Some(remedy) => remedy.clone(),
                None => "Resolve ".to_owned().concat(&check.name).concat("."),
            };
        },
        None => {},
    }
    if core_installed_count(app) == 0 {
        return "Press 2, then f to fetch Core frameworks.".to_owned();
    }
    if app.mods.len() == 0 {
        return "Press 2 to import from Add, or a on that mode to import a path. Inbox scans ".to_owned().concat(
            &app.import_root,
        ).concat(".");
    }
    if !selected_profile_is_prepared(app) {
        return "Press p to prepare the isolated runtime.".to_owned();
    }
    if blocked_count(app) > 0 {
        return "Blocked mods are in the loadout table. Space toggles, 2 opens Add for Core.".to_owned();
    }
    if app.conflicts.len() > 0 {
        return "Press c to inspect file conflicts. C shows all collisions.".to_owned();
    }
    "Shift-L launches the selected profile.".to_owned()
}

/// The advice to launch is given only where there is a game, no check failed, a
/// framework is installed, the profile is prepared, and nothing is blocked or
/// contested.
pub proof fn law_launch_is_advised_last(app: App, games: Seq<GameInstall>)
    requires
        games.len() > 0,
        forall|i: int| !first_failure(app.health_checks@, i),
        next_step(app, games) == "Shift-L launches the selected profile."@,
    ensures
        selection_prepared(app) && blocked_total(app.resolved@) == 0 && app.conflicts@.len() == 0
            && installed_among(app.mods@, catalog().len()) > 0,
{
    reveal_strlit("Shift-L launches the selected profile.");
    reveal_strlit("Press 2, then f to fetch Core frameworks.");
    reveal_strlit("Press 2 to import from Add, or a on that mode to import a path. Inbox scans ");
    reveal_strlit("Press p to prepare the isolated runtime.");
    reveal_strlit("Blocked mods are in the loadout table. Space toggles, 2 opens Add for Core.");
    reveal_strlit("Press c to inspect file conflicts. C shows all collisions.");
    let said = next_step(app, games);
    assert(said[0] == 'S');
}

proof fn lemma_failures(checks: Seq<Check>)
    ensures
        failures(checks) == 0 <==> forall|i: int| 0 <= i < checks.len() ==> (#[trigger] checks[i]).ok,
        (exists|i: int| first_failure(checks, i)) <==> exists|i: int|
            0 <= i < checks.len() && !(#[trigger] checks[i]).ok,
    decreases checks.len(),
{
    if checks.len() > 0 {
        let front = checks.drop_last();
        let n = checks.len() - 1;
        lemma_failures(front);
        assert forall|i: int| 0 <= i < front.len() implies #[trigger] front[i] == checks[i] by {}
        if forall|i: int| 0 <= i < front.len() ==> (#[trigger] front[i]).ok {
            if !checks[n].ok {
                assert forall|j: int| 0 <= j < n implies (#[trigger] checks[j]).ok by {
                    assert(front[j].ok);
                }
                assert(first_failure(checks, n));
            } else {
                assert forall|i: int| 0 <= i < checks.len() implies (#[trigger] checks[i]).ok by {
                    if i < n {
                        assert(front[i].ok);
                    }
                }
            }
        } else {
            let i = choose|i: int| first_failure(front, i);
            assert forall|j: int| 0 <= j < i implies (#[trigger] checks[j]).ok by {
                assert(front[j].ok);
            }
            assert(first_failure(checks, i));
            assert(!checks[i].ok);
        }
    }
}

proof fn lemma_blocked(resolved: Seq<ResolvedEntry>)
    ensures
        blocked_total(resolved) > 0 <==> exists|i: int|
            0 <= i < resolved.len() && (#[trigger] resolved[i]).entry.requested_enabled
                && !resolved[i].effective_enabled,
{
    broadcast use crate::order::lemma_same_filter;

    let keep = |entry: ResolvedEntry| is_blocked(entry);
    let kept = resolved.filter(keep);
    if kept.len() > 0 {
        let k = crate::order::lemma_filtered(resolved, keep, 0);
        assert(resolved[k].entry.requested_enabled && !resolved[k].effective_enabled);
    }
    if exists|i: int|
        0 <= i < resolved.len() && (#[trigger] resolved[i]).entry.requested_enabled
            && !resolved[i].effective_enabled {
        let i = choose|i: int|
            0 <= i < resolved.len() && (#[trigger] resolved[i]).entry.requested_enabled
                && !resolved[i].effective_enabled;
        resolved.lemma_filter_contains(keep, i);
    }
}

/// All is well where every check is, the selected profile is prepared, and no mod that was
/// asked for is blocked; every one of these that is not counts as a warning.
pub proof fn law_warnings_count_what_is_wrong(app: App)
    ensures
        warnings(app) == 0 <==> {
            &&& forall|i: int|
                0 <= i < app.health_checks@.len() ==> (#[trigger] app.health_checks@[i]).ok
            &&& app.profiles@.len() == 0 || selection_prepared(app)
            &&& forall|i: int|
                0 <= i < app.resolved@.len() ==> !((
                #[trigger] app.resolved@[i]).entry.requested_enabled
                    && !app.resolved@[i].effective_enabled)
        },
        failures(app.health_checks@) <= warnings(app) <= failures(app.health_checks@) + 2,
{
    lemma_failures(app.health_checks@);
    lemma_blocked(app.resolved@);
}

/// What is advised is the first thing in the way of a launch: a game, then the remedy of
/// the first check that failed, then a framework, a mod, a prepared profile, mods that are
/// not blocked, paths that are not contested. Where nothing is in the way, it is the launch.
pub proof fn law_advice_names_the_first_need(app: App, games: Seq<GameInstall>, k: int)
    ensures
        ({
            let well = forall|i: int|
                0 <= i < app.health_checks@.len() ==> (#[trigger] app.health_checks@[i]).ok;
            let core = installed_among(app.mods@, catalog().len()) > 0;
            let free = forall|i: int|
                0 <= i < app.resolved@.len() ==> !((
                #[trigger] app.resolved@[i]).entry.requested_enabled
                    && !app.resolved@[i].effective_enabled);
            let advice = next_step(app, games);
            &&& games.len() == 0 ==> advice
                == "Install Cyberpunk 2077 in a discoverable Steam library."@
            &&& games.len() > 0 && first_failure(app.health_checks@, k) ==> advice == match option_view(
                app.health_checks@[k].remedy,
            ) {
                Some(remedy) => remedy,
                None => "Resolve "@ + app.health_checks@[k].name@ + "."@,
            }
            &&& games.len() > 0 && well && !core ==> advice
                == "Press 2, then f to fetch Core frameworks."@
            &&& games.len() > 0 && well && core && app.mods@.len() > 0 && !selection_prepared(app)
                ==> advice == "Press p to prepare the isolated runtime."@
            &&& games.len() > 0 && well && core && app.mods@.len() > 0 && selection_prepared(app)
                && !free ==> advice
                == "Blocked mods are in the loadout table. Space toggles, 2 opens Add for Core."@
            &&& games.len() > 0 && well && core && app.mods@.len() > 0 && selection_prepared(app)
                && free && app.conflicts@.len() > 0 ==> advice
                == "Press c to inspect file conflicts. C shows all collisions."@
            &&& games.len() > 0 && well && core && app.mods@.len() > 0 && selection_prepared(app)
                && free && app.conflicts@.len() == 0 ==> advice
                == "Shift-L launches the selected profile."@
        }),
{
    lemma_failures(app.health_checks@);
    lemma_blocked(app.resolved@);
    let checks = app.health_checks@;
    if first_failure(checks, k) {
        let c = choose|c: int| first_failure(checks, c);
        assert(first_failure(checks, c));
        assert(c == k) by {
            if c < k {
                assert(checks[c].ok);
            }
            if k < c {
                assert(checks[k].ok);
            }
        }
    }
}

/// A mod without an issue has no flag. One that is asked for and blocked, one with a file
/// at a contested path, and one of which there is another copy each have theirs.
pub proof fn law_issues_are_flagged(release: ModRelease, app: App)
    ensures
        ({
            let dep = has_blocked_entry(app.resolved@, release.id@);
            let clash = exists|i: int|
                0 <= i < app.conflicts@.len() && views((#[trigger] app.conflicts@[i]).1@).contains(
                    release.id@,
                );
            let dup = exists|i: int|
                0 <= i < app.mods@.len() && (#[trigger] app.mods@[i]).id@ != release.id@ && same_mod(
                    release,
                    app.mods@[i],
                );
            let flags = flags_of(release, app);
            &&& !dep && !clash && !dup ==> flags == Seq::<char>::empty()
            &&& dep && !clash && !dup ==> flags == "dep"@
            &&& !dep && clash && !dup ==> flags == "clash"@
            &&& !dep && !clash && dup ==> flags == "dup"@
            &&& dep && clash && !dup ==> flags == "dep"@ + " "@ + "clash"@
            &&& dep && !clash && dup ==> flags == "dep"@ + " "@ + "dup"@
            &&& !dep && clash && dup ==> flags == "clash"@ + " "@ + "dup"@
            &&& dep && clash && dup ==> flags == "dep"@ + " "@ + "clash"@ + " "@ + "dup"@
        }),
{
    lemma_clashes(app, release.id@);
    lemma_duplicates(release, app.mods@);
    let a = has_blocked_entry(app.resolved@, release.id@);
    let b = clashes(app, release.id@) > 0;
    let c = duplicate_text(release, app.mods@) is Some;
    let list = if_so(a, "dep"@) + if_so(b, "clash"@) + if_so(c, "dup"@);
    reveal_with_fuel(joined, 4);
    if a && b && c {
        assert(list =~= seq!["dep"@, "clash"@, "dup"@]);
        assert(list.drop_last() =~= seq!["dep"@, "clash"@]);
        assert(list.drop_last().drop_last() =~= seq!["dep"@]);
    } else if a && b {
        assert(list =~= seq!["dep"@, "clash"@]);
        assert(list.drop_last() =~= seq!["dep"@]);
    } else if a && c {
        assert(list =~= seq!["dep"@, "dup"@]);
        assert(list.drop_last() =~= seq!["dep"@]);
    } else if b && c {
        assert(list =~= seq!["clash"@, "dup"@]);
        assert(list.drop_last() =~= seq!["clash"@]);
    } else if a {
        assert(list =~= seq!["dep"@]);
    } else if b {
        assert(list =~= seq!["clash"@]);
    } else if c {
        assert(list =~= seq!["dup"@]);
    } else {
        assert(list =~= Seq::<Seq<char>>::empty());
    }
}

proof fn lemma_clashes(app: App, id: Seq<char>)
    ensures
        clashes(app, id) > 0 <==> exists|i: int|
            0 <= i < app.conflicts@.len() && views((#[trigger] app.conflicts@[i]).1@).contains(id),
{
    broadcast use crate::order::lemma_same_filter;

    let all = app.conflicts@;
    let keep = |conflict: (String, Vec<String>)| super::state::claimed_by(conflict, id);
    let kept = all.filter(keep);
    if kept.len() > 0 {
        let k = crate::order::lemma_filtered(all, keep, 0);
        assert(views(all[k].1@).contains(id));
    }
    if exists|i: int| 0 <= i < all.len() && views((#[trigger] all[i]).1@).contains(id) {
        let i = choose|i: int| 0 <= i < all.len() && views((#[trigger] all[i]).1@).contains(id);
        all.lemma_filter_contains(keep, i);
    }
}

proof fn lemma_duplicates(release: ModRelease, mods: Seq<ModRelease>)
    ensures
        duplicate_text(release, mods) is Some <==> exists|i: int|
            0 <= i < mods.len() && (#[trigger] mods[i]).id@ != release.id@ && same_mod(
                release,
                mods[i],
            ),
    decreases mods.len(),
{
    if exists|i: int|
        0 <= i < mods.len() && (#[trigger] mods[i]).id@ != release.id@ && same_mod(release, mods[i]) {
        let i = choose|i: int|
            0 <= i < mods.len() && (#[trigger] mods[i]).id@ != release.id@ && same_mod(
                release,
                mods[i],
            );
        lemma_first_duplicate(release, mods, i);
    }
}

proof fn lemma_first_duplicate(release: ModRelease, mods: Seq<ModRelease>, i: int)
    requires
        0 <= i < mods.len(),
        mods[i].id@ != release.id@,
        same_mod(release, mods[i]),
    ensures
        exists|k: int| duplicated_at(release, mods, k),
    decreases i,
{
    if forall|j: int|
        0 <= j < i ==> !((#[trigger] mods[j]).id@ != release.id@ && same_mod(release, mods[j])) {
        assert(duplicated_at(release, mods, i));
    } else {
        let j = choose|j: int|
            0 <= j < i && (#[trigger] mods[j]).id@ != release.id@ && same_mod(release, mods[j]);
        lemma_first_duplicate(release, mods, j);
    }
}

} // verus!
