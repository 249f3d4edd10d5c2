//! Which requested mods can be enabled, given what they require.
use vstd::prelude::*;

use crate::models::{Dependency, LoadoutEntry, ResolvedEntry};
use crate::path::option_view;
use crate::text::{same_text, views};

verus! {

/// What a mod requires, in the order in which the dependencies are listed.
pub open spec fn wants(deps: Seq<Dependency>, id: Seq<char>) -> Seq<Seq<char>> {
    deps.filter(|dep: Dependency| dep.mod_id@ == id).map_values(
        |dep: Dependency| dep.requires_id@,
    )
}

/// Whether an entry of the loadout asks for a mod.
pub open spec fn is_requested(entries: Seq<LoadoutEntry>, id: Seq<char>) -> bool {
    exists|i: int|
        0 <= i < entries.len() && (#[trigger] entries[i]).requested_enabled && entries[i].mod_id@
            == id
}

/// Whether every chain of requirements from a mod has fewer than `steps` links
/// and names requested mods alone.
pub open spec fn clears(
    entries: Seq<LoadoutEntry>,
    deps: Seq<Dependency>,
    id: Seq<char>,
    steps: nat,
) -> bool
    decreases steps,
{
    steps > 0 && forall|i: int|
        #![trigger wants(deps, id)[i]]
        0 <= i < wants(deps, id).len() ==> is_requested(entries, wants(deps, id)[i]) && clears(
            entries,
            deps,
            wants(deps, id)[i],
            (steps - 1) as nat,
        )
}

/// Whether all that a mod requires, and all that this requires in turn, is
/// requested, with no cycle among it.
pub open spec fn satisfied(
    entries: Seq<LoadoutEntry>,
    deps: Seq<Dependency>,
    id: Seq<char>,
) -> bool {
    exists|steps: nat| clears(entries, deps, id, steps)
}

/// Whether a requirement is requested and satisfied itself.
pub open spec fn met(entries: Seq<LoadoutEntry>, deps: Seq<Dependency>, id: Seq<char>) -> bool {
    is_requested(entries, id) && satisfied(entries, deps, id)
}

/// Whether the requirement at `i` is the first that is not met.
pub open spec fn first_unmet(
    entries: Seq<LoadoutEntry>,
    deps: Seq<Dependency>,
    id: Seq<char>,
    i: int,
) -> bool {
    &&& 0 <= i < wants(deps, id).len()
    &&& !met(entries, deps, wants(deps, id)[i])
    &&& forall|j: int| 0 <= j < i ==> met(entries, deps, #[trigger] wants(deps, id)[j])
}

/// The first requirement of a mod that is not met.
pub open spec fn unmet(
    entries: Seq<LoadoutEntry>,
    deps: Seq<Dependency>,
    id: Seq<char>,
) -> Seq<char> {
    wants(deps, id)[choose|i: int| first_unmet(entries, deps, id, i)]
}

/// Why a requested mod cannot be enabled. `path` holds the mods that led here,
/// each required by the one before it.
pub open spec fn reason(
    entries: Seq<LoadoutEntry>,
    deps: Seq<Dependency>,
    id: Seq<char>,
    path: Seq<Seq<char>>,
) -> Seq<char>
    decreases entries.len() + 1 - path.len(),
{
    if path.contains(id) || path.len() > entries.len() {
        "dependency cycle involving "@ + id
    } else if !is_requested(entries, unmet(entries, deps, id)) {
        "requires disabled or missing "@ + unmet(entries, deps, id)
    } else {
        "requires "@ + unmet(entries, deps, id) + ": "@ + reason(
            entries,
            deps,
            unmet(entries, deps, id),
            path.push(id),
        )
    }
}

/// Whether each mod of `path` is required by the one before it, and `id` by the
/// last.
pub open spec fn leads_to(deps: Seq<Dependency>, path: Seq<Seq<char>>, id: Seq<char>) -> bool {
    forall|i: int|
        #![trigger path[i]]
        0 <= i < path.len() ==> wants(deps, path[i]).contains(
            if i + 1 < path.len() {
                path[i + 1]
            } else {
                id
            },
        )
}

proof fn lemma_more_steps(
    entries: Seq<LoadoutEntry>,
    deps: Seq<Dependency>,
    id: Seq<char>,
    few: nat,
    many: nat,
)
    requires
        few <= many,
        clears(entries, deps, id, few),
    ensures
        clears(entries, deps, id, many),
    decreases few,
{
    let w = wants(deps, id);
    assert forall|i: int| #![trigger w[i]] 0 <= i < w.len() implies is_requested(entries, w[i]) && clears(
        entries,
        deps,
        w[i],
        (many - 1) as nat,
    ) by {
        lemma_more_steps(entries, deps, w[i], (few - 1) as nat, (many - 1) as nat);
    }
}

proof fn lemma_common_steps(
    entries: Seq<LoadoutEntry>,
    deps: Seq<Dependency>,
    w: Seq<Seq<char>>,
) -> (steps: nat)
    requires
        forall|i: int| 0 <= i < w.len() ==> met(entries, deps, #[trigger] w[i]),
    ensures
        forall|i: int| 0 <= i < w.len() ==> clears(entries, deps, #[trigger] w[i], steps),
    decreases w.len(),
{
    if w.len() == 0 {
        0
    } else {
        let front = w.drop_last();
        assert forall|i: int| 0 <= i < front.len() implies met(entries, deps, #[trigger] front[i]) by {
            assert(front[i] == w[i]);
        }
        let a = lemma_common_steps(entries, deps, front);
        assert(met(entries, deps, w[w.len() - 1]));
        let b = choose|steps: nat| clears(entries, deps, w.last(), steps);
        let both = a + b;
        assert forall|i: int| 0 <= i < w.len() implies clears(
            entries,
            deps,
            #[trigger] w[i],
            both,
        ) by {
            if i < front.len() {
                assert(front[i] == w[i]);
                lemma_more_steps(entries, deps, w[i], a, both);
            } else {
                lemma_more_steps(entries, deps, w[i], b, both);
            }
        }
        both
    }
}

/// A mod is satisfied exactly where all that it requires is met.
pub proof fn lemma_satisfied(
    entries: Seq<LoadoutEntry>,
    deps: Seq<Dependency>,
    id: Seq<char>,
)
    ensures
        satisfied(entries, deps, id) <==> forall|i: int|
            0 <= i < wants(deps, id).len() ==> met(entries, deps, #[trigger] wants(deps, id)[i]),
{
    let w = wants(deps, id);
    if satisfied(entries, deps, id) {
        let steps = choose|steps: nat| clears(entries, deps, id, steps);
        assert forall|i: int| 0 <= i < w.len() implies met(entries, deps, #[trigger] w[i]) by {
            assert(clears(entries, deps, w[i], (steps - 1) as nat));
        }
    }
    if forall|i: int| 0 <= i < w.len() ==> met(entries, deps, #[trigger] w[i]) {
        let steps = lemma_common_steps(entries, deps, w);
        assert(clears(entries, deps, id, steps + 1));
    }
}

proof fn lemma_unmet(
    entries: Seq<LoadoutEntry>,
    deps: Seq<Dependency>,
    id: Seq<char>,
    i: int,
)
    requires
        first_unmet(entries, deps, id, i),
    ensures
        unmet(entries, deps, id) == wants(deps, id)[i],
        !satisfied(entries, deps, id),
{
    let k = choose|k: int| first_unmet(entries, deps, id, k);
    let w = wants(deps, id);
    if k < i {
        assert(met(entries, deps, w[k]));
    }
    if i < k {
        assert(met(entries, deps, w[i]));
    }
    lemma_satisfied(entries, deps, id);
}

proof fn lemma_descend(
    entries: Seq<LoadoutEntry>,
    deps: Seq<Dependency>,
    path: Seq<Seq<char>>,
    id: Seq<char>,
    at: int,
    steps: nat,
)
    requires
        leads_to(deps, path, id),
        0 <= at < path.len(),
        clears(entries, deps, path[at], steps),
    ensures
        steps >= path.len() - at,
        clears(entries, deps, id, (steps - (path.len() - at)) as nat),
    decreases path.len() - at,
{
    let next = if at + 1 < path.len() {
        path[at + 1]
    } else {
        id
    };
    let w = wants(deps, path[at]);
    assert(w.contains(next));
    let i = choose|i: int| 0 <= i < w.len() && w[i] == next;
    assert(clears(entries, deps, w[i], (steps - 1) as nat));
    if at + 1 < path.len() {
        lemma_descend(entries, deps, path, id, at + 1, (steps - 1) as nat);
    }
}

proof fn lemma_cycle(
    entries: Seq<LoadoutEntry>,
    deps: Seq<Dependency>,
    path: Seq<Seq<char>>,
    id: Seq<char>,
    at: int,
    steps: nat,
)
    requires
        leads_to(deps, path, id),
        0 <= at < path.len(),
        path[at] == id,
    ensures
        !clears(entries, deps, id, steps),
    decreases steps,
{
    if clears(entries, deps, id, steps) {
        lemma_descend(entries, deps, path, id, at, steps);
        lemma_cycle(entries, deps, path, id, at, (steps - (path.len() - at)) as nat);
    }
}

/// A mod that is required, by whatever detour, by itself is not satisfied.
pub proof fn law_cycles_are_refused(
    entries: Seq<LoadoutEntry>,
    deps: Seq<Dependency>,
    path: Seq<Seq<char>>,
    id: Seq<char>,
)
    requires
        leads_to(deps, path, id),
        path.contains(id),
    ensures
        !satisfied(entries, deps, id),
{
    let at = choose|at: int| 0 <= at < path.len() && path[at] == id;
    assert forall|steps: nat| !clears(entries, deps, id, steps) by {
        lemma_cycle(entries, deps, path, id, at, steps);
    }
}

/// What a satisfied mod requires is requested and satisfied too.
pub proof fn law_requirements_are_enabled(
    entries: Seq<LoadoutEntry>,
    deps: Seq<Dependency>,
    id: Seq<char>,
    requirement: Seq<char>,
)
    requires
        satisfied(entries, deps, id),
        wants(deps, id).contains(requirement),
    ensures
        is_requested(entries, requirement),
        satisfied(entries, deps, requirement),
{
    lemma_satisfied(entries, deps, id);
    let w = wants(deps, id);
    let i = choose|i: int| 0 <= i < w.len() && w[i] == requirement;
    assert(met(entries, deps, w[i]));
}

spec fn all_requested(entries: Seq<LoadoutEntry>, path: Seq<Seq<char>>) -> bool {
    forall|i: int| 0 <= i < path.len() ==> is_requested(entries, #[trigger] path[i])
}

proof fn lemma_path_fits(entries: Seq<LoadoutEntry>, path: Seq<Seq<char>>)
    requires
        path.no_duplicates(),
        all_requested(entries, path),
    ensures
        path.len() <= entries.len(),
{
    let ids = entries.map_values(|e: LoadoutEntry| e.mod_id@);
    assert forall|i: int| 0 <= i < path.len() implies ids.contains(#[trigger] path[i]) by {
        assert(is_requested(entries, path[i]));
        let k = choose|k: int|
            0 <= k < entries.len() && (#[trigger] entries[k]).requested_enabled && entries[k].mod_id@
                == path[i];
        assert(ids[k] == path[i]);
    }
    crate::order::lemma_fits(path, ids);
}

proof fn lemma_unsatisfied_has_unmet(
    entries: Seq<LoadoutEntry>,
    deps: Seq<Dependency>,
    id: Seq<char>,
    upto: int,
) -> (at: int)
    requires
        0 <= upto <= wants(deps, id).len(),
        forall|j: int| 0 <= j < upto ==> met(entries, deps, #[trigger] wants(deps, id)[j]),
        !satisfied(entries, deps, id),
    ensures
        first_unmet(entries, deps, id, at),
    decreases wants(deps, id).len() - upto,
{
    let w = wants(deps, id);
    if upto == w.len() {
        lemma_satisfied(entries, deps, id);
        upto
    } else if met(entries, deps, w[upto]) {
        lemma_unsatisfied_has_unmet(entries, deps, id, upto + 1)
    } else {
        upto
    }
}

/// Whether a chain of requirements ends in a mod that is not requested, or in
/// one that it has already named.
pub open spec fn dead_end(
    entries: Seq<LoadoutEntry>,
    deps: Seq<Dependency>,
    path: Seq<Seq<char>>,
    end: Seq<char>,
) -> bool {
    path.len() > 0 && leads_to(deps, path, end) && (!is_requested(entries, end) || path.contains(
        end,
    ))
}

proof fn lemma_dead_end(
    entries: Seq<LoadoutEntry>,
    deps: Seq<Dependency>,
    path: Seq<Seq<char>>,
    id: Seq<char>,
) -> (found: (Seq<Seq<char>>, Seq<char>))
    requires
        path.no_duplicates(),
        all_requested(entries, path),
        leads_to(deps, path, id),
        is_requested(entries, id),
        !satisfied(entries, deps, id),
    ensures
        dead_end(entries, deps, found.0, found.1),
        found.0[0] == if path.len() > 0 {
            path[0]
        } else {
            id
        },
    decreases entries.len() + 1 - path.len(),
{
    lemma_path_fits(entries, path);
    if path.contains(id) {
        (path, id)
    } else {
        let at = lemma_unsatisfied_has_unmet(entries, deps, id, 0);
        let next = wants(deps, id)[at];
        let longer = path.push(id);
        assert forall|i: int| #![trigger longer[i]] 0 <= i < longer.len() implies wants(
            deps,
            longer[i],
        ).contains(
            if i + 1 < longer.len() {
                longer[i + 1]
            } else {
                next
            },
        ) by {
            if i < path.len() {
                assert(longer[i] == path[i]);
            }
        }
        if !is_requested(entries, next) {
            (longer, next)
        } else {
            lemma_path_fits(entries, longer);
            lemma_dead_end(entries, deps, longer, next)
        }
    }
}

/// A requested mod is refused only for cause: some chain of requirements from it
/// ends in a mod that is not requested, or comes back to one of its own.
pub proof fn law_refused_for_cause(
    entries: Seq<LoadoutEntry>,
    deps: Seq<Dependency>,
    id: Seq<char>,
)
    requires
        is_requested(entries, id),
        !satisfied(entries, deps, id),
    ensures
        exists|path: Seq<Seq<char>>, end: Seq<char>|
            path[0] == id && #[trigger] dead_end(entries, deps, path, end),
{
    let (path, end) = lemma_dead_end(entries, deps, Seq::empty(), id);
    assert(path[0] == id && dead_end(entries, deps, path, end));
}

/// What a mod requires, in the order in which the dependencies are listed.
pub fn requirements(deps: &[Dependency], id: &str) -> (r: Vec<String>)
    ensures
        views(r@) == wants(deps@, id@),
{
    let ghost keep = |dep: Dependency| dep.mod_id@ == id@;
    let ghost turn = |dep: Dependency| dep.requires_id@;
    let mut r: Vec<String> = Vec::new();
    assert(deps@.take(0).filter(keep).map_values(turn) =~= Seq::<Seq<char>>::empty()) by {
        reveal(Seq::filter);
    }
    let mut i: usize = 0;
    while i < deps.len()
        invariant
            i <= deps@.len(),
            keep == (|dep: Dependency| dep.mod_id@ == id@),
            turn == (|dep: Dependency| dep.requires_id@),
            views(r@) =~= deps@.take(i as int).filter(keep).map_values(turn),
        decreases deps@.len() - i,
    {
        let ghost now = deps@.take(i + 1);
        assert(now.drop_last() =~= deps@.take(i as int));
        assert(now.filter(keep) == if keep(deps@[i as int]) {
            deps@.take(i as int).filter(keep).push(deps@[i as int])
        } else {
            deps@.take(i as int).filter(keep)
        }) by {
            reveal(Seq::filter);
        }
        let ghost had = views(r@);
        if same_text(&deps[i].mod_id, id) {
            r.push(deps[i].requires_id.clone());
            assert(views(r@) =~= had.push(deps@[i as int].requires_id@));
        }
        i += 1;
    }
    assert(deps@.take(i as int) =~= deps@);
    r
}

/// Whether an entry of the loadout asks for a mod.
pub fn requested(entries: &[LoadoutEntry], id: &str) -> (r: bool)
    ensures
        r == is_requested(entries@, id@),
{
    let mut i: usize = 0;
    while i < entries.len()
        invariant
            i <= entries@.len(),
            forall|j: int|
                0 <= j < i ==> !((#[trigger] entries@[j]).requested_enabled && entries@[j].mod_id@
                    == id@),
        decreases entries@.len() - i,
    {
        if entries[i].requested_enabled && same_text(&entries[i].mod_id, id) {
            return true;
        }
        i += 1;
    }
    false
}

fn position(list: &Vec<String>, id: &str) -> (r: Option<usize>)
    ensures
        match r {
            Some(i) => i < list@.len() && list@[i as int]@ == id@,
            None => !views(list@).contains(id@),
        },
{
    let mut i: usize = 0;
    while i < list.len()
        invariant
            i <= list@.len(),
            forall|j: int| 0 <= j < i ==> (#[trigger] list@[j])@ != id@,
        decreases list@.len() - i,
    {
        if same_text(&list[i], id) {
            return Some(i);
        }
        i += 1;
    }
    assert forall|j: int| 0 <= j < views(list@).len() implies views(list@)[j] != id@ by {
        assert(views(list@)[j] == list@[j]@);
    }
    None
}

/// Mods whose requirements have been looked through, with the outcome.
struct Memo {
    ids: Vec<String>,
    failures: Vec<Option<String>>,
}

spec fn direct_failure(
    entries: Seq<LoadoutEntry>,
    deps: Seq<Dependency>,
    id: Seq<char>,
    text: Seq<char>,
) -> bool {
    &&& !satisfied(entries, deps, id)
    &&& !is_requested(entries, unmet(entries, deps, id))
    &&& text == "requires disabled or missing "@ + unmet(entries, deps, id)
}

impl Memo {
    spec fn sound(self, entries: Seq<LoadoutEntry>, deps: Seq<Dependency>) -> bool {
        &&& self.ids@.len() == self.failures@.len()
        &&& forall|i: int|
            #![trigger self.ids@[i]]
            #![trigger self.failures@[i]]
            0 <= i < self.ids@.len() ==> match self.failures@[i] {
                None => satisfied(entries, deps, self.ids@[i]@),
                Some(text) => direct_failure(entries, deps, self.ids@[i]@, text@),
            }
    }

    spec fn avoids(self, path: Seq<Seq<char>>) -> bool {
        forall|i: int| 0 <= i < self.ids@.len() ==> !path.contains((#[trigger] self.ids@[i])@)
    }
}

fn check(
    id: &str,
    entries: &[LoadoutEntry],
    deps: &[Dependency],
    memo: &mut Memo,
    path: &mut Vec<String>,
) -> (r: Result<(), String>)
    requires
        old(memo).sound(entries@, deps@),
        old(memo).avoids(views(old(path)@)),
        views(old(path)@).no_duplicates(),
        all_requested(entries@, views(old(path)@)),
        leads_to(deps@, views(old(path)@), id@),
        is_requested(entries@, id@),
    ensures
        final(memo).sound(entries@, deps@),
        match r {
            Ok(_) => {
                &&& satisfied(entries@, deps@, id@)
                &&& final(path)@ == old(path)@
                &&& final(memo).avoids(views(old(path)@))
            },
            Err(text) => {
                &&& !satisfied(entries@, deps@, id@)
                &&& text@ == reason(entries@, deps@, id@, views(old(path)@))
            },
        },
    decreases entries@.len() + 1 - old(path)@.len(),
{
    let ghost before = views(path@);
    let ghost entry_path = path@;
    proof {
        lemma_path_fits(entries@, before);
    }
    match position(&memo.ids, id) {
        Some(at) => {
            return match &memo.failures[at] {
                None => Ok(()),
                Some(text) => Err(text.clone()),
            };
        },
        None => {},
    }
    assert forall|i: int| 0 <= i < memo.ids@.len() implies (#[trigger] memo.ids@[i])@ != id@ by {
        assert(views(memo.ids@)[i] == memo.ids@[i]@);
    }
    let again = position(path, id);
    if again.is_some() {
        proof {
            assert(before[again.unwrap() as int] == id@);
            law_cycles_are_refused(entries@, deps@, before, id@);
        }
        let mut text = "dependency cycle involving ".to_owned();
        text.append(id);
        return Err(text);
    }
    path.push(id.to_owned());
    let ghost longer = views(path@);
    assert(longer =~= before.push(id@));
    proof {
        lemma_path_fits(entries@, longer);
    }
    let needed = requirements(deps, id);
    let ghost w = wants(deps@, id@);
    let mut i: usize = 0;
    while i < needed.len()
        invariant
            i <= needed@.len(),
            views(needed@) == w,
            w == wants(deps@, id@),
            entry_path == old(path)@,
            path@ == entry_path.push(path@.last()),
            views(path@) == longer,
            longer == before.push(id@),
            longer.no_duplicates(),
            all_requested(entries@, longer),
            leads_to(deps@, before, id@),
            longer.len() <= entries@.len(),
            !before.contains(id@),
            memo.sound(entries@, deps@),
            memo.avoids(longer),
            path@.len() == entry_path.len() + 1,
            before == views(entry_path),
            forall|j: int| 0 <= j < i ==> met(entries@, deps@, #[trigger] w[j]),
        decreases needed@.len() - i,
    {
        let requirement = &needed[i];
        assert(w[i as int] == requirement@);
        if !requested(entries, requirement) {
            let mut text = "requires disabled or missing ".to_owned();
            text.append(requirement);
            proof {
                assert(first_unmet(entries@, deps@, id@, i as int));
                lemma_unmet(entries@, deps@, id@, i as int);
            }
            memo.ids.push(id.to_owned());
            memo.failures.push(Some(text.clone()));
            return Err(text);
        }
        assert(leads_to(deps@, longer, requirement@)) by {
            assert forall|k: int| #![trigger longer[k]] 0 <= k < longer.len() implies wants(
                deps@,
                longer[k],
            ).contains(
                if k + 1 < longer.len() {
                    longer[k + 1]
                } else {
                    requirement@
                },
            ) by {
                if k < before.len() {
                    assert(longer[k] == before[k]);
                }
            }
        }
        match check(requirement, entries, deps, memo, path) {
            Ok(_) => {
                assert(met(entries@, deps@, w[i as int]));
            },
            Err(inner) => {
                proof {
                    assert(first_unmet(entries@, deps@, id@, i as int));
                    lemma_unmet(entries@, deps@, id@, i as int);
                }
                let mut text = "requires ".to_owned();
                text.append(requirement);
                text.append(": ");
                text.append(&inner);
                return Err(text);
            },
        }
        i += 1;
    }
    proof {
        lemma_satisfied(entries@, deps@, id@);
    }
    path.pop();
    assert(path@ =~= entry_path);
    memo.ids.push(id.to_owned());
    memo.failures.push(None);
    assert(memo.avoids(before)) by {
        assert forall|k: int| 0 <= k < memo.ids@.len() implies !before.contains(
            (#[trigger] memo.ids@[k])@,
        ) by {
            if k < memo.ids@.len() - 1 {
                if before.contains(memo.ids@[k]@) {
                    let m = choose|m: int| 0 <= m < before.len() && before[m] == memo.ids@[k]@;
                    assert(longer[m] == before[m]);
                    assert(longer.contains(memo.ids@[k]@));
                }
            }
        }
    }
    Ok(())
}

/// What the dependencies make of one entry of a loadout.
pub open spec fn resolution(
    entries: Seq<LoadoutEntry>,
    deps: Seq<Dependency>,
    entry: LoadoutEntry,
    resolved: ResolvedEntry,
) -> bool {
    &&& resolved.entry == entry
    &&& resolved.effective_enabled == (entry.requested_enabled && satisfied(
        entries,
        deps,
        entry.mod_id@,
    ))
    &&& option_view(resolved.disabled_reason) == if !entry.requested_enabled {
        Some("disabled by user"@)
    } else if satisfied(entries, deps, entry.mod_id@) {
        None
    } else {
        Some(reason(entries, deps, entry.mod_id@, Seq::empty()))
    }
}

/// Decides for each entry of a loadout whether it can be enabled. What was asked
/// for stays as it is.
pub fn resolve(entries: &[LoadoutEntry], deps: &[Dependency]) -> (r: Vec<ResolvedEntry>)
    ensures
        r@.len() == entries@.len(),
        forall|i: int|
            0 <= i < r@.len() ==> resolution(entries@, deps@, entries@[i], #[trigger] r@[i]),
{
    let mut r: Vec<ResolvedEntry> = Vec::new();
    let mut memo = Memo { ids: Vec::new(), failures: Vec::new() };
    let mut i: usize = 0;
    while i < entries.len()
        invariant
            i <= entries@.len(),
            memo.sound(entries@, deps@),
            r@.len() == i,
            forall|j: int|
                0 <= j < i ==> resolution(entries@, deps@, entries@[j], #[trigger] r@[j]),
        decreases entries@.len() - i,
    {
        let entry = &entries[i];
        if !entry.requested_enabled {
            r.push(
                ResolvedEntry {
                    entry: entry.clone(),
                    effective_enabled: false,
                    disabled_reason: Some("disabled by user".to_owned()),
                },
            );
        } else {
            let mut path: Vec<String> = Vec::new();
            assert(views(path@) =~= Seq::<Seq<char>>::empty());
            assert(is_requested(entries@, entries@[i as int].mod_id@));
            match check(&entry.mod_id, entries, deps, &mut memo, &mut path) {
                Ok(_) => {
                    r.push(
                        ResolvedEntry {
                            entry: entry.clone(),
                            effective_enabled: true,
                            disabled_reason: None,
                        },
                    );
                },
                Err(text) => {
                    r.push(
                        ResolvedEntry {
                            entry: entry.clone(),
                            effective_enabled: false,
                            disabled_reason: Some(text),
                        },
                    );
                },
            }
        }
        i += 1;
    }
    r
}

/// What a mod requires is what the dependencies say of it.
pub proof fn lemma_wanted(deps: Seq<Dependency>, id: Seq<char>, needed: Seq<char>)
    ensures
        wants(deps, id).contains(needed) <==> exists|d: int|
            0 <= d < deps.len() && (#[trigger] deps[d]).mod_id@ == id && deps[d].requires_id@
                == needed,
{
    broadcast use crate::order::lemma_same_filter;

    let keep = |dep: Dependency| dep.mod_id@ == id;
    let kept = deps.filter(keep);
    if wants(deps, id).contains(needed) {
        let n = choose|n: int| 0 <= n < wants(deps, id).len() && wants(deps, id)[n] == needed;
        let d = crate::order::lemma_filtered(deps, keep, n);
        assert(deps[d].mod_id@ == id && deps[d].requires_id@ == needed);
    }
    if exists|d: int|
        0 <= d < deps.len() && (#[trigger] deps[d]).mod_id@ == id && deps[d].requires_id@ == needed {
        let d = choose|d: int|
            0 <= d < deps.len() && (#[trigger] deps[d]).mod_id@ == id && deps[d].requires_id@
                == needed;
        deps.lemma_filter_contains(keep, d);
        let n = choose|n: int| 0 <= n < kept.len() && kept[n] == deps[d];
        assert(wants(deps, id)[n] == needed);
    }
}

/// A mod runs only with all that it requires: where an entry is enabled, it was asked for,
/// and for every dependency of its mod there is an entry of the required mod that was asked
/// for and is enabled in turn. An entry that is not enabled says why, and one that is has
/// nothing to say. What was asked for is kept.
pub proof fn law_enabled_mods_have_what_they_need(
    entries: Seq<LoadoutEntry>,
    deps: Seq<Dependency>,
    resolved: Seq<ResolvedEntry>,
    i: int,
    d: int,
)
    requires
        resolved.len() == entries.len(),
        forall|j: int|
            0 <= j < resolved.len() ==> resolution(entries, deps, entries[j], #[trigger] resolved[j]),
        0 <= i < entries.len(),
        0 <= d < deps.len(),
    ensures
        resolved[i].entry == entries[i],
        resolved[i].effective_enabled ==> entries[i].requested_enabled,
        resolved[i].effective_enabled <==> resolved[i].disabled_reason is None,
        !entries[i].requested_enabled ==> resolved[i].disabled_reason is Some
            && resolved[i].disabled_reason->0@ == "disabled by user"@,
        resolved[i].effective_enabled && deps[d].mod_id@ == entries[i].mod_id@ ==> exists|j: int|
            0 <= j < entries.len() && (#[trigger] entries[j]).mod_id@ == deps[d].requires_id@
                && resolved[j].effective_enabled,
{
    assert(resolution(entries, deps, entries[i], resolved[i]));
    if resolved[i].effective_enabled && deps[d].mod_id@ == entries[i].mod_id@ {
        let id = entries[i].mod_id@;
        let needed = deps[d].requires_id@;
        lemma_wanted(deps, id, needed);
        law_requirements_are_enabled(entries, deps, id, needed);
        let j = choose|j: int|
            0 <= j < entries.len() && (#[trigger] entries[j]).requested_enabled && entries[j].mod_id@
                == needed;
        assert(resolution(entries, deps, entries[j], resolved[j]));
        assert(entries[j].mod_id@ == needed && resolved[j].effective_enabled);
    }
}

/// No mod is left out for nothing: where every mod that was asked for requires only mods
/// that were asked for, and no chain of requirements goes round, so that each has a rank
/// above that of all it requires, all of them are enabled.
pub proof fn law_complete_loadouts_are_enabled(
    entries: Seq<LoadoutEntry>,
    deps: Seq<Dependency>,
    rank: spec_fn(Seq<char>) -> nat,
    id: Seq<char>,
)
    requires
        forall|d: int|
            0 <= d < deps.len() && is_requested(entries, (#[trigger] deps[d]).mod_id@)
                ==> is_requested(entries, deps[d].requires_id@) && rank(deps[d].requires_id@) < rank(
                deps[d].mod_id@,
            ),
        is_requested(entries, id),
    ensures
        satisfied(entries, deps, id),
{
    lemma_ranked(entries, deps, rank, id);
    assert(clears(entries, deps, id, (rank(id) + 1) as nat));
}

proof fn lemma_ranked(
    entries: Seq<LoadoutEntry>,
    deps: Seq<Dependency>,
    rank: spec_fn(Seq<char>) -> nat,
    id: Seq<char>,
)
    requires
        forall|d: int|
            0 <= d < deps.len() && is_requested(entries, (#[trigger] deps[d]).mod_id@)
                ==> is_requested(entries, deps[d].requires_id@) && rank(deps[d].requires_id@) < rank(
                deps[d].mod_id@,
            ),
        is_requested(entries, id),
    ensures
        clears(entries, deps, id, (rank(id) + 1) as nat),
    decreases rank(id),
{
    let n = rank(id);
    let list = wants(deps, id);
    assert forall|i: int|
        #![trigger wants(deps, id)[i]]
        0 <= i < wants(deps, id).len() implies is_requested(entries, wants(deps, id)[i]) && clears(
        entries,
        deps,
        wants(deps, id)[i],
        n,
    ) by {
        let needed = wants(deps, id)[i];
        assert(list.contains(needed));
        lemma_wanted(deps, id, needed);
        let d = choose|d: int|
            0 <= d < deps.len() && (#[trigger] deps[d]).mod_id@ == id && deps[d].requires_id@
                == needed;
        assert(rank(needed) < n);
        lemma_ranked(entries, deps, rank, needed);
        lemma_more_steps(entries, deps, needed, (rank(needed) + 1) as nat, n);
    }
}

/// A mod whose first requirement was not asked for is refused by the name of that
/// requirement.
pub proof fn law_missing_requirements_are_named(
    entries: Seq<LoadoutEntry>,
    deps: Seq<Dependency>,
    resolved: ResolvedEntry,
    entry: LoadoutEntry,
)
    requires
        resolution(entries, deps, entry, resolved),
        entry.requested_enabled,
        wants(deps, entry.mod_id@).len() > 0,
        !is_requested(entries, wants(deps, entry.mod_id@)[0]),
    ensures
        !resolved.effective_enabled,
        resolved.disabled_reason is Some,
        resolved.disabled_reason->0@ == "requires disabled or missing "@ + wants(
            deps,
            entry.mod_id@,
        )[0],
{
    let id = entry.mod_id@;
    let needed = wants(deps, id)[0];
    if satisfied(entries, deps, id) {
        assert(wants(deps, id).contains(needed));
        law_requirements_are_enabled(entries, deps, id, needed);
    }
    assert(first_unmet(entries, deps, id, 0));
    let k = choose|k: int| first_unmet(entries, deps, id, k);
    assert(first_unmet(entries, deps, id, k));
    if k > 0 {
        assert(met(entries, deps, wants(deps, id)[0]));
    }
    assert(!Seq::<Seq<char>>::empty().contains(id));
}

} // verus!
