//! What else has to change when a mod is enabled.
use vstd::prelude::*;

use crate::catalog::{
    catalog, copy_of, find_framework, framework_views, frameworks, is_copy, known, label_of,
    requirement_label,
};
use crate::deps::{is_requested, requested, requirements, wants};
use crate::models::{Dependency, LoadoutEntry, ModRelease};
use crate::order::{add_text, ascending, strict_total, text_before, text_lt};
use crate::outside::pair_views;
use crate::text::{has_text, lower, same_ignoring_case, same_text, views};

verus! {

/// What else has to change when a mod is enabled.
#[derive(Debug)]
pub struct EnablePlan {
    /// The mods to enable with it, by id and name.
    pub enable_deps: Vec<(String, String)>,
    /// What it needs and the library does not have.
    pub missing_deps: Vec<String>,
    /// The copies of it to disable, by id and name.
    pub disable_dups: Vec<(String, String)>,
}

impl EnablePlan {
    /// Whether there is something to ask the user about.
    pub fn needs_prompt(&self) -> (r: bool)
        ensures
            r == (self.enable_deps@.len() > 0 || self.missing_deps@.len() > 0
                || self.disable_dups@.len() > 0),
    {
        self.enable_deps.len() > 0 || self.missing_deps.len() > 0 || self.disable_dups.len() > 0
    }
}

/// Whether a release is what a requirement asks for: by its id, or as a copy of
/// the framework that is required.
pub open spec fn satisfies(release: ModRelease, requires_id: Seq<char>) -> bool {
    release.id@ == requires_id || match known(requires_id) {
        Some(framework) => is_copy(release, framework),
        None => false,
    }
}

/// Whether a release is what a requirement asks for.
pub fn release_satisfies(release: &ModRelease, requires_id: &str) -> (r: bool)
    ensures
        r == satisfies(*release, requires_id@),
{
    if same_text(&release.id, requires_id) {
        return true;
    }
    match find_framework(requires_id) {
        Some(framework) => copy_of(release, &framework),
        None => false,
    }
}

/// Whether the release at `i` is the first that a requirement asks for.
pub open spec fn supplied_at(mods: Seq<ModRelease>, requires_id: Seq<char>, i: int) -> bool {
    &&& 0 <= i < mods.len()
    &&& satisfies(mods[i], requires_id)
    &&& forall|j: int| 0 <= j < i ==> !satisfies(#[trigger] mods[j], requires_id)
}

/// Whether no release is what a requirement asks for.
pub open spec fn unsupplied(mods: Seq<ModRelease>, requires_id: Seq<char>) -> bool {
    forall|i: int| 0 <= i < mods.len() ==> !satisfies(#[trigger] mods[i], requires_id)
}

fn find_supplier(mods: &[ModRelease], requires_id: &str) -> (r: Option<usize>)
    ensures
        match r {
            Some(i) => supplied_at(mods@, requires_id@, i as int),
            None => unsupplied(mods@, requires_id@),
        },
{
    let mut i: usize = 0;
    while i < mods.len()
        invariant
            i <= mods@.len(),
            forall|j: int| 0 <= j < i ==> !satisfies(#[trigger] mods@[j], requires_id@),
        decreases mods@.len() - i,
    {
        if release_satisfies(&mods[i], requires_id) {
            return Some(i);
        }
        i += 1;
    }
    None
}

/// Whether a requirement of `from` is supplied by the mod `to`.
pub open spec fn leads(
    mods: Seq<ModRelease>,
    deps: Seq<Dependency>,
    from: Seq<char>,
    to: Seq<char>,
) -> bool {
    exists|r: int, i: int|
        0 <= r < wants(deps, from).len() && #[trigger] supplied_at(mods, wants(deps, from)[r], i)
            && mods[i].id@ == to
}

/// Whether requirements lead from one mod to another in some steps.
pub open spec fn reaches_in(
    mods: Seq<ModRelease>,
    deps: Seq<Dependency>,
    from: Seq<char>,
    to: Seq<char>,
    steps: nat,
) -> bool
    decreases steps,
{
    if steps == 0 {
        from == to
    } else {
        exists|middle: Seq<char>|
            reaches_in(mods, deps, from, middle, (steps - 1) as nat) && #[trigger] leads(
                mods,
                deps,
                middle,
                to,
            )
    }
}

/// Whether requirements lead from one mod to another.
pub open spec fn reaches(
    mods: Seq<ModRelease>,
    deps: Seq<Dependency>,
    from: Seq<char>,
    to: Seq<char>,
) -> bool {
    exists|steps: nat| reaches_in(mods, deps, from, to, steps)
}

/// What a plan is made for.
pub struct PlanFacts {
    pub start: Seq<char>,
    pub mods: Seq<ModRelease>,
    pub entries: Seq<LoadoutEntry>,
    pub deps: Seq<Dependency>,
}

/// Whether the requirement at `r` of a mod is supplied by the release at `i`, and
/// that has to be enabled.
pub open spec fn enables_at(facts: PlanFacts, from: Seq<char>, r: int, i: int) -> bool {
    &&& 0 <= r < wants(facts.deps, from).len()
    &&& supplied_at(facts.mods, wants(facts.deps, from)[r], i)
    &&& facts.mods[i].id@ != facts.start
    &&& !is_requested(facts.entries, facts.mods[i].id@)
}

/// Whether a mod that is led to needs a release that has to be enabled.
pub open spec fn has_to_enable(facts: PlanFacts, pair: (Seq<char>, Seq<char>)) -> bool {
    exists|from: Seq<char>, r: int, i: int|
        reaches(facts.mods, facts.deps, facts.start, from) && #[trigger] enables_at(
            facts,
            from,
            r,
            i,
        ) && pair == (facts.mods[i].id@, facts.mods[i].name@)
}

/// Whether the requirement at `r` of a mod is not supplied.
pub open spec fn misses_at(facts: PlanFacts, from: Seq<char>, r: int) -> bool {
    0 <= r < wants(facts.deps, from).len() && unsupplied(facts.mods, wants(facts.deps, from)[r])
}

/// Whether a mod that is led to needs something that the library does not have.
pub open spec fn has_to_fetch(facts: PlanFacts, label: Seq<char>) -> bool {
    exists|from: Seq<char>, r: int|
        reaches(facts.mods, facts.deps, facts.start, from) && #[trigger] misses_at(facts, from, r)
            && label == label_of(wants(facts.deps, from)[r])
}

/// The order of pairs of texts.
pub open spec fn pair_lt(a: (Seq<char>, Seq<char>), b: (Seq<char>, Seq<char>)) -> bool {
    text_lt(a.0, b.0) || (a.0 == b.0 && text_lt(a.1, b.1))
}

/// Whether each pair of a list goes before the next.
pub open spec fn pairs_ascend(list: Seq<(Seq<char>, Seq<char>)>) -> bool {
    forall|i: int, j: int| 0 <= i < j < list.len() ==> pair_lt(#[trigger] list[i], #[trigger] list[j])
}

proof fn lemma_pair_order()
    ensures
        strict_total(|a: (Seq<char>, Seq<char>), b: (Seq<char>, Seq<char>)| pair_lt(a, b)),
{
    crate::order::lemma_text_order();
    let lt = |a: Seq<char>, b: Seq<char>| text_lt(a, b);
    let own = |a: (Seq<char>, Seq<char>), b: (Seq<char>, Seq<char>)| pair_lt(a, b);
    assert forall|a: (Seq<char>, Seq<char>)| !(#[trigger] own(a, a)) by {
        assert(!lt(a.0, a.0) && !lt(a.1, a.1));
    }
    assert forall|
        a: (Seq<char>, Seq<char>),
        b: (Seq<char>, Seq<char>),
        c: (Seq<char>, Seq<char>),
    | #[trigger] own(a, b) && #[trigger] own(b, c) implies own(a, c) by {
        if lt(a.0, b.0) && lt(b.0, c.0) {
            assert(lt(a.0, c.0));
        } else if a.0 == b.0 && b.0 == c.0 {
            assert(lt(a.1, b.1) && lt(b.1, c.1));
        } else {
            assert(lt(a.0, b.0) || lt(b.0, c.0));
        }
    }
    assert forall|a: (Seq<char>, Seq<char>), b: (Seq<char>, Seq<char>)| a != b implies #[trigger] own(
        a,
        b,
    ) || own(b, a) by {
        if a.0 != b.0 {
            assert(lt(a.0, b.0) || lt(b.0, a.0));
        } else {
            assert(a.1 != b.1);
            assert(lt(a.1, b.1) || lt(b.1, a.1));
        }
    }
}

fn pair_before(a: &(String, String), id: &str, name: &str) -> (r: bool)
    ensures
        r == pair_lt((a.0@, a.1@), (id@, name@)),
{
    text_before(&a.0, id) || (same_text(&a.0, id) && text_before(&a.1, name))
}

/// Puts a pair into an ascending list, unless it stands there already.
fn add_pair(list: &mut Vec<(String, String)>, id: &str, name: &str)
    requires
        pairs_ascend(pair_views(old(list)@)),
    ensures
        pairs_ascend(pair_views(final(list)@)),
        forall|p: (Seq<char>, Seq<char>)|
            #[trigger] pair_views(final(list)@).contains(p) <==> pair_views(old(list)@).contains(p) || p
                == (id@, name@),
{
    let ghost had = pair_views(list@);
    let ghost value = (id@, name@);
    let ghost lt = |a: (Seq<char>, Seq<char>), b: (Seq<char>, Seq<char>)| pair_lt(a, b);
    proof {
        lemma_pair_order();
    }
    let mut at: usize = 0;
    while at < list.len() && pair_before(&list[at], id, name)
        invariant
            at <= list@.len(),
            had == pair_views(list@),
            value == (id@, name@),
            forall|i: int| 0 <= i < at ==> pair_lt(#[trigger] had[i], value),
        decreases list@.len() - at,
    {
        assert(had[at as int] == (list@[at as int].0@, list@[at as int].1@));
        at += 1;
    }
    if at < list.len() && same_text(&list[at].0, id) && same_text(&list[at].1, name) {
        assert(had[at as int] == value);
        return ;
    }
    list.insert(at, (id.to_owned(), name.to_owned()));
    proof {
        let now = pair_views(list@);
        assert(now =~= had.insert(at as int, value));
        assert forall|i: int| at <= i < had.len() implies pair_lt(value, #[trigger] had[i]) by {
            let first = had[at as int];
            assert(!pair_lt(first, value) && first != value);
            assert(lt(first, value) || lt(value, first));
            if i > at {
                assert(lt(first, had[i]));
                assert(lt(value, had[i]));
            }
        }
        assert forall|i: int, j: int| 0 <= i < j < now.len() implies pair_lt(
            #[trigger] now[i],
            #[trigger] now[j],
        ) by {
            let p = if i < at { i } else { i - 1 };
            let q = if j < at { j } else { j - 1 };
            if i == at {
                assert(now[j] == had[q]);
            } else if j == at {
                assert(now[i] == had[p]);
            } else {
                assert(now[i] == had[p] && now[j] == had[q]);
            }
        }
        assert forall|p: (Seq<char>, Seq<char>)| #[trigger] now.contains(p) <==> had.contains(p) || p
            == value by {
            if now.contains(p) {
                let k = choose|k: int| 0 <= k < now.len() && now[k] == p;
                if k < at {
                    assert(had[k] == p);
                } else if k > at {
                    assert(had[k - 1] == p);
                }
            }
            if had.contains(p) {
                let k = choose|k: int| 0 <= k < had.len() && had[k] == p;
                if k < at {
                    assert(now[k] == p);
                } else {
                    assert(now[k + 1] == p);
                }
            }
            if p == value {
                assert(now[at as int] == p);
            }
        }
    }
}

proof fn lemma_reach_start(mods: Seq<ModRelease>, deps: Seq<Dependency>, id: Seq<char>)
    ensures
        reaches(mods, deps, id, id),
{
    assert(reaches_in(mods, deps, id, id, 0));
}

proof fn lemma_reach_on(
    mods: Seq<ModRelease>,
    deps: Seq<Dependency>,
    start: Seq<char>,
    from: Seq<char>,
    to: Seq<char>,
)
    requires
        reaches(mods, deps, start, from),
        leads(mods, deps, from, to),
    ensures
        reaches(mods, deps, start, to),
{
    let n = choose|n: nat| reaches_in(mods, deps, start, from, n);
    assert(reaches_in(mods, deps, start, from, ((n + 1) - 1) as nat));
    assert(reaches_in(mods, deps, start, to, n + 1));
}

/// What holds of the search for requirements while it runs.
spec fn search_sound(
    facts: PlanFacts,
    seen: Seq<Seq<char>>,
    stack: Seq<Seq<char>>,
    enable: Seq<(Seq<char>, Seq<char>)>,
    missing: Seq<Seq<char>>,
) -> bool {
    &&& forall|k: int|
        0 <= k < seen.len() ==> reaches(facts.mods, facts.deps, facts.start, #[trigger] seen[k])
    &&& forall|k: int|
        0 <= k < stack.len() ==> reaches(facts.mods, facts.deps, facts.start, #[trigger] stack[k])
    &&& seen.contains(facts.start) || stack.contains(facts.start)
    &&& pairs_ascend(enable)
    &&& ascending(missing)
    &&& forall|p: (Seq<char>, Seq<char>)| #[trigger] enable.contains(p) ==> has_to_enable(facts, p)
    &&& forall|t: Seq<char>| #[trigger] missing.contains(t) ==> has_to_fetch(facts, t)
}

/// That all that the first `done` requirements of a mod ask for is dealt with.
spec fn dealt_with(
    facts: PlanFacts,
    from: Seq<char>,
    done: int,
    seen: Seq<Seq<char>>,
    stack: Seq<Seq<char>>,
    enable: Seq<(Seq<char>, Seq<char>)>,
    missing: Seq<Seq<char>>,
) -> bool {
    let w = wants(facts.deps, from);
    forall|r: int|
        0 <= r < done ==> {
            &&& forall|i: int|
                #[trigger] supplied_at(facts.mods, #[trigger] w[r], i) ==> (seen.contains(
                    facts.mods[i].id@,
                ) || stack.contains(facts.mods[i].id@)) && (enables_at(facts, from, r, i)
                    ==> enable.contains((facts.mods[i].id@, facts.mods[i].name@)))
            &&& unsupplied(facts.mods, w[r]) ==> missing.contains(label_of(w[r]))
        }
}

spec fn all_dealt_with(
    facts: PlanFacts,
    seen: Seq<Seq<char>>,
    stack: Seq<Seq<char>>,
    enable: Seq<(Seq<char>, Seq<char>)>,
    missing: Seq<Seq<char>>,
    but: Option<Seq<char>>,
) -> bool {
    forall|k: int|
        0 <= k < seen.len() && Some(#[trigger] seen[k]) != but ==> dealt_with(
            facts,
            seen[k],
            wants(facts.deps, seen[k]).len() as int,
            seen,
            stack,
            enable,
            missing,
        )
}

spec fn universe(facts: PlanFacts) -> Seq<Seq<char>> {
    facts.mods.map_values(|m: ModRelease| m.id@).push(facts.start)
}

proof fn lemma_dealt_more(
    facts: PlanFacts,
    from: Seq<char>,
    done: int,
    seen: Seq<Seq<char>>,
    stack: Seq<Seq<char>>,
    enable: Seq<(Seq<char>, Seq<char>)>,
    missing: Seq<Seq<char>>,
    more_seen: Seq<Seq<char>>,
    more_stack: Seq<Seq<char>>,
    more_enable: Seq<(Seq<char>, Seq<char>)>,
    more_missing: Seq<Seq<char>>,
)
    requires
        dealt_with(facts, from, done, seen, stack, enable, missing),
        forall|x: Seq<char>|
            #![trigger more_seen.contains(x)]
            #![trigger more_stack.contains(x)]
            seen.contains(x) || stack.contains(x) ==> more_seen.contains(x) || more_stack.contains(x),
        forall|p: (Seq<char>, Seq<char>)|
            #[trigger] more_enable.contains(p) <== enable.contains(p),
        forall|t: Seq<char>| #[trigger] more_missing.contains(t) <== missing.contains(t),
    ensures
        dealt_with(facts, from, done, more_seen, more_stack, more_enable, more_missing),
{
    let w = wants(facts.deps, from);
    assert forall|r: int| 0 <= r < done implies ({
        &&& forall|i: int|
            #[trigger] supplied_at(facts.mods, #[trigger] w[r], i) ==> (more_seen.contains(
                facts.mods[i].id@,
            ) || more_stack.contains(facts.mods[i].id@)) && (enables_at(facts, from, r, i)
                ==> more_enable.contains((facts.mods[i].id@, facts.mods[i].name@)))
        &&& unsupplied(facts.mods, w[r]) ==> more_missing.contains(label_of(w[r]))
    }) by {
        assert forall|i: int| #[trigger] supplied_at(facts.mods, #[trigger] w[r], i) implies (
        more_seen.contains(facts.mods[i].id@) || more_stack.contains(facts.mods[i].id@)) && (
        enables_at(facts, from, r, i) ==> more_enable.contains(
            (facts.mods[i].id@, facts.mods[i].name@),
        )) by {
            let x = facts.mods[i].id@;
            assert(seen.contains(x) || stack.contains(x));
        }
    }
}

proof fn lemma_all_dealt_more(
    facts: PlanFacts,
    seen: Seq<Seq<char>>,
    stack: Seq<Seq<char>>,
    enable: Seq<(Seq<char>, Seq<char>)>,
    missing: Seq<Seq<char>>,
    more_seen: Seq<Seq<char>>,
    more_stack: Seq<Seq<char>>,
    more_enable: Seq<(Seq<char>, Seq<char>)>,
    more_missing: Seq<Seq<char>>,
    but: Option<Seq<char>>,
)
    requires
        all_dealt_with(facts, seen, stack, enable, missing, but),
        forall|k: int| 0 <= k < more_seen.len() && Some(#[trigger] more_seen[k]) != but ==> seen.contains(
            more_seen[k],
        ),
        forall|x: Seq<char>|
            #![trigger more_seen.contains(x)]
            #![trigger more_stack.contains(x)]
            seen.contains(x) || stack.contains(x) ==> more_seen.contains(x) || more_stack.contains(x),
        forall|p: (Seq<char>, Seq<char>)|
            #[trigger] more_enable.contains(p) <== enable.contains(p),
        forall|t: Seq<char>| #[trigger] more_missing.contains(t) <== missing.contains(t),
    ensures
        all_dealt_with(facts, more_seen, more_stack, more_enable, more_missing, but),
{
    assert forall|k: int| 0 <= k < more_seen.len() && Some(#[trigger] more_seen[k]) != but implies dealt_with(
        facts,
        more_seen[k],
        wants(facts.deps, more_seen[k]).len() as int,
        more_seen,
        more_stack,
        more_enable,
        more_missing,
    ) by {
        let n = choose|n: int| 0 <= n < seen.len() && seen[n] == more_seen[k];
        assert(Some(seen[n]) != but);
        lemma_dealt_more(
            facts,
            more_seen[k],
            wants(facts.deps, more_seen[k]).len() as int,
            seen,
            stack,
            enable,
            missing,
            more_seen,
            more_stack,
            more_enable,
            more_missing,
        );
    }
}

proof fn lemma_all_seen(
    facts: PlanFacts,
    seen: Seq<Seq<char>>,
    enable: Seq<(Seq<char>, Seq<char>)>,
    missing: Seq<Seq<char>>,
    to: Seq<char>,
    steps: nat,
)
    requires
        all_dealt_with(facts, seen, Seq::empty(), enable, missing, None),
        seen.contains(facts.start),
        reaches_in(facts.mods, facts.deps, facts.start, to, steps),
    ensures
        seen.contains(to),
    decreases steps,
{
    if steps > 0 {
        let middle = choose|middle: Seq<char>|
            reaches_in(facts.mods, facts.deps, facts.start, middle, (steps - 1) as nat)
                && #[trigger] leads(facts.mods, facts.deps, middle, to);
        lemma_all_seen(facts, seen, enable, missing, middle, (steps - 1) as nat);
        let k = choose|k: int| 0 <= k < seen.len() && seen[k] == middle;
        let w = wants(facts.deps, middle);
        assert(dealt_with(
            facts,
            seen[k],
            w.len() as int,
            seen,
            Seq::empty(),
            enable,
            missing,
        ));
        let (r, i) = choose|r: int, i: int|
            0 <= r < wants(facts.deps, middle).len() && #[trigger] supplied_at(
                facts.mods,
                wants(facts.deps, middle)[r],
                i,
            ) && facts.mods[i].id@ == to;
        assert(supplied_at(facts.mods, w[r], i));
        assert(!Seq::<Seq<char>>::empty().contains(to));
    }
}

proof fn lemma_search_complete(
    facts: PlanFacts,
    seen: Seq<Seq<char>>,
    enable: Seq<(Seq<char>, Seq<char>)>,
    missing: Seq<Seq<char>>,
)
    requires
        all_dealt_with(facts, seen, Seq::empty(), enable, missing, None),
        seen.contains(facts.start),
    ensures
        forall|p: (Seq<char>, Seq<char>)| #[trigger]
            has_to_enable(facts, p) ==> enable.contains(p),
        forall|t: Seq<char>| #[trigger] has_to_fetch(facts, t) ==> missing.contains(t),
{
    let none = Seq::<Seq<char>>::empty();
    assert forall|p: (Seq<char>, Seq<char>)| #[trigger] has_to_enable(facts, p) implies enable.contains(
        p,
    ) by {
        let (from, r, i) = choose|from: Seq<char>, r: int, i: int|
            reaches(facts.mods, facts.deps, facts.start, from) && #[trigger] enables_at(
                facts,
                from,
                r,
                i,
            ) && p == (facts.mods[i].id@, facts.mods[i].name@);
        let n = choose|n: nat| reaches_in(facts.mods, facts.deps, facts.start, from, n);
        lemma_all_seen(facts, seen, enable, missing, from, n);
        let k = choose|k: int| 0 <= k < seen.len() && seen[k] == from;
        let w = wants(facts.deps, from);
        assert(dealt_with(facts, seen[k], w.len() as int, seen, none, enable, missing));
        assert(supplied_at(facts.mods, w[r], i));
    }
    assert forall|t: Seq<char>| #[trigger] has_to_fetch(facts, t) implies missing.contains(t) by {
        let (from, r) = choose|from: Seq<char>, r: int|
            reaches(facts.mods, facts.deps, facts.start, from) && #[trigger] misses_at(facts, from, r)
                && t == label_of(wants(facts.deps, from)[r]);
        let n = choose|n: nat| reaches_in(facts.mods, facts.deps, facts.start, from, n);
        lemma_all_seen(facts, seen, enable, missing, from, n);
        let k = choose|k: int| 0 <= k < seen.len() && seen[k] == from;
        let w = wants(facts.deps, from);
        assert(dealt_with(facts, seen[k], w.len() as int, seen, none, enable, missing));
        assert(unsupplied(facts.mods, w[r]));
    }
}

/// The state of the search for requirements.
struct Search {
    seen: Vec<String>,
    stack: Vec<String>,
    enable: Vec<(String, String)>,
    missing: Vec<String>,
}

spec fn within(facts: PlanFacts, search: Search) -> bool {
    &&& views(search.seen@).no_duplicates()
    &&& forall|k: int|
        0 <= k < search.seen@.len() ==> universe(facts).contains((#[trigger] search.seen@[k])@)
    &&& forall|k: int|
        0 <= k < search.stack@.len() ==> universe(facts).contains((#[trigger] search.stack@[k])@)
}

spec fn goes_well(facts: PlanFacts, search: Search, but: Option<Seq<char>>) -> bool {
    &&& within(facts, search)
    &&& search_sound(
        facts,
        views(search.seen@),
        views(search.stack@),
        pair_views(search.enable@),
        views(search.missing@),
    )
    &&& all_dealt_with(
        facts,
        views(search.seen@),
        views(search.stack@),
        pair_views(search.enable@),
        views(search.missing@),
        but,
    )
}

/// Deals with one requirement of the mod `from`.
fn take_requirement(
    search: &mut Search,
    from: &String,
    requirement: &String,
    start: &str,
    mods: &[ModRelease],
    entries: &[LoadoutEntry],
    Ghost(facts): Ghost<PlanFacts>,
    Ghost(r): Ghost<int>,
)
    requires
        facts.start == start@,
        facts.mods == mods@,
        facts.entries == entries@,
        goes_well(facts, *old(search), Some(from@)),
        0 <= r < wants(facts.deps, from@).len(),
        requirement@ == wants(facts.deps, from@)[r],
        reaches(facts.mods, facts.deps, facts.start, from@),
        views(old(search).seen@).contains(from@),
        dealt_with(
            facts,
            from@,
            r,
            views(old(search).seen@),
            views(old(search).stack@),
            pair_views(old(search).enable@),
            views(old(search).missing@),
        ),
    ensures
        final(search).seen == old(search).seen,
        goes_well(facts, *final(search), Some(from@)),
        dealt_with(
            facts,
            from@,
            r + 1,
            views(final(search).seen@),
            views(final(search).stack@),
            pair_views(final(search).enable@),
            views(final(search).missing@),
        ),
{
    let ghost seen = views(search.seen@);
    let ghost stack = views(search.stack@);
    let ghost enable = pair_views(search.enable@);
    let ghost missing = views(search.missing@);
    let ghost w = wants(facts.deps, from@);
    match find_supplier(mods, requirement) {
        Some(i) => {
            let found = &mods[i];
            let ghost x = found.id@;
            search.stack.push(found.id.clone());
            if !same_text(&found.id, start) && !requested(entries, &found.id) {
                add_pair(&mut search.enable, &found.id, &found.name);
                proof {
                    assert(enables_at(facts, from@, r, i as int));
                    assert(has_to_enable(facts, (found.id@, found.name@)));
                }
            }
            proof {
                let now = views(search.stack@);
                let enabled = pair_views(search.enable@);
                assert(now =~= stack.push(x));
                assert(now[stack.len() as int] == x);
                assert(leads(facts.mods, facts.deps, from@, x));
                lemma_reach_on(facts.mods, facts.deps, facts.start, from@, x);
                assert forall|y: Seq<char>|
                    #![trigger seen.contains(y)]
                    #![trigger now.contains(y)]
                    seen.contains(y) || stack.contains(y) implies seen.contains(y) || now.contains(y) by {
                    if stack.contains(y) {
                        let k = choose|k: int| 0 <= k < stack.len() && stack[k] == y;
                        assert(now[k] == y);
                    }
                }
                lemma_dealt_more(
                    facts,
                    from@,
                    r,
                    seen,
                    stack,
                    enable,
                    missing,
                    seen,
                    now,
                    enabled,
                    missing,
                );
                lemma_all_dealt_more(
                    facts,
                    seen,
                    stack,
                    enable,
                    missing,
                    seen,
                    now,
                    enabled,
                    missing,
                    Some(from@),
                );
                assert forall|k: int| 0 <= k < search.stack@.len() implies universe(facts).contains(
                    (#[trigger] search.stack@[k])@,
                ) by {
                    if k == stack.len() {
                        assert(universe(facts)[i as int] == x);
                    }
                }
                assert forall|k: int| 0 <= k < now.len() implies reaches(
                    facts.mods,
                    facts.deps,
                    facts.start,
                    #[trigger] now[k],
                ) by {
                    if k < stack.len() {
                        assert(now[k] == stack[k]);
                    }
                }
                assert forall|j: int| #[trigger] supplied_at(facts.mods, #[trigger] w[r], j) implies (
                seen.contains(facts.mods[j].id@) || now.contains(facts.mods[j].id@)) && (enables_at(
                    facts,
                    from@,
                    r,
                    j,
                ) ==> enabled.contains((facts.mods[j].id@, facts.mods[j].name@))) by {
                    lemma_one_supplier(facts.mods, w[r], j, i as int);
                }
                assert(!unsupplied(facts.mods, w[r]));
            }
        },
        None => {
            let label = requirement_label(requirement);
            let ghost text = label@;
            add_text(&mut search.missing, label);
            proof {
                let fetched = views(search.missing@);
                assert(misses_at(facts, from@, r));
                assert(has_to_fetch(facts, text));
                assert forall|t: Seq<char>| #[trigger] fetched.contains(t) <==> missing.contains(t) || t
                    == text by {
                    assert(fetched.to_set().contains(t) == missing.to_set().insert(text).contains(t));
                    assert(fetched.to_set().contains(t) == fetched.contains(t));
                    assert(missing.to_set().contains(t) == missing.contains(t));
                }
                lemma_dealt_more(
                    facts,
                    from@,
                    r,
                    seen,
                    stack,
                    enable,
                    missing,
                    seen,
                    stack,
                    enable,
                    fetched,
                );
                lemma_all_dealt_more(
                    facts,
                    seen,
                    stack,
                    enable,
                    missing,
                    seen,
                    stack,
                    enable,
                    fetched,
                    Some(from@),
                );
                assert forall|j: int| !#[trigger] supplied_at(facts.mods, w[r], j) by {
                    if supplied_at(facts.mods, w[r], j) {
                        assert(satisfies(facts.mods[j], w[r]));
                    }
                }
            }
        },
    }
}

proof fn lemma_one_supplier(mods: Seq<ModRelease>, requires_id: Seq<char>, i: int, j: int)
    requires
        supplied_at(mods, requires_id, i),
        supplied_at(mods, requires_id, j),
    ensures
        i == j,
{
    if i < j {
        assert(!satisfies(mods[i], requires_id));
    }
    if j < i {
        assert(!satisfies(mods[j], requires_id));
    }
}

/// Follows the requirements of a mod.
fn follow(
    start: &str,
    mods: &[ModRelease],
    entries: &[LoadoutEntry],
    deps: &[Dependency],
) -> (r: (Vec<(String, String)>, Vec<String>))
    ensures
        ({
            let facts = PlanFacts { start: start@, mods: mods@, entries: entries@, deps: deps@ };
            &&& pairs_ascend(pair_views(r.0@))
            &&& forall|p: (Seq<char>, Seq<char>)| #[trigger]
                pair_views(r.0@).contains(p) <==> has_to_enable(facts, p)
            &&& ascending(views(r.1@))
            &&& forall|t: Seq<char>| #[trigger] views(r.1@).contains(t) <==> has_to_fetch(facts, t)
        }),
{
    let ghost facts = PlanFacts { start: start@, mods: mods@, entries: entries@, deps: deps@ };
    let mut stack: Vec<String> = Vec::new();
    stack.push(start.to_owned());
    let mut search = Search {
        seen: Vec::new(),
        stack,
        enable: Vec::new(),
        missing: Vec::new(),
    };
    proof {
        lemma_reach_start(facts.mods, facts.deps, facts.start);
        assert(views(search.stack@)[0] == start@);
        assert(universe(facts)[mods@.len() as int] == start@);
    }
    while search.stack.len() > 0
        invariant
            facts == (PlanFacts {
                start: start@,
                mods: mods@,
                entries: entries@,
                deps: deps@,
            }),
            goes_well(facts, search, None),
            views(search.seen@).len() <= universe(facts).len(),
        decreases universe(facts).len() - search.seen@.len(), search.stack@.len(),
    {
        let ghost before = search;
        let ghost seen = views(search.seen@);
        let ghost stack = views(search.stack@);
        let ghost enable = pair_views(search.enable@);
        let ghost missing = views(search.missing@);
        match search.stack.pop() {
            None => {},
            Some(id) => {
                let ghost rest = views(search.stack@);
                proof {
                    assert(stack =~= rest.push(id@));
                    assert(stack[rest.len() as int] == id@);
                    assert(before.stack@[rest.len() as int]@ == id@);
                    assert forall|y: Seq<char>| stack.contains(y) implies rest.contains(y) || y == id@ by {
                        let k = choose|k: int| 0 <= k < stack.len() && stack[k] == y;
                        if k < rest.len() {
                            assert(rest[k] == y);
                        }
                    }
                }
                if has_text(&search.seen, &id) {
                    proof {
                        lemma_all_dealt_more(
                            facts,
                            seen,
                            stack,
                            enable,
                            missing,
                            seen,
                            rest,
                            enable,
                            missing,
                            None,
                        );
                        assert forall|k: int| 0 <= k < rest.len() implies reaches(
                            facts.mods,
                            facts.deps,
                            facts.start,
                            #[trigger] rest[k],
                        ) by {
                            assert(rest[k] == stack[k]);
                        }
                        assert forall|k: int| 0 <= k < search.stack@.len() implies universe(
                            facts,
                        ).contains((#[trigger] search.stack@[k])@) by {
                            assert(search.stack@[k] == before.stack@[k]);
                        }
                    }
                } else {
                    let needs = requirements(deps, &id);
                    let from = id.clone();
                    search.seen.push(id);
                    let ghost now = views(search.seen@);
                    proof {
                        assert(now =~= seen.push(from@));
                        assert(now[seen.len() as int] == from@);
                        assert forall|y: Seq<char>|
                            #![trigger now.contains(y)]
                            #![trigger rest.contains(y)]
                            seen.contains(y) || stack.contains(y) implies now.contains(y)
                            || rest.contains(y) by {
                            if seen.contains(y) {
                                let k = choose|k: int| 0 <= k < seen.len() && seen[k] == y;
                                assert(now[k] == y);
                            }
                        }
                        assert forall|k: int|
                            0 <= k < now.len() && Some(#[trigger] now[k]) != Some(
                                from@,
                            ) implies seen.contains(now[k]) by {
                            assert(seen[k] == now[k]);
                        }
                        assert(all_dealt_with(facts, seen, stack, enable, missing, Some(from@)));
                        lemma_all_dealt_more(
                            facts,
                            seen,
                            stack,
                            enable,
                            missing,
                            now,
                            rest,
                            enable,
                            missing,
                            Some(from@),
                        );
                        assert forall|k: int| 0 <= k < search.stack@.len() implies universe(
                            facts,
                        ).contains((#[trigger] search.stack@[k])@) by {
                            assert(search.stack@[k] == before.stack@[k]);
                        }
                        assert forall|k: int| 0 <= k < search.seen@.len() implies universe(
                            facts,
                        ).contains((#[trigger] search.seen@[k])@) by {
                            if k < seen.len() {
                                assert(search.seen@[k] == before.seen@[k]);
                            } else {
                                assert(search.seen@[k]@ == from@);
                            }
                        }
                        assert(now.no_duplicates());
                        assert forall|k: int| 0 <= k < now.len() implies universe(facts).contains(
                            #[trigger] now[k],
                        ) by {
                            assert(search.seen@[k]@ == now[k]);
                        }
                        crate::order::lemma_fits(now, universe(facts));
                        assert forall|k: int| 0 <= k < now.len() implies reaches(
                            facts.mods,
                            facts.deps,
                            facts.start,
                            #[trigger] now[k],
                        ) by {
                            if k < seen.len() {
                                assert(now[k] == seen[k]);
                            } else {
                                assert(stack[rest.len() as int] == from@);
                            }
                        }
                        assert forall|k: int| 0 <= k < rest.len() implies reaches(
                            facts.mods,
                            facts.deps,
                            facts.start,
                            #[trigger] rest[k],
                        ) by {
                            assert(rest[k] == stack[k]);
                        }
                        assert(reaches(facts.mods, facts.deps, facts.start, now[seen.len() as int]));
                        assert(now.contains(facts.start) || rest.contains(facts.start));
                    }
                    let mut r: usize = 0;
                    while r < needs.len()
                        invariant
                            r <= needs@.len(),
                            facts == (PlanFacts {
                                start: start@,
                                mods: mods@,
                                entries: entries@,
                                deps: deps@,
                            }),
                            views(needs@) == wants(facts.deps, from@),
                            goes_well(facts, search, Some(from@)),
                            views(search.seen@) == now,
                            now.contains(from@),
                            reaches(facts.mods, facts.deps, facts.start, from@),
                            dealt_with(
                                facts,
                                from@,
                                r as int,
                                views(search.seen@),
                                views(search.stack@),
                                pair_views(search.enable@),
                                views(search.missing@),
                            ),
                        decreases needs@.len() - r,
                    {
                        assert(views(needs@)[r as int] == needs@[r as int]@);
                        take_requirement(
                            &mut search,
                            &from,
                            &needs[r],
                            start,
                            mods,
                            entries,
                            Ghost(facts),
                            Ghost(r as int),
                        );
                        r += 1;
                    }
                    proof {
                        assert(views(needs@).len() == needs@.len());
                        assert forall|k: int| 0 <= k < views(search.seen@).len() implies dealt_with(
                            facts,
                            #[trigger] views(search.seen@)[k],
                            wants(facts.deps, views(search.seen@)[k]).len() as int,
                            views(search.seen@),
                            views(search.stack@),
                            pair_views(search.enable@),
                            views(search.missing@),
                        ) by {
                            if views(search.seen@)[k] == from@ {
                            }
                        }
                    }
                }
            },
        }
    }
    proof {
        assert(views(search.stack@) =~= Seq::<Seq<char>>::empty());
        lemma_search_complete(
            facts,
            views(search.seen@),
            pair_views(search.enable@),
            views(search.missing@),
        );
    }
    (search.enable, search.missing)
}

/// Whether the framework at `i` of the catalog is the first that a release is a
/// copy of.
pub open spec fn copied_at(release: ModRelease, i: int) -> bool {
    &&& 0 <= i < catalog().len()
    &&& is_copy(release, catalog()[i])
    &&& forall|j: int| 0 <= j < i ==> !is_copy(release, #[trigger] catalog()[j])
}

/// The framework that a release is a copy of, by its place in the catalog.
pub open spec fn copied(release: ModRelease) -> Option<int> {
    if exists|i: int| copied_at(release, i) {
        Some(choose|i: int| copied_at(release, i))
    } else {
        None
    }
}

fn find_copied(release: &ModRelease) -> (r: Option<usize>)
    ensures
        match r {
            Some(i) => copied(*release) == Some(i as int),
            None => copied(*release) is None,
        },
{
    let all = frameworks();
    let ghost known = framework_views(all@);
    let mut i: usize = 0;
    while i < all.len()
        invariant
            i <= all@.len(),
            known == framework_views(all@),
            known == catalog(),
            forall|j: int| 0 <= j < i ==> !is_copy(*release, #[trigger] catalog()[j]),
        decreases all@.len() - i,
    {
        assert(known[i as int] == all@[i as int]@);
        if copy_of(release, &all[i]) {
            assert(copied_at(*release, i as int));
            proof {
                let k = choose|k: int| copied_at(*release, k);
                assert(k == i);
            }
            return Some(i);
        }
        i += 1;
    }
    assert forall|k: int| !copied_at(*release, k) by {
        if copied_at(*release, k) {
            assert(is_copy(*release, catalog()[k]));
        }
    }
    None
}

/// Whether two releases are one mod: from one archive, copies of one framework, or
/// of one name, in any case, and version where not both are frameworks.
pub open spec fn same_mod(left: ModRelease, right: ModRelease) -> bool {
    left.archive_sha256@ == right.archive_sha256@ || match (copied(left), copied(right)) {
        (Some(a), Some(b)) => a == b,
        _ => lower(left.name@) == lower(right.name@) && left.version@ == right.version@,
    }
}

/// Whether two releases are one mod.
pub fn same_logical_mod(left: &ModRelease, right: &ModRelease) -> (r: bool)
    ensures
        r == same_mod(*left, *right),
{
    if left.archive_sha256 == right.archive_sha256 {
        return true;
    }
    match (find_copied(left), find_copied(right)) {
        (Some(a), Some(b)) => a == b,
        _ => same_ignoring_case(&left.name, &right.name) && left.version == right.version,
    }
}

/// Being one mod does not depend on the order of the two.
pub proof fn law_same_mod_is_symmetric(left: ModRelease, right: ModRelease)
    ensures
        same_mod(left, right) == same_mod(right, left),
{
}

/// The other releases that are the same mod and requested.
pub open spec fn requested_copies(
    release: ModRelease,
    mods: Seq<ModRelease>,
    entries: Seq<LoadoutEntry>,
) -> Seq<(Seq<char>, Seq<char>)> {
    mods.filter(
        |m: ModRelease|
            m.id@ != release.id@ && same_mod(release, m) && is_requested(entries, m.id@),
    ).map_values(|m: ModRelease| (m.id@, m.name@))
}

fn find_copies(release: &ModRelease, mods: &[ModRelease], entries: &[LoadoutEntry]) -> (r: Vec<
    (String, String),
>)
    ensures
        pair_views(r@) == requested_copies(*release, mods@, entries@),
{
    let ghost keep = |m: ModRelease|
        m.id@ != release.id@ && same_mod(*release, m) && is_requested(entries@, m.id@);
    let ghost turn = |m: ModRelease| (m.id@, m.name@);
    let mut r: Vec<(String, String)> = Vec::new();
    let mut i: usize = 0;
    assert(pair_views(r@) =~= mods@.take(0).filter(keep).map_values(turn)) by {
        reveal(Seq::filter);
    }
    while i < mods.len()
        invariant
            i <= mods@.len(),
            keep == (|m: ModRelease|
                m.id@ != release.id@ && same_mod(*release, m) && is_requested(entries@, m.id@)),
            turn == (|m: ModRelease| (m.id@, m.name@)),
            pair_views(r@) == mods@.take(i as int).filter(keep).map_values(turn),
        decreases mods@.len() - i,
    {
        let ghost had = pair_views(r@);
        let ghost before = mods@.take(i as int).filter(keep);
        let ghost now = mods@.take(i + 1);
        assert(now.drop_last() =~= mods@.take(i as int));
        assert(now.filter(keep) == if keep(mods@[i as int]) {
            before.push(mods@[i as int])
        } else {
            before
        }) by {
            reveal(Seq::filter);
        }
        let other = &mods[i];
        if other.id != release.id && same_logical_mod(release, other) && requested(
            entries,
            &other.id,
        ) {
            r.push((other.id.clone(), other.name.clone()));
            assert(pair_views(r@) =~= had.push(turn(mods@[i as int])));
            assert(now.filter(keep).map_values(turn) =~= before.map_values(turn).push(
                turn(mods@[i as int]),
            ));
        }
        i += 1;
    }
    assert(mods@.take(i as int) =~= mods@);
    r
}

/// Whether a plan is the one for a release.
pub open spec fn is_enable_plan(
    plan: EnablePlan,
    release: ModRelease,
    mods: Seq<ModRelease>,
    entries: Seq<LoadoutEntry>,
    deps: Seq<Dependency>,
) -> bool {
    let facts = PlanFacts { start: release.id@, mods, entries, deps };
    &&& pairs_ascend(pair_views(plan.enable_deps@))
    &&& forall|p: (Seq<char>, Seq<char>)| #[trigger]
        pair_views(plan.enable_deps@).contains(p) <==> has_to_enable(facts, p)
    &&& ascending(views(plan.missing_deps@))
    &&& forall|t: Seq<char>| #[trigger]
        views(plan.missing_deps@).contains(t) <==> has_to_fetch(facts, t)
    &&& pair_views(plan.disable_dups@) == requested_copies(release, mods, entries)
}

/// Finds out what else has to change when a mod is enabled: the mods that it leads
/// to and that are not requested, each once and in the order of their ids; what
/// the library lacks; and the copies of the mod that are requested.
pub fn enable_plan(
    release: &ModRelease,
    mods: &[ModRelease],
    loadout: &[LoadoutEntry],
    deps: &[Dependency],
) -> (r: EnablePlan)
    ensures
        is_enable_plan(r, *release, mods@, loadout@, deps@),
{
    let (enable_deps, missing_deps) = follow(&release.id, mods, loadout, deps);
    let disable_dups = find_copies(release, mods, loadout);
    EnablePlan { enable_deps, missing_deps, disable_dups }
}

/// A plan leaves nothing out: whatever the requirements of a mod lead to is requested
/// already or enabled with it, and where nothing is missing, each requirement on the
/// way is supplied.
pub proof fn law_enable_plan_is_complete(
    plan: EnablePlan,
    release: ModRelease,
    mods: Seq<ModRelease>,
    entries: Seq<LoadoutEntry>,
    deps: Seq<Dependency>,
    to: Seq<char>,
    r: int,
)
    requires
        is_enable_plan(plan, release, mods, entries, deps),
        reaches(mods, deps, release.id@, to),
    ensures
        to == release.id@ || is_requested(entries, to) || exists|i: int|
            0 <= i < plan.enable_deps@.len() && (#[trigger] plan.enable_deps@[i]).0@ == to,
        plan.missing_deps@.len() == 0 && 0 <= r < wants(deps, to).len() ==> !unsupplied(
            mods,
            wants(deps, to)[r],
        ),
{
    let facts = PlanFacts { start: release.id@, mods, entries, deps };
    if to != release.id@ && !is_requested(entries, to) {
        let steps = choose|steps: nat| reaches_in(mods, deps, release.id@, to, steps);
        let from = choose|from: Seq<char>|
            reaches_in(mods, deps, release.id@, from, (steps - 1) as nat) && #[trigger] leads(
                mods,
                deps,
                from,
                to,
            );
        assert(reaches(mods, deps, release.id@, from));
        let (q, i) = choose|q: int, i: int|
            0 <= q < wants(deps, from).len() && #[trigger] supplied_at(mods, wants(deps, from)[q], i)
                && mods[i].id@ == to;
        assert(enables_at(facts, from, q, i));
        let pair = (mods[i].id@, mods[i].name@);
        assert(has_to_enable(facts, pair));
        let list = pair_views(plan.enable_deps@);
        assert(list.contains(pair));
        let k = choose|k: int| 0 <= k < list.len() && list[k] == pair;
        assert(plan.enable_deps@[k].0@ == to);
    }
    if plan.missing_deps@.len() == 0 && 0 <= r < wants(deps, to).len() {
        if unsupplied(mods, wants(deps, to)[r]) {
            assert(misses_at(facts, to, r));
            let label = label_of(wants(deps, to)[r]);
            assert(has_to_fetch(facts, label));
            assert(views(plan.missing_deps@).contains(label));
        }
    }
}

/// A plan is the only one: its lists hold the same whichever way they were found.
pub proof fn law_enable_plan_is_unique(
    a: EnablePlan,
    b: EnablePlan,
    release: ModRelease,
    mods: Seq<ModRelease>,
    entries: Seq<LoadoutEntry>,
    deps: Seq<Dependency>,
)
    requires
        is_enable_plan(a, release, mods, entries, deps),
        is_enable_plan(b, release, mods, entries, deps),
    ensures
        pair_views(a.enable_deps@) == pair_views(b.enable_deps@),
        views(a.missing_deps@) == views(b.missing_deps@),
        pair_views(a.disable_dups@) == pair_views(b.disable_dups@),
{
    let facts = PlanFacts { start: release.id@, mods, entries, deps };
    lemma_pair_order();
    let lt = |x: (Seq<char>, Seq<char>), y: (Seq<char>, Seq<char>)| pair_lt(x, y);
    let p = pair_views(a.enable_deps@);
    let q = pair_views(b.enable_deps@);
    assert forall|i: int| 0 <= i < p.len() implies q.contains(#[trigger] p[i]) by {
        assert(p.contains(p[i]));
        assert(has_to_enable(facts, p[i]));
    }
    assert forall|i: int| 0 <= i < q.len() implies p.contains(#[trigger] q[i]) by {
        assert(q.contains(q[i]));
        assert(has_to_enable(facts, q[i]));
    }
    crate::order::lemma_ascending_equal(p, q, lt);
    let s = views(a.missing_deps@);
    let t = views(b.missing_deps@);
    assert forall|x: Seq<char>| s.to_set().contains(x) == t.to_set().contains(x) by {
        assert(s.to_set().contains(x) == s.contains(x));
        assert(t.to_set().contains(x) == t.contains(x));
        assert(s.contains(x) == has_to_fetch(facts, x));
        assert(t.contains(x) == has_to_fetch(facts, x));
    }
    assert(s.to_set() =~= t.to_set());
    crate::order::lemma_ascending_unique(s, t);
}

/// Two releases are one mod where they came in one archive; where both are copies of one
/// framework, whatever their versions; or where they have one name, in any case of
/// letters, and one version, and are not both frameworks.
pub proof fn law_copies_are_one_mod(left: ModRelease, right: ModRelease, i: int)
    ensures
        same_mod(left, left),
        left.archive_sha256@ == right.archive_sha256@ ==> same_mod(left, right),
        copied_at(left, i) && copied_at(right, i) ==> same_mod(left, right),
        copied(left) is None && lower(left.name@) == lower(right.name@) && left.version@
            == right.version@ ==> same_mod(left, right),
        copied(left) is None && left.archive_sha256@ != right.archive_sha256@ && (lower(left.name@)
            != lower(right.name@) || left.version@ != right.version@) ==> !same_mod(left, right),
{
    if copied_at(left, i) && copied_at(right, i) {
        let a = choose|a: int| copied_at(left, a);
        let b = choose|b: int| copied_at(right, b);
        assert(copied_at(left, a) && copied_at(right, b));
        assert(a == i) by {
            if a < i {
                assert(!is_copy(left, catalog()[a]));
            }
            if i < a {
                assert(!is_copy(left, catalog()[i]));
            }
        }
        assert(b == i) by {
            if b < i {
                assert(!is_copy(right, catalog()[b]));
            }
            if i < b {
                assert(!is_copy(right, catalog()[i]));
            }
        }
    }
}

/// A plan sees to every requirement of the mod: what the library has is asked for already
/// or enabled with it, and what it lacks is named. What it turns off are the other copies
/// of the mod that are asked for, all of them and nothing else.
pub proof fn law_plans_see_to_requirements(
    plan: EnablePlan,
    release: ModRelease,
    mods: Seq<ModRelease>,
    entries: Seq<LoadoutEntry>,
    deps: Seq<Dependency>,
    d: int,
    i: int,
)
    requires
        is_enable_plan(plan, release, mods, entries, deps),
        0 <= d < deps.len(),
        deps[d].mod_id@ == release.id@,
        0 <= i < mods.len(),
    ensures
        (forall|k: int|
            0 <= k < mods.len() ==> (#[trigger] mods[k]).id@ != deps[d].requires_id@ && (known(
                deps[d].requires_id@,
            ) is Some ==> !is_copy(mods[k], known(deps[d].requires_id@)->0))) ==> views(
            plan.missing_deps@,
        ).contains(label_of(deps[d].requires_id@)),
        mods[i].id@ == deps[d].requires_id@ && (forall|k: int|
            0 <= k < i ==> !satisfies(#[trigger] mods[k], deps[d].requires_id@)) && mods[i].id@
            != release.id@ && !is_requested(entries, mods[i].id@) ==> pair_views(
            plan.enable_deps@,
        ).contains((mods[i].id@, mods[i].name@)),
        mods[i].id@ != release.id@ && same_mod(release, mods[i]) && is_requested(
            entries,
            mods[i].id@,
        ) ==> pair_views(plan.disable_dups@).contains((mods[i].id@, mods[i].name@)),
        forall|p: (Seq<char>, Seq<char>)| #[trigger]
            pair_views(plan.disable_dups@).contains(p) ==> p.0 != release.id@ && is_requested(
                entries,
                p.0,
            ),
        forall|p: (Seq<char>, Seq<char>)| #[trigger]
            pair_views(plan.enable_deps@).contains(p) ==> p.0 != release.id@ && !is_requested(
                entries,
                p.0,
            ),
{
    broadcast use crate::order::lemma_same_filter;

    let start = release.id@;
    let needed = deps[d].requires_id@;
    let facts = PlanFacts { start, mods, entries, deps };
    let w = wants(deps, start);
    crate::deps::lemma_wanted(deps, start, needed);
    let r = choose|r: int| 0 <= r < w.len() && w[r] == needed;
    lemma_reach_start(mods, deps, start);
    if forall|k: int|
        0 <= k < mods.len() ==> (#[trigger] mods[k]).id@ != needed && (known(needed) is Some
            ==> !is_copy(mods[k], known(needed)->0)) {
        assert(unsupplied(mods, needed));
        assert(misses_at(facts, start, r));
        assert(has_to_fetch(facts, label_of(needed)));
    }
    if mods[i].id@ == needed && (forall|k: int|
        0 <= k < i ==> !satisfies(#[trigger] mods[k], needed)) && mods[i].id@ != start
        && !is_requested(entries, mods[i].id@) {
        assert(supplied_at(mods, needed, i));
        assert(enables_at(facts, start, r, i));
        assert(has_to_enable(facts, (mods[i].id@, mods[i].name@)));
    }
    let keep = |m: ModRelease|
        m.id@ != release.id@ && same_mod(release, m) && is_requested(entries, m.id@);
    let kept = mods.filter(keep);
    let dups = requested_copies(release, mods, entries);
    assert(dups.len() == kept.len());
    if keep(mods[i]) {
        mods.lemma_filter_contains(keep, i);
        let n = choose|n: int| 0 <= n < kept.len() && kept[n] == mods[i];
        assert(dups[n] == (mods[i].id@, mods[i].name@));
    }
    assert forall|p: (Seq<char>, Seq<char>)| #[trigger] dups.contains(p) implies p.0 != release.id@
        && is_requested(entries, p.0) by {
        let n = choose|n: int| 0 <= n < dups.len() && dups[n] == p;
        let k = crate::order::lemma_filtered(mods, keep, n);
        assert(p == (kept[n].id@, kept[n].name@));
    }
    assert forall|p: (Seq<char>, Seq<char>)| #[trigger]
        pair_views(plan.enable_deps@).contains(p) implies p.0 != release.id@ && !is_requested(
        entries,
        p.0,
    ) by {
        assert(has_to_enable(facts, p));
    }
}

} // verus!
