//! What the enabled mods of a profile put into the game tree, and who wins where
//! several claim one path.
use vstd::prelude::*;
use vstd::utf8::encode_utf8;

use crate::deps::{is_requested, resolution, resolve, satisfied};
use crate::digest::{le_bytes, push_bytes, push_number, short_digest};
use crate::import::{law_accepted_paths_stay_inside, path_fault};
use crate::models::{Dependency, FileOwner, LoadoutEntry, ModRelease, ResolvedEntry};
use crate::outside::{hex_of, sha256_of};
use crate::path::{
    components, join, join_path, lemma_parts_order, lies_under, part_views, parts, parts_before,
    parts_lt, path_lt, same_parts, same_place, Part, PathPart,
};
use crate::paths::AppPaths;
use crate::text::{has_text, lower, same_ignoring_case, split_on, views};

verus! {

/// Several mods with a file at one path.
#[derive(Debug)]
pub struct Conflict {
    pub path: String,
    pub winner: String,
    pub shadowed: Vec<String>,
}

/// A loadout with all that it brings into the game tree.
#[derive(Debug)]
pub struct MaterializedLoadout {
    pub revision: String,
    pub layer: String,
    pub entries: Vec<ResolvedEntry>,
    pub conflicts: Vec<Conflict>,
    pub redmods: Vec<String>,
    /// The paths in their order, each with the mod that owns it.
    pub owners: Vec<(String, String)>,
}

/// A file to put into the layer.
#[derive(Debug)]
pub struct Link {
    pub source: String,
    pub destination: String,
}

/// That a mod has a file at a path.
pub struct Claim {
    pub path: Seq<char>,
    pub priority: int,
    pub owner: Seq<char>,
}

/// The entries of a loadout whose mods are enabled.
pub open spec fn enabled(entries: Seq<LoadoutEntry>, deps: Seq<Dependency>) -> Seq<LoadoutEntry> {
    entries.filter(
        |entry: LoadoutEntry|
            entry.requested_enabled && satisfied(entries, deps, entry.mod_id@),
    )
}

/// The claims of one entry: its files in their order.
pub open spec fn entry_claims(entry: LoadoutEntry, files: Seq<FileOwner>) -> Seq<Claim> {
    files.filter(|file: FileOwner| file.mod_id@ == entry.mod_id@).map_values(
        |file: FileOwner|
            Claim {
                path: file.relative_path@,
                priority: entry.priority as int,
                owner: entry.mod_id@,
            },
    )
}

/// The claims of several entries, in their order.
pub open spec fn claims(entries: Seq<LoadoutEntry>, files: Seq<FileOwner>) -> Seq<Claim>
    decreases entries.len(),
{
    if entries.len() == 0 {
        Seq::empty()
    } else {
        claims(entries.drop_last(), files) + entry_claims(entries.last(), files)
    }
}

/// Which claims are for the path with the parts `key`, in their order.
pub open spec fn places(all: Seq<Claim>, key: Seq<Part>) -> Seq<int>
    decreases all.len(),
{
    if all.len() == 0 {
        Seq::empty()
    } else if parts(all.last().path) == key {
        places(all.drop_last(), key).push(all.len() - 1)
    } else {
        places(all.drop_last(), key)
    }
}

/// Which of several claims wins: the first among those of the highest priority.
pub open spec fn best(all: Seq<Claim>, among: Seq<int>) -> int
    decreases among.len(),
{
    if among.len() <= 1 {
        among[0]
    } else {
        let so_far = best(all, among.drop_last());
        if all[among.last()].priority > all[so_far].priority {
            among.last()
        } else {
            so_far
        }
    }
}

/// The claim that wins the path with the parts `key`.
pub open spec fn winner(all: Seq<Claim>, key: Seq<Part>) -> Claim {
    all[best(all, places(all, key))]
}

/// The mods that claim the path with the parts `key`.
pub open spec fn claimants(all: Seq<Claim>, key: Seq<Part>) -> Seq<Seq<char>> {
    places(all, key).map_values(|k: int| all[k].owner)
}

/// Whether a list holds each path with at least `least` claims once, as its first
/// claim spells it, in the order of paths.
pub open spec fn lists_paths(list: Seq<Seq<char>>, all: Seq<Claim>, least: nat) -> bool {
    &&& forall|i: int, j: int|
        0 <= i < j < list.len() ==> path_lt(#[trigger] list[i], #[trigger] list[j])
    &&& forall|i: int|
        0 <= i < list.len() ==> {
            let at = places(all, parts(#[trigger] list[i]));
            at.len() >= least && at.len() > 0 && list[i] == all[at[0]].path
        }
    &&& forall|k: int|
        0 <= k < all.len() && places(all, parts((#[trigger] all[k]).path)).len() >= least ==> exists|
            i: int,
        |
            0 <= i < list.len() && parts(#[trigger] list[i]) == parts(all[k].path)
}

proof fn lemma_places(all: Seq<Claim>, key: Seq<Part>)
    ensures
        forall|i: int|
            0 <= i < places(all, key).len() ==> 0 <= #[trigger] places(all, key)[i] < all.len()
                && parts(all[places(all, key)[i]].path) == key,
        forall|i: int, j: int|
            0 <= i < j < places(all, key).len() ==> #[trigger] places(all, key)[i] < #[trigger] places(
                all,
                key,
            )[j],
        forall|k: int|
            0 <= k < all.len() && parts((#[trigger] all[k]).path) == key ==> places(
                all,
                key,
            ).contains(k),
    decreases all.len(),
{
    if all.len() > 0 {
        let front = all.drop_last();
        lemma_places(front, key);
        let at = places(all, key);
        let had = places(front, key);
        assert forall|i: int| 0 <= i < at.len() implies 0 <= #[trigger] at[i] < all.len() && parts(
            all[at[i]].path,
        ) == key by {
            if i < had.len() {
                assert(at[i] == had[i]);
                assert(front[had[i]] == all[had[i]]);
            }
        }
        assert forall|i: int, j: int| 0 <= i < j < at.len() implies #[trigger] at[i] < #[trigger] at[j] by {
            assert(at[i] == had[i]);
            if j < had.len() {
                assert(at[j] == had[j]);
            }
        }
        assert forall|k: int| 0 <= k < all.len() && parts((#[trigger] all[k]).path) == key implies at.contains(
            k,
        ) by {
            if k < front.len() {
                assert(front[k] == all[k]);
                let i = choose|i: int| 0 <= i < had.len() && had[i] == k;
                assert(at[i] == k);
            } else {
                assert(at[at.len() - 1] == k);
            }
        }
    }
}

proof fn lemma_best(all: Seq<Claim>, among: Seq<int>) -> (p: int)
    requires
        among.len() > 0,
    ensures
        0 <= p < among.len(),
        among[p] == best(all, among),
        forall|i: int|
            0 <= i < among.len() ==> all[#[trigger] among[i]].priority <= all[best(all, among)].priority,
        forall|i: int|
            0 <= i < p ==> all[#[trigger] among[i]].priority < all[best(all, among)].priority,
    decreases among.len(),
{
    if among.len() == 1 {
        0
    } else {
        let front = among.drop_last();
        let n = among.len() - 1;
        let q = lemma_best(all, front);
        assert forall|i: int| 0 <= i < n implies #[trigger] among[i] == front[i] by {}
        if all[among.last()].priority > all[best(all, front)].priority {
            n
        } else {
            q
        }
    }
}

/// Higher priority wins: of all claims for a path the winner has the highest
/// priority, and of those with that priority it stands first.
pub proof fn law_highest_priority_wins(all: Seq<Claim>, k: int)
    requires
        0 <= k < all.len(),
    ensures
        exists|w: int|
            0 <= w < all.len() && #[trigger] all[w] == winner(all, parts(all[k].path)) && parts(
                all[w].path,
            ) == parts(all[k].path) && all[k].priority <= all[w].priority && (all[k].priority
                == all[w].priority ==> w <= k),
{
    let key = parts(all[k].path);
    let at = places(all, key);
    lemma_places(all, key);
    assert(at.contains(k));
    let n = lemma_best(all, at);
    let w = best(all, at);
    let i = choose|i: int| 0 <= i < at.len() && at[i] == k;
    assert(at[i] == k && at[n] == w);
    if all[k].priority == all[w].priority && n < i {
        assert(at[n] < at[i]);
    }
    assert(all[w] == winner(all, key));
}

proof fn lemma_claim_source(entries: Seq<LoadoutEntry>, files: Seq<FileOwner>, k: int) -> (r: (
    int,
    int,
))
    requires
        0 <= k < claims(entries, files).len(),
    ensures
        0 <= r.0 < entries.len(),
        0 <= r.1 < files.len(),
        files[r.1].mod_id@ == entries[r.0].mod_id@,
        claims(entries, files)[k] == (Claim {
            path: files[r.1].relative_path@,
            priority: entries[r.0].priority as int,
            owner: entries[r.0].mod_id@,
        }),
    decreases entries.len(),
{
    let front = entries.drop_last();
    let had = claims(front, files);
    if k < had.len() {
        let r = lemma_claim_source(front, files, k);
        assert(entries[r.0] == front[r.0]);
        r
    } else {
        let entry = entries.last();
        let keep = |file: FileOwner| file.mod_id@ == entry.mod_id@;
        let f = crate::order::lemma_filtered(files, keep, k - had.len());
        (entries.len() - 1, f)
    }
}

/// Every file of a loadout comes from a mod that is requested and has all that it
/// requires.
pub proof fn law_claims_come_from_enabled_mods(
    entries: Seq<LoadoutEntry>,
    deps: Seq<Dependency>,
    files: Seq<FileOwner>,
    k: int,
)
    requires
        0 <= k < claims(enabled(entries, deps), files).len(),
    ensures
        ({
            let claim = claims(enabled(entries, deps), files)[k];
            &&& is_requested(entries, claim.owner)
            &&& satisfied(entries, deps, claim.owner)
            &&& exists|f: int|
                0 <= f < files.len() && (#[trigger] files[f]).mod_id@ == claim.owner
                    && files[f].relative_path@ == claim.path
        }),
{
    let keep = |entry: LoadoutEntry|
        entry.requested_enabled && satisfied(entries, deps, entry.mod_id@);
    let (i, f) = lemma_claim_source(enabled(entries, deps), files, k);
    let n = crate::order::lemma_filtered(entries, keep, i);
    assert(entries[n].mod_id@ == enabled(entries, deps)[i].mod_id@);
    assert(files[f].mod_id@ == claims(enabled(entries, deps), files)[k].owner);
}

/// A claim in memory.
struct FileClaim {
    path: String,
    priority: i64,
    owner: String,
}

impl View for FileClaim {
    type V = Claim;

    closed spec fn view(&self) -> Claim {
        Claim { path: self.path@, priority: self.priority as int, owner: self.owner@ }
    }
}

spec fn claim_views(list: Seq<FileClaim>) -> Seq<Claim> {
    list.map_values(|claim: FileClaim| claim@)
}

fn push_entry_claims(all: &mut Vec<FileClaim>, entry: &LoadoutEntry, files: &[FileOwner])
    ensures
        claim_views(final(all)@) == claim_views(old(all)@) + entry_claims(*entry, files@),
{
    let ghost had = claim_views(all@);
    let ghost keep = |file: FileOwner| file.mod_id@ == entry.mod_id@;
    let ghost turn = |file: FileOwner|
        Claim {
            path: file.relative_path@,
            priority: entry.priority as int,
            owner: entry.mod_id@,
        };
    let mut i: usize = 0;
    assert(files@.take(0).filter(keep) =~= Seq::<FileOwner>::empty()) by {
        reveal(Seq::filter);
    }
    assert(had + files@.take(0).filter(keep).map_values(turn) =~= had);
    while i < files.len()
        invariant
            i <= files@.len(),
            keep == (|file: FileOwner| file.mod_id@ == entry.mod_id@),
            turn == (|file: FileOwner|
                Claim {
                    path: file.relative_path@,
                    priority: entry.priority as int,
                    owner: entry.mod_id@,
                }),
            claim_views(all@) == had + files@.take(i as int).filter(keep).map_values(turn),
        decreases files@.len() - i,
    {
        let ghost before = files@.take(i as int).filter(keep);
        let ghost now = files@.take(i + 1);
        let ghost so_far = claim_views(all@);
        assert(now.drop_last() =~= files@.take(i as int));
        assert(now.filter(keep) == if keep(files@[i as int]) {
            before.push(files@[i as int])
        } else {
            before
        }) by {
            reveal(Seq::filter);
        }
        if files[i].mod_id == entry.mod_id {
            all.push(
                FileClaim {
                    path: files[i].relative_path.clone(),
                    priority: entry.priority,
                    owner: entry.mod_id.clone(),
                },
            );
            assert(claim_views(all@) =~= so_far.push(turn(files@[i as int])));
            assert(now.filter(keep).map_values(turn) =~= before.map_values(turn).push(
                turn(files@[i as int]),
            ));
            assert(claim_views(all@) =~= had + now.filter(keep).map_values(turn));
        }
        i += 1;
    }
    assert(files@.take(i as int) =~= files@);
}

fn collect_claims(entries: &Vec<LoadoutEntry>, files: &[FileOwner]) -> (all: Vec<FileClaim>)
    ensures
        claim_views(all@) == claims(entries@, files@),
{
    let mut all: Vec<FileClaim> = Vec::new();
    let mut i: usize = 0;
    assert(claim_views(all@) =~= claims(entries@.take(0), files@));
    while i < entries.len()
        invariant
            i <= entries@.len(),
            claim_views(all@) == claims(entries@.take(i as int), files@),
        decreases entries@.len() - i,
    {
        push_entry_claims(&mut all, &entries[i], files);
        assert(entries@.take(i + 1).drop_last() =~= entries@.take(i as int));
        i += 1;
    }
    assert(entries@.take(i as int) =~= entries@);
    all
}

/// One path with the claims for it.
struct Slot {
    parts: Vec<PathPart>,
    members: Vec<usize>,
    best: usize,
}

spec fn slot_key(slot: Slot) -> Seq<Part> {
    part_views(slot.parts@)
}

spec fn members_of(slot: Slot) -> Seq<int> {
    slot.members@.map_values(|k: usize| k as int)
}

spec fn slot_sound(slot: Slot, all: Seq<Claim>) -> bool {
    &&& slot.members@.len() > 0
    &&& members_of(slot) == places(all, slot_key(slot))
    &&& slot.best == best(all, places(all, slot_key(slot)))
}

spec fn table_sound(table: Seq<Slot>, all: Seq<Claim>) -> bool {
    &&& forall|i: int| 0 <= i < table.len() ==> slot_sound(#[trigger] table[i], all)
    &&& forall|i: int, j: int|
        0 <= i < j < table.len() ==> parts_lt(
            slot_key(#[trigger] table[i]),
            slot_key(#[trigger] table[j]),
        )
    &&& forall|k: int|
        0 <= k < all.len() ==> exists|i: int|
            0 <= i < table.len() && slot_key(#[trigger] table[i]) == parts((#[trigger] all[k]).path)
}

spec fn keys_ascend(table: Seq<Slot>) -> bool {
    forall|i: int, j: int|
        0 <= i < j < table.len() ==> parts_lt(
            slot_key(#[trigger] table[i]),
            slot_key(#[trigger] table[j]),
        )
}

/// Where the slot for some parts stands in the table, or is to be put.
fn find_slot(table: &Vec<Slot>, key: &Vec<PathPart>) -> (found: (usize, bool))
    requires
        keys_ascend(table@),
    ensures
        found.0 <= table@.len(),
        found.1 ==> found.0 < table@.len() && slot_key(table@[found.0 as int]) == part_views(key@),
        !found.1 ==> forall|i: int|
            0 <= i < table@.len() ==> slot_key(#[trigger] table@[i]) != part_views(key@),
        forall|i: int|
            0 <= i < found.0 ==> parts_lt(slot_key(#[trigger] table@[i]), part_views(key@)),
        !found.1 ==> forall|i: int|
            found.0 <= i < table@.len() ==> parts_lt(
                part_views(key@),
                slot_key(#[trigger] table@[i]),
            ),
{
    let ghost wanted = part_views(key@);
    let ghost lt = |a: Seq<Part>, b: Seq<Part>| parts_lt(a, b);
    proof {
        lemma_parts_order();
    }
    let mut low: usize = 0;
    let mut high: usize = table.len();
    while low < high
        invariant
            low <= high <= table@.len(),
            keys_ascend(table@),
            wanted == part_views(key@),
            lt == (|a: Seq<Part>, b: Seq<Part>| parts_lt(a, b)),
            crate::order::strict_total(lt),
            forall|i: int| 0 <= i < low ==> parts_lt(slot_key(#[trigger] table@[i]), wanted),
            forall|i: int|
                high <= i < table@.len() ==> !parts_lt(slot_key(#[trigger] table@[i]), wanted),
        decreases high - low,
    {
        let middle: usize = low + (high - low) / 2;
        if parts_before(&table[middle].parts, key) {
            assert forall|i: int| 0 <= i < middle + 1 implies parts_lt(
                slot_key(#[trigger] table@[i]),
                wanted,
            ) by {
                if i < middle {
                    assert(lt(slot_key(table@[i]), slot_key(table@[middle as int])));
                    assert(lt(slot_key(table@[middle as int]), wanted));
                }
            }
            low = middle + 1;
        } else {
            assert forall|i: int| middle <= i < table@.len() implies !parts_lt(
                slot_key(#[trigger] table@[i]),
                wanted,
            ) by {
                if i > middle && lt(slot_key(table@[i]), wanted) {
                    assert(lt(slot_key(table@[middle as int]), slot_key(table@[i])));
                    assert(lt(slot_key(table@[middle as int]), wanted));
                }
            }
            high = middle;
        }
    }
    let here = low < table.len() && same_parts(&table[low].parts, key);
    proof {
        assert forall|i: int| 0 <= i < low implies slot_key(#[trigger] table@[i]) != wanted by {
            assert(lt(slot_key(table@[i]), wanted));
        }
        if !here {
            assert forall|i: int| low <= i < table@.len() implies parts_lt(
                wanted,
                slot_key(#[trigger] table@[i]),
            ) && slot_key(table@[i]) != wanted by {
                let first = slot_key(table@[low as int]);
                assert(first != wanted);
                assert(lt(first, wanted) || lt(wanted, first));
                if i > low {
                    assert(lt(first, slot_key(table@[i])));
                    assert(lt(wanted, slot_key(table@[i])));
                }
            }
        }
    }
    (low, here)
}

proof fn lemma_other_slot(slot: Slot, all: Seq<Claim>)
    requires
        all.len() > 0,
        slot_sound(slot, all.drop_last()),
        slot_key(slot) != parts(all.last().path),
    ensures
        slot_sound(slot, all),
{
    let key = slot_key(slot);
    let front = all.drop_last();
    lemma_places(front, key);
    lemma_best_front(all, places(front, key));
}

proof fn lemma_best_front(all: Seq<Claim>, among: Seq<int>)
    requires
        all.len() > 0,
        forall|i: int| 0 <= i < among.len() ==> 0 <= #[trigger] among[i] < all.len() - 1,
    ensures
        among.len() > 0 ==> best(all.drop_last(), among) == best(all, among),
        among.len() > 0 ==> 0 <= best(all, among) < all.len() - 1,
    decreases among.len(),
{
    if among.len() > 1 {
        let front = among.drop_last();
        assert forall|i: int| 0 <= i < front.len() implies 0 <= #[trigger] front[i] < all.len() - 1 by {
            assert(front[i] == among[i]);
        }
        lemma_best_front(all, front);
        assert(among[among.len() - 1] == among.last());
    } else if among.len() == 1 {
        assert(among[0] == best(all, among));
    }
}

/// Gathers the claims by path.
fn gather(all: &Vec<FileClaim>) -> (table: Vec<Slot>)
    ensures
        table_sound(table@, claim_views(all@)),
{
    let ghost goal = claim_views(all@);
    let mut table: Vec<Slot> = Vec::new();
    let mut n: usize = 0;
    while n < all.len()
        invariant
            n <= all@.len(),
            goal == claim_views(all@),
            table_sound(table@, goal.take(n as int)),
        decreases all@.len() - n,
    {
        let ghost before = table@;
        let ghost front = goal.take(n as int);
        let ghost now = goal.take(n + 1);
        let ghost claim = goal[n as int];
        let ghost key = parts(claim.path);
        assert(now.drop_last() =~= front);
        assert(now.last() == claim);
        assert(claim == all@[n as int]@);
        let wanted = components(&all[n].path);
        assert(part_views(wanted@) == key);
        let (at, here) = find_slot(&table, &wanted);
        proof {
            lemma_places(front, key);
            lemma_best_front(now, places(front, key));
            assert forall|i: int| 0 <= i < before.len() && slot_key(#[trigger] before[i]) != key implies slot_sound(
                before[i],
                now,
            ) by {
                lemma_other_slot(before[i], now);
            }
        }
        if here {
            let old_best: usize = table[at].best;
            let ghost had = places(front, key);
            assert(slot_sound(before[at as int], front));
            assert(places(now, key) == had.push(n as int));
            assert(places(now, key).drop_last() =~= had);
            assert(0 <= old_best < n);
            assert(goal[old_best as int] == all@[old_best as int]@);
            let better = all[n].priority > all[old_best].priority;
            let mut slot = table.remove(at);
            slot.members.push(n);
            if better {
                slot.best = n;
            }
            assert(members_of(slot) =~= members_of(before[at as int]).push(n as int));
            assert(slot_sound(slot, now));
            table.insert(at, slot);
            assert(table@ =~= before.update(at as int, slot));
            let ghost after = table@;
            proof {
                lemma_parts_order();
                let lt = |a: Seq<Part>, b: Seq<Part>| parts_lt(a, b);
                assert forall|i: int| 0 <= i < after.len() implies slot_sound(#[trigger] after[i], now) by {
                    if i != at {
                        if i < at {
                            assert(parts_lt(slot_key(before[i]), slot_key(before[at as int])));
                            assert(lt(slot_key(before[i]), slot_key(before[at as int])));
                        } else {
                            assert(parts_lt(slot_key(before[at as int]), slot_key(before[i])));
                            assert(lt(slot_key(before[at as int]), slot_key(before[i])));
                        }
                        assert(slot_sound(before[i], now));
                    }
                }
                assert forall|k: int| 0 <= k < now.len() implies exists|i: int|
                    0 <= i < after.len() && slot_key(#[trigger] after[i]) == parts(
                        (#[trigger] now[k]).path,
                    ) by {
                    if k < n {
                        assert(front[k] == now[k]);
                        let i = choose|i: int|
                            0 <= i < before.len() && slot_key(#[trigger] before[i]) == parts(
                                front[k].path,
                            );
                        assert(slot_key(after[i]) == parts(now[k].path));
                    } else {
                        assert(slot_key(after[at as int]) == key);
                    }
                }
            }
        } else {
            let mut members: Vec<usize> = Vec::new();
            members.push(n);
            let slot = Slot { parts: wanted, members, best: n };
            proof {
                if places(front, key).len() > 0 {
                    let k = places(front, key)[0];
                    assert(front[k] == front[k]);
                    let i = choose|i: int|
                        0 <= i < before.len() && slot_key(#[trigger] before[i]) == parts(front[k].path);
                    assert(slot_key(before[i]) == key);
                }
                assert(places(now, key) =~= seq![n as int]);
                assert(members_of(slot) =~= seq![n as int]);
                assert(slot_sound(slot, now));
            }
            table.insert(at, slot);
            let ghost after = table@;
            proof {
                assert(after =~= before.insert(at as int, slot));
                assert forall|i: int| 0 <= i < after.len() implies slot_sound(#[trigger] after[i], now) by {
                    if i != at {
                        let p = if i < at { i } else { i - 1 };
                        assert(after[i] == before[p]);
                        assert(slot_key(before[p]) != key);
                    }
                }
                assert forall|i: int, j: int| 0 <= i < j < after.len() implies parts_lt(
                    slot_key(#[trigger] after[i]),
                    slot_key(#[trigger] after[j]),
                ) by {
                    let p = if i < at { i } else { i - 1 };
                    let q = if j < at { j } else { j - 1 };
                    if i == at {
                        assert(after[j] == before[q]);
                    } else if j == at {
                        assert(after[i] == before[p]);
                    } else {
                        assert(after[i] == before[p] && after[j] == before[q]);
                    }
                }
                assert forall|k: int| 0 <= k < now.len() implies exists|i: int|
                    0 <= i < after.len() && slot_key(#[trigger] after[i]) == parts(
                        (#[trigger] now[k]).path,
                    ) by {
                    if k < n {
                        assert(front[k] == now[k]);
                        let i = choose|i: int|
                            0 <= i < before.len() && slot_key(#[trigger] before[i]) == parts(
                                front[k].path,
                            );
                        let p = if i < at { i } else { i + 1 };
                        assert(after[p] == before[i]);
                        assert(slot_key(after[p]) == parts(now[k].path));
                    } else {
                        assert(after[at as int] == slot);
                        assert(slot_key(after[at as int]) == key);
                    }
                }
            }
        }
        n += 1;
    }
    assert(goal.take(n as int) =~= goal);
    table
}

/// Which slots of the table have at least `least` claims.
fn slots_with(table: &Vec<Slot>, least: usize) -> (r: Vec<usize>)
    ensures
        forall|i: int|
            0 <= i < r@.len() ==> (#[trigger] r@[i]) < table@.len()
                && table@[r@[i] as int].members@.len() >= least,
        forall|i: int, j: int| 0 <= i < j < r@.len() ==> (#[trigger] r@[i]) < (#[trigger] r@[j]),
        forall|t: int|
            0 <= t < table@.len() && (#[trigger] table@[t]).members@.len() >= least ==> r@.contains(
                t as usize,
            ),
{
    let mut r: Vec<usize> = Vec::new();
    let mut t: usize = 0;
    while t < table.len()
        invariant
            t <= table@.len(),
            forall|i: int|
                0 <= i < r@.len() ==> (#[trigger] r@[i]) < t && table@[r@[i] as int].members@.len()
                    >= least,
            forall|i: int, j: int|
                0 <= i < j < r@.len() ==> (#[trigger] r@[i]) < (#[trigger] r@[j]),
            forall|u: int|
                0 <= u < t && (#[trigger] table@[u]).members@.len() >= least ==> r@.contains(
                    u as usize,
                ),
        decreases table@.len() - t,
    {
        let ghost had = r@;
        if table[t].members.len() >= least {
            r.push(t);
            assert(r@[r@.len() - 1] == t);
            assert forall|u: int|
                0 <= u < t + 1 && (#[trigger] table@[u]).members@.len() >= least implies r@.contains(
                u as usize,
            ) by {
                if u < t {
                    let i = choose|i: int| 0 <= i < had.len() && had[i] == u as usize;
                    assert(r@[i] == u as usize);
                }
            }
        }
        t += 1;
    }
    r
}

spec fn slot_path(slot: Slot, all: Seq<Claim>) -> Seq<char> {
    all[slot.members@[0] as int].path
}

proof fn lemma_slot_path(slot: Slot, all: Seq<Claim>)
    requires
        slot_sound(slot, all),
    ensures
        0 <= slot.members@[0] < all.len(),
        parts(slot_path(slot, all)) == slot_key(slot),
        places(all, slot_key(slot))[0] == slot.members@[0],
        0 <= slot.best < all.len(),
        parts(all[slot.best as int].path) == slot_key(slot),
{
    let key = slot_key(slot);
    lemma_places(all, key);
    assert(members_of(slot)[0] == slot.members@[0]);
    let p = lemma_best(all, places(all, key));
}

/// The paths of the slots with at least `least` claims.
proof fn lemma_lists(table: Seq<Slot>, all: Seq<Claim>, least: nat, picks: Seq<usize>, list: Seq<Seq<char>>)
    requires
        table_sound(table, all),
        least > 0,
        list.len() == picks.len(),
        forall|i: int|
            0 <= i < picks.len() ==> (#[trigger] picks[i]) < table.len()
                && table[picks[i] as int].members@.len() >= least && list[i] == slot_path(
                table[picks[i] as int],
                all,
            ),
        forall|i: int, j: int| 0 <= i < j < picks.len() ==> (#[trigger] picks[i]) < (#[trigger] picks[j]),
        forall|t: int|
            0 <= t < table.len() && (#[trigger] table[t]).members@.len() >= least ==> picks.contains(
                t as usize,
            ),
        table.len() <= usize::MAX,
    ensures
        lists_paths(list, all, least),
{
    assert forall|i: int, j: int| 0 <= i < j < list.len() implies path_lt(
        #[trigger] list[i],
        #[trigger] list[j],
    ) by {
        let a = picks[i];
        let b = picks[j];
        assert(a < b);
        lemma_slot_path(table[a as int], all);
        lemma_slot_path(table[b as int], all);
        assert(parts_lt(slot_key(table[a as int]), slot_key(table[b as int])));
    }
    assert forall|i: int| 0 <= i < list.len() implies ({
        let at = places(all, parts(#[trigger] list[i]));
        at.len() >= least && at.len() > 0 && list[i] == all[at[0]].path
    }) by {
        let slot = table[picks[i] as int];
        assert(slot_sound(slot, all));
        lemma_slot_path(slot, all);
        assert(members_of(slot).len() == slot.members@.len());
    }
    assert forall|k: int|
        0 <= k < all.len() && places(all, parts((#[trigger] all[k]).path)).len() >= least implies exists|
        i: int,
    | 0 <= i < list.len() && parts(#[trigger] list[i]) == parts(all[k].path) by {
        let t = choose|t: int|
            0 <= t < table.len() && slot_key(#[trigger] table[t]) == parts(all[k].path);
        assert(slot_sound(table[t], all));
        assert(members_of(table[t]).len() == table[t].members@.len());
        assert(picks.contains(t as usize));
        let i = choose|i: int| 0 <= i < picks.len() && picks[i] == t as usize;
        lemma_slot_path(table[t], all);
        assert(picks[i] == t);
        assert(parts(list[i]) == parts(all[k].path));
    }
}

/// Texts other than `out`.
pub open spec fn others(list: Seq<Seq<char>>, out: Seq<char>) -> Seq<Seq<char>> {
    list.filter(|text: Seq<char>| text != out)
}

fn slot_owners(all: &Vec<FileClaim>, slot: &Slot) -> (r: Vec<String>)
    requires
        slot_sound(*slot, claim_views(all@)),
    ensures
        views(r@) == claimants(claim_views(all@), slot_key(*slot)),
{
    let ghost goal = claim_views(all@);
    let ghost at = places(goal, slot_key(*slot));
    let ghost turn = |k: int| goal[k].owner;
    proof {
        lemma_places(goal, slot_key(*slot));
    }
    let mut r: Vec<String> = Vec::new();
    let mut i: usize = 0;
    assert(views(r@) =~= at.take(0).map_values(turn));
    while i < slot.members.len()
        invariant
            i <= slot.members@.len(),
            goal == claim_views(all@),
            members_of(*slot) == at,
            turn == (|k: int| goal[k].owner),
            forall|j: int| 0 <= j < at.len() ==> 0 <= #[trigger] at[j] < goal.len(),
            views(r@) == at.take(i as int).map_values(turn),
        decreases slot.members@.len() - i,
    {
        let ghost had = views(r@);
        assert(members_of(*slot)[i as int] == slot.members@[i as int]);
        assert(0 <= at[i as int] < goal.len());
        let k: usize = slot.members[i];
        assert(goal[k as int] == all@[k as int]@);
        r.push(all[k].owner.clone());
        assert(views(r@) =~= had.push(turn(at[i as int])));
        assert(at.take(i + 1).map_values(turn) =~= at.take(i as int).map_values(turn).push(
            turn(at[i as int]),
        ));
        i += 1;
    }
    assert(members_of(*slot).len() == slot.members@.len());
    assert(at.take(i as int) =~= at);
    assert(turn =~= (|k: int| goal[k].owner));
    r
}

fn without(list: &Vec<String>, out: &String) -> (r: Vec<String>)
    ensures
        views(r@) == others(views(list@), out@),
{
    let ghost all = views(list@);
    let ghost keep = |text: Seq<char>| text != out@;
    let mut r: Vec<String> = Vec::new();
    let mut i: usize = 0;
    assert(views(r@) =~= all.take(0).filter(keep)) by {
        reveal(Seq::filter);
    }
    while i < list.len()
        invariant
            i <= list@.len(),
            all == views(list@),
            keep == (|text: Seq<char>| text != out@),
            views(r@) == all.take(i as int).filter(keep),
        decreases list@.len() - i,
    {
        let ghost had = views(r@);
        assert(all.take(i + 1).drop_last() =~= all.take(i as int));
        assert(all[i as int] == list@[i as int]@);
        if list[i] != *out {
            r.push(list[i].clone());
            assert(views(r@) =~= had.push(all[i as int]));
        }
        assert(views(r@) =~= all.take(i + 1).filter(keep)) by {
            reveal(Seq::filter);
        }
        i += 1;
    }
    assert(all.take(i as int) =~= all);
    r
}

/// The paths of a list of conflicts.
pub open spec fn conflict_paths(list: Seq<Conflict>) -> Seq<Seq<char>> {
    list.map_values(|conflict: Conflict| conflict.path@)
}

/// Whether a list holds the conflicts among claims: each path with two claims or
/// more, who wins it and who else claims it.
pub open spec fn lists_conflicts(list: Seq<Conflict>, all: Seq<Claim>) -> bool {
    &&& lists_paths(conflict_paths(list), all, 2)
    &&& forall|i: int|
        0 <= i < list.len() ==> {
            let key = parts((#[trigger] list[i]).path@);
            &&& list[i].winner@ == winner(all, key).owner
            &&& views(list[i].shadowed@) == others(claimants(all, key), winner(all, key).owner)
        }
}

fn find_conflicts(all: &Vec<FileClaim>, table: &Vec<Slot>) -> (r: Vec<Conflict>)
    requires
        table_sound(table@, claim_views(all@)),
    ensures
        lists_conflicts(r@, claim_views(all@)),
{
    let ghost goal = claim_views(all@);
    let total: usize = table.len();
    assert(table@.len() == total);
    let picks = slots_with(table, 2);
    let mut r: Vec<Conflict> = Vec::new();
    let mut i: usize = 0;
    while i < picks.len()
        invariant
            i <= picks@.len(),
            goal == claim_views(all@),
            total == table@.len(),
            table_sound(table@, goal),
            forall|j: int| 0 <= j < picks@.len() ==> (#[trigger] picks@[j]) < table@.len(),
            r@.len() == i,
            forall|j: int|
                0 <= j < i ==> (#[trigger] r@[j]).path@ == slot_path(table@[picks@[j] as int], goal),
            forall|j: int|
                0 <= j < i ==> {
                    let key = parts((#[trigger] r@[j]).path@);
                    &&& r@[j].winner@ == winner(goal, key).owner
                    &&& views(r@[j].shadowed@) == others(
                        claimants(goal, key),
                        winner(goal, key).owner,
                    )
                },
        decreases picks@.len() - i,
    {
        let t: usize = picks[i];
        let slot = &table[t];
        assert(slot_sound(table@[t as int], goal));
        proof {
            lemma_slot_path(*slot, goal);
        }
        let first: usize = slot.members[0];
        let best: usize = slot.best;
        assert(goal[first as int] == all@[first as int]@);
        assert(goal[best as int] == all@[best as int]@);
        let winner = all[best].owner.clone();
        let owners = slot_owners(all, slot);
        let shadowed = without(&owners, &winner);
        r.push(Conflict { path: all[first].path.clone(), winner, shadowed });
        i += 1;
    }
    proof {
        let list = conflict_paths(r@);
        assert forall|i: int| 0 <= i < picks@.len() implies (#[trigger] picks@[i]) < table@.len()
            && table@[picks@[i] as int].members@.len() >= 2 && list[i] == slot_path(
            table@[picks@[i] as int],
            goal,
        ) by {
            assert(list[i] == r@[i].path@);
        }
        lemma_lists(table@, goal, 2, picks@, list);
    }
    r
}

/// The paths of a list of paths and owners.
pub open spec fn owned_paths(list: Seq<(String, String)>) -> Seq<Seq<char>> {
    list.map_values(|owned: (String, String)| owned.0@)
}

/// Whether a list holds each claimed path with the mod that wins it.
pub open spec fn lists_owners(list: Seq<(String, String)>, all: Seq<Claim>) -> bool {
    &&& lists_paths(owned_paths(list), all, 1)
    &&& forall|i: int|
        0 <= i < list.len() ==> (#[trigger] list[i]).1@ == winner(all, parts(list[i].0@)).owner
}

fn find_owners(all: &Vec<FileClaim>, table: &Vec<Slot>) -> (r: (Vec<(String, String)>, Vec<String>))
    requires
        table_sound(table@, claim_views(all@)),
    ensures
        lists_owners(r.0@, claim_views(all@)),
        r.1@.len() == r.0@.len(),
        forall|i: int|
            0 <= i < r.0@.len() ==> (#[trigger] r.1@[i])@ == winner(
                claim_views(all@),
                parts(r.0@[i].0@),
            ).path,
{
    let ghost goal = claim_views(all@);
    let total: usize = table.len();
    assert(table@.len() == total);
    let picks = slots_with(table, 1);
    let mut r: Vec<(String, String)> = Vec::new();
    let mut sources: Vec<String> = Vec::new();
    let mut i: usize = 0;
    while i < picks.len()
        invariant
            i <= picks@.len(),
            goal == claim_views(all@),
            total == table@.len(),
            table_sound(table@, goal),
            forall|j: int| 0 <= j < picks@.len() ==> (#[trigger] picks@[j]) < table@.len(),
            r@.len() == i,
            sources@.len() == i,
            forall|j: int|
                0 <= j < i ==> (#[trigger] r@[j]).0@ == slot_path(table@[picks@[j] as int], goal),
            forall|j: int|
                0 <= j < i ==> (#[trigger] r@[j]).1@ == winner(goal, parts(r@[j].0@)).owner,
            forall|j: int|
                0 <= j < i ==> (#[trigger] sources@[j])@ == winner(goal, parts(r@[j].0@)).path,
        decreases picks@.len() - i,
    {
        let t: usize = picks[i];
        let slot = &table[t];
        assert(slot_sound(table@[t as int], goal));
        proof {
            lemma_slot_path(*slot, goal);
        }
        let first: usize = slot.members[0];
        let best: usize = slot.best;
        assert(goal[first as int] == all@[first as int]@);
        assert(goal[best as int] == all@[best as int]@);
        r.push((all[first].path.clone(), all[best].owner.clone()));
        sources.push(all[best].path.clone());
        i += 1;
    }
    proof {
        let list = owned_paths(r@);
        assert forall|i: int| 0 <= i < picks@.len() implies (#[trigger] picks@[i]) < table@.len()
            && table@[picks@[i] as int].members@.len() >= 1 && list[i] == slot_path(
            table@[picks@[i] as int],
            goal,
        ) by {
            assert(list[i] == r@[i].0@);
        }
        lemma_lists(table@, goal, 1, picks@, list);
    }
    (r, sources)
}

proof fn lemma_winner(all: Seq<Claim>, key: Seq<Part>) -> (k: int)
    requires
        places(all, key).len() > 0,
    ensures
        0 <= k < all.len(),
        winner(all, key) == all[k],
        parts(all[k].path) == key,
{
    lemma_places(all, key);
    let p = lemma_best(all, places(all, key));
    places(all, key)[p]
}

/// The tables of the library that a loadout is made from.
pub struct LoadoutTables {
    pub entries: Vec<LoadoutEntry>,
    pub dependencies: Vec<Dependency>,
    pub mods: Vec<ModRelease>,
    pub files: Vec<FileOwner>,
}

impl LoadoutTables {
    /// The enabled entries.
    pub open spec fn enabled(self) -> Seq<LoadoutEntry> {
        enabled(self.entries@, self.dependencies@)
    }

    /// The claims of the enabled entries.
    pub open spec fn claims(self) -> Seq<Claim> {
        claims(self.enabled(), self.files@)
    }
}

fn enabled_entries(resolved: &Vec<ResolvedEntry>, entries: &Vec<LoadoutEntry>, deps: &Vec<Dependency>) -> (r:
    Vec<LoadoutEntry>)
    requires
        resolved@.len() == entries@.len(),
        forall|i: int|
            0 <= i < resolved@.len() ==> resolution(
                entries@,
                deps@,
                entries@[i],
                #[trigger] resolved@[i],
            ),
    ensures
        r@ == enabled(entries@, deps@),
{
    let ghost keep = |entry: LoadoutEntry|
        entry.requested_enabled && satisfied(entries@, deps@, entry.mod_id@);
    let mut r: Vec<LoadoutEntry> = Vec::new();
    let mut i: usize = 0;
    assert(r@ =~= entries@.take(0).filter(keep)) by {
        reveal(Seq::filter);
    }
    while i < resolved.len()
        invariant
            i <= resolved@.len(),
            resolved@.len() == entries@.len(),
            forall|j: int|
                0 <= j < resolved@.len() ==> resolution(
                    entries@,
                    deps@,
                    entries@[j],
                    #[trigger] resolved@[j],
                ),
            keep == (|entry: LoadoutEntry|
                entry.requested_enabled && satisfied(entries@, deps@, entry.mod_id@)),
            r@ == entries@.take(i as int).filter(keep),
        decreases resolved@.len() - i,
    {
        let ghost had = r@;
        assert(resolution(entries@, deps@, entries@[i as int], resolved@[i as int]));
        assert(entries@.take(i + 1).drop_last() =~= entries@.take(i as int));
        if resolved[i].effective_enabled {
            r.push(resolved[i].entry.clone());
        }
        assert(r@ =~= entries@.take(i + 1).filter(keep)) by {
            reveal(Seq::filter);
        }
        i += 1;
    }
    assert(entries@.take(i as int) =~= entries@);
    r
}

/// The release with an id; the last where several have it.
pub open spec fn released(mods: Seq<ModRelease>, id: Seq<char>) -> Option<ModRelease>
    decreases mods.len(),
{
    if mods.len() == 0 {
        None
    } else if mods.last().id@ == id {
        Some(mods.last())
    } else {
        released(mods.drop_last(), id)
    }
}

fn find_release(mods: &Vec<ModRelease>, id: &String) -> (r: Option<usize>)
    ensures
        match r {
            Some(i) => i < mods@.len() && released(mods@, id@) == Some(mods@[i as int]),
            None => released(mods@, id@) is None,
        },
{
    let mut i: usize = mods.len();
    assert(mods@.take(i as int) =~= mods@);
    while i > 0
        invariant
            i <= mods@.len(),
            released(mods@, id@) == released(mods@.take(i as int), id@),
        decreases i,
    {
        if mods[i - 1].id == *id {
            return Some(i - 1);
        }
        assert(mods@.take(i as int).drop_last() =~= mods@.take(i - 1));
        i -= 1;
    }
    None
}

/// Whether the entry at `i` is the first whose release is missing.
pub open spec fn first_missing(entries: Seq<LoadoutEntry>, mods: Seq<ModRelease>, i: int) -> bool {
    &&& 0 <= i < entries.len()
    &&& released(mods, entries[i].mod_id@) is None
    &&& forall|j: int| 0 <= j < i ==> released(mods, (#[trigger] entries[j]).mod_id@) is Some
}

/// Why a loadout cannot be made.
#[derive(Debug)]
pub enum LoadoutError {
    MissingRelease(String),
    MissingFile(String),
}

impl LoadoutError {
    /// What went wrong, in words.
    pub open spec fn text(self) -> Seq<char> {
        match self {
            LoadoutError::MissingRelease(id) => "missing release "@ + id@,
            LoadoutError::MissingFile(path) => "missing indexed file "@ + path@,
        }
    }

    /// What went wrong, in words.
    pub fn message(&self) -> (r: String)
        ensures
            r@ == self.text(),
    {
        match self {
            LoadoutError::MissingRelease(id) => "missing release ".to_owned().concat(id),
            LoadoutError::MissingFile(path) => "missing indexed file ".to_owned().concat(path),
        }
    }
}

/// What the revision of a loadout is the digest of: the id, the priority and the
/// digest of the archive of each enabled mod.
pub open spec fn fingerprint(entries: Seq<LoadoutEntry>, mods: Seq<ModRelease>) -> Seq<u8>
    decreases entries.len(),
{
    if entries.len() == 0 {
        Seq::empty()
    } else {
        let entry = entries.last();
        fingerprint(entries.drop_last(), mods) + encode_utf8(entry.mod_id@) + le_bytes(entry.priority)
            + match released(mods, entry.mod_id@) {
            Some(release) => encode_utf8(release.archive_sha256@),
            None => Seq::empty(),
        }
    }
}

/// The name of the revision that a fingerprint stands for.
pub open spec fn revision_name(fingerprint: Seq<u8>) -> Seq<char> {
    hex_of(sha256_of(fingerprint).take(12))
}

/// The bytes that the revision of a loadout is the digest of.
pub fn fingerprint_bytes(entries: &Vec<LoadoutEntry>, mods: &Vec<ModRelease>) -> (r: Vec<u8>)
    ensures
        r@ == fingerprint(entries@, mods@),
{
    let mut r: Vec<u8> = Vec::new();
    let mut i: usize = 0;
    assert(r@ =~= fingerprint(entries@.take(0), mods@));
    while i < entries.len()
        invariant
            i <= entries@.len(),
            r@ == fingerprint(entries@.take(i as int), mods@),
        decreases entries@.len() - i,
    {
        let entry = &entries[i];
        assert(entries@.take(i + 1).drop_last() =~= entries@.take(i as int));
        push_bytes(&mut r, entry.mod_id.as_str().as_bytes());
        push_number(&mut r, entry.priority);
        match find_release(mods, &entry.mod_id) {
            Some(k) => {
                push_bytes(&mut r, mods[k].archive_sha256.as_str().as_bytes());
            },
            None => {
                assert(r@ + Seq::<u8>::empty() =~= r@);
            },
        }
        i += 1;
    }
    assert(entries@.take(i as int) =~= entries@);
    r
}

/// A part of a path as text.
pub open spec fn part_text(part: Part) -> Seq<char> {
    match part {
        Part::Root => "/"@,
        Part::Current => "."@,
        Part::Parent => ".."@,
        Part::Name(name) => name,
    }
}

fn text_of_part(part: &PathPart) -> (r: String)
    ensures
        r@ == part_text(part@),
{
    match part {
        PathPart::Root => "/".to_owned(),
        PathPart::Current => ".".to_owned(),
        PathPart::Parent => "..".to_owned(),
        PathPart::Name(name) => name.clone(),
    }
}

/// The REDmod whose description lies at a path: `mods/<name>/info.json`.
pub open spec fn redmod_at(path: Seq<char>) -> Option<Seq<char>> {
    let all = parts(path);
    if all.len() == 3 && lower(part_text(all[0])) == lower("mods"@) && lower(part_text(all[2]))
        == lower("info.json"@) {
        Some(part_text(all[1]))
    } else {
        None
    }
}

/// The REDmods among claims, each once, in the order of the claims.
pub open spec fn redmods(all: Seq<Claim>) -> Seq<Seq<char>>
    decreases all.len(),
{
    if all.len() == 0 {
        Seq::empty()
    } else {
        let found = redmods(all.drop_last());
        match redmod_at(all.last().path) {
            Some(name) => if found.contains(name) {
                found
            } else {
                found.push(name)
            },
            None => found,
        }
    }
}

fn redmod_of(path: &str) -> (r: Option<String>)
    ensures
        crate::path::option_view(r) == redmod_at(path@),
{
    let all = components(path);
    let ghost found = part_views(all@);
    if all.len() == 3 {
        assert(found[0] == all@[0]@ && found[1] == all@[1]@ && found[2] == all@[2]@);
        if same_ignoring_case(&text_of_part(&all[0]), "mods") && same_ignoring_case(
            &text_of_part(&all[2]),
            "info.json",
        ) {
            return Some(text_of_part(&all[1]));
        }
    }
    None
}

fn find_redmods(all: &Vec<FileClaim>) -> (r: Vec<String>)
    ensures
        views(r@) == redmods(claim_views(all@)),
{
    let ghost goal = claim_views(all@);
    let mut r: Vec<String> = Vec::new();
    let mut i: usize = 0;
    assert(views(r@) =~= redmods(goal.take(0)));
    while i < all.len()
        invariant
            i <= all@.len(),
            goal == claim_views(all@),
            views(r@) == redmods(goal.take(i as int)),
        decreases all@.len() - i,
    {
        let ghost had = views(r@);
        assert(goal.take(i + 1).drop_last() =~= goal.take(i as int));
        assert(goal[i as int] == all@[i as int]@);
        match redmod_of(&all[i].path) {
            Some(name) => {
                if !has_text(&r, &name) {
                    let ghost text = name@;
                    r.push(name);
                    assert(views(r@) =~= had.push(text));
                }
            },
            None => {},
        }
        i += 1;
    }
    assert(goal.take(i as int) =~= goal);
    r
}

/// The directory of a revision of the loadout of a profile.
pub open spec fn revision_place(paths: AppPaths, profile_id: Seq<char>, revision: Seq<char>) -> Seq<char> {
    join_path(join_path(paths.profile_place(profile_id), "loadouts"@), revision)
}

/// The directory of a revision of the loadout of a profile.
pub fn revision_dir(paths: &AppPaths, profile_id: &str, revision: &str) -> (r: String)
    ensures
        r@ == revision_place(*paths, profile_id@, revision@),
{
    join(&join(&paths.profile_dir(profile_id), "loadouts"), revision)
}

/// Whether a loadout is what the tables make of a profile.
pub open spec fn is_loadout_of(
    loadout: MaterializedLoadout,
    tables: LoadoutTables,
    paths: AppPaths,
    profile_id: Seq<char>,
) -> bool {
    &&& loadout.entries@.len() == tables.entries@.len()
    &&& forall|i: int|
        0 <= i < loadout.entries@.len() ==> resolution(
            tables.entries@,
            tables.dependencies@,
            tables.entries@[i],
            #[trigger] loadout.entries@[i],
        )
    &&& loadout.revision@ == revision_name(fingerprint(tables.enabled(), tables.mods@))
    &&& loadout.layer@ == join_path(
        revision_place(paths, profile_id, loadout.revision@),
        "layer"@,
    )
    &&& lists_conflicts(loadout.conflicts@, tables.claims())
    &&& views(loadout.redmods@) == redmods(tables.claims())
    &&& lists_owners(loadout.owners@, tables.claims())
}

/// Whether a link puts the winning file of a path into the layer.
pub open spec fn is_link_for(
    link: Link,
    path: Seq<char>,
    layer: Seq<char>,
    all: Seq<Claim>,
    mods: Seq<ModRelease>,
) -> bool {
    let winning = winner(all, parts(path));
    &&& link.destination@ == join_path(layer, path)
    &&& released(mods, winning.owner) is Some
    &&& link.source@ == join_path(released(mods, winning.owner)->0.layer_path@, winning.path)
}

/// Whether links put the winning file of each path into the layer.
pub open spec fn are_links_of(
    links: Seq<Link>,
    loadout: MaterializedLoadout,
    tables: LoadoutTables,
) -> bool {
    &&& links.len() == loadout.owners@.len()
    &&& forall|i: int|
        0 <= i < links.len() ==> is_link_for(
            #[trigger] links[i],
            loadout.owners@[i].0@,
            loadout.layer@,
            tables.claims(),
            tables.mods@,
        )
}

fn check_releases(entries: &Vec<LoadoutEntry>, mods: &Vec<ModRelease>) -> (r: Option<usize>)
    ensures
        match r {
            Some(i) => first_missing(entries@, mods@, i as int),
            None => forall|i: int|
                0 <= i < entries@.len() ==> released(mods@, (#[trigger] entries@[i]).mod_id@) is Some,
        },
{
    let mut i: usize = 0;
    while i < entries.len()
        invariant
            i <= entries@.len(),
            forall|j: int|
                0 <= j < i ==> released(mods@, (#[trigger] entries@[j]).mod_id@) is Some,
        decreases entries@.len() - i,
    {
        if find_release(mods, &entries[i].mod_id).is_none() {
            return Some(i);
        }
        i += 1;
    }
    None
}

/// Makes the loadout of a profile, with the files to put into its layer.
pub fn materialize(tables: &LoadoutTables, paths: &AppPaths, profile_id: &str) -> (r: Result<
    (MaterializedLoadout, Vec<Link>),
    LoadoutError,
>)
    ensures
        match r {
            Ok((loadout, links)) => {
                &&& forall|i: int| !first_missing(tables.enabled(), tables.mods@, i)
                &&& is_loadout_of(loadout, *tables, *paths, profile_id@)
                &&& are_links_of(links@, loadout, *tables)
            },
            Err(error) => error is MissingRelease && exists|i: int|
                #[trigger]
                first_missing(tables.enabled(), tables.mods@, i) && tables.enabled()[i].mod_id@
                    == error->MissingRelease_0@,
        },
{
    let resolved = resolve(&tables.entries, &tables.dependencies);
    let entries = enabled_entries(&resolved, &tables.entries, &tables.dependencies);
    match check_releases(&entries, &tables.mods) {
        Some(i) => {
            assert(first_missing(tables.enabled(), tables.mods@, i as int));
            return Err(LoadoutError::MissingRelease(entries[i].mod_id.clone()));
        },
        None => {},
    }
    let all = collect_claims(&entries, &tables.files);
    let ghost goal = tables.claims();
    let table = gather(&all);
    let (owners, winning) = find_owners(&all, &table);
    let revision = short_digest(&fingerprint_bytes(&entries, &tables.mods));
    let layer = join(&revision_dir(paths, profile_id, &revision), "layer");
    let mut links: Vec<Link> = Vec::new();
    let mut i: usize = 0;
    while i < owners.len()
        invariant
            i <= owners@.len(),
            links@.len() == i,
            winning@.len() == owners@.len(),
            goal == tables.claims(),
            entries@ == tables.enabled(),
            forall|j: int|
                0 <= j < entries@.len() ==> released(
                    tables.mods@,
                    (#[trigger] entries@[j]).mod_id@,
                ) is Some,
            lists_owners(owners@, goal),
            forall|j: int|
                0 <= j < owners@.len() ==> (#[trigger] winning@[j])@ == winner(
                    goal,
                    parts(owners@[j].0@),
                ).path,
            forall|j: int|
                0 <= j < i ==> is_link_for(
                    #[trigger] links@[j],
                    owners@[j].0@,
                    layer@,
                    goal,
                    tables.mods@,
                ),
        decreases owners@.len() - i,
    {
        proof {
            let key = parts(owners@[i as int].0@);
            assert(owned_paths(owners@)[i as int] == owners@[i as int].0@);
            let k = lemma_winner(goal, key);
            let (e, f) = lemma_claim_source(entries@, tables.files@, k);
            assert(entries@[e].mod_id@ == goal[k].owner);
        }
        match find_release(&tables.mods, &owners[i].1) {
            Some(k) => {
                links.push(
                    Link {
                        source: join(&tables.mods[k].layer_path, &winning[i]),
                        destination: join(&layer, &owners[i].0),
                    },
                );
            },
            None => {
                assert(false);
            },
        }
        i += 1;
    }
    let conflicts = find_conflicts(&all, &table);
    let found = find_redmods(&all);
    let loadout = MaterializedLoadout {
        revision,
        layer,
        entries: resolved,
        conflicts,
        redmods: found,
        owners,
    };
    assert(is_loadout_of(loadout, *tables, *paths, profile_id@));
    Ok((loadout, links))
}

/// What a loadout puts in place stays in its layer, where the paths of its files stay
/// inside, as those of accepted archives do.
pub proof fn law_links_stay_in_the_layer(
    links: Seq<Link>,
    loadout: MaterializedLoadout,
    tables: LoadoutTables,
    paths: AppPaths,
    profile_id: Seq<char>,
    i: int,
)
    requires
        is_loadout_of(loadout, tables, paths, profile_id),
        are_links_of(links, loadout, tables),
        0 <= i < links.len(),
        path_fault(loadout.owners@[i].0@) is None,
    ensures
        lies_under(links[i].destination@, loadout.layer@),
{
    reveal_strlit("layer");
    assert(is_link_for(
        links[i],
        loadout.owners@[i].0@,
        loadout.layer@,
        tables.claims(),
        tables.mods@,
    ));
    law_accepted_paths_stay_inside(loadout.layer@, loadout.owners@[i].0@);
}

proof fn lemma_other_listing(
    a: Seq<Seq<char>>,
    b: Seq<Seq<char>>,
    all: Seq<Claim>,
    least: nat,
    i: int,
)
    requires
        lists_paths(a, all, least),
        lists_paths(b, all, least),
        0 <= i < a.len(),
    ensures
        b.contains(a[i]),
{
    let at = places(all, parts(a[i]));
    lemma_places(all, parts(a[i]));
    let k = at[0];
    assert(all[k].path == a[i]);
    let j = choose|j: int| 0 <= j < b.len() && parts(#[trigger] b[j]) == parts(all[k].path);
    assert(b[j] == a[i]);
}

/// What a loadout says of its paths is said in one way only: two listings of the
/// paths with as many claims are the same.
pub proof fn law_listing_is_unique(
    a: Seq<Seq<char>>,
    b: Seq<Seq<char>>,
    all: Seq<Claim>,
    least: nat,
)
    requires
        lists_paths(a, all, least),
        lists_paths(b, all, least),
    ensures
        a == b,
{
    lemma_parts_order();
    let order = |x: Seq<Part>, y: Seq<Part>| parts_lt(x, y);
    let lt = |x: Seq<char>, y: Seq<char>| path_lt(x, y);
    assert forall|x: Seq<char>| !(#[trigger] lt(x, x)) by {
        assert(!order(parts(x), parts(x)));
    }
    assert forall|x: Seq<char>, y: Seq<char>, z: Seq<char>| #[trigger] lt(x, y) && #[trigger] lt(y, z)
        implies lt(x, z) by {
        assert(order(parts(x), parts(y)) && order(parts(y), parts(z)));
    }
    assert forall|i: int| 0 <= i < a.len() implies b.contains(#[trigger] a[i]) by {
        lemma_other_listing(a, b, all, least, i);
    }
    assert forall|i: int| 0 <= i < b.len() implies a.contains(#[trigger] b[i]) by {
        lemma_other_listing(b, a, all, least, i);
    }
    crate::order::lemma_ascending_equal(a, b, lt);
}

/// The conflicts of a loadout are for the very paths that the list of contested
/// paths of its profile names.
pub proof fn law_conflicts_are_the_contested_paths(
    conflicts: Seq<Conflict>,
    contested: Seq<(String, Vec<String>)>,
    all: Seq<Claim>,
)
    requires
        lists_conflicts(conflicts, all),
        lists_contested(contested, all),
    ensures
        conflict_paths(conflicts) == contested_paths(contested),
{
    law_listing_is_unique(conflict_paths(conflicts), contested_paths(contested), all, 2);
}

/// Whether claims stand in falling priority.
pub open spec fn fall_in_priority(all: Seq<Claim>) -> bool {
    forall|i: int, j: int|
        0 <= i < j < all.len() ==> (#[trigger] all[i]).priority >= (#[trigger] all[j]).priority
}

/// Whether no mod claims one place twice.
pub open spec fn claims_once(all: Seq<Claim>) -> bool {
    forall|i: int, j: int|
        0 <= i < j < all.len() && (#[trigger] all[i]).owner == (#[trigger] all[j]).owner ==> parts(
            all[i].path,
        ) != parts(all[j].path)
}

proof fn lemma_others_of_first(list: Seq<Seq<char>>)
    requires
        list.len() > 0,
        forall|i: int| 1 <= i < list.len() ==> #[trigger] list[i] != list[0],
    ensures
        others(list, list[0]) == list.skip(1),
    decreases list.len(),
{
    let keep = |text: Seq<char>| text != list[0];
    reveal(Seq::filter);
    let front = list.drop_last();
    if list.len() > 1 {
        assert forall|i: int| 1 <= i < front.len() implies #[trigger] front[i] != front[0] by {
            assert(list[i] != list[0]);
        }
        lemma_others_of_first(front);
        assert(front[0] == list[0]);
        assert(list[list.len() - 1] != list[0]);
        assert(keep(list.last()));
        assert(front.skip(1).push(list.last()) =~= list.skip(1));
    } else {
        assert(front =~= Seq::<Seq<char>>::empty());
        assert(front.filter(keep) =~= Seq::<Seq<char>>::empty());
        assert(list.last() == list[0]);
        assert(!keep(list.last()));
        assert(list.skip(1) =~= Seq::<Seq<char>>::empty());
    }
}

/// Where claims stand in falling priority, the mod that a contested path names first
/// is the one that wins it. Where also no mod claims one place twice, the others that
/// the path names are those that the conflict calls shadowed, in the same order.
pub proof fn law_first_claimant_wins(
    conflicts: Seq<Conflict>,
    contested: Seq<(String, Vec<String>)>,
    all: Seq<Claim>,
    i: int,
)
    requires
        lists_conflicts(conflicts, all),
        lists_contested(contested, all),
        fall_in_priority(all),
        0 <= i < contested.len(),
    ensures
        contested.len() == conflicts.len(),
        contested[i].0@ == conflicts[i].path@,
        contested[i].1@.len() >= 2,
        contested[i].1@[0]@ == conflicts[i].winner@,
        claims_once(all) ==> views(contested[i].1@).skip(1) == views(conflicts[i].shadowed@),
{
    law_conflicts_are_the_contested_paths(conflicts, contested, all);
    assert(conflict_paths(conflicts).len() == conflicts.len());
    assert(contested_paths(contested).len() == contested.len());
    assert(conflict_paths(conflicts)[i] == conflicts[i].path@);
    assert(contested_paths(contested)[i] == contested[i].0@);
    let key = parts(contested[i].0@);
    let at = places(all, key);
    let named = claimants(all, key);
    assert(at.len() >= 2);
    lemma_places(all, key);
    let p = lemma_best(all, at);
    if p > 0 {
        assert(at[0] < at[p]);
        assert(all[at[0]].priority >= all[at[p]].priority);
    }
    assert(winner(all, key) == all[at[0]]);
    assert(views(contested[i].1@) == named);
    assert(views(contested[i].1@).len() == contested[i].1@.len());
    assert(named[0] == all[at[0]].owner);
    assert(views(contested[i].1@)[0] == contested[i].1@[0]@);
    if claims_once(all) {
        assert forall|n: int| 1 <= n < named.len() implies #[trigger] named[n] != named[0] by {
            assert(at[0] < at[n]);
            assert(named[n] == all[at[n]].owner);
            assert(parts(all[at[0]].path) == key && parts(all[at[n]].path) == key);
        }
        lemma_others_of_first(named);
    }
}

/// Whether the entries of a loadout stand in falling priority.
pub open spec fn ranked(entries: Seq<LoadoutEntry>) -> bool {
    forall|i: int, j: int|
        0 <= i < j < entries.len() ==> (#[trigger] entries[i]).priority >= (
        #[trigger] entries[j]).priority
}

/// Whether a loadout names each mod once.
pub open spec fn mods_once(entries: Seq<LoadoutEntry>) -> bool {
    forall|i: int, j: int|
        0 <= i < j < entries.len() ==> (#[trigger] entries[i]).mod_id@ != (
        #[trigger] entries[j]).mod_id@
}

/// Whether each mod has one file at a place.
pub open spec fn files_once(files: Seq<FileOwner>) -> bool {
    forall|i: int, j: int|
        0 <= i < j < files.len() && (#[trigger] files[i]).mod_id@ == (#[trigger] files[j]).mod_id@
            ==> parts(files[i].relative_path@) != parts(files[j].relative_path@)
}

proof fn lemma_kept_entries(entries: Seq<LoadoutEntry>, keep: spec_fn(LoadoutEntry) -> bool)
    requires
        ranked(entries),
        mods_once(entries),
    ensures
        ranked(entries.filter(keep)),
        mods_once(entries.filter(keep)),
    decreases entries.len(),
{
    reveal(Seq::filter);
    if entries.len() > 0 {
        let front = entries.drop_last();
        let had = front.filter(keep);
        let last = entries.len() - 1;
        assert(ranked(front) && mods_once(front));
        lemma_kept_entries(front, keep);
        if keep(entries.last()) {
            let now = entries.filter(keep);
            assert(now == had.push(entries.last()));
            assert forall|i: int, j: int| 0 <= i < j < now.len() implies (
            #[trigger] now[i]).priority >= (#[trigger] now[j]).priority && now[i].mod_id@
                != now[j].mod_id@ by {
                if j < had.len() {
                    assert(now[i] == had[i] && now[j] == had[j]);
                } else {
                    let k = crate::order::lemma_filtered(front, keep, i);
                    assert(now[i] == entries[k] && now[j] == entries[last]);
                }
            }
        }
    }
}

proof fn lemma_kept_files(files: Seq<FileOwner>, keep: spec_fn(FileOwner) -> bool)
    requires
        files_once(files),
    ensures
        files_once(files.filter(keep)),
    decreases files.len(),
{
    reveal(Seq::filter);
    if files.len() > 0 {
        let front = files.drop_last();
        let had = front.filter(keep);
        let last = files.len() - 1;
        assert(files_once(front));
        lemma_kept_files(front, keep);
        if keep(files.last()) {
            let now = files.filter(keep);
            assert(now == had.push(files.last()));
            assert forall|i: int, j: int|
                0 <= i < j < now.len() && (#[trigger] now[i]).mod_id@ == (
                #[trigger] now[j]).mod_id@ implies parts(now[i].relative_path@) != parts(
                now[j].relative_path@,
            ) by {
                if j < had.len() {
                    assert(now[i] == had[i] && now[j] == had[j]);
                } else {
                    let k = crate::order::lemma_filtered(front, keep, i);
                    assert(now[i] == files[k] && now[j] == files[last]);
                }
            }
        }
    }
}

proof fn lemma_claims_in_order(entries: Seq<LoadoutEntry>, files: Seq<FileOwner>)
    requires
        ranked(entries),
        mods_once(entries),
        files_once(files),
    ensures
        fall_in_priority(claims(entries, files)),
        claims_once(claims(entries, files)),
    decreases entries.len(),
{
    if entries.len() > 0 {
        let front = entries.drop_last();
        let last = entries.len() - 1;
        let entry = entries.last();
        let keep = |file: FileOwner| file.mod_id@ == entry.mod_id@;
        let kept = files.filter(keep);
        let had = claims(front, files);
        let own = entry_claims(entry, files);
        let all = claims(entries, files);
        assert(ranked(front) && mods_once(front));
        lemma_claims_in_order(front, files);
        lemma_kept_files(files, keep);
        assert forall|n: int| 0 <= n < own.len() implies (#[trigger] own[n]).owner == entry.mod_id@
            && own[n].priority == entry.priority && own[n].path == kept[n].relative_path@
            && kept[n].mod_id@ == entry.mod_id@ by {
            let k = crate::order::lemma_filtered(files, keep, n);
        }
        assert forall|i: int, j: int| 0 <= i < j < all.len() implies (
        #[trigger] all[i]).priority >= (#[trigger] all[j]).priority && (all[i].owner == all[j].owner
            ==> parts(all[i].path) != parts(all[j].path)) by {
            if j < had.len() {
                assert(all[i] == had[i] && all[j] == had[j]);
            } else {
                let m = j - had.len();
                assert(all[j] == own[m]);
                if i < had.len() {
                    let (e, f) = lemma_claim_source(front, files, i);
                    assert(all[i] == had[i]);
                    assert(front[e] == entries[e] && entry == entries[last]);
                } else {
                    let n = i - had.len();
                    assert(all[i] == own[n]);
                    assert(kept[n].mod_id@ == kept[m].mod_id@);
                }
            }
        }
    }
}

/// The conflicts of a loadout and the contested paths of its profile say the same,
/// where the tables hold the entries in falling priority, each mod once, and of each
/// mod one file at a place: they name the same paths in their order, and of each the
/// mod that is named first wins and the rest are shadowed.
pub proof fn law_contested_paths_name_their_winner(
    loadout: MaterializedLoadout,
    contested: Seq<(String, Vec<String>)>,
    tables: LoadoutTables,
    paths: AppPaths,
    profile_id: Seq<char>,
)
    requires
        is_loadout_of(loadout, tables, paths, profile_id),
        lists_contested(contested, claims(enabled(tables.entries@, tables.dependencies@), tables.files@)),
        ranked(tables.entries@),
        mods_once(tables.entries@),
        files_once(tables.files@),
    ensures
        contested.len() == loadout.conflicts@.len(),
        forall|i: int, j: int|
            0 <= i < j < contested.len() ==> path_lt(
                (#[trigger] contested[i]).0@,
                (#[trigger] contested[j]).0@,
            ),
        forall|i: int|
            0 <= i < contested.len() ==> {
                &&& (#[trigger] contested[i]).0@ == loadout.conflicts@[i].path@
                &&& contested[i].1@.len() >= 2
                &&& contested[i].1@[0]@ == loadout.conflicts@[i].winner@
                &&& views(contested[i].1@).skip(1) == views(loadout.conflicts@[i].shadowed@)
            },
{
    let entries = tables.entries@;
    let deps = tables.dependencies@;
    let all = tables.claims();
    let conflicts = loadout.conflicts@;
    lemma_kept_entries(
        entries,
        |entry: LoadoutEntry| entry.requested_enabled && satisfied(entries, deps, entry.mod_id@),
    );
    lemma_claims_in_order(tables.enabled(), tables.files@);
    law_conflicts_are_the_contested_paths(conflicts, contested, all);
    assert(conflict_paths(conflicts).len() == contested_paths(contested).len());
    assert forall|i: int, j: int| 0 <= i < j < contested.len() implies path_lt(
        (#[trigger] contested[i]).0@,
        (#[trigger] contested[j]).0@,
    ) by {
        assert(path_lt(contested_paths(contested)[i], contested_paths(contested)[j]));
    }
    assert forall|i: int| 0 <= i < contested.len() implies {
        &&& (#[trigger] contested[i]).0@ == conflicts[i].path@
        &&& contested[i].1@.len() >= 2
        &&& contested[i].1@[0]@ == conflicts[i].winner@
        &&& views(contested[i].1@).skip(1) == views(conflicts[i].shadowed@)
    } by {
        law_first_claimant_wins(conflicts, contested, all, i);
    }
}

/// A file of the index, and whether it is there.
#[derive(Debug)]
pub struct IndexedFile {
    pub relative_path: String,
    pub present: bool,
}

/// Where the files of a release should lie.
pub fn index_places(release: &ModRelease, files: &[FileOwner]) -> (r: Vec<String>)
    ensures
        r@.len() == files@.len(),
        forall|i: int|
            0 <= i < r@.len() ==> (#[trigger] r@[i])@ == join_path(
                release.layer_path@,
                files@[i].relative_path@,
            ),
{
    let mut r: Vec<String> = Vec::new();
    let mut i: usize = 0;
    while i < files.len()
        invariant
            i <= files@.len(),
            r@.len() == i,
            forall|j: int|
                0 <= j < i ==> (#[trigger] r@[j])@ == join_path(
                    release.layer_path@,
                    files@[j].relative_path@,
                ),
        decreases files@.len() - i,
    {
        r.push(join(&release.layer_path, &files[i].relative_path));
        i += 1;
    }
    r
}

/// Checks that every indexed file is there; fails with the first that is not.
pub fn verify_index(files: &[IndexedFile]) -> (r: Result<(), LoadoutError>)
    ensures
        match r {
            Ok(()) => forall|i: int| 0 <= i < files@.len() ==> (#[trigger] files@[i]).present,
            Err(error) => exists|i: int|
                0 <= i < files@.len() && !(#[trigger] files@[i]).present && (forall|j: int|
                    0 <= j < i ==> (#[trigger] files@[j]).present) && error is MissingFile
                    && error->MissingFile_0@ == files@[i].relative_path@,
        },
{
    let mut i: usize = 0;
    while i < files.len()
        invariant
            i <= files@.len(),
            forall|j: int| 0 <= j < i ==> (#[trigger] files@[j]).present,
        decreases files@.len() - i,
    {
        if !files[i].present {
            return Err(LoadoutError::MissingFile(files[i].relative_path.clone()));
        }
        i += 1;
    }
    Ok(())
}

/// The paths of a list of paths and their claimants.
pub open spec fn contested_paths(list: Seq<(String, Vec<String>)>) -> Seq<Seq<char>> {
    list.map_values(|contested: (String, Vec<String>)| contested.0@)
}

/// Whether a list holds each path with two claims or more, and who claims it.
pub open spec fn lists_contested(list: Seq<(String, Vec<String>)>, all: Seq<Claim>) -> bool {
    &&& lists_paths(contested_paths(list), all, 2)
    &&& forall|i: int|
        0 <= i < list.len() ==> views((#[trigger] list[i]).1@) == claimants(all, parts(list[i].0@))
}

/// The paths that several enabled mods claim, each with its claimants.
pub fn conflicts_for_profile(
    entries: &Vec<LoadoutEntry>,
    dependencies: &Vec<Dependency>,
    files: &Vec<FileOwner>,
) -> (r: Vec<(String, Vec<String>)>)
    ensures
        lists_contested(r@, claims(enabled(entries@, dependencies@), files@)),
{
    let resolved = resolve(entries, dependencies);
    let on = enabled_entries(&resolved, entries, dependencies);
    let all = collect_claims(&on, files);
    let ghost goal = claim_views(all@);
    let table = gather(&all);
    let total: usize = table.len();
    assert(table@.len() == total);
    let picks = slots_with(&table, 2);
    let mut r: Vec<(String, Vec<String>)> = Vec::new();
    let mut i: usize = 0;
    while i < picks.len()
        invariant
            i <= picks@.len(),
            goal == claim_views(all@),
            total == table@.len(),
            table_sound(table@, goal),
            forall|j: int| 0 <= j < picks@.len() ==> (#[trigger] picks@[j]) < table@.len(),
            r@.len() == i,
            forall|j: int|
                0 <= j < i ==> (#[trigger] r@[j]).0@ == slot_path(table@[picks@[j] as int], goal),
            forall|j: int|
                0 <= j < i ==> views((#[trigger] r@[j]).1@) == claimants(goal, parts(r@[j].0@)),
        decreases picks@.len() - i,
    {
        let t: usize = picks[i];
        let slot = &table[t];
        assert(slot_sound(table@[t as int], goal));
        proof {
            lemma_slot_path(*slot, goal);
        }
        let first: usize = slot.members[0];
        assert(goal[first as int] == all@[first as int]@);
        r.push((all[first].path.clone(), slot_owners(&all, slot)));
        i += 1;
    }
    proof {
        let list = contested_paths(r@);
        assert forall|i: int| 0 <= i < picks@.len() implies (#[trigger] picks@[i]) < table@.len()
            && table@[picks@[i] as int].members@.len() >= 2 && list[i] == slot_path(
            table@[picks@[i] as int],
            goal,
        ) by {
            assert(list[i] == r@[i].0@);
        }
        lemma_lists(table@, goal, 2, picks@, list);
    }
    r
}

proof fn lemma_claim_made(entries: Seq<LoadoutEntry>, files: Seq<FileOwner>, e: int, f: int) -> (k: int)
    requires
        0 <= e < entries.len(),
        0 <= f < files.len(),
        files[f].mod_id@ == entries[e].mod_id@,
    ensures
        0 <= k < claims(entries, files).len(),
        claims(entries, files)[k] == (Claim {
            path: files[f].relative_path@,
            priority: entries[e].priority as int,
            owner: entries[e].mod_id@,
        }),
    decreases entries.len(),
{
    broadcast use crate::order::lemma_same_filter;

    let front = entries.drop_last();
    let had = claims(front, files);
    if e < front.len() {
        assert(front[e] == entries[e]);
        let k = lemma_claim_made(front, files, e, f);
        assert(claims(entries, files)[k] == had[k]);
        k
    } else {
        let entry = entries[e];
        let keep = |file: FileOwner| file.mod_id@ == entry.mod_id@;
        let kept = files.filter(keep);
        files.lemma_filter_contains(keep, f);
        let n = choose|n: int| 0 <= n < kept.len() && kept[n] == files[f];
        assert(entry_claims(entry, files)[n].path == files[f].relative_path@);
        assert(claims(entries, files)[had.len() + n] == entry_claims(entry, files)[n]);
        had.len() + n
    }
}

/// Every file of an enabled mod has its place in the layer: the file there is its own, or
/// one of an enabled mod with a priority at least as high, taken from where the release of
/// that mod keeps it.
pub proof fn law_enabled_files_reach_the_layer(
    links: Seq<Link>,
    loadout: MaterializedLoadout,
    tables: LoadoutTables,
    paths: AppPaths,
    profile_id: Seq<char>,
    e: int,
    f: int,
)
    requires
        is_loadout_of(loadout, tables, paths, profile_id),
        are_links_of(links, loadout, tables),
        0 <= e < tables.entries@.len(),
        0 <= f < tables.files@.len(),
        tables.entries@[e].requested_enabled,
        satisfied(tables.entries@, tables.dependencies@, tables.entries@[e].mod_id@),
        tables.files@[f].mod_id@ == tables.entries@[e].mod_id@,
    ensures
        exists|i: int, w: int, g: int|
            #![trigger links[i], tables.entries@[w], tables.files@[g]]
            {
                &&& 0 <= i < links.len()
                &&& 0 <= w < tables.entries@.len()
                &&& 0 <= g < tables.files@.len()
                &&& same_place(loadout.owners@[i].0@, tables.files@[f].relative_path@)
                &&& links[i].destination@ == join_path(loadout.layer@, loadout.owners@[i].0@)
                &&& tables.entries@[w].requested_enabled
                &&& satisfied(tables.entries@, tables.dependencies@, tables.entries@[w].mod_id@)
                &&& tables.entries@[w].priority >= tables.entries@[e].priority
                &&& loadout.owners@[i].1@ == tables.entries@[w].mod_id@
                &&& tables.files@[g].mod_id@ == tables.entries@[w].mod_id@
                &&& same_place(tables.files@[g].relative_path@, tables.files@[f].relative_path@)
                &&& links[i].source@ == join_path(
                    released(tables.mods@, tables.entries@[w].mod_id@)->0.layer_path@,
                    tables.files@[g].relative_path@,
                )
            },
{
    broadcast use crate::order::lemma_same_filter;

    let entries = tables.entries@;
    let deps = tables.dependencies@;
    let files = tables.files@;
    let on = tables.enabled();
    let all = tables.claims();
    let keep = |entry: LoadoutEntry|
        entry.requested_enabled && satisfied(entries, deps, entry.mod_id@);
    entries.lemma_filter_contains(keep, e);
    let n = choose|n: int| 0 <= n < on.len() && on[n] == entries[e];
    let k = lemma_claim_made(on, files, n, f);
    let key = parts(files[f].relative_path@);
    lemma_places(all, key);
    let at = places(all, key);
    assert(at.contains(k));
    let list = owned_paths(loadout.owners@);
    assert(at.len() >= 1);
    let i = choose|i: int| 0 <= i < list.len() && parts(#[trigger] list[i]) == parts(all[k].path);
    assert(list[i] == loadout.owners@[i].0@);
    law_highest_priority_wins(all, k);
    let c = lemma_winner(all, key);
    let (v, g) = lemma_claim_source(on, files, c);
    let w = crate::order::lemma_filtered(entries, keep, v);
    assert(entries[w] == on[v]);
    assert(is_link_for(links[i], loadout.owners@[i].0@, loadout.layer@, all, tables.mods@));
    assert(links[i].destination@ == join_path(loadout.layer@, loadout.owners@[i].0@));
    assert(loadout.owners@[i].1@ == winner(all, parts(loadout.owners@[i].0@)).owner);
    assert(files[g].mod_id@ == entries[w].mod_id@);
}

/// The REDmods of a loadout are those whose description is among its files, each once.
pub proof fn law_redmods_are_those_described(all: Seq<Claim>, name: Seq<char>)
    ensures
        redmods(all).contains(name) <==> exists|k: int|
            0 <= k < all.len() && redmod_at((#[trigger] all[k]).path) == Some(name),
        redmods(all).no_duplicates(),
    decreases all.len(),
{
    if all.len() > 0 {
        let front = all.drop_last();
        let found = redmods(front);
        let now = redmods(all);
        let n = all.len() - 1;
        law_redmods_are_those_described(front, name);
        if now.contains(name) {
            if found.contains(name) {
                let k = choose|k: int|
                    0 <= k < front.len() && redmod_at((#[trigger] front[k]).path) == Some(name);
                assert(all[k] == front[k]);
            } else {
                assert(redmod_at(all[n].path) == Some(name));
            }
        }
        if exists|k: int| 0 <= k < all.len() && redmod_at((#[trigger] all[k]).path) == Some(name) {
            let k = choose|k: int|
                0 <= k < all.len() && redmod_at((#[trigger] all[k]).path) == Some(name);
            if k < n {
                assert(front[k] == all[k]);
                let i = choose|i: int| 0 <= i < found.len() && found[i] == name;
                assert(now[i] == name);
            } else if !found.contains(name) {
                assert(now[found.len() as int] == name);
            }
        }
    }
}

/// A REDmod that was put into a layer is found there: the description in a directory below
/// `mods` is that of the REDmod with the name of the directory.
pub proof fn law_described_redmods_are_found(name: Seq<char>)
    requires
        name.len() > 0,
        name != seq!['.'] && name != seq!['.', '.'],
        forall|i: int| 0 <= i < name.len() ==> name[i] != '/',
    ensures
        redmod_at(join_path(join_path("mods"@, name), "info.json"@)) == Some(name),
{
    reveal_strlit("mods");
    reveal_strlit("info.json");
    let none = Seq::<char>::empty();
    crate::path::lemma_joined_name("mods"@, name);
    crate::path::lemma_joined_name(join_path("mods"@, name), "info.json"@);
    crate::path::lemma_one_piece("mods"@);
    let keep = |piece: Seq<char>| crate::path::counts(piece);
    assert(split_on("mods"@, '/') =~= seq!["mods"@]);
    assert(seq!["mods"@].filter(keep) =~= seq!["mods"@]) by {
        reveal(Seq::filter);
        assert(seq!["mods"@].drop_last() =~= Seq::<Seq<char>>::empty());
        assert(Seq::<Seq<char>>::empty().filter(keep) =~= Seq::<Seq<char>>::empty());
    }
    assert("mods"@.len() == 4);
    assert(parts("mods"@) =~= seq![Part::Name("mods"@)]);
}

/// The layer of a loadout lies with its profile, in a directory of its own for each
/// revision.
pub proof fn law_layers_lie_with_their_profile(
    loadout: MaterializedLoadout,
    tables: LoadoutTables,
    paths: AppPaths,
    profile_id: Seq<char>,
)
    requires
        is_loadout_of(loadout, tables, paths, profile_id),
    ensures
        loadout.layer@ == join_path(
            join_path(
                join_path(
                    join_path(join_path(paths.data_dir@, "profiles"@), profile_id),
                    "loadouts"@,
                ),
                loadout.revision@,
            ),
            "layer"@,
        ),
{
}

/// The revision of a loadout covers every mod of it: what it is the digest of goes on,
/// with each further mod, with the id, the priority and the archive of that mod.
pub proof fn law_revisions_cover_every_mod(
    entries: Seq<LoadoutEntry>,
    mods: Seq<ModRelease>,
    entry: LoadoutEntry,
    k: int,
)
    requires
        0 <= k < mods.len(),
        mods[k].id@ == entry.mod_id@,
        forall|j: int| 0 <= j < mods.len() && j != k ==> (#[trigger] mods[j]).id@ != entry.mod_id@,
    ensures
        fingerprint(entries.push(entry), mods) == fingerprint(entries, mods) + encode_utf8(
            entry.mod_id@,
        ) + le_bytes(entry.priority) + encode_utf8(mods[k].archive_sha256@),
{
    assert(entries.push(entry).drop_last() =~= entries);
    lemma_released(mods, entry.mod_id@, k);
}

proof fn lemma_released(mods: Seq<ModRelease>, id: Seq<char>, k: int)
    requires
        0 <= k < mods.len(),
        mods[k].id@ == id,
        forall|j: int| 0 <= j < mods.len() && j != k ==> (#[trigger] mods[j]).id@ != id,
    ensures
        released(mods, id) == Some(mods[k]),
    decreases mods.len(),
{
    if k < mods.len() - 1 {
        assert(mods[mods.len() - 1].id@ != id);
        let front = mods.drop_last();
        assert forall|j: int| 0 <= j < front.len() && j != k implies (#[trigger] front[j]).id@ != id by {
            assert(front[j] == mods[j]);
        }
        lemma_released(front, id, k);
    }
}

} // verus!
