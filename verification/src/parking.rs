//! What becomes of the files that mods changed, when the owners of their paths change.
use vstd::prelude::*;

use crate::launcher::{owns, park_move, park_moves, parked_place, restore_move, restore_moves};
use crate::order::lemma_filtered;
use crate::outside::by_path;
use crate::path::{
    is_name, join_path, lemma_below, lemma_join_parts, lemma_parts_order, lemma_same_name,
    lies_under, parts, parts_lt, path_lt, same_place, Part,
};

verus! {

/// What places hold after files were put aside: each that is there is moved.
pub open spec fn parked_by(
    tree: Map<Seq<char>, int>,
    moves: Seq<(Seq<char>, Seq<char>)>,
) -> Map<Seq<char>, int>
    decreases moves.len(),
{
    if moves.len() == 0 {
        tree
    } else {
        let before = parked_by(tree, moves.drop_last());
        let (from, to) = moves.last();
        if before.dom().contains(from) {
            before.remove(from).insert(to, before[from])
        } else {
            before
        }
    }
}

/// What places hold after files were brought back: each that is there is moved, unless
/// something is in its place.
pub open spec fn restored_by(
    tree: Map<Seq<char>, int>,
    moves: Seq<(Seq<char>, Seq<char>)>,
) -> Map<Seq<char>, int>
    decreases moves.len(),
{
    if moves.len() == 0 {
        tree
    } else {
        let before = restored_by(tree, moves.drop_last());
        let (from, to) = moves.last();
        if before.dom().contains(from) && !before.dom().contains(to) {
            before.remove(from).insert(to, before[from])
        } else {
            before
        }
    }
}

/// What places hold before a run, where the paths had other owners in the last one.
pub open spec fn reconciled(
    tree: Map<Seq<char>, int>,
    previous: Seq<(String, String)>,
    current: Seq<(String, String)>,
    upper: Seq<char>,
    parked: Seq<char>,
) -> Map<Seq<char>, int> {
    restored_by(
        parked_by(tree, park_moves(previous, current, upper, parked)),
        restore_moves(current, upper, parked),
    )
}

spec fn avoids(moves: Seq<(Seq<char>, Seq<char>)>, place: Seq<char>) -> bool {
    forall|i: int| 0 <= i < moves.len() ==> (#[trigger] moves[i]).0 != place && moves[i].1 != place
}

spec fn apart(moves: Seq<(Seq<char>, Seq<char>)>) -> bool {
    &&& forall|i: int, j: int|
        0 <= i < j < moves.len() ==> (#[trigger] moves[i]).0 != (#[trigger] moves[j]).0 && moves[i].1
            != moves[j].1
    &&& forall|i: int, j: int|
        0 <= i < moves.len() && 0 <= j < moves.len() ==> (#[trigger] moves[i]).0 != (
        #[trigger] moves[j]).1
}

proof fn lemma_front_apart(moves: Seq<(Seq<char>, Seq<char>)>)
    requires
        moves.len() > 0,
        apart(moves),
    ensures
        apart(moves.drop_last()),
{
    let front = moves.drop_last();
    assert forall|i: int, j: int| 0 <= i < j < front.len() implies (#[trigger] front[i]).0 != (
    #[trigger] front[j]).0 && front[i].1 != front[j].1 by {
        assert(front[i] == moves[i] && front[j] == moves[j]);
    }
    assert forall|i: int, j: int| 0 <= i < front.len() && 0 <= j < front.len() implies (
    #[trigger] front[i]).0 != (#[trigger] front[j]).1 by {
        assert(front[i] == moves[i] && front[j] == moves[j]);
    }
}

proof fn lemma_parking_avoids(
    tree: Map<Seq<char>, int>,
    moves: Seq<(Seq<char>, Seq<char>)>,
    place: Seq<char>,
)
    requires
        avoids(moves, place),
    ensures
        parked_by(tree, moves).dom().contains(place) == tree.dom().contains(place),
        tree.dom().contains(place) ==> parked_by(tree, moves)[place] == tree[place],
    decreases moves.len(),
{
    if moves.len() > 0 {
        let front = moves.drop_last();
        assert forall|i: int| 0 <= i < front.len() implies (#[trigger] front[i]).0 != place
            && front[i].1 != place by {
            assert(front[i] == moves[i]);
        }
        assert(moves.last() == moves[moves.len() - 1]);
        lemma_parking_avoids(tree, front, place);
    }
}

proof fn lemma_restoring_avoids(
    tree: Map<Seq<char>, int>,
    moves: Seq<(Seq<char>, Seq<char>)>,
    place: Seq<char>,
)
    requires
        avoids(moves, place),
    ensures
        restored_by(tree, moves).dom().contains(place) == tree.dom().contains(place),
        tree.dom().contains(place) ==> restored_by(tree, moves)[place] == tree[place],
    decreases moves.len(),
{
    if moves.len() > 0 {
        let front = moves.drop_last();
        assert forall|i: int| 0 <= i < front.len() implies (#[trigger] front[i]).0 != place
            && front[i].1 != place by {
            assert(front[i] == moves[i]);
        }
        assert(moves.last() == moves[moves.len() - 1]);
        lemma_restoring_avoids(tree, front, place);
    }
}

proof fn lemma_parked(tree: Map<Seq<char>, int>, moves: Seq<(Seq<char>, Seq<char>)>, k: int)
    requires
        apart(moves),
        0 <= k < moves.len(),
    ensures
        !parked_by(tree, moves).dom().contains(moves[k].0),
        tree.dom().contains(moves[k].0) ==> parked_by(tree, moves).dom().contains(moves[k].1)
            && parked_by(tree, moves)[moves[k].1] == tree[moves[k].0],
    decreases moves.len(),
{
    let front = moves.drop_last();
    let last = moves.len() - 1;
    lemma_front_apart(moves);
    assert(moves.last() == moves[last]);
    if k == last {
        assert forall|i: int| 0 <= i < front.len() implies (#[trigger] front[i]).0 != moves[k].0
            && front[i].1 != moves[k].0 by {
            assert(front[i] == moves[i]);
        }
        lemma_parking_avoids(tree, front, moves[k].0);
        assert(moves[k].0 != moves[k].1);
    } else {
        lemma_parked(tree, front, k);
        assert(front[k] == moves[k]);
        assert(moves[k].0 != moves[last].0 && moves[k].1 != moves[last].1);
        assert(moves[last].0 != moves[k].1);
        assert(moves[k].0 != moves[last].1);
    }
}

proof fn lemma_restored(tree: Map<Seq<char>, int>, moves: Seq<(Seq<char>, Seq<char>)>, k: int)
    requires
        apart(moves),
        0 <= k < moves.len(),
        tree.dom().contains(moves[k].0),
        !tree.dom().contains(moves[k].1),
    ensures
        restored_by(tree, moves).dom().contains(moves[k].1),
        restored_by(tree, moves)[moves[k].1] == tree[moves[k].0],
    decreases moves.len(),
{
    let front = moves.drop_last();
    let last = moves.len() - 1;
    lemma_front_apart(moves);
    assert(moves.last() == moves[last]);
    if k == last {
        assert forall|i: int| 0 <= i < front.len() implies (#[trigger] front[i]).0 != moves[k].0
            && front[i].1 != moves[k].0 && front[i].0 != moves[k].1 && front[i].1 != moves[k].1 by {
            assert(front[i] == moves[i]);
        }
        lemma_restoring_avoids(tree, front, moves[k].0);
        lemma_restoring_avoids(tree, front, moves[k].1);
    } else {
        lemma_restored(tree, front, k);
        assert(front[k] == moves[k]);
        assert(moves[k].0 != moves[last].0 && moves[k].1 != moves[last].1);
        assert(moves[last].0 != moves[k].1);
    }
}

/// Whether the paths of a list lead below a directory, and its owners are single names.
pub open spec fn proper(list: Seq<(String, String)>) -> bool {
    forall|i: int|
        0 <= i < list.len() ==> (#[trigger] list[i]).0@.len() > 0 && list[i].0@[0] != '/' && is_name(
            list[i].1@,
        )
}

/// The directories of a profile that hold the files that mods changed: those in use and
/// those put aside.
pub open spec fn state_dirs(state: Seq<char>) -> (Seq<char>, Seq<char>) {
    (join_path(state, "runtime-upper"@), join_path(state, "parked-state"@))
}

proof fn lemma_spelled(state: Seq<char>, path: Seq<char>, owner: Seq<char>)
    requires
        state.len() > 0 && state.last() != '/',
        path.len() > 0 && path[0] != '/',
        is_name(owner),
    ensures
        ({
            let (upper, parked) = state_dirs(state);
            &&& parked.len() > state.len() + 1 && upper.len() > state.len() + 1
            &&& upper[state.len() as int + 1] == 'r' && parked[state.len() as int + 1] == 'p'
            &&& join_path(upper, path) == upper + seq!['/'] + path
            &&& parked_place(parked, path, owner) == parked + seq!['/'] + owner + seq!['/'] + path
        }),
{
    reveal_strlit("runtime-upper");
    reveal_strlit("parked-state");
    let (upper, parked) = state_dirs(state);
    lemma_below(state, "runtime-upper"@);
    lemma_below(state, "parked-state"@);
    lemma_below(upper, path);
    assert(owner.contains(owner[0]) && owner.contains(owner.last()));
    lemma_below(parked, owner);
    lemma_below(join_path(parked, owner), path);
}

proof fn lemma_two_places(
    state: Seq<char>,
    a: (Seq<char>, Seq<char>),
    b: (Seq<char>, Seq<char>),
)
    requires
        state.len() > 0 && state.last() != '/',
        a.0.len() > 0 && a.0[0] != '/' && is_name(a.1),
        b.0.len() > 0 && b.0[0] != '/' && is_name(b.1),
    ensures
        ({
            let (upper, parked) = state_dirs(state);
            &&& join_path(upper, a.0) != parked_place(parked, b.0, b.1)
            &&& a.0 != b.0 ==> join_path(upper, a.0) != join_path(upper, b.0)
            &&& a != b ==> parked_place(parked, a.0, a.1) != parked_place(parked, b.0, b.1)
        }),
{
    let (upper, parked) = state_dirs(state);
    lemma_spelled(state, a.0, a.1);
    lemma_spelled(state, b.0, b.1);
    let n = state.len() as int + 1;
    assert(join_path(upper, a.0)[n] == 'r');
    assert(parked_place(parked, b.0, b.1)[n] == 'p');
    if join_path(upper, a.0) == join_path(upper, b.0) {
        let m = upper.len() as int + 1;
        assert(a.0 =~= join_path(upper, a.0).skip(m));
        assert(b.0 =~= join_path(upper, b.0).skip(m));
    }
    if parked_place(parked, a.0, a.1) == parked_place(parked, b.0, b.1) {
        lemma_same_name(parked, a.1, a.0, b.1, b.0);
        let m = parked.len() as int + a.1.len() + 2;
        assert(a.0 =~= parked_place(parked, a.0, a.1).skip(m));
        assert(b.0 =~= parked_place(parked, b.0, b.1).skip(m));
    }
}

proof fn lemma_paths_differ(list: Seq<(String, String)>, i: int, j: int)
    requires
        by_path(list),
        0 <= i < list.len(),
        0 <= j < list.len(),
        i != j,
    ensures
        !same_place(list[i].0@, list[j].0@),
        list[i].0@ != list[j].0@,
{
    lemma_parts_order();
    let lt = |a: Seq<crate::path::Part>, b: Seq<crate::path::Part>| parts_lt(a, b);
    assert(!lt(parts(list[i].0@), parts(list[i].0@)));
    if i < j {
        assert(path_lt(list[i].0@, list[j].0@));
    } else {
        assert(path_lt(list[j].0@, list[i].0@));
    }
}

proof fn lemma_filter_by_path(list: Seq<(String, String)>, keep: spec_fn((String, String)) -> bool)
    requires
        by_path(list),
        proper(list),
    ensures
        by_path(list.filter(keep)),
        proper(list.filter(keep)),
    decreases list.len(),
{
    reveal(Seq::filter);
    if list.len() > 0 {
        let front = list.drop_last();
        assert(by_path(front)) by {
            assert forall|i: int, j: int| 0 <= i < j < front.len() implies path_lt(
                (#[trigger] front[i]).0@,
                (#[trigger] front[j]).0@,
            ) by {
                assert(front[i] == list[i] && front[j] == list[j]);
            }
        }
        assert(proper(front)) by {
            assert forall|i: int| 0 <= i < front.len() implies (#[trigger] front[i]).0@.len() > 0
                && front[i].0@[0] != '/' && is_name(front[i].1@) by {
                assert(front[i] == list[i]);
            }
        }
        lemma_filter_by_path(front, keep);
        let kept = front.filter(keep);
        let all = list.filter(keep);
        let last = list[list.len() - 1];
        assert(list.last() == last);
        assert forall|i: int, j: int| 0 <= i < j < all.len() implies path_lt(
            (#[trigger] all[i]).0@,
            (#[trigger] all[j]).0@,
        ) by {
            assert(all[i] == kept[i]);
            if j < kept.len() {
                assert(all[j] == kept[j]);
            } else {
                let k = lemma_filtered(front, keep, i);
                assert(list[k] == front[k]);
                assert(all[j] == last);
            }
        }
        assert forall|i: int| 0 <= i < all.len() implies (#[trigger] all[i]).0@.len() > 0
            && all[i].0@[0] != '/' && is_name(all[i].1@) by {
            if i < kept.len() {
                assert(all[i] == kept[i]);
            } else {
                assert(all[i] == last);
            }
        }
    }
}

spec fn pair_of(p: (String, String)) -> (Seq<char>, Seq<char>) {
    (p.0@, p.1@)
}

proof fn lemma_moves_apart(state: Seq<char>, list: Seq<(String, String)>)
    requires
        state.len() > 0 && state.last() != '/',
        by_path(list),
        proper(list),
    ensures
        ({
            let (upper, parked) = state_dirs(state);
            &&& apart(list.map_values(|p: (String, String)| park_move(upper, parked, p.0@, p.1@)))
            &&& apart(restore_moves(list, upper, parked))
        }),
{
    let (upper, parked) = state_dirs(state);
    let out = list.map_values(|p: (String, String)| park_move(upper, parked, p.0@, p.1@));
    let back = restore_moves(list, upper, parked);
    assert forall|i: int, j: int| 0 <= i < j < list.len() implies (#[trigger] out[i]).0 != (
    #[trigger] out[j]).0 && out[i].1 != out[j].1 by {
        lemma_paths_differ(list, i, j);
        lemma_two_places(state, pair_of(list[i]), pair_of(list[j]));
    }
    assert forall|i: int, j: int| 0 <= i < list.len() && 0 <= j < list.len() implies (
    #[trigger] out[i]).0 != (#[trigger] out[j]).1 by {
        lemma_two_places(state, pair_of(list[i]), pair_of(list[j]));
    }
    assert forall|i: int, j: int| 0 <= i < j < list.len() implies (#[trigger] back[i]).0 != (
    #[trigger] back[j]).0 && back[i].1 != back[j].1 by {
        lemma_paths_differ(list, i, j);
        lemma_two_places(state, pair_of(list[i]), pair_of(list[j]));
    }
    assert forall|i: int, j: int| 0 <= i < list.len() && 0 <= j < list.len() implies (
    #[trigger] back[i]).0 != (#[trigger] back[j]).1 by {
        lemma_two_places(state, pair_of(list[j]), pair_of(list[i]));
    }
}

proof fn lemma_kept(list: Seq<(String, String)>, keep: spec_fn((String, String)) -> bool, k: int) -> (n:
    int)
    requires
        0 <= k < list.len(),
        keep(list[k]),
    ensures
        0 <= n < list.filter(keep).len(),
        list.filter(keep)[n] == list[k],
    decreases list.len(),
{
    reveal(Seq::filter);
    let front = list.drop_last();
    if k == list.len() - 1 {
        front.filter(keep).len() as int
    } else {
        assert(front[k] == list[k]);
        lemma_kept(front, keep, k)
    }
}

proof fn lemma_park_avoids_other(
    state: Seq<char>,
    previous: Seq<(String, String)>,
    current: Seq<(String, String)>,
    path: Seq<char>,
    owner: Seq<char>,
)
    requires
        state.len() > 0 && state.last() != '/',
        proper(previous),
        path.len() > 0 && path[0] != '/' && is_name(owner),
        owns(current, path, owner),
    ensures
        ({
            let (upper, parked) = state_dirs(state);
            avoids(park_moves(previous, current, upper, parked), parked_place(parked, path, owner))
        }),
{
    let (upper, parked) = state_dirs(state);
    let keep = |p: (String, String)| !owns(current, p.0@, p.1@);
    let kept = previous.filter(keep);
    let moves = park_moves(previous, current, upper, parked);
    let place = parked_place(parked, path, owner);
    assert forall|i: int| 0 <= i < moves.len() implies (#[trigger] moves[i]).0 != place && moves[i].1
        != place by {
        let k = lemma_filtered(previous, keep, i);
        assert(kept[i] == previous[k]);
        lemma_two_places(state, pair_of(previous[k]), (path, owner));
    }
}

/// What a mod changed at a path is put aside when it loses the path, for as long as it
/// does not own it.
pub proof fn law_lost_changes_are_put_aside(
    tree: Map<Seq<char>, int>,
    previous: Seq<(String, String)>,
    current: Seq<(String, String)>,
    state: Seq<char>,
    k: int,
)
    requires
        state.len() > 0 && state.last() != '/',
        by_path(previous) && proper(previous),
        by_path(current) && proper(current),
        0 <= k < previous.len(),
        !owns(current, previous[k].0@, previous[k].1@),
        tree.dom().contains(join_path(state_dirs(state).0, previous[k].0@)),
    ensures
        ({
            let (upper, parked) = state_dirs(state);
            let place = parked_place(parked, previous[k].0@, previous[k].1@);
            let after = reconciled(tree, previous, current, upper, parked);
            &&& after.dom().contains(place)
            &&& after[place] == tree[join_path(upper, previous[k].0@)]
        }),
{
    let (upper, parked) = state_dirs(state);
    let keep = |p: (String, String)| !owns(current, p.0@, p.1@);
    let place = parked_place(parked, previous[k].0@, previous[k].1@);
    lemma_filter_by_path(previous, keep);
    lemma_moves_apart(state, previous.filter(keep));
    let n = lemma_kept(previous, keep, k);
    let out = park_moves(previous, current, upper, parked);
    lemma_parked(tree, out, n);
    let back = restore_moves(current, upper, parked);
    assert forall|i: int| 0 <= i < back.len() implies (#[trigger] back[i]).0 != place && back[i].1
        != place by {
        lemma_two_places(state, pair_of(current[i]), pair_of(previous[k]));
        if pair_of(current[i]) == pair_of(previous[k]) {
            assert(same_place(current[i].0@, previous[k].0@));
        }
    }
    lemma_restoring_avoids(parked_by(tree, out), back, place);
}

/// What was put aside for a mod at a path is in use again when the mod owns the path
/// again, where nothing else is there: the mod that owned it in between is put aside
/// itself.
pub proof fn law_kept_changes_come_back(
    tree: Map<Seq<char>, int>,
    previous: Seq<(String, String)>,
    current: Seq<(String, String)>,
    state: Seq<char>,
    k: int,
)
    requires
        state.len() > 0 && state.last() != '/',
        by_path(previous) && proper(previous),
        by_path(current) && proper(current),
        0 <= k < current.len(),
        ({
            let (upper, parked) = state_dirs(state);
            let path = current[k].0@;
            &&& tree.dom().contains(parked_place(parked, path, current[k].1@))
            &&& !tree.dom().contains(join_path(upper, path)) || exists|i: int|
                0 <= i < previous.len() && (#[trigger] previous[i]).0@ == path && previous[i].1@
                    != current[k].1@
        }),
    ensures
        ({
            let (upper, parked) = state_dirs(state);
            let place = join_path(upper, current[k].0@);
            let after = reconciled(tree, previous, current, upper, parked);
            &&& after.dom().contains(place)
            &&& after[place] == tree[parked_place(parked, current[k].0@, current[k].1@)]
        }),
{
    let (upper, parked) = state_dirs(state);
    let keep = |p: (String, String)| !owns(current, p.0@, p.1@);
    let path = current[k].0@;
    let owner = current[k].1@;
    let kept = parked_place(parked, path, owner);
    let used = join_path(upper, path);
    let out = park_moves(previous, current, upper, parked);
    let middle = parked_by(tree, out);
    assert(same_place(current[k].0@, path));
    assert(owns(current, path, owner));
    lemma_park_avoids_other(state, previous, current, path, owner);
    lemma_parking_avoids(tree, out, kept);
    lemma_filter_by_path(previous, keep);
    lemma_moves_apart(state, previous.filter(keep));
    if exists|i: int|
        0 <= i < previous.len() && (#[trigger] previous[i]).0@ == path && previous[i].1@ != owner {
        let i = choose|i: int|
            0 <= i < previous.len() && (#[trigger] previous[i]).0@ == path && previous[i].1@ != owner;
        assert(!owns(current, path, previous[i].1@)) by {
            if owns(current, path, previous[i].1@) {
                let j = choose|j: int|
                    0 <= j < current.len() && same_place((#[trigger] current[j]).0@, path)
                        && current[j].1@ == previous[i].1@;
                if j != k {
                    lemma_paths_differ(current, j, k);
                }
            }
        }
        let n = lemma_kept(previous, keep, i);
        lemma_parked(tree, out, n);
        assert(out[n].0 == used);
    } else {
        assert forall|i: int| 0 <= i < out.len() implies (#[trigger] out[i]).0 != used && out[i].1
            != used by {
            let m = lemma_filtered(previous, keep, i);
            assert(previous.filter(keep)[i] == previous[m]);
            lemma_two_places(state, pair_of(previous[m]), (path, owner));
            lemma_two_places(state, (path, owner), pair_of(previous[m]));
        }
        lemma_parking_avoids(tree, out, used);
    }
    assert(!middle.dom().contains(used));
    lemma_moves_apart(state, current);
    let back = restore_moves(current, upper, parked);
    assert(back[k] == restore_move(upper, parked, path, owner));
    lemma_restored(middle, back, k);
}

/// What one mod changed at a path is never taken for what another changed there: their
/// states are kept apart, and apart from the files in use.
pub proof fn law_states_are_kept_apart(
    state: Seq<char>,
    path: Seq<char>,
    owner: Seq<char>,
    other: Seq<char>,
)
    requires
        state.len() > 0 && state.last() != '/',
        path.len() > 0 && path[0] != '/',
        is_name(owner) && is_name(other),
        owner != other,
    ensures
        ({
            let (upper, parked) = state_dirs(state);
            let (from, to) = park_move(upper, parked, path, owner);
            let (back_from, back_to) = restore_move(upper, parked, path, owner);
            let (other_from, other_to) = park_move(upper, parked, path, other);
            &&& upper == join_path(state, "runtime-upper"@)
            &&& parked == join_path(state, "parked-state"@)
            &&& from == join_path(upper, path) && back_to == from
            &&& back_from == to
            &&& to != other_to
            &&& to != from
            &&& lies_under(to, parked)
        }),
{
    let (upper, parked) = state_dirs(state);
    lemma_two_places(state, (path, owner), (path, other));
    lemma_two_places(state, (path, owner), (path, owner));
    let dir = join_path(parked, owner);
    assert(owner.contains(owner[0]) && owner.contains(owner.last()));
    lemma_spelled(state, path, owner);
    lemma_join_parts(parked, owner);
    assert(dir.len() > 0);
    lemma_join_parts(dir, path);
    let place = join_path(dir, path);
    assert(parts(parked) =~= parts(place).subrange(0, parts(parked).len() as int));
}

/// What a mod changed at a path stays in use for as long as the mod owns the path.
pub proof fn law_kept_owners_keep_their_changes(
    tree: Map<Seq<char>, int>,
    previous: Seq<(String, String)>,
    current: Seq<(String, String)>,
    state: Seq<char>,
    k: int,
)
    requires
        state.len() > 0 && state.last() != '/',
        by_path(previous) && proper(previous),
        by_path(current) && proper(current),
        0 <= k < previous.len(),
        owns(current, previous[k].0@, previous[k].1@),
        tree.dom().contains(join_path(state_dirs(state).0, previous[k].0@)),
    ensures
        ({
            let (upper, parked) = state_dirs(state);
            let place = join_path(upper, previous[k].0@);
            let after = reconciled(tree, previous, current, upper, parked);
            &&& after.dom().contains(place)
            &&& after[place] == tree[place]
        }),
{
    let (upper, parked) = state_dirs(state);
    let keep = |p: (String, String)| !owns(current, p.0@, p.1@);
    let place = join_path(upper, previous[k].0@);
    let out = park_moves(previous, current, upper, parked);
    let kept = previous.filter(keep);
    assert forall|i: int| 0 <= i < out.len() implies (#[trigger] out[i]).0 != place && out[i].1
        != place by {
        let n = lemma_filtered(previous, keep, i);
        assert(kept[i] == previous[n]);
        lemma_two_places(state, pair_of(previous[n]), pair_of(previous[k]));
        lemma_two_places(state, pair_of(previous[k]), pair_of(previous[n]));
        if previous[n].0@ == previous[k].0@ {
            lemma_parts_order();
            let lt = |a: Seq<Part>, b: Seq<Part>| parts_lt(a, b);
            if n < k {
                assert(path_lt(previous[n].0@, previous[k].0@));
                assert(lt(parts(previous[n].0@), parts(previous[n].0@)));
            }
            if k < n {
                assert(path_lt(previous[k].0@, previous[n].0@));
                assert(lt(parts(previous[n].0@), parts(previous[n].0@)));
            }
        }
    }
    lemma_parking_avoids(tree, out, place);
    let middle = parked_by(tree, out);
    let back = restore_moves(current, upper, parked);
    assert forall|i: int| 0 <= i < back.len() implies (#[trigger] back[i]).0 != place by {
        lemma_two_places(state, pair_of(previous[k]), pair_of(current[i]));
    }
    lemma_restoring_leaves(middle, back, place);
}

proof fn lemma_restoring_leaves(
    tree: Map<Seq<char>, int>,
    moves: Seq<(Seq<char>, Seq<char>)>,
    place: Seq<char>,
)
    requires
        tree.dom().contains(place),
        forall|i: int| 0 <= i < moves.len() ==> (#[trigger] moves[i]).0 != place,
    ensures
        restored_by(tree, moves).dom().contains(place),
        restored_by(tree, moves)[place] == tree[place],
    decreases moves.len(),
{
    if moves.len() > 0 {
        let front = moves.drop_last();
        assert forall|i: int| 0 <= i < front.len() implies (#[trigger] front[i]).0 != place by {
            assert(front[i] == moves[i]);
        }
        lemma_restoring_leaves(tree, front, place);
        assert(moves[moves.len() - 1].0 != place);
    }
}

} // verus!
