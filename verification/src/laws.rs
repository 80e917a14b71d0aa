//! What holds of the engine over whole runs: the files that lie loose in the
//! root are those of the active set, and every other set holds its own.

use crate::error::Phase;
use crate::root::{
    collides, lemma_index_of_set, park_error, parked, pull_error, pulled, relocated,
    relocation_error, RelocationView, RootView,
};
use crate::swap::{
    after_park, moves_of, next_pointer, replayed, replays, swap_error, swap_plan, swapped,
};
use vstd::prelude::*;

verus! {

/// The core invariant, for a root at rest. `homes` records for each set the
/// files that belong to it. The files of the set that `pointer` names lie
/// loose in the root and its subdirectory holds none; every other set holds
/// its own files; with an empty pointer no file lies loose.
pub open spec fn quiescent(
    r: RootView,
    pointer: Seq<char>,
    homes: Map<Seq<char>, Set<Seq<char>>>,
) -> bool {
    &&& r.wf()
    &&& pointer.len() > 0 ==> r.has_set(pointer)
    &&& forall|i: int| 0 <= i < r.sets.len() ==> homes.dom().contains((#[trigger] r.sets[i]).name)
    &&& r.loose.to_set() == if pointer.len() == 0 {
        Set::empty()
    } else {
        homes[pointer]
    }
    &&& forall|i: int|
        0 <= i < r.sets.len() ==> (#[trigger] r.sets[i]).files.to_set() == if r.sets[i].name
            == pointer {
            Set::empty()
        } else {
            homes[r.sets[i].name]
        }
}

/// The record of what belongs where, taken from a root in which every file
/// is parked.
pub open spec fn homes_of(r: RootView) -> Map<Seq<char>, Set<Seq<char>>> {
    Map::new(|name: Seq<char>| r.has_set(name), |name: Seq<char>| r.files_of(name).to_set())
}

/// The root and the pointer after the swaps to `targets`, one after the
/// other. A swap that fails leaves both as they were.
pub open spec fn run(r: RootView, pointer: Seq<char>, targets: Seq<Seq<char>>) -> (
    RootView,
    Seq<char>,
)
    decreases targets.len(),
{
    if targets.len() == 0 {
        (r, pointer)
    } else if swap_error(r, pointer, targets[0]) is None {
        run(
            swapped(r, pointer, targets[0]),
            next_pointer(pointer, targets[0]),
            targets.drop_first(),
        )
    } else {
        run(r, pointer, targets.drop_first())
    }
}

proof fn lemma_no_member_no_length<A>(s: Seq<A>)
    requires
        s.to_set() == Set::<A>::empty(),
    ensures
        s.len() == 0,
{
    if s.len() > 0 {
        assert(s.contains(s[0]));
        assert(s.to_set().contains(s[0]));
    }
}

/// A root in which no file lies loose is at rest under the empty pointer,
/// with every file at home where it is.
pub proof fn lemma_parked_root_is_quiescent(r: RootView)
    requires
        r.wf(),
        r.loose.len() == 0,
    ensures
        quiescent(r, Seq::empty(), homes_of(r)),
{
    assert(r.loose.to_set() =~= Set::empty());
    assert forall|i: int| 0 <= i < r.sets.len() implies homes_of(r).dom().contains(
        (#[trigger] r.sets[i]).name,
    ) && r.sets[i].files.to_set() == homes_of(r)[r.sets[i].name] by {
        lemma_index_of_set(r, i);
    }
}

/// In a root at rest a swap to any set of the catalog goes through, and
/// leaves the root at rest under the new pointer.
pub proof fn lemma_swap_keeps_quiescent(
    r: RootView,
    pointer: Seq<char>,
    target: Seq<char>,
    homes: Map<Seq<char>, Set<Seq<char>>>,
)
    requires
        quiescent(r, pointer, homes),
        r.has_set(target),
    ensures
        swap_error(r, pointer, target) is None,
        quiescent(swapped(r, pointer, target), next_pointer(pointer, target), homes),
{
    let it = r.index_of(target);
    assert(r.catalog()[it] == target);
    let mid = after_park(r, pointer);
    if pointer.len() > 0 {
        let ip = r.index_of(pointer);
        assert(r.catalog()[ip] == pointer);
        lemma_no_member_no_length(r.sets[ip].files);
        assert(!collides(r.loose, r.files_of(pointer)));
        assert(park_error(r, pointer) is None);
        assert(mid.catalog() =~= r.catalog());
        if r.loose.len() > 0 {
            assert(mid.sets[ip].files =~= r.loose);
        } else {
            assert(r.loose.to_set() =~= Set::empty());
        }
        assert(mid.loose.len() == 0);
    } else {
        lemma_no_member_no_length(r.loose);
    }
    assert(mid.loose =~= Seq::empty());
    assert(mid.loose.to_set() =~= Set::empty());
    assert(mid.wf());
    assert(quiescent(mid, Seq::empty(), homes));
    if pointer != target {
        assert(mid.has_set(target));
        assert(mid.index_of(target) == it) by {
            lemma_index_of_set(mid, it);
        }
        assert(!collides(mid.files_of(target), mid.loose));
        assert(pull_error(mid, target) is None);
        let end = pulled(mid, target);
        assert(end.catalog() =~= r.catalog());
        assert(end.loose =~= mid.sets[it].files);
        assert(end.sets[it].files.to_set() =~= Set::empty());
    }
}

/// After any number of swaps from a root in which every file is parked, the
/// root is at rest under the pointer that the swaps have left: the loose
/// files are those of the set that the pointer names.
pub proof fn lemma_run_keeps_quiescent(
    r: RootView,
    pointer: Seq<char>,
    targets: Seq<Seq<char>>,
    homes: Map<Seq<char>, Set<Seq<char>>>,
)
    requires
        quiescent(r, pointer, homes),
    ensures
        quiescent(run(r, pointer, targets).0, run(r, pointer, targets).1, homes),
    decreases targets.len(),
{
    if targets.len() > 0 {
        if swap_error(r, pointer, targets[0]) is None {
            lemma_swap_keeps_quiescent(r, pointer, targets[0], homes);
            lemma_run_keeps_quiescent(
                swapped(r, pointer, targets[0]),
                next_pointer(pointer, targets[0]),
                targets.drop_first(),
                homes,
            );
        } else {
            lemma_run_keeps_quiescent(r, pointer, targets.drop_first(), homes);
        }
    }
}

/// From a root in which every file is parked and no set is active, any
/// number of swaps leaves the loose files those of the set that the pointer
/// names, and every other set with the files it held at the start.
pub proof fn lemma_run_from_rest(r: RootView, targets: Seq<Seq<char>>)
    requires
        r.wf(),
        r.loose.len() == 0,
    ensures
        quiescent(
            run(r, Seq::empty(), targets).0,
            run(r, Seq::empty(), targets).1,
            homes_of(r),
        ),
{
    lemma_parked_root_is_quiescent(r);
    lemma_run_keeps_quiescent(r, Seq::empty(), targets, homes_of(r));
}

/// Asking for the active set again leaves no set active and no file loose:
/// the files that lay loose are back in the set, however many they were.
pub proof fn lemma_toggle_parks_all(
    r: RootView,
    active: Seq<char>,
    homes: Map<Seq<char>, Set<Seq<char>>>,
)
    requires
        quiescent(r, active, homes),
        active.len() > 0,
    ensures
        swap_error(r, active, active) is None,
        next_pointer(active, active) == Seq::<char>::empty(),
        swapped(r, active, active).loose.len() == 0,
        swapped(r, active, active).files_of(active) == r.loose,
        swapped(r, active, active).files_of(active).to_set() == homes[active],
        swapped(r, active, active).catalog() == r.catalog(),
{
    lemma_swap_keeps_quiescent(r, active, active, homes);
    let i = r.index_of(active);
    assert(r.catalog()[i] == active);
    lemma_no_member_no_length(r.sets[i].files);
    let end = swapped(r, active, active);
    assert(end.catalog() =~= r.catalog());
    lemma_index_of_set(end, i);
    assert(end.files_of(active) =~= r.loose);
}

/// A set without files can be active: no file lies loose then. The swap
/// away from it parks nothing, and pulls the files of the next set as any
/// swap does.
pub proof fn lemma_swap_through_empty_set(
    r: RootView,
    pointer: Seq<char>,
    hollow: Seq<char>,
    target: Seq<char>,
    homes: Map<Seq<char>, Set<Seq<char>>>,
)
    requires
        quiescent(r, pointer, homes),
        r.has_set(hollow),
        hollow != pointer,
        r.files_of(hollow).len() == 0,
        r.has_set(target),
        target != hollow,
    ensures
        swap_error(r, pointer, hollow) is None,
        next_pointer(pointer, hollow) == hollow,
        swapped(r, pointer, hollow).loose.len() == 0,
        swap_error(swapped(r, pointer, hollow), hollow, target) is None,
        after_park(swapped(r, pointer, hollow), hollow) == swapped(r, pointer, hollow),
        swapped(swapped(r, pointer, hollow), hollow, target) == pulled(
            swapped(r, pointer, hollow),
            target,
        ),
        swapped(swapped(r, pointer, hollow), hollow, target).loose == swapped(
            r,
            pointer,
            hollow,
        ).files_of(target),
        next_pointer(hollow, target) == target,
{
    lemma_swap_keeps_quiescent(r, pointer, hollow, homes);
    let first = swapped(r, pointer, hollow);
    let ih = r.index_of(hollow);
    assert(r.catalog()[ih] == hollow);
    assert(r.files_of(hollow) =~= Seq::empty());
    assert(homes[hollow] =~= Set::empty());
    lemma_no_member_no_length(first.loose);
    let mid = after_park(r, pointer);
    assert(mid.catalog() =~= r.catalog());
    assert(first.catalog() =~= r.catalog());
    assert(first.has_set(target));
    lemma_swap_keeps_quiescent(first, hollow, target, homes);
    assert(pulled(first, target).loose =~= first.files_of(target));
}

/// Moves made one after the other: first `a`, then `b` on what `a` leaves.
pub proof fn lemma_replay_in_two(r: RootView, a: Seq<RelocationView>, b: Seq<RelocationView>)
    ensures
        replays(r, a + b) == (replays(r, a) && replays(replayed(r, a), b)),
        replayed(r, a + b) == replayed(replayed(r, a), b),
    decreases a.len(),
{
    if a.len() == 0 {
        assert(a + b =~= b);
    } else {
        assert((a + b).drop_first() =~= a.drop_first() + b);
        lemma_replay_in_two(relocated(r, a[0]), a.drop_first(), b);
    }
}

/// Parking the loose files one by one, first to last, is the park phase.
pub proof fn lemma_replay_park(r: RootView, set: Seq<char>)
    requires
        r.wf(),
        r.has_set(set),
        !collides(r.loose, r.files_of(set)),
    ensures
        replays(r, moves_of(r.loose, set, Phase::Park)),
        replayed(r, moves_of(r.loose, set, Phase::Park)) == parked(r, set),
    decreases r.loose.len(),
{
    let moves = moves_of(r.loose, set, Phase::Park);
    let i = r.index_of(set);
    assert(r.catalog()[i] == set);
    if r.loose.len() > 0 {
        let file = r.loose[0];
        let next = relocated(r, moves[0]);
        assert(r.loose.contains(file));
        assert(r.loose.index_of(file) == 0);
        assert(next.loose =~= r.loose.drop_first());
        assert(next.catalog() =~= r.catalog());
        assert(next.sets[i].files.no_duplicates());
        assert(next.wf());
        lemma_index_of_set(next, i);
        assert(moves.drop_first() =~= moves_of(next.loose, set, Phase::Park));
        assert forall|k: int| 0 <= k < next.loose.len() implies !next.files_of(set).contains(
            #[trigger] next.loose[k],
        ) by {
            assert(next.loose[k] == r.loose[k + 1]);
        }
        lemma_replay_park(next, set);
        if next.loose.len() > 0 {
            assert(parked(next, set).sets[i].files =~= parked(r, set).sets[i].files);
            assert(parked(next, set).sets =~= parked(r, set).sets);
        } else {
            assert(next.sets[i].files =~= parked(r, set).sets[i].files);
            assert(next.sets =~= parked(r, set).sets);
            assert(next.loose =~= parked(r, set).loose);
        }
    }
}

/// Pulling the files of a set one by one, first to last, is the pull phase.
pub proof fn lemma_replay_pull(r: RootView, set: Seq<char>)
    requires
        r.wf(),
        r.has_set(set),
        !collides(r.files_of(set), r.loose),
    ensures
        replays(r, moves_of(r.files_of(set), set, Phase::Pull)),
        replayed(r, moves_of(r.files_of(set), set, Phase::Pull)) == pulled(r, set),
    decreases r.files_of(set).len(),
{
    let files = r.files_of(set);
    let moves = moves_of(files, set, Phase::Pull);
    let i = r.index_of(set);
    assert(r.catalog()[i] == set);
    if files.len() > 0 {
        let file = files[0];
        let next = relocated(r, moves[0]);
        assert(files.contains(file));
        assert(files.index_of(file) == 0);
        assert(next.sets[i].files =~= files.drop_first());
        assert(next.catalog() =~= r.catalog());
        assert(next.loose.no_duplicates());
        assert(next.wf());
        lemma_index_of_set(next, i);
        assert(moves.drop_first() =~= moves_of(next.files_of(set), set, Phase::Pull));
        assert forall|k: int| 0 <= k < next.files_of(set).len() implies !next.loose.contains(
            #[trigger] next.files_of(set)[k],
        ) by {
            assert(next.files_of(set)[k] == files[k + 1]);
        }
        lemma_replay_pull(next, set);
        assert(pulled(next, set).loose =~= pulled(r, set).loose);
        assert(pulled(next, set).sets =~= pulled(r, set).sets);
    } else {
        assert(files =~= Seq::empty());
        assert(pulled(r, set).loose =~= r.loose);
        assert(pulled(r, set).sets =~= r.sets);
    }
}

/// The plan of a swap that goes through is the swap: made one after the
/// other, its moves all go through, and they leave the root as the swap
/// leaves it.
pub proof fn lemma_plan_is_the_swap(r: RootView, current: Seq<char>, target: Seq<char>)
    requires
        r.wf(),
        swap_error(r, current, target) is None,
    ensures
        replays(r, swap_plan(r, current, target)),
        replayed(r, swap_plan(r, current, target)) == swapped(r, current, target),
{
    let park = if current.len() > 0 {
        moves_of(r.loose, current, Phase::Park)
    } else {
        Seq::empty()
    };
    let pull = if current != target {
        moves_of(r.files_of(target), target, Phase::Pull)
    } else {
        Seq::empty()
    };
    let mid = after_park(r, current);
    if current.len() > 0 && r.loose.len() > 0 {
        lemma_replay_park(r, current);
        crate::swap::lemma_parked_shape(r, current);
    }
    assert(replays(r, park) && replayed(r, park) == mid);
    assert(mid.wf());
    if current != target {
        assert(mid.files_of(target) == r.files_of(target));
        lemma_replay_pull(mid, target);
    }
    lemma_replay_in_two(r, park, pull);
}

} // verus!
