//! The swap engine: park what is active, then pull what was asked for.

use crate::error::{EngineError, ErrorView, Phase};
use crate::root::{
    collides, names_of, park_error, parked, pull_error, pulled, relocated, relocation_error,
    Relocation, RelocationView, Root, RootView,
};
use vstd::prelude::*;

verus! {

/// The root after the park phase of a swap away from `current`. With no set
/// active there is nothing to park.
pub open spec fn after_park(r: RootView, current: Seq<char>) -> RootView {
    if current.len() > 0 {
        parked(r, current)
    } else {
        r
    }
}

/// Why a swap from `current` to `target` does not go through, if it does not.
/// The target is looked up first, then the park phase is checked, then the
/// pull phase on what the park phase leaves.
pub open spec fn swap_error(r: RootView, current: Seq<char>, target: Seq<char>) -> Option<
    ErrorView,
> {
    if !r.has_set(target) {
        Some(ErrorView::InvalidTarget)
    } else if current.len() > 0 && park_error(r, current) is Some {
        park_error(r, current)
    } else if current != target {
        pull_error(after_park(r, current), target)
    } else {
        None
    }
}

/// The root after a swap from `current` to `target`. Asking for the active
/// set again parks it and pulls nothing.
pub open spec fn swapped(r: RootView, current: Seq<char>, target: Seq<char>) -> RootView {
    if current == target {
        after_park(r, current)
    } else {
        pulled(after_park(r, current), target)
    }
}

/// The pointer after a swap from `current` to `target`: empty where the
/// active set was asked for again.
pub open spec fn next_pointer(current: Seq<char>, target: Seq<char>) -> Seq<char> {
    if current == target {
        Seq::empty()
    } else {
        target
    }
}

/// One move for each of `files`, in order.
pub open spec fn moves_of(files: Seq<Seq<char>>, set: Seq<char>, phase: Phase) -> Seq<
    RelocationView,
> {
    Seq::new(files.len(), |i: int| RelocationView { file: files[i], set, phase })
}

/// The moves that make up a swap from `current` to `target`, in the order in
/// which they are made: the loose files go into `current`, first to last,
/// then the files of `target` come out, first to last.
pub open spec fn swap_plan(r: RootView, current: Seq<char>, target: Seq<char>) -> Seq<
    RelocationView,
> {
    let park = if current.len() > 0 {
        moves_of(r.loose, current, Phase::Park)
    } else {
        Seq::empty()
    };
    let pull = if current != target {
        moves_of(r.files_of(target), target, Phase::Pull)
    } else {
        Seq::empty()
    };
    park + pull
}

/// A plan as the contracts see it.
pub open spec fn plan_of(plan: Seq<Relocation>) -> Seq<RelocationView> {
    plan.map_values(|m: Relocation| m@)
}

/// Whether every one of `moves` goes through, made one after the other.
pub open spec fn replays(r: RootView, moves: Seq<RelocationView>) -> bool
    decreases moves.len(),
{
    moves.len() == 0 || (relocation_error(r, moves[0]) is None && replays(
        relocated(r, moves[0]),
        moves.drop_first(),
    ))
}

/// The root after `moves` have been made, one after the other.
pub open spec fn replayed(r: RootView, moves: Seq<RelocationView>) -> RootView
    decreases moves.len(),
{
    if moves.len() == 0 {
        r
    } else {
        replayed(relocated(r, moves[0]), moves.drop_first())
    }
}

/// Parking changes no set's name, and leaves no file loose.
pub proof fn lemma_parked_shape(r: RootView, set: Seq<char>)
    requires
        r.wf(),
        park_error(r, set) is None,
    ensures
        parked(r, set).catalog() == r.catalog(),
        parked(r, set).loose.len() == 0,
        parked(r, set).record == r.record,
        forall|other: Seq<char>|
            other != set && r.has_set(other) ==> #[trigger] parked(r, set).files_of(other)
                == r.files_of(other),
{
    let p = parked(r, set);
    if r.loose.len() > 0 {
        let i = r.index_of(set);
        assert(r.catalog().contains(set));
        assert(r.catalog()[i] == set);
        assert(p.catalog() =~= r.catalog());
        assert forall|other: Seq<char>| other != set && r.has_set(other) implies #[trigger] p.files_of(
            other,
        ) == r.files_of(other) by {
            let j = r.index_of(other);
            assert(r.catalog().contains(other));
            assert(r.catalog()[j] == other);
            assert(j != i);
        }
    }
}

/// Whether a swap from `current_config` to `next_config` would go through.
pub fn check_swap(root: &Root, current_config: &str, next_config: &str) -> (result: Result<
    (),
    EngineError,
>)
    requires
        root@.wf(),
    ensures
        match result {
            Ok(()) => swap_error(root@, current_config@, next_config@) is None,
            Err(e) => swap_error(root@, current_config@, next_config@) == Some(e@),
        },
{
    if root.position(next_config).is_none() {
        return Err(EngineError::InvalidTarget);
    }
    let active = current_config.unicode_len() > 0;
    if active {
        match root.check_park(current_config) {
            Err(e) => {
                return Err(e);
            },
            Ok(()) => {},
        }
        proof {
            lemma_parked_shape(root@, current_config@);
            let p = parked(root@, current_config@);
            assert(!collides(p.files_of(next_config@), p.loose));
        }
        Ok(())
    } else {
        root.check_pull(next_config)
    }
}

/// Swaps the active set. The files that lie loose in the root go back into
/// the set called `current_config`, unless that name is empty; then the files
/// of the set called `next_config` come out into the root, unless that set is
/// the one that was active. Returns the new pointer: `next_config`, or the
/// empty pointer where the active set was asked for again.
///
/// Everything is checked before anything moves: on an error the root is as it
/// was.
pub fn swap_configs(root: &mut Root, current_config: &str, next_config: &str) -> (result: Result<
    String,
    EngineError,
>)
    requires
        old(root)@.wf(),
    ensures
        final(root)@.wf(),
        match result {
            Ok(pointer) => {
                &&& swap_error(old(root)@, current_config@, next_config@) is None
                &&& pointer@ == next_pointer(current_config@, next_config@)
                &&& final(root)@ == swapped(old(root)@, current_config@, next_config@)
            },
            Err(e) => {
                &&& swap_error(old(root)@, current_config@, next_config@) == Some(e@)
                &&& final(root)@ == old(root)@
            },
        },
{
    match check_swap(root, current_config, next_config) {
        Err(e) => {
            return Err(e);
        },
        Ok(()) => {},
    }
    let toggle = current_config.to_owned() == next_config.to_owned();
    if current_config.unicode_len() > 0 {
        match root.park(current_config) {
            Err(e) => {
                return Err(e);
            },
            Ok(()) => {},
        }
    }
    if toggle {
        return Ok(String::new());
    }
    match root.pull(next_config) {
        Err(e) => Err(e),
        Ok(()) => Ok(next_config.to_owned()),
    }
}

/// Appends to `plan` one move for each of `files`, in order.
fn push_moves(plan: &mut Vec<Relocation>, files: &Vec<String>, set: &str, phase: Phase)
    ensures
        plan_of(final(plan)@) == plan_of(old(plan)@) + moves_of(names_of(files@), set@, phase),
{
    let ghost before = plan_of(plan@);
    let mut i: usize = 0;
    while i < files.len()
        invariant
            i <= files.len(),
            plan.len() == before.len() + i,
            forall|j: int| 0 <= j < before.len() ==> plan@[j]@ == before[j],
            forall|j: int|
                0 <= j < i ==> plan@[before.len() + j]@ == (RelocationView {
                    file: files@[j]@,
                    set: set@,
                    phase,
                }),
        decreases files.len() - i,
    {
        plan.push(Relocation { file: files[i].clone(), set: set.to_owned(), phase });
        i += 1;
    }
    assert(plan_of(plan@) =~= before + moves_of(names_of(files@), set@, phase));
}

/// What a swap comes to: the moves to make, in the order in which to make
/// them, and the pointer that the swap leaves.
#[derive(Debug, PartialEq, Eq)]
pub struct SwapPlan {
    pub moves: Vec<Relocation>,
    pub pointer: String,
}

/// Plans a swap from `current_config` to `next_config`: its moves and the
/// pointer it leaves, or the reason for which the swap would not go through.
/// The root is only read.
pub fn plan_swap(root: &Root, current_config: &str, next_config: &str) -> (result: Result<
    SwapPlan,
    EngineError,
>)
    requires
        root@.wf(),
    ensures
        match result {
            Ok(plan) => {
                &&& swap_error(root@, current_config@, next_config@) is None
                &&& plan_of(plan.moves@) == swap_plan(root@, current_config@, next_config@)
                &&& plan.pointer@ == next_pointer(current_config@, next_config@)
            },
            Err(e) => swap_error(root@, current_config@, next_config@) == Some(e@),
        },
{
    match check_swap(root, current_config, next_config) {
        Err(e) => {
            return Err(e);
        },
        Ok(()) => {},
    }
    let mut moves: Vec<Relocation> = Vec::new();
    assert(plan_of(moves@) =~= Seq::empty());
    if current_config.unicode_len() > 0 {
        push_moves(&mut moves, &root.loose_files(), current_config, Phase::Park);
    }
    let toggle = current_config.to_owned() == next_config.to_owned();
    if !toggle {
        match root.files_in(next_config) {
            Some(files) => {
                push_moves(&mut moves, &files, next_config, Phase::Pull);
            },
            None => {},
        }
    }
    assert(plan_of(moves@) =~= swap_plan(root@, current_config@, next_config@));
    let pointer = if toggle {
        String::new()
    } else {
        next_config.to_owned()
    };
    Ok(SwapPlan { moves, pointer })
}

} // verus!
