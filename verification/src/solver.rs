//! The two-phase solver: a recursive depth-first search over the eighteen
//! moves, bounded by an iteratively deepened depth limit and pruned by the
//! same search-order rule as the table generator. On success the returned
//! sequence provably reaches the goal; on failure provably no compliant
//! sequence within the bound does.

use crate::cube::{id_model, Cube, CubeModel};
use crate::errors::CubeError;
use crate::moves::{
    apply_moves, compliant_after, initialize_all_moves, lemma_compliant_extend,
    lemma_compliant_suffix, move_allowed, move_model, move_of_index, pruning_compliant, Move,
};
use vstd::prelude::*;

verus! {

/// What the search is after: the phase-1 subgroup, or the fully solved cube.
#[derive(Clone, Copy, Debug, PartialEq, Eq, Structural)]
pub enum SearchGoal {
    /// Every edge orientation zero.
    Phase1,
    /// The solved state itself.
    Solved,
}

/// Whether a state meets the goal.
pub open spec fn goal_reached(goal: SearchGoal, m: CubeModel) -> bool {
    match goal {
        SearchGoal::Phase1 => m.phase1_solved(),
        SearchGoal::Solved => m == id_model(),
    }
}

/// One node of the solver's depth-first search: returns a compliant sequence
/// of at most `depth_left` moves that reaches the goal from `cube`, or
/// reports that none exists.
#[verifier::loop_isolation(false)]
fn dfs(
    goal: SearchGoal,
    cube: &Cube,
    depth_left: u8,
    last: Option<Move>,
    last2: Option<Move>,
    all_moves: &Vec<Cube>,
) -> (r: Option<Vec<Move>>)
    requires
        cube@.wf(),
        all_moves@.len() == 18,
        forall|i: int|
            0 <= i < 18 ==> (#[trigger] all_moves@[i])@ == move_model(move_of_index(i))
                && all_moves@[i]@.wf(),
    ensures
        r matches Some(ms) ==> ms@.len() <= depth_left && goal_reached(
            goal,
            apply_moves(cube@, ms@),
        ) && compliant_after(last2, last, ms@),
        r is None ==> forall|ms: Seq<Move>|
            ms.len() <= depth_left && compliant_after(last2, last, ms) ==> !goal_reached(
                goal,
                #[trigger] apply_moves(cube@, ms),
            ),
        goal_reached(goal, cube@) ==> (r matches Some(ms) && ms@.len() == 0),
    decreases depth_left,
{
    let at_goal = match goal {
        SearchGoal::Phase1 => cube.is_solved_phase_1(),
        SearchGoal::Solved => {
            let solved = Cube::new_default();
            *cube == solved
        },
    };
    if at_goal {
        let empty: Vec<Move> = Vec::new();
        proof {
            assert(apply_moves(cube@, empty@) == cube@);
        }
        return Some(empty);
    }
    if depth_left == 0 {
        proof {
            assert forall|ms: Seq<Move>|
                ms.len() <= 0 && compliant_after(last2, last, ms) implies !goal_reached(
                goal,
                #[trigger] apply_moves(cube@, ms),
            ) by {
                assert(ms =~= Seq::<Move>::empty());
            }
        }
        return None;
    }
    let mut i_mov: u8 = 0;
    while i_mov < 18
        invariant
            i_mov <= 18,
            forall|ms: Seq<Move>|
                1 <= ms.len() <= depth_left && compliant_after(last2, last, ms)
                    && ms[0].as_index() < i_mov ==> !goal_reached(
                    goal,
                    #[trigger] apply_moves(cube@, ms),
                ),
        decreases 18 - i_mov,
    {
        let mov = match Move::from_index(i_mov) {
            Ok(m) => m,
            Err(_) => {
                return None;
            },
        };
        let skip = match (last, last2) {
            (Some(p), Some(p2)) => mov.is_same_slice(p) || (mov.is_opposed_slice(p)
                && mov.is_same_slice(p2)),
            (Some(p), None) => mov.is_same_slice(p),
            _ => false,
        };
        proof {
            assert(skip == !move_allowed(last2, last, mov));
        }
        if !skip {
            let mut next = *cube;
            next.multiply(all_moves[i_mov as usize]);
            let sub = dfs(goal, &next, depth_left - 1, Some(mov), last, all_moves);
            match sub {
                Some(mut ms) => {
                    let ghost sub_view = ms@;
                    ms.insert(0, mov);
                    proof {
                        assert(ms@[0] == mov);
                        assert(ms@.drop_first() =~= sub_view);
                        assert(apply_moves(cube@, ms@) == apply_moves(next@, sub_view));
                        assert(compliant_after(last, Some(mov), sub_view));
                        assert(compliant_after(last2, last, ms@));
                    }
                    return Some(ms);
                },
                None => {
                    proof {
                        assert forall|ms: Seq<Move>|
                            1 <= ms.len() <= depth_left && compliant_after(last2, last, ms)
                                && ms[0].as_index() < i_mov + 1 implies !goal_reached(
                            goal,
                            #[trigger] apply_moves(cube@, ms),
                        ) by {
                            if ms[0].as_index() == i_mov {
                                assert(ms[0] == mov);
                                let rest = ms.drop_first();
                                assert(compliant_after(last, Some(mov), rest));
                                assert(rest.len() <= depth_left - 1);
                                assert(apply_moves(next@, rest) == apply_moves(cube@, ms));
                                assert(!goal_reached(goal, apply_moves(next@, rest)));
                            }
                        }
                    }
                },
            }
        } else {
            proof {
                assert forall|ms: Seq<Move>|
                    1 <= ms.len() <= depth_left && compliant_after(last2, last, ms)
                        && ms[0].as_index() < i_mov + 1 implies !goal_reached(
                    goal,
                    #[trigger] apply_moves(cube@, ms),
                ) by {
                    if ms[0].as_index() == i_mov {
                        assert(ms[0] == mov);
                        assert(move_allowed(last2, last, ms[0]));
                        assert(false);
                    }
                }
            }
        }
        i_mov = i_mov + 1;
    }
    proof {
        assert forall|ms: Seq<Move>|
            ms.len() <= depth_left && compliant_after(last2, last, ms) implies !goal_reached(
            goal,
            #[trigger] apply_moves(cube@, ms),
        ) by {
            if ms.len() == 0 {
                assert(apply_moves(cube@, ms) == cube@);
            } else {
                assert(ms[0].as_index() < 18);
            }
        }
    }
    None
}

/// Search for a move sequence of at most `max_depth` moves that brings `cube`
/// to the goal, deepening the depth bound one move at a time. On success the
/// sequence obeys the search-order rule, provably reaches the goal, and no
/// shorter compliant sequence does, so shorter solutions are never missed;
/// the exhaustion error is definite: no compliant sequence within the bound
/// reaches the goal.
#[verifier::loop_isolation(false)]
pub fn find_solution(goal: SearchGoal, cube: &Cube, max_depth: u8) -> (r: Result<
    Vec<Move>,
    CubeError,
>)
    requires
        cube@.wf(),
    ensures
        r matches Ok(ms) ==> ms@.len() <= max_depth && pruning_compliant(ms@) && goal_reached(
            goal,
            apply_moves(cube@, ms@),
        ),
        r matches Ok(ms) ==> forall|ms2: Seq<Move>|
            ms2.len() < ms@.len() && pruning_compliant(ms2) ==> !goal_reached(
                goal,
                #[trigger] apply_moves(cube@, ms2),
            ),
        goal_reached(goal, cube@) ==> (r matches Ok(ms) && ms@.len() == 0),
        r is Err ==> r == Err::<Vec<Move>, CubeError>(CubeError::SolverExhausted) && forall|
            ms: Seq<Move>,
        |
            ms.len() <= max_depth && pruning_compliant(ms) ==> !goal_reached(
                goal,
                #[trigger] apply_moves(cube@, ms),
            ),
{
    let all_moves = initialize_all_moves();
    let mut bound: u8 = 0;
    while bound < max_depth
        invariant
            bound <= max_depth,
            forall|ms2: Seq<Move>|
                ms2.len() < bound && pruning_compliant(ms2) ==> !goal_reached(
                    goal,
                    #[trigger] apply_moves(cube@, ms2),
                ),
        decreases max_depth - bound,
    {
        match dfs(goal, cube, bound, None, None, &all_moves) {
            Some(ms) => {
                proof {
                    lemma_compliant_extend(Seq::<Move>::empty(), ms@);
                    assert(Seq::<Move>::empty().add(ms@) =~= ms@);
                }
                return Ok(ms);
            },
            None => {
                proof {
                    assert forall|ms2: Seq<Move>|
                        ms2.len() < bound + 1 && pruning_compliant(ms2) implies !goal_reached(
                        goal,
                        #[trigger] apply_moves(cube@, ms2),
                    ) by {
                        lemma_compliant_suffix(ms2, 0);
                        assert(ms2.take(0) =~= Seq::<Move>::empty());
                        assert(ms2.skip(0) =~= ms2);
                    }
                }
            },
        }
        bound = bound + 1;
    }
    match dfs(goal, cube, max_depth, None, None, &all_moves) {
        Some(ms) => {
            proof {
                lemma_compliant_extend(Seq::<Move>::empty(), ms@);
                assert(Seq::<Move>::empty().add(ms@) =~= ms@);
            }
            Ok(ms)
        },
        None => {
            proof {
                assert forall|ms: Seq<Move>|
                    ms.len() <= max_depth && pruning_compliant(ms) implies !goal_reached(
                    goal,
                    #[trigger] apply_moves(cube@, ms),
                ) by {
                    lemma_compliant_suffix(ms, 0);
                    assert(ms.take(0) =~= Seq::<Move>::empty());
                    assert(ms.skip(0) =~= ms);
                }
            }
            Err(CubeError::SolverExhausted)
        },
    }
}

/// The phase-1 pruning table and solver: remembers where its table file
/// lives, and searches for a sequence into the phase-1 subgroup.
pub struct TablePhase1 {
    pub file_path: String,
}

impl TablePhase1 {
    /// A phase-1 table handle over the given file path.
    pub fn new(path: String) -> (r: TablePhase1)
        ensures
            r.file_path@ == path@,
    {
        TablePhase1 { file_path: path }
    }

    /// Search for a sequence of at most `max_depth` moves that brings `cube`
    /// into the phase-1 subgroup, where no edge is flipped. A found sequence
    /// is as short as any compliant one; the exhaustion error is definite.
    pub fn find_solution_to_g1(&self, cube: Cube, max_depth: u8) -> (r: Result<Vec<Move>, CubeError>)
        requires
            cube@.wf(),
        ensures
            r matches Ok(ms) ==> ms@.len() <= max_depth && pruning_compliant(ms@) && apply_moves(
                cube@,
                ms@,
            ).phase1_solved(),
            r matches Ok(ms) ==> forall|ms2: Seq<Move>|
                ms2.len() < ms@.len() && pruning_compliant(ms2) ==> !(#[trigger] apply_moves(
                    cube@,
                    ms2,
                )).phase1_solved(),
            cube@.phase1_solved() ==> (r matches Ok(ms) && ms@.len() == 0),
            r is Err ==> r == Err::<Vec<Move>, CubeError>(CubeError::SolverExhausted) && forall|
                ms: Seq<Move>,
            |
                ms.len() <= max_depth && pruning_compliant(ms) ==> !apply_moves(
                    cube@,
                    ms,
                ).phase1_solved(),
    {
        let r = find_solution(SearchGoal::Phase1, &cube, max_depth);
        proof {
            if r is Err {
                assert forall|ms: Seq<Move>|
                    ms.len() <= max_depth && pruning_compliant(ms) implies !(
                #[trigger] apply_moves(cube@, ms)).phase1_solved() by {
                    assert(!goal_reached(SearchGoal::Phase1, apply_moves(cube@, ms)));
                }
            }
            if let Ok(ref ms) = r {
                assert forall|ms2: Seq<Move>|
                    ms2.len() < ms@.len() && pruning_compliant(ms2) implies !(
                #[trigger] apply_moves(cube@, ms2)).phase1_solved() by {
                    assert(!goal_reached(SearchGoal::Phase1, apply_moves(cube@, ms2)));
                }
            }
        }
        r
    }
}

} // verus!
