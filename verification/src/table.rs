//! Pruning-table generation: a bounded, pruned exhaustive search over move
//! sequences from the solved state, recording for each coordinate value the
//! shortest sequence found that reaches it. The root of the search tree is
//! partitioned across six independent workers whose partial tables are merged
//! by taking, per coordinate, the sequence with the smaller move count.

use crate::coord::{flip_of, twist_of};
use crate::cube::{id_model, Cube, CubeModel};
use crate::errors::CubeError;
use crate::moves::{
    apply_moves, compliant_after, ctx_last, ctx_last2, initialize_all_moves, move_allowed,
    move_model, move_of_index, pruning_compliant, Move,
};
use vstd::prelude::*;

verus! {

/// Which coordinate a pruning table is indexed by.
#[derive(Clone, Copy, Debug, PartialEq, Eq, Structural)]
pub enum TableKind {
    /// The phase-1 table over the edge-orientation coordinate.
    EdgeFlip,
    /// The phase-2 table over the corner-orientation coordinate, restricted
    /// to states whose up-layer edge slots hold up- or down-layer edges.
    CornerTwist,
}

/// How many coordinate values a table of this kind indexes.
pub open spec fn table_len(kind: TableKind) -> int {
    match kind {
        TableKind::EdgeFlip => 2048,
        TableKind::CornerTwist => 2187,
    }
}

/// The coordinate of a state under a table kind.
pub open spec fn coord_of(kind: TableKind, m: CubeModel) -> int {
    match kind {
        TableKind::EdgeFlip => flip_of(m),
        TableKind::CornerTwist => twist_of(m),
    }
}

/// The up-layer edge criterion of the corner-twist table, over the edge
/// permutation: each checked up-layer slot holds one of the named up- or
/// down-layer pieces.
pub open spec fn mid_edges_placed(ep: Seq<u8>) -> bool {
    ||| ep[0] == 0
    ||| ep[0] == 2
    ||| ep[0] == 4
    ||| (ep[0] == 6 && ep[2] == 0)
    ||| ep[2] == 2
    ||| ep[2] == 4
    ||| (ep[2] == 6 && ep[4] == 0)
    ||| ep[4] == 2
    ||| ep[4] == 4
    ||| (ep[4] == 6 && ep[6] == 0)
    ||| ep[6] == 2
    ||| ep[6] == 4
    ||| ep[6] == 6
}

/// Whether a state may be recorded in a table of this kind.
pub open spec fn kind_admits(kind: TableKind, m: CubeModel) -> bool {
    match kind {
        TableKind::EdgeFlip => true,
        TableKind::CornerTwist => mid_edges_placed(m.ep),
    }
}

/// The physical move count of a sequence: a half turn weighs 2, a quarter or
/// reverse quarter turn weighs 1.
pub open spec fn move_count_spec(ms: Seq<Move>) -> int
    decreases ms.len(),
{
    if ms.len() == 0 {
        0
    } else {
        move_count_spec(ms.drop_last()) + if ms.last().turns() == 2 {
            2int
        } else {
            1int
        }
    }
}

/// A sequence weighs at least one per move and at most two per move.
pub proof fn lemma_move_count_bounds(ms: Seq<Move>)
    ensures
        ms.len() <= move_count_spec(ms) <= 2 * ms.len(),
    decreases ms.len(),
{
    if ms.len() > 0 {
        lemma_move_count_bounds(ms.drop_last());
    }
}

/// A table entry is sound when its sequence obeys the search-order rule and
/// leads from the solved state to an admitted state with the entry's own
/// coordinate.
pub open spec fn entry_sound(kind: TableKind, idx: int, ms: Seq<Move>) -> bool {
    &&& ms.len() <= 30
    &&& pruning_compliant(ms)
    &&& coord_of(kind, apply_moves(id_model(), ms)) == idx
    &&& kind_admits(kind, apply_moves(id_model(), ms))
}

/// An absent entry is always acceptable; a present one must be sound.
pub open spec fn entry_ok(kind: TableKind, idx: int, e: Option<Vec<Move>>) -> bool {
    match e {
        None => true,
        Some(ms) => entry_sound(kind, idx, ms@),
    }
}

/// A well-formed table has one slot per coordinate value and only sound
/// entries.
pub open spec fn table_wf(kind: TableKind, t: Seq<Option<Vec<Move>>>) -> bool {
    &&& t.len() == table_len(kind)
    &&& forall|i: int| 0 <= i < t.len() ==> entry_ok(kind, i, #[trigger] t[i])
}

/// An entry never gets worse: an absent entry may appear, a present one may
/// only be replaced by one with a move count at most as large.
pub open spec fn entry_no_worse(new: Option<Vec<Move>>, old: Option<Vec<Move>>) -> bool {
    match old {
        None => true,
        Some(ms) => new matches Some(ms2) && move_count_spec(ms2@) <= move_count_spec(ms@),
    }
}

/// The count of the moves in a sequence, a half turn counting twice.
#[verifier::loop_isolation(false)]
pub fn move_count(moves: &[Move]) -> (r: usize)
    requires
        moves@.len() <= usize::MAX / 2,
    ensures
        r == move_count_spec(moves@),
{
    let mut len: usize = 0;
    let mut i: usize = 0;
    while i < moves.len()
        invariant
            i <= moves@.len(),
            len == move_count_spec(moves@.take(i as int)),
            len <= 2 * i,
        decreases moves@.len() - i,
    {
        proof {
            assert(moves@.take(i + 1).drop_last() =~= moves@.take(i as int));
        }
        if moves[i].index() % 3 == 1 {
            len = len + 2;
        } else {
            len = len + 1;
        }
        i = i + 1;
    }
    proof {
        assert(moves@.take(moves@.len() as int) =~= moves@);
    }
    len
}

/// The up-layer edge criterion of the corner-twist table.
pub fn are_midle_edges_placed(edges: &[crate::cube::Edge; 12]) -> (r: bool)
    ensures
        r == mid_edges_placed(edges@.map_values(|e: crate::cube::Edge| e.as_index())),
{
    let e0 = edges[0].index();
    let e2 = edges[2].index();
    let e4 = edges[4].index();
    let e6 = edges[6].index();
    proof {
        let m = edges@.map_values(|e: crate::cube::Edge| e.as_index());
        assert(m[0] == e0 && m[2] == e2 && m[4] == e4 && m[6] == e6);
    }
    e0 == 0 || e0 == 2 || e0 == 4 || (e0 == 6 && e2 == 0) || e2 == 2 || e2 == 4 || (e2 == 6 && e4
        == 0) || e4 == 2 || e4 == 4 || (e4 == 6 && e6 == 0) || e6 == 2 || e6 == 4 || e6 == 6
}

/// The coordinate of a cube under a table kind, as a table index.
fn coord_index(kind: TableKind, cube: &Cube) -> (r: usize)
    requires
        cube@.wf(),
    ensures
        r == coord_of(kind, cube@),
        r < table_len(kind),
{
    match kind {
        TableKind::EdgeFlip => cube.get_flip() as usize,
        TableKind::CornerTwist => cube.get_twist() as usize,
    }
}

/// The entry is present and weighs no more than `c`.
pub open spec fn entry_at_most(e: Option<Vec<Move>>, c: int) -> bool {
    e matches Some(ms) && move_count_spec(ms@) <= c
}

/// The coordinate of a well-formed state indexes into its table.
pub proof fn lemma_coord_in_range(kind: TableKind, m: CubeModel)
    requires
        m.wf(),
    ensures
        0 <= coord_of(kind, m) < table_len(kind),
{
    match kind {
        TableKind::EdgeFlip => {
            crate::coord::lemma_base_encode_bound(m.eo.take(11), 2);
            reveal_with_fuel(crate::coord::base_pow, 13);
            assert(crate::coord::base_pow(2, 11) == 2048);
        },
        TableKind::CornerTwist => {
            crate::coord::lemma_base_encode_bound(m.co.take(7), 3);
            reveal_with_fuel(crate::coord::base_pow, 9);
            assert(crate::coord::base_pow(3, 7) == 2187);
        },
    }
}

/// One node of the depth-first search: record the current state's coordinate
/// when the path here weighs less than the best known, then try every move
/// that the search-order rule allows, to the depth bound. Afterwards the
/// table is no heavier, at the current coordinate, than the path here, and no
/// heavier, at the coordinate of any admitted state that a compliant
/// continuation within the bound reaches, than that continuation.
#[verifier::loop_isolation(false)]
#[verifier::rlimit(60)]
pub fn create_table_vec_rec(
    kind: TableKind,
    cube: &Cube,
    table: &mut Vec<Option<Vec<Move>>>,
    depth: usize,
    moves_done: &mut Vec<Move>,
    max_depth: usize,
    all_moves: &Vec<Cube>,
)
    requires
        table_wf(kind, old(table)@),
        cube@ == apply_moves(id_model(), old(moves_done)@),
        cube@.wf(),
        pruning_compliant(old(moves_done)@),
        depth == old(moves_done)@.len(),
        depth <= max_depth <= 30,
        all_moves@.len() == 18,
        forall|i: int|
            0 <= i < 18 ==> (#[trigger] all_moves@[i])@ == move_model(move_of_index(i))
                && all_moves@[i]@.wf(),
    ensures
        table_wf(kind, final(table)@),
        final(moves_done)@ == old(moves_done)@,
        forall|i: int|
            0 <= i < table_len(kind) ==> entry_no_worse(
                #[trigger] final(table)@[i],
                old(table)@[i],
            ),
        forall|ms: Seq<Move>|
            ms.len() + depth <= max_depth && compliant_after(
                ctx_last2(old(moves_done)@),
                ctx_last(old(moves_done)@),
                ms,
            ) && kind_admits(kind, #[trigger] apply_moves(cube@, ms)) ==> entry_at_most(
                final(table)@[coord_of(kind, apply_moves(cube@, ms))],
                move_count_spec(old(moves_done)@.add(ms)),
            ),
    decreases max_depth - depth,
{
    let code = coord_index(kind, cube);
    let recordable = match kind {
        TableKind::EdgeFlip => true,
        TableKind::CornerTwist => {
            let eps = cube.get_ep();
            let a = are_midle_edges_placed(&eps);
            proof {
                assert(eps@.map_values(|e: crate::cube::Edge| e.as_index()) =~= cube@.ep);
            }
            a
        },
    };
    proof {
        assert(recordable == kind_admits(kind, cube@));
    }
    if recordable {
        let better = match &table[code] {
            None => true,
            Some(prev) => move_count(moves_done.as_slice()) < move_count(prev.as_slice()),
        };
        if better {
            let entry = moves_done.clone();
            proof {
                assert(entry@ == moves_done@);
                assert(entry_sound(kind, code as int, entry@));
            }
            table[code] = Some(entry);
            proof {
                assert(table_wf(kind, table@));
                assert(forall|i: int|
                    0 <= i < table_len(kind) ==> entry_no_worse(
                        #[trigger] table@[i],
                        old(table)@[i],
                    ));
            }
        }
    }
    proof {
        assert(recordable ==> entry_at_most(
            table@[code as int],
            move_count_spec(old(moves_done)@),
        ));
    }
    if depth >= max_depth {
        proof {
            assert forall|ms: Seq<Move>|
                ms.len() + depth <= max_depth && compliant_after(
                    ctx_last2(old(moves_done)@),
                    ctx_last(old(moves_done)@),
                    ms,
                ) && kind_admits(kind, #[trigger] apply_moves(cube@, ms)) implies entry_at_most(
                table@[coord_of(kind, apply_moves(cube@, ms))],
                move_count_spec(old(moves_done)@.add(ms)),
            ) by {
                assert(ms =~= Seq::<Move>::empty());
                assert(apply_moves(cube@, ms) == cube@);
                assert(old(moves_done)@.add(ms) =~= old(moves_done)@);
            }
        }
        return ;
    }
    let prev: Option<Move> = if moves_done.len() >= 1 {
        Some(moves_done[moves_done.len() - 1])
    } else {
        None
    };
    let prev2: Option<Move> = if moves_done.len() >= 2 {
        Some(moves_done[moves_done.len() - 2])
    } else {
        None
    };
    proof {
        assert(prev == ctx_last(old(moves_done)@));
        assert(prev2 == ctx_last2(old(moves_done)@));
    }
    let mut i_mov: u8 = 0;
    while i_mov < 18
        invariant
            i_mov <= 18,
            table_wf(kind, table@),
            moves_done@ == old(moves_done)@,
            forall|i: int|
                0 <= i < table_len(kind) ==> entry_no_worse(#[trigger] table@[i], old(table)@[i]),
            recordable ==> entry_at_most(
                table@[code as int],
                move_count_spec(old(moves_done)@),
            ),
            forall|ms: Seq<Move>|
                1 <= ms.len() && ms.len() + depth <= max_depth && compliant_after(
                    ctx_last2(old(moves_done)@),
                    ctx_last(old(moves_done)@),
                    ms,
                ) && ms[0].as_index() < i_mov && kind_admits(
                    kind,
                    #[trigger] apply_moves(cube@, ms),
                ) ==> entry_at_most(
                    table@[coord_of(kind, apply_moves(cube@, ms))],
                    move_count_spec(old(moves_done)@.add(ms)),
                ),
        decreases 18 - i_mov,
    {
        let mov = match Move::from_index(i_mov) {
            Ok(m) => m,
            Err(_) => {
                return ;
            },
        };
        let skip = match (prev, prev2) {
            (Some(p), Some(p2)) => mov.is_same_slice(p) || (mov.is_opposed_slice(p)
                && mov.is_same_slice(p2)),
            (Some(p), None) => mov.is_same_slice(p),
            _ => false,
        };
        proof {
            assert(skip == !move_allowed(prev2, prev, mov));
        }
        if !skip {
            let mut next = *cube;
            next.multiply(all_moves[i_mov as usize]);
            moves_done.push(mov);
            proof {
                assert(moves_done@.drop_last() =~= old(moves_done)@);
                assert(moves_done@.last() == mov);
                assert(pruning_compliant(moves_done@)) by {
                    let ms = moves_done@;
                    assert forall|i: int|
                        1 <= i < ms.len() implies (#[trigger] ms[i]).face() != ms[i - 1].face()
                        && !(i >= 2 && ms[i].axis() == ms[i - 1].axis() && ms[i].face() == ms[i
                        - 2].face()) by {
                        if i < ms.len() - 1 {
                            assert(ms[i] == old(moves_done)@[i]);
                        }
                    }
                }
                assert(apply_moves(id_model(), moves_done@) == next@) by {
                    crate::algebra::lemma_apply_moves_add(
                        id_model(),
                        old(moves_done)@,
                        seq![mov],
                    );
                    crate::algebra::lemma_apply_one(apply_moves(id_model(), old(moves_done)@), mov);
                    assert(moves_done@ =~= old(moves_done)@.add(seq![mov]));
                }
                assert(ctx_last(moves_done@) == Some(mov));
                assert(ctx_last2(moves_done@) == prev);
            }
            let ghost table_before = table@;
            create_table_vec_rec(kind, &next, table, depth + 1, moves_done, max_depth, all_moves);
            moves_done.pop();
            proof {
                assert(moves_done@ =~= old(moves_done)@);
                assert forall|ms: Seq<Move>|
                    1 <= ms.len() && ms.len() + depth <= max_depth && compliant_after(
                        ctx_last2(old(moves_done)@),
                        ctx_last(old(moves_done)@),
                        ms,
                    ) && ms[0].as_index() < i_mov + 1 && kind_admits(
                        kind,
                        #[trigger] apply_moves(cube@, ms),
                    ) implies entry_at_most(
                    table@[coord_of(kind, apply_moves(cube@, ms))],
                    move_count_spec(old(moves_done)@.add(ms)),
                ) by {
                    let target = apply_moves(cube@, ms);
                    if ms[0].as_index() < i_mov {
                        assert(entry_at_most(
                            table_before[coord_of(kind, target)],
                            move_count_spec(old(moves_done)@.add(ms)),
                        ));
                        crate::algebra::lemma_apply_moves_wf(cube@, ms);
                        lemma_coord_in_range(kind, target);
                        assert(entry_no_worse(
                            table@[coord_of(kind, target)],
                            table_before[coord_of(kind, target)],
                        ));
                    } else {
                        assert(ms[0] == mov);
                        let rest = ms.drop_first();
                        let pushed = old(moves_done)@.push(mov);
                        assert(compliant_after(prev, Some(mov), rest));
                        assert(ctx_last(pushed) == Some(mov));
                        assert(ctx_last2(pushed) == prev);
                        assert(apply_moves(next@, rest) == apply_moves(cube@, ms));
                        assert(entry_at_most(
                            table@[coord_of(kind, apply_moves(next@, rest))],
                            move_count_spec(pushed.add(rest)),
                        ));
                        assert(pushed.add(rest) =~= old(moves_done)@.add(ms));
                    }
                }
                assert(recordable ==> entry_at_most(
                    table@[code as int],
                    move_count_spec(old(moves_done)@),
                )) by {
                    if recordable {
                        assert(entry_no_worse(table@[code as int], table_before[code as int]));
                    }
                }
            }
        } else {
            proof {
                assert forall|ms: Seq<Move>|
                    1 <= ms.len() && ms.len() + depth <= max_depth && compliant_after(
                        ctx_last2(old(moves_done)@),
                        ctx_last(old(moves_done)@),
                        ms,
                    ) && ms[0].as_index() < i_mov + 1 && kind_admits(
                        kind,
                        #[trigger] apply_moves(cube@, ms),
                    ) implies entry_at_most(
                    table@[coord_of(kind, apply_moves(cube@, ms))],
                    move_count_spec(old(moves_done)@.add(ms)),
                ) by {
                    if ms[0].as_index() == i_mov {
                        assert(ms[0] == mov);
                        assert(move_allowed(prev2, prev, ms[0]));
                        assert(false);
                    }
                }
            }
        }
        i_mov = i_mov + 1;
    }
    proof {
        assert forall|ms: Seq<Move>|
            ms.len() + depth <= max_depth && compliant_after(
                ctx_last2(old(moves_done)@),
                ctx_last(old(moves_done)@),
                ms,
            ) && kind_admits(kind, #[trigger] apply_moves(cube@, ms)) implies entry_at_most(
            table@[coord_of(kind, apply_moves(cube@, ms))],
            move_count_spec(old(moves_done)@.add(ms)),
        ) by {
            if ms.len() == 0 {
                assert(apply_moves(cube@, ms) == cube@);
                assert(old(moves_done)@.add(ms) =~= old(moves_done)@);
            } else {
                assert(ms[0].as_index() < 18);
            }
        }
    }
}

/// Both coordinates of the solved state are zero.
pub proof fn lemma_id_coord_zero(kind: TableKind)
    ensures
        coord_of(kind, id_model()) == 0,
{
    crate::coord::lemma_base_encode_zero(id_model().eo.take(11), 2);
    crate::coord::lemma_base_encode_zero(id_model().co.take(7), 3);
}

/// The entry kept when merging two tables: the present one, or of two present
/// ones the one with the smaller move count, ties going to the first table.
pub open spec fn merged_entry(x: Option<Vec<Move>>, y: Option<Vec<Move>>) -> Option<Vec<Move>> {
    match (x, y) {
        (Option::None, _) => y,
        (Option::Some(xs), Option::None) => x,
        (Option::Some(xs), Option::Some(ys)) => if move_count_spec(ys@) < move_count_spec(xs@) {
            y
        } else {
            x
        },
    }
}

/// Two entries with the same presence and the same move sequence.
pub open spec fn entry_equiv(x: Option<Vec<Move>>, y: Option<Vec<Move>>) -> bool {
    match (x, y) {
        (Option::None, Option::None) => true,
        (Option::Some(xs), Option::Some(ys)) => xs@ == ys@,
        _ => false,
    }
}

/// One worker of the table generation: searches the three first moves of its
/// own face (worker `id` owns face `id`), each followed by every compliant
/// continuation up to the depth bound, over a table of its own. The solved
/// state itself is recorded first, so coordinate 0 always holds the empty
/// sequence.
#[verifier::loop_isolation(false)]
pub fn create_thread_table_vec(kind: TableKind, id: usize, max_depth: usize) -> (t: Vec<
    Option<Vec<Move>>,
>)
    requires
        id < 6,
        1 <= max_depth <= 30,
    ensures
        table_wf(kind, t@),
        t@[0] matches Some(e) && e@ == Seq::<Move>::empty(),
        forall|ms: Seq<Move>|
            1 <= ms.len() && ms.len() <= max_depth && pruning_compliant(ms) && 3 * id
                <= ms[0].as_index() < 3 * id + 3 && kind_admits(
                kind,
                #[trigger] apply_moves(id_model(), ms),
            ) ==> entry_at_most(
                t@[coord_of(kind, apply_moves(id_model(), ms))],
                move_count_spec(ms),
            ),
{
    let all_moves = initialize_all_moves();
    let len: usize = match kind {
        TableKind::EdgeFlip => 2048,
        TableKind::CornerTwist => 2187,
    };
    let mut table: Vec<Option<Vec<Move>>> = Vec::new();
    while table.len() < len
        invariant
            table@.len() <= len,
            forall|i: int| 0 <= i < table@.len() ==> #[trigger] table@[i] is None,
        decreases len - table@.len(),
    {
        table.push(None);
    }
    let idc = Cube::new_default();
    proof {
        lemma_id_coord_zero(kind);
        assert(pruning_compliant(Seq::<Move>::empty()));
        assert(kind_admits(kind, id_model()));
        assert(entry_sound(kind, 0, Seq::<Move>::empty()));
    }
    let empty_entry: Vec<Move> = Vec::new();
    table[0] = Some(empty_entry);
    proof {
        assert(table_wf(kind, table@));
    }
    let mut moves_done: Vec<Move> = Vec::new();
    let mut fm: usize = 3 * id;
    let ghost table_base = table@;
    while fm < 3 * id + 3
        invariant
            3 * id <= fm <= 3 * id + 3,
            table_wf(kind, table@),
            moves_done@.len() == 0,
            forall|i: int|
                0 <= i < table_len(kind) ==> entry_no_worse(#[trigger] table@[i], table_base[i]),
            table@[0] matches Some(e) && e@ == Seq::<Move>::empty(),
            forall|ms: Seq<Move>|
                1 <= ms.len() && ms.len() <= max_depth && pruning_compliant(ms) && 3 * id
                    <= ms[0].as_index() < fm && kind_admits(
                    kind,
                    #[trigger] apply_moves(id_model(), ms),
                ) ==> entry_at_most(
                    table@[coord_of(kind, apply_moves(id_model(), ms))],
                    move_count_spec(ms),
                ),
        decreases 3 * id + 3 - fm,
    {
        let mov = match Move::from_index(fm as u8) {
            Ok(m) => m,
            Err(_) => {
                return table;
            },
        };
        let mut cube = Cube::new_default();
        cube.multiply(all_moves[fm]);
        moves_done.push(mov);
        proof {
            assert(moves_done@ =~= seq![mov]);
            assert(pruning_compliant(moves_done@));
            crate::algebra::lemma_apply_one(id_model(), mov);
            assert(apply_moves(id_model(), moves_done@) == cube@);
        }
        let ghost table_before = table@;
        let ghost pushed = moves_done@;
        create_table_vec_rec(kind, &cube, &mut table, 1, &mut moves_done, max_depth, &all_moves);
        moves_done.pop();
        proof {
            assert(moves_done@ =~= Seq::<Move>::empty());
            assert forall|i: int| 0 <= i < table_len(kind) implies entry_no_worse(
                #[trigger] table@[i],
                table_base[i],
            ) by {
                assert(entry_no_worse(table@[i], table_before[i]));
                assert(entry_no_worse(table_before[i], table_base[i]));
            }
            assert(table@[0] matches Some(e) && e@ == Seq::<Move>::empty()) by {
                assert(entry_no_worse(table@[0], table_base[0]));
                if let Some(e) = table@[0] {
                    lemma_move_count_bounds(e@);
                    assert(e@.len() == 0);
                    assert(e@ =~= Seq::<Move>::empty());
                }
            }
            assert forall|ms: Seq<Move>|
                1 <= ms.len() && ms.len() <= max_depth && pruning_compliant(ms) && 3 * id
                    <= ms[0].as_index() < fm + 1 && kind_admits(
                    kind,
                    #[trigger] apply_moves(id_model(), ms),
                ) implies entry_at_most(
                table@[coord_of(kind, apply_moves(id_model(), ms))],
                move_count_spec(ms),
            ) by {
                let target = apply_moves(id_model(), ms);
                crate::algebra::lemma_id_wf();
                crate::algebra::lemma_apply_moves_wf(id_model(), ms);
                lemma_coord_in_range(kind, target);
                if ms[0].as_index() < fm {
                    assert(entry_at_most(
                        table_before[coord_of(kind, target)],
                        move_count_spec(ms),
                    ));
                    assert(entry_no_worse(
                        table@[coord_of(kind, target)],
                        table_before[coord_of(kind, target)],
                    ));
                } else {
                    assert(ms[0] == mov);
                    let rest = ms.drop_first();
                    crate::moves::lemma_compliant_suffix(ms, 1);
                    assert(ms.take(1) =~= seq![ms[0]]);
                    assert(ctx_last(seq![ms[0]]) == Some(mov));
                    assert(ctx_last2(seq![ms[0]]) == None::<Move>);
                    assert(ms.skip(1) =~= rest);
                    assert(ctx_last(pushed) == Some(mov));
                    assert(ctx_last2(pushed) == None::<Move>);
                    assert(compliant_after(ctx_last2(pushed), ctx_last(pushed), rest));
                    assert(apply_moves(cube@, rest) == apply_moves(id_model(), ms));
                    assert(entry_at_most(
                        table@[coord_of(kind, apply_moves(cube@, rest))],
                        move_count_spec(pushed.add(rest)),
                    ));
                    assert(pushed.add(rest) =~= ms);
                }
            }
        }
        fm = fm + 1;
    }
    table
}

/// Merge two workers' tables: keep, per coordinate, the entry with the
/// smaller move count, ties going to the first table.
#[verifier::loop_isolation(false)]
pub fn merge_tables(
    kind: TableKind,
    a: &Vec<Option<Vec<Move>>>,
    b: &Vec<Option<Vec<Move>>>,
) -> (r: Vec<Option<Vec<Move>>>)
    requires
        table_wf(kind, a@),
        table_wf(kind, b@),
    ensures
        table_wf(kind, r@),
        forall|i: int|
            0 <= i < table_len(kind) ==> entry_equiv(
                #[trigger] r@[i],
                merged_entry(a@[i], b@[i]),
            ),
        forall|i: int| 0 <= i < table_len(kind) ==> entry_no_worse(#[trigger] r@[i], a@[i]),
        forall|i: int, c: int|
            0 <= i < table_len(kind) && (entry_at_most(a@[i], c) || entry_at_most(b@[i], c))
                ==> #[trigger] entry_at_most(r@[i], c),
{
    let mut r: Vec<Option<Vec<Move>>> = Vec::new();
    let mut i: usize = 0;
    while i < a.len()
        invariant
            i <= a@.len(),
            r@.len() == i,
            forall|j: int|
                0 <= j < i ==> entry_equiv(#[trigger] r@[j], merged_entry(a@[j], b@[j])),
            forall|j: int| 0 <= j < i ==> entry_no_worse(#[trigger] r@[j], a@[j]),
            forall|j: int| 0 <= j < i ==> entry_ok(kind, j, #[trigger] r@[j]),
            forall|j: int, c: int|
                0 <= j < i && (entry_at_most(a@[j], c) || entry_at_most(b@[j], c))
                    ==> #[trigger] entry_at_most(r@[j], c),
        decreases a@.len() - i,
    {
        proof {
            assert(entry_ok(kind, i as int, a@[i as int]));
            assert(entry_ok(kind, i as int, b@[i as int]));
        }
        let e: Option<Vec<Move>> = match (&a[i], &b[i]) {
            (None, None) => None,
            (None, Some(ys)) => Some(ys.clone()),
            (Some(xs), None) => Some(xs.clone()),
            (Some(xs), Some(ys)) => {
                if move_count(ys.as_slice()) < move_count(xs.as_slice()) {
                    Some(ys.clone())
                } else {
                    Some(xs.clone())
                }
            },
        };
        r.push(e);
        i = i + 1;
    }
    r
}

/// Build the whole table: run the six workers over their disjoint first-move
/// partitions and merge their results coordinate by coordinate. Coordinate 0
/// always holds the empty sequence, every recorded sequence reaches an
/// admitted state with its own coordinate, and no recorded sequence weighs
/// more than any rule-compliant sequence within the depth bound that reaches
/// an admitted state with that coordinate.
#[verifier::loop_isolation(false)]
pub fn create_table_vec(kind: TableKind, max_depth: usize) -> (t: Vec<Option<Vec<Move>>>)
    requires
        1 <= max_depth <= 30,
    ensures
        table_wf(kind, t@),
        t@[0] matches Some(e) && e@ == Seq::<Move>::empty(),
        forall|ms: Seq<Move>|
            ms.len() <= max_depth && pruning_compliant(ms) && kind_admits(
                kind,
                #[trigger] apply_moves(id_model(), ms),
            ) ==> entry_at_most(
                t@[coord_of(kind, apply_moves(id_model(), ms))],
                move_count_spec(ms),
            ),
{
    let mut t = create_thread_table_vec(kind, 0, max_depth);
    let mut id: usize = 1;
    while id < 6
        invariant
            1 <= id <= 6,
            table_wf(kind, t@),
            t@[0] matches Some(e) && e@ == Seq::<Move>::empty(),
            forall|ms: Seq<Move>|
                1 <= ms.len() && ms.len() <= max_depth && pruning_compliant(ms)
                    && ms[0].as_index() < 3 * id && kind_admits(
                    kind,
                    #[trigger] apply_moves(id_model(), ms),
                ) ==> entry_at_most(
                    t@[coord_of(kind, apply_moves(id_model(), ms))],
                    move_count_spec(ms),
                ),
        decreases 6 - id,
    {
        let t2 = create_thread_table_vec(kind, id, max_depth);
        let ghost t_prev = t@;
        t = merge_tables(kind, &t, &t2);
        proof {
            assert(entry_equiv(t@[0], merged_entry(t_prev[0], t2@[0])));
            assert forall|ms: Seq<Move>|
                1 <= ms.len() && ms.len() <= max_depth && pruning_compliant(ms)
                    && ms[0].as_index() < 3 * id + 3 && kind_admits(
                    kind,
                    #[trigger] apply_moves(id_model(), ms),
                ) implies entry_at_most(
                t@[coord_of(kind, apply_moves(id_model(), ms))],
                move_count_spec(ms),
            ) by {
                let target = apply_moves(id_model(), ms);
                crate::algebra::lemma_id_wf();
                crate::algebra::lemma_apply_moves_wf(id_model(), ms);
                lemma_coord_in_range(kind, target);
                if ms[0].as_index() < 3 * id {
                    assert(entry_at_most(t_prev[coord_of(kind, target)], move_count_spec(ms)));
                } else {
                    assert(entry_at_most(t2@[coord_of(kind, target)], move_count_spec(ms)));
                }
                assert(entry_at_most(t@[coord_of(kind, target)], move_count_spec(ms)));
            }
        }
        id = id + 1;
    }
    proof {
        lemma_id_coord_zero(kind);
        assert forall|ms: Seq<Move>|
            ms.len() <= max_depth && pruning_compliant(ms) && kind_admits(
                kind,
                #[trigger] apply_moves(id_model(), ms),
            ) implies entry_at_most(
            t@[coord_of(kind, apply_moves(id_model(), ms))],
            move_count_spec(ms),
        ) by {
            if ms.len() == 0 {
                assert(apply_moves(id_model(), ms) == id_model());
            } else {
                assert(ms[0].as_index() < 18);
            }
        }
    }
    t
}

/// The recorded solution for a coordinate, or the report that the generation
/// depth bound left that coordinate without an entry.
pub fn get_solution_from_table(position: usize, table: &Vec<Option<Vec<Move>>>) -> (r: Result<
    Vec<Move>,
    CubeError,
>)
    requires
        position < table@.len(),
    ensures
        match table@[position as int] {
            Some(e) => r matches Ok(ms) && ms@ == e@,
            None => r == Err::<Vec<Move>, CubeError>(CubeError::TableMissingEntry),
        },
{
    match &table[position] {
        Some(ms) => Ok(ms.clone()),
        None => Err(CubeError::TableMissingEntry),
    }
}

/// The bytes of one table record: the move identifiers followed by the
/// delimiter `0x7C`; an absent entry is a single out-of-range byte 18 and the
/// delimiter, never mistakable for a move or for the empty (already solved)
/// record.
pub open spec fn record_bytes(e: Option<Vec<Move>>) -> Seq<u8> {
    match e {
        None => seq![18u8, 124u8],
        Some(ms) => ms@.map_values(|m: Move| m.as_index()).push(124u8),
    }
}

/// The bytes of a whole table: its records in coordinate order.
pub open spec fn table_bytes(t: Seq<Option<Vec<Move>>>) -> Seq<u8>
    decreases t.len(),
{
    if t.len() == 0 {
        Seq::empty()
    } else {
        table_bytes(t.drop_last()).add(record_bytes(t.last()))
    }
}

/// Serialize a table: one record per coordinate value in ascending order,
/// each record one byte per move and a closing delimiter.
#[verifier::loop_isolation(false)]
pub fn table_to_bytes(table: &Vec<Option<Vec<Move>>>) -> (r: Vec<u8>)
    ensures
        r@ == table_bytes(table@),
{
    let mut r: Vec<u8> = Vec::new();
    let mut i: usize = 0;
    while i < table.len()
        invariant
            i <= table@.len(),
            r@ == table_bytes(table@.take(i as int)),
        decreases table@.len() - i,
    {
        proof {
            assert(table@.take(i + 1).drop_last() =~= table@.take(i as int));
            assert(table@.take(i + 1).last() == table@[i as int]);
        }
        match &table[i] {
            None => {
                r.push(18);
                r.push(124);
                proof {
                    assert(r@ =~= table_bytes(table@.take(i + 1)));
                }
            },
            Some(ms) => {
                let ghost r_start = r@;
                let mut j: usize = 0;
                while j < ms.len()
                    invariant
                        j <= ms@.len(),
                        r@ == r_start.add(ms@.take(j as int).map_values(|m: Move| m.as_index())),
                    decreases ms@.len() - j,
                {
                    r.push(ms[j].index());
                    proof {
                        assert(ms@.take(j + 1).map_values(|m: Move| m.as_index()) =~= ms@.take(
                            j as int,
                        ).map_values(|m: Move| m.as_index()).push(ms@[j as int].as_index()));
                        assert(r@ =~= r_start.add(
                            ms@.take(j + 1).map_values(|m: Move| m.as_index()),
                        ));
                    }
                    j = j + 1;
                }
                r.push(124);
                proof {
                    assert(ms@.take(ms@.len() as int) =~= ms@);
                    assert(r@ =~= table_bytes(table@.take(i + 1)));
                }
            },
        }
        i = i + 1;
    }
    proof {
        assert(table@.take(table@.len() as int) =~= table@);
    }
    r
}

/// Whether a byte sequence contains the record delimiter.
pub open spec fn has_delim(s: Seq<u8>) -> bool
    decreases s.len(),
{
    if s.len() == 0 {
        false
    } else if s[0] == 124 {
        true
    } else {
        has_delim(s.drop_first())
    }
}

/// The bytes of the first record: everything before the first delimiter.
pub open spec fn first_record(s: Seq<u8>) -> Seq<u8>
    decreases s.len(),
{
    if s.len() == 0 {
        Seq::empty()
    } else if s[0] == 124 {
        Seq::empty()
    } else {
        seq![s[0]].add(first_record(s.drop_first()))
    }
}

/// The bytes after the first delimiter.
pub open spec fn skip_record(s: Seq<u8>) -> Seq<u8>
    decreases s.len(),
{
    if s.len() == 0 {
        Seq::empty()
    } else if s[0] == 124 {
        s.drop_first()
    } else {
        skip_record(s.drop_first())
    }
}

/// Whether the bytes hold a complete (delimiter-terminated) record number
/// `n`.
pub open spec fn has_record_at(s: Seq<u8>, n: int) -> bool
    decreases n,
{
    if n <= 0 {
        has_delim(s)
    } else {
        has_record_at(skip_record(s), n - 1)
    }
}

/// The bytes of record number `n`.
pub open spec fn record_at(s: Seq<u8>, n: int) -> Seq<u8>
    decreases n,
{
    if n <= 0 {
        first_record(s)
    } else {
        record_at(skip_record(s), n - 1)
    }
}

/// Whether every byte of a record is a move identifier.
pub open spec fn record_is_moves(rec: Seq<u8>) -> bool {
    forall|i: int| 0 <= i < rec.len() ==> rec[i] < 18
}

/// The moves a record's bytes name.
pub open spec fn moves_of_record(rec: Seq<u8>) -> Seq<Move> {
    Seq::new(rec.len(), |i: int| move_of_index(rec[i] as int))
}

/// Empty bytes hold no record at all.
proof fn lemma_no_record_in_empty(n: int)
    ensures
        !has_record_at(Seq::<u8>::empty(), n),
    decreases n,
{
    if n > 0 {
        assert(skip_record(Seq::<u8>::empty()) =~= Seq::<u8>::empty());
        lemma_no_record_in_empty(n - 1);
    }
}

/// The move list of record number `position` in a serialized table:
/// the report of a missing entry when the record holds the out-of-range
/// marker byte, or when no such complete record exists.
#[verifier::loop_isolation(false)]
pub fn get_list_move_from_table(position: usize, bytes: &[u8]) -> (r: Result<Vec<Move>, CubeError>)
    ensures
        (has_record_at(bytes@, position as int) && record_is_moves(
            record_at(bytes@, position as int),
        )) ==> (r matches Ok(ms) && ms@ == moves_of_record(record_at(bytes@, position as int))),
        (has_record_at(bytes@, position as int) && !record_is_moves(
            record_at(bytes@, position as int),
        )) ==> r == Err::<Vec<Move>, CubeError>(CubeError::TableMissingEntry),
        !has_record_at(bytes@, position as int) ==> r == Err::<Vec<Move>, CubeError>(
            CubeError::TableMissingEntry,
        ),
{
    let n = bytes.len();
    let mut p: usize = 0;
    let mut skipped: usize = 0;
    proof {
        assert(bytes@.skip(0) =~= bytes@);
    }
    while skipped < position
        invariant
            p <= n == bytes@.len(),
            skipped <= position,
            has_record_at(bytes@, position as int) == has_record_at(
                bytes@.skip(p as int),
                position - skipped,
            ),
            record_at(bytes@, position as int) == record_at(
                bytes@.skip(p as int),
                position - skipped,
            ),
        decreases position - skipped, n - p,
    {
        if p == n {
            proof {
                assert(bytes@.skip(p as int) =~= Seq::<u8>::empty());
                lemma_no_record_in_empty(position - skipped);
            }
            return Err(CubeError::TableMissingEntry);
        }
        proof {
            assert(bytes@.skip(p as int).drop_first() =~= bytes@.skip(p + 1));
            assert(bytes@.skip(p as int)[0] == bytes@[p as int]);
        }
        if bytes[p] == 124 {
            skipped = skipped + 1;
        }
        p = p + 1;
    }
    let ghost rec = record_at(bytes@, position as int);
    proof {
        assert(rec == first_record(bytes@.skip(p as int)));
        assert(has_record_at(bytes@, position as int) == has_delim(bytes@.skip(p as int)));
    }
    let mut ms: Vec<Move> = Vec::new();
    let ghost mut done: int = 0;
    #[verifier::loop_isolation(true)]
    loop
        invariant
            p <= n == bytes@.len(),
            0 <= done,
            ms@.len() == done,
            rec == record_at(bytes@, position as int),
            rec.skip(done) == first_record(bytes@.skip(p as int)),
            has_record_at(bytes@, position as int) == has_delim(bytes@.skip(p as int)),
            forall|j: int| 0 <= j < done ==> (#[trigger] rec[j]) < 18 && ms@[j] == move_of_index(rec[j] as int),
            done <= rec.len(),
        ensures
            has_record_at(bytes@, position as int),
            done == rec.len(),
            record_is_moves(rec),
            forall|j: int| 0 <= j < done ==> ms@[j] == move_of_index(rec[j] as int),
        decreases n - p,
    {
        if p == n {
            proof {
                assert(bytes@.skip(p as int) =~= Seq::<u8>::empty());
            }
            return Err(CubeError::TableMissingEntry);
        }
        proof {
            assert(bytes@.skip(p as int).drop_first() =~= bytes@.skip(p + 1));
            assert(bytes@.skip(p as int)[0] == bytes@[p as int]);
        }
        let b = bytes[p];
        if b == 124 {
            proof {
                assert(rec.skip(done) =~= Seq::<u8>::empty());
                assert(done == rec.len());
                assert(record_is_moves(rec));
            }
            break ;
        }
        proof {
            assert(first_record(bytes@.skip(p as int)) == seq![bytes@[p as int]].add(
                first_record(bytes@.skip(p + 1)),
            ));
            assert(rec.skip(done).len() >= 1);
            assert(done < rec.len());
            assert(rec.skip(done)[0] == rec[done]);
            assert(rec[done] == bytes@[p as int]);
            assert(rec.skip(done).drop_first() =~= rec.skip(done + 1));
            assert(rec.skip(done).drop_first() =~= first_record(bytes@.skip(p + 1)));
        }
        let mv = match Move::from_index(b) {
            Ok(m) => m,
            Err(_) => {
                proof {
                    assert(rec[done] >= 18);
                    assert(!record_is_moves(rec));
                }
                return Err(CubeError::TableMissingEntry);
            },
        };
        ms.push(mv);
        proof {
            done = done + 1;
        }
        p = p + 1;
    }
    proof {
        assert(ms@ =~= moves_of_record(rec));
    }
    Ok(ms)
}

/// The packed base-18 encoding of a solution: each move folded in from the
/// front, with one final multiplication by 18.
pub open spec fn encode_solution_spec(ms: Seq<Move>) -> int
    decreases ms.len(),
{
    if ms.len() == 0 {
        0
    } else {
        (encode_solution_spec(ms.drop_last()) + ms.last().as_index()) * 18
    }
}

/// Pack a solution of at most six moves into one integer.
#[verifier::loop_isolation(false)]
pub fn encode_solution(solution: Vec<Move>) -> (r: u32)
    requires
        solution@.len() <= 6,
    ensures
        r == encode_solution_spec(solution@),
{
    let mut res: u32 = 0;
    let mut i: usize = 0;
    proof {
        reveal_with_fuel(crate::coord::base_pow, 2);
        assert(crate::coord::base_pow(18, 1nat) == 18);
    }
    while i < solution.len()
        invariant
            i <= solution@.len() <= 6,
            res == encode_solution_spec(solution@.take(i as int)),
            res <= crate::coord::base_pow(18, (i + 1) as nat) - 18,
        decreases solution@.len() - i,
    {
        proof {
            assert(solution@.take(i + 1).drop_last() =~= solution@.take(i as int));
            crate::coord::lemma_base_pow_monotone(18, (i + 1) as nat, 6);
            reveal_with_fuel(crate::coord::base_pow, 9);
            assert(crate::coord::base_pow(18, 6) == 34012224);
        }
        res = (res + solution[i].index() as u32) * 18;
        i = i + 1;
    }
    proof {
        assert(solution@.take(solution@.len() as int) =~= solution@);
    }
    res
}

/// The moves packed in a base-18 solution code, least significant first.
pub open spec fn decode_solution_spec(code: int) -> Seq<Move>
    decreases code,
{
    if code <= 0 {
        Seq::empty()
    } else {
        seq![move_of_index(code % 18)].add(decode_solution_spec(code / 18))
    }
}

/// Unpack a base-18 solution code into its moves, least significant first.
#[verifier::loop_isolation(false)]
pub fn decode_solution(code: u32) -> (r: Vec<Move>)
    ensures
        r@ == decode_solution_spec(code as int),
{
    let ghost orig = code as int;
    let mut code = code;
    let mut res: Vec<Move> = Vec::new();
    while code != 0
        invariant
            res@.add(decode_solution_spec(code as int)) == decode_solution_spec(orig),
        decreases code,
    {
        let d = (code % 18) as u8;
        let mv = match Move::from_index(d) {
            Ok(m) => m,
            Err(_) => {
                return res;
            },
        };
        let ghost pre = code as int;
        res.push(mv);
        code = code / 18;
        proof {
            assert(decode_solution_spec(pre) == seq![move_of_index(pre % 18)].add(
                decode_solution_spec(pre / 18),
            ));
            assert(res@.add(decode_solution_spec(code as int)) =~= decode_solution_spec(orig));
        }
    }
    proof {
        assert(decode_solution_spec(0) =~= Seq::<Move>::empty());
        assert(res@ =~= decode_solution_spec(orig));
    }
    res
}

/// The bit of `n` at shift `11 - i`, as the generator's row format lays a
/// coordinate out.
pub open spec fn shifted_bit(n: u16, i: int) -> u8 {
    ((n >> ((11 - i) as u16)) & 1) as u8
}

/// The eleven bits of a coordinate, highest shift first, each taken at shift
/// `11 - i`.
#[verifier::loop_isolation(false)]
pub fn u16_to_binary_array(n: u16) -> (r: [u8; 11])
    ensures
        forall|i: int| 0 <= i < 11 ==> r@[i] == shifted_bit(n, i),
{
    let mut result: [u8; 11] = [0; 11];
    let mut i: usize = 0;
    while i < 11
        invariant
            i <= 11,
            forall|j: int| 0 <= j < i ==> result@[j] == shifted_bit(n, j),
        decreases 11 - i,
    {
        let shift: u16 = (11 - i) as u16;
        let bit = (n >> shift) & 1;
        result[i] = bit as u8;
        i = i + 1;
    }
    result
}

/// A first-in, first-out queue over a vector.
#[derive(Debug, Clone)]
pub struct Queue<T> {
    pub items: Vec<T>,
}

impl<T> Queue<T> {
    /// The empty queue.
    pub fn new() -> (r: Queue<T>)
        ensures
            r.items@.len() == 0,
    {
        Queue { items: Vec::new() }
    }

    /// Append an item at the back.
    pub fn enqueue(&mut self, item: T)
        ensures
            final(self).items@ == old(self).items@.push(item),
    {
        self.items.push(item);
    }

    /// Remove and return the front item, or nothing when empty.
    pub fn dequeue(&mut self) -> (r: Option<T>)
        ensures
            old(self).items@.len() == 0 ==> (r is None && final(self).items@ == old(self).items@),
            old(self).items@.len() > 0 ==> (r matches Some(x) && x == old(self).items@[0]
                && final(self).items@ == old(self).items@.drop_first()),
    {
        if self.items.len() == 0 {
            None
        } else {
            let x = self.items.remove(0);
            proof {
                assert(final(self).items@ =~= old(self).items@.drop_first());
            }
            Some(x)
        }
    }

    /// Whether the queue holds nothing.
    pub fn is_empty(&self) -> (r: bool)
        ensures
            r == (self.items@.len() == 0),
    {
        self.items.len() == 0
    }

    /// How many items the queue holds.
    pub fn len(&self) -> (r: usize)
        ensures
            r == self.items@.len(),
    {
        self.items.len()
    }
}

} // verus!
