//! The eighteen face turns, each represented as a cube state, so that
//! "apply move M" and "compose two partial results" share one operator.

use crate::cube::{id_model, mult, Cube, CubeModel};
use crate::errors::CubeError;
use vstd::prelude::*;

verus! {

/// The moves in the face-turn metric: for each face its quarter turn, half
/// turn and reverse quarter turn.
#[derive(Clone, Copy, Debug, PartialEq, Eq, Structural)]
pub enum Move {
    U1,
    U2,
    U3,
    R1,
    R2,
    R3,
    F1,
    F2,
    F3,
    D1,
    D2,
    D3,
    L1,
    L2,
    L3,
    B1,
    B2,
    B3,
}

/// Basic symmetries of the cube. All 48 cube symmetries can be generated by
/// sequences of these four.
#[derive(Clone, Copy, Debug, PartialEq, Eq, Structural)]
pub enum BS {
    RotURF3,
    RotF2,
    RotU4,
    MirrLR2,
}

impl Move {
    /// The identifier of this move: three per face, in the face order
    /// U, R, F, D, L, B.
    pub open spec fn as_index(self) -> u8 {
        match self {
            Move::U1 => 0,
            Move::U2 => 1,
            Move::U3 => 2,
            Move::R1 => 3,
            Move::R2 => 4,
            Move::R3 => 5,
            Move::F1 => 6,
            Move::F2 => 7,
            Move::F3 => 8,
            Move::D1 => 9,
            Move::D2 => 10,
            Move::D3 => 11,
            Move::L1 => 12,
            Move::L2 => 13,
            Move::L3 => 14,
            Move::B1 => 15,
            Move::B2 => 16,
            Move::B3 => 17,
        }
    }

    pub fn index(self) -> (r: u8)
        ensures
            r == self.as_index(),
    {
        match self {
            Move::U1 => 0,
            Move::U2 => 1,
            Move::U3 => 2,
            Move::R1 => 3,
            Move::R2 => 4,
            Move::R3 => 5,
            Move::F1 => 6,
            Move::F2 => 7,
            Move::F3 => 8,
            Move::D1 => 9,
            Move::D2 => 10,
            Move::D3 => 11,
            Move::L1 => 12,
            Move::L2 => 13,
            Move::L3 => 14,
            Move::B1 => 15,
            Move::B2 => 16,
            Move::B3 => 17,
        }
    }

    /// Which face this move turns: 0 to 5 in the order U, R, F, D, L, B.
    pub open spec fn face(self) -> int {
        self.as_index() as int / 3
    }

    /// Which axis this move turns about: U and D share axis 0, R and L
    /// axis 1, F and B axis 2.
    pub open spec fn axis(self) -> int {
        (self.as_index() as int % 9) / 3
    }

    /// How many quarter turns this move makes: 1, 2 or 3.
    pub open spec fn turns(self) -> int {
        self.as_index() as int % 3 + 1
    }

    /// The move that undoes this one: quarter and reverse quarter turns swap,
    /// half turns are their own inverse.
    pub open spec fn inverse(self) -> Move {
        match self {
            Move::U1 => Move::U3,
            Move::U2 => Move::U2,
            Move::U3 => Move::U1,
            Move::R1 => Move::R3,
            Move::R2 => Move::R2,
            Move::R3 => Move::R1,
            Move::F1 => Move::F3,
            Move::F2 => Move::F2,
            Move::F3 => Move::F1,
            Move::D1 => Move::D3,
            Move::D2 => Move::D2,
            Move::D3 => Move::D1,
            Move::L1 => Move::L3,
            Move::L2 => Move::L2,
            Move::L3 => Move::L1,
            Move::B1 => Move::B3,
            Move::B2 => Move::B2,
            Move::B3 => Move::B1,
        }
    }

    /// True exactly when both moves turn the same face.
    pub fn is_same_slice(self, other: Move) -> (r: bool)
        ensures
            r == (self.face() == other.face()),
    {
        self.index() / 3 == other.index() / 3
    }

    /// True exactly when both moves turn faces on the same axis (a face and
    /// its opposite face, or twice the same face).
    pub fn is_opposed_slice(self, other: Move) -> (r: bool)
        ensures
            r == (self.axis() == other.axis()),
    {
        (self.index() % 9) / 3 == (other.index() % 9) / 3
    }

    /// The inverse move.
    pub fn move_inv(self) -> (r: Move)
        ensures
            r == self.inverse(),
    {
        match self {
            Move::U1 => Move::U3,
            Move::U2 => Move::U2,
            Move::U3 => Move::U1,
            Move::R1 => Move::R3,
            Move::R2 => Move::R2,
            Move::R3 => Move::R1,
            Move::F1 => Move::F3,
            Move::F2 => Move::F2,
            Move::F3 => Move::F1,
            Move::D1 => Move::D3,
            Move::D2 => Move::D2,
            Move::D3 => Move::D1,
            Move::L1 => Move::L3,
            Move::L2 => Move::L2,
            Move::L3 => Move::L1,
            Move::B1 => Move::B3,
            Move::B2 => Move::B2,
            Move::B3 => Move::B1,
        }
    }
}

/// The move whose identifier is `i`.
pub open spec fn move_of_index(i: int) -> Move {
    if i == 0 {
        Move::U1
    } else if i == 1 {
        Move::U2
    } else if i == 2 {
        Move::U3
    } else if i == 3 {
        Move::R1
    } else if i == 4 {
        Move::R2
    } else if i == 5 {
        Move::R3
    } else if i == 6 {
        Move::F1
    } else if i == 7 {
        Move::F2
    } else if i == 8 {
        Move::F3
    } else if i == 9 {
        Move::D1
    } else if i == 10 {
        Move::D2
    } else if i == 11 {
        Move::D3
    } else if i == 12 {
        Move::L1
    } else if i == 13 {
        Move::L2
    } else if i == 14 {
        Move::L3
    } else if i == 15 {
        Move::B1
    } else if i == 16 {
        Move::B2
    } else {
        Move::B3
    }
}

impl Move {
    /// The move named by an integer identifier, or an error when the integer
    /// names none.
    pub fn from_index(value: u8) -> (r: Result<Move, CubeError>)
        ensures
            value < 18 ==> r == Ok::<Move, CubeError>(move_of_index(value as int)),
            value >= 18 ==> r == Err::<Move, CubeError>(CubeError::InvalidIdentifier),
    {
        match value {
            0 => Ok(Move::U1),
            1 => Ok(Move::U2),
            2 => Ok(Move::U3),
            3 => Ok(Move::R1),
            4 => Ok(Move::R2),
            5 => Ok(Move::R3),
            6 => Ok(Move::F1),
            7 => Ok(Move::F2),
            8 => Ok(Move::F3),
            9 => Ok(Move::D1),
            10 => Ok(Move::D2),
            11 => Ok(Move::D3),
            12 => Ok(Move::L1),
            13 => Ok(Move::L2),
            14 => Ok(Move::L3),
            15 => Ok(Move::B1),
            16 => Ok(Move::B2),
            17 => Ok(Move::B3),
            _ => Err(CubeError::InvalidIdentifier),
        }
    }
}

/// The quarter turn of the Up face.
pub open spec fn move_u_model() -> CubeModel {
    CubeModel {
        cp: seq![3u8, 0u8, 1u8, 2u8, 4u8, 5u8, 6u8, 7u8],
        co: seq![0u8, 0u8, 0u8, 0u8, 0u8, 0u8, 0u8, 0u8],
        ep: seq![3u8, 0u8, 1u8, 2u8, 4u8, 5u8, 6u8, 7u8, 8u8, 9u8, 10u8, 11u8],
        eo: seq![0u8, 0u8, 0u8, 0u8, 0u8, 0u8, 0u8, 0u8, 0u8, 0u8, 0u8, 0u8],
    }
}

/// The quarter turn of the Right face.
pub open spec fn move_r_model() -> CubeModel {
    CubeModel {
        cp: seq![4u8, 1u8, 2u8, 0u8, 7u8, 5u8, 6u8, 3u8],
        co: seq![2u8, 0u8, 0u8, 1u8, 1u8, 0u8, 0u8, 2u8],
        ep: seq![8u8, 1u8, 2u8, 3u8, 11u8, 5u8, 6u8, 7u8, 4u8, 9u8, 10u8, 0u8],
        eo: seq![0u8, 0u8, 0u8, 0u8, 0u8, 0u8, 0u8, 0u8, 0u8, 0u8, 0u8, 0u8],
    }
}

/// The quarter turn of the Front face.
pub open spec fn move_f_model() -> CubeModel {
    CubeModel {
        cp: seq![1u8, 5u8, 2u8, 3u8, 0u8, 4u8, 6u8, 7u8],
        co: seq![1u8, 2u8, 0u8, 0u8, 2u8, 1u8, 0u8, 0u8],
        ep: seq![0u8, 9u8, 2u8, 3u8, 4u8, 8u8, 6u8, 7u8, 1u8, 5u8, 10u8, 11u8],
        eo: seq![0u8, 1u8, 0u8, 0u8, 0u8, 1u8, 0u8, 0u8, 1u8, 1u8, 0u8, 0u8],
    }
}

/// The quarter turn of the Down face.
pub open spec fn move_d_model() -> CubeModel {
    CubeModel {
        cp: seq![0u8, 1u8, 2u8, 3u8, 5u8, 6u8, 7u8, 4u8],
        co: seq![0u8, 0u8, 0u8, 0u8, 0u8, 0u8, 0u8, 0u8],
        ep: seq![0u8, 1u8, 2u8, 3u8, 5u8, 6u8, 7u8, 4u8, 8u8, 9u8, 10u8, 11u8],
        eo: seq![0u8, 0u8, 0u8, 0u8, 0u8, 0u8, 0u8, 0u8, 0u8, 0u8, 0u8, 0u8],
    }
}

/// The quarter turn of the Left face.
pub open spec fn move_l_model() -> CubeModel {
    CubeModel {
        cp: seq![0u8, 2u8, 6u8, 3u8, 4u8, 1u8, 5u8, 7u8],
        co: seq![0u8, 1u8, 2u8, 0u8, 0u8, 2u8, 1u8, 0u8],
        ep: seq![0u8, 1u8, 10u8, 3u8, 4u8, 5u8, 9u8, 7u8, 8u8, 2u8, 6u8, 11u8],
        eo: seq![0u8, 0u8, 0u8, 0u8, 0u8, 0u8, 0u8, 0u8, 0u8, 0u8, 0u8, 0u8],
    }
}

/// The quarter turn of the Back face.
pub open spec fn move_b_model() -> CubeModel {
    CubeModel {
        cp: seq![0u8, 1u8, 3u8, 7u8, 4u8, 5u8, 2u8, 6u8],
        co: seq![0u8, 0u8, 1u8, 2u8, 0u8, 0u8, 2u8, 1u8],
        ep: seq![0u8, 1u8, 2u8, 11u8, 4u8, 5u8, 6u8, 10u8, 8u8, 9u8, 3u8, 7u8],
        eo: seq![0u8, 0u8, 0u8, 1u8, 0u8, 0u8, 0u8, 1u8, 0u8, 0u8, 1u8, 1u8],
    }
}

/// The base quarter turn of face `f` (0 to 5 in the order U, R, F, D, L, B).
pub open spec fn base_model(f: int) -> CubeModel {
    if f == 0 {
        move_u_model()
    } else if f == 1 {
        move_r_model()
    } else if f == 2 {
        move_f_model()
    } else if f == 3 {
        move_d_model()
    } else if f == 4 {
        move_l_model()
    } else {
        move_b_model()
    }
}

/// The state reached by applying the move `b` to the identity `n` times.
pub open spec fn pow_model(b: CubeModel, n: nat) -> CubeModel
    decreases n,
{
    if n == 0 {
        id_model()
    } else {
        mult(pow_model(b, (n - 1) as nat), b)
    }
}

/// The cube state that a move stands for: its face's base turn applied one,
/// two or three times.
pub open spec fn move_model(m: Move) -> CubeModel {
    pow_model(base_model(m.face()), m.turns() as nat)
}

/// Every base quarter turn is structurally well-formed.
pub proof fn lemma_base_model_wf(f: int)
    ensures
        base_model(f).wf(),
{
}

/// The quarter turn of the Up face as a cube.
pub fn move_u() -> (c: Cube)
    ensures
        c@ == move_u_model(),
{
    let c = Cube {
        cp: [3, 0, 1, 2, 4, 5, 6, 7],
        co: [0; 8],
        ep: [3, 0, 1, 2, 4, 5, 6, 7, 8, 9, 10, 11],
        eo: [0; 12],
    };
    proof {
        assert(c@.cp =~= move_u_model().cp);
        assert(c@.co =~= move_u_model().co);
        assert(c@.ep =~= move_u_model().ep);
        assert(c@.eo =~= move_u_model().eo);
        assert(c@ =~= move_u_model());
    }
    c
}

/// The quarter turn of the Right face as a cube.
pub fn move_r() -> (c: Cube)
    ensures
        c@ == move_r_model(),
{
    let c = Cube {
        cp: [4, 1, 2, 0, 7, 5, 6, 3],
        co: [2, 0, 0, 1, 1, 0, 0, 2],
        ep: [8, 1, 2, 3, 11, 5, 6, 7, 4, 9, 10, 0],
        eo: [0; 12],
    };
    proof {
        assert(c@.cp =~= move_r_model().cp);
        assert(c@.co =~= move_r_model().co);
        assert(c@.ep =~= move_r_model().ep);
        assert(c@.eo =~= move_r_model().eo);
        assert(c@ =~= move_r_model());
    }
    c
}

/// The quarter turn of the Front face as a cube.
pub fn move_f() -> (c: Cube)
    ensures
        c@ == move_f_model(),
{
    let c = Cube {
        cp: [1, 5, 2, 3, 0, 4, 6, 7],
        co: [1, 2, 0, 0, 2, 1, 0, 0],
        ep: [0, 9, 2, 3, 4, 8, 6, 7, 1, 5, 10, 11],
        eo: [0, 1, 0, 0, 0, 1, 0, 0, 1, 1, 0, 0],
    };
    proof {
        assert(c@.cp =~= move_f_model().cp);
        assert(c@.co =~= move_f_model().co);
        assert(c@.ep =~= move_f_model().ep);
        assert(c@.eo =~= move_f_model().eo);
        assert(c@ =~= move_f_model());
    }
    c
}

/// The quarter turn of the Down face as a cube.
pub fn move_d() -> (c: Cube)
    ensures
        c@ == move_d_model(),
{
    let c = Cube {
        cp: [0, 1, 2, 3, 5, 6, 7, 4],
        co: [0; 8],
        ep: [0, 1, 2, 3, 5, 6, 7, 4, 8, 9, 10, 11],
        eo: [0; 12],
    };
    proof {
        assert(c@.cp =~= move_d_model().cp);
        assert(c@.co =~= move_d_model().co);
        assert(c@.ep =~= move_d_model().ep);
        assert(c@.eo =~= move_d_model().eo);
        assert(c@ =~= move_d_model());
    }
    c
}

/// The quarter turn of the Left face as a cube.
pub fn move_l() -> (c: Cube)
    ensures
        c@ == move_l_model(),
{
    let c = Cube {
        cp: [0, 2, 6, 3, 4, 1, 5, 7],
        co: [0, 1, 2, 0, 0, 2, 1, 0],
        ep: [0, 1, 10, 3, 4, 5, 9, 7, 8, 2, 6, 11],
        eo: [0; 12],
    };
    proof {
        assert(c@.cp =~= move_l_model().cp);
        assert(c@.co =~= move_l_model().co);
        assert(c@.ep =~= move_l_model().ep);
        assert(c@.eo =~= move_l_model().eo);
        assert(c@ =~= move_l_model());
    }
    c
}

/// The quarter turn of the Back face as a cube.
pub fn move_b() -> (c: Cube)
    ensures
        c@ == move_b_model(),
{
    let c = Cube {
        cp: [0, 1, 3, 7, 4, 5, 2, 6],
        co: [0, 0, 1, 2, 0, 0, 2, 1],
        ep: [0, 1, 2, 11, 4, 5, 6, 10, 8, 9, 3, 7],
        eo: [0, 0, 0, 1, 0, 0, 0, 1, 0, 0, 1, 1],
    };
    proof {
        assert(c@.cp =~= move_b_model().cp);
        assert(c@.co =~= move_b_model().co);
        assert(c@.ep =~= move_b_model().ep);
        assert(c@.eo =~= move_b_model().eo);
        assert(c@ =~= move_b_model());
    }
    c
}

/// The base quarter turn of face `f` as a cube.
pub fn base_move(f: u8) -> (c: Cube)
    requires
        f < 6,
    ensures
        c@ == base_model(f as int),
{
    match f {
        0 => move_u(),
        1 => move_r(),
        2 => move_f(),
        3 => move_d(),
        4 => move_l(),
        _ => move_b(),
    }
}

impl Move {
    /// The cube state that this move stands for.
    pub fn get_cube(self) -> (c: Cube)
        ensures
            c@ == move_model(self),
            c@.wf(),
    {
        let idx = self.index();
        let base = base_move(idx / 3);
        let t = idx % 3;
        proof {
            lemma_base_model_wf(self.face());
            assert(base@ == base_model(self.face()));
        }
        let mut c = Cube::new_default();
        c.multiply(base);
        proof {
            reveal_with_fuel(pow_model, 5);
            assert(c@ == pow_model(base@, 1));
        }
        if t >= 1 {
            c.multiply(base);
            proof {
                reveal_with_fuel(pow_model, 5);
                assert(c@ == pow_model(base@, 2));
            }
        }
        if t >= 2 {
            c.multiply(base);
            proof {
                reveal_with_fuel(pow_model, 5);
                assert(c@ == pow_model(base@, 3));
            }
        }
        proof {
            assert(self.turns() == t + 1);
        }
        c
    }
}

/// The state reached from `s` by applying the moves of `ms` in order.
pub open spec fn apply_moves(s: CubeModel, ms: Seq<Move>) -> CubeModel
    decreases ms.len(),
{
    if ms.len() == 0 {
        s
    } else {
        apply_moves(mult(s, move_model(ms[0])), ms.drop_first())
    }
}

/// The move-by-move inverse of a sequence: reversed order, each move
/// inverted.
pub open spec fn inverse_seq(ms: Seq<Move>) -> Seq<Move> {
    Seq::new(ms.len(), |i: int| ms[ms.len() - 1 - i].inverse())
}

/// The search-order rule of the table generator and the solver: a move never
/// turns the face just turned, and never turns a face on the axis of the
/// preceding move when that face was already turned two moves back.
pub open spec fn pruning_compliant(ms: Seq<Move>) -> bool {
    forall|i: int|
        1 <= i < ms.len() ==> (#[trigger] ms[i]).face() != ms[i - 1].face() && !(i >= 2 && ms[i].axis()
            == ms[i - 1].axis() && ms[i].face() == ms[i - 2].face())
}

/// Whether the search-order rule lets `m` follow the context of a preceding
/// move `prev` and the move `prev2` before that.
pub open spec fn move_allowed(prev2: Option<Move>, prev: Option<Move>, m: Move) -> bool {
    match prev {
        None => true,
        Some(p) => m.face() != p.face() && !(prev2 matches Some(p2) && m.axis() == p.axis()
            && m.face() == p2.face()),
    }
}

/// Whether a whole sequence obeys the search-order rule when played after the
/// given two-move context.
pub open spec fn compliant_after(prev2: Option<Move>, prev: Option<Move>, ms: Seq<Move>) -> bool
    decreases ms.len(),
{
    if ms.len() == 0 {
        true
    } else {
        move_allowed(prev2, prev, ms[0]) && compliant_after(prev, Some(ms[0]), ms.drop_first())
    }
}

/// The last move of a context sequence, if any.
pub open spec fn ctx_last(acc: Seq<Move>) -> Option<Move> {
    if acc.len() >= 1 {
        Some(acc.last())
    } else {
        None
    }
}

/// The second-to-last move of a context sequence, if any.
pub open spec fn ctx_last2(acc: Seq<Move>) -> Option<Move> {
    if acc.len() >= 2 {
        Some(acc[acc.len() - 2])
    } else {
        None
    }
}

/// A compliant sequence extends a compliant context into a compliant whole.
pub proof fn lemma_compliant_extend(acc: Seq<Move>, ms: Seq<Move>)
    requires
        pruning_compliant(acc),
        compliant_after(ctx_last2(acc), ctx_last(acc), ms),
    ensures
        pruning_compliant(acc.add(ms)),
    decreases ms.len(),
{
    if ms.len() == 0 {
        assert(acc.add(ms) =~= acc);
    } else {
        let acc2 = acc.push(ms[0]);
        assert forall|i: int|
            1 <= i < acc2.len() implies (#[trigger] acc2[i]).face() != acc2[i - 1].face() && !(i >= 2
            && acc2[i].axis() == acc2[i - 1].axis() && acc2[i].face() == acc2[i - 2].face()) by {
            if i < acc.len() {
                assert(acc2[i] == acc[i]);
            } else {
                assert(acc2[i] == ms[0]);
                assert(move_allowed(ctx_last2(acc), ctx_last(acc), ms[0]));
            }
        }
        assert(pruning_compliant(acc2));
        assert(ctx_last(acc2) == Some(ms[0]));
        assert(ctx_last2(acc2) == ctx_last(acc));
        lemma_compliant_extend(acc2, ms.drop_first());
        assert(acc2.add(ms.drop_first()) =~= acc.add(ms));
    }
}

/// A compliant whole stays compliant after any prefix is already played.
pub proof fn lemma_compliant_suffix(ms: Seq<Move>, k: int)
    requires
        pruning_compliant(ms),
        0 <= k <= ms.len(),
    ensures
        compliant_after(ctx_last2(ms.take(k)), ctx_last(ms.take(k)), ms.skip(k)),
    decreases ms.len() - k,
{
    if k < ms.len() {
        lemma_compliant_suffix(ms, k + 1);
        let rest = ms.skip(k);
        assert(rest[0] == ms[k]);
        assert(rest.drop_first() =~= ms.skip(k + 1));
        assert(move_allowed(ctx_last2(ms.take(k)), ctx_last(ms.take(k)), ms[k])) by {
            if k >= 1 {
                assert(ms.take(k).last() == ms[k - 1]);
            }
            if k >= 2 {
                assert(ms.take(k)[k - 2] == ms[k - 2]);
            }
        }
        assert(ctx_last(ms.take(k + 1)) == Some(ms[k]));
        assert(ctx_last2(ms.take(k + 1)) == ctx_last(ms.take(k)));
    }
}

/// The table of all eighteen moves as cube states, indexed by move
/// identifier.
pub fn initialize_all_moves() -> (r: Vec<Cube>)
    ensures
        r.len() == 18,
        forall|i: int| 0 <= i < 18 ==> (#[trigger] r[i])@ == move_model(move_of_index(i)) && r[i]@.wf(),
{
    let mut r: Vec<Cube> = Vec::new();
    let mut i: u8 = 0;
    while i < 18
        invariant
            i <= 18,
            r.len() == i,
            forall|j: int| 0 <= j < i ==> (#[trigger] r[j])@ == move_model(move_of_index(j)) && r[j]@.wf(),
        decreases 18 - i,
    {
        let m = match Move::from_index(i) {
            Ok(m) => m,
            Err(_) => Move::U1,
        };
        proof {
            assert(m == move_of_index(i as int));
        }
        r.push(m.get_cube());
        i = i + 1;
    }
    r
}

} // verus!
