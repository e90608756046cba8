//! The cubie-level cube state: corner and edge permutations with their
//! orientations, and the group operation that composes two states.

use crate::errors::{CubeError, InvalidCubeState};
use vstd::prelude::*;

verus! {

/// The names of the corner positions of the cube. Corner `URF` e.g. has an
/// U(p), a R(ight) and a F(ront) facelet.
#[derive(Clone, Copy, Debug, PartialEq, Eq, Structural)]
pub enum Corner {
    URF,
    UFL,
    ULB,
    UBR,
    DFR,
    DLF,
    DBL,
    DRB,
}

/// The names of the edge positions of the cube. Edge `UR` e.g. has an U(p)
/// and a R(ight) facelet.
#[derive(Clone, Copy, Debug, PartialEq, Eq, Structural)]
pub enum Edge {
    UR,
    UF,
    UL,
    UB,
    DR,
    DF,
    DL,
    DB,
    FR,
    FL,
    BL,
    BR,
}

impl Corner {
    /// The slot number of this corner in the reference numbering.
    pub open spec fn as_index(self) -> u8 {
        match self {
            Corner::URF => 0,
            Corner::UFL => 1,
            Corner::ULB => 2,
            Corner::UBR => 3,
            Corner::DFR => 4,
            Corner::DLF => 5,
            Corner::DBL => 6,
            Corner::DRB => 7,
        }
    }

    pub fn index(self) -> (r: u8)
        ensures
            r == self.as_index(),
    {
        match self {
            Corner::URF => 0,
            Corner::UFL => 1,
            Corner::ULB => 2,
            Corner::UBR => 3,
            Corner::DFR => 4,
            Corner::DLF => 5,
            Corner::DBL => 6,
            Corner::DRB => 7,
        }
    }
}

impl Edge {
    /// The slot number of this edge in the reference numbering.
    pub open spec fn as_index(self) -> u8 {
        match self {
            Edge::UR => 0,
            Edge::UF => 1,
            Edge::UL => 2,
            Edge::UB => 3,
            Edge::DR => 4,
            Edge::DF => 5,
            Edge::DL => 6,
            Edge::DB => 7,
            Edge::FR => 8,
            Edge::FL => 9,
            Edge::BL => 10,
            Edge::BR => 11,
        }
    }

    pub fn index(self) -> (r: u8)
        ensures
            r == self.as_index(),
    {
        match self {
            Edge::UR => 0,
            Edge::UF => 1,
            Edge::UL => 2,
            Edge::UB => 3,
            Edge::DR => 4,
            Edge::DF => 5,
            Edge::DL => 6,
            Edge::DB => 7,
            Edge::FR => 8,
            Edge::FL => 9,
            Edge::BL => 10,
            Edge::BR => 11,
        }
    }
}

/// The corner piece named by an integer identifier, or an error when the
/// integer names none.
pub fn u8_to_corner(value: u8) -> (r: Result<Corner, CubeError>)
    ensures
        value < 8 ==> (r matches Ok(c) && c.as_index() == value),
        value >= 8 ==> r == Err::<Corner, CubeError>(CubeError::InvalidIdentifier),
{
    match value {
        0 => Ok(Corner::URF),
        1 => Ok(Corner::UFL),
        2 => Ok(Corner::ULB),
        3 => Ok(Corner::UBR),
        4 => Ok(Corner::DFR),
        5 => Ok(Corner::DLF),
        6 => Ok(Corner::DBL),
        7 => Ok(Corner::DRB),
        _ => Err(CubeError::InvalidIdentifier),
    }
}

/// The edge piece named by an integer identifier, or an error when the
/// integer names none.
pub fn u8_to_edge(value: u8) -> (r: Result<Edge, CubeError>)
    ensures
        value < 12 ==> (r matches Ok(e) && e.as_index() == value),
        value >= 12 ==> r == Err::<Edge, CubeError>(CubeError::InvalidIdentifier),
{
    match value {
        0 => Ok(Edge::UR),
        1 => Ok(Edge::UF),
        2 => Ok(Edge::UL),
        3 => Ok(Edge::UB),
        4 => Ok(Edge::DR),
        5 => Ok(Edge::DF),
        6 => Ok(Edge::DL),
        7 => Ok(Edge::DB),
        8 => Ok(Edge::FR),
        9 => Ok(Edge::FL),
        10 => Ok(Edge::BL),
        11 => Ok(Edge::BR),
        _ => Err(CubeError::InvalidIdentifier),
    }
}

/// A cube state at the cubie level: which piece occupies each corner and edge
/// slot, and how that piece is twisted or flipped relative to the solved cube.
#[derive(Clone, Copy, Debug)]
pub struct Cube {
    /// Piece number occupying each of the 8 corner slots.
    pub cp: [u8; 8],
    /// Twist (0, 1 or 2) of the piece in each corner slot.
    pub co: [u8; 8],
    /// Piece number occupying each of the 12 edge slots.
    pub ep: [u8; 12],
    /// Flip (0 or 1) of the piece in each edge slot.
    pub eo: [u8; 12],
}

/// The mathematical model of a cube state: the four component sequences.
#[verifier::ext_equal]
pub struct CubeModel {
    pub cp: Seq<u8>,
    pub co: Seq<u8>,
    pub ep: Seq<u8>,
    pub eo: Seq<u8>,
}

impl View for Cube {
    type V = CubeModel;

    open spec fn view(&self) -> CubeModel {
        CubeModel { cp: self.cp@, co: self.co@, ep: self.ep@, eo: self.eo@ }
    }
}

impl CubeModel {
    /// Structural well-formedness: right lengths, piece numbers and
    /// orientations in range. Every `Cube` built by this library satisfies it.
    pub open spec fn wf(self) -> bool {
        &&& self.cp.len() == 8
        &&& self.co.len() == 8
        &&& self.ep.len() == 12
        &&& self.eo.len() == 12
        &&& forall|i: int| 0 <= i < 8 ==> self.cp[i] < 8 && self.co[i] < 3
        &&& forall|i: int| 0 <= i < 12 ==> self.ep[i] < 12 && self.eo[i] < 2
    }
}

/// The solved state: every piece in its own slot, no twist, no flip.
pub open spec fn id_model() -> CubeModel {
    CubeModel {
        cp: seq![0u8, 1u8, 2u8, 3u8, 4u8, 5u8, 6u8, 7u8],
        co: seq![0u8, 0u8, 0u8, 0u8, 0u8, 0u8, 0u8, 0u8],
        ep: seq![0u8, 1u8, 2u8, 3u8, 4u8, 5u8, 6u8, 7u8, 8u8, 9u8, 10u8, 11u8],
        eo: seq![0u8, 0u8, 0u8, 0u8, 0u8, 0u8, 0u8, 0u8, 0u8, 0u8, 0u8, 0u8],
    }
}

/// Composition of two permutations: the piece that `a` has in the slot that
/// `b`'s permutation names for slot `i`.
pub open spec fn perm_comp(a: Seq<u8>, b: Seq<u8>) -> Seq<u8> {
    Seq::new(b.len(), |i: int| a[b[i] as int])
}

/// Corner orientations after composition: the twist that `a` has at the
/// source slot plus `b`'s twist at the destination, modulo 3.
pub open spec fn corner_ori_comp(ao: Seq<u8>, bp: Seq<u8>, bo: Seq<u8>) -> Seq<u8> {
    Seq::new(bp.len(), |i: int| (((ao[bp[i] as int] + bo[i]) % 3) as u8))
}

/// Edge orientations after composition: flip at the source slot plus `b`'s
/// flip at the destination, modulo 2.
pub open spec fn edge_ori_comp(ao: Seq<u8>, bp: Seq<u8>, bo: Seq<u8>) -> Seq<u8> {
    Seq::new(bp.len(), |i: int| (((ao[bp[i] as int] + bo[i]) % 2) as u8))
}

/// Group composition restricted to the corners; edges unchanged.
pub open spec fn corner_mult(a: CubeModel, b: CubeModel) -> CubeModel {
    CubeModel {
        cp: perm_comp(a.cp, b.cp),
        co: corner_ori_comp(a.co, b.cp, b.co),
        ep: a.ep,
        eo: a.eo,
    }
}

/// Group composition restricted to the edges; corners unchanged.
pub open spec fn edge_mult(a: CubeModel, b: CubeModel) -> CubeModel {
    CubeModel {
        cp: a.cp,
        co: a.co,
        ep: perm_comp(a.ep, b.ep),
        eo: edge_ori_comp(a.eo, b.ep, b.eo),
    }
}

/// Full group composition: `mult(a, b)` is the state reached by applying the
/// move `b` to the state `a`.
pub open spec fn mult(a: CubeModel, b: CubeModel) -> CubeModel {
    edge_mult(corner_mult(a, b), b)
}

/// How many entries of `s` equal `v`.
pub open spec fn count_val(s: Seq<u8>, v: u8) -> int
    decreases s.len(),
{
    if s.len() == 0 {
        0
    } else {
        count_val(s.drop_last(), v) + if s.last() == v {
            1int
        } else {
            0int
        }
    }
}

/// `s` is a bijection on `{0, ..., n-1}`: every piece occurs exactly once.
pub open spec fn is_perm(s: Seq<u8>, n: int) -> bool {
    s.len() == n && forall|v: u8| v < n ==> #[trigger] count_val(s, v) == 1
}

/// The sum of a sequence of small integers.
pub open spec fn seq_sum(s: Seq<u8>) -> int
    decreases s.len(),
{
    if s.len() == 0 {
        0
    } else {
        seq_sum(s.drop_last()) + s.last()
    }
}

/// How many indices `j < k` hold a value greater than `s[i]`.
pub open spec fn inv_at(s: Seq<u8>, i: int, k: int) -> int
    decreases k,
{
    if k <= 0 {
        0
    } else {
        inv_at(s, i, k - 1) + if s[k - 1] > s[i] {
            1int
        } else {
            0int
        }
    }
}

/// The number of inversions among the first `n` entries of `s`.
pub open spec fn inversions_upto(s: Seq<u8>, n: int) -> int
    decreases n,
{
    if n <= 0 {
        0
    } else {
        inversions_upto(s, n - 1) + inv_at(s, n - 1, n - 1)
    }
}

/// The parity (0 or 1) of a permutation, as its inversion count modulo 2.
pub open spec fn perm_parity(s: Seq<u8>) -> int {
    inversions_upto(s, s.len() as int) % 2
}

impl CubeModel {
    /// The four solvability invariants of a physical cube.
    pub open spec fn valid(self) -> bool {
        &&& self.wf()
        &&& is_perm(self.cp, 8)
        &&& is_perm(self.ep, 12)
        &&& seq_sum(self.co) % 3 == 0
        &&& seq_sum(self.eo) % 2 == 0
        &&& perm_parity(self.cp) == perm_parity(self.ep)
    }

    /// Membership in the phase-1 target subgroup: no edge is flipped.
    pub open spec fn phase1_solved(self) -> bool {
        forall|i: int| 0 <= i < 12 ==> self.eo[i] == 0
    }
}

impl Cube {
    /// Create a cube from its four components.
    #[verifier::loop_isolation(false)]
    pub fn new(cp: [Corner; 8], co: [u8; 8], ep: [Edge; 12], eo: [u8; 12]) -> (r: Cube)
        requires
            forall|i: int| 0 <= i < 8 ==> co@[i] < 3,
            forall|i: int| 0 <= i < 12 ==> eo@[i] < 2,
        ensures
            r@.cp == cp@.map_values(|c: Corner| c.as_index()),
            r@.ep == ep@.map_values(|e: Edge| e.as_index()),
            r@.co == co@,
            r@.eo == eo@,
            r@.wf(),
    {
        let mut cpn: [u8; 8] = [0; 8];
        let mut epn: [u8; 12] = [0; 12];
        let mut i: usize = 0;
        while i < 8
            invariant
                i <= 8,
                forall|j: int| 0 <= j < i ==> cpn@[j] == cp@[j].as_index(),
            decreases 8 - i,
        {
            cpn[i] = cp[i].index();
            i = i + 1;
        }
        let mut i: usize = 0;
        while i < 12
            invariant
                i <= 12,
                forall|j: int| 0 <= j < i ==> epn@[j] == ep@[j].as_index(),
            decreases 12 - i,
        {
            epn[i] = ep[i].index();
            i = i + 1;
        }
        let r = Cube { cp: cpn, co, ep: epn, eo };
        proof {
            assert(r@.cp =~= cp@.map_values(|c: Corner| c.as_index()));
            assert(r@.ep =~= ep@.map_values(|e: Edge| e.as_index()));
            assert(forall|i: int| 0 <= i < 8 ==> r@.cp[i] < 8);
            assert(forall|i: int| 0 <= i < 12 ==> r@.ep[i] < 12);
        }
        r
    }

    /// Create a new solved cube.
    pub fn new_default() -> (r: Cube)
        ensures
            r@ == id_model(),
    {
        let r = Cube {
            cp: [0, 1, 2, 3, 4, 5, 6, 7],
            co: [0; 8],
            ep: [0, 1, 2, 3, 4, 5, 6, 7, 8, 9, 10, 11],
            eo: [0; 12],
        };
        proof {
            assert(r@.cp =~= id_model().cp);
            assert(r@.co =~= id_model().co);
            assert(r@.ep =~= id_model().ep);
            assert(r@.eo =~= id_model().eo);
            assert(r@ =~= id_model());
        }
        r
    }
}

/// Any value occurs at most as often as the sequence is long.
pub proof fn lemma_count_le(s: Seq<u8>, v: u8)
    ensures
        0 <= count_val(s, v) <= s.len(),
    decreases s.len(),
{
    if s.len() > 0 {
        lemma_count_le(s.drop_last(), v);
    }
}

/// At most `k` earlier slots can hold a greater value.
pub proof fn lemma_inv_at_le(s: Seq<u8>, i: int, k: int)
    ensures
        0 <= inv_at(s, i, k) <= if k <= 0 {
            0int
        } else {
            k
        },
    decreases k,
{
    if k > 0 {
        lemma_inv_at_le(s, i, k - 1);
    }
}

/// The inversion count of the first `n` entries is at most `n * n`.
pub proof fn lemma_inversions_le(s: Seq<u8>, n: int)
    ensures
        0 <= inversions_upto(s, n) <= if n <= 0 {
            0int
        } else {
            n * n
        },
    decreases n,
{
    if n > 0 {
        lemma_inversions_le(s, n - 1);
        lemma_inv_at_le(s, n - 1, n - 1);
        assert((n - 1) * (n - 1) + (n - 1) <= n * n) by (nonlinear_arith)
            requires n >= 1;
    }
}

impl Cube {
    /// Returns the corner permutation of the cube.
    #[verifier::loop_isolation(false)]
    pub fn get_cp(&self) -> (r: [Corner; 8])
        requires
            self@.wf(),
        ensures
            forall|i: int| 0 <= i < 8 ==> r@[i].as_index() == self@.cp[i],
    {
        let mut r: [Corner; 8] = [Corner::URF; 8];
        let mut i: usize = 0;
        while i < 8
            invariant
                i <= 8,
                forall|j: int| 0 <= j < i ==> r@[j].as_index() == self@.cp[j],
            decreases 8 - i,
        {
            r[i] = match u8_to_corner(self.cp[i]) {
                Ok(c) => c,
                Err(_) => Corner::URF,
            };
            i = i + 1;
        }
        r
    }

    /// Returns the corner orientations of the cube.
    pub fn get_co(&self) -> (r: [u8; 8])
        ensures
            r@ == self@.co,
    {
        self.co
    }

    /// Returns the edge permutation of the cube.
    #[verifier::loop_isolation(false)]
    pub fn get_ep(&self) -> (r: [Edge; 12])
        requires
            self@.wf(),
        ensures
            forall|i: int| 0 <= i < 12 ==> r@[i].as_index() == self@.ep[i],
    {
        let mut r: [Edge; 12] = [Edge::UR; 12];
        let mut i: usize = 0;
        while i < 12
            invariant
                i <= 12,
                forall|j: int| 0 <= j < i ==> r@[j].as_index() == self@.ep[j],
            decreases 12 - i,
        {
            r[i] = match u8_to_edge(self.ep[i]) {
                Ok(e) => e,
                Err(_) => Edge::UR,
            };
            i = i + 1;
        }
        r
    }

    /// Returns the edge orientations of the cube.
    pub fn get_eo(&self) -> (r: [u8; 12])
        ensures
            r@ == self@.eo,
    {
        self.eo
    }

    /// Compose this cube with `other`, restricted to the corners. Does not
    /// change `other`.
    #[verifier::loop_isolation(false)]
    pub fn corner_multiply(&mut self, other: Cube)
        requires
            old(self)@.wf(),
            other@.wf(),
        ensures
            final(self)@ == corner_mult(old(self)@, other@),
            final(self)@.wf(),
    {
        let mut new_cp: [u8; 8] = [0; 8];
        let mut new_co: [u8; 8] = [0; 8];
        let mut c: usize = 0;
        while c < 8
            invariant
                c <= 8,
                self == old(self),
                forall|j: int|
                    0 <= j < c ==> new_cp@[j] == perm_comp(self@.cp, other@.cp)[j] && new_co@[j]
                        == corner_ori_comp(self@.co, other@.cp, other@.co)[j],
            decreases 8 - c,
        {
            let src = other.cp[c] as usize;
            new_cp[c] = self.cp[src];
            new_co[c] = (self.co[src] + other.co[c]) % 3;
            c = c + 1;
        }
        self.cp = new_cp;
        self.co = new_co;
        proof {
            assert(self@.cp =~= corner_mult(old(self)@, other@).cp);
            assert(self@.co =~= corner_mult(old(self)@, other@).co);
            assert(self@ =~= corner_mult(old(self)@, other@));
        }
    }

    /// Compose this cube with `other`, restricted to the edges. Does not
    /// change `other`.
    #[verifier::loop_isolation(false)]
    pub fn edge_multiply(&mut self, other: Cube)
        requires
            old(self)@.wf(),
            other@.wf(),
        ensures
            final(self)@ == edge_mult(old(self)@, other@),
            final(self)@.wf(),
    {
        let mut new_ep: [u8; 12] = [0; 12];
        let mut new_eo: [u8; 12] = [0; 12];
        let mut e: usize = 0;
        while e < 12
            invariant
                e <= 12,
                self == old(self),
                forall|j: int|
                    0 <= j < e ==> new_ep@[j] == perm_comp(self@.ep, other@.ep)[j] && new_eo@[j]
                        == edge_ori_comp(self@.eo, other@.ep, other@.eo)[j],
            decreases 12 - e,
        {
            let src = other.ep[e] as usize;
            new_ep[e] = self.ep[src];
            new_eo[e] = (self.eo[src] + other.eo[e]) % 2;
            e = e + 1;
        }
        self.ep = new_ep;
        self.eo = new_eo;
        proof {
            assert(self@.ep =~= edge_mult(old(self)@, other@).ep);
            assert(self@.eo =~= edge_mult(old(self)@, other@).eo);
            assert(self@ =~= edge_mult(old(self)@, other@));
        }
    }

    /// Apply the move `other` to this cube: full group composition on both
    /// corners and edges.
    pub fn multiply(&mut self, other: Cube)
        requires
            old(self)@.wf(),
            other@.wf(),
        ensures
            final(self)@ == mult(old(self)@, other@),
            final(self)@.wf(),
    {
        self.corner_multiply(other);
        self.edge_multiply(other);
    }

    /// True exactly when no edge is flipped: the cube lies in the phase-1
    /// target subgroup.
    #[verifier::loop_isolation(false)]
    pub fn is_solved_phase_1(&self) -> (r: bool)
        ensures
            r == self@.phase1_solved(),
    {
        let mut i: usize = 0;
        while i < 12
            invariant
                i <= 12,
                forall|j: int| 0 <= j < i ==> self@.eo[j] == 0,
            decreases 12 - i,
        {
            if self.eo[i] != 0 {
                proof {
                    assert(self@.eo[i as int] != 0);
                }
                return false;
            }
            i = i + 1;
        }
        true
    }

    /// The parity of the corner permutation: 0 when the number of inversions
    /// is even, 1 when it is odd.
    #[verifier::loop_isolation(false)]
    pub fn corner_parity(&self) -> (r: u8)
        ensures
            r == perm_parity(self@.cp),
    {
        let mut count: u32 = 0;
        let mut i: usize = 0;
        while i < 8
            invariant
                i <= 8,
                count == inversions_upto(self@.cp, i as int),
                count <= 64,
            decreases 8 - i,
        {
            let mut j: usize = 0;
            while j < i
                invariant
                    j <= i < 8,
                    count == inversions_upto(self@.cp, i as int) + inv_at(self@.cp, i as int, j as int),
                    count <= 72,
                decreases i - j,
            {
                proof {
                    lemma_inversions_le(self@.cp, i as int);
                    lemma_inv_at_le(self@.cp, i as int, j as int);
                    assert((i as int) * (i as int) <= 64) by (nonlinear_arith)
                        requires i < 8;
                }
                if self.cp[j] > self.cp[i] {
                    count = count + 1;
                }
                j = j + 1;
            }
            i = i + 1;
            proof {
                lemma_inversions_le(self@.cp, i as int);
                assert((i as int) * (i as int) <= 64) by (nonlinear_arith)
                    requires i <= 8;
            }
        }
        (count % 2) as u8
    }

    /// The parity of the edge permutation. A solvable cube has the same
    /// corner and edge parity.
    #[verifier::loop_isolation(false)]
    pub fn edge_parity(&self) -> (r: u8)
        ensures
            r == perm_parity(self@.ep),
    {
        let mut count: u32 = 0;
        let mut i: usize = 0;
        while i < 12
            invariant
                i <= 12,
                count == inversions_upto(self@.ep, i as int),
                count <= 144,
            decreases 12 - i,
        {
            let mut j: usize = 0;
            while j < i
                invariant
                    j <= i < 12,
                    count == inversions_upto(self@.ep, i as int) + inv_at(self@.ep, i as int, j as int),
                    count <= 156,
                decreases i - j,
            {
                proof {
                    lemma_inversions_le(self@.ep, i as int);
                    lemma_inv_at_le(self@.ep, i as int, j as int);
                    assert((i as int) * (i as int) <= 144) by (nonlinear_arith)
                        requires i < 12;
                }
                if self.ep[j] > self.ep[i] {
                    count = count + 1;
                }
                j = j + 1;
            }
            i = i + 1;
            proof {
                lemma_inversions_le(self@.ep, i as int);
                assert((i as int) * (i as int) <= 144) by (nonlinear_arith)
                    requires i <= 12;
            }
        }
        (count % 2) as u8
    }

    /// Check the four solvability invariants, reporting the first that fails
    /// in the order: edge permutation, edge orientation sum, corner
    /// permutation, corner orientation sum, permutation parity.
    pub fn validate(&self) -> (r: Result<(), InvalidCubeState>)
        requires
            self@.wf(),
        ensures
            r == Ok::<(), InvalidCubeState>(()) <==> self@.valid(),
            r == Err::<(), InvalidCubeState>(InvalidCubeState::EdgePermutation) <==> !is_perm(
                self@.ep,
                12,
            ),
            r == Err::<(), InvalidCubeState>(InvalidCubeState::EdgeOrientationSum) <==> is_perm(
                self@.ep,
                12,
            ) && seq_sum(self@.eo) % 2 != 0,
            r == Err::<(), InvalidCubeState>(InvalidCubeState::CornerPermutation) <==> is_perm(
                self@.ep,
                12,
            ) && seq_sum(self@.eo) % 2 == 0 && !is_perm(self@.cp, 8),
            r == Err::<(), InvalidCubeState>(InvalidCubeState::CornerOrientationSum) <==> is_perm(
                self@.ep,
                12,
            ) && seq_sum(self@.eo) % 2 == 0 && is_perm(self@.cp, 8) && seq_sum(self@.co) % 3 != 0,
            r == Err::<(), InvalidCubeState>(InvalidCubeState::PermutationParity) <==> is_perm(
                self@.ep,
                12,
            ) && seq_sum(self@.eo) % 2 == 0 && is_perm(self@.cp, 8) && seq_sum(self@.co) % 3 == 0
                && perm_parity(self@.cp) != perm_parity(self@.ep),
    {
        if !self.edge_perm_ok() {
            return Err(InvalidCubeState::EdgePermutation);
        }
        if self.eo_sum() % 2 != 0 {
            return Err(InvalidCubeState::EdgeOrientationSum);
        }
        if !self.corner_perm_ok() {
            return Err(InvalidCubeState::CornerPermutation);
        }
        if self.co_sum() % 3 != 0 {
            return Err(InvalidCubeState::CornerOrientationSum);
        }
        if self.edge_parity() != self.corner_parity() {
            return Err(InvalidCubeState::PermutationParity);
        }
        Ok(())
    }

    /// Whether every edge piece occurs exactly once in the edge permutation.
    #[verifier::loop_isolation(false)]
    fn edge_perm_ok(&self) -> (r: bool)
        requires
            self@.wf(),
        ensures
            r == is_perm(self@.ep, 12),
    {
        let mut counts: [u8; 12] = [0; 12];
        let mut i: usize = 0;
        while i < 12
            invariant
                i <= 12,
                forall|v: int| 0 <= v < 12 ==> counts@[v] == count_val(self@.ep.take(i as int), v as u8),
            decreases 12 - i,
        {
            proof {
                lemma_count_le(self@.ep.take(i as int), self@.ep[i as int]);
                assert(self@.ep.take(i + 1).drop_last() =~= self@.ep.take(i as int));
                assert(self@.ep.take(i + 1).last() == self@.ep[i as int]);
            }
            counts[self.ep[i] as usize] = counts[self.ep[i] as usize] + 1;
            i = i + 1;
        }
        proof {
            assert(self@.ep.take(12) =~= self@.ep);
        }
        let mut v: usize = 0;
        while v < 12
            invariant
                v <= 12,
                forall|w: u8| w < v ==> #[trigger] count_val(self@.ep, w) == 1,
            decreases 12 - v,
        {
            if counts[v] != 1 {
                assert(count_val(self@.ep, v as u8) != 1);
                return false;
            }
            v = v + 1;
        }
        true
    }

    /// Whether every corner piece occurs exactly once in the corner
    /// permutation.
    #[verifier::loop_isolation(false)]
    fn corner_perm_ok(&self) -> (r: bool)
        requires
            self@.wf(),
        ensures
            r == is_perm(self@.cp, 8),
    {
        let mut counts: [u8; 8] = [0; 8];
        let mut i: usize = 0;
        while i < 8
            invariant
                i <= 8,
                forall|v: int| 0 <= v < 8 ==> counts@[v] == count_val(self@.cp.take(i as int), v as u8),
            decreases 8 - i,
        {
            proof {
                lemma_count_le(self@.cp.take(i as int), self@.cp[i as int]);
                assert(self@.cp.take(i + 1).drop_last() =~= self@.cp.take(i as int));
                assert(self@.cp.take(i + 1).last() == self@.cp[i as int]);
            }
            counts[self.cp[i] as usize] = counts[self.cp[i] as usize] + 1;
            i = i + 1;
        }
        proof {
            assert(self@.cp.take(8) =~= self@.cp);
        }
        let mut v: usize = 0;
        while v < 8
            invariant
                v <= 8,
                forall|w: u8| w < v ==> #[trigger] count_val(self@.cp, w) == 1,
            decreases 8 - v,
        {
            if counts[v] != 1 {
                assert(count_val(self@.cp, v as u8) != 1);
                return false;
            }
            v = v + 1;
        }
        true
    }

    /// The sum of all edge orientations.
    #[verifier::loop_isolation(false)]
    fn eo_sum(&self) -> (r: u8)
        requires
            self@.wf(),
        ensures
            r == seq_sum(self@.eo),
    {
        let mut sum: u8 = 0;
        let mut i: usize = 0;
        while i < 12
            invariant
                i <= 12,
                sum == seq_sum(self@.eo.take(i as int)),
                sum <= i,
            decreases 12 - i,
        {
            proof {
                assert(self@.eo.take(i + 1).drop_last() =~= self@.eo.take(i as int));
            }
            sum = sum + self.eo[i];
            i = i + 1;
        }
        proof {
            assert(self@.eo.take(12) =~= self@.eo);
        }
        sum
    }

    /// The sum of all corner orientations.
    #[verifier::loop_isolation(false)]
    fn co_sum(&self) -> (r: u8)
        requires
            self@.wf(),
        ensures
            r == seq_sum(self@.co),
    {
        let mut sum: u8 = 0;
        let mut i: usize = 0;
        while i < 8
            invariant
                i <= 8,
                sum == seq_sum(self@.co.take(i as int)),
                sum <= 2 * i,
            decreases 8 - i,
        {
            proof {
                assert(self@.co.take(i + 1).drop_last() =~= self@.co.take(i as int));
            }
            sum = sum + self.co[i];
            i = i + 1;
        }
        proof {
            assert(self@.co.take(8) =~= self@.co);
        }
        sum
    }
}

impl PartialEq for Cube {
    /// Two cubes are equal when all four components agree.
    #[verifier::loop_isolation(false)]
    fn eq(&self, other: &Cube) -> (r: bool) {
        let mut i: usize = 0;
        while i < 8
            invariant
                i <= 8,
                forall|j: int| 0 <= j < i ==> self@.cp[j] == other@.cp[j] && self@.co[j] == other@.co[j],
            decreases 8 - i,
        {
            if self.cp[i] != other.cp[i] || self.co[i] != other.co[i] {
                return false;
            }
            i = i + 1;
        }
        let mut i: usize = 0;
        while i < 12
            invariant
                i <= 12,
                forall|j: int| 0 <= j < i ==> self@.ep[j] == other@.ep[j] && self@.eo[j] == other@.eo[j],
            decreases 12 - i,
        {
            if self.ep[i] != other.ep[i] || self.eo[i] != other.eo[i] {
                return false;
            }
            i = i + 1;
        }
        proof {
            assert(self@.cp =~= other@.cp);
            assert(self@.co =~= other@.co);
            assert(self@.ep =~= other@.ep);
            assert(self@.eo =~= other@.eo);
            assert(self@ =~= other@);
        }
        true
    }
}

impl vstd::std_specs::cmp::PartialEqSpecImpl for Cube {
    open spec fn obeys_eq_spec() -> bool {
        true
    }

    open spec fn eq_spec(&self, other: &Cube) -> bool {
        self@ == other@
    }
}

} // verus!
