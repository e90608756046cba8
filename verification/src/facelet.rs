//! The facelet representation of a cube: 54 sticker colors, nine per face,
//! in the face order U, R, F, D, L, B, each face read row-major from its
//! top-left sticker. Converts bidirectionally to the cubie representation.

use crate::cube::CubeModel;
use crate::errors::CubeError;
use vstd::prelude::*;
use vstd::string::StringSliceAdditionalSpecFns;

verus! {

/// The possible colors of the cube facelets. Color `U` refers to the color of
/// the U(p) face, and so on; the colors also name the faces themselves.
#[derive(Clone, Copy, Debug, PartialEq, Eq, Structural)]
pub enum Color {
    U,
    R,
    F,
    D,
    L,
    B,
}

impl Color {
    /// The number of this color's face in the face order U, R, F, D, L, B.
    pub open spec fn as_index(self) -> u8 {
        match self {
            Color::U => 0,
            Color::R => 1,
            Color::F => 2,
            Color::D => 3,
            Color::L => 4,
            Color::B => 5,
        }
    }

    pub fn index(self) -> (r: u8)
        ensures
            r == self.as_index(),
    {
        match self {
            Color::U => 0,
            Color::R => 1,
            Color::F => 2,
            Color::D => 3,
            Color::L => 4,
            Color::B => 5,
        }
    }
}

/// The color of face number `f`.
pub open spec fn color_of_face(f: int) -> Color {
    if f == 0 {
        Color::U
    } else if f == 1 {
        Color::R
    } else if f == 2 {
        Color::F
    } else if f == 3 {
        Color::D
    } else if f == 4 {
        Color::L
    } else {
        Color::B
    }
}

/// The ASCII symbol of a color.
pub open spec fn color_symbol(c: Color) -> u8 {
    match c {
        Color::U => 85,
        Color::R => 82,
        Color::F => 70,
        Color::D => 68,
        Color::L => 76,
        Color::B => 66,
    }
}

/// The color written as an ASCII symbol, or nothing for any other byte.
pub open spec fn symbol_color(ch: u8) -> Option<Color> {
    if ch == 85 {
        Some(Color::U)
    } else if ch == 82 {
        Some(Color::R)
    } else if ch == 70 {
        Some(Color::F)
    } else if ch == 68 {
        Some(Color::D)
    } else if ch == 76 {
        Some(Color::L)
    } else if ch == 66 {
        Some(Color::B)
    } else {
        None
    }
}

/// How many stickers of `bytes` carry the symbol of color `c`.
pub open spec fn count_sym(bytes: Seq<u8>, c: Color) -> int
    decreases bytes.len(),
{
    if bytes.len() == 0 {
        0
    } else {
        count_sym(bytes.drop_last(), c) + if bytes.last() == color_symbol(c) {
            1int
        } else {
            0int
        }
    }
}

/// A facelet string is well-formed when it has exactly 54 bytes, every byte
/// is one of the six color symbols, and every color occurs exactly nine
/// times.
pub open spec fn facelets_well_formed(bytes: Seq<u8>) -> bool {
    &&& bytes.len() == 54
    &&& forall|i: int| 0 <= i < 54 ==> (#[trigger] symbol_color(bytes[i])) is Some
    &&& forall|c: Color| #[trigger] count_sym(bytes, c) == 9
}

/// The colors a well-formed facelet string spells out.
pub open spec fn colors_of_bytes(bytes: Seq<u8>) -> Seq<Color> {
    Seq::new(bytes.len(), |i: int| symbol_color(bytes[i]).unwrap())
}

/// The names of the 54 facelet positions: nine per face, row-major from the
/// top-left sticker, in the face order U, R, F, D, L, B.
#[derive(Clone, Copy, Debug, PartialEq, Eq, Structural)]
pub enum Facelet {
    U1,
    U2,
    U3,
    U4,
    U5,
    U6,
    U7,
    U8,
    U9,
    R1,
    R2,
    R3,
    R4,
    R5,
    R6,
    R7,
    R8,
    R9,
    F1,
    F2,
    F3,
    F4,
    F5,
    F6,
    F7,
    F8,
    F9,
    D1,
    D2,
    D3,
    D4,
    D5,
    D6,
    D7,
    D8,
    D9,
    L1,
    L2,
    L3,
    L4,
    L5,
    L6,
    L7,
    L8,
    L9,
    B1,
    B2,
    B3,
    B4,
    B5,
    B6,
    B7,
    B8,
    B9,
}

impl Facelet {
    /// The position number of this facelet in the 54-sticker string.
    pub open spec fn as_index(self) -> u8 {
        match self {
            Facelet::U1 => 0,
            Facelet::U2 => 1,
            Facelet::U3 => 2,
            Facelet::U4 => 3,
            Facelet::U5 => 4,
            Facelet::U6 => 5,
            Facelet::U7 => 6,
            Facelet::U8 => 7,
            Facelet::U9 => 8,
            Facelet::R1 => 9,
            Facelet::R2 => 10,
            Facelet::R3 => 11,
            Facelet::R4 => 12,
            Facelet::R5 => 13,
            Facelet::R6 => 14,
            Facelet::R7 => 15,
            Facelet::R8 => 16,
            Facelet::R9 => 17,
            Facelet::F1 => 18,
            Facelet::F2 => 19,
            Facelet::F3 => 20,
            Facelet::F4 => 21,
            Facelet::F5 => 22,
            Facelet::F6 => 23,
            Facelet::F7 => 24,
            Facelet::F8 => 25,
            Facelet::F9 => 26,
            Facelet::D1 => 27,
            Facelet::D2 => 28,
            Facelet::D3 => 29,
            Facelet::D4 => 30,
            Facelet::D5 => 31,
            Facelet::D6 => 32,
            Facelet::D7 => 33,
            Facelet::D8 => 34,
            Facelet::D9 => 35,
            Facelet::L1 => 36,
            Facelet::L2 => 37,
            Facelet::L3 => 38,
            Facelet::L4 => 39,
            Facelet::L5 => 40,
            Facelet::L6 => 41,
            Facelet::L7 => 42,
            Facelet::L8 => 43,
            Facelet::L9 => 44,
            Facelet::B1 => 45,
            Facelet::B2 => 46,
            Facelet::B3 => 47,
            Facelet::B4 => 48,
            Facelet::B5 => 49,
            Facelet::B6 => 50,
            Facelet::B7 => 51,
            Facelet::B8 => 52,
            Facelet::B9 => 53,
        }
    }

    pub fn index(self) -> (r: u8)
        ensures
            r == self.as_index(),
    {
        match self {
            Facelet::U1 => 0,
            Facelet::U2 => 1,
            Facelet::U3 => 2,
            Facelet::U4 => 3,
            Facelet::U5 => 4,
            Facelet::U6 => 5,
            Facelet::U7 => 6,
            Facelet::U8 => 7,
            Facelet::U9 => 8,
            Facelet::R1 => 9,
            Facelet::R2 => 10,
            Facelet::R3 => 11,
            Facelet::R4 => 12,
            Facelet::R5 => 13,
            Facelet::R6 => 14,
            Facelet::R7 => 15,
            Facelet::R8 => 16,
            Facelet::R9 => 17,
            Facelet::F1 => 18,
            Facelet::F2 => 19,
            Facelet::F3 => 20,
            Facelet::F4 => 21,
            Facelet::F5 => 22,
            Facelet::F6 => 23,
            Facelet::F7 => 24,
            Facelet::F8 => 25,
            Facelet::F9 => 26,
            Facelet::D1 => 27,
            Facelet::D2 => 28,
            Facelet::D3 => 29,
            Facelet::D4 => 30,
            Facelet::D5 => 31,
            Facelet::D6 => 32,
            Facelet::D7 => 33,
            Facelet::D8 => 34,
            Facelet::D9 => 35,
            Facelet::L1 => 36,
            Facelet::L2 => 37,
            Facelet::L3 => 38,
            Facelet::L4 => 39,
            Facelet::L5 => 40,
            Facelet::L6 => 41,
            Facelet::L7 => 42,
            Facelet::L8 => 43,
            Facelet::L9 => 44,
            Facelet::B1 => 45,
            Facelet::B2 => 46,
            Facelet::B3 => 47,
            Facelet::B4 => 48,
            Facelet::B5 => 49,
            Facelet::B6 => 50,
            Facelet::B7 => 51,
            Facelet::B8 => 52,
            Facelet::B9 => 53,
        }
    }
}


/// The facelet position of the `k`-th sticker of corner slot `c`.
pub open spec fn corner_facelet(c: int, k: int) -> int {
    if c == 0 {
        if k == 0 { 8 } else if k == 1 { 9 } else { 20 }
    } else if c == 1 {
        if k == 0 { 6 } else if k == 1 { 18 } else { 38 }
    } else if c == 2 {
        if k == 0 { 0 } else if k == 1 { 36 } else { 47 }
    } else if c == 3 {
        if k == 0 { 2 } else if k == 1 { 45 } else { 11 }
    } else if c == 4 {
        if k == 0 { 29 } else if k == 1 { 26 } else { 15 }
    } else if c == 5 {
        if k == 0 { 27 } else if k == 1 { 44 } else { 24 }
    } else if c == 6 {
        if k == 0 { 33 } else if k == 1 { 53 } else { 42 }
    } else {
        if k == 0 { 35 } else if k == 1 { 17 } else { 51 }
    }
}

/// The `k`-th sticker color of corner piece `c`; the first is its U or D sticker.
pub open spec fn corner_color(c: int, k: int) -> Color {
    if c == 0 {
        if k == 0 { Color::U } else if k == 1 { Color::R } else { Color::F }
    } else if c == 1 {
        if k == 0 { Color::U } else if k == 1 { Color::F } else { Color::L }
    } else if c == 2 {
        if k == 0 { Color::U } else if k == 1 { Color::L } else { Color::B }
    } else if c == 3 {
        if k == 0 { Color::U } else if k == 1 { Color::B } else { Color::R }
    } else if c == 4 {
        if k == 0 { Color::D } else if k == 1 { Color::F } else { Color::R }
    } else if c == 5 {
        if k == 0 { Color::D } else if k == 1 { Color::L } else { Color::F }
    } else if c == 6 {
        if k == 0 { Color::D } else if k == 1 { Color::B } else { Color::L }
    } else {
        if k == 0 { Color::D } else if k == 1 { Color::R } else { Color::B }
    }
}

/// The facelet position of the `k`-th sticker of edge slot `e`.
pub open spec fn edge_facelet(c: int, k: int) -> int {
    if c == 0 {
        if k == 0 { 5 } else { 10 }
    } else if c == 1 {
        if k == 0 { 7 } else { 19 }
    } else if c == 2 {
        if k == 0 { 3 } else { 37 }
    } else if c == 3 {
        if k == 0 { 1 } else { 46 }
    } else if c == 4 {
        if k == 0 { 32 } else { 16 }
    } else if c == 5 {
        if k == 0 { 28 } else { 25 }
    } else if c == 6 {
        if k == 0 { 30 } else { 43 }
    } else if c == 7 {
        if k == 0 { 34 } else { 52 }
    } else if c == 8 {
        if k == 0 { 23 } else { 12 }
    } else if c == 9 {
        if k == 0 { 21 } else { 41 }
    } else if c == 10 {
        if k == 0 { 50 } else { 39 }
    } else {
        if k == 0 { 48 } else { 14 }
    }
}

/// The `k`-th sticker color of edge piece `e`.
pub open spec fn edge_color(c: int, k: int) -> Color {
    if c == 0 {
        if k == 0 { Color::U } else { Color::R }
    } else if c == 1 {
        if k == 0 { Color::U } else { Color::F }
    } else if c == 2 {
        if k == 0 { Color::U } else { Color::L }
    } else if c == 3 {
        if k == 0 { Color::U } else { Color::B }
    } else if c == 4 {
        if k == 0 { Color::D } else { Color::R }
    } else if c == 5 {
        if k == 0 { Color::D } else { Color::F }
    } else if c == 6 {
        if k == 0 { Color::D } else { Color::L }
    } else if c == 7 {
        if k == 0 { Color::D } else { Color::B }
    } else if c == 8 {
        if k == 0 { Color::F } else { Color::R }
    } else if c == 9 {
        if k == 0 { Color::F } else { Color::L }
    } else if c == 10 {
        if k == 0 { Color::B } else { Color::L }
    } else {
        if k == 0 { Color::B } else { Color::R }
    }
}

/// Executable mirror of `corner_facelet`.
fn corner_facelet_pos(c: usize, k: usize) -> (r: usize)
    requires
        c < 8,
        k < 3,
    ensures
        r == corner_facelet(c as int, k as int),
        r < 54,
{
    let t: [usize; 3] = match c {
        0 => [8, 9, 20],
        1 => [6, 18, 38],
        2 => [0, 36, 47],
        3 => [2, 45, 11],
        4 => [29, 26, 15],
        5 => [27, 44, 24],
        6 => [33, 53, 42],
        _ => [35, 17, 51],
    };
    t[k]
}

/// Executable mirror of `corner_color`.
fn corner_color_at(c: u8, k: usize) -> (r: Color)
    requires
        c < 8,
        k < 3,
    ensures
        r == corner_color(c as int, k as int),
{
    let t: [Color; 3] = match c {
        0 => [Color::U, Color::R, Color::F],
        1 => [Color::U, Color::F, Color::L],
        2 => [Color::U, Color::L, Color::B],
        3 => [Color::U, Color::B, Color::R],
        4 => [Color::D, Color::F, Color::R],
        5 => [Color::D, Color::L, Color::F],
        6 => [Color::D, Color::B, Color::L],
        _ => [Color::D, Color::R, Color::B],
    };
    t[k]
}

/// Executable mirror of `edge_facelet`.
fn edge_facelet_pos(c: usize, k: usize) -> (r: usize)
    requires
        c < 12,
        k < 2,
    ensures
        r == edge_facelet(c as int, k as int),
        r < 54,
{
    let t: [usize; 2] = match c {
        0 => [5, 10],
        1 => [7, 19],
        2 => [3, 37],
        3 => [1, 46],
        4 => [32, 16],
        5 => [28, 25],
        6 => [30, 43],
        7 => [34, 52],
        8 => [23, 12],
        9 => [21, 41],
        10 => [50, 39],
        _ => [48, 14],
    };
    t[k]
}

/// Executable mirror of `edge_color`.
fn edge_color_at(c: u8, k: usize) -> (r: Color)
    requires
        c < 12,
        k < 2,
    ensures
        r == edge_color(c as int, k as int),
{
    let t: [Color; 2] = match c {
        0 => [Color::U, Color::R],
        1 => [Color::U, Color::F],
        2 => [Color::U, Color::L],
        3 => [Color::U, Color::B],
        4 => [Color::D, Color::R],
        5 => [Color::D, Color::F],
        6 => [Color::D, Color::L],
        7 => [Color::D, Color::B],
        8 => [Color::F, Color::R],
        9 => [Color::F, Color::L],
        10 => [Color::B, Color::L],
        _ => [Color::B, Color::R],
    };
    t[k]
}

/// The surface of a cube: one color per sticker position.
#[derive(Clone, Copy, Debug)]
pub struct FaceCube {
    pub facelets: [Color; 54],
}

impl View for FaceCube {
    type V = Seq<Color>;

    open spec fn view(&self) -> Seq<Color> {
        self.facelets@
    }
}

/// The surface of the solved cube: face `f` uniformly in color `f`.
pub open spec fn solved_facelets() -> Seq<Color> {
    Seq::new(54, |i: int| color_of_face(i / 9))
}

/// No value occurs more often than the sequence is long.
proof fn lemma_count_sym_le(bytes: Seq<u8>, c: Color)
    ensures
        0 <= count_sym(bytes, c) <= bytes.len(),
    decreases bytes.len(),
{
    if bytes.len() > 0 {
        lemma_count_sym_le(bytes.drop_last(), c);
    }
}

impl FaceCube {
    /// The surface of a solved cube.
    #[verifier::loop_isolation(false)]
    pub fn new() -> (r: FaceCube)
        ensures
            r@ == solved_facelets(),
    {
        let mut facelets: [Color; 54] = [Color::U; 54];
        let mut i: usize = 9;
        while i < 18
            invariant
                9 <= i <= 18,
                forall|j: int| 0 <= j < i ==> facelets@[j] == color_of_face(j / 9),
            decreases 18 - i,
        {
            facelets[i] = Color::R;
            i = i + 1;
        }
        while i < 27
            invariant
                18 <= i <= 27,
                forall|j: int| 0 <= j < i ==> facelets@[j] == color_of_face(j / 9),
            decreases 27 - i,
        {
            facelets[i] = Color::F;
            i = i + 1;
        }
        while i < 36
            invariant
                27 <= i <= 36,
                forall|j: int| 0 <= j < i ==> facelets@[j] == color_of_face(j / 9),
            decreases 36 - i,
        {
            facelets[i] = Color::D;
            i = i + 1;
        }
        while i < 45
            invariant
                36 <= i <= 45,
                forall|j: int| 0 <= j < i ==> facelets@[j] == color_of_face(j / 9),
            decreases 45 - i,
        {
            facelets[i] = Color::L;
            i = i + 1;
        }
        while i < 54
            invariant
                45 <= i <= 54,
                forall|j: int| 0 <= j < i ==> facelets@[j] == color_of_face(j / 9),
            decreases 54 - i,
        {
            facelets[i] = Color::B;
            i = i + 1;
        }
        let r = FaceCube { facelets };
        proof {
            assert(r@ =~= solved_facelets());
        }
        r
    }

    /// Paint one sticker position.
    pub fn set_facelet(&mut self, index: usize, new_color: Color)
        requires
            index < 54,
        ensures
            final(self)@ == old(self)@.update(index as int, new_color),
    {
        self.facelets[index] = new_color;
    }

    /// Parse a facelet string: 54 symbols from `{U, R, F, D, L, B}`, each
    /// appearing exactly nine times; anything else is malformed.
    #[verifier::loop_isolation(false)]
    pub fn from_string(str_cube: &str) -> (r: Result<FaceCube, CubeError>)
        ensures
            facelets_well_formed(str_cube.spec_bytes()) ==> (r matches Ok(fc) && fc@
                == colors_of_bytes(str_cube.spec_bytes())),
            !facelets_well_formed(str_cube.spec_bytes()) ==> r == Err::<FaceCube, CubeError>(
                CubeError::MalformedFacelets,
            ),
    {
        let bytes = str_cube.as_bytes();
        let ghost bs = str_cube.spec_bytes();
        if bytes.len() != 54 {
            return Err(CubeError::MalformedFacelets);
        }
        let mut facelets: [Color; 54] = [Color::U; 54];
        let mut counts: [u8; 6] = [0; 6];
        let mut i: usize = 0;
        while i < 54
            invariant
                i <= 54,
                forall|j: int| 0 <= j < i ==> (#[trigger] symbol_color(bs[j])) is Some,
                forall|j: int| 0 <= j < i ==> facelets@[j] == symbol_color(bs[j]).unwrap(),
                forall|ci: int|
                    0 <= ci < 6 ==> counts@[ci] == count_sym(bs.take(i as int), color_of_face(ci)),
            decreases 54 - i,
        {
            proof {
                assert forall|c: Color| #[trigger] count_sym(bs.take(i + 1), c) == count_sym(
                    bs.take(i as int),
                    c,
                ) + if bs[i as int] == color_symbol(c) {
                    1int
                } else {
                    0int
                } by {
                    assert(bs.take(i + 1).drop_last() =~= bs.take(i as int));
                    assert(bs.take(i + 1).last() == bs[i as int]);
                }
                assert forall|c: Color| 0 <= #[trigger] count_sym(bs.take(i as int), c) <= i by {
                    lemma_count_sym_le(bs.take(i as int), c);
                }
            }
            let ch = bytes[i];
            let color = if ch == 85 {
                Color::U
            } else if ch == 82 {
                Color::R
            } else if ch == 70 {
                Color::F
            } else if ch == 68 {
                Color::D
            } else if ch == 76 {
                Color::L
            } else if ch == 66 {
                Color::B
            } else {
                return Err(CubeError::MalformedFacelets);
            };
            facelets[i] = color;
            let ci = color.index() as usize;
            counts[ci] = counts[ci] + 1;
            proof {
                assert(color_of_face(ci as int) == color);
                assert(symbol_color(bs[i as int]) == Some(color));
            }
            i = i + 1;
        }
        proof {
            assert(bs.take(54) =~= bs);
        }
        let mut ci: usize = 0;
        while ci < 6
            invariant
                ci <= 6,
                forall|cj: int| 0 <= cj < ci ==> count_sym(bs, color_of_face(cj)) == 9,
            decreases 6 - ci,
        {
            if counts[ci] != 9 {
                proof {
                    assert(count_sym(bs, color_of_face(ci as int)) != 9);
                }
                return Err(CubeError::MalformedFacelets);
            }
            ci = ci + 1;
        }
        let r = FaceCube { facelets };
        proof {
            assert forall|c: Color| #[trigger] count_sym(bs, c) == 9 by {
                assert(count_sym(bs, color_of_face(c.as_index() as int)) == 9);
                assert(color_of_face(c.as_index() as int) == c);
            }
            assert(facelets_well_formed(bs));
            assert(r@ =~= colors_of_bytes(bs));
        }
        Ok(r)
    }

    /// The facelet string of this surface.
    #[verifier::loop_isolation(false)]
    pub fn to_string(self) -> (r: String)
        ensures
            r@.len() == 54,
            forall|i: int| 0 <= i < 54 ==> r@[i] == color_symbol(self@[i]) as char,
    {
        let mut r = String::new();
        proof {
            reveal_strlit("U");
            reveal_strlit("R");
            reveal_strlit("F");
            reveal_strlit("D");
            reveal_strlit("L");
            reveal_strlit("B");
        }
        let mut i: usize = 0;
        while i < 54
            invariant
                i <= 54,
                r@.len() == i,
                forall|j: int| 0 <= j < i ==> r@[j] == color_symbol(self@[j]) as char,
            decreases 54 - i,
        {
            proof {
                reveal_strlit("U");
                reveal_strlit("R");
                reveal_strlit("F");
                reveal_strlit("D");
                reveal_strlit("L");
                reveal_strlit("B");
            }
            match self.facelets[i] {
                Color::U => r.append("U"),
                Color::R => r.append("R"),
                Color::F => r.append("F"),
                Color::D => r.append("D"),
                Color::L => r.append("L"),
                Color::B => r.append("B"),
            }
            i = i + 1;
        }
        r
    }
}


/// Distinct corner stickers occupy distinct facelet positions.
#[verifier::rlimit(100)]
proof fn lemma_corner_facelet_injective()
    ensures
        forall|c1: int, k1: int, c2: int, k2: int|
            0 <= c1 < 8 && 0 <= k1 < 3 && 0 <= c2 < 8 && 0 <= k2 < 3 && (c1 != c2 || k1 != k2)
                ==> #[trigger] corner_facelet(c1, k1) != #[trigger] corner_facelet(c2, k2),
{
}

/// Distinct edge stickers occupy distinct facelet positions.
#[verifier::rlimit(100)]
proof fn lemma_edge_facelet_injective()
    ensures
        forall|e1: int, k1: int, e2: int, k2: int|
            0 <= e1 < 12 && 0 <= k1 < 2 && 0 <= e2 < 12 && 0 <= k2 < 2 && (e1 != e2 || k1 != k2)
                ==> #[trigger] edge_facelet(e1, k1) != #[trigger] edge_facelet(e2, k2),
{
}

/// Corner and edge stickers never share a position, and neither ever claims
/// a face's center sticker (the positions with remainder 4 modulo 9).
#[verifier::rlimit(100)]
proof fn lemma_facelet_positions_disjoint()
    ensures
        forall|c: int, k1: int, e: int, k2: int|
            0 <= c < 8 && 0 <= k1 < 3 && 0 <= e < 12 && 0 <= k2 < 2 ==> #[trigger] corner_facelet(
                c,
                k1,
            ) != #[trigger] edge_facelet(e, k2),
        forall|c: int, k: int|
            0 <= c < 8 && 0 <= k < 3 ==> #[trigger] corner_facelet(c, k) % 9 != 4,
        forall|e: int, k: int| 0 <= e < 12 && 0 <= k < 2 ==> #[trigger] edge_facelet(e, k) % 9 != 4,
{
}

/// The facelet surface that a cubie state spells out: each piece's stickers
/// painted at its slot's positions, rotated by the slot's orientation, and
/// each face's center sticker in the face's own color.
pub open spec fn encodes(f: Seq<Color>, m: CubeModel) -> bool {
    &&& f.len() == 54
    &&& forall|i: int, k: int|
        0 <= i < 8 && 0 <= k < 3 ==> f[corner_facelet(i, (k + m.co[i]) % 3)]
            == #[trigger] corner_color(m.cp[i] as int, k)
    &&& forall|i: int, k: int|
        0 <= i < 12 && 0 <= k < 2 ==> f[edge_facelet(i, (k + m.eo[i]) % 2)]
            == #[trigger] edge_color(m.ep[i] as int, k)
    &&& f[4] == Color::U
    &&& f[13] == Color::R
    &&& f[22] == Color::F
    &&& f[31] == Color::D
    &&& f[40] == Color::L
    &&& f[49] == Color::B
}

impl crate::cube::Cube {
    /// The facelet representation of this cube state.
    #[verifier::loop_isolation(false)]
    pub fn to_facelet_cube(self) -> (r: FaceCube)
        requires
            self@.wf(),
        ensures
            encodes(r@, self@),
    {
        proof {
            lemma_corner_facelet_injective();
            lemma_edge_facelet_injective();
            lemma_facelet_positions_disjoint();
        }
        let mut fc = FaceCube::new();
        let mut i: usize = 0;
        while i < 8
            invariant
                i <= 8,
                fc@.len() == 54,
                forall|i2: int, k2: int|
                    0 <= i2 < i && 0 <= k2 < 3 ==> fc@[corner_facelet(i2, (k2 + self@.co[i2]) % 3)]
                        == #[trigger] corner_color(self@.cp[i2] as int, k2),
                fc@[4] == Color::U && fc@[13] == Color::R && fc@[22] == Color::F && fc@[31]
                    == Color::D && fc@[40] == Color::L && fc@[49] == Color::B,
            decreases 8 - i,
        {
            let ori = self.co[i] as usize;
            let piece = self.cp[i];
            let mut k: usize = 0;
            while k < 3
                invariant
                    k <= 3,
                    fc@.len() == 54,
                    forall|i2: int, k2: int|
                        0 <= i2 < i && 0 <= k2 < 3 ==> fc@[corner_facelet(
                            i2,
                            (k2 + self@.co[i2]) % 3,
                        )] == #[trigger] corner_color(self@.cp[i2] as int, k2),
                    forall|k2: int|
                        0 <= k2 < k ==> fc@[corner_facelet(i as int, (k2 + self@.co[i as int]) % 3)]
                            == #[trigger] corner_color(self@.cp[i as int] as int, k2),
                    fc@[4] == Color::U && fc@[13] == Color::R && fc@[22] == Color::F && fc@[31]
                        == Color::D && fc@[40] == Color::L && fc@[49] == Color::B,
                decreases 3 - k,
            {
                let pos = corner_facelet_pos(i, (k + ori) % 3);
                let col = corner_color_at(piece, k);
                fc.set_facelet(pos, col);
                k = k + 1;
            }
            i = i + 1;
        }
        let mut i: usize = 0;
        while i < 12
            invariant
                i <= 12,
                fc@.len() == 54,
                forall|i2: int, k2: int|
                    0 <= i2 < 8 && 0 <= k2 < 3 ==> fc@[corner_facelet(i2, (k2 + self@.co[i2]) % 3)]
                        == #[trigger] corner_color(self@.cp[i2] as int, k2),
                forall|i2: int, k2: int|
                    0 <= i2 < i && 0 <= k2 < 2 ==> fc@[edge_facelet(i2, (k2 + self@.eo[i2]) % 2)]
                        == #[trigger] edge_color(self@.ep[i2] as int, k2),
                fc@[4] == Color::U && fc@[13] == Color::R && fc@[22] == Color::F && fc@[31]
                    == Color::D && fc@[40] == Color::L && fc@[49] == Color::B,
            decreases 12 - i,
        {
            let ori = self.eo[i] as usize;
            let piece = self.ep[i];
            let mut k: usize = 0;
            while k < 2
                invariant
                    k <= 2,
                    fc@.len() == 54,
                    forall|i2: int, k2: int|
                        0 <= i2 < 8 && 0 <= k2 < 3 ==> fc@[corner_facelet(
                            i2,
                            (k2 + self@.co[i2]) % 3,
                        )] == #[trigger] corner_color(self@.cp[i2] as int, k2),
                    forall|i2: int, k2: int|
                        0 <= i2 < i && 0 <= k2 < 2 ==> fc@[edge_facelet(
                            i2,
                            (k2 + self@.eo[i2]) % 2,
                        )] == #[trigger] edge_color(self@.ep[i2] as int, k2),
                    forall|k2: int|
                        0 <= k2 < k ==> fc@[edge_facelet(i as int, (k2 + self@.eo[i as int]) % 2)]
                            == #[trigger] edge_color(self@.ep[i as int] as int, k2),
                    fc@[4] == Color::U && fc@[13] == Color::R && fc@[22] == Color::F && fc@[31]
                        == Color::D && fc@[40] == Color::L && fc@[49] == Color::B,
                decreases 2 - k,
            {
                let pos = edge_facelet_pos(i, (k + ori) % 2);
                let col = edge_color_at(piece, k);
                fc.set_facelet(pos, col);
                k = k + 1;
            }
            i = i + 1;
        }
        fc
    }
}

/// Whether a sticker carries the color of the vertical (U/D) axis.
pub open spec fn is_ud(c: Color) -> bool {
    c == Color::U || c == Color::D
}

/// The orientation a corner slot's stickers spell out: which of the three
/// carries the U or D color. 3 means none does, so no decoding exists.
pub open spec fn corner_ori_at(f: Seq<Color>, i: int) -> int {
    if is_ud(f[corner_facelet(i, 0)]) {
        0
    } else if is_ud(f[corner_facelet(i, 1)]) {
        1
    } else if is_ud(f[corner_facelet(i, 2)]) {
        2
    } else {
        3
    }
}

/// Whether corner piece `j` matches the two non-vertical sticker colors that
/// slot `i` shows, read from its decoded orientation onward.
pub open spec fn corner_match(f: Seq<Color>, i: int, j: int) -> bool {
    let ori = corner_ori_at(f, i);
    &&& f[corner_facelet(i, (ori + 1) % 3)] == corner_color(j, 1)
    &&& f[corner_facelet(i, (ori + 2) % 3)] == corner_color(j, 2)
}

/// The first corner piece from `j` onward that matches slot `i`; 8 when none
/// does.
pub open spec fn first_corner_match(f: Seq<Color>, i: int, j: int) -> int
    decreases 8 - j,
{
    if j < 0 || j >= 8 {
        8
    } else if corner_match(f, i, j) {
        j
    } else {
        first_corner_match(f, i, j + 1)
    }
}

/// Whether edge piece `j` matches the two sticker colors of slot `i` in the
/// piece's own order.
pub open spec fn edge_direct(f: Seq<Color>, i: int, j: int) -> bool {
    f[edge_facelet(i, 0)] == edge_color(j, 0) && f[edge_facelet(i, 1)] == edge_color(j, 1)
}

/// Whether edge piece `j` matches the two sticker colors of slot `i` in the
/// reversed order.
pub open spec fn edge_flipped(f: Seq<Color>, i: int, j: int) -> bool {
    f[edge_facelet(i, 0)] == edge_color(j, 1) && f[edge_facelet(i, 1)] == edge_color(j, 0)
}

/// The first edge piece from `j` onward that matches slot `i` directly or
/// reversed; 12 when none does.
pub open spec fn first_edge_match(f: Seq<Color>, i: int, j: int) -> int
    decreases 12 - j,
{
    if j < 0 || j >= 12 {
        12
    } else if edge_direct(f, i, j) || edge_flipped(f, i, j) {
        j
    } else {
        first_edge_match(f, i, j + 1)
    }
}

/// The flip an edge slot's stickers spell out: 0 when the matching piece
/// reads in its own order, 1 when reversed.
pub open spec fn edge_ori_at(f: Seq<Color>, i: int) -> int {
    if edge_direct(f, i, first_edge_match(f, i, 0)) {
        0
    } else {
        1
    }
}

/// Whether every slot of a facelet surface names some piece and orientation.
pub open spec fn decodable(f: Seq<Color>) -> bool {
    &&& f.len() == 54
    &&& forall|i: int| 0 <= i < 8 ==> #[trigger] corner_ori_at(f, i) < 3
    &&& forall|i: int| 0 <= i < 8 ==> #[trigger] first_corner_match(f, i, 0) < 8
    &&& forall|i: int| 0 <= i < 12 ==> #[trigger] first_edge_match(f, i, 0) < 12
}

/// The cubie state a decodable facelet surface spells out.
pub open spec fn decoded(f: Seq<Color>) -> CubeModel {
    CubeModel {
        cp: Seq::new(8, |i: int| first_corner_match(f, i, 0) as u8),
        co: Seq::new(8, |i: int| corner_ori_at(f, i) as u8),
        ep: Seq::new(12, |i: int| first_edge_match(f, i, 0) as u8),
        eo: Seq::new(12, |i: int| edge_ori_at(f, i) as u8),
    }
}

impl FaceCube {
    /// The cubie state this surface spells out, or a conversion failure when
    /// some slot's stickers name no piece and orientation.
    #[verifier::loop_isolation(false)]
    pub fn to_cubie_cube(self) -> (r: Result<crate::cube::Cube, CubeError>)
        ensures
            decodable(self@) ==> (r matches Ok(c) && c@ == decoded(self@) && c@.wf()),
            !decodable(self@) ==> r == Err::<crate::cube::Cube, CubeError>(
                CubeError::ConversionFailure,
            ),
    {
        let mut cp: [u8; 8] = [0; 8];
        let mut co: [u8; 8] = [0; 8];
        let mut ep: [u8; 12] = [0; 12];
        let mut eo: [u8; 12] = [0; 12];
        let mut i: usize = 0;
        while i < 8
            invariant
                i <= 8,
                forall|i2: int|
                    0 <= i2 < i ==> #[trigger] corner_ori_at(self@, i2) < 3 && first_corner_match(
                        self@,
                        i2,
                        0,
                    ) < 8,
                forall|i2: int|
                    0 <= i2 < i ==> co@[i2] == corner_ori_at(self@, i2) && cp@[i2]
                        == first_corner_match(self@, i2, 0),
            decreases 8 - i,
        {
            let f0 = self.facelets[corner_facelet_pos(i, 0)];
            let f1 = self.facelets[corner_facelet_pos(i, 1)];
            let f2 = self.facelets[corner_facelet_pos(i, 2)];
            let ori: usize = if f0 == Color::U || f0 == Color::D {
                0
            } else if f1 == Color::U || f1 == Color::D {
                1
            } else if f2 == Color::U || f2 == Color::D {
                2
            } else {
                proof {
                    assert(corner_ori_at(self@, i as int) == 3);
                }
                return Err(CubeError::ConversionFailure);
            };
            proof {
                assert(ori == corner_ori_at(self@, i as int));
            }
            let col1 = self.facelets[corner_facelet_pos(i, (ori + 1) % 3)];
            let col2 = self.facelets[corner_facelet_pos(i, (ori + 2) % 3)];
            let mut j: usize = 0;
            #[verifier::loop_isolation(true)]
            while j < 8
                invariant_except_break
                    j <= 8,
                    i < 8,
                    ori == corner_ori_at(self@, i as int),
                    0 <= corner_ori_at(self@, i as int) < 3,
                    col1 == self@[corner_facelet(i as int, (corner_ori_at(self@, i as int) + 1) % 3)],
                    col2 == self@[corner_facelet(i as int, (corner_ori_at(self@, i as int) + 2) % 3)],
                    first_corner_match(self@, i as int, 0) == first_corner_match(
                        self@,
                        i as int,
                        j as int,
                    ),
                ensures
                    j <= 8,
                    j < 8 ==> first_corner_match(self@, i as int, 0) == j,
                    j == 8 ==> first_corner_match(self@, i as int, 0) == 8,
                decreases 8 - j,
            {
                let c1 = corner_color_at(j as u8, 1);
                let c2 = corner_color_at(j as u8, 2);
                if col1 == c1 && col2 == c2 {
                    proof {
                        assert(corner_match(self@, i as int, j as int));
                    }
                    break ;
                }
                proof {
                    assert(!corner_match(self@, i as int, j as int));
                }
                j = j + 1;
            }
            if j == 8 {
                return Err(CubeError::ConversionFailure);
            }
            cp[i] = j as u8;
            co[i] = ori as u8;
            i = i + 1;
        }
        let mut i: usize = 0;
        while i < 12
            invariant
                i <= 12,
                forall|i2: int|
                    0 <= i2 < 8 ==> #[trigger] corner_ori_at(self@, i2) < 3 && first_corner_match(
                        self@,
                        i2,
                        0,
                    ) < 8,
                forall|i2: int|
                    0 <= i2 < 8 ==> co@[i2] == corner_ori_at(self@, i2) && cp@[i2]
                        == first_corner_match(self@, i2, 0),
                forall|i2: int| 0 <= i2 < i ==> #[trigger] first_edge_match(self@, i2, 0) < 12,
                forall|i2: int|
                    0 <= i2 < i ==> ep@[i2] == first_edge_match(self@, i2, 0) && eo@[i2]
                        == edge_ori_at(self@, i2),
            decreases 12 - i,
        {
            let g0 = self.facelets[edge_facelet_pos(i, 0)];
            let g1 = self.facelets[edge_facelet_pos(i, 1)];
            let mut flip: u8 = 0;
            let mut j: usize = 0;
            #[verifier::loop_isolation(true)]
            while j < 12
                invariant_except_break
                    j <= 12,
                    i < 12,
                    g0 == self@[edge_facelet(i as int, 0)],
                    g1 == self@[edge_facelet(i as int, 1)],
                    first_edge_match(self@, i as int, 0) == first_edge_match(
                        self@,
                        i as int,
                        j as int,
                    ),
                ensures
                    j <= 12,
                    j < 12 ==> first_edge_match(self@, i as int, 0) == j && flip == edge_ori_at(
                        self@,
                        i as int,
                    ),
                    j == 12 ==> first_edge_match(self@, i as int, 0) == 12,
                decreases 12 - j,
            {
                let e0 = edge_color_at(j as u8, 0);
                let e1 = edge_color_at(j as u8, 1);
                if g0 == e0 && g1 == e1 {
                    flip = 0;
                    proof {
                        assert(edge_direct(self@, i as int, j as int));
                    }
                    break ;
                }
                if g0 == e1 && g1 == e0 {
                    flip = 1;
                    proof {
                        assert(edge_flipped(self@, i as int, j as int));
                        assert(!edge_direct(self@, i as int, j as int) ==> edge_ori_at(
                            self@,
                            i as int,
                        ) == 1);
                    }
                    break ;
                }
                proof {
                    assert(!edge_direct(self@, i as int, j as int));
                    assert(!edge_flipped(self@, i as int, j as int));
                }
                j = j + 1;
            }
            if j == 12 {
                return Err(CubeError::ConversionFailure);
            }
            ep[i] = j as u8;
            eo[i] = flip;
            i = i + 1;
        }
        let r = crate::cube::Cube { cp, co, ep, eo };
        proof {
            assert(r@.cp =~= decoded(self@).cp);
            assert(r@.co =~= decoded(self@).co);
            assert(r@.ep =~= decoded(self@).ep);
            assert(r@.eo =~= decoded(self@).eo);
            assert(r@ =~= decoded(self@));
        }
        Ok(r)
    }
}

/// Every corner piece carries its U or D sticker first, and no two pieces
/// share their pair of side colors.
#[verifier::rlimit(100)]
proof fn lemma_corner_color_classes()
    ensures
        forall|j: int|
            0 <= j < 8 ==> is_ud(#[trigger] corner_color(j, 0)) && !is_ud(corner_color(j, 1))
                && !is_ud(corner_color(j, 2)),
        forall|j1: int, j2: int|
            0 <= j1 < 8 && 0 <= j2 < 8 && j1 != j2 ==> !(#[trigger] corner_color(j1, 1)
                == #[trigger] corner_color(j2, 1) && corner_color(j1, 2) == corner_color(j2, 2)),
{
}

/// No edge piece repeats a color, no two pieces share their ordered color
/// pair, and no piece's pair is another's pair reversed.
#[verifier::rlimit(100)]
proof fn lemma_edge_color_classes()
    ensures
        forall|j: int| 0 <= j < 12 ==> #[trigger] edge_color(j, 0) != edge_color(j, 1),
        forall|j1: int, j2: int|
            0 <= j1 < 12 && 0 <= j2 < 12 && j1 != j2 ==> !(#[trigger] edge_color(j1, 0)
                == #[trigger] edge_color(j2, 0) && edge_color(j1, 1) == edge_color(j2, 1)),
        forall|j1: int, j2: int|
            0 <= j1 < 12 && 0 <= j2 < 12 ==> !(#[trigger] edge_color(j1, 0) == #[trigger] edge_color(
                j2,
                1,
            ) && edge_color(j1, 1) == edge_color(j2, 0)),
{
}

/// When `p` is the only matching corner piece from `q` onward, the scan from
/// `q` finds exactly `p`.
proof fn lemma_first_corner_from(f: Seq<Color>, i: int, p: int, q: int)
    requires
        0 <= q <= p < 8,
        corner_match(f, i, p),
        forall|j: int| q <= j < p ==> !corner_match(f, i, j),
    ensures
        first_corner_match(f, i, q) == p,
    decreases p - q,
{
    if q < p {
        lemma_first_corner_from(f, i, p, q + 1);
    }
}

/// When `p` is the only matching edge piece from `q` onward, the scan from
/// `q` finds exactly `p`.
proof fn lemma_first_edge_from(f: Seq<Color>, i: int, p: int, q: int)
    requires
        0 <= q <= p < 12,
        edge_direct(f, i, p) || edge_flipped(f, i, p),
        forall|j: int| q <= j < p ==> !edge_direct(f, i, j) && !edge_flipped(f, i, j),
    ensures
        first_edge_match(f, i, q) == p,
    decreases p - q,
{
    if q < p {
        lemma_first_edge_from(f, i, p, q + 1);
    }
}

/// A corner slot of an encoded surface decodes to the piece and twist that
/// were encoded.
#[verifier::rlimit(100)]
#[verifier::spinoff_prover]
proof fn lemma_corner_slot_decode(f: Seq<Color>, m: CubeModel, i: int)
    requires
        m.wf(),
        encodes(f, m),
        0 <= i < 8,
    ensures
        corner_ori_at(f, i) == m.co[i],
        first_corner_match(f, i, 0) == m.cp[i],
    decreases 0int,
{
    let c = m.co[i] as int;
    let p = m.cp[i] as int;
    lemma_corner_color_classes();
    assert forall|m2: int| 0 <= m2 < 3 implies f[corner_facelet(i, m2)] == corner_color(
        p,
        (m2 + 3 - c) % 3,
    ) by {
        let k = (m2 + 3 - c) % 3;
        assert(0 <= k < 3);
        assert((k + m.co[i]) % 3 == m2);
        assert(f[corner_facelet(i, (k + m.co[i]) % 3)] == corner_color(m.cp[i] as int, k));
    }
    assert(f[corner_facelet(i, c)] == corner_color(p, 0));
    assert(corner_ori_at(f, i) == c);
    assert(f[corner_facelet(i, (c + 1) % 3)] == corner_color(p, 1));
    assert(f[corner_facelet(i, (c + 2) % 3)] == corner_color(p, 2));
    assert(corner_match(f, i, p));
    assert forall|j: int| 0 <= j < p implies !corner_match(f, i, j) by {
        assert(!(corner_color(j, 1) == corner_color(p, 1) && corner_color(j, 2) == corner_color(
            p,
            2,
        )));
    }
    lemma_first_corner_from(f, i, p, 0);
}

/// An edge slot of an encoded surface decodes to the piece and flip that were
/// encoded.
#[verifier::rlimit(100)]
#[verifier::spinoff_prover]
proof fn lemma_edge_slot_decode(f: Seq<Color>, m: CubeModel, i: int)
    requires
        m.wf(),
        encodes(f, m),
        0 <= i < 12,
    ensures
        first_edge_match(f, i, 0) == m.ep[i],
        edge_ori_at(f, i) == m.eo[i],
    decreases 0int,
{
    let e = m.eo[i] as int;
    let p = m.ep[i] as int;
    lemma_edge_color_classes();
    assert forall|m2: int| 0 <= m2 < 2 implies f[edge_facelet(i, m2)] == edge_color(
        p,
        (m2 + 2 - e) % 2,
    ) by {
        let k = (m2 + 2 - e) % 2;
        assert(0 <= k < 2);
        assert((k + m.eo[i]) % 2 == m2);
        assert(f[edge_facelet(i, (k + m.eo[i]) % 2)] == edge_color(m.ep[i] as int, k));
    }
    if e == 0 {
        assert(f[edge_facelet(i, 0)] == edge_color(p, 0));
        assert(f[edge_facelet(i, 1)] == edge_color(p, 1));
        assert(edge_direct(f, i, p));
        assert forall|j: int| 0 <= j < p implies !edge_direct(f, i, j) && !edge_flipped(
            f,
            i,
            j,
        ) by {
            assert(!(edge_color(j, 0) == edge_color(p, 0) && edge_color(j, 1) == edge_color(
                p,
                1,
            )));
            assert(!(edge_color(p, 0) == edge_color(j, 1) && edge_color(p, 1) == edge_color(
                j,
                0,
            )));
        }
        lemma_first_edge_from(f, i, p, 0);
    } else {
        assert(f[edge_facelet(i, 0)] == edge_color(p, 1));
        assert(f[edge_facelet(i, 1)] == edge_color(p, 0));
        assert(edge_flipped(f, i, p));
        assert forall|j: int| 0 <= j < p implies !edge_direct(f, i, j) && !edge_flipped(
            f,
            i,
            j,
        ) by {
            assert(!(edge_color(p, 1) == edge_color(j, 0) && edge_color(p, 0) == edge_color(
                j,
                1,
            )));
            assert(!(edge_color(j, 1) == edge_color(p, 1) && edge_color(j, 0) == edge_color(
                p,
                0,
            )));
        }
        lemma_first_edge_from(f, i, p, 0);
        assert(!edge_direct(f, i, p));
    }
}

/// Round trip: the facelet surface of a well-formed cubie state decodes back
/// to exactly that state, so converting a cube to facelets and back returns
/// the cube.
pub proof fn lemma_facelet_round_trip(f: Seq<Color>, m: CubeModel)
    requires
        m.wf(),
        encodes(f, m),
    ensures
        decodable(f),
        decoded(f) == m,
{
    assert forall|i: int| 0 <= i < 8 implies #[trigger] corner_ori_at(f, i) == m.co[i] by {
        lemma_corner_slot_decode(f, m, i);
    }
    assert forall|i: int| 0 <= i < 8 implies #[trigger] first_corner_match(f, i, 0) == m.cp[i] by {
        lemma_corner_slot_decode(f, m, i);
    }
    assert forall|i: int| 0 <= i < 12 implies #[trigger] first_edge_match(f, i, 0) == m.ep[i] by {
        lemma_edge_slot_decode(f, m, i);
    }
    assert forall|i: int| 0 <= i < 12 implies #[trigger] edge_ori_at(f, i) == m.eo[i] by {
        lemma_edge_slot_decode(f, m, i);
    }
    assert(decoded(f).cp =~= m.cp);
    assert(decoded(f).co =~= m.co);
    assert(decoded(f).ep =~= m.ep);
    assert(decoded(f).eo =~= m.eo);
    assert(decoded(f) =~= m);
}

} // verus!
