use rubiks_2000::cube::Cube;
use rubiks_2000::errors::CubeError;
use rubiks_2000::facelet::{Color, FaceCube, Facelet};
use rubiks_2000::moves::Move;

const SOLVED: &str = "UUUUUUUUURRRRRRRRRFFFFFFFFFDDDDDDDDDLLLLLLLLLBBBBBBBBB";

#[test]
fn test_convertion_cube_facelet_cube() {
    let cube = Cube::new_default();
    let face_cube = cube.to_facelet_cube();
    let final_cube = face_cube.to_cubie_cube().expect("solved surface must decode");
    assert_eq!(cube, final_cube);
}

#[test]
fn tests_test_convertion_cube_facelet_cube() {
    let cube = Cube::new_default();
    let face_cube = cube.to_facelet_cube();
    let final_cube = face_cube.to_cubie_cube().expect("solved surface must decode");
    assert_eq!(cube, final_cube);
}

#[test]
fn scrambled_cube_round_trips_through_facelets() {
    let mut cube = Cube::new_default();
    for mv in [Move::F1, Move::U2, Move::R3, Move::L1, Move::B2, Move::D3, Move::R1] {
        cube.multiply(mv.get_cube());
    }
    let face_cube = cube.to_facelet_cube();
    let back = face_cube.to_cubie_cube().expect("encoded surface must decode");
    assert_eq!(cube, back);
}

#[test]
fn solved_facelets_print_face_by_face() {
    let fc = FaceCube::new();
    assert_eq!(fc.to_string(), SOLVED);
}

#[test]
fn from_string_rejects_wrong_length() {
    let short = &SOLVED[..53];
    assert_eq!(FaceCube::from_string(short).err(), Some(CubeError::MalformedFacelets));

    let mut long = String::from(SOLVED);
    long.push('U');
    assert_eq!(FaceCube::from_string(&long).err(), Some(CubeError::MalformedFacelets));
}

#[test]
fn from_string_rejects_unknown_symbol() {
    let mut bad = String::from(&SOLVED[..53]);
    bad.push('X');
    assert_eq!(bad.len(), 54);
    assert_eq!(FaceCube::from_string(&bad).err(), Some(CubeError::MalformedFacelets));
}

#[test]
fn from_string_rejects_wrong_color_counts() {
    let all_up = "U".repeat(54);
    assert_eq!(FaceCube::from_string(&all_up).err(), Some(CubeError::MalformedFacelets));
}

#[test]
fn from_string_accepts_the_solved_surface() {
    let fc = FaceCube::from_string(SOLVED).expect("solved string is well-formed");
    assert_eq!(fc.to_string(), SOLVED);
    let cube = fc.to_cubie_cube().expect("solved surface must decode");
    assert_eq!(cube, Cube::new_default());
}

#[test]
fn set_facelet_paints_one_sticker() {
    let mut fc = FaceCube::new();
    fc.set_facelet(0, Color::B);
    let s = fc.to_string();
    assert!(s.starts_with("BUUUUUUUU"));
}

#[test]
fn facelet_names_count_the_positions() {
    assert_eq!(Facelet::U1.index(), 0);
    assert_eq!(Facelet::R1.index(), 9);
    assert_eq!(Facelet::B9.index(), 53);
    assert_eq!(Color::U.index(), 0);
    assert_eq!(Color::B.index(), 5);
}

#[test]
fn corner_without_vertical_sticker_fails_conversion() {
    let mut fc = Cube::new_default().to_facelet_cube();
    // Corner slot URF shows its U color at position 8; painting it R leaves
    // the slot with no sticker on the vertical axis.
    fc.set_facelet(8, Color::R);
    assert_eq!(fc.to_cubie_cube().err(), Some(CubeError::ConversionFailure));
}

#[test]
fn unmatched_corner_colors_fail_conversion() {
    let mut fc = Cube::new_default().to_facelet_cube();
    // Corner slot URF keeps its U sticker but shows the side pair (B, B),
    // which no corner piece carries.
    fc.set_facelet(9, Color::B);
    fc.set_facelet(20, Color::B);
    assert_eq!(fc.to_cubie_cube().err(), Some(CubeError::ConversionFailure));
}
