use rand::{thread_rng, Rng};
use rubiks_2000::cube::{u8_to_corner, u8_to_edge, Corner, Cube, Edge};
use rubiks_2000::errors::{CubeError, InvalidCubeState};
use rubiks_2000::moves::{initialize_all_moves, move_b, move_d, move_f, move_l, move_r, move_u, Move};

const CP_DEFAULT: [Corner; 8] = [
    Corner::URF,
    Corner::UFL,
    Corner::ULB,
    Corner::UBR,
    Corner::DFR,
    Corner::DLF,
    Corner::DBL,
    Corner::DRB,
];

const CO_DEFAULT: [u8; 8] = [0, 0, 0, 0, 0, 0, 0, 0];

const EP_DEFAULT: [Edge; 12] = [
    Edge::UR,
    Edge::UF,
    Edge::UL,
    Edge::UB,
    Edge::DR,
    Edge::DF,
    Edge::DL,
    Edge::DB,
    Edge::FR,
    Edge::FL,
    Edge::BL,
    Edge::BR,
];

const EO_DEFAULT: [u8; 12] = [0, 0, 0, 0, 0, 0, 0, 0, 0, 0, 0, 0];

#[test]
/// Apply the basic moves to a solved cube and check the result
fn test_multiply_basic_moves() {
    let mut c_up = Cube::new_default();
    c_up.multiply(move_u());
    assert_eq!(c_up, move_u());

    let mut c_right = Cube::new_default();
    c_right.multiply(move_r());
    assert_eq!(c_right, move_r());

    let mut c_front = Cube::new_default();
    c_front.multiply(move_f());
    assert_eq!(c_front, move_f());

    let mut c_down = Cube::new_default();
    c_down.multiply(move_d());
    assert_eq!(c_down, move_d());

    let mut c_left = Cube::new_default();
    c_left.multiply(move_l());
    assert_eq!(c_left, move_l());

    let mut c_back = Cube::new_default();
    let back_move = move_b();
    c_back.multiply(back_move);
    assert_eq!(c_back, move_b());
}

#[test]
fn test_tricky_moves() {}

#[test]
fn test_multiply() {
    let all_moves = initialize_all_moves();

    for (index, mv) in all_moves.iter().enumerate() {
        let mut cube = Cube::new_default();
        cube.multiply(*mv);
        assert_eq!(cube, *mv, " Failed move - {:?}", Move::from_index(index as u8).unwrap());
    }

    for (index, mv) in all_moves.iter().enumerate() {
        let mut cube = Cube::new_default();
        for _ in 0..4 {
            cube.multiply(*mv);
        }
        assert_eq!(
            cube,
            Cube::new_default(),
            " Failed move - {:?} * 4",
            Move::from_index(index as u8).unwrap()
        );
    }

    assert_ne!(move_b(), Cube::new_default(), "Failed to compare, MOVE_B != DEFAULT");

    let mut cube = Cube::new_default();
    for _ in 0..6 {
        cube.multiply(move_r());
        cube.multiply(move_u());
        cube.multiply(all_moves[Move::R3.index() as usize]);
        cube.multiply(all_moves[Move::U3.index() as usize]);
    }
    assert_eq!(cube, Cube::new_default());
}

#[test]
fn test_get_twist() {
    let c = Cube::new_default();
    assert_eq!(c.get_twist(), 0);

    let c = Cube::new(CP_DEFAULT, [0, 0, 0, 0, 0, 0, 0, 1], EP_DEFAULT, EO_DEFAULT);
    assert_eq!(c.get_twist(), 0);

    let c = Cube::new(CP_DEFAULT, [1, 0, 0, 0, 0, 0, 0, 0], EP_DEFAULT, EO_DEFAULT);
    assert_eq!(c.get_twist(), 729);

    let c = Cube::new(CP_DEFAULT, [2, 2, 2, 2, 2, 2, 2, 1], EP_DEFAULT, EO_DEFAULT);
    assert_eq!(c.get_twist(), 2186);
}

#[test]
fn tests_test_get_twist() {
    let c = Cube::new_default();
    assert_eq!(c.get_twist(), 0);

    let c = Cube::new(CP_DEFAULT, [0, 0, 0, 0, 0, 0, 0, 1], EP_DEFAULT, EO_DEFAULT);
    assert_eq!(c.get_twist(), 0);

    let c = Cube::new(CP_DEFAULT, [1, 0, 0, 0, 0, 0, 0, 0], EP_DEFAULT, EO_DEFAULT);
    assert_eq!(c.get_twist(), 729);

    let c = Cube::new(CP_DEFAULT, [2, 2, 2, 2, 2, 2, 2, 1], EP_DEFAULT, EO_DEFAULT);
    assert_eq!(c.get_twist(), 2186);
}

#[test]
fn test_get_flip() {
    let c = Cube::new_default();
    assert_eq!(c.get_flip(), 0);

    let c = Cube::new(
        CP_DEFAULT,
        CO_DEFAULT,
        EP_DEFAULT,
        [0, 0, 0, 0, 0, 0, 0, 0, 0, 0, 0, 1],
    );
    assert_eq!(c.get_flip(), 0);

    let c = Cube::new(
        CP_DEFAULT,
        CO_DEFAULT,
        EP_DEFAULT,
        [1, 0, 0, 0, 0, 0, 0, 0, 0, 0, 0, 1],
    );
    assert_eq!(c.get_flip(), 1024);

    let c = Cube::new(
        CP_DEFAULT,
        CO_DEFAULT,
        EP_DEFAULT,
        [1, 0, 0, 0, 1, 1, 0, 0, 1, 0, 0, 1],
    );
    assert_eq!(c.get_flip(), 1124);
}

#[test]
fn tests_test_get_flip() {
    let c = Cube::new_default();
    assert_eq!(c.get_flip(), 0);

    let c = Cube::new(
        CP_DEFAULT,
        CO_DEFAULT,
        EP_DEFAULT,
        [0, 0, 0, 0, 0, 0, 0, 0, 0, 0, 0, 1],
    );
    assert_eq!(c.get_flip(), 0);

    let c = Cube::new(
        CP_DEFAULT,
        CO_DEFAULT,
        EP_DEFAULT,
        [1, 0, 0, 0, 0, 0, 0, 0, 0, 0, 0, 1],
    );
    assert_eq!(c.get_flip(), 1024);

    let c = Cube::new(
        CP_DEFAULT,
        CO_DEFAULT,
        EP_DEFAULT,
        [1, 0, 0, 0, 1, 1, 0, 0, 1, 0, 0, 1],
    );
    assert_eq!(c.get_flip(), 1124);
}

#[test]
fn test_set_twist() {
    let mut rng = thread_rng();

    let twist = 1;
    let mut c = Cube::new_default();
    c.set_twist(twist);

    assert_eq!(c.get_twist(), 1);

    for _ in 0..10 {
        let twist = rng.gen_range(0..2187);
        c.set_twist(twist);
        assert_eq!(c.get_twist(), twist);
    }
}

#[test]
fn tests_test_set_twist() {
    let mut rng = thread_rng();

    let twist = 1;
    let mut c = Cube::new_default();
    c.set_twist(twist);

    assert_eq!(c.get_twist(), 1);

    for _ in 0..10 {
        let twist = rng.gen_range(0..2187);
        c.set_twist(twist);
        assert_eq!(c.get_twist(), twist);
    }
}

#[test]
fn test_set_flip() {
    let mut rng = thread_rng();

    let flip = 1;
    let mut c = Cube::new_default();
    c.set_flip(flip);

    assert_eq!(c.get_flip(), 1);

    for _ in 0..10 {
        let flip = rng.gen_range(0..2048);
        c.set_flip(flip);
        assert_eq!(c.get_flip(), flip);
    }
}

#[test]
fn tests_test_set_flip() {
    let mut rng = thread_rng();

    let flip = 1;
    let mut c = Cube::new_default();
    c.set_flip(flip);

    assert_eq!(c.get_flip(), 1);

    for _ in 0..10 {
        let flip = rng.gen_range(0..2048);
        c.set_flip(flip);
        assert_eq!(c.get_flip(), flip);
    }
}

#[test]
fn test_move_inv() {
    assert_eq!(Move::F3.move_inv(), Move::F1);
    assert_eq!(Move::F2.move_inv(), Move::F2);
    assert_eq!(Move::F1.move_inv(), Move::F3);
    assert_eq!(Move::U1.move_inv(), Move::U3);
    assert_eq!(Move::U3.move_inv(), Move::U1);
    assert_eq!(Move::U2.move_inv(), Move::U2);
    assert_eq!(Move::D1.move_inv(), Move::D3);
    assert_eq!(Move::D2.move_inv(), Move::D2);
    assert_eq!(Move::D3.move_inv(), Move::D1);
    assert_eq!(Move::B1.move_inv(), Move::B3);
    assert_eq!(Move::B2.move_inv(), Move::B2);
    assert_eq!(Move::B3.move_inv(), Move::B1);
    assert_eq!(Move::L3.move_inv(), Move::L1);
    assert_eq!(Move::L2.move_inv(), Move::L2);
    assert_eq!(Move::L1.move_inv(), Move::L3);
    assert_eq!(Move::R1.move_inv(), Move::R3);
    assert_eq!(Move::R2.move_inv(), Move::R2);
    assert_eq!(Move::R3.move_inv(), Move::R1);
}

#[test]
fn half_turns_have_order_two() {
    for mv in [Move::U2, Move::R2, Move::F2, Move::D2, Move::L2, Move::B2] {
        let mut cube = Cube::new_default();
        cube.multiply(mv.get_cube());
        cube.multiply(mv.get_cube());
        assert_eq!(cube, Cube::new_default(), "half turn {:?} squared is not the identity", mv);
    }
}

#[test]
fn inverse_sequence_restores_identity() {
    let mut cube = Cube::new_default();
    for mv in [Move::U1, Move::R1, Move::F1] {
        cube.multiply(mv.get_cube());
    }
    for mv in [Move::F1, Move::R1, Move::U1] {
        cube.multiply(mv.move_inv().get_cube());
    }
    assert_eq!(cube, Cube::new_default());
}

#[test]
fn validate_accepts_reachable_states() {
    let mut cube = Cube::new_default();
    assert_eq!(cube.validate(), Ok(()));
    for mv in [Move::F1, Move::U2, Move::R3, Move::B1, Move::L2, Move::D1] {
        cube.multiply(mv.get_cube());
        assert_eq!(cube.validate(), Ok(()));
    }
}

#[test]
fn validate_reports_each_fault() {
    let dup_edges = [
        Edge::UR,
        Edge::UR,
        Edge::UL,
        Edge::UB,
        Edge::DR,
        Edge::DF,
        Edge::DL,
        Edge::DB,
        Edge::FR,
        Edge::FL,
        Edge::BL,
        Edge::BR,
    ];
    let c = Cube::new(CP_DEFAULT, CO_DEFAULT, dup_edges, EO_DEFAULT);
    assert_eq!(c.validate(), Err(InvalidCubeState::EdgePermutation));

    let c = Cube::new(
        CP_DEFAULT,
        CO_DEFAULT,
        EP_DEFAULT,
        [1, 0, 0, 0, 0, 0, 0, 0, 0, 0, 0, 0],
    );
    assert_eq!(c.validate(), Err(InvalidCubeState::EdgeOrientationSum));

    let dup_corners = [
        Corner::URF,
        Corner::URF,
        Corner::ULB,
        Corner::UBR,
        Corner::DFR,
        Corner::DLF,
        Corner::DBL,
        Corner::DRB,
    ];
    let c = Cube::new(dup_corners, CO_DEFAULT, EP_DEFAULT, EO_DEFAULT);
    assert_eq!(c.validate(), Err(InvalidCubeState::CornerPermutation));

    let c = Cube::new(CP_DEFAULT, [1, 0, 0, 0, 0, 0, 0, 0], EP_DEFAULT, EO_DEFAULT);
    assert_eq!(c.validate(), Err(InvalidCubeState::CornerOrientationSum));

    let swapped_corners = [
        Corner::UFL,
        Corner::URF,
        Corner::ULB,
        Corner::UBR,
        Corner::DFR,
        Corner::DLF,
        Corner::DBL,
        Corner::DRB,
    ];
    let c = Cube::new(swapped_corners, CO_DEFAULT, EP_DEFAULT, EO_DEFAULT);
    assert_eq!(c.validate(), Err(InvalidCubeState::PermutationParity));
}

#[test]
fn parity_counts_inversions_modulo_two() {
    let c = Cube::new_default();
    assert_eq!(c.corner_parity(), 0);
    assert_eq!(c.edge_parity(), 0);

    let swapped_corners = [
        Corner::UFL,
        Corner::URF,
        Corner::ULB,
        Corner::UBR,
        Corner::DFR,
        Corner::DLF,
        Corner::DBL,
        Corner::DRB,
    ];
    let c = Cube::new(swapped_corners, CO_DEFAULT, EP_DEFAULT, EO_DEFAULT);
    assert_eq!(c.corner_parity(), 1);
    assert_eq!(c.edge_parity(), 0);
}

#[test]
fn identifier_conversions_are_fallible() {
    assert_eq!(u8_to_corner(3), Ok(Corner::UBR));
    assert_eq!(u8_to_corner(8), Err(CubeError::InvalidIdentifier));
    assert_eq!(u8_to_edge(11), Ok(Edge::BR));
    assert_eq!(u8_to_edge(12), Err(CubeError::InvalidIdentifier));
    assert_eq!(Move::from_index(17), Ok(Move::B3));
    assert_eq!(Move::from_index(18), Err(CubeError::InvalidIdentifier));
}

#[test]
fn slice_predicates_follow_face_and_axis() {
    assert!(Move::U1.is_same_slice(Move::U3));
    assert!(!Move::U1.is_same_slice(Move::D1));
    assert!(Move::U1.is_opposed_slice(Move::D2));
    assert!(Move::R1.is_opposed_slice(Move::L3));
    assert!(!Move::R1.is_opposed_slice(Move::F1));
    assert!(Move::F2.is_opposed_slice(Move::B1));
}

#[test]
fn getters_return_the_components() {
    let c = Cube::new(CP_DEFAULT, [0, 0, 1, 2, 0, 0, 0, 0], EP_DEFAULT, [1; 12]);
    assert_eq!(c.get_cp(), CP_DEFAULT);
    assert_eq!(c.get_co(), [0, 0, 1, 2, 0, 0, 0, 0]);
    assert_eq!(c.get_ep(), EP_DEFAULT);
    assert_eq!(c.get_eo(), [1; 12]);
}

#[test]
fn phase1_test_checks_all_edge_orientations() {
    let c = Cube::new_default();
    assert!(c.is_solved_phase_1());
    let c = Cube::new(
        CP_DEFAULT,
        CO_DEFAULT,
        EP_DEFAULT,
        [0, 0, 0, 0, 0, 0, 0, 0, 0, 0, 1, 1],
    );
    assert!(!c.is_solved_phase_1());
    let mut c = Cube::new_default();
    c.multiply(move_f());
    assert!(!c.is_solved_phase_1());
    c.multiply(move_f());
    assert!(c.is_solved_phase_1());
}

#[test]
fn multiplication_is_not_commutative() {
    let mut ur = Cube::new_default();
    ur.multiply(move_u());
    ur.multiply(move_r());
    let mut ru = Cube::new_default();
    ru.multiply(move_r());
    ru.multiply(move_u());
    assert_ne!(ur, ru);
}
