use rubiks_2000::cube::Cube;
use rubiks_2000::errors::CubeError;
use rubiks_2000::moves::Move;
use rubiks_2000::solver::{find_solution, SearchGoal, TablePhase1};

/// The end-to-end phase-1 scenario: scramble with F2, U2, R', U2 written as
/// quarter turns, solve into the phase-1 subgroup, replay the answer and
/// check both the reached flip and the search-order rule on the answer.
#[test]
fn phase1_solver_reaches_flip_zero_with_compliant_moves() {
    let scramble = [
        Move::F1,
        Move::F1,
        Move::U1,
        Move::U1,
        Move::R1,
        Move::R1,
        Move::R1,
        Move::U1,
        Move::U1,
    ];
    let mut cube = Cube::new_default();
    for mv in scramble {
        cube.multiply(mv.get_cube());
    }
    let table = TablePhase1::new(String::from("table_phase_1"));
    let solution = table.find_solution_to_g1(cube, 4).expect("a phase-1 solution must exist");

    let mut replay = cube;
    for mv in &solution {
        replay.multiply(mv.get_cube());
    }
    assert_eq!(replay.get_flip(), 0);
    assert!(replay.is_solved_phase_1());

    for i in 1..solution.len() {
        assert!(!solution[i].is_same_slice(solution[i - 1]));
        if i >= 2 {
            assert!(
                !(solution[i].is_opposed_slice(solution[i - 1])
                    && solution[i].is_same_slice(solution[i - 2]))
            );
        }
    }
}

#[test]
fn phase1_solver_fixes_a_flipped_scramble() {
    let mut cube = Cube::new_default();
    cube.multiply(Move::F1.get_cube());
    assert!(!cube.is_solved_phase_1());

    let table = TablePhase1::new(String::from("table_phase_1"));
    let solution = table.find_solution_to_g1(cube, 2).expect("one move suffices");
    assert!(!solution.is_empty());

    let mut replay = cube;
    for mv in &solution {
        replay.multiply(mv.get_cube());
    }
    assert!(replay.is_solved_phase_1());
}

#[test]
fn direct_solver_undoes_a_single_move() {
    let mut cube = Cube::new_default();
    cube.multiply(Move::R1.get_cube());
    let solution = find_solution(SearchGoal::Solved, &cube, 1).expect("R' solves it");
    assert_eq!(solution, vec![Move::R3]);
}

#[test]
fn solver_reports_exhaustion_as_a_definite_failure() {
    let mut cube = Cube::new_default();
    cube.multiply(Move::F1.get_cube());
    let table = TablePhase1::new(String::from("table_phase_1"));
    assert_eq!(table.find_solution_to_g1(cube, 0), Err(CubeError::SolverExhausted));
}

#[test]
fn solved_cube_needs_no_moves() {
    let cube = Cube::new_default();
    let solution = find_solution(SearchGoal::Solved, &cube, 3).expect("already solved");
    assert!(solution.is_empty());
    let table = TablePhase1::new(String::from("table_phase_1"));
    let phase1 = table.find_solution_to_g1(cube, 3).expect("already in the subgroup");
    assert!(phase1.is_empty());
}
