use rubiks_2000::cube::{Cube, Edge};
use rubiks_2000::errors::CubeError;
use rubiks_2000::moves::Move;
use rubiks_2000::table::{
    are_midle_edges_placed, create_table_vec, create_thread_table_vec, encode_solution,
    decode_solution, get_list_move_from_table, get_solution_from_table, move_count, table_to_bytes,
    Queue, TableKind, u16_to_binary_array,
};

#[test]
fn move_count_weighs_half_turns_twice() {
    assert_eq!(move_count(&[]), 0);
    assert_eq!(move_count(&[Move::U1, Move::R3]), 2);
    assert_eq!(move_count(&[Move::U2, Move::R3, Move::F2]), 5);
}

#[test]
fn generated_flip_table_has_empty_entry_for_solved_coordinate() {
    let table = create_table_vec(TableKind::EdgeFlip, 5);
    assert_eq!(table.len(), 2048);
    match &table[0] {
        Some(ms) => assert_eq!(ms.len(), 0),
        None => panic!("coordinate 0 must hold the empty sequence"),
    }
}

#[test]
fn generated_flip_table_entries_reach_their_coordinate() {
    let table = create_table_vec(TableKind::EdgeFlip, 5);
    let mut present = 0;
    for (coordinate, entry) in table.iter().enumerate() {
        if let Some(ms) = entry {
            present += 1;
            let mut cube = Cube::new_default();
            for mv in ms {
                cube.multiply(mv.get_cube());
            }
            assert_eq!(cube.get_flip() as usize, coordinate);
            assert!(move_count(ms.as_slice()) <= 10);
        }
    }
    assert!(present > 1, "a depth-5 search must reach more than the solved coordinate");
}

#[test]
fn worker_table_is_sound_for_its_partition() {
    let table = create_thread_table_vec(TableKind::EdgeFlip, 2, 3);
    assert_eq!(table.len(), 2048);
    for (coordinate, entry) in table.iter().enumerate() {
        if let Some(ms) = entry {
            let mut cube = Cube::new_default();
            for mv in ms {
                cube.multiply(mv.get_cube());
            }
            assert_eq!(cube.get_flip() as usize, coordinate);
        }
    }
}

#[test]
fn generated_twist_table_has_empty_entry_for_solved_coordinate() {
    let table = create_table_vec(TableKind::CornerTwist, 3);
    assert_eq!(table.len(), 2187);
    match &table[0] {
        Some(ms) => assert_eq!(ms.len(), 0),
        None => panic!("coordinate 0 must hold the empty sequence"),
    }
}

#[test]
fn table_bytes_round_trip_through_record_extraction() {
    let table: Vec<Option<Vec<Move>>> = vec![
        Some(vec![]),
        Some(vec![Move::F1, Move::U2]),
        None,
        Some(vec![Move::B3]),
    ];
    let bytes = table_to_bytes(&table);
    assert_eq!(bytes, vec![124, 6, 1, 124, 18, 124, 17, 124]);

    assert_eq!(get_list_move_from_table(0, &bytes), Ok(vec![]));
    assert_eq!(get_list_move_from_table(1, &bytes), Ok(vec![Move::F1, Move::U2]));
    assert_eq!(get_list_move_from_table(2, &bytes), Err(CubeError::TableMissingEntry));
    assert_eq!(get_list_move_from_table(3, &bytes), Ok(vec![Move::B3]));
    assert_eq!(get_list_move_from_table(4, &bytes), Err(CubeError::TableMissingEntry));
}

#[test]
fn table_lookup_distinguishes_missing_entries() {
    let table: Vec<Option<Vec<Move>>> = vec![Some(vec![]), None];
    assert_eq!(get_solution_from_table(0, &table), Ok(vec![]));
    assert_eq!(get_solution_from_table(1, &table), Err(CubeError::TableMissingEntry));
}

#[test]
fn solution_codes_pack_base_eighteen() {
    assert_eq!(encode_solution(vec![]), 0);
    assert_eq!(encode_solution(vec![Move::R1, Move::U2]), 990);
    assert_eq!(decode_solution(990), vec![Move::U1, Move::U2, Move::R1]);
    assert_eq!(decode_solution(0), vec![]);
}

#[test]
fn binary_array_reads_the_upper_bits() {
    assert_eq!(u16_to_binary_array(2), [0, 0, 0, 0, 0, 0, 0, 0, 0, 0, 1]);
    assert_eq!(u16_to_binary_array(2048), [1, 0, 0, 0, 0, 0, 0, 0, 0, 0, 0]);
    assert_eq!(u16_to_binary_array(0), [0; 11]);
}

#[test]
fn queue_is_first_in_first_out() {
    let mut q: Queue<u8> = Queue::new();
    assert!(q.is_empty());
    assert_eq!(q.len(), 0);
    q.enqueue(7);
    q.enqueue(9);
    assert!(!q.is_empty());
    assert_eq!(q.len(), 2);
    assert_eq!(q.dequeue(), Some(7));
    assert_eq!(q.dequeue(), Some(9));
    assert_eq!(q.dequeue(), None);
}

#[test]
fn mid_edge_criterion_accepts_the_solved_permutation() {
    let solved = Cube::new_default().get_ep();
    assert!(are_midle_edges_placed(&solved));
    let rejected = [
        Edge::UF,
        Edge::UR,
        Edge::BL,
        Edge::UB,
        Edge::FR,
        Edge::DF,
        Edge::FL,
        Edge::DB,
        Edge::UL,
        Edge::DR,
        Edge::DL,
        Edge::BR,
    ];
    assert!(!are_midle_edges_placed(&rejected));
}
