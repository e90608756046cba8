//! A verified cubie-level model of the 3x3 Rubik's cube: the move algebra,
//! compact twist/flip coordinates, facelet conversion, pruning-table
//! generation and a two-phase depth-first solver.

pub mod algebra;
pub mod cube;
pub mod coord;
pub mod errors;
pub mod facelet;
pub mod moves;
pub mod solver;
pub mod table;
