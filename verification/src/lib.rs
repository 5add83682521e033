//! Models of the 2x2x2 and 3x3x3 twisty puzzles, a table driven solver for them, and
//! decoders for what smart cubes and timers send.

pub mod common;
pub mod coordinate;
pub mod corner;
pub mod cube2x2x2;
pub mod cube3x3x3;
pub mod display;
pub mod edge;
pub mod facelet;
pub mod index;
pub mod laws;
pub mod messages;
pub mod moyu;
pub mod notation;
pub mod order;
pub mod paths;
pub mod prune;
pub mod rank;
pub mod solver2x2x2;
pub mod solver3x3x3;
pub mod tables;
pub mod timer;
pub mod timing;
pub mod tracking;
pub mod wcu;

pub use common::{
    inverse_moves, Color, Corner, CornerPiece, CubeFace, Move, RandomSource, RotationDirection,
    SimpleSeededRandomSource, StandardRandomSource, TimedMove,
};
pub use cube2x2x2::{Cube2x2x2, Cube2x2x2Faces};
pub use cube3x3x3::{Cube3x3x3, Cube3x3x3Faces, Edge3x3x3, EdgePiece3x3x3};
pub use facelet::InvalidCubeState;
pub use solver2x2x2::scramble_2x2x2;
pub use solver3x3x3::{scramble_3x3x3, scramble_3x3x3_fast};
pub use tables::{CornerTables, Tables3x3x3};
