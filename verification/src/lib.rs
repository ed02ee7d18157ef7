//! Core engine of a triangular-grid tile-rotation puzzle.
//!
//! The library is organised as a set of passes over one explicit simulation
//! state: pointer hit-testing feeds a selection indicator, the indicator is
//! expanded to the clump of tiles that must rotate together, a rotation
//! gesture moves that clump atomically (or is rejected on collision), and a
//! merge pass fuses clumps that the move made adjacent.  All grid geometry is
//! exact integer arithmetic; conversion from screen pixels to the fixed-point
//! world units used here is left to the embedding.

pub mod level;
pub mod level_editor;
pub mod rotation;
pub mod savegame;
pub mod selection;
pub mod sim;
pub mod tilemap;
