//! Verified core of the IBoardBot drawing-board server: the board wire
//! protocol, message building, G-code parsing, the quad-tree layout of
//! drawings and the board job queue.

pub mod action;
pub mod boards;
pub mod config;
pub mod entities;
pub mod fonts;
pub mod gcode;
pub mod protocol;
pub mod qtree;
pub mod response;
pub mod sessions;
pub mod software_board;
pub mod str_map;
