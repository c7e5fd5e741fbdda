//! A verified rendering core for chess lesson videos.
//!
//! A lesson is a timestamped stream of instructions (board setup, moves,
//! highlights, arrows, branching "goto" navigation between recorded
//! positions). This crate turns such a stream into a sequence of rendered
//! board images plus a frame-duration manifest; an external encoder joins
//! them into a video. File and process handling live outside the crate,
//! which only computes: every function here carries a verified contract.

pub mod board;
pub mod fen;
pub mod instr;
pub mod intrp;
pub mod piece;
pub mod pixel;
pub mod timeline;
