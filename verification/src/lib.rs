//! Deterministic lockstep simulation and turn scheduling for a small
//! territory-control game played on a grid of nodes.

pub mod checksum;
pub mod graph;
pub mod jsonproto;
pub mod map;
pub mod mouse;
pub mod protocol;
pub mod replay;
pub mod scheduler;
pub mod sequences;
pub mod shuffle;
pub mod square;
pub mod state;
pub mod synchronized_state;
pub mod visible_graph;
pub mod xorshift;
