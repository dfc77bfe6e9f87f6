//! Evaluation of a linear chain of neural-network layers (dense, activation, output), either
//! all at once or staged one layer per tick, with the chain's widths checked when it is built.
//!
//! The chain is an arena of layers with one staged-evaluation state per node. The numeric
//! transforms themselves are supplied by the caller: `Chain::pending` names the node that
//! computes on a tick, and `Chain::advance` records what it computed.

pub mod chain;
pub mod layers;
pub mod staged;
pub mod state;
