//! Verified query logic for a solved two-player postflop game tree.
//!
//! The equilibrium engine and its solved tree stay with the caller, who
//! hands this crate what it reads of the node under the cursor and the
//! arithmetic of its numbers. The crate holds what a query decides and
//! computes around the engine's calls: how a history is read and replayed,
//! which branch a dealt card descends into, how the players' hand weights
//! follow, which hands count together, and how results and reports are laid
//! out.

pub mod action;
pub mod board;
pub mod bunching;
pub mod codec;
pub mod error;
pub mod grid;
pub mod hands;
pub mod node;
pub mod numeric;
pub mod replay;
pub mod report;
pub mod setup;
pub mod swap;
pub mod sweep;
pub mod table;
pub mod text;
pub mod vectors;
