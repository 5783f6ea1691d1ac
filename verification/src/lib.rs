//! Two-terminal impedance networks: exact complex-rational impedances,
//! series/parallel composition, and reduction to a single equivalent
//! impedance, with Ohm's-law derivations at a reduced leaf.

pub mod complex;
pub mod network;
pub mod render;
