//! Verified core of a bounded particle simulation: bounded histories,
//! parameter validation, the cell grid used for neighbour search and the
//! switching logic of the pressure controller.
//!
//! The library never performs floating-point arithmetic. Real quantities cross
//! its boundary as [`scalar::Scalar`] values, on which only order is decided.

pub mod block;
pub mod boundary;
pub mod cell_table;
pub mod error;
mod parallel;
pub mod ring_buffer;
pub mod scalar;
pub mod search_laws;
pub mod sim_space;
pub mod state;
