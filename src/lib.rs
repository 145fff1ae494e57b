//! Chip specifications for the quilc compiler and the QVM simulator: the
//! instruction set architecture of a chip, its characteristics, and the
//! JSON codec that reads and writes them; with the pure parts of the
//! bindings to the native compiler and simulator.

pub mod chip;
pub mod decimal;
pub mod entry;
pub mod error;
pub mod fields;
pub mod gate;
pub mod isa;
pub mod json;
pub mod operand;
pub mod quilc;
pub mod qvm;
pub mod runtime;
pub mod specs;

pub use runtime::{find_core_file, Error};
