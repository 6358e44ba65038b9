//! Computational cores of the native functions the virtual machine
//! dispatches into: argument validation, gas charging and the results
//! they owe, separated from the machine's value plumbing.

pub mod ristretto255;
pub mod util;
