//! An optimizing translator and virtual machine for a minimal
//! pointer-and-tape language: eight one-byte operators mutate a data
//! pointer and a byte tape, with bracket pairs forming conditional loops.
//!
//! The translator turns raw source bytes into a linear sequence of tagged
//! operations, collapsing runs of repeated operators and matching brackets
//! with a stack.  At each closing bracket a loop optimizer inspects the
//! just-completed loop body and fuses three common idioms (clear-cell,
//! scan-until-zero, transfer-cell) into single operations.  The machine
//! dispatches the finished operation sequence against a fixed-length tape,
//! drawing input bytes from a supplied buffer and collecting output bytes.

pub mod equiv;
pub mod machine;
pub mod ops;
pub mod optimize;
pub mod translate;
