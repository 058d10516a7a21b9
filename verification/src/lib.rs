//! Arithmetization core for a circuit compiler over a prime field.
//!
//! The library lowers scalar and boolean operations — negation, addition,
//! subtraction, multiplication, equality, inequality and conditional
//! selection — to primitive gates of an arithmetic constraint system.
//! Operations constant-fold whenever their result is decidable at compile
//! time, and every gadget's contract states what the emitted constraints
//! force of any consistent witness.

pub mod backend;
pub mod boolean;
pub mod field;
pub mod modular;
pub mod var;
pub mod witness;
