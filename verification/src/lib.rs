//! Hybrid quantum-circuit simulator with exact amplitude arithmetic.
//!
//! A multi-qubit state is held in one of several representations: a
//! stabilizer tableau while the circuit is Clifford-only, a dense
//! statevector once a non-Clifford gate appears, or a stabilizer-rank
//! decomposition for bounded-error simulation.  All amplitude arithmetic
//! is exact, over the ring of integer combinations of eighth roots of
//! unity scaled by powers of 1/sqrt(2), so every engine's behaviour is
//! stated and proved without floating point.

pub mod amplitude;
pub mod bits;
pub mod controller;
pub mod errors;
pub mod gates;
pub mod ir;
pub mod laws;
pub mod grover;
pub mod random;
pub mod rank_decomp;
pub mod statevector;
pub mod tableau;

pub use bits::get_bit;
pub use bits::flip_bit;
