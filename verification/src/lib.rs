//! A peephole-optimizing backend for a tiny quantum-gate instruction
//! language (rotation-X, rotation-Z, controlled-Z, measurement).
//!
//! The library consumes an already-parsed instruction sequence and produces
//! an equivalent sequence restricted to a native gate set, applying local
//! rewrite passes to a fixpoint: native-gate decomposition once, then
//! reordering, rotation merging, controlled-Z cancellation and dead-code
//! elimination, repeated until the instruction count stabilizes or a round
//! bound is reached.
//!
//! Rotation angles are IEEE-754 binary64 values; this crate carries each
//! angle as its 64-bit pattern (see [`angle`]), so every comparison the
//! passes make is exact, with no tolerance. The only arithmetic on angles,
//! the merge pass's addition, is delegated to a software implementation of
//! IEEE-754 binary64 arithmetic.

pub mod angle;
pub mod driver;
pub mod instruction;
pub mod optimize;
