//! The peephole passes, one module each, in the order a round applies them:
//! reorder, rotation merge, controlled-Z cancellation, dead-code
//! elimination; and the native-gate translation that runs once before the
//! rounds. Every pass is a total function from one owned program to another.

pub mod cz_cancel;
pub mod deadcode;
pub mod native_translation;
pub mod reorder;
pub mod rotation_merge;
