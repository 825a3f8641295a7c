//! Narrow-phase collision detection: contact computation with a
//! speculative margin, warm-start matching, contact constraint generation and
//! the per-frame collision lifecycle.
pub mod math;
pub mod margin;
pub mod contacts;
pub mod collisions;
pub mod compute;
pub mod constraints;
pub mod narrow_phase;
