//! Trampoline skill notation: a codec between a compact textual notation and
//! a structured skill value, together with FIG-style difficulty scoring,
//! natural-language skill names, and the body-orientation transition model
//! that chains one skill's landing into the next skill's takeoff.

pub mod codec;
pub mod difficulty;
pub mod digits;
pub mod naming;
pub mod roundtrip;
pub mod skill;
