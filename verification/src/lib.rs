//! Circuits, constraint systems and verifying keys of a PLONK proof system.

pub mod bits;
pub mod circuit;
pub mod codec;
pub mod column;
pub mod compress_selectors;
pub mod constraint_system;
pub mod curve;
pub mod debug;
pub mod domain;
pub mod expression;
pub mod field;
pub mod gate;
pub mod hash;
pub mod laws;
pub mod layout;
pub mod list;
pub mod lookup;
pub mod operations;
pub mod permutation;
pub mod pinned;
pub mod printed;
pub mod rotation;
pub mod system_codec;
pub mod text;
pub mod unique_text;
pub mod verifying_key;
