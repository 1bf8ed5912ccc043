//! The `hash` instructions of a zero-knowledge program VM: selection of a
//! hash function by variant tag, validation of operands and destination
//! types, native evaluation and circuit execution over caller-supplied
//! primitives and value stores, the textual and byte forms of an
//! instruction, the canonical bit encoding of values, and bounded Pedersen
//! hashers that refuse oversized input.

pub mod bits;
pub mod codec;
pub mod hasher;
pub mod instruction;
pub mod literal_text;
pub mod text;
pub mod types;
