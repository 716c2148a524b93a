//! Text storage: positions in a text, the bit sets that index it, and chunks.

pub mod array_string;
pub mod bits;
pub mod chunk;
pub mod chunk_laws;
pub mod chunk_spec;
pub mod position;
pub mod select;
