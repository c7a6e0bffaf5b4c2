//! Layout vocabulary: grid placement and alignment, text alignment.

pub mod grid;
pub mod text;
