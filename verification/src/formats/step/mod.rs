//! STEP (ISO 10303) support.

pub mod entities;
pub mod graph;
pub mod mesh;
pub mod p21;
pub mod reader;
pub mod writer;
