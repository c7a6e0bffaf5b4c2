//! glTF 2.0: the document objects, the GLB container and the conversions.

pub mod glb;
pub mod nodes;
pub mod schema;
pub mod reader;
pub mod writer;
