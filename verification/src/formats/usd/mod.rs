//! Universal Scene Description: USDA text, USDC detection, USDZ archives.

pub mod usdc;
pub mod writer;
pub mod usda;
pub mod reader;
pub mod stage;
