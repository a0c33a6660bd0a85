//! Two small plugins that show what a plugin module is made of.

pub mod wasm_dma_demo;
pub mod wasm_scratch;
