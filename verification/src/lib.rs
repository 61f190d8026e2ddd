pub mod common;
pub mod dataset;
pub mod error;
pub mod grid;
pub mod header;
pub mod pipeline;
pub mod roundtrip;
pub mod spe_rs;
pub mod text;
pub mod transformations;
pub mod utils;
