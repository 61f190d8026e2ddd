pub mod spe_data;
pub mod xml;
