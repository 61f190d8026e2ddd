pub mod align;
pub mod append;
pub mod average;
pub mod baseline;
pub mod count_conversion;
pub mod despike;
pub mod finning;
pub mod integrate;
pub mod mask_pixels;
pub mod normalize;
pub mod offset;
pub mod reshape;
pub mod select;
pub mod subtract;
