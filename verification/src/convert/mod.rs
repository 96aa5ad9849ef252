//! The converters, one module per family of formats.

pub mod dng;
pub mod text;
pub mod images;
pub mod heic;
pub mod pdf;
pub mod office;
