//! FormatLab's conversion logic.

pub mod chars;
pub mod convert;
pub mod util;
pub mod error;
pub mod registry;
pub mod commands;
pub mod conversion;
