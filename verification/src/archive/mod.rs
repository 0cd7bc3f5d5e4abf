pub mod codec;
pub mod format;
pub mod select;
pub mod properties;
