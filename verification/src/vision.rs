//! Recognizing what a screen shows, as far as it is decided with whole numbers.
pub mod catalog_identifier;
pub mod color;
pub mod diagnostics;
pub mod matcher;
