//! Collects annotated comments (`// TODO(name): message`) from source lines,
//! groups them by keyword and renders them as a markdown index.

pub mod text;
pub mod entry;
pub mod matcher;
pub mod index;
pub mod report;
pub mod driver;
pub mod laws;
