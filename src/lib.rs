//! Small text and number utilities: sample statistics (median and mode),
//! Pig Latin translation, line search, and a company directory driven by
//! text commands.

pub mod stats;
pub mod directory;
pub mod grep;
pub mod pig_latin;
pub mod text;
