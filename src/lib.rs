//! Canonical forms for media titles and filenames, and classification of
//! downloaded media entries by their names.

pub mod text;
pub mod formatter;
pub mod media_file;
pub mod lemmas;
