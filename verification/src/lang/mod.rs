//! What is particular to a language.

pub mod go;
pub mod typescript;
