//! What a project is made of: its languages, its root and its packages.

pub mod language;
pub mod project;
