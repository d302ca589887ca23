//! The symbol index: what to index, what of it is fresh, and what it answers.

pub mod builder;
pub mod cache_query;
pub mod hasher;
pub mod store;
pub mod watcher;
