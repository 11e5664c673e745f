//! The commands that work on the store.

pub mod edit;
pub mod new;
pub mod query;
