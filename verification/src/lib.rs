//! A swap engine for mutually exclusive sets of mod files kept under one root
//! directory, worked out on an in-memory picture of that directory.

pub mod error;
pub mod laws;
pub mod listing;
pub mod names;
pub mod root;
pub mod session;
pub mod store;
pub mod swap;
