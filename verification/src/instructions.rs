//! The operations that change a metadata record.

pub mod append;
