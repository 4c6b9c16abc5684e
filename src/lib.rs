//! Samples a read-only contract function over a range of historical blocks
//! and renders the collected series as comma-separated rows.
pub mod value;
pub mod text;
pub mod format;
pub mod scan;
