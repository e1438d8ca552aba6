//! Running queries: what is read and written, and when.
//!
//! A query is run in steps. Each step says what is to be done next with topics; who
//! does it hands back what came of it.
pub mod laws;
pub mod persistent;
pub mod pull;
pub mod record;
pub mod registry;
