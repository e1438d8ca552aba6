//! The operators that carry out a query, and what they keep between batches.
pub mod accumulator;
pub mod operator;
pub mod state;
pub mod pipeline;
