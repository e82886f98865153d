//! The operations of the search.

pub mod common;
pub mod finder;
pub mod printer;
