//! The values that the search works on.

pub mod partition;
pub mod positive_number;
pub mod search_range;
pub mod validation_error;
