//! Searches a range of numbers for primes, split into partitions that can be
//! checked side by side.
//!
//! A request names a number of partitions and a range by its first and last
//! number. `api::common` validates a request, splits an accepted range into
//! partitions and tests a number for primality. `api::finder` has the work of
//! one worker on one partition, the joining of the workers' batches, and the
//! whole search. `api::printer` writes the line that tells of a checked number
//! whether it is prime.
//!
//! The contracts are stated over `partitioning` (which requests are accepted,
//! which partitions they have, and that these cover the range without
//! overlap), `primality` (what a prime is) and `aggregation` (what the joined
//! batches are).
//!
//! Nothing here starts a thread: a caller that wants the partitions checked
//! at the same time hands each to a thread of its own and gives the batches
//! to `api::finder::join_batches`.

pub mod aggregation;
pub mod api;
pub mod model;
pub mod partitioning;
pub mod primality;
