//! Sketches of sparse non-negative weighted vectors whose slot-wise comparison
//! estimates the weighted Jaccard similarity of the vectors.
//!
//! Three engines sketch a vector. `DartMinHash` throws the darts of a Poisson
//! process at `k` buckets and keeps the dart of least rank in each. `ErsWmh` lets
//! each of `k` slots scan a bounded sequence of positions for the first green one,
//! and lets empty slots borrow. `RsWmh` gives each of `k` seeds the first green
//! position of its own unbounded sequence. All of them hash by tabulation, with
//! tables drawn once from a seeded generator.
//!
//! Every real quantity that crosses this library's boundary (a weight, a rank, a
//! cumulative capacity) is carried as an *order key*: the IEEE-754 binary64 bit
//! pattern of a non-negative number. On such patterns the unsigned integer order is
//! the numeric order, so every comparison that the sketching rules make is an
//! integer comparison here.
//!
//! Arithmetic on the reals themselves is the caller's part. Where an engine needs
//! the result of such arithmetic in the middle of its work, it hands out a
//! resumable computation: `DartHash::darts`, `DartMinHash::sketch`,
//! `ErsWmh::sketch` and `RsWmh::sketch_ids` each begin one. The computation tells
//! what it needs next, the caller answers, and `finish` gives the result. What is
//! asked, what becomes of each answer, and what the result is for any way of
//! answering, is stated and proved.

pub mod darthash;
pub mod dartminhash;
pub mod dartwalk;
pub mod hash_utils;
pub mod keys;
pub mod plane;
pub mod rejsmp;
pub mod rswmh;
pub mod similarity;

pub use crate::darthash::DartHash;
pub use crate::dartminhash::DartMinHash;
pub use crate::rejsmp::ErsWmh;
pub use crate::rswmh::RsWmh;
pub use crate::similarity::{count_collisions, hamming_distance, intersection};
