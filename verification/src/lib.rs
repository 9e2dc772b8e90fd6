//! A verified one-nearest-neighbor classifier for fixed-length integer
//! feature vectors, with a dispatcher that evaluates a validation set and an
//! aggregator that reduces the per-item correctness stream to an accuracy
//! count.

pub mod sample;
pub mod distance;
pub mod nearest;
pub mod dispatch;
pub mod summary;
pub mod parse;
