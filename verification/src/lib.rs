//! Verified core of a small housing-price pipeline: record cleaning,
//! tolerant ingestion of parsed rows, price statistics, feature and label
//! assembly, and evaluation of predictions against true labels.
//!
//! Real-valued columns never take part in arithmetic here. They travel as
//! [`model::Real`], the 64-bit pattern of a double, and are turned back into
//! numbers by the caller.

pub mod data;
pub mod evaluation;
pub mod features;
pub mod model;
pub mod pipeline;
