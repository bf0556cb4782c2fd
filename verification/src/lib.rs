//! A histogram-based gradient-boosted regression-tree core: quantile binning
//! of continuous features (represented as order-preserving integer keys),
//! first-seen categorical encoding, decision-tree routing over bin ids, and
//! depth-bounded recursive tree construction under a caller-chosen split
//! policy.

pub mod binning;
pub mod category;
pub mod fields;
pub mod tree;
