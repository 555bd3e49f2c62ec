//! Declarative benchmark plans: parameter fields, per-round result
//! vectors, variation sweeps and their aggregation into conclusions.

pub mod fields;
pub mod result_fields;
pub mod value;
pub mod variations;
pub mod subargs;
pub mod args;
