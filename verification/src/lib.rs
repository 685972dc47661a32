//! Verified core of Spark-compatible interval scaling, higher-order array functions, and
//! date, timestamp and interval literal parsing.
use vstd::prelude::*;

pub mod list_layout;
pub mod rounding;
pub mod transform_expr;
pub mod array_reduce;
pub mod array_transform;
pub mod datetime;
pub mod exists_forall;
pub mod interval_literal;
pub mod interval_scale;
pub mod ym_interval_scale;
pub mod zip_with;

verus! {
} // verus!
