//! Numeric types: fixed-width and unbounded integers, bit slices over integer limbs, fixed-point
//! and rational reals, and the algorithms that back them.
use vstd::prelude::*;

pub mod traits;
pub mod limb;
pub mod limbs;
pub mod fixed_bytes;
pub mod bit_slice;
pub mod element;
pub mod utils;
pub mod intern;
pub mod laws;
pub mod laws_reals;
pub mod bitwise;
pub mod slice_ops;
pub mod order;
pub mod decimal;
pub mod decimal_digits;
pub mod radix;
pub mod radix_text;
pub mod big_utils;
pub mod ubig;
pub mod ibig;
pub mod big_int;
pub mod u;
pub mod i;

pub mod widening;
pub mod digit_buffer;
pub mod bit_iter;
pub mod machine_int;
pub mod fixed;
pub mod rat;
pub mod f;
pub mod p;
pub mod fraction;
pub mod complex;
pub mod codegen;
pub mod static_iter;
