//! The floating-point arithmetic that the interpreter hands to its host.
//!
//! Lua numbers are stored as eight big-endian bytes and a flag that tells
//! integers from floats. The interpreter decides which operation a program
//! asks for; when the operation is on floats, the host performs it on the
//! IEEE 754 bit patterns (`u64`) through this trait. No property of these
//! results is assumed by the library's proofs.
use vstd::prelude::*;

verus! {

/// Double-precision operations on IEEE 754 bit patterns.
pub trait FloatOps {
    /// The value of a float literal (decimal text such as `1.5` or `6.02E23`),
    /// or `None` when the text is not a number.
    fn parse_float(&self, text: &str) -> Option<u64>;

    /// The float nearest to an integer (`i as f64`).
    fn from_int(&self, i: i64) -> u64;

    /// `a + b`.
    fn add(&self, a: u64, b: u64) -> u64;

    /// `a - b`.
    fn sub(&self, a: u64, b: u64) -> u64;

    /// `a * b`.
    fn mul(&self, a: u64, b: u64) -> u64;

    /// `a / b`.
    fn div(&self, a: u64, b: u64) -> u64;

    /// `a.powf(b)`.
    fn pow(&self, a: u64, b: u64) -> u64;

    /// `a % b` (remainder with the sign of `a`).
    fn rem(&self, a: u64, b: u64) -> u64;

    /// `(a / b).floor() as i64`.
    fn floor_div(&self, a: u64, b: u64) -> i64;

    /// `a < b`.
    fn less_than(&self, a: u64, b: u64) -> bool;

    /// `a > b`.
    fn greater_than(&self, a: u64, b: u64) -> bool;

    /// `a == b`.
    fn equal(&self, a: u64, b: u64) -> bool;

    /// `Some(a.floor() as i64)` when `a.floor() == a.ceil()`, else `None`.
    fn exact_int(&self, a: u64) -> Option<i64>;

    /// `Some(a as i64)` when `a % 1.0 == 0.0`, else `None`.
    fn integral_value(&self, a: u64) -> Option<i64>;

    /// `a.floor() as i64`.
    fn floor_int(&self, a: u64) -> i64;

    /// `a.ceil() as i64`.
    fn ceil_int(&self, a: u64) -> i64;

    /// The text of `a`: `a.to_string()` when it has a fractional part, else
    /// `format!("{:.1}", a)`.
    fn to_text(&self, a: u64) -> String;
}

} // verus!
