//! Pairwise vector metrics: what is decided around the arithmetic.
//!
//! Dot product, cosine similarity, Euclidean and Manhattan distance and
//! Pearson correlation all take two vectors of one length. Cosine similarity
//! and Pearson correlation end in a division whose divisor may be zero; the
//! result is then fixed at zero and nothing is divided.

use crate::binary64::{encodes_zero, is_zero, POSITIVE_ZERO};
use crate::error::{Error, ErrorKind};
use vstd::prelude::*;

verus! {

/// How a metric that ends in a division gets its result.
#[derive(Debug, Clone, Copy, PartialEq, Eq, Structural)]
pub enum Ratio {
    /// The result is the number with this bit pattern, whatever the dividend.
    Fixed(u64),
    /// The result is the dividend divided by the divisor.
    Quotient,
}

/// The result of comparing the lengths of two vectors: their common length,
/// or the failure that names both.
pub open spec fn common_length(left: usize, right: usize) -> Result<usize, Error> {
    if left == right {
        Ok(left)
    } else {
        Err(Error::LengthMismatch { left, right })
    }
}

/// How cosine similarity gets its result from the norms of the two vectors:
/// a zero norm, of either sign, fixes it at positive zero.
pub open spec fn cosine_rule(norm_a: u64, norm_b: u64) -> Ratio {
    if encodes_zero(norm_a) || encodes_zero(norm_b) {
        Ratio::Fixed(POSITIVE_ZERO)
    } else {
        Ratio::Quotient
    }
}

/// How Pearson correlation gets its result from its denominator: a zero
/// denominator, of either sign, fixes it at positive zero.
pub open spec fn pearson_rule(denominator: u64) -> Ratio {
    if encodes_zero(denominator) {
        Ratio::Fixed(POSITIVE_ZERO)
    } else {
        Ratio::Quotient
    }
}

/// Admits two vectors to a pairwise metric if they have one length, and
/// returns it. Every metric on two vectors starts with this.
pub fn check_lengths(left: usize, right: usize) -> (r: Result<usize, Error>)
    ensures
        r == common_length(left, right),
        left != right ==> r is Err && r->Err_0.kind_of() == ErrorKind::InvalidInput,
{
    if left == right {
        Ok(left)
    } else {
        Err(Error::LengthMismatch { left, right })
    }
}

/// Decides how cosine similarity ends, given the norms of the two vectors.
/// A NaN norm is not zero: the division is made and carries it on.
pub fn cosine_ratio(norm_a: u64, norm_b: u64) -> (r: Ratio)
    ensures
        r == cosine_rule(norm_a, norm_b),
{
    if is_zero(norm_a) || is_zero(norm_b) {
        Ratio::Fixed(POSITIVE_ZERO)
    } else {
        Ratio::Quotient
    }
}

/// Decides how Pearson correlation ends, given its denominator.
/// A NaN denominator is not zero: the division is made and carries it on.
pub fn pearson_ratio(denominator: u64) -> (r: Ratio)
    ensures
        r == pearson_rule(denominator),
{
    if is_zero(denominator) {
        Ratio::Fixed(POSITIVE_ZERO)
    } else {
        Ratio::Quotient
    }
}

} // verus!
