//! Seal for the range marker trait.

use crate::frame::{FullRange, LimitedRange};
use vstd::prelude::*;

verus! {

/// Prevents range markers outside this crate.
pub trait Sealed {

}

impl Sealed for FullRange {

}

impl Sealed for LimitedRange {

}

} // verus!
