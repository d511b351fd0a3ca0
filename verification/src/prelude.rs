//! Crate prelude: the error type and a small newtype helper.

use vstd::prelude::*;

pub use crate::error::TmuxError;

verus! {

/// Generic wrapper tuple struct for newtype conversions.
pub struct W<T>(pub T);

} // verus!
