use vstd::prelude::*;

verus! {

/// Keeps [`crate::StrExt`] from being implemented outside this crate.
pub trait Sealed {}

impl Sealed for str {}

} // verus!
