//! The atoms of arrays.

use crate::failure::{Failure, Fault};
use crate::universe::Universe;
use vstd::prelude::*;
use vstd::string::StringExecFns;

verus! {

/// The length of an array: not there yet, it fails and changes nothing.
pub fn array_length<A>(uni: &mut Universe<A>, v: u32) -> (r: Result<u32, Failure>)
    ensures
        *final(uni) == *old(uni),
        r matches Err(e) && e@ == Fault::Custom("Not implemented yet"@),
{
    Err(Failure::Custom(String::from_str("Not implemented yet")))
}

/// An element of an array: not there yet, it fails and changes nothing.
pub fn array_at<A>(uni: &mut Universe<A>, v: u32) -> (r: Result<u32, Failure>)
    ensures
        *final(uni) == *old(uni),
        r matches Err(e) && e@ == Fault::Custom("Not implemented yet"@),
{
    Err(Failure::Custom(String::from_str("Not implemented yet")))
}

} // verus!
