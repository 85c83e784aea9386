//! Small pieces of graph that atoms leave behind.

use crate::data::{be_bytes, Data};
use crate::failure::Failure;
use crate::labels::delta_str;
use crate::universe::Universe;
use vstd::prelude::*;

verus! {

/// Makes a vertex that stands for an integer: a new vertex with an edge `Δ`
/// to one more new vertex, which carries the eight bytes of the integer.
pub fn copy_of_int<A>(uni: &mut Universe<A>, data: i64) -> (r: Result<u32, Failure>)
    requires
        old(uni).inv(),
    ensures
        final(uni).follows(old(uni), old(uni)@.carry(be_bytes(data)), r),
        final(uni).depth() == old(uni).depth(),
        final(uni).names() == old(uni).names(),
{
    let top = uni.top();
    if top + 1 > 0xffff_ffff {
        return Err(Failure::OutOfIds);
    }
    proof {
        crate::laws::lemma_add_top(uni@);
    }
    let v = match uni.try_add() {
        Ok(v) => v,
        Err(e) => {
            return Err(e);
        },
    };
    let d = match uni.try_add() {
        Ok(d) => d,
        Err(e) => {
            return Err(e);
        },
    };
    match uni.put(d, &Data::from_int(data)) {
        Ok(_) => {},
        Err(e) => {
            return Err(e);
        },
    }
    match uni.bind(v, d, delta_str()) {
        Ok(_) => Ok(v),
        Err(e) => Err(e),
    }
}

} // verus!
