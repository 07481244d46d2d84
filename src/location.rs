use vstd::prelude::*;

verus! {

/// A contiguous free region: where it starts and how long it is.
#[derive(Debug, Clone, Copy, PartialEq, Eq, Structural)]
pub struct Location {
    pub address: u64,
    pub length: u64,
}

impl Location {
    pub fn new(address: u64, length: u64) -> (r: Location)
        ensures
            r.address == address,
            r.length == length,
    {
        Location { address, length }
    }
}

} // verus!
