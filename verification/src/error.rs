use vstd::prelude::*;

verus! {

/// Why an operation on a buffer could not be carried out.
///
/// Both conditions are recoverable and leave the buffer exactly as it was.
#[derive(Debug, PartialEq, Eq, Structural)]
pub enum Error {
    /// A read found no element to hand out.
    EmptyBuffer,
    /// A write found no free slot.
    FullBuffer,
}

} // verus!
