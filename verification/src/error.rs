//! What can go wrong at run time without being a misuse of the library.

use vstd::prelude::*;

verus! {

/// A failure that the caller can recover from.
#[derive(Clone, Copy, Debug, PartialEq, Eq, Structural)]
pub enum Error {
    /// A buffer could not be allocated.
    OutOfMemory,
    /// A buffer does not have as many elements as its shape.
    WrongNumElements,
    /// An accelerator could not load or launch a kernel, or move a buffer.
    Launch,
}

} // verus!
