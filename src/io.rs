//! The character source that a parser reads from.
use vstd::prelude::*;

verus! {

/// An abstracted character stream that reads characters into a buffer.
pub trait CharReader {
    /// Reads characters into `buffer` and returns how many were read.
    fn read(&mut self, buffer: &mut [char]) -> usize;
}

} // verus!
