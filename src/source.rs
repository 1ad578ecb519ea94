//! The capability a decoder reads its bytes from.
use vstd::prelude::*;

verus! {

/// A source of bytes that is asked for one byte at a time.
pub trait ByteSource {
    /// Asks for one byte, to be written to `slot`. Returns the number of bytes
    /// supplied: 1 for a byte, 0 at the end of the input (any other count breaks
    /// the contract); or `Err(())` when the read failed.
    fn read(&mut self, slot: &mut u8) -> Result<usize, ()>;
}

} // verus!
