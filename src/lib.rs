//! Helpers for implementing random number generators: conversions between
//! 32-bit words, 64-bit words and byte buffers.
//!
//! Every word-to-byte conversion uses little-endian order, least-significant
//! byte first, so that generated byte streams are the same on every platform.
use vstd::prelude::*;

pub mod encoding;
pub mod impls;

verus! {

/// One output of a generator, as its history records it.
pub enum Draw {
    /// A 32-bit word returned by `next_u32`.
    Word32(u32),
    /// A 64-bit word returned by `next_u64`.
    Word64(u64),
    /// The bytes that `fill_bytes` left in its buffer.
    Bytes(Seq<u8>),
}

/// The core of a random number generator: the three primitive operations.
///
/// A generator implements at least one of them natively and may derive the
/// others with the helpers in [`impls`]. Each call advances the generator's
/// state. Which values come out is the generator's own affair; what every
/// generator states is its `history`, the outputs it has handed out so far,
/// in order, to which each call adds its own.
pub trait RngCore {
    /// The outputs handed out so far, oldest first.
    spec fn history(&self) -> Seq<Draw>;

    /// Returns the next 32-bit word of the generator's output.
    fn next_u32(&mut self) -> (r: u32)
        ensures
            final(self).history() == old(self).history().push(Draw::Word32(r)),
    ;

    /// Returns the next 64-bit word of the generator's output.
    fn next_u64(&mut self) -> (r: u64)
        ensures
            final(self).history() == old(self).history().push(Draw::Word64(r)),
    ;

    /// Fills `dest` with the generator's next output bytes.
    fn fill_bytes(&mut self, dest: &mut [u8])
        ensures
            final(dest)@.len() == old(dest)@.len(),
            final(self).history() == old(self).history().push(Draw::Bytes(final(dest)@)),
    ;
}

} // verus!
