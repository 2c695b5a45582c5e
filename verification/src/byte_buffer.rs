//! The storage capability: which compile-time-sized byte shapes may back a
//! buffer, and the concatenation shape that sizes a merged buffer.
//!
//! The capability is closed: [`ByteBuffer`] requires the marker [`Seal`],
//! which this private module never exports, so no foreign shape can carry
//! it. Only two families of shapes do — the fixed-size byte array
//! `[u8; N]`, and [`Concat`] of two member shapes, whose size is the sum of
//! its parts. A shape is a pure type-level size descriptor; no value of it
//! is ever built.

use vstd::prelude::*;

verus! {

/// Marker bounding [`ByteBuffer`]. It is not exported, so no foreign shape
/// can grant itself the right to back a buffer.
pub trait Seal {

}

/// A compile-time-sized byte shape that may back a buffer. [`Self::size`]
/// is the shape's exact byte count, and [`Self::byte_size`] computes it.
pub trait ByteBuffer: Seal {
    /// The byte count of this storage shape.
    spec fn size() -> nat;

    /// The byte count of this storage shape, as a machine word.
    fn byte_size() -> (r: usize)
        requires
            Self::size() <= usize::MAX as nat,
        ensures
            r as nat == Self::size(),
    ;
}

impl<const N: usize> Seal for [u8; N] {

}

impl<const N: usize> ByteBuffer for [u8; N] {
    open spec fn size() -> nat {
        N as nat
    }

    fn byte_size() -> (r: usize) {
        N
    }
}

/// The concatenation of two storage shapes: a type-level pairing whose size
/// is the sum of the parts. It sizes the buffer that [`append`] returns and
/// is never built or read field-wise.
///
/// [`append`]: crate::buffer::Buffer::append
pub struct Concat<A, B> {
    first: core::marker::PhantomData<A>,
    second: core::marker::PhantomData<B>,
}

impl<A: Seal, B: Seal> Seal for Concat<A, B> {

}

impl<A: ByteBuffer, B: ByteBuffer> ByteBuffer for Concat<A, B> {
    open spec fn size() -> nat {
        A::size() + B::size()
    }

    fn byte_size() -> (r: usize) {
        A::byte_size() + B::byte_size()
    }
}

} // verus!
