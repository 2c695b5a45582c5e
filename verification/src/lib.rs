//! Fixed-capacity, heap-free text formatting.
//!
//! A [`buffer::Buffer`] is an append-only byte container whose capacity is
//! fixed by its storage shape: a [`ByteBuffer`], either a fixed-size byte
//! array or the [`Concat`] of two member shapes. It renders unsigned and
//! signed integers of every width, single characters and string slices into
//! their decimal / UTF-8 text form, with every write checked against the
//! remaining capacity. The [`dispatch`] module resolves, for each formattable
//! type, the writer that drives the matching buffer operation.

pub mod buffer;
mod byte_buffer;
pub mod digits;
pub mod dispatch;

pub use byte_buffer::ByteBuffer;
pub use byte_buffer::Concat;
