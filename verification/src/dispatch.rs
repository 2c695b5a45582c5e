//! Formatter resolution: choosing, at compile time, the writing strategy
//! for a value's type.
//!
//! A type that can be formatted declares its strategy through
//! [`ConstFormat`]; every integer width, `char` and `&str` declare the
//! built-in [`StdWriter`], whose `display` drives the matching
//! [`Buffer`](crate::buffer::Buffer) write operation under that
//! operation's exact contract. Resolution itself never fails: wrapping a
//! value reference in [`Selector`] and selecting through [`Selection`]
//! prefers the declared strategy and otherwise falls back to the sentinel
//! [`ConstFormatNotImplemented`], which has no display operation, so that
//! formatting an unformattable value is refused when the program is built,
//! not when it runs.

use vstd::prelude::*;
use vstd::string::StringSliceAdditionalSpecFns;
use vstd::utf8::encode_scalar;

use crate::buffer::{Buffer, BufferWriteFailed};
use crate::byte_buffer::ByteBuffer;
use crate::digits::{dec_len, dec_str, sdec_str};

verus! {

/// A formatting strategy: a stateless, zero-size value, one per
/// formattable type.
pub trait Writer: Sized {
    /// The strategy's single state-free instance.
    fn init() -> Self;
}

/// Declares which writing strategy formats values of a type.
pub trait ConstFormat {
    /// The writing strategy for values of this type.
    type Writer: Writer;
}

/// The outcome of resolving a wrapped value reference: the type's declared
/// writer where one exists, the sentinel otherwise. The preference falls
/// out of method resolution: the reference impl for types with a declared
/// formatter is found before the fallback impl on [`Selector`] itself.
pub trait Selection {
    /// The resolved writing strategy.
    type Writer: Writer;

    /// The resolved strategy's instance.
    fn select(&self) -> Self::Writer;
}

/// Wraps a value reference so that resolution can rank candidate
/// strategies by reference depth.
pub struct Selector<'a, T>(pub &'a T);

impl<'a, 'b, T: ConstFormat> Selection for &'b Selector<'a, T> {
    type Writer = T::Writer;

    fn select(&self) -> T::Writer {
        <T::Writer as Writer>::init()
    }
}

impl<'a, T> Selection for Selector<'a, T> {
    type Writer = ConstFormatNotImplemented<T>;

    fn select(&self) -> ConstFormatNotImplemented<T> {
        <ConstFormatNotImplemented<T> as Writer>::init()
    }
}

/// The sentinel strategy selected when a type declares no formatter. It
/// has no display operation, so actually invoking it is refused when the
/// program is built.
pub struct ConstFormatNotImplemented<T>(core::marker::PhantomData<T>);

impl<T> Writer for ConstFormatNotImplemented<T> {
    fn init() -> Self {
        ConstFormatNotImplemented(core::marker::PhantomData)
    }
}

/// The writer that formatter resolution picks for a value whose type
/// declares one.
pub fn get_writer<T: ConstFormat>(_value: &T) -> T::Writer {
    <T::Writer as Writer>::init()
}

/// The built-in writing strategy: one zero-size instance per built-in
/// formattable type, each `display` delegating to the matching buffer
/// write operation.
pub struct StdWriter<T>(core::marker::PhantomData<T>);

impl ConstFormat for u8 {
    type Writer = StdWriter<u8>;
}

impl Writer for StdWriter<u8> {
    fn init() -> Self {
        StdWriter(core::marker::PhantomData)
    }
}

impl StdWriter<u8> {
    /// Formats `*value` by delegating to [`Buffer::write_u8`], under that
    /// operation's exact contract.
    pub fn display<B: ByteBuffer>(
        self,
        value: &u8,
        buffer: &mut Buffer<B>,
    ) -> (res: Result<(), BufferWriteFailed>)
        requires
            old(buffer).wf(),
        ensures
            final(buffer).wf(),
            dec_len(*value as nat) <= old(buffer).spec_remaining() ==> res is Ok && final(buffer)@
                == old(buffer)@ + dec_str(*value as nat),
            dec_len(*value as nat) > old(buffer).spec_remaining() ==> res is Err && final(buffer)@
                == old(buffer)@,
    {
        buffer.write_u8(*value)
    }
}

impl ConstFormat for u16 {
    type Writer = StdWriter<u16>;
}

impl Writer for StdWriter<u16> {
    fn init() -> Self {
        StdWriter(core::marker::PhantomData)
    }
}

impl StdWriter<u16> {
    /// Formats `*value` by delegating to [`Buffer::write_u16`], under that
    /// operation's exact contract.
    pub fn display<B: ByteBuffer>(
        self,
        value: &u16,
        buffer: &mut Buffer<B>,
    ) -> (res: Result<(), BufferWriteFailed>)
        requires
            old(buffer).wf(),
        ensures
            final(buffer).wf(),
            dec_len(*value as nat) <= old(buffer).spec_remaining() ==> res is Ok && final(buffer)@
                == old(buffer)@ + dec_str(*value as nat),
            dec_len(*value as nat) > old(buffer).spec_remaining() ==> res is Err && final(buffer)@
                == old(buffer)@,
    {
        buffer.write_u16(*value)
    }
}

impl ConstFormat for u32 {
    type Writer = StdWriter<u32>;
}

impl Writer for StdWriter<u32> {
    fn init() -> Self {
        StdWriter(core::marker::PhantomData)
    }
}

impl StdWriter<u32> {
    /// Formats `*value` by delegating to [`Buffer::write_u32`], under that
    /// operation's exact contract.
    pub fn display<B: ByteBuffer>(
        self,
        value: &u32,
        buffer: &mut Buffer<B>,
    ) -> (res: Result<(), BufferWriteFailed>)
        requires
            old(buffer).wf(),
        ensures
            final(buffer).wf(),
            dec_len(*value as nat) <= old(buffer).spec_remaining() ==> res is Ok && final(buffer)@
                == old(buffer)@ + dec_str(*value as nat),
            dec_len(*value as nat) > old(buffer).spec_remaining() ==> res is Err && final(buffer)@
                == old(buffer)@,
    {
        buffer.write_u32(*value)
    }
}

impl ConstFormat for u64 {
    type Writer = StdWriter<u64>;
}

impl Writer for StdWriter<u64> {
    fn init() -> Self {
        StdWriter(core::marker::PhantomData)
    }
}

impl StdWriter<u64> {
    /// Formats `*value` by delegating to [`Buffer::write_u64`], under that
    /// operation's exact contract.
    pub fn display<B: ByteBuffer>(
        self,
        value: &u64,
        buffer: &mut Buffer<B>,
    ) -> (res: Result<(), BufferWriteFailed>)
        requires
            old(buffer).wf(),
        ensures
            final(buffer).wf(),
            dec_len(*value as nat) <= old(buffer).spec_remaining() ==> res is Ok && final(buffer)@
                == old(buffer)@ + dec_str(*value as nat),
            dec_len(*value as nat) > old(buffer).spec_remaining() ==> res is Err && final(buffer)@
                == old(buffer)@,
    {
        buffer.write_u64(*value)
    }
}

impl ConstFormat for u128 {
    type Writer = StdWriter<u128>;
}

impl Writer for StdWriter<u128> {
    fn init() -> Self {
        StdWriter(core::marker::PhantomData)
    }
}

impl StdWriter<u128> {
    /// Formats `*value` by delegating to [`Buffer::write_u128`], under that
    /// operation's exact contract.
    pub fn display<B: ByteBuffer>(
        self,
        value: &u128,
        buffer: &mut Buffer<B>,
    ) -> (res: Result<(), BufferWriteFailed>)
        requires
            old(buffer).wf(),
        ensures
            final(buffer).wf(),
            dec_len(*value as nat) <= old(buffer).spec_remaining() ==> res is Ok && final(buffer)@
                == old(buffer)@ + dec_str(*value as nat),
            dec_len(*value as nat) > old(buffer).spec_remaining() ==> res is Err && final(buffer)@
                == old(buffer)@,
    {
        buffer.write_u128(*value)
    }
}

impl ConstFormat for usize {
    type Writer = StdWriter<usize>;
}

impl Writer for StdWriter<usize> {
    fn init() -> Self {
        StdWriter(core::marker::PhantomData)
    }
}

impl StdWriter<usize> {
    /// Formats `*value` by delegating to [`Buffer::write_usize`], under that
    /// operation's exact contract.
    pub fn display<B: ByteBuffer>(
        self,
        value: &usize,
        buffer: &mut Buffer<B>,
    ) -> (res: Result<(), BufferWriteFailed>)
        requires
            old(buffer).wf(),
        ensures
            final(buffer).wf(),
            dec_len(*value as nat) <= old(buffer).spec_remaining() ==> res is Ok && final(buffer)@
                == old(buffer)@ + dec_str(*value as nat),
            dec_len(*value as nat) > old(buffer).spec_remaining() ==> res is Err && final(buffer)@
                == old(buffer)@,
    {
        buffer.write_usize(*value)
    }
}

impl ConstFormat for i8 {
    type Writer = StdWriter<i8>;
}

impl Writer for StdWriter<i8> {
    fn init() -> Self {
        StdWriter(core::marker::PhantomData)
    }
}

impl StdWriter<i8> {
    /// Formats `*value` by delegating to [`Buffer::write_i8`], under that
    /// operation's exact contract.
    pub fn display<B: ByteBuffer>(
        self,
        value: &i8,
        buffer: &mut Buffer<B>,
    ) -> (res: Result<(), BufferWriteFailed>)
        requires
            old(buffer).wf(),
        ensures
            final(buffer).wf(),
            sdec_str(*value as int).len() <= old(buffer).spec_remaining() ==> res is Ok && final(buffer)@
                == old(buffer)@ + sdec_str(*value as int),
            sdec_str(*value as int).len() > old(buffer).spec_remaining() ==> res is Err && final(buffer)@
                == old(buffer)@,
    {
        buffer.write_i8(*value)
    }
}

impl ConstFormat for i16 {
    type Writer = StdWriter<i16>;
}

impl Writer for StdWriter<i16> {
    fn init() -> Self {
        StdWriter(core::marker::PhantomData)
    }
}

impl StdWriter<i16> {
    /// Formats `*value` by delegating to [`Buffer::write_i16`], under that
    /// operation's exact contract.
    pub fn display<B: ByteBuffer>(
        self,
        value: &i16,
        buffer: &mut Buffer<B>,
    ) -> (res: Result<(), BufferWriteFailed>)
        requires
            old(buffer).wf(),
        ensures
            final(buffer).wf(),
            sdec_str(*value as int).len() <= old(buffer).spec_remaining() ==> res is Ok && final(buffer)@
                == old(buffer)@ + sdec_str(*value as int),
            sdec_str(*value as int).len() > old(buffer).spec_remaining() ==> res is Err && final(buffer)@
                == old(buffer)@,
    {
        buffer.write_i16(*value)
    }
}

impl ConstFormat for i32 {
    type Writer = StdWriter<i32>;
}

impl Writer for StdWriter<i32> {
    fn init() -> Self {
        StdWriter(core::marker::PhantomData)
    }
}

impl StdWriter<i32> {
    /// Formats `*value` by delegating to [`Buffer::write_i32`], under that
    /// operation's exact contract.
    pub fn display<B: ByteBuffer>(
        self,
        value: &i32,
        buffer: &mut Buffer<B>,
    ) -> (res: Result<(), BufferWriteFailed>)
        requires
            old(buffer).wf(),
        ensures
            final(buffer).wf(),
            sdec_str(*value as int).len() <= old(buffer).spec_remaining() ==> res is Ok && final(buffer)@
                == old(buffer)@ + sdec_str(*value as int),
            sdec_str(*value as int).len() > old(buffer).spec_remaining() ==> res is Err && final(buffer)@
                == old(buffer)@,
    {
        buffer.write_i32(*value)
    }
}

impl ConstFormat for i64 {
    type Writer = StdWriter<i64>;
}

impl Writer for StdWriter<i64> {
    fn init() -> Self {
        StdWriter(core::marker::PhantomData)
    }
}

impl StdWriter<i64> {
    /// Formats `*value` by delegating to [`Buffer::write_i64`], under that
    /// operation's exact contract.
    pub fn display<B: ByteBuffer>(
        self,
        value: &i64,
        buffer: &mut Buffer<B>,
    ) -> (res: Result<(), BufferWriteFailed>)
        requires
            old(buffer).wf(),
        ensures
            final(buffer).wf(),
            sdec_str(*value as int).len() <= old(buffer).spec_remaining() ==> res is Ok && final(buffer)@
                == old(buffer)@ + sdec_str(*value as int),
            sdec_str(*value as int).len() > old(buffer).spec_remaining() ==> res is Err && final(buffer)@
                == old(buffer)@,
    {
        buffer.write_i64(*value)
    }
}

impl ConstFormat for i128 {
    type Writer = StdWriter<i128>;
}

impl Writer for StdWriter<i128> {
    fn init() -> Self {
        StdWriter(core::marker::PhantomData)
    }
}

impl StdWriter<i128> {
    /// Formats `*value` by delegating to [`Buffer::write_i128`], under that
    /// operation's exact contract.
    pub fn display<B: ByteBuffer>(
        self,
        value: &i128,
        buffer: &mut Buffer<B>,
    ) -> (res: Result<(), BufferWriteFailed>)
        requires
            old(buffer).wf(),
        ensures
            final(buffer).wf(),
            sdec_str(*value as int).len() <= old(buffer).spec_remaining() ==> res is Ok && final(buffer)@
                == old(buffer)@ + sdec_str(*value as int),
            sdec_str(*value as int).len() > old(buffer).spec_remaining() ==> res is Err && final(buffer)@
                == old(buffer)@,
    {
        buffer.write_i128(*value)
    }
}

impl ConstFormat for isize {
    type Writer = StdWriter<isize>;
}

impl Writer for StdWriter<isize> {
    fn init() -> Self {
        StdWriter(core::marker::PhantomData)
    }
}

impl StdWriter<isize> {
    /// Formats `*value` by delegating to [`Buffer::write_isize`], under that
    /// operation's exact contract.
    pub fn display<B: ByteBuffer>(
        self,
        value: &isize,
        buffer: &mut Buffer<B>,
    ) -> (res: Result<(), BufferWriteFailed>)
        requires
            old(buffer).wf(),
        ensures
            final(buffer).wf(),
            sdec_str(*value as int).len() <= old(buffer).spec_remaining() ==> res is Ok && final(buffer)@
                == old(buffer)@ + sdec_str(*value as int),
            sdec_str(*value as int).len() > old(buffer).spec_remaining() ==> res is Err && final(buffer)@
                == old(buffer)@,
    {
        buffer.write_isize(*value)
    }
}

impl ConstFormat for char {
    type Writer = StdWriter<char>;
}

impl Writer for StdWriter<char> {
    fn init() -> Self {
        StdWriter(core::marker::PhantomData)
    }
}

impl StdWriter<char> {
    /// Formats `*value` by delegating to [`Buffer::write_char`], under
    /// that operation's exact contract.
    pub fn display<B: ByteBuffer>(
        self,
        value: &char,
        buffer: &mut Buffer<B>,
    ) -> (res: Result<(), BufferWriteFailed>)
        requires
            old(buffer).wf(),
        ensures
            final(buffer).wf(),
            encode_scalar(*value as u32).len() <= old(buffer).spec_remaining() ==> res is Ok
                && final(buffer)@ == old(buffer)@ + encode_scalar(*value as u32),
            encode_scalar(*value as u32).len() > old(buffer).spec_remaining() ==> res is Err
                && final(buffer)@ == old(buffer)@,
    {
        buffer.write_char(*value)
    }
}

impl<'s> ConstFormat for &'s str {
    type Writer = StdWriter<&'s str>;
}

impl<'s> Writer for StdWriter<&'s str> {
    fn init() -> Self {
        StdWriter(core::marker::PhantomData)
    }
}

impl<'s> StdWriter<&'s str> {
    /// Formats `value` by delegating to [`Buffer::push_str`], under that
    /// operation's exact contract.
    pub fn display<B: ByteBuffer>(
        self,
        value: &str,
        buffer: &mut Buffer<B>,
    ) -> (res: Result<(), BufferWriteFailed>)
        requires
            old(buffer).wf(),
        ensures
            final(buffer).wf(),
            value.spec_bytes().len() <= old(buffer).spec_remaining() ==> res is Ok && final(buffer)@
                == old(buffer)@ + value.spec_bytes(),
            value.spec_bytes().len() > old(buffer).spec_remaining() ==> res is Err && final(buffer)@
                == old(buffer)@,
    {
        buffer.push_str(value)
    }
}

} // verus!
