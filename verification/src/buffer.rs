//! The fixed-capacity buffer and its capacity-checked write operations.
//!
//! A [`Buffer`] owns its bytes exclusively and appends text to them: string
//! slices, single characters, and the decimal form of integers of every
//! width. Its capacity is fixed by the storage shape `B` (a
//! [`ByteBuffer`](crate::ByteBuffer)); every write is checked against the remaining
//! capacity before any byte is written, and a write that does not fit
//! reports [`BufferWriteFailed`] and leaves the contents unchanged. The
//! bytes written so far are always a valid UTF-8 encoding, so [`Buffer::as_str`]
//! can hand them out as text.

use vstd::prelude::*;
use vstd::string::StringSliceAdditionalSpecFns;
use vstd::utf8::{
    char_is_scalar, decode_utf8, decode_utf8_encode_utf8, encode_scalar, encode_utf8,
    encode_utf8_decode_utf8, encode_utf8_valid_utf8, is_leading_byte_width_1, partial_valid_utf8,
    partial_valid_utf8_extend_ascii_block, valid_utf8, valid_utf8_concat,
};

use crate::byte_buffer::{ByteBuffer, Concat};
use crate::digits::{
    chunk4, dec_len, dec_str, digit_count, chunk_entry, lemma_dec_str_digits, lemma_dec_str_len,
    lemma_dec_str_small, lemma_dec_str_unfold4, sdec_str,
};

verus! {

/// The single write error: the attempted write would exceed the buffer's
/// remaining capacity.
#[derive(Debug, Clone, Copy, PartialEq, Eq)]
pub struct BufferWriteFailed;

/// An append-only byte container of fixed capacity `B::size()`, tracking
/// how many of its bytes are currently meaningful. Its view is the sequence
/// of bytes written so far.
#[verifier::reject_recursive_types(B)]
pub struct Buffer<B> {
    bytes: Vec<u8>,
    shape: core::marker::PhantomData<B>,
}

impl<B> View for Buffer<B> {
    type V = Seq<u8>;

    closed spec fn view(&self) -> Seq<u8> {
        self.bytes@
    }
}

/// Relies on core::str::from_utf8: for bytes that are a valid UTF-8
/// encoding it returns `Ok` of a string slice viewing exactly those bytes.
#[verifier::external_body]
fn bytes_as_str(bytes: &[u8]) -> (r: &str)
    requires
        valid_utf8(bytes@),
    ensures
        r.spec_bytes() == bytes@,
{
    match core::str::from_utf8(bytes) {
        Ok(s) => s,
        Err(_) => "",
    }
}

// The branch-minimized leading-zero-skipping write. All four bytes of the
// chunk entry for `value` are written unconditionally, but the destination
// index advances only once the zero padding is past, so later digits
// overwrite the padding and exactly the `len` real digits survive in
// `buf[pos..pos + len]`.
fn write_lt_10000(buf: &mut Vec<u8>, pos: usize, value: u16, len: usize)
    requires
        value < 10000,
        1 <= len <= 4,
        len as nat == dec_len(value as nat),
        pos + len <= old(buf)@.len(),
    ensures
        final(buf)@.len() == old(buf)@.len(),
        final(buf)@.subrange(pos as int, pos + len) == dec_str(value as nat),
        forall|j: int|
            0 <= j < old(buf)@.len() && !(pos <= j < pos + len) ==> final(buf)@[j] == old(
                buf,
            )@[j],
{
    let n = buf.len();
    let e = chunk_entry(value);
    let mut p = pos;
    buf.set(p, e.0);
    if len >= 4 {
        p = p + 1;
    }
    buf.set(p, e.1);
    if len >= 3 {
        p = p + 1;
    }
    buf.set(p, e.2);
    if len >= 2 {
        p = p + 1;
    }
    buf.set(p, e.3);
    proof {
        lemma_dec_str_small(value as nat);
        assert(buf@.subrange(pos as int, pos + len) =~= chunk4(value as nat).subrange(
            4 - len,
            4,
        ));
    }
}

// The digits of `m` laid down after a valid prefix still form valid UTF-8:
// ASCII bytes are one-byte encodings.
proof fn lemma_ascii_digits_extend(orig: Seq<u8>, full: Seq<u8>, m: nat)
    requires
        valid_utf8(orig),
        full.len() == orig.len() + dec_str(m).len(),
        full.subrange(0, orig.len() as int) == orig,
        full.subrange(orig.len() as int, full.len() as int) == dec_str(m),
    ensures
        full == orig + dec_str(m),
        valid_utf8(full),
{
    assert(full =~= orig + dec_str(m));
    lemma_dec_str_digits(m);
    assert(valid_utf8(full.subrange(0, orig.len() as int)));
    assert(partial_valid_utf8(full, orig.len() as int));
    assert forall|i: int| orig.len() <= i < full.len() implies #[trigger] is_leading_byte_width_1(
        full[i],
    ) by {
        assert(full[i] == dec_str(m)[i - orig.len()]);
    }
    partial_valid_utf8_extend_ascii_block(full, orig.len() as int, full.len() as int);
    assert(full.subrange(0, full.len() as int) =~= full);
}

// A one-character ASCII string encodes as the single corresponding byte.
proof fn lemma_ascii_char_bytes(c: char)
    requires
        (c as u32) < 128,
    ensures
        encode_utf8(seq![c]) == seq![((c as u32) as u8)],
{
    let u = c as u32;
    assert(u & 0x7F == u) by (bit_vector)
        requires
            u < 128,
    ;
    assert(seq![c].drop_first() =~= Seq::<char>::empty());
    assert(encode_utf8(seq![c]) =~= encode_scalar(u) + encode_utf8(Seq::<char>::empty()));
    assert(encode_scalar(u) =~= seq![((c as u32) as u8)]);
    assert(encode_utf8(seq![c]) =~= seq![((c as u32) as u8)]);
}

// encode_utf8 distributes over concatenation of character sequences.
proof fn lemma_encode_utf8_concat(a: Seq<char>, b: Seq<char>)
    ensures
        encode_utf8(a + b) == encode_utf8(a) + encode_utf8(b),
    decreases a.len(),
{
    if a.len() == 0 {
        assert(a + b =~= b);
        assert(encode_utf8(a) =~= Seq::<u8>::empty());
        assert(encode_utf8(a) + encode_utf8(b) =~= encode_utf8(b));
    } else {
        lemma_encode_utf8_concat(a.drop_first(), b);
        assert((a + b).drop_first() =~= a.drop_first() + b);
        assert((a + b)[0] == a[0]);
        assert(encode_utf8(a + b) == encode_scalar(a[0] as u32) + encode_utf8(
            a.drop_first() + b,
        ));
        assert(encode_utf8(a + b) =~= encode_utf8(a) + encode_utf8(b));
    }
}

/// Concatenation law: two valid UTF-8 byte sequences laid end to end stay
/// valid and decode to the text of the first followed by the text of the
/// second. Together with [`Buffer::append`]'s contract this gives
/// `x.append(y).as_str()` the text of `x.as_str()` followed by
/// `y.as_str()`.
pub proof fn lemma_concat_text(x: Seq<u8>, y: Seq<u8>)
    requires
        valid_utf8(x),
        valid_utf8(y),
    ensures
        valid_utf8(x + y),
        decode_utf8(x + y) == decode_utf8(x) + decode_utf8(y),
{
    let cx = decode_utf8(x);
    let cy = decode_utf8(y);
    decode_utf8_encode_utf8(x);
    decode_utf8_encode_utf8(y);
    lemma_encode_utf8_concat(cx, cy);
    valid_utf8_concat(x, y);
    encode_utf8_decode_utf8(cx + cy);
}

impl Buffer<[u8; 0]> {
    /// An empty buffer sized for exactly `N` bytes.
    pub fn new<const N: usize>() -> (r: Buffer<[u8; N]>)
        ensures
            r.wf(),
            r@ == Seq::<u8>::empty(),
            r.spec_capacity() == N as nat,
    {
        Buffer::create()
    }
}

impl<B: ByteBuffer> Buffer<B> {
    /// The buffer's capacity in bytes: the size of its storage shape.
    pub open spec fn spec_capacity(&self) -> nat {
        B::size()
    }

    /// How many more bytes the buffer can take.
    pub open spec fn spec_remaining(&self) -> int {
        B::size() - self@.len()
    }

    /// Well-formed: the written bytes fit the storage shape, the shape's
    /// size fits a machine word, and the contents are valid UTF-8.
    pub open spec fn wf(&self) -> bool {
        &&& self@.len() <= B::size()
        &&& B::size() <= usize::MAX as nat
        &&& valid_utf8(self@)
    }

    fn create() -> (r: Self)
        requires
            B::size() <= usize::MAX as nat,
        ensures
            r.wf(),
            r@ == Seq::<u8>::empty(),
    {
        Buffer { bytes: Vec::new(), shape: core::marker::PhantomData }
    }

    /// Resets the length to zero; the capacity is unchanged.
    pub fn clear(&mut self)
        requires
            old(self).wf(),
        ensures
            final(self).wf(),
            final(self)@ == Seq::<u8>::empty(),
    {
        self.bytes.clear();
    }

    /// The written prefix as text: a borrowed view of exactly the bytes
    /// written so far. The result is determined by the contents alone, so
    /// two calls without an intervening mutation return identical text.
    pub fn as_str(&self) -> (r: &str)
        requires
            self.wf(),
        ensures
            r.spec_bytes() == self@,
            r@ == decode_utf8(self@),
    {
        let r = bytes_as_str(self.bytes.as_slice());
        proof {
            encode_utf8_decode_utf8(r@);
        }
        r
    }

    /// The buffer's capacity in bytes.
    pub fn capacity(&self) -> (r: usize)
        requires
            self.wf(),
        ensures
            r as nat == self.spec_capacity(),
    {
        B::byte_size()
    }

    /// How many bytes are written so far.
    pub fn len(&self) -> (r: usize)
        ensures
            r == self@.len(),
    {
        self.bytes.len()
    }

    /// Whether nothing has been written yet.
    pub fn is_empty(&self) -> (r: bool)
        ensures
            r == (self@.len() == 0),
    {
        self.bytes.len() == 0
    }

    /// `capacity() - len()`: how many more bytes fit.
    pub fn remaining_capacity(&self) -> (r: usize)
        requires
            self.wf(),
        ensures
            r == self.spec_remaining(),
    {
        self.capacity() - self.len()
    }

    // Appends the raw bytes of `s`; the capacity check is the caller's.
    fn push_str_unchecked(&mut self, s: &str)
        requires
            old(self).wf(),
            old(self)@.len() + s.spec_bytes().len() <= B::size(),
        ensures
            final(self).wf(),
            final(self)@ == old(self)@ + s.spec_bytes(),
    {
        let b = s.as_bytes();
        let mut i: usize = 0;
        while i < b.len()
            invariant
                i <= b@.len(),
                b@ == s.spec_bytes(),
                self.bytes@ == old(self).bytes@ + b@.subrange(0, i as int),
                old(self)@.len() + b@.len() <= B::size(),
            decreases b@.len() - i,
        {
            let byte = b[i];
            self.bytes.push(byte);
            proof {
                assert(self.bytes@ =~= old(self).bytes@ + b@.subrange(0, i + 1));
            }
            i = i + 1;
        }
        proof {
            assert(self@ =~= old(self)@ + s.spec_bytes());
            encode_utf8_valid_utf8(s@);
            valid_utf8_concat(old(self)@, s.spec_bytes());
        }
    }

    /// Appends the bytes of `s` whole if they fit the remaining capacity;
    /// fails with the buffer unchanged otherwise.
    pub fn push_str(&mut self, s: &str) -> (res: Result<(), BufferWriteFailed>)
        requires
            old(self).wf(),
        ensures
            final(self).wf(),
            s.spec_bytes().len() <= old(self).spec_remaining() ==> res is Ok && final(self)@ == old(
                self,
            )@ + s.spec_bytes(),
            s.spec_bytes().len() > old(self).spec_remaining() ==> res is Err && final(self)@ == old(
                self,
            )@,
    {
        if s.as_bytes().len() > self.remaining_capacity() {
            return Err(BufferWriteFailed);
        }
        self.push_str_unchecked(s);
        Ok(())
    }

    // The shared decimal encoder behind every multi-chunk unsigned writer:
    // digit count first, one capacity check, then right-to-left four-digit
    // groups, and a final branch-minimized write for the leading group.
    fn write_uint(&mut self, value: u128) -> (res: Result<(), BufferWriteFailed>)
        requires
            old(self).wf(),
        ensures
            final(self).wf(),
            dec_len(value as nat) <= old(self).spec_remaining() ==> res is Ok && final(self)@
                == old(self)@ + dec_str(value as nat),
            dec_len(value as nat) > old(self).spec_remaining() ==> res is Err && final(self)@
                == old(self)@,
    {
        if value == 0 {
            proof {
                reveal_strlit("0");
                assert("0"@ =~= seq!['0']);
                lemma_ascii_char_bytes('0');
                assert("0".spec_bytes() =~= dec_str(0));
            }
            return self.push_str("0");
        }
        let total = digit_count(value);
        if total > self.remaining_capacity() {
            return Err(BufferWriteFailed);
        }
        let start = self.bytes.len();
        let mut i: usize = 0;
        while i < total
            invariant
                i <= total,
                start == old(self)@.len(),
                start + total <= B::size(),
                B::size() <= usize::MAX as nat,
                self.bytes@.len() == start + i,
                self.bytes@.subrange(0, start as int) == old(self)@,
            decreases total - i,
        {
            self.bytes.push(48);
            proof {
                assert(self.bytes@.subrange(0, start as int) =~= old(self)@);
            }
            i = i + 1;
        }
        let mut v = value;
        let mut rem = total;
        proof {
            assert(self.bytes@.subrange(start + rem, start + total) =~= Seq::<u8>::empty());
            assert(dec_str(value as nat) =~= dec_str(value as nat) + Seq::<u8>::empty());
        }
        while v >= 10000
            invariant
                v >= 1,
                1 <= rem <= total,
                rem as nat == dec_len(v as nat),
                total as nat == dec_len(value as nat),
                start == old(self)@.len(),
                start + total <= B::size(),
                B::size() <= usize::MAX as nat,
                self.bytes@.len() == start + total,
                self.bytes@.subrange(0, start as int) == old(self)@,
                dec_str(value as nat) == dec_str(v as nat) + self.bytes@.subrange(
                    start + rem,
                    start + total,
                ),
            decreases v,
        {
            proof {
                lemma_dec_str_unfold4(v as nat);
            }
            let ghost pre = self.bytes@;
            let e = chunk_entry((v % 10000) as u16);
            let base = start + rem - 4;
            self.bytes.set(base, e.0);
            self.bytes.set(base + 1, e.1);
            self.bytes.set(base + 2, e.2);
            self.bytes.set(base + 3, e.3);
            proof {
                let q = (v as nat) / 10000;
                let low = chunk4((v as nat) % 10000);
                let suf = pre.subrange(start + rem, start + total);
                assert(self.bytes@.subrange(0, start as int) =~= pre.subrange(0, start as int));
                assert(self.bytes@.subrange(start + rem - 4, start + total) =~= low + suf);
                assert((dec_str(q) + low) + suf =~= dec_str(q) + (low + suf));
            }
            v = v / 10000;
            rem = rem - 4;
        }
        proof {
            lemma_dec_str_small(v as nat);
        }
        let ghost before = self.bytes@;
        write_lt_10000(&mut self.bytes, start, v as u16, rem);
        proof {
            lemma_dec_str_len(v as nat);
            lemma_dec_str_len(value as nat);
            let full = self.bytes@;
            assert(full.subrange(0, start as int) =~= before.subrange(0, start as int));
            assert(full.subrange(start + rem, start + total) =~= before.subrange(
                start + rem,
                start + total,
            ));
            assert(full.subrange(start as int, start + total) =~= full.subrange(
                start as int,
                start + rem,
            ) + full.subrange(start + rem, start + total));
            assert(full.subrange(start as int, start + total) == dec_str(value as nat));
            lemma_ascii_digits_extend(old(self)@, full, value as nat);
        }
        Ok(())
    }

    /// Appends the decimal digits of `value` if they fit the remaining
    /// capacity; fails with the buffer unchanged otherwise. `0` is written
    /// as the single byte `"0"`.
    pub fn write_u8(&mut self, value: u8) -> (res: Result<(), BufferWriteFailed>)
        requires
            old(self).wf(),
        ensures
            final(self).wf(),
            dec_len(value as nat) <= old(self).spec_remaining() ==> res is Ok && final(self)@
                == old(self)@ + dec_str(value as nat),
            dec_len(value as nat) > old(self).spec_remaining() ==> res is Err && final(self)@
                == old(self)@,
    {
        let val: u32 = value as u32;
        // Branch-free digit count: adding these two constants assembles the
        // answer in the bits above the low eight.
        let a: u32 = val + 758;
        let b: u32 = val + 412;
        let approx: u32 = (a & b) >> 8;
        proof {
            assert({
                &&& value < 10 ==> (a & b) >> 8 == 0
                &&& (10 <= value && value < 100) ==> (a & b) >> 8 == 1
                &&& value >= 100 ==> (a & b) >> 8 == 2
            }) by (bit_vector)
                requires
                    a == value as u32 + 758,
                    b == value as u32 + 412,
            ;
            lemma_dec_str_small(value as nat);
        }
        let len: usize = approx as usize + 1;
        if len > self.remaining_capacity() {
            return Err(BufferWriteFailed);
        }
        let start = self.bytes.len();
        let mut i: usize = 0;
        while i < len
            invariant
                i <= len,
                start == old(self)@.len(),
                start + len <= B::size(),
                B::size() <= usize::MAX as nat,
                self.bytes@.len() == start + i,
                self.bytes@.subrange(0, start as int) == old(self)@,
            decreases len - i,
        {
            self.bytes.push(48);
            proof {
                assert(self.bytes@.subrange(0, start as int) =~= old(self)@);
            }
            i = i + 1;
        }
        let ghost before = self.bytes@;
        write_lt_10000(&mut self.bytes, start, value as u16, len);
        proof {
            lemma_dec_str_len(value as nat);
            let full = self.bytes@;
            assert(full.subrange(0, start as int) =~= before.subrange(0, start as int));
            lemma_ascii_digits_extend(old(self)@, full, value as nat);
        }
        Ok(())
    }

    /// Appends the decimal digits of `value` under the same contract as
    /// [`Buffer::write_u8`].
    pub fn write_u16(&mut self, value: u16) -> (res: Result<(), BufferWriteFailed>)
        requires
            old(self).wf(),
        ensures
            final(self).wf(),
            dec_len(value as nat) <= old(self).spec_remaining() ==> res is Ok && final(self)@
                == old(self)@ + dec_str(value as nat),
            dec_len(value as nat) > old(self).spec_remaining() ==> res is Err && final(self)@
                == old(self)@,
    {
        self.write_uint(value as u128)
    }

    /// Appends the decimal digits of `value` under the same contract as
    /// [`Buffer::write_u8`].
    pub fn write_u32(&mut self, value: u32) -> (res: Result<(), BufferWriteFailed>)
        requires
            old(self).wf(),
        ensures
            final(self).wf(),
            dec_len(value as nat) <= old(self).spec_remaining() ==> res is Ok && final(self)@
                == old(self)@ + dec_str(value as nat),
            dec_len(value as nat) > old(self).spec_remaining() ==> res is Err && final(self)@
                == old(self)@,
    {
        self.write_uint(value as u128)
    }

    /// Appends the decimal digits of `value` under the same contract as
    /// [`Buffer::write_u8`].
    pub fn write_u64(&mut self, value: u64) -> (res: Result<(), BufferWriteFailed>)
        requires
            old(self).wf(),
        ensures
            final(self).wf(),
            dec_len(value as nat) <= old(self).spec_remaining() ==> res is Ok && final(self)@
                == old(self)@ + dec_str(value as nat),
            dec_len(value as nat) > old(self).spec_remaining() ==> res is Err && final(self)@
                == old(self)@,
    {
        self.write_uint(value as u128)
    }

    /// Appends the decimal digits of `value` under the same contract as
    /// [`Buffer::write_u8`].
    pub fn write_u128(&mut self, value: u128) -> (res: Result<(), BufferWriteFailed>)
        requires
            old(self).wf(),
        ensures
            final(self).wf(),
            dec_len(value as nat) <= old(self).spec_remaining() ==> res is Ok && final(self)@
                == old(self)@ + dec_str(value as nat),
            dec_len(value as nat) > old(self).spec_remaining() ==> res is Err && final(self)@
                == old(self)@,
    {
        self.write_uint(value)
    }

    /// Appends the UTF-8 encoding of `value` (one to four bytes) if it
    /// fits the remaining capacity; fails with the buffer unchanged
    /// otherwise.
    pub fn write_char(&mut self, value: char) -> (res: Result<(), BufferWriteFailed>)
        requires
            old(self).wf(),
        ensures
            final(self).wf(),
            encode_scalar(value as u32).len() <= old(self).spec_remaining() ==> res is Ok && final(self)@ == old(self)@ + encode_scalar(value as u32),
            encode_scalar(value as u32).len() > old(self).spec_remaining() ==> res is Err && final(self)@ == old(self)@,
    {
        let s = value as u32;
        proof {
            char_is_scalar(value);
            assert(encode_scalar(s).len() == if s < 0x80 {
                1int
            } else if s < 0x800 {
                2int
            } else if s < 0x10000 {
                3int
            } else {
                4int
            });
        }
        let w: usize = if s < 0x80 {
            1
        } else if s < 0x800 {
            2
        } else if s < 0x10000 {
            3
        } else {
            4
        };
        if w > self.remaining_capacity() {
            return Err(BufferWriteFailed);
        }
        if s < 0x80 {
            proof {
                assert((s & 0x7F) < 0x80) by (bit_vector);
            }
            let b0: u8 = (s & 0x7F) as u8;
            self.bytes.push(b0);
            proof {
                assert(self.bytes@ =~= old(self)@ + encode_scalar(s));
            }
        } else if s < 0x800 {
            proof {
                assert(((s >> 6) & 0x1F) < 0x20 && (s & 0x3F) < 0x40) by (bit_vector);
            }
            let b0: u8 = 0xC0 | (((s >> 6) & 0x1F) as u8);
            let b1: u8 = 0x80 | ((s & 0x3F) as u8);
            self.bytes.push(b0);
            self.bytes.push(b1);
            proof {
                assert(self.bytes@ =~= old(self)@ + encode_scalar(s));
            }
        } else if s < 0x10000 {
            proof {
                assert(((s >> 12) & 0x0F) < 0x10 && ((s >> 6) & 0x3F) < 0x40 && (s & 0x3F)
                    < 0x40) by (bit_vector);
            }
            let b0: u8 = 0xE0 | (((s >> 12) & 0x0F) as u8);
            let b1: u8 = 0x80 | (((s >> 6) & 0x3F) as u8);
            let b2: u8 = 0x80 | ((s & 0x3F) as u8);
            self.bytes.push(b0);
            self.bytes.push(b1);
            self.bytes.push(b2);
            proof {
                assert(self.bytes@ =~= old(self)@ + encode_scalar(s));
            }
        } else {
            proof {
                assert(((s >> 18) & 0x7) < 0x8 && ((s >> 12) & 0x3F) < 0x40 && ((s >> 6) & 0x3F)
                    < 0x40 && (s & 0x3F) < 0x40) by (bit_vector);
            }
            let b0: u8 = 0xF0 | (((s >> 18) & 0x7) as u8);
            let b1: u8 = 0x80 | (((s >> 12) & 0x3F) as u8);
            let b2: u8 = 0x80 | (((s >> 6) & 0x3F) as u8);
            let b3: u8 = 0x80 | ((s & 0x3F) as u8);
            self.bytes.push(b0);
            self.bytes.push(b1);
            self.bytes.push(b2);
            self.bytes.push(b3);
            proof {
                assert(self.bytes@ =~= old(self)@ + encode_scalar(s));
            }
        }
        proof {
            assert(seq![value].drop_first() =~= Seq::<char>::empty());
            assert(seq![value][0] == value);
            assert(encode_utf8(seq![value]) == encode_scalar(s) + encode_utf8(
                Seq::<char>::empty(),
            ));
            assert(encode_utf8(seq![value]) =~= encode_scalar(s));
            encode_utf8_valid_utf8(seq![value]);
            valid_utf8_concat(old(self)@, encode_scalar(s));
        }
        Ok(())
    }

    // Appends the single byte `-`; the capacity discipline of `push_str`.
    fn push_neg(&mut self) -> (res: Result<(), BufferWriteFailed>)
        requires
            old(self).wf(),
        ensures
            final(self).wf(),
            1 <= old(self).spec_remaining() ==> res is Ok && final(self)@ == old(self)@
                + seq![45u8],
            old(self).spec_remaining() < 1 ==> res is Err && final(self)@ == old(self)@,
    {
        let res = self.push_str("-");
        proof {
            reveal_strlit("-");
            assert("-"@ =~= seq!['-']);
            lemma_ascii_char_bytes('-');
            assert("-".spec_bytes() =~= seq![45u8]);
        }
        res
    }

    /// Appends the decimal digits of `value` under the same contract as
    /// [`Buffer::write_u8`].
    pub fn write_usize(&mut self, value: usize) -> (res: Result<(), BufferWriteFailed>)
        requires
            old(self).wf(),
        ensures
            final(self).wf(),
            dec_len(value as nat) <= old(self).spec_remaining() ==> res is Ok && final(self)@
                == old(self)@ + dec_str(value as nat),
            dec_len(value as nat) > old(self).spec_remaining() ==> res is Err && final(self)@
                == old(self)@,
    {
        self.write_u64(value as u64)
    }

    /// Appends the signed decimal form of `value`: a leading `-` if and
    /// only if `value` is negative, then the digits of its magnitude. The
    /// whole text is measured first and appended exactly when it fits the
    /// remaining capacity; a write that does not fit fails with the buffer
    /// unchanged.
    pub fn write_i8(&mut self, value: i8) -> (res: Result<(), BufferWriteFailed>)
        requires
            old(self).wf(),
        ensures
            final(self).wf(),
            sdec_str(value as int).len() <= old(self).spec_remaining() ==> res is Ok && final(self)@
                == old(self)@ + sdec_str(value as int),
            sdec_str(value as int).len() > old(self).spec_remaining() ==> res is Err && final(self)@
                == old(self)@,
    {
        if value < 0 {
            let mag: u8 = (-(value as i16)) as u8;
            proof {
                assert(sdec_str(value as int) =~= seq![45u8] + dec_str(mag as nat));
                lemma_dec_str_len(mag as nat);
            }
            let need = 1 + digit_count(mag as u128);
            if need > self.remaining_capacity() {
                return Err(BufferWriteFailed);
            }
            match self.push_neg() {
                Err(e) => {
                    return Err(e);
                },
                Ok(_) => {
                },
            }
            let res = self.write_u8(mag);
            proof {
                assert((old(self)@ + seq![45u8]) + dec_str(mag as nat) =~= old(self)@ + (
                    seq![45u8] + dec_str(mag as nat)
                ));
            }
            res
        } else {
            let res = self.write_u8(value as u8);
            proof {
                lemma_dec_str_len(value as nat);
            }
            res
        }
    }

    /// Appends the signed decimal form of `value`: a leading `-` for a
    /// negative value, then the digits of its magnitude, under the same
    /// contract as [`Buffer::write_i8`].
    pub fn write_i16(&mut self, value: i16) -> (res: Result<(), BufferWriteFailed>)
        requires
            old(self).wf(),
        ensures
            final(self).wf(),
            sdec_str(value as int).len() <= old(self).spec_remaining() ==> res is Ok && final(self)@
                == old(self)@ + sdec_str(value as int),
            sdec_str(value as int).len() > old(self).spec_remaining() ==> res is Err && final(self)@
                == old(self)@,
    {
        if value < 0 {
            let mag: u16 = (-(value as i32)) as u16;
            proof {
                assert(sdec_str(value as int) =~= seq![45u8] + dec_str(mag as nat));
                lemma_dec_str_len(mag as nat);
            }
            let need = 1 + digit_count(mag as u128);
            if need > self.remaining_capacity() {
                return Err(BufferWriteFailed);
            }
            match self.push_neg() {
                Err(e) => {
                    return Err(e);
                },
                Ok(_) => {
                },
            }
            let res = self.write_u16(mag);
            proof {
                assert((old(self)@ + seq![45u8]) + dec_str(mag as nat) =~= old(self)@ + (
                    seq![45u8] + dec_str(mag as nat)
                ));
            }
            res
        } else {
            let res = self.write_u16(value as u16);
            proof {
                lemma_dec_str_len(value as nat);
            }
            res
        }
    }

    /// Appends the signed decimal form of `value`: a leading `-` for a
    /// negative value, then the digits of its magnitude, under the same
    /// contract as [`Buffer::write_i8`].
    pub fn write_i32(&mut self, value: i32) -> (res: Result<(), BufferWriteFailed>)
        requires
            old(self).wf(),
        ensures
            final(self).wf(),
            sdec_str(value as int).len() <= old(self).spec_remaining() ==> res is Ok && final(self)@
                == old(self)@ + sdec_str(value as int),
            sdec_str(value as int).len() > old(self).spec_remaining() ==> res is Err && final(self)@
                == old(self)@,
    {
        if value < 0 {
            let mag: u32 = (-(value as i64)) as u32;
            proof {
                assert(sdec_str(value as int) =~= seq![45u8] + dec_str(mag as nat));
                lemma_dec_str_len(mag as nat);
            }
            let need = 1 + digit_count(mag as u128);
            if need > self.remaining_capacity() {
                return Err(BufferWriteFailed);
            }
            match self.push_neg() {
                Err(e) => {
                    return Err(e);
                },
                Ok(_) => {
                },
            }
            let res = self.write_u32(mag);
            proof {
                assert((old(self)@ + seq![45u8]) + dec_str(mag as nat) =~= old(self)@ + (
                    seq![45u8] + dec_str(mag as nat)
                ));
            }
            res
        } else {
            let res = self.write_u32(value as u32);
            proof {
                lemma_dec_str_len(value as nat);
            }
            res
        }
    }

    /// Appends the signed decimal form of `value`: a leading `-` for a
    /// negative value, then the digits of its magnitude, under the same
    /// contract as [`Buffer::write_i8`].
    pub fn write_i64(&mut self, value: i64) -> (res: Result<(), BufferWriteFailed>)
        requires
            old(self).wf(),
        ensures
            final(self).wf(),
            sdec_str(value as int).len() <= old(self).spec_remaining() ==> res is Ok && final(self)@
                == old(self)@ + sdec_str(value as int),
            sdec_str(value as int).len() > old(self).spec_remaining() ==> res is Err && final(self)@
                == old(self)@,
    {
        if value < 0 {
            let mag: u64 = (-(value as i128)) as u64;
            proof {
                assert(sdec_str(value as int) =~= seq![45u8] + dec_str(mag as nat));
                lemma_dec_str_len(mag as nat);
            }
            let need = 1 + digit_count(mag as u128);
            if need > self.remaining_capacity() {
                return Err(BufferWriteFailed);
            }
            match self.push_neg() {
                Err(e) => {
                    return Err(e);
                },
                Ok(_) => {
                },
            }
            let res = self.write_u64(mag);
            proof {
                assert((old(self)@ + seq![45u8]) + dec_str(mag as nat) =~= old(self)@ + (
                    seq![45u8] + dec_str(mag as nat)
                ));
            }
            res
        } else {
            let res = self.write_u64(value as u64);
            proof {
                lemma_dec_str_len(value as nat);
            }
            res
        }
    }

    /// Appends the signed decimal form of `value`: a leading `-` for a
    /// negative value, then the digits of its magnitude, under the same
    /// contract as [`Buffer::write_i8`].
    pub fn write_i128(&mut self, value: i128) -> (res: Result<(), BufferWriteFailed>)
        requires
            old(self).wf(),
        ensures
            final(self).wf(),
            sdec_str(value as int).len() <= old(self).spec_remaining() ==> res is Ok && final(self)@
                == old(self)@ + sdec_str(value as int),
            sdec_str(value as int).len() > old(self).spec_remaining() ==> res is Err && final(self)@
                == old(self)@,
    {
        if value < 0 {
            let mag: u128 = if value == i128::MIN {
                170141183460469231731687303715884105728u128
            } else {
                (-value) as u128
            };
            proof {
                assert(sdec_str(value as int) =~= seq![45u8] + dec_str(mag as nat));
                lemma_dec_str_len(mag as nat);
            }
            let need = 1 + digit_count(mag as u128);
            if need > self.remaining_capacity() {
                return Err(BufferWriteFailed);
            }
            match self.push_neg() {
                Err(e) => {
                    return Err(e);
                },
                Ok(_) => {
                },
            }
            let res = self.write_u128(mag);
            proof {
                assert((old(self)@ + seq![45u8]) + dec_str(mag as nat) =~= old(self)@ + (
                    seq![45u8] + dec_str(mag as nat)
                ));
            }
            res
        } else {
            let res = self.write_u128(value as u128);
            proof {
                lemma_dec_str_len(value as nat);
            }
            res
        }
    }

    /// Appends the signed decimal form of `value`: a leading `-` for a
    /// negative value, then the digits of its magnitude, under the same
    /// contract as [`Buffer::write_i8`].
    pub fn write_isize(&mut self, value: isize) -> (res: Result<(), BufferWriteFailed>)
        requires
            old(self).wf(),
        ensures
            final(self).wf(),
            sdec_str(value as int).len() <= old(self).spec_remaining() ==> res is Ok && final(self)@
                == old(self)@ + sdec_str(value as int),
            sdec_str(value as int).len() > old(self).spec_remaining() ==> res is Err && final(self)@
                == old(self)@,
    {
        if value < 0 {
            let mag: u64 = (-(value as i128)) as u64;
            proof {
                assert(sdec_str(value as int) =~= seq![45u8] + dec_str(mag as nat));
                lemma_dec_str_len(mag as nat);
            }
            let need = 1 + digit_count(mag as u128);
            if need > self.remaining_capacity() {
                return Err(BufferWriteFailed);
            }
            match self.push_neg() {
                Err(e) => {
                    return Err(e);
                },
                Ok(_) => {
                },
            }
            let res = self.write_u64(mag);
            proof {
                assert((old(self)@ + seq![45u8]) + dec_str(mag as nat) =~= old(self)@ + (
                    seq![45u8] + dec_str(mag as nat)
                ));
            }
            res
        } else {
            let res = self.write_u64(value as u64);
            proof {
                lemma_dec_str_len(value as nat);
            }
            res
        }
    }

    /// A new buffer holding this buffer's bytes followed by `other`'s,
    /// backed by the concatenation shape: its capacity is the sum of the
    /// two capacities, so the copy always fits and the operation cannot
    /// fail.
    pub fn append<A: ByteBuffer>(&self, other: &Buffer<A>) -> (r: Buffer<Concat<B, A>>)
        requires
            self.wf(),
            other.wf(),
            B::size() + A::size() <= usize::MAX as nat,
        ensures
            r.wf(),
            r@ == self@ + other@,
            r.spec_capacity() == self.spec_capacity() + other.spec_capacity(),
    {
        let mut out: Buffer<Concat<B, A>> = Buffer::create();
        out.push_str_unchecked(self.as_str());
        out.push_str_unchecked(other.as_str());
        proof {
            assert(out@ =~= self@ + other@);
        }
        out
    }
}

} // verus!
