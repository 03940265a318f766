use crate::bytes::composite::{
    be_bytes, be_value, lemma_be_value_bound, lemma_spans, read_be, read_u24, signed, unsigned,
    write_be, write_u24,
};
use crate::{eof, Buffered, BufferedView, Error, ToSlice};
use std::ops::{Deref, Index, Range, RangeFrom, RangeInclusive, RangeTo};
use std::string::FromUtf8Error;
use vstd::prelude::*;
use vstd::slice::{slice_subrange, slice_to_vec};
use vstd::std_specs::convert::FromSpecImpl;
use vstd::string::StringSliceAdditionalSpecFns;
use vstd::utf8::{decode_utf8, encode_utf8, encode_utf8_decode_utf8, valid_utf8};

pub mod composite;
pub mod laws;

verus! {

/// `std::string::FromUtf8Error`, which `String::from_utf8` fails with. Nothing is read from it.
#[verifier::external_type_specification]
#[verifier::external_body]
pub struct ExFromUtf8Error(FromUtf8Error);

/// `String::from_utf8` is taken at its documented word: it succeeds exactly on well-formed
/// UTF-8, and the string that it then returns is made of the very bytes that it was given.
pub assume_specification[ String::from_utf8 ](vec: Vec<u8>) -> (r: Result<String, FromUtf8Error>)
    ensures
        r is Ok <==> valid_utf8(vec@),
        r matches Ok(s) ==> encode_utf8(s@) == vec@,
;

/// `std::ops::RangeFrom`, the type of `start..`, with its one public field `start`.
#[verifier::external_type_specification]
#[verifier::reject_recursive_types(Idx)]
pub struct ExRangeFrom<Idx>(RangeFrom<Idx>);

/// `RangeInclusive::start` gives the lower bound that the range was made with. Once the range
/// has been used up by iteration the documentation leaves the value open, and so does this.
pub assume_specification<Idx>[ RangeInclusive::<Idx>::start ](range: &RangeInclusive<Idx>) -> (r:
    &Idx)
    ensures
        !range@.exhausted ==> *r == range@.start,
;

/// `RangeInclusive::end` gives the upper bound that the range was made with. Once the range
/// has been used up by iteration the documentation leaves the value open, and so does this.
pub assume_specification<Idx>[ RangeInclusive::<Idx>::end ](range: &RangeInclusive<Idx>) -> (r:
    &Idx)
    ensures
        !range@.exhausted ==> *r == range@.end,
;

/// An owned, growable run of bytes.
#[derive(Debug)]
pub struct Bytes {
    bytes: Vec<u8>,
}

impl View for Bytes {
    type V = Seq<u8>;

    closed spec fn view(&self) -> Seq<u8> {
        self.bytes@
    }
}

impl Bytes {
    /// Constructs a new byte buffer using the provided vector as the initial contents.
    pub fn new(contents: Vec<u8>) -> (r: Self)
        ensures
            r@ == contents@,
    {
        Self { bytes: contents }
    }
}

impl Clone for Bytes {
    fn clone(&self) -> (r: Self)
        ensures
            r@ == self@,
    {
        Self { bytes: self.bytes.clone() }
    }
}

impl Default for Bytes {
    fn default() -> (r: Self)
        ensures
            r@ == Seq::<u8>::empty(),
    {
        Self { bytes: Vec::new() }
    }
}

impl ToSlice for Bytes {
    open spec fn spec_bytes(&self) -> Seq<u8> {
        self@
    }

    open spec fn spec_item_size_hint() -> usize {
        1
    }

    fn slice(&self, range: Range<usize>) -> (r: Option<&[u8]>) {
        if range.start <= range.end && range.end <= self.bytes.len() {
            Some(slice_subrange(self.bytes.as_slice(), range.start, range.end))
        } else {
            None
        }
    }

    fn slice_to(&self, range: RangeTo<usize>) -> (r: Option<&[u8]>) {
        if range.end <= self.bytes.len() {
            Some(slice_subrange(self.bytes.as_slice(), 0, range.end))
        } else {
            None
        }
    }

    fn item_size_hint() -> (r: usize) {
        1
    }

    fn len(&self) -> (r: usize) {
        self.bytes.len()
    }
}

impl Deref for Bytes {
    type Target = [u8];

    fn deref(&self) -> (r: &[u8])
        ensures
            r@ == self@,
    {
        self.bytes.as_slice()
    }
}

impl From<Vec<u8>> for Bytes {
    fn from(value: Vec<u8>) -> (r: Self)
        ensures
            r@ == value@,
    {
        Bytes { bytes: value }
    }
}

impl FromSpecImpl<Vec<u8>> for Bytes {
    open spec fn obeys_from_spec() -> bool {
        true
    }

    closed spec fn from_spec(value: Vec<u8>) -> Self {
        Bytes { bytes: value }
    }
}

impl From<&[u8]> for Bytes {
    fn from(value: &[u8]) -> (r: Self)
        ensures
            r@ == value@,
    {
        Bytes { bytes: slice_to_vec(value) }
    }
}

impl FromSpecImpl<&[u8]> for Bytes {
    open spec fn obeys_from_spec() -> bool {
        false
    }

    open spec fn from_spec(value: &[u8]) -> Self {
        arbitrary()
    }
}

impl<const N: usize> From<&[u8; N]> for Bytes {
    fn from(value: &[u8; N]) -> (r: Self)
        ensures
            r@ == value@,
    {
        Bytes::new(slice_to_vec(value.as_slice()))
    }
}

impl<const N: usize> FromSpecImpl<&[u8; N]> for Bytes {
    open spec fn obeys_from_spec() -> bool {
        false
    }

    open spec fn from_spec(value: &[u8; N]) -> Self {
        arbitrary()
    }
}

/// Indexing by `start..=end` gives no bytes where `end <= start`, and the bytes from `start`
/// up to and including `end` otherwise.
impl Index<RangeInclusive<usize>> for Bytes {
    type Output = [u8];

    fn index(&self, index: RangeInclusive<usize>) -> (r: &[u8])
        ensures
            r@ == if index@.end <= index@.start {
                Seq::<u8>::empty()
            } else {
                self@.subrange(index@.start as int, index@.end + 1)
            },
    {
        let start = *index.start();
        let end = *index.end();
        if end <= start {
            return slice_subrange(self.bytes.as_slice(), 0, 0);
        }
        proof {
            vstd::std_specs::vec::axiom_spec_len(&self.bytes);
        }
        slice_subrange(self.bytes.as_slice(), start, end + 1)
    }
}

impl vstd::std_specs::core::IndexSpecImpl<RangeInclusive<usize>> for Bytes {
    open spec fn index_req(&self, index: &RangeInclusive<usize>) -> bool {
        &&& !index@.exhausted
        &&& index@.start < index@.end ==> index@.end < self@.len()
    }
}

/// Indexing by `..end` gives no bytes where `end` is zero, and the first `end` bytes otherwise.
impl Index<RangeTo<usize>> for Bytes {
    type Output = [u8];

    fn index(&self, index: RangeTo<usize>) -> (r: &[u8])
        ensures
            r@ == self@.take(index.end as int),
    {
        let end = index.end;
        if end == 0 {
            return slice_subrange(self.bytes.as_slice(), 0, 0);
        }
        slice_subrange(self.bytes.as_slice(), 0, end)
    }
}

impl vstd::std_specs::core::IndexSpecImpl<RangeTo<usize>> for Bytes {
    open spec fn index_req(&self, index: &RangeTo<usize>) -> bool {
        index.end <= self@.len()
    }
}

/// Indexing by `start..` gives no bytes where `start` is at or past the end, and the bytes
/// from `start` on otherwise.
impl Index<RangeFrom<usize>> for Bytes {
    type Output = [u8];

    fn index(&self, index: RangeFrom<usize>) -> (r: &[u8])
        ensures
            r@ == if index.start >= self@.len() {
                Seq::<u8>::empty()
            } else {
                self@.skip(index.start as int)
            },
    {
        let start = index.start;
        let len = self.bytes.len();
        if start >= len {
            return slice_subrange(self.bytes.as_slice(), 0, 0);
        }
        slice_subrange(self.bytes.as_slice(), start, len)
    }
}

impl vstd::std_specs::core::IndexSpecImpl<RangeFrom<usize>> for Bytes {
    open spec fn index_req(&self, index: &RangeFrom<usize>) -> bool {
        true
    }
}

/// `data` cut or filled up with zero bytes to `len` bytes, with `src` laid over it at `at`.
pub open spec fn overlay(data: Seq<u8>, len: nat, at: int, src: Seq<u8>) -> Seq<u8> {
    Seq::new(
        len,
        |i: int|
            if at <= i < at + src.len() {
                src[i - at]
            } else if i < data.len() {
                data[i]
            } else {
                0u8
            },
    )
}

impl BufferedView {
    /// The length of the buffer once `amount` bytes were written at the position. A write that
    /// reaches the end of the buffer doubles it, and grows it further where that is not enough.
    pub open spec fn grown_len(self, amount: nat) -> nat {
        if self.pos + amount >= self.data.len() {
            if 2 * self.data.len() >= self.pos + amount {
                2 * self.data.len()
            } else {
                self.pos + amount
            }
        } else {
            self.data.len()
        }
    }

    /// Whether the buffer can take `amount` bytes at the position: where it has to grow, the
    /// new length is one that a buffer can have.
    pub open spec fn writable(self, amount: nat) -> bool {
        self.pos + amount >= self.data.len() ==> self.grown_len(amount) <= isize::MAX
    }

    /// The cursor after `src` was written at the position.
    pub open spec fn write(self, src: Seq<u8>) -> Self {
        BufferedView {
            data: overlay(self.data, self.grown_len(src.len()), self.pos as int, src),
            pos: self.pos + src.len(),
        }
    }

    /// Whether the first zero byte at or after the position stands at `end`.
    pub open spec fn terminated_at(self, end: int) -> bool {
        &&& self.pos <= end < self.data.len()
        &&& self.data[end] == 0
        &&& forall|i: int| self.pos <= i < end ==> self.data[i] != 0
    }

    /// Where the first zero byte at or after the position stands, if there is one.
    pub open spec fn terminator(self) -> Option<int> {
        if exists|end: int| self.terminated_at(end) {
            Some(choose|end: int| self.terminated_at(end))
        } else {
            None
        }
    }

    /// The bytes from the position up to `end`.
    pub open spec fn text(self, end: int) -> Seq<u8> {
        self.data.subrange(self.pos as int, end)
    }
}

/// At most one place is that of the first zero byte.
pub proof fn lemma_terminator_unique(view: BufferedView, end: int)
    requires
        view.terminated_at(end),
    ensures
        view.terminator() == Some(end),
{
    let chosen = choose|e: int| view.terminated_at(e);
    assert(view.terminated_at(chosen));
    if chosen < end {
        assert(view.data[chosen] != 0);
    } else if end < chosen {
        assert(view.data[end] != 0);
    }
}

impl Buffered<Bytes> {
    /// A read of `width` bytes went through: the bytes were there, the position is past them,
    /// and the buffer is as it was.
    pub open spec fn read_done(&self, after: Self, width: nat) -> bool {
        &&& self@.available(width)
        &&& after.inner() == self.inner()
        &&& after@ == self@.advance(width)
    }

    /// A read of `width` bytes failed: the bytes were not there, and nothing has changed.
    pub open spec fn read_failed(&self, after: Self, width: nat, error: Error) -> bool {
        &&& !self@.available(width)
        &&& error == Error::UnexpectedEof
        &&& after == *self
    }

    /// Returns an immutable reference to the underlying byte slice.
    pub fn bytes(&self) -> (r: &[u8])
        ensures
            r@ == self@.data,
    {
        self.buffer.bytes.as_slice()
    }

    /// Returns a mutable reference to the underlying byte slice. The position stays as it is,
    /// whatever the caller writes into the slice.
    pub fn bytes_mut(&mut self) -> (r: &mut [u8])
        ensures
            r@ == old(self)@.data,
            final(self)@.data == final(r)@,
            final(self)@.pos == old(self)@.pos,
    {
        self.buffer.bytes.as_mut_slice()
    }

    /// Reads the next `width` bytes as one big-endian number and steps over them.
    fn get_be(&mut self, width: usize) -> (r: Result<u64, Error>)
        requires
            width <= 8,
        ensures
            match r {
                Ok(v) => old(self).read_done(*final(self), width as nat) && v == be_value(
                    old(self)@.window(width as nat),
                ),
                Err(e) => old(self).read_failed(*final(self), width as nat, e),
            },
    {
        let limit = self.buffer.bytes.len();
        let pos = self.pos;
        if pos > limit || limit - pos < width {
            return eof();
        }
        let value = read_be(slice_subrange(self.buffer.bytes.as_slice(), pos, pos + width));
        self.pos = pos + width;
        Ok(value)
    }

    /// Writes `value` at the position and steps over it, growing the buffer first if the
    /// write reaches its end.
    fn put_slice(&mut self, value: &[u8])
        requires
            old(self)@.writable(value@.len()),
        ensures
            final(self)@ == old(self)@.write(value@),
    {
        let pos = self.pos;
        let slice_len = value.len();
        let buf_len = self.buffer.bytes.len();
        let ghost before = self.buffer.bytes@;
        let ghost grown = self@.grown_len(slice_len as nat);
        if pos + slice_len >= buf_len {
            let doubled = buf_len * 2;
            let needed = pos + slice_len;
            self.buffer.bytes.resize(if doubled >= needed { doubled } else { needed }, 0u8);
        }
        assert(self.buffer.bytes@ =~= overlay(before, grown, pos as int, Seq::empty()));
        let mut i: usize = 0;
        while i < slice_len
            invariant
                i <= slice_len == value@.len(),
                pos + slice_len <= grown <= usize::MAX,
                self.pos == pos,
                self.buffer.bytes@ == overlay(before, grown, pos as int, value@.take(i as int)),
            decreases slice_len - i,
        {
            self.buffer.bytes[pos + i] = value[i];
            i += 1;
            assert(self.buffer.bytes@ =~= overlay(
                before,
                grown,
                pos as int,
                value@.take(i as int),
            ));
        }
        assert(value@.take(slice_len as int) == value@);
        self.pos = pos + slice_len;
    }

    /// Attempts to return an unsigned byte from the reader, incrementing the position by `1` if
    /// successful. Otherwise an error is returned if not enough bytes remain.
    pub fn get_u8(&mut self) -> (r: Result<u8, Error>)
        ensures
            match r {
                Ok(v) => old(self).read_done(*final(self), 1) && v == be_value(
                    old(self)@.window(1),
                ),
                Err(e) => old(self).read_failed(*final(self), 1, e),
            },
    {
        proof {
            lemma_be_value_bound(self@.window(1));
            lemma_spans();
        }
        match self.get_be(1) {
            Ok(v) => Ok(v as u8),
            Err(e) => Err(e),
        }
    }

    /// Attempts to return a signed byte from the reader, incrementing the position by `1` if
    /// successful. Otherwise an error is returned if not enough bytes remain.
    pub fn get_i8(&mut self) -> (r: Result<i8, Error>)
        ensures
            match r {
                Ok(v) => old(self).read_done(*final(self), 1) && v == signed(
                    be_value(old(self)@.window(1)),
                    1,
                ),
                Err(e) => old(self).read_failed(*final(self), 1, e),
            },
    {
        proof {
            lemma_be_value_bound(self@.window(1));
            lemma_spans();
        }
        match self.get_be(1) {
            Ok(v) => {
                let bits = v as u8;
                assert(bits as i8 as int == if bits < 0x80u8 {
                    bits as int
                } else {
                    bits as int - 0x100
                }) by (bit_vector);
                Ok(#[verifier::truncate] (bits as i8))
            },
            Err(e) => Err(e),
        }
    }

    /// Attempts to return a signed short from the reader, incrementing the position by `2` if
    /// successful. Otherwise an error is returned if not enough bytes remain.
    pub fn get_i16(&mut self) -> (r: Result<i16, Error>)
        ensures
            match r {
                Ok(v) => old(self).read_done(*final(self), 2) && v == signed(
                    be_value(old(self)@.window(2)),
                    2,
                ),
                Err(e) => old(self).read_failed(*final(self), 2, e),
            },
    {
        proof {
            lemma_be_value_bound(self@.window(2));
            lemma_spans();
        }
        match self.get_be(2) {
            Ok(v) => {
                let bits = v as u16;
                assert(bits as i16 as int == if bits < 0x8000u16 {
                    bits as int
                } else {
                    bits as int - 0x10000
                }) by (bit_vector);
                Ok(#[verifier::truncate] (bits as i16))
            },
            Err(e) => Err(e),
        }
    }

    /// Attempts to return an unsigned short from the reader, incrementing the position by `2`
    /// if successful. Otherwise an error is returned if not enough bytes remain.
    pub fn get_u16(&mut self) -> (r: Result<u16, Error>)
        ensures
            match r {
                Ok(v) => old(self).read_done(*final(self), 2) && v == be_value(
                    old(self)@.window(2),
                ),
                Err(e) => old(self).read_failed(*final(self), 2, e),
            },
    {
        proof {
            lemma_be_value_bound(self@.window(2));
            lemma_spans();
        }
        match self.get_be(2) {
            Ok(v) => Ok(v as u16),
            Err(e) => Err(e),
        }
    }

    /// Attempts to return a 24-bit unsigned integer from the reader, incrementing the position
    /// by `3` if successful. Otherwise an error is returned if not enough bytes remain.
    pub fn get_u24(&mut self) -> (r: Result<usize, Error>)
        ensures
            match r {
                Ok(v) => old(self).read_done(*final(self), 3) && v == be_value(
                    old(self)@.window(3),
                ),
                Err(e) => old(self).read_failed(*final(self), 3, e),
            },
    {
        if self.pos <= self.buffer.bytes.len() && self.is_available(3) {
            let value = read_u24(
                slice_subrange(self.buffer.bytes.as_slice(), self.pos, self.pos + 3),
            );
            assert(self@.window(3).take(3) == self@.window(3));
            self.advance_index(3);
            Ok(value)
        } else {
            eof()
        }
    }

    /// Attempts to return a signed integer from the reader, incrementing the position by `4` if
    /// successful. Otherwise an error is returned if not enough bytes remain.
    pub fn get_i32(&mut self) -> (r: Result<i32, Error>)
        ensures
            match r {
                Ok(v) => old(self).read_done(*final(self), 4) && v == signed(
                    be_value(old(self)@.window(4)),
                    4,
                ),
                Err(e) => old(self).read_failed(*final(self), 4, e),
            },
    {
        proof {
            lemma_be_value_bound(self@.window(4));
            lemma_spans();
        }
        match self.get_be(4) {
            Ok(v) => {
                let bits = v as u32;
                assert(bits as i32 as int == if bits < 0x80000000u32 {
                    bits as int
                } else {
                    bits as int - 0x100000000
                }) by (bit_vector);
                Ok(#[verifier::truncate] (bits as i32))
            },
            Err(e) => Err(e),
        }
    }

    /// Attempts to return an unsigned integer from the reader, incrementing the position by `4`
    /// if successful. Otherwise an error is returned if not enough bytes remain.
    pub fn get_u32(&mut self) -> (r: Result<u32, Error>)
        ensures
            match r {
                Ok(v) => old(self).read_done(*final(self), 4) && v == be_value(
                    old(self)@.window(4),
                ),
                Err(e) => old(self).read_failed(*final(self), 4, e),
            },
    {
        proof {
            lemma_be_value_bound(self@.window(4));
            lemma_spans();
        }
        match self.get_be(4) {
            Ok(v) => Ok(v as u32),
            Err(e) => Err(e),
        }
    }

    /// Attempts to return a signed long from the reader, incrementing the position by `8` if
    /// successful. Otherwise an error is returned if not enough bytes remain.
    pub fn get_i64(&mut self) -> (r: Result<i64, Error>)
        ensures
            match r {
                Ok(v) => old(self).read_done(*final(self), 8) && v == signed(
                    be_value(old(self)@.window(8)),
                    8,
                ),
                Err(e) => old(self).read_failed(*final(self), 8, e),
            },
    {
        proof {
            lemma_be_value_bound(self@.window(8));
            lemma_spans();
        }
        match self.get_be(8) {
            Ok(v) => {
                let bits = v as u64;
                assert(bits as i64 as int == if bits < 0x8000000000000000u64 {
                    bits as int
                } else {
                    bits as int - 0x10000000000000000
                }) by (bit_vector);
                Ok(#[verifier::truncate] (bits as i64))
            },
            Err(e) => Err(e),
        }
    }

    /// Attempts to return an unsigned long from the reader, incrementing the position by `8`
    /// if successful. Otherwise an error is returned if not enough bytes remain.
    pub fn get_u64(&mut self) -> (r: Result<u64, Error>)
        ensures
            match r {
                Ok(v) => old(self).read_done(*final(self), 8) && v == be_value(
                    old(self)@.window(8),
                ),
                Err(e) => old(self).read_failed(*final(self), 8, e),
            },
    {
        proof {
            lemma_be_value_bound(self@.window(8));
            lemma_spans();
        }
        match self.get_be(8) {
            Ok(v) => Ok(v),
            Err(e) => Err(e),
        }
    }

    /// Writes an unsigned byte value into the buffer, incrementing the position by `1`.
    pub fn put_u8(&mut self, value: u8)
        requires
            old(self)@.writable(1),
        ensures
            final(self)@ == old(self)@.write(be_bytes(value as nat, 1)),
    {
        let bytes = write_be(value as u64, 1);
        self.put_slice(bytes.as_slice());
    }

    /// Writes a signed byte value into the buffer, incrementing the position by `1`.
    pub fn put_i8(&mut self, value: i8)
        requires
            old(self)@.writable(1),
        ensures
            final(self)@ == old(self)@.write(be_bytes(unsigned(value as int, 1), 1)),
    {
        let bits = #[verifier::truncate] (value as u8);
        assert(value as u8 as int == if value < 0 {
            value as int + 0x100
        } else {
            value as int
        }) by (bit_vector);
        proof {
            lemma_spans();
        }
        let bytes = write_be(bits as u64, 1);
        self.put_slice(bytes.as_slice());
    }

    /// Writes a signed short value into the buffer, incrementing the position by `2`.
    pub fn put_i16(&mut self, value: i16)
        requires
            old(self)@.writable(2),
        ensures
            final(self)@ == old(self)@.write(be_bytes(unsigned(value as int, 2), 2)),
    {
        let bits = #[verifier::truncate] (value as u16);
        assert(value as u16 as int == if value < 0 {
            value as int + 0x10000
        } else {
            value as int
        }) by (bit_vector);
        proof {
            lemma_spans();
        }
        let bytes = write_be(bits as u64, 2);
        self.put_slice(bytes.as_slice());
    }

    /// Writes an unsigned short value into the buffer, incrementing the position by `2`.
    pub fn put_u16(&mut self, value: u16)
        requires
            old(self)@.writable(2),
        ensures
            final(self)@ == old(self)@.write(be_bytes(value as nat, 2)),
    {
        let bytes = write_be(value as u64, 2);
        self.put_slice(bytes.as_slice());
    }

    /// Writes the low 24 bits of the value into the buffer, incrementing the position by `3`.
    /// The high 8 bits are dropped.
    pub fn put_u24(&mut self, value: u32)
        requires
            old(self)@.writable(3),
        ensures
            final(self)@ == old(self)@.write(be_bytes(value as nat, 3)),
    {
        let bytes = write_u24(value);
        self.put_slice(bytes.as_slice());
    }

    /// Writes a signed int value into the buffer, incrementing the position by `4`.
    pub fn put_i32(&mut self, value: i32)
        requires
            old(self)@.writable(4),
        ensures
            final(self)@ == old(self)@.write(be_bytes(unsigned(value as int, 4), 4)),
    {
        let bits = #[verifier::truncate] (value as u32);
        assert(value as u32 as int == if value < 0 {
            value as int + 0x100000000
        } else {
            value as int
        }) by (bit_vector);
        proof {
            lemma_spans();
        }
        let bytes = write_be(bits as u64, 4);
        self.put_slice(bytes.as_slice());
    }

    /// Writes an unsigned int value into the buffer, incrementing the position by `4`.
    pub fn put_u32(&mut self, value: u32)
        requires
            old(self)@.writable(4),
        ensures
            final(self)@ == old(self)@.write(be_bytes(value as nat, 4)),
    {
        let bytes = write_be(value as u64, 4);
        self.put_slice(bytes.as_slice());
    }

    /// Writes an unsigned long value into the buffer, incrementing the position by `8`.
    pub fn put_u64(&mut self, value: u64)
        requires
            old(self)@.writable(8),
        ensures
            final(self)@ == old(self)@.write(be_bytes(value as nat, 8)),
    {
        let bytes = write_be(value, 8);
        self.put_slice(bytes.as_slice());
    }

    /// Tries to read a null-terminated string (c-string) from the reader. The terminator is
    /// the first zero byte at or after the position; without one the read fails with
    /// [`Error::UnexpectedEof`], and where the bytes before it are not UTF-8 it fails with
    /// [`Error::InvalidData`]. A read that fails changes nothing; one that goes through leaves
    /// the position just past the terminator.
    pub fn get_str(&mut self) -> (r: Result<String, Error>)
        ensures
            match old(self)@.terminator() {
                None => r == Err::<String, Error>(Error::UnexpectedEof) && *final(self) == *old(
                    self,
                ),
                Some(end) => if valid_utf8(old(self)@.text(end)) {
                    &&& r matches Ok(s)
                    &&& s@ == decode_utf8(old(self)@.text(end))
                    &&& final(self).inner() == old(self).inner()
                    &&& final(self)@ == old(self)@.seek((end + 1) as nat)
                } else {
                    r == Err::<String, Error>(Error::InvalidData) && *final(self) == *old(self)
                },
            },
    {
        let pos = self.pos;
        let limit = self.buffer.bytes.len();
        let mut end = pos;
        while end < limit && self.buffer.bytes[end] != 0
            invariant
                pos <= end,
                limit == self.buffer.bytes@.len(),
                forall|i: int| pos <= i < end ==> self.buffer.bytes@[i] != 0,
            decreases limit - end,
        {
            end += 1;
        }
        if end >= limit {
            assert(self@.terminator() is None) by {
                if exists|e: int| self@.terminated_at(e) {
                    let e = choose|e: int| self@.terminated_at(e);
                    assert(self.buffer.bytes@[e] != 0);
                }
            }
            return eof();
        }
        proof {
            lemma_terminator_unique(self@, end as int);
        }
        let payload = slice_to_vec(slice_subrange(self.buffer.bytes.as_slice(), pos, end));
        match String::from_utf8(payload) {
            Ok(text) => {
                proof {
                    encode_utf8_decode_utf8(text@);
                }
                self.pos = end + 1;
                Ok(text)
            },
            Err(_) => Err(Error::InvalidData),
        }
    }

    /// Writes a null-terminated string value into the buffer, incrementing the position by
    /// `value.len() + 1`: the UTF-8 bytes of the string first, then a single zero byte. A NUL
    /// inside `value` is written like any other character, and ends the string for a reader.
    pub fn put_str(&mut self, value: &str)
        requires
            old(self)@.writable(value.spec_bytes().len()),
            old(self)@.write(value.spec_bytes()).writable(1),
        ensures
            final(self)@ == old(self)@.write(value.spec_bytes()).write(seq![0u8]),
    {
        self.put_slice(value.as_bytes());
        self.put_u8(0);
        proof {
            reveal_with_fuel(be_bytes, 2);
            assert(be_bytes(0, 1) =~= seq![0u8]);
        }
    }
}

} // verus!
