//! A cursor over a buffer of bytes, for reading and writing the fields of wire protocols:
//! big-endian integers of 8, 16, 24, 32 and 64 bits, and null-terminated UTF-8 strings.
//!
//! [`Buffered`] pairs any container that implements [`ToSlice`] with a byte position. Over
//! the byte container [`bytes::Bytes`] it has the typed `get_*` and `put_*` operations, whose
//! contracts are stated over [`BufferedView`], the bytes and the position of a cursor.
use std::ops::{Deref, DerefMut, Range, RangeTo};
use vstd::prelude::*;

pub mod bytes;

verus! {

/// `std::ops::RangeTo`, the type of `..end`, with its one public field `end`.
#[verifier::external_type_specification]
#[verifier::reject_recursive_types(Idx)]
pub struct ExRangeTo<Idx>(RangeTo<Idx>);

/// The ways in which a read from a buffer can fail.
#[derive(Debug, Clone, Copy, PartialEq, Eq, Structural)]
pub enum Error {
    /// More bytes were asked for than remain, or no terminator was found.
    UnexpectedEof,
    /// The bytes of a string were not valid UTF-8.
    InvalidData,
}

/// Shorthand for failing with [`Error::UnexpectedEof`] in a fallible context.
pub fn eof<T>() -> (r: Result<T, Error>)
    ensures
        r == Err::<T, Error>(Error::UnexpectedEof),
{
    Err(Error::UnexpectedEof)
}

/// A container whose contents can be seen as a run of bytes.
pub trait ToSlice: Sized {
    /// The bytes that the container holds.
    spec fn spec_bytes(&self) -> Seq<u8>;

    /// The size of one item in bytes; `0` where the container has no notion of items.
    spec fn spec_item_size_hint() -> usize;

    /// The bytes in `[range.start, range.end)`, or `None` if that range is out of bounds.
    fn slice(&self, range: Range<usize>) -> (r: Option<&[u8]>)
        ensures
            r is Some <==> range.start <= range.end <= self.spec_bytes().len(),
            r matches Some(s) ==> s@ == self.spec_bytes().subrange(
                range.start as int,
                range.end as int,
            ),
    ;

    /// The bytes in `[0, range.end)`, or `None` if that range is out of bounds.
    fn slice_to(&self, range: RangeTo<usize>) -> (r: Option<&[u8]>)
        ensures
            r is Some <==> range.end <= self.spec_bytes().len(),
            r matches Some(s) ==> s@ == self.spec_bytes().subrange(0, range.end as int),
    ;

    /// Used to optimistically assume sizes of a slice by using the size of a single item.
    fn item_size_hint() -> (r: usize)
        ensures
            r == Self::spec_item_size_hint(),
    ;

    /// The number of bytes held.
    fn len(&self) -> (r: usize)
        ensures
            r == self.spec_bytes().len(),
    ;
}

/// A container paired with a byte position that reads and writes advance.
#[derive(Debug)]
pub struct Buffered<T: ToSlice> {
    buffer: T,
    pos: usize,
}

/// What a cursor looks like to its callers: the bytes it runs over and its position in them.
pub struct BufferedView {
    pub data: Seq<u8>,
    pub pos: nat,
}

impl BufferedView {
    /// Whether `amount` more bytes can be read at the position.
    pub open spec fn available(self, amount: nat) -> bool {
        self.pos + amount <= self.data.len()
    }

    /// The next `amount` bytes at the position.
    pub open spec fn window(self, amount: nat) -> Seq<u8> {
        self.data.subrange(self.pos as int, (self.pos + amount) as int)
    }

    /// The same bytes, with the position moved to `pos`.
    pub open spec fn seek(self, pos: nat) -> Self {
        BufferedView { data: self.data, pos }
    }

    /// The same bytes, with the position moved forward by `amount`.
    pub open spec fn advance(self, amount: nat) -> Self {
        self.seek(self.pos + amount)
    }
}

impl<T: ToSlice> View for Buffered<T> {
    type V = BufferedView;

    open spec fn view(&self) -> BufferedView {
        BufferedView { data: self.inner().spec_bytes(), pos: self.spec_pos() as nat }
    }
}

impl<T: ToSlice> Buffered<T> {
    /// The container that the cursor runs over.
    pub closed spec fn inner(&self) -> T {
        self.buffer
    }

    /// The raw byte position of the cursor.
    pub closed spec fn spec_pos(&self) -> usize {
        self.pos
    }

    /// The position counted in items of the container.
    pub open spec fn spec_index(&self) -> int {
        self.spec_pos() as int / T::spec_item_size_hint() as int
    }
}

impl<T> Buffered<T> where T: ToSlice + Default {
    /// Constructs a cursor over `container`, positioned at its start.
    pub fn using(container: T) -> (r: Self)
        ensures
            r.inner() == container,
            r.spec_pos() == 0,
    {
        Self { pos: 0, buffer: container }
    }

    /// Constructs a cursor over the container's default value, positioned at its start.
    pub fn new() -> (r: Self)
        ensures
            call_ensures(T::default, (), r.inner()),
            r.spec_pos() == 0,
    {
        Self { buffer: T::default(), pos: 0 }
    }

    /// Returns an immutable reference to the underlying container.
    pub fn get_inner(&self) -> (r: &T)
        ensures
            *r == self.inner(),
    {
        &self.buffer
    }

    /// Returns a mutable reference to the underlying container. The position stays as it is,
    /// whatever the caller does to the container.
    pub fn get_inner_mut(&mut self) -> (r: &mut T)
        ensures
            *r == old(self).inner(),
            final(self).inner() == *final(r),
            final(self).spec_pos() == old(self).spec_pos(),
    {
        &mut self.buffer
    }

    /// Returns the raw position of the cursor within the buffer.
    pub fn pos(&self) -> (r: usize)
        ensures
            r == self.spec_pos(),
    {
        self.pos
    }

    /// Returns the index of the cursor within the buffer, counted in items.
    pub fn index(&self) -> (r: usize)
        requires
            T::spec_item_size_hint() != 0,
        ensures
            r == self.spec_index(),
    {
        self.pos / T::item_size_hint()
    }

    /// Advances the cursor by `amount` items, that is by `amount * item_size_hint` bytes.
    pub fn advance_index(&mut self, amount: usize)
        requires
            old(self).spec_pos() + amount * T::spec_item_size_hint() <= usize::MAX,
        ensures
            final(self).inner() == old(self).inner(),
            final(self).spec_pos() == old(self).spec_pos() + amount * T::spec_item_size_hint(),
    {
        let hint = T::item_size_hint();
        assert(0 <= amount * hint <= usize::MAX) by (nonlinear_arith)
            requires
                0 <= self.pos + amount * hint <= usize::MAX,
                0 <= self.pos,
                0 <= amount,
                0 <= hint,
        ;
        self.pos += amount * hint;
    }

    /// Sets the cursor to the given raw position. The position is not checked against the
    /// length of the buffer.
    pub fn set_position(&mut self, index: usize)
        ensures
            final(self).inner() == old(self).inner(),
            final(self).spec_pos() == index,
    {
        self.pos = index;
    }

    /// Returns the number of bytes between the position and the end of the buffer.
    pub fn remaining(&self) -> (r: usize)
        requires
            self@.pos <= self@.data.len(),
        ensures
            r == self@.data.len() - self@.pos,
            r + self@.pos == self@.data.len(),
    {
        self.buffer.len() - self.pos
    }

    /// Whether at least `amount` bytes remain.
    pub fn is_available(&self, amount: usize) -> (r: bool)
        requires
            self@.pos <= self@.data.len(),
        ensures
            r == self@.available(amount as nat),
    {
        self.remaining() >= amount
    }
}

impl<T: ToSlice + Clone> Clone for Buffered<T> {
    fn clone(&self) -> (r: Self)
        ensures
            call_ensures(T::clone, (&self.inner(),), r.inner()),
            r.spec_pos() == self.spec_pos(),
    {
        Self { buffer: self.buffer.clone(), pos: self.pos }
    }
}

impl<T: ToSlice> Deref for Buffered<T> {
    type Target = T;

    fn deref(&self) -> (r: &T)
        ensures
            *r == self.inner(),
    {
        &self.buffer
    }
}

impl<T: ToSlice> DerefMut for Buffered<T> {
    fn deref_mut(&mut self) -> (r: &mut T)
        ensures
            *r == old(self).inner(),
            final(self).inner() == *final(r),
            final(self).spec_pos() == old(self).spec_pos(),
    {
        &mut self.buffer
    }
}

} // verus!
