//! Byte sources: cursor-relative access to an immutable byte buffer.
//!
//! [`Reader`] is the capability the scanner is written against. [`StringReader`]
//! reads text held in memory, [`MemoryMappedReader`] the bytes of a mapped file.
//! [`BufferReader`] is the bare cursor that both keep their offsets in.
pub mod buffer_reader;
pub mod mmap_reader;
pub mod string_reader;

pub use buffer_reader::BufferReader;
pub use mmap_reader::MemoryMappedReader;
pub use string_reader::StringReader;

use crate::grammar::Cursor;
use vstd::prelude::*;

verus! {

/// A byte source: a cursor over a byte sequence that outlives the source by `'a`.
///
/// Every operation leaves the bytes as they are and moves the cursor as the
/// corresponding function of [`Cursor`] says.
pub trait Reader<'a> {
    /// The bytes that the source reads from.
    spec fn source(&self) -> Seq<u8>;

    /// The offsets of the source.
    spec fn cursor(&self) -> Cursor;

    /// The bytes are held in memory, so their number is a machine word.
    proof fn lemma_source_len(&self)
        ensures
            self.source().len() <= usize::MAX,
    ;

    /// The next unread byte, without moving; `None` at the end.
    fn peek(&self) -> (byte: Option<u8>)
        ensures
            byte == self.cursor().peek(self.source()),
    ;

    /// Reads the next byte and steps over it; `None` at the end.
    fn pop(&mut self) -> (byte: Option<u8>)
        ensures
            byte == old(self).cursor().peek(old(self).source()),
            final(self).cursor() == old(self).cursor().advance(old(self).source()),
            final(self).source() == old(self).source(),
    ;

    /// Steps back over the byte read last; does nothing at offset 0.
    fn putback(&mut self)
        ensures
            final(self).cursor() == old(self).cursor().retreat(),
            final(self).source() == old(self).source(),
    ;

    /// Marks the next unread byte as the first of the field.
    fn mark_start(&mut self)
        ensures
            final(self).cursor() == old(self).cursor().mark_start(),
            final(self).source() == old(self).source(),
    ;

    /// Ends the field before the byte read last.
    fn mark_stop(&mut self)
        ensures
            final(self).cursor() == old(self).cursor().mark_stop(),
            final(self).source() == old(self).source(),
    ;

    /// The marked field, borrowed from the source's bytes and not from the source.
    fn segment(&self) -> (field: &'a [u8])
        requires
            self.cursor().span().within(self.source()),
        ensures
            field@ == self.cursor().segment(self.source()),
    ;
}

} // verus!
