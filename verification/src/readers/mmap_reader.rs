//! The byte source over the bytes of a memory-mapped file.
use crate::grammar::Cursor;
use crate::readers::buffer_reader::BufferReader;
use crate::readers::Reader;
use vstd::prelude::*;

verus! {

/// A byte source over the mapped bytes of a file. It borrows the bytes from the
/// mapping, which therefore outlives it, and reads them in place.
pub struct MemoryMappedReader<'a> {
    cursor: BufferReader,
    bytes: &'a [u8],
}

impl<'a> MemoryMappedReader<'a> {
    /// A source at the beginning of `bytes`, the whole content of a mapped file.
    pub fn new(bytes: &'a [u8]) -> (reader: MemoryMappedReader<'a>)
        ensures
            reader.source() == bytes@,
            reader.cursor() == Cursor::origin(),
    {
        MemoryMappedReader { cursor: BufferReader::new(), bytes }
    }
}

impl<'a> Reader<'a> for MemoryMappedReader<'a> {
    closed spec fn source(&self) -> Seq<u8> {
        self.bytes@
    }

    closed spec fn cursor(&self) -> Cursor {
        self.cursor@
    }

    proof fn lemma_source_len(&self) {
        vstd::slice::axiom_spec_len(self.bytes);
    }

    fn peek(&self) -> (byte: Option<u8>) {
        self.cursor.peek(self.bytes)
    }

    fn pop(&mut self) -> (byte: Option<u8>) {
        self.cursor.pop(self.bytes)
    }

    fn putback(&mut self) {
        self.cursor.putback()
    }

    fn mark_start(&mut self) {
        self.cursor.mark_start()
    }

    fn mark_stop(&mut self) {
        self.cursor.mark_stop()
    }

    fn segment(&self) -> (field: &'a [u8]) {
        self.cursor.field(self.bytes)
    }
}

} // verus!
