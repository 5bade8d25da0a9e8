//! The byte source over text held in memory.
use crate::grammar::Cursor;
use crate::readers::buffer_reader::BufferReader;
use crate::readers::Reader;
use vstd::prelude::*;
use vstd::string::StringSliceAdditionalSpecFns;

verus! {

/// A byte source over a borrowed, fully resident buffer.
pub struct StringReader<'a> {
    cursor: BufferReader,
    data: &'a [u8],
}

impl<'a> StringReader<'a> {
    /// A source at the beginning of the UTF-8 bytes of `data`.
    pub fn new(data: &'a str) -> (reader: StringReader<'a>)
        ensures
            reader.source() == data.spec_bytes(),
            reader.cursor() == Cursor::origin(),
    {
        StringReader { cursor: BufferReader::new(), data: data.as_bytes() }
    }

    /// A source over `data` that goes on from where `cursor` stands.
    pub fn resume(cursor: BufferReader, data: &'a [u8]) -> (reader: StringReader<'a>)
        ensures
            reader.source() == data@,
            reader.cursor() == cursor@,
    {
        StringReader { cursor, data }
    }

    /// Gives up the source and keeps its offsets.
    pub fn into_cursor(self) -> (cursor: BufferReader)
        ensures
            cursor@ == self.cursor(),
    {
        self.cursor
    }
}

impl<'a> Reader<'a> for StringReader<'a> {
    closed spec fn source(&self) -> Seq<u8> {
        self.data@
    }

    closed spec fn cursor(&self) -> Cursor {
        self.cursor@
    }

    proof fn lemma_source_len(&self) {
        vstd::slice::axiom_spec_len(self.data);
    }

    fn peek(&self) -> (byte: Option<u8>) {
        self.cursor.peek(self.data)
    }

    fn pop(&mut self) -> (byte: Option<u8>) {
        self.cursor.pop(self.data)
    }

    fn putback(&mut self) {
        self.cursor.putback()
    }

    fn mark_start(&mut self) {
        self.cursor.mark_start()
    }

    fn mark_stop(&mut self) {
        self.cursor.mark_stop()
    }

    fn segment(&self) -> (field: &'a [u8]) {
        self.cursor.field(self.data)
    }
}

} // verus!
