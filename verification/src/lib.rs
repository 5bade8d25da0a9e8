//! A non-allocating scanner of CSV text.
//!
//! The scanner works directly on an immutable byte buffer and yields each field as
//! a sub-slice of that buffer: nothing is copied and nothing is allocated, so a
//! document of any size is read in constant memory. The grammar is RFC 4180 with
//! two deviations: a line feed alone ends a line, and a quote opens a quoted region
//! wherever it stands. Doubled quotes inside a quoted field are left as they are.
//!
//! [`Parser`] is the front door. [`scanner`] holds the field scanner and the record
//! assembler, generic over the byte sources of [`readers`]; [`grammar`] says in
//! mathematical terms what they compute.
pub mod grammar;
pub mod laws;
pub mod mmap;
pub mod number;
pub mod readers;
pub mod scanner;

pub use crate::number::parse_number;

use crate::grammar::{document_end, is_record, records, Cursor};
use crate::readers::{BufferReader, StringReader};
use crate::scanner::{handed, parse_reader};
use vstd::prelude::*;

verus! {

/// A non-allocating parser of CSV data.
///
/// Every parse starts at the beginning of the data it is given, so one parser can be
/// used for any number of documents, and for the same document again. The parser
/// keeps the cursor of the parse made last, which is left where that parse stopped.
pub struct Parser {
    cursor: BufferReader,
}

impl View for Parser {
    type V = Cursor;

    closed spec fn view(&self) -> Cursor {
        self.cursor@
    }
}

impl Parser {
    /// Creates a new parser, with its cursor at the beginning.
    pub fn new() -> (parser: Parser)
        ensures
            parser@ == Cursor::origin(),
    {
        Parser { cursor: BufferReader::new() }
    }

    /// Parses the CSV `data`, the whole of it, from its first byte on. For every record
    /// (line), `consumer` is called with the index of the record, counted from 0, and
    /// with its fields. `N` is the greatest number of fields that are handed over:
    /// those that a record has beyond `N` are read and dropped.
    ///
    /// A last line without a line terminator is dropped, and so is everything from an
    /// unclosed quote on.
    ///
    /// What is handed over depends on `data` and `N` alone, not on what the parser was
    /// used for before: parsing the same data again gives the same records again.
    pub fn parse<const N: usize>(&mut self, data: &[u8], consumer: impl FnMut(usize, &[&[u8]]))
        requires
            forall|index: usize, fields: &[&[u8]]|
                is_record(data@, records(data@, Cursor::origin(), N as nat), index, fields)
                    ==> #[trigger] consumer.requires((index, fields)),
        ensures
            final(self)@ == document_end(data@, Cursor::origin()),
            forall|index: usize|
                index < records(data@, Cursor::origin(), N as nat).len() ==> #[trigger] handed(
                    consumer,
                    data@,
                    records(data@, Cursor::origin(), N as nat),
                    index,
                ),
    {
        let mut reader = StringReader::resume(BufferReader::new(), data);
        parse_reader::<N, StringReader>(&mut reader, consumer);
        self.cursor = reader.into_cursor();
    }
}

} // verus!
