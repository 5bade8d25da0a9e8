//! The CSV grammar as a mathematical model.
//!
//! A document is a `Seq<u8>`. A byte source keeps three offsets into it, modelled by
//! [`Cursor`]. Scanning one field is the transition system [`scan`]; a record is the
//! run of fields up to a line terminator ([`record`]); a document is the run of
//! complete records ([`records`]). The executable scanner is proved to compute
//! exactly these functions.
use vstd::prelude::*;

verus! {

/// The quote character `"`.
pub const DQUOTE: u8 = 34;

/// The field delimiter `,`.
pub const COMMA: u8 = 44;

/// Carriage return, the first byte of a CRLF line terminator.
pub const CR: u8 = 13;

/// Line feed, accepted alone as a line terminator.
pub const LF: u8 = 10;

/// What the scanner found at the end of a field.
#[derive(Clone, Copy, Debug, PartialEq, Eq, Structural)]
pub enum ParseStatus {
    /// The field ended at a comma: the record goes on.
    HasMoreFields,
    /// The field ended at a line terminator: it is the last of its record.
    EndRecord,
    /// The input ran out before the field ended.
    EndDocument,
}

/// The three offsets of a byte source: the marked field `[start, stop)` and the next
/// unread byte.
pub struct Cursor {
    pub start: nat,
    pub stop: nat,
    pub position: nat,
}

/// A field: the half-open byte range `[start, stop)` of the document.
pub struct Span {
    pub start: nat,
    pub stop: nat,
}

impl Span {
    /// The bytes of the field.
    pub open spec fn of(self, data: Seq<u8>) -> Seq<u8> {
        data.subrange(self.start as int, self.stop as int)
    }

    /// The range lies inside the document.
    pub open spec fn within(self, data: Seq<u8>) -> bool {
        self.start <= self.stop <= data.len()
    }
}

impl Cursor {
    /// The cursor of a fresh byte source.
    pub open spec fn origin() -> Cursor {
        Cursor { start: 0, stop: 0, position: 0 }
    }

    /// The next unread byte, if there is one.
    pub open spec fn peek(self, data: Seq<u8>) -> Option<u8> {
        if self.position < data.len() {
            Some(data[self.position as int])
        } else {
            None
        }
    }

    /// The cursor after reading one byte: one step forward, or unmoved at the end.
    pub open spec fn advance(self, data: Seq<u8>) -> Cursor {
        if self.position < data.len() {
            Cursor { position: self.position + 1, ..self }
        } else {
            self
        }
    }

    /// The cursor after un-reading one byte: one step back, or unmoved at offset 0.
    pub open spec fn retreat(self) -> Cursor {
        if self.position > 0 {
            Cursor { position: (self.position - 1) as nat, ..self }
        } else {
            self
        }
    }

    /// The cursor with the field's start set to the next unread byte.
    pub open spec fn mark_start(self) -> Cursor {
        Cursor { start: self.position, ..self }
    }

    /// The cursor with the field's end set to the byte just read, which is thereby
    /// excluded from the field.
    pub open spec fn mark_stop(self) -> Cursor {
        Cursor { stop: if self.position > 0 { (self.position - 1) as nat } else { 0 }, ..self }
    }

    /// The marked field as a range.
    pub open spec fn span(self) -> Span {
        Span { start: self.start, stop: self.stop }
    }

    /// The bytes of the marked field.
    pub open spec fn segment(self, data: Seq<u8>) -> Seq<u8> {
        self.span().of(data)
    }
}

/// Where the scanner stands relative to quotes.
pub enum Mode {
    /// No quote was seen in this field.
    Plain,
    /// Inside a quoted region.
    Quoted,
    /// After the closing quote of a quoted region.
    Closed,
}

/// The result of scanning one field: how it ended and where the cursor was left.
pub struct Scan {
    pub status: ParseStatus,
    pub cursor: Cursor,
}

/// The scanner as a transition system: the outcome of reading on from `cursor` in
/// `mode` until the field ends or the input runs out.
///
/// A quote is recognised wherever it stands. Outside quotes it opens a quoted region
/// and restarts the field behind itself. Inside, a doubled quote is content and both
/// of its bytes stay in the field; a single one closes the region and ends the field
/// before itself. Commas and line terminators count only outside quotes; they end an
/// unquoted field before themselves and leave a quoted one as its closing quote set
/// it. After a carriage return one more byte is skipped, whatever it is.
pub open spec fn scan(data: Seq<u8>, mode: Mode, cursor: Cursor) -> Scan
    decreases data.len() - cursor.position,
{
    if cursor.position >= data.len() {
        Scan { status: ParseStatus::EndDocument, cursor }
    } else {
        let byte = data[cursor.position as int];
        let read = cursor.advance(data);
        match mode {
            Mode::Quoted => {
                if byte != DQUOTE {
                    scan(data, Mode::Quoted, read)
                } else {
                    match read.peek(data) {
                        None => Scan { status: ParseStatus::EndDocument, cursor: read },
                        Some(after) => if after == DQUOTE {
                            scan(data, Mode::Quoted, read.advance(data))
                        } else {
                            scan(data, Mode::Closed, read.mark_stop())
                        },
                    }
                }
            },
            _ => {
                let ended = if mode is Plain {
                    read.mark_stop()
                } else {
                    read
                };
                if byte == DQUOTE {
                    scan(data, Mode::Quoted, read.mark_start())
                } else if byte == COMMA {
                    Scan { status: ParseStatus::HasMoreFields, cursor: ended }
                } else if byte == CR {
                    Scan { status: ParseStatus::EndRecord, cursor: ended.advance(data) }
                } else if byte == LF {
                    Scan { status: ParseStatus::EndRecord, cursor: ended }
                } else {
                    scan(data, mode, read)
                }
            },
        }
    }
}

/// Scanning one field from `cursor`: the field starts at the next unread byte.
pub open spec fn scan_field(data: Seq<u8>, cursor: Cursor) -> Scan {
    scan(data, Mode::Plain, cursor.mark_start())
}

/// A scan never moves backwards, and one that finds a field has read at least one
/// byte and marked a range that lies before the cursor, inside the document.
pub proof fn lemma_scan_bounds(data: Seq<u8>, mode: Mode, cursor: Cursor)
    requires
        cursor.start <= cursor.position,
        mode is Closed ==> cursor.start <= cursor.stop < cursor.position,
    ensures
        cursor.position <= scan(data, mode, cursor).cursor.position,
        scan(data, mode, cursor).status != ParseStatus::EndDocument ==> cursor.position < scan(
            data,
            mode,
            cursor,
        ).cursor.position <= data.len(),
        scan(data, mode, cursor).status != ParseStatus::EndDocument ==> cursor.start <= scan(
            data,
            mode,
            cursor,
        ).cursor.start <= scan(data, mode, cursor).cursor.stop < scan(
            data,
            mode,
            cursor,
        ).cursor.position,
    decreases data.len() - cursor.position,
{
    if cursor.position < data.len() {
        let byte = data[cursor.position as int];
        let read = cursor.advance(data);
        match mode {
            Mode::Quoted => {
                if byte != DQUOTE {
                    lemma_scan_bounds(data, Mode::Quoted, read);
                } else if read.peek(data) is Some {
                    if read.peek(data)->0 == DQUOTE {
                        lemma_scan_bounds(data, Mode::Quoted, read.advance(data));
                    } else {
                        lemma_scan_bounds(data, Mode::Closed, read.mark_stop());
                    }
                }
            },
            _ => {
                if byte == DQUOTE {
                    lemma_scan_bounds(data, Mode::Quoted, read.mark_start());
                } else if byte != COMMA && byte != CR && byte != LF {
                    lemma_scan_bounds(data, mode, read);
                }
            },
        }
    }
}

/// What `lemma_scan_bounds` gives for a whole field.
pub proof fn lemma_scan_field_bounds(data: Seq<u8>, cursor: Cursor)
    ensures
        cursor.position <= scan_field(data, cursor).cursor.position,
        scan_field(data, cursor).status != ParseStatus::EndDocument ==> cursor.position
            < scan_field(data, cursor).cursor.position <= data.len(),
        scan_field(data, cursor).status != ParseStatus::EndDocument ==> scan_field(
            data,
            cursor,
        ).cursor.span().within(data),
        scan_field(data, cursor).status != ParseStatus::EndDocument ==> cursor.position
            <= scan_field(data, cursor).cursor.start,
        scan_field(data, cursor).status != ParseStatus::EndDocument ==> scan_field(
            data,
            cursor,
        ).cursor.stop < scan_field(data, cursor).cursor.position,
{
    lemma_scan_bounds(data, Mode::Plain, cursor.mark_start());
}

/// One record as the scanner sees it from some cursor on: every field it finds, in
/// order, up to the first line terminator or the end of the input.
pub struct Record {
    /// Whether a line terminator ended the record. If not, the input ran out first and
    /// `fields` are those found before that.
    pub complete: bool,
    /// The fields found, however many.
    pub fields: Seq<Span>,
    /// Where the cursor is left.
    pub cursor: Cursor,
}

/// The record that starts at `cursor`.
pub open spec fn record(data: Seq<u8>, cursor: Cursor) -> Record
    decreases data.len() - cursor.position,
{
    let found = scan_field(data, cursor);
    match found.status {
        ParseStatus::EndDocument => Record {
            complete: false,
            fields: Seq::empty(),
            cursor: found.cursor,
        },
        ParseStatus::EndRecord => Record {
            complete: true,
            fields: seq![found.cursor.span()],
            cursor: found.cursor,
        },
        ParseStatus::HasMoreFields => {
            proof {
                lemma_scan_field_bounds(data, cursor);
            }
            let rest = record(data, found.cursor);
            Record { fields: seq![found.cursor.span()] + rest.fields, ..rest }
        },
    }
}

/// The fields of a record that a buffer of `cap` entries holds: the first `cap`, or
/// all of them if they are fewer.
pub open spec fn surfaced(fields: Seq<Span>, cap: nat) -> Seq<Span> {
    if fields.len() <= cap {
        fields
    } else {
        fields.subrange(0, cap as int)
    }
}

/// A record never moves the cursor backwards; a complete one has at least one field
/// and has read at least one byte; and every field lies inside the document, at or
/// after the place where the record began.
pub proof fn lemma_record_bounds(data: Seq<u8>, cursor: Cursor)
    ensures
        cursor.position <= record(data, cursor).cursor.position,
        record(data, cursor).complete ==> record(data, cursor).fields.len() >= 1,
        record(data, cursor).complete ==> cursor.position < record(data, cursor).cursor.position
            <= data.len(),
        forall|i: int|
            0 <= i < record(data, cursor).fields.len() ==> (#[trigger] record(
                data,
                cursor,
            ).fields[i]).within(data) && cursor.position <= record(data, cursor).fields[i].start,
    decreases data.len() - cursor.position,
{
    let found = scan_field(data, cursor);
    lemma_scan_field_bounds(data, cursor);
    if found.status == ParseStatus::HasMoreFields {
        lemma_record_bounds(data, found.cursor);
    }
}

/// The records of a document from `cursor` on, each cut to at most `cap` fields: the
/// complete records in order, up to the first one that the end of the input cuts
/// short, which is dropped with everything found in it.
pub open spec fn records(data: Seq<u8>, cursor: Cursor, cap: nat) -> Seq<Seq<Span>>
    decreases data.len() - cursor.position,
{
    let first = record(data, cursor);
    if first.complete {
        proof {
            lemma_record_bounds(data, cursor);
        }
        seq![surfaced(first.fields, cap)] + records(data, first.cursor, cap)
    } else {
        Seq::empty()
    }
}

/// Where the cursor is left once every record from `cursor` on has been read.
pub open spec fn document_end(data: Seq<u8>, cursor: Cursor) -> Cursor
    decreases data.len() - cursor.position,
{
    let first = record(data, cursor);
    if first.complete {
        proof {
            lemma_record_bounds(data, cursor);
        }
        document_end(data, first.cursor)
    } else {
        first.cursor
    }
}

/// `fields` are the bytes of the ranges `spans` of `data`, one slice for each range.
pub open spec fn holds_record(data: Seq<u8>, spans: Seq<Span>, fields: &[&[u8]]) -> bool {
    &&& fields@.len() == spans.len()
    &&& forall|j: int| 0 <= j < spans.len() ==> (#[trigger] fields@[j])@ == spans[j].of(data)
}

/// `index` and `fields` are one of the records `found` in `data`: its place among
/// them and its bytes.
pub open spec fn is_record(
    data: Seq<u8>,
    found: Seq<Seq<Span>>,
    index: usize,
    fields: &[&[u8]],
) -> bool {
    index < found.len() && holds_record(data, found[index as int], fields)
}

} // verus!
