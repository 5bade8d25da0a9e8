//! What holds of every document: theorems about the grammar of [`crate::grammar`],
//! and so about everything that the scanner hands out.
use crate::grammar::{
    document_end, lemma_record_bounds, lemma_scan_field_bounds, record, records, scan, scan_field,
    surfaced, Cursor, Mode, ParseStatus, Scan, Span, COMMA, CR, DQUOTE, LF,
};
use vstd::prelude::*;

verus! {

/// `byte` ends a field that is not inside quotes.
pub open spec fn is_delimiter(byte: u8) -> bool {
    byte == COMMA || byte == CR || byte == LF
}

/// How a field ends whose delimiter is `byte`.
pub open spec fn status_at(byte: u8) -> ParseStatus {
    if byte == COMMA {
        ParseStatus::HasMoreFields
    } else {
        ParseStatus::EndRecord
    }
}

/// Where the cursor stands behind the delimiter at offset `at`: behind the byte, and
/// behind one more after a carriage return, if there is one.
pub open spec fn position_behind(data: Seq<u8>, at: nat) -> nat {
    if data[at as int] == CR && at + 1 < data.len() {
        at + 2
    } else {
        at + 1
    }
}

/// The bytes of `data` from `from` up to `to` hold quotes in pairs only.
pub open spec fn quotes_doubled(data: Seq<u8>, from: nat, to: nat) -> bool
    decreases to - from,
{
    if from >= to {
        from == to
    } else if data[from as int] != DQUOTE {
        quotes_doubled(data, from + 1, to)
    } else {
        from + 1 < to && data[from as int + 1] == DQUOTE && quotes_doubled(data, from + 2, to)
    }
}

/// The scan of an unquoted field, from any byte of it on.
proof fn lemma_scan_plain_run(data: Seq<u8>, cursor: Cursor, end: nat)
    requires
        cursor.position <= end < data.len(),
        forall|i: int|
            cursor.position <= i < end ==> data[i] != DQUOTE && !is_delimiter(#[trigger] data[i]),
        is_delimiter(data[end as int]),
    ensures
        scan(data, Mode::Plain, cursor) == (Scan {
            status: status_at(data[end as int]),
            cursor: Cursor { start: cursor.start, stop: end, position: position_behind(data, end) },
        }),
    decreases end - cursor.position,
{
    if cursor.position < end {
        assert(!is_delimiter(data[cursor.position as int]));
        lemma_scan_plain_run(data, cursor.advance(data), end);
    }
}

/// A field without quotes is the bytes up to its delimiter: where no quote, comma or
/// line terminator stands from the cursor up to `end`, and one of the three
/// delimiters stands at `end`, the field is `[position, end)`, it ends as the
/// delimiter says, and the cursor is left behind the delimiter.
pub proof fn lemma_unquoted_field(data: Seq<u8>, cursor: Cursor, end: nat)
    requires
        cursor.position <= end < data.len(),
        forall|i: int|
            cursor.position <= i < end ==> data[i] != DQUOTE && !is_delimiter(#[trigger] data[i]),
        is_delimiter(data[end as int]),
    ensures
        scan_field(data, cursor) == (Scan {
            status: status_at(data[end as int]),
            cursor: Cursor {
                start: cursor.position,
                stop: end,
                position: position_behind(data, end),
            },
        }),
{
    lemma_scan_plain_run(data, cursor.mark_start(), end);
}

/// The scan of a quoted field, from any byte between its quotes on that no doubled
/// quote straddles.
proof fn lemma_scan_quoted_run(data: Seq<u8>, cursor: Cursor, close: nat)
    requires
        cursor.position <= close,
        close + 1 < data.len(),
        quotes_doubled(data, cursor.position, close),
        data[close as int] == DQUOTE,
        is_delimiter(data[close as int + 1]),
    ensures
        scan(data, Mode::Quoted, cursor) == (Scan {
            status: status_at(data[close as int + 1]),
            cursor: Cursor {
                start: cursor.start,
                stop: close,
                position: position_behind(data, close + 1),
            },
        }),
    decreases close - cursor.position,
{
    let read = cursor.advance(data);
    if cursor.position < close {
        if data[cursor.position as int] != DQUOTE {
            lemma_scan_quoted_run(data, read, close);
        } else {
            lemma_scan_quoted_run(data, read.advance(data), close);
        }
    } else {
        let closed = read.mark_stop();
        assert(scan(data, Mode::Quoted, cursor) == scan(data, Mode::Closed, closed));
    }
}

/// A quoted field is the bytes between its quotes, as they stand: where a quote
/// stands at the cursor, the bytes behind it up to `close` hold quotes in pairs only,
/// a quote stands at `close` and a delimiter behind it, the field is
/// `[position + 1, close)`, with every doubled quote still in it, and the cursor is
/// left behind the delimiter. Commas and line terminators before `close` are content.
pub proof fn lemma_quoted_field(data: Seq<u8>, cursor: Cursor, close: nat)
    requires
        cursor.position < close,
        close + 1 < data.len(),
        data[cursor.position as int] == DQUOTE,
        quotes_doubled(data, cursor.position + 1, close),
        data[close as int] == DQUOTE,
        is_delimiter(data[close as int + 1]),
    ensures
        scan_field(data, cursor) == (Scan {
            status: status_at(data[close as int + 1]),
            cursor: Cursor {
                start: cursor.position + 1,
                stop: close,
                position: position_behind(data, close + 1),
            },
        }),
{
    let opened = cursor.mark_start().advance(data).mark_start();
    lemma_scan_quoted_run(data, opened, close);
}

/// An empty line is a record of one field, and that field is empty. A line feed is
/// stepped over as one byte; a carriage return takes the byte behind it along, if
/// there is one.
pub proof fn lemma_empty_line(data: Seq<u8>, cursor: Cursor)
    requires
        cursor.position < data.len(),
        data[cursor.position as int] == LF || data[cursor.position as int] == CR,
    ensures
        record(data, cursor).complete,
        record(data, cursor).fields == seq![
            Span { start: cursor.position, stop: cursor.position },
        ],
        record(data, cursor).fields[0].of(data) == Seq::<u8>::empty(),
        record(data, cursor).cursor.position == if data[cursor.position as int] == LF
            || cursor.position + 1 == data.len() {
            cursor.position + 1
        } else {
            cursor.position + 2
        },
{
    let at = cursor.mark_start();
    assert(scan(data, Mode::Plain, at).status == ParseStatus::EndRecord);
    assert(data.subrange(cursor.position as int, cursor.position as int) =~= Seq::<u8>::empty());
}

/// Of a record with more fields than the cap, exactly the first `cap` are handed
/// over, and the others are read all the same: the next record is looked for behind
/// the whole line, wherever the cap fell.
pub proof fn lemma_excess_fields_dropped(data: Seq<u8>, cursor: Cursor, cap: nat)
    requires
        record(data, cursor).complete,
        record(data, cursor).fields.len() > cap,
    ensures
        surfaced(record(data, cursor).fields, cap) == record(data, cursor).fields.subrange(
            0,
            cap as int,
        ),
        records(data, cursor, cap).len() >= 1,
        records(data, cursor, cap)[0].len() == cap,
        records(data, cursor, cap)[0] == record(data, cursor).fields.subrange(0, cap as int),
        records(data, cursor, cap).subrange(1, records(data, cursor, cap).len() as int) == records(
            data,
            record(data, cursor).cursor,
            cap,
        ),
{
    let first = record(data, cursor);
    lemma_record_bounds(data, cursor);
    assert(records(data, cursor, cap) == seq![surfaced(first.fields, cap)] + records(
        data,
        first.cursor,
        cap,
    ));
    assert(records(data, cursor, cap).subrange(1, records(data, cursor, cap).len() as int)
        =~= records(data, first.cursor, cap));
}

/// Of a record with no more fields than the cap, all are handed over.
pub proof fn lemma_short_record_whole(data: Seq<u8>, cursor: Cursor, cap: nat)
    requires
        record(data, cursor).complete,
        record(data, cursor).fields.len() <= cap,
    ensures
        surfaced(record(data, cursor).fields, cap) == record(data, cursor).fields,
        records(data, cursor, cap).len() >= 1,
        records(data, cursor, cap)[0] == record(data, cursor).fields,
{
    lemma_record_bounds(data, cursor);
}

/// The cap only cuts: with a smaller cap the same records are found, in the same
/// places, and each is the one found with the larger cap, cut to the smaller.
pub proof fn lemma_cap_only_cuts(data: Seq<u8>, cursor: Cursor, small: nat, large: nat)
    requires
        small <= large,
    ensures
        records(data, cursor, small).len() == records(data, cursor, large).len(),
        forall|i: int|
            0 <= i < records(data, cursor, small).len() ==> #[trigger] records(
                data,
                cursor,
                small,
            )[i] == surfaced(records(data, cursor, large)[i], small),
    decreases data.len() - cursor.position,
{
    let first = record(data, cursor);
    if first.complete {
        lemma_record_bounds(data, cursor);
        lemma_cap_only_cuts(data, first.cursor, small, large);
        let cut = records(data, cursor, small);
        let wide = records(data, cursor, large);
        assert(cut == seq![surfaced(first.fields, small)] + records(data, first.cursor, small));
        assert(wide == seq![surfaced(first.fields, large)] + records(data, first.cursor, large));
        assert(surfaced(surfaced(first.fields, large), small) =~= surfaced(first.fields, small));
        assert forall|i: int| 0 <= i < cut.len() implies #[trigger] cut[i] == surfaced(
            wide[i],
            small,
        ) by {
            if i > 0 {
                assert(cut[i] == records(data, first.cursor, small)[i - 1]);
                assert(wide[i] == records(data, first.cursor, large)[i - 1]);
            }
        }
    }
}

/// Every record that is handed over has at most `cap` fields, and at least one if the
/// cap allows any; every field is a range of the document, at or behind the place
/// where reading began; and there are no more records than bytes left.
pub proof fn lemma_records_well_formed(data: Seq<u8>, cursor: Cursor, cap: nat)
    ensures
        cursor.position + records(data, cursor, cap).len() <= data.len() || records(
            data,
            cursor,
            cap,
        ).len() == 0,
        forall|i: int|
            0 <= i < records(data, cursor, cap).len() ==> (#[trigger] records(
                data,
                cursor,
                cap,
            )[i]).len() <= cap && (cap >= 1 ==> records(data, cursor, cap)[i].len() >= 1),
        forall|i: int, j: int|
            0 <= i < records(data, cursor, cap).len() && 0 <= j < records(data, cursor, cap)[i].len()
                ==> (#[trigger] records(data, cursor, cap)[i][j]).within(data) && cursor.position
                <= records(data, cursor, cap)[i][j].start,
    decreases data.len() - cursor.position,
{
    let first = record(data, cursor);
    lemma_record_bounds(data, cursor);
    if first.complete {
        lemma_records_well_formed(data, first.cursor, cap);
        let rest = records(data, first.cursor, cap);
        let all = records(data, cursor, cap);
        assert(all == seq![surfaced(first.fields, cap)] + rest);
        assert forall|i: int| 0 <= i < all.len() implies {
            &&& (#[trigger] all[i]).len() <= cap
            &&& cap >= 1 ==> all[i].len() >= 1
        } by {
            if i > 0 {
                assert(all[i] == rest[i - 1]);
            }
        }
        assert forall|i: int, j: int| 0 <= i < all.len() && 0 <= j < all[i].len() implies {
            &&& (#[trigger] all[i][j]).within(data)
            &&& cursor.position <= all[i][j].start
        } by {
            if i > 0 {
                assert(all[i] == rest[i - 1]);
                assert(all[i][j] == rest[i - 1][j]);
            } else {
                assert(all[0][j] == first.fields[j]);
            }
        }
    }
}

/// A scan depends on the marks it starts with only as far as they are still in use:
/// the start always, the stop only behind a closing quote.
proof fn lemma_scan_ignores_stale_marks(data: Seq<u8>, mode: Mode, a: Cursor, b: Cursor)
    requires
        a.position == b.position,
        a.start == b.start,
        mode is Closed ==> a.stop == b.stop,
    ensures
        scan(data, mode, a).status == scan(data, mode, b).status,
        scan(data, mode, a).cursor.position == scan(data, mode, b).cursor.position,
        scan(data, mode, a).status != ParseStatus::EndDocument ==> scan(data, mode, a).cursor
            == scan(data, mode, b).cursor,
    decreases data.len() - a.position,
{
    if a.position < data.len() {
        let byte = data[a.position as int];
        let (ra, rb) = (a.advance(data), b.advance(data));
        match mode {
            Mode::Quoted => {
                if byte != DQUOTE {
                    lemma_scan_ignores_stale_marks(data, Mode::Quoted, ra, rb);
                } else if ra.peek(data) is Some {
                    if ra.peek(data)->0 == DQUOTE {
                        lemma_scan_ignores_stale_marks(
                            data,
                            Mode::Quoted,
                            ra.advance(data),
                            rb.advance(data),
                        );
                    } else {
                        lemma_scan_ignores_stale_marks(
                            data,
                            Mode::Closed,
                            ra.mark_stop(),
                            rb.mark_stop(),
                        );
                    }
                }
            },
            _ => {
                if byte == DQUOTE {
                    lemma_scan_ignores_stale_marks(
                        data,
                        Mode::Quoted,
                        ra.mark_start(),
                        rb.mark_start(),
                    );
                } else if byte != COMMA && byte != CR && byte != LF {
                    lemma_scan_ignores_stale_marks(data, mode, ra, rb);
                }
            },
        }
    }
}

/// The record found from a cursor on depends on the cursor's position alone.
proof fn lemma_record_depends_on_position(data: Seq<u8>, a: Cursor, b: Cursor)
    requires
        a.position == b.position,
    ensures
        record(data, a).complete == record(data, b).complete,
        record(data, a).fields == record(data, b).fields,
        record(data, a).cursor.position == record(data, b).cursor.position,
        record(data, a).complete ==> record(data, a).cursor == record(data, b).cursor,
{
    lemma_scan_ignores_stale_marks(data, Mode::Plain, a.mark_start(), b.mark_start());
}

/// Parsing is determined by the document, the position it starts from and the cap:
/// two byte sources that stand at the same position of the same document hand over
/// the same records, whatever fields they had marked before. A parser always starts
/// at the beginning, so it hands over the same records each time it is given the
/// same document.
pub proof fn lemma_parse_deterministic(data: Seq<u8>, a: Cursor, b: Cursor, cap: nat)
    requires
        a.position == b.position,
    ensures
        records(data, a, cap) == records(data, b, cap),
        document_end(data, a).position == document_end(data, b).position,
    decreases data.len() - a.position,
{
    lemma_record_depends_on_position(data, a, b);
    if record(data, a).complete {
        lemma_record_bounds(data, a);
        lemma_parse_deterministic(data, record(data, a).cursor, record(data, b).cursor, cap);
    }
}

/// Without a line terminator outside quotes no field ends a record; in particular
/// not where no line terminator is left at all.
proof fn lemma_scan_needs_terminator(data: Seq<u8>, mode: Mode, cursor: Cursor)
    requires
        forall|i: int| cursor.position <= i < data.len() ==> data[i] != CR && data[i] != LF,
    ensures
        scan(data, mode, cursor).status != ParseStatus::EndRecord,
    decreases data.len() - cursor.position,
{
    if cursor.position < data.len() {
        let byte = data[cursor.position as int];
        let read = cursor.advance(data);
        match mode {
            Mode::Quoted => {
                if byte != DQUOTE {
                    lemma_scan_needs_terminator(data, Mode::Quoted, read);
                } else if read.peek(data) is Some {
                    if read.peek(data)->0 == DQUOTE {
                        lemma_scan_needs_terminator(data, Mode::Quoted, read.advance(data));
                    } else {
                        lemma_scan_needs_terminator(data, Mode::Closed, read.mark_stop());
                    }
                }
            },
            _ => {
                if byte == DQUOTE {
                    lemma_scan_needs_terminator(data, Mode::Quoted, read.mark_start());
                } else if byte != COMMA {
                    lemma_scan_needs_terminator(data, mode, read);
                }
            },
        }
    }
}

/// A last line without a line terminator is dropped: where neither a carriage return
/// nor a line feed is left from the cursor on, no record is found, however many
/// fields the line has.
pub proof fn lemma_unterminated_line_dropped(data: Seq<u8>, cursor: Cursor, cap: nat)
    requires
        forall|i: int| cursor.position <= i < data.len() ==> data[i] != CR && data[i] != LF,
    ensures
        !record(data, cursor).complete,
        records(data, cursor, cap) == Seq::<Seq<Span>>::empty(),
        document_end(data, cursor) == record(data, cursor).cursor,
    decreases data.len() - cursor.position,
{
    lemma_scan_needs_terminator(data, Mode::Plain, cursor.mark_start());
    let found = scan_field(data, cursor);
    if found.status == ParseStatus::HasMoreFields {
        lemma_scan_field_bounds(data, cursor);
        lemma_unterminated_line_dropped(data, found.cursor, cap);
    }
}

/// A scan that starts inside the document stays inside it, and runs out of input only
/// at its end.
proof fn lemma_scan_ends_at_end(data: Seq<u8>, mode: Mode, cursor: Cursor)
    requires
        cursor.position <= data.len(),
    ensures
        scan(data, mode, cursor).cursor.position <= data.len(),
        scan(data, mode, cursor).status == ParseStatus::EndDocument ==> scan(
            data,
            mode,
            cursor,
        ).cursor.position == data.len(),
    decreases data.len() - cursor.position,
{
    if cursor.position < data.len() {
        let byte = data[cursor.position as int];
        let read = cursor.advance(data);
        match mode {
            Mode::Quoted => {
                if byte != DQUOTE {
                    lemma_scan_ends_at_end(data, Mode::Quoted, read);
                } else if read.peek(data) is Some {
                    if read.peek(data)->0 == DQUOTE {
                        lemma_scan_ends_at_end(data, Mode::Quoted, read.advance(data));
                    } else {
                        lemma_scan_ends_at_end(data, Mode::Closed, read.mark_stop());
                    }
                }
            },
            _ => {
                if byte == DQUOTE {
                    lemma_scan_ends_at_end(data, Mode::Quoted, read.mark_start());
                } else if byte != COMMA && byte != CR && byte != LF {
                    lemma_scan_ends_at_end(data, mode, read);
                }
            },
        }
    }
}

/// A record that starts inside the document stays inside it, and is cut short only
/// at its end.
proof fn lemma_record_ends_at_end(data: Seq<u8>, cursor: Cursor)
    requires
        cursor.position <= data.len(),
    ensures
        record(data, cursor).cursor.position <= data.len(),
        !record(data, cursor).complete ==> record(data, cursor).cursor.position == data.len(),
    decreases data.len() - cursor.position,
{
    lemma_scan_ends_at_end(data, Mode::Plain, cursor.mark_start());
    let found = scan_field(data, cursor);
    if found.status == ParseStatus::HasMoreFields {
        lemma_scan_field_bounds(data, cursor);
        lemma_record_ends_at_end(data, found.cursor);
    }
}

/// Parsing reads the document to its end: whatever it holds, the cursor is left
/// behind the last byte. (A cursor that already stands behind the end stays there.)
pub proof fn lemma_document_read_to_end(data: Seq<u8>, cursor: Cursor)
    ensures
        document_end(data, cursor).position == if cursor.position <= data.len() {
            data.len()
        } else {
            cursor.position
        },
    decreases data.len() - cursor.position,
{
    let first = record(data, cursor);
    lemma_record_bounds(data, cursor);
    if cursor.position <= data.len() {
        lemma_record_ends_at_end(data, cursor);
    }
    if first.complete {
        lemma_document_read_to_end(data, first.cursor);
    }
}

} // verus!
