//! The field scanner and the record assembler, written once against [`Reader`].
use crate::grammar::{
    document_end, is_record, lemma_record_bounds, lemma_scan_field_bounds, record, records, scan,
    scan_field, surfaced, Mode, ParseStatus, Record, Scan, Span, COMMA, CR, DQUOTE, LF,
};
use crate::readers::Reader;
use vstd::prelude::*;

verus! {

/// The mode that the scanner's two flags stand for.
spec fn mode_of(inside_dquote: bool, escaped_field: bool) -> Mode {
    if inside_dquote {
        Mode::Quoted
    } else if escaped_field {
        Mode::Closed
    } else {
        Mode::Plain
    }
}

/// Scans one field: reads on from the cursor until a delimiter outside quotes or the
/// end of the input, and leaves the field marked in the source.
pub fn next_field<'a, R: Reader<'a>>(reader: &mut R) -> (status: ParseStatus)
    ensures
        final(reader).source() == old(reader).source(),
        (Scan { status, cursor: final(reader).cursor() }) == scan_field(
            old(reader).source(),
            old(reader).cursor(),
        ),
{
    let ghost data = reader.source();
    let ghost goal = scan_field(reader.source(), reader.cursor());
    let mut inside_dquote = false;
    let mut escaped_field = false;

    reader.mark_start();

    loop
        invariant
            data == old(reader).source(),
            goal == scan_field(old(reader).source(), old(reader).cursor()),
            reader.source() == data,
            inside_dquote ==> escaped_field,
            scan(data, mode_of(inside_dquote, escaped_field), reader.cursor()) == goal,
        decreases data.len() - reader.cursor().position,
    {
        if let Some(ch) = reader.pop() {
            if ch == DQUOTE {
                if !inside_dquote {
                    inside_dquote = true;
                    escaped_field = true;

                    reader.mark_start();
                } else {
                    match reader.peek() {
                        Some(ch2) => {
                            if ch2 == DQUOTE {
                                // Still inside the quoted region.
                                reader.pop();
                            } else {
                                // The quoted region is closed.
                                inside_dquote = false;

                                reader.mark_stop();
                            }
                        },
                        None => {
                            return ParseStatus::EndDocument;
                        },
                    }
                }

                continue ;
            }
            if inside_dquote {
                continue ;
            }
            if ch == COMMA {
                if !escaped_field {
                    reader.mark_stop();
                }
                return ParseStatus::HasMoreFields;
            }
            if ch == CR {
                if !escaped_field {
                    reader.mark_stop();
                }
                reader.pop();  // the line feed

                return ParseStatus::EndRecord;
            }
            // A line feed alone ends the line too.

            if ch == LF {
                if !escaped_field {
                    reader.mark_stop();
                }
                return ParseStatus::EndRecord;
            }
        } else {
            return ParseStatus::EndDocument;
        }
    }
}

/// Assembles one record: scans fields up to the next line terminator and stores the
/// first `fields.len()` of them in `fields`, each a slice of the source's own bytes.
/// Fields beyond that are read and dropped.
///
/// Returns the number of fields stored, or `None` if the input ran out before a line
/// terminator. In that case the fields that were found before the end are stored all
/// the same. Entries of `fields` behind the stored ones keep what they held.
pub fn parse_record<'a, R: Reader<'a>>(reader: &mut R, fields: &mut [&'a [u8]]) -> (count: Option<
    usize,
>)
    ensures
        final(reader).source() == old(reader).source(),
        final(reader).cursor() == record(old(reader).source(), old(reader).cursor()).cursor,
        count is Some <==> record(old(reader).source(), old(reader).cursor()).complete,
        final(fields)@.len() == old(fields)@.len(),
        ({
            let data = old(reader).source();
            let kept = surfaced(record(data, old(reader).cursor()).fields, old(fields)@.len());
            &&& count matches Some(n) ==> n == kept.len()
            &&& forall|i: int| 0 <= i < kept.len() ==> (#[trigger] final(fields)@[i])@ == kept[i].of(data)
            &&& forall|i: int|
                kept.len() <= i < old(fields)@.len() ==> #[trigger] final(fields)@[i] == old(
                    fields,
                )@[i]
        }),
{
    let ghost data = reader.source();
    let ghost whole = record(reader.source(), reader.cursor());
    let ghost mut done: Seq<Span> = Seq::empty();
    let mut field_index: usize = 0;

    loop
        invariant
            data == old(reader).source(),
            whole == record(old(reader).source(), old(reader).cursor()),
            reader.source() == data,
            fields@.len() == old(fields)@.len(),
            whole == (Record {
                fields: done + record(data, reader.cursor()).fields,
                ..record(data, reader.cursor())
            }),
            field_index == surfaced(done, fields@.len()).len(),
            forall|i: int| 0 <= i < field_index ==> (#[trigger] fields@[i])@ == done[i].of(data),
            forall|i: int| field_index <= i < fields@.len() ==> #[trigger] fields@[i] == old(fields)@[i],
        decreases data.len() - reader.cursor().position,
    {
        let ghost before = reader.cursor();
        let status = next_field(reader);
        proof {
            lemma_scan_field_bounds(data, before);
            let span = reader.cursor().span();
            if status != ParseStatus::EndDocument {
                assert(done.push(span) + record(data, reader.cursor()).fields =~= done + (seq![span]
                    + record(data, reader.cursor()).fields));
                assert(done.push(span) =~= done + seq![span]);
            } else {
                assert(done + Seq::<Span>::empty() =~= done);
            }
        }

        match status {
            ParseStatus::HasMoreFields => {
                if field_index < fields.len() {
                    fields[field_index] = reader.segment();

                    field_index += 1;
                }
                proof {
                    done = done.push(reader.cursor().span());
                }
            },
            ParseStatus::EndRecord => {
                if field_index < fields.len() {
                    fields[field_index] = reader.segment();

                    field_index += 1;
                }
                proof {
                    done = done.push(reader.cursor().span());
                }
                return Some(field_index);
            },
            ParseStatus::EndDocument => {
                return None;
            },
        }
    }
}

/// `consumer` was called with `index` and with the fields of the record of that index
/// among `found`: its postcondition holds of such a call.
pub open spec fn handed<F: FnMut(usize, &[&[u8]])>(
    consumer: F,
    data: Seq<u8>,
    found: Seq<Seq<Span>>,
    index: usize,
) -> bool {
    exists|fields: &[&[u8]]|
        is_record(data, found, index, fields) && #[trigger] consumer.ensures((index, fields), ())
}

/// Reads every record from the source's cursor on and hands each to `consumer`, with
/// its index, counted from 0, and its first `N` fields at most.
///
/// One array of `N` slices is used for all records: what `consumer` is given is valid
/// for the one call only, though the fields themselves live as long as the source's
/// bytes.
pub fn parse_reader<'a, const N: usize, R: Reader<'a>>(
    reader: &mut R,
    consumer: impl FnMut(usize, &[&[u8]]),
)
    requires
        forall|index: usize, fields: &[&[u8]]|
            is_record(
                old(reader).source(),
                records(old(reader).source(), old(reader).cursor(), N as nat),
                index,
                fields,
            ) ==> #[trigger] consumer.requires((index, fields)),
    ensures
        final(reader).source() == old(reader).source(),
        final(reader).cursor() == document_end(old(reader).source(), old(reader).cursor()),
        forall|index: usize|
            index < records(old(reader).source(), old(reader).cursor(), N as nat).len()
                ==> #[trigger] handed(
                consumer,
                old(reader).source(),
                records(old(reader).source(), old(reader).cursor(), N as nat),
                index,
            ),
{
    let ghost data = reader.source();
    let ghost found = records(reader.source(), reader.cursor(), N as nat);
    let ghost end = document_end(reader.source(), reader.cursor());
    let empty: &[u8] = &[];
    // One array for the fields of every record.
    let mut fields: [&[u8]; N] = [empty;N];
    let mut index: usize = 0;
    let mut handler = consumer;

    loop
        invariant
            data == old(reader).source(),
            found == records(old(reader).source(), old(reader).cursor(), N as nat),
            end == document_end(old(reader).source(), old(reader).cursor()),
            reader.source() == data,
            handler == consumer,
            index <= reader.cursor().position,
            index <= found.len(),
            found == found.subrange(0, index as int) + records(data, reader.cursor(), N as nat),
            end == document_end(data, reader.cursor()),
            forall|i: usize, given: &[&[u8]]|
                is_record(data, found, i, given) ==> #[trigger] consumer.requires((i, given)),
            forall|i: usize| i < index ==> #[trigger] handed(consumer, data, found, i),
        decreases data.len() - reader.cursor().position,
    {
        let ghost before = reader.cursor();
        proof {
            lemma_record_bounds(data, before);
            reader.lemma_source_len();
        }
        match parse_record(reader, &mut fields) {
            Some(field_count) => {
                let given = vstd::slice::slice_subrange(fields.as_slice(), 0, field_count);
                proof {
                    let rest = records(data, reader.cursor(), N as nat);
                    let spans = surfaced(record(data, before).fields, N as nat);
                    assert(found.subrange(0, index as int) + (seq![spans] + rest)
                        =~= found.subrange(0, index as int).push(spans) + rest);
                    assert(found[index as int] == spans);
                    assert(found.subrange(0, index + 1) =~= found.subrange(0, index as int).push(
                        spans,
                    ));
                    assert(is_record(data, found, index, given));
                }
                handler(index, given);

                index += 1;
            },
            None => {
                proof {
                    assert(records(data, before, N as nat) =~= Seq::<Seq<Span>>::empty());
                    assert(found.subrange(0, index as int) + Seq::<Seq<Span>>::empty()
                        =~= found.subrange(0, index as int));
                    assert(found.len() == index);
                }
                return ;
            },
        }
    }
}

} // verus!
