use rcsv::readers::{BufferReader, MemoryMappedReader, Reader, StringReader};

#[test]
fn buffer_reader_reads_forward_and_stops_at_the_end() {
    let data = b"ab";
    let mut reader = BufferReader::new();
    assert_eq!(reader.peek(data), Some(b'a'));
    assert_eq!(reader.peek(data), Some(b'a'));
    assert_eq!(reader.pop(data), Some(b'a'));
    assert_eq!(reader.peek(data), Some(b'b'));
    assert_eq!(reader.pop(data), Some(b'b'));
    assert_eq!(reader.peek(data), None);
    assert_eq!(reader.pop(data), None);
    assert_eq!(reader.pop(data), None);
    // The end did not move the cursor: one step back is the last byte.
    reader.putback();
    assert_eq!(reader.pop(data), Some(b'b'));
}

#[test]
fn buffer_reader_reads_nothing_from_an_empty_buffer() {
    let mut reader = BufferReader::new();
    assert_eq!(reader.peek(b""), None);
    assert_eq!(reader.pop(b""), None);
    assert_eq!(reader.field(b""), b"");
}

#[test]
fn buffer_reader_putback_is_a_single_step_and_stops_at_zero() {
    let data = b"xyz";
    let mut reader = BufferReader::new();
    reader.putback();
    assert_eq!(reader.peek(data), Some(b'x'));
    reader.pop(data);
    reader.pop(data);
    reader.putback();
    assert_eq!(reader.peek(data), Some(b'y'));
    reader.putback();
    reader.putback();
    assert_eq!(reader.peek(data), Some(b'x'));
}

#[test]
fn buffer_reader_field_excludes_the_byte_read_last() {
    let data = b"ab,cd";
    let mut reader = BufferReader::new();
    reader.mark_start();
    reader.pop(data);
    reader.pop(data);
    reader.pop(data);
    reader.mark_stop();
    assert_eq!(reader.field(data), b"ab");
    // Reading on does not move the marks.
    reader.pop(data);
    reader.pop(data);
    assert_eq!(reader.field(data), b"ab");
}

#[test]
fn buffer_reader_mark_stop_at_the_beginning_is_zero() {
    let data = b"ab";
    let mut reader = BufferReader::new();
    reader.mark_start();
    reader.mark_stop();
    assert_eq!(reader.field(data), b"");
    reader.pop(data);
    reader.mark_stop();
    assert_eq!(reader.field(data), b"");
    reader.pop(data);
    reader.mark_stop();
    assert_eq!(reader.field(data), b"a");
}

#[test]
fn string_reader_reads_the_bytes_of_the_text() {
    let mut reader = StringReader::new("a\u{e9},");
    assert_eq!(reader.peek(), Some(b'a'));
    reader.mark_start();
    assert_eq!(reader.pop(), Some(b'a'));
    assert_eq!(reader.pop(), Some(0xc3));
    assert_eq!(reader.pop(), Some(0xa9));
    assert_eq!(reader.pop(), Some(b','));
    reader.mark_stop();
    assert_eq!(reader.pop(), None);
    assert_eq!(reader.segment(), "a\u{e9}".as_bytes());
    reader.putback();
    assert_eq!(reader.peek(), Some(b','));
}

#[test]
fn string_reader_segment_outlives_the_reader() {
    let text = String::from("one,two");
    let field = {
        let mut reader = StringReader::new(&text);
        reader.mark_start();
        for _ in 0..4 {
            reader.pop();
        }
        reader.mark_stop();
        reader.segment()
    };
    assert_eq!(field, b"one");
}

#[test]
fn string_reader_resumes_where_a_cursor_stands() {
    let data = b"ab,cd\n";
    let mut cursor = BufferReader::new();
    cursor.pop(data);
    cursor.pop(data);
    cursor.pop(data);
    let mut reader = StringReader::resume(cursor, data);
    assert_eq!(reader.pop(), Some(b'c'));
    let mut cursor = reader.into_cursor();
    assert_eq!(cursor.pop(data), Some(b'd'));
}

#[test]
fn memory_mapped_reader_reads_the_mapped_bytes() {
    let mapped: Vec<u8> = vec![b'x', b',', b'y', b'\n'];
    let mut reader = MemoryMappedReader::new(&mapped);
    reader.mark_start();
    assert_eq!(reader.peek(), Some(b'x'));
    assert_eq!(reader.pop(), Some(b'x'));
    assert_eq!(reader.pop(), Some(b','));
    reader.mark_stop();
    assert_eq!(reader.segment(), b"x");
    reader.putback();
    assert_eq!(reader.pop(), Some(b','));
    reader.mark_start();
    assert_eq!(reader.pop(), Some(b'y'));
    assert_eq!(reader.pop(), Some(b'\n'));
    reader.mark_stop();
    assert_eq!(reader.segment(), b"y");
    assert_eq!(reader.pop(), None);
}

#[test]
fn buffer_reader_tells_its_offsets() {
    let data = b"ab,cd";
    let mut reader = BufferReader::new();
    assert_eq!((reader.start(), reader.stop(), reader.position()), (0, 0, 0));
    reader.pop(data);
    reader.mark_start();
    reader.pop(data);
    reader.pop(data);
    reader.mark_stop();
    assert_eq!((reader.start(), reader.stop(), reader.position()), (1, 2, 3));
    reader.putback();
    assert_eq!((reader.start(), reader.stop(), reader.position()), (1, 2, 2));
    // The end of the buffer holds the cursor, whatever is asked.
    for _ in 0..9 {
        reader.pop(data);
    }
    assert_eq!(reader.position(), 5);
}
