use rcsv::number::{blank, number_text, store, trim};
use rcsv::parse_number;

#[test]
fn test_parse_number() {
    let str =
"0.025717778,-2.3285230e-002,-1.4653762e-002\r\n\
0.036717778,-3.4285230e-002,-10.4653762e-002\r\n";
    
    let mut parser = rcsv::Parser::new();
    let mut total = 0.0f64;

    parser.parse::<3>(str.as_bytes(), |index, fields| {
            assert!(index < 3);

            let mut n1:f64 = 0.0;
            let mut n2:f64 = 0.0;
            let mut n3:f64 = 0.0;

            assert!(rcsv::parse_number(fields[0], &mut n1));
            assert!(rcsv::parse_number(fields[1], &mut n2));
            assert!(rcsv::parse_number(fields[2], &mut n3));

            total += n1 + n2 + n3;
    });

    assert!(f64::abs(total - (-0.114442428)) < 0.0001);
}

#[test]
fn parse_number_trims_spaces_round_the_number() {
    let mut n: f64 = 0.0;
    assert!(parse_number("  -2.3285230e-002  ".as_bytes(), &mut n));
    assert_eq!(n, -2.3285230e-002);

    let mut k: i32 = 0;
    assert!(parse_number(b"\t\r\n 42 \x0b\x0c", &mut k));
    assert_eq!(k, 42);
}

#[test]
fn parse_number_keeps_the_old_value_on_failure() {
    let mut k: i64 = 7;
    assert!(!parse_number(b"12a", &mut k));
    assert_eq!(k, 7);
    assert!(!parse_number(b"", &mut k));
    assert_eq!(k, 7);
    assert!(!parse_number(b"   ", &mut k));
    assert_eq!(k, 7);
    assert!(!parse_number(b"1 2", &mut k));
    assert_eq!(k, 7);
}

#[test]
fn parse_number_rejects_bytes_that_are_no_text() {
    let mut k: u32 = 3;
    assert!(!parse_number(&[0x31, 0xff, 0x32], &mut k));
    assert_eq!(k, 3);
    assert!(!parse_number(&[0xc3], &mut k));
    assert_eq!(k, 3);
    // The same digits without the stray byte are a number.
    assert!(parse_number(&[0x31, 0x32], &mut k));
    assert_eq!(k, 12);
}

#[test]
fn parse_number_checks_the_range_of_the_type() {
    let mut b: u8 = 1;
    assert!(parse_number(b"255", &mut b));
    assert_eq!(b, 255);
    assert!(!parse_number(b"256", &mut b));
    assert_eq!(b, 255);
    assert!(!parse_number(b"-1", &mut b));
    assert_eq!(b, 255);
}

#[test]
fn trim_cuts_whitespace_at_both_ends_only() {
    assert_eq!(trim(b"  a b  "), b"a b");
    assert_eq!(trim(b"\t\n\x0b\x0c\r x\r\n"), b"x");
    assert_eq!(trim(b"x"), b"x");
    assert_eq!(trim(b""), b"");
    assert_eq!(trim(b" \t "), b"");
    // A non-breaking space is not ASCII whitespace.
    assert_eq!(trim(&[0x20, 0xc2, 0xa0, 0x31, 0x20]), &[0xc2, 0xa0, 0x31]);
    // Neither are the other control characters.
    assert_eq!(trim(&[0x08, 0x31, 0x0e]), &[0x08, 0x31, 0x0e]);
}

#[test]
fn blank_is_tab_to_carriage_return_and_space() {
    for byte in 0u8..=255 {
        let expected = matches!(byte, 9 | 10 | 11 | 12 | 13 | 32);
        assert_eq!(blank(byte), expected, "byte {}", byte);
    }
}

#[test]
fn store_puts_a_value_and_keeps_the_old_one_otherwise() {
    let mut n = 5u16;
    assert!(store(Some(9u16), &mut n));
    assert_eq!(n, 9);
    assert!(!store(None, &mut n));
    assert_eq!(n, 9);
}

#[test]
fn number_text_is_the_trimmed_bytes_if_they_are_text() {
    assert_eq!(number_text(b" 12 "), Some("12"));
    assert_eq!(number_text(b"\t-1.5e3\r\n"), Some("-1.5e3"));
    assert_eq!(number_text(b""), Some(""));
    assert_eq!(number_text(b"  "), Some(""));
    assert_eq!(number_text("  \u{e9} ".as_bytes()), Some("\u{e9}"));
    assert_eq!(number_text(&[0x20, 0xff, 0x20]), None);
    // A lone continuation byte, an overlong encoding and a surrogate are no text.
    assert_eq!(number_text(&[0x80]), None);
    assert_eq!(number_text(&[0xc0, 0xaf]), None);
    assert_eq!(number_text(&[0xed, 0xa0, 0x80]), None);
}
