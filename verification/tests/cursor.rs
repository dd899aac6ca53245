use chatframe::cursor::Cursor;
use chatframe::decimal::{parse_integer, parse_size, push_decimal, push_digits};
use chatframe::error::{CursorError, IoError, ParseError, ReadError};

#[test]
fn byte_takes_one_byte() {
    let mut cursor = Cursor::new(b"ab");
    assert_eq!(cursor.byte(), Ok(b'a'));
    assert_eq!(cursor.position(), 1);
    assert_eq!(cursor.byte(), Ok(b'b'));
    assert_eq!(cursor.byte(), Err(CursorError::NotEnoughData));
    assert_eq!(cursor.position(), 2);
    assert_eq!(cursor.get_ref(), b"ab");
}

#[test]
fn line_stops_at_the_first_terminator() {
    let mut cursor = Cursor::new(b"one\r\ntwo\r\n\r\nrest");
    assert_eq!(cursor.line(), Ok(&b"one"[..]));
    assert_eq!(cursor.position(), 5);
    assert_eq!(cursor.line(), Ok(&b"two"[..]));
    assert_eq!(cursor.line(), Ok(&b""[..]));
    assert_eq!(cursor.position(), 12);
    assert_eq!(cursor.line(), Err(CursorError::NotEnoughData));
    assert_eq!(cursor.position(), 12);
    assert_eq!(cursor.remaining(), 4);
}

#[test]
fn line_needs_both_bytes_of_the_terminator() {
    assert_eq!(Cursor::new(b"abc\r").line(), Err(CursorError::NotEnoughData));
    assert_eq!(Cursor::new(b"abc\n").line(), Err(CursorError::NotEnoughData));
    assert_eq!(Cursor::new(b"abc\n\r").line(), Err(CursorError::NotEnoughData));
    assert_eq!(Cursor::new(b"").line(), Err(CursorError::NotEnoughData));
    assert_eq!(Cursor::new(b"a\rb\r\n").line(), Ok(&b"a\rb"[..]));
}

#[test]
fn integer_reads_a_signed_line() {
    let mut cursor = Cursor::new(b"-45\r\n12\r\nx\r\n");
    assert_eq!(cursor.integer(), Ok(-45));
    assert_eq!(cursor.integer(), Ok(12));
    assert_eq!(cursor.position(), 9);
    assert_eq!(cursor.integer(), Err(CursorError::Integer));
    assert_eq!(cursor.position(), 9);
    assert_eq!(Cursor::new(b"12").integer(), Err(CursorError::NotEnoughData));
}

#[test]
fn size_reads_an_unsigned_line() {
    let mut cursor = Cursor::new(b"45\r\n-1\r\n");
    assert_eq!(cursor.size(), Ok(45));
    assert_eq!(cursor.position(), 4);
    assert_eq!(cursor.size(), Err(CursorError::Size));
    assert_eq!(cursor.position(), 4);
    assert_eq!(Cursor::new(b"18446744073709551615\r\n").size(), Ok(u64::MAX));
    assert_eq!(Cursor::new(b"18446744073709551616\r\n").size(), Err(CursorError::Size));
    assert_eq!(Cursor::new(b"7\r").size(), Err(CursorError::NotEnoughData));
}

#[test]
fn slice_takes_exactly_that_many_bytes() {
    let mut cursor = Cursor::new(b"abcdef");
    assert_eq!(cursor.slice(2), Ok(&b"ab"[..]));
    assert_eq!(cursor.slice(0), Ok(&b""[..]));
    assert_eq!(cursor.slice(5), Err(CursorError::NotEnoughData));
    assert_eq!(cursor.position(), 2);
    assert_eq!(cursor.slice(u64::MAX), Err(CursorError::NotEnoughData));
    assert_eq!(cursor.slice(4), Ok(&b"cdef"[..]));
    assert_eq!(cursor.position(), 6);
}

#[test]
fn sizes_parse_exactly() {
    assert_eq!(parse_size(b"0"), Some(0));
    assert_eq!(parse_size(b"000"), Some(0));
    assert_eq!(parse_size(b"42"), Some(42));
    assert_eq!(parse_size(b"18446744073709551615"), Some(u64::MAX));
    assert_eq!(parse_size(b"18446744073709551616"), None);
    assert_eq!(parse_size(b"184467440737095516150"), None);
    assert_eq!(parse_size(b""), None);
    assert_eq!(parse_size(b"4 2"), None);
    assert_eq!(parse_size(b"-1"), None);
}

#[test]
fn integers_parse_exactly() {
    assert_eq!(parse_integer(b"0"), Some(0));
    assert_eq!(parse_integer(b"-0"), Some(0));
    assert_eq!(parse_integer(b"-120"), Some(-120));
    assert_eq!(parse_integer(b"9223372036854775807"), Some(i64::MAX));
    assert_eq!(parse_integer(b"9223372036854775808"), None);
    assert_eq!(parse_integer(b"-9223372036854775808"), Some(i64::MIN));
    assert_eq!(parse_integer(b"-9223372036854775809"), None);
    assert_eq!(parse_integer(b"--1"), None);
    assert_eq!(parse_integer(b"-"), None);
    assert_eq!(parse_integer(b""), None);
    assert_eq!(parse_integer(b"1-"), None);
}

#[test]
fn numbers_are_written_in_decimal() {
    let mut out = b"n=".to_vec();
    push_digits(&mut out, 0);
    out.push(b',');
    push_digits(&mut out, 907);
    out.push(b',');
    push_digits(&mut out, u64::MAX);
    out.push(b',');
    push_decimal(&mut out, -5);
    out.push(b',');
    push_decimal(&mut out, 10);
    out.push(b',');
    push_decimal(&mut out, i64::MIN);
    assert_eq!(out, b"n=0,907,18446744073709551615,-5,10,-9223372036854775808");
}

#[test]
fn written_numbers_read_back() {
    let values = [0i64, 1, -1, 9, 10, -10, 99, 100, 12345, -98765, i64::MAX, i64::MIN];
    for v in values {
        let mut out = Vec::new();
        push_decimal(&mut out, v);
        assert_eq!(out, v.to_string().as_bytes());
        assert_eq!(parse_integer(&out), Some(v));
    }
}

#[test]
fn failures_are_classified() {
    let pending_parse = ReadError::Parse(ParseError::Cursor(CursorError::NotEnoughData));
    assert!(pending_parse.is_pending());
    assert!(!pending_parse.is_exhausted());
    assert!(!pending_parse.is_fatal());

    let pending_io = ReadError::Io(IoError::WouldBlock);
    assert!(pending_io.is_pending());
    assert!(!pending_io.is_exhausted());

    let closed = ReadError::Io(IoError::ZeroRead);
    assert!(closed.is_exhausted());
    assert!(!closed.is_pending());
    assert!(!closed.is_fatal());

    let fatal = [
        ReadError::Io(IoError::Other),
        ReadError::Parse(ParseError::Utf8),
        ReadError::Parse(ParseError::NonTerminatedBulk),
        ReadError::Parse(ParseError::FrameType(b'!')),
        ReadError::Parse(ParseError::Cursor(CursorError::Integer)),
        ReadError::Parse(ParseError::Cursor(CursorError::Size)),
    ];
    for err in fatal {
        assert!(err.is_fatal());
        assert!(!err.is_pending());
        assert!(!err.is_exhausted());
    }
}

#[test]
fn failures_convert_upwards() {
    assert_eq!(
        ParseError::from(CursorError::NotEnoughData),
        ParseError::Cursor(CursorError::NotEnoughData)
    );
    assert_eq!(ParseError::from(CursorError::Size), ParseError::Cursor(CursorError::Size));
    let bad = std::str::from_utf8(b"\xff").unwrap_err();
    assert_eq!(ParseError::from(bad), ParseError::Utf8);
    assert_eq!(ReadError::from(ParseError::Utf8), ReadError::Parse(ParseError::Utf8));
    assert_eq!(ReadError::from(IoError::Other), ReadError::Io(IoError::Other));
    assert!(CursorError::NotEnoughData.not_enough_data());
    assert!(!CursorError::Integer.not_enough_data());
    assert!(!CursorError::Size.not_enough_data());
}
