use chatframe::cursor::Cursor;
use chatframe::error::{CursorError, ParseError, ReadError};
use chatframe::frame::Frame;
use chatframe::rw::WriteFrame;

fn decode_all(bytes: &[u8]) -> Result<(Frame<'_>, usize), ParseError> {
    let mut cursor = Cursor::new(bytes);
    let frame = Frame::decode(&mut cursor)?;
    Ok((frame, cursor.position()))
}

fn check_all(bytes: &[u8]) -> Result<usize, ParseError> {
    let mut cursor = Cursor::new(bytes);
    Frame::check(&mut cursor)?;
    Ok(cursor.position())
}

fn encode(frame: &Frame<'_>) -> Vec<u8> {
    let mut out = Vec::new();
    out.write_frame(frame).unwrap();
    out
}

const NOT_ENOUGH: ParseError = ParseError::Cursor(CursorError::NotEnoughData);

#[test]
fn simple_ok_decodes() {
    let (frame, end) = decode_all(b"+OK\r\n").unwrap();
    assert_eq!(frame, Frame::Simple("OK"));
    assert_eq!(end, 5);
    assert_eq!(frame.as_simple(), Some("OK"));
    assert!(frame.as_array().is_none());
}

#[test]
fn error_frame_decodes() {
    let (frame, end) = decode_all(b"-ERR no such user\r\n").unwrap();
    assert_eq!(frame, Frame::Error("ERR no such user"));
    assert_eq!(end, 19);
    assert_eq!(frame.as_simple(), None);
}

#[test]
fn integer_frames_decode() {
    assert_eq!(decode_all(b":0\r\n").unwrap(), (Frame::Integer(0), 4));
    assert_eq!(decode_all(b":1234\r\n").unwrap(), (Frame::Integer(1234), 7));
    assert_eq!(decode_all(b":-17\r\n").unwrap(), (Frame::Integer(-17), 6));
    assert_eq!(decode_all(b":007\r\n").unwrap(), (Frame::Integer(7), 6));
    assert_eq!(
        decode_all(b":9223372036854775807\r\n").unwrap(),
        (Frame::Integer(i64::MAX), 22)
    );
    assert_eq!(
        decode_all(b":-9223372036854775808\r\n").unwrap(),
        (Frame::Integer(i64::MIN), 23)
    );
}

#[test]
fn integer_lines_that_are_no_numbers_fail() {
    let bad = ParseError::Cursor(CursorError::Integer);
    assert_eq!(decode_all(b":\r\n").unwrap_err(), bad);
    assert_eq!(decode_all(b":-\r\n").unwrap_err(), bad);
    assert_eq!(decode_all(b":+5\r\n").unwrap_err(), bad);
    assert_eq!(decode_all(b":12a\r\n").unwrap_err(), bad);
    assert_eq!(decode_all(b": 1\r\n").unwrap_err(), bad);
    assert_eq!(decode_all(b":9223372036854775808\r\n").unwrap_err(), bad);
    assert_eq!(decode_all(b":-9223372036854775809\r\n").unwrap_err(), bad);
    assert_eq!(decode_all(b":99999999999999999999999\r\n").unwrap_err(), bad);
    assert_eq!(check_all(b":12a\r\n").unwrap_err(), bad);
}

#[test]
fn size_lines_that_are_no_sizes_fail() {
    let bad = ParseError::Cursor(CursorError::Size);
    assert_eq!(decode_all(b"$-1\r\n").unwrap_err(), bad);
    assert_eq!(decode_all(b"$\r\n\r\n").unwrap_err(), bad);
    assert_eq!(decode_all(b"*x\r\n").unwrap_err(), bad);
    assert_eq!(decode_all(b"*18446744073709551616\r\n").unwrap_err(), bad);
    assert_eq!(check_all(b"$+3\r\nabc\r\n").unwrap_err(), bad);
}

#[test]
fn bulk_frames_decode() {
    assert_eq!(decode_all(b"$5\r\nhello\r\n").unwrap(), (Frame::Bulk(b"hello"), 11));
    assert_eq!(decode_all(b"$0\r\n\r\n").unwrap(), (Frame::Bulk(b""), 6));
    // The payload is counted, not scanned: it may hold line terminators.
    assert_eq!(decode_all(b"$4\r\n\r\n\r\n\r\n").unwrap(), (Frame::Bulk(b"\r\n\r\n"), 10));
    assert_eq!(decode_all(b"$3\r\n\x00\xff\x80\r\nrest").unwrap(), (Frame::Bulk(b"\x00\xff\x80"), 9));
}

#[test]
fn bulk_without_terminator_fails() {
    assert_eq!(decode_all(b"$3\r\nabcXY").unwrap_err(), ParseError::NonTerminatedBulk);
    assert_eq!(check_all(b"$3\r\nabcXY").unwrap_err(), ParseError::NonTerminatedBulk);
    assert_eq!(check_all(b"$3\r\nabc\rX").unwrap_err(), ParseError::NonTerminatedBulk);
    assert_eq!(check_all(b"$3\r\nabc\n\r").unwrap_err(), ParseError::NonTerminatedBulk);
    assert_eq!(check_all(b"$3\r\nabcde\r\n").unwrap_err(), ParseError::NonTerminatedBulk);
    // Too few bytes are another matter.
    assert_eq!(check_all(b"$3\r\nabc\r").unwrap_err(), NOT_ENOUGH);
    assert_eq!(check_all(b"$3\r\nabc").unwrap_err(), NOT_ENOUGH);
    assert_eq!(check_all(b"$3\r\nab").unwrap_err(), NOT_ENOUGH);
}

#[test]
fn arrays_decode_in_order() {
    let (frame, end) = decode_all(b"*3\r\n+a\r\n:2\r\n$1\r\nc\r\n").unwrap();
    assert_eq!(
        frame,
        Frame::Array(vec![Frame::Simple("a"), Frame::Integer(2), Frame::Bulk(b"c")])
    );
    assert_eq!(end, 19);
    let items = frame.as_array().unwrap();
    assert_eq!(items.len(), 3);
    assert_eq!(items[1], Frame::Integer(2));
    assert_eq!(frame.as_simple(), None);
}

#[test]
fn empty_array_decodes() {
    assert_eq!(decode_all(b"*0\r\n").unwrap(), (Frame::Array(vec![]), 4));
}

#[test]
fn nested_arrays_decode() {
    let (frame, end) = decode_all(b"*2\r\n*2\r\n+x\r\n*0\r\n-e\r\n+tail\r\n").unwrap();
    assert_eq!(
        frame,
        Frame::Array(vec![
            Frame::Array(vec![Frame::Simple("x"), Frame::Array(vec![])]),
            Frame::Error("e"),
        ])
    );
    assert_eq!(end, 20);
}

#[test]
fn decode_stops_at_the_end_of_the_frame() {
    let bytes = b"+one\r\n+two\r\n";
    let mut cursor = Cursor::new(bytes);
    assert_eq!(Frame::decode(&mut cursor).unwrap(), Frame::Simple("one"));
    assert_eq!(cursor.position(), 6);
    assert_eq!(Frame::decode(&mut cursor).unwrap(), Frame::Simple("two"));
    assert_eq!(cursor.position(), 12);
    assert_eq!(Frame::decode(&mut cursor).unwrap_err(), NOT_ENOUGH);
    assert_eq!(cursor.position(), 12);
}

#[test]
fn a_failure_leaves_the_cursor_in_place() {
    let bytes = b"+one\r\n*2\r\n+a\r\n?";
    let mut cursor = Cursor::new(bytes);
    Frame::check(&mut cursor).unwrap();
    assert_eq!(cursor.position(), 6);
    assert_eq!(Frame::check(&mut cursor).unwrap_err(), ParseError::FrameType(b'?'));
    assert_eq!(cursor.position(), 6);
    assert_eq!(Frame::decode(&mut cursor).unwrap_err(), ParseError::FrameType(b'?'));
    assert_eq!(cursor.position(), 6);
}

#[test]
fn text_must_be_utf8() {
    assert_eq!(decode_all(b"+\xff\xfe\r\n").unwrap_err(), ParseError::Utf8);
    assert_eq!(check_all(b"-\xc3\r\n").unwrap_err(), ParseError::Utf8);
    let (frame, end) = decode_all("+gr\u{fc}\u{df}e \u{1f600}\r\n".as_bytes()).unwrap();
    assert_eq!(frame, Frame::Simple("gr\u{fc}\u{df}e \u{1f600}"));
    assert_eq!(end, 15);
}

#[test]
fn text_may_hold_a_lone_return_or_feed() {
    assert_eq!(decode_all(b"+a\rb\nc\r\n").unwrap(), (Frame::Simple("a\rb\nc"), 8));
    assert_eq!(decode_all(b"+a\r\r\n").unwrap(), (Frame::Simple("a\r"), 5));
}

#[test]
fn unknown_tag_is_rejected_with_its_byte() {
    assert_eq!(decode_all(b"?x\r\n").unwrap_err(), ParseError::FrameType(b'?'));
    assert_eq!(check_all(b"?x\r\n").unwrap_err(), ParseError::FrameType(b'?'));
    let err = ReadError::from(check_all(b"?x\r\n").unwrap_err());
    assert!(!err.is_pending());
    assert!(!err.is_exhausted());
    assert!(err.is_fatal());
}

#[test]
fn every_byte_but_the_five_tags_is_rejected() {
    for b in 0..=255u8 {
        let bytes = [b, b'1', b'\r', b'\n', b'\r', b'\n'];
        let res = check_all(&bytes);
        if b == b'+' || b == b'-' || b == b':' || b == b'$' || b == b'*' {
            assert_ne!(res, Err(ParseError::FrameType(b)));
        } else {
            assert_eq!(res, Err(ParseError::FrameType(b)));
            assert!(!ReadError::Parse(ParseError::FrameType(b)).is_pending());
        }
    }
}

#[test]
fn partial_simple_is_pending_then_completes() {
    let mut bytes = b"+OK".to_vec();
    let err = check_all(&bytes).unwrap_err();
    assert_eq!(err, NOT_ENOUGH);
    assert!(ReadError::from(err).is_pending());
    bytes.extend_from_slice(b"\r\n");
    assert_eq!(check_all(&bytes).unwrap(), 5);
    assert_eq!(decode_all(&bytes).unwrap(), (Frame::Simple("OK"), 5));
}

#[test]
fn every_strict_prefix_is_not_enough_data() {
    let whole: &[u8] = b"*4\r\n+JOIN\r\n-oops\r\n:-12\r\n*2\r\n$5\r\nhe\r\nl\r\n$0\r\n\r\n";
    assert_eq!(check_all(whole).unwrap(), whole.len());
    for k in 0..whole.len() {
        assert_eq!(check_all(&whole[..k]), Err(NOT_ENOUGH), "prefix of {} bytes", k);
        assert_eq!(decode_all(&whole[..k]).unwrap_err(), NOT_ENOUGH);
    }
}

#[test]
fn check_agrees_with_decode() {
    let inputs: [&[u8]; 8] = [
        b"+OK\r\n",
        b"*2\r\n+a\r\n",
        b"$3\r\nabcXY",
        b"!\r\n",
        b":12x\r\n",
        b"*1\r\n*1\r\n*1\r\n:5\r\nmore",
        b"",
        b"+\xff\r\n",
    ];
    for bytes in inputs {
        let checked = check_all(bytes);
        let decoded = decode_all(bytes).map(|(_, end)| end);
        assert_eq!(checked, decoded);
    }
}

#[test]
fn slice_encodes_as_array() {
    let items = vec![Frame::Simple("JOIN"), Frame::Simple("alice")];
    let bytes = encode(&Frame::Slice(&items));
    assert_eq!(bytes, b"*2\r\n+JOIN\r\n+alice\r\n");
    assert_eq!(bytes, encode(&Frame::Array(vec![Frame::Simple("JOIN"), Frame::Simple("alice")])));
}

#[test]
fn each_kind_encodes_exactly() {
    assert_eq!(encode(&Frame::Simple("OK")), b"+OK\r\n");
    assert_eq!(encode(&Frame::Simple("")), b"+\r\n");
    assert_eq!(encode(&Frame::Error("bad")), b"-bad\r\n");
    assert_eq!(encode(&Frame::Integer(0)), b":0\r\n");
    assert_eq!(encode(&Frame::Integer(-1)), b":-1\r\n");
    assert_eq!(encode(&Frame::Integer(1050)), b":1050\r\n");
    assert_eq!(encode(&Frame::Integer(i64::MAX)), b":9223372036854775807\r\n");
    assert_eq!(encode(&Frame::Integer(i64::MIN)), b":-9223372036854775808\r\n");
    assert_eq!(encode(&Frame::Bulk(b"hello")), b"$5\r\nhello\r\n");
    assert_eq!(encode(&Frame::Bulk(b"")), b"$0\r\n\r\n");
    assert_eq!(encode(&Frame::Bulk(b"0123456789ab")), b"$12\r\n0123456789ab\r\n");
    assert_eq!(encode(&Frame::Array(vec![])), b"*0\r\n");
    assert_eq!(
        encode(&Frame::Array(vec![Frame::Integer(1), Frame::Array(vec![Frame::Bulk(b"x")])])),
        b"*2\r\n:1\r\n*1\r\n$1\r\nx\r\n"
    );
}

#[test]
fn writing_appends_to_the_sink() {
    let mut out = b"kept".to_vec();
    assert_eq!(out.write_frame(&Frame::Simple("a")), Ok(()));
    assert_eq!(out.write_frame(&Frame::Integer(2)), Ok(()));
    assert_eq!(out, b"kept+a\r\n:2\r\n");
}

#[test]
fn round_trip_of_all_five_variants() {
    let frames = vec![
        Frame::Simple("hello world"),
        Frame::Simple(""),
        Frame::Simple("caf\u{e9} \u{4e16}\u{754c}"),
        Frame::Error("ERR wrong"),
        Frame::Integer(0),
        Frame::Integer(-9000),
        Frame::Integer(i64::MIN),
        Frame::Integer(i64::MAX),
        Frame::Bulk(b""),
        Frame::Bulk(b"with\r\nterminator\r\n"),
        Frame::Array(vec![]),
        Frame::Array(vec![
            Frame::Simple("MSG"),
            Frame::Array(vec![Frame::Simple("n="), Frame::Integer(3), Frame::Bulk(b"\x00")]),
            Frame::Error("e"),
        ]),
    ];
    for frame in &frames {
        let bytes = encode(frame);
        let (back, end) = decode_all(&bytes).unwrap();
        assert_eq!(&back, frame);
        assert_eq!(end, bytes.len());
        assert_eq!(check_all(&bytes), Ok(bytes.len()));
    }
}

#[test]
fn slice_round_trips_to_an_equal_array() {
    let inner = vec![Frame::Integer(1), Frame::Bulk(b"two")];
    let items = vec![Frame::Simple("three"), Frame::Slice(&inner)];
    let bytes = encode(&Frame::Slice(&items));
    let (back, _) = decode_all(&bytes).unwrap();
    assert_eq!(
        back,
        Frame::Array(vec![
            Frame::Simple("three"),
            Frame::Array(vec![Frame::Integer(1), Frame::Bulk(b"two")]),
        ])
    );
}

#[test]
fn frames_follow_each_other_in_one_buffer() {
    let mut out = Vec::new();
    out.write_frame(&Frame::Bulk(b"a\r\nb")).unwrap();
    out.write_frame(&Frame::Array(vec![Frame::Integer(7)])).unwrap();
    let mut cursor = Cursor::new(&out);
    assert_eq!(Frame::decode(&mut cursor).unwrap(), Frame::Bulk(b"a\r\nb"));
    assert_eq!(Frame::decode(&mut cursor).unwrap(), Frame::Array(vec![Frame::Integer(7)]));
    assert_eq!(cursor.position(), out.len());
    assert_eq!(cursor.remaining(), 0);
}

#[test]
fn as_array_is_for_owned_sequences_only() {
    let items = vec![Frame::Integer(1)];
    assert!(Frame::Slice(&items).as_array().is_none());
    assert!(Frame::Bulk(b"x").as_array().is_none());
    assert_eq!(Frame::Array(vec![Frame::Integer(1)]).as_array().unwrap(), &items[..]);
    assert_eq!(Frame::Error("x").as_simple(), None);
}
