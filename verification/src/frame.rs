//! Frames: the units of the wire format, what they stand for, how they are
//! written and how bytes read as one.
//!
//! A frame starts with one byte that names its kind:
//!
//! | byte | kind | what follows |
//! |---|---|---|
//! | `+` | simple text | one line of UTF-8 |
//! | `-` | error text | one line of UTF-8 |
//! | `:` | integer | one line with a signed decimal number |
//! | `$` | bulk bytes | one line with a length, that many bytes, a line terminator |
//! | `*` | array | one line with a count, that many frames |
//!
//! [`Datum`] is the mathematical value of a frame, [`wire`] its bytes and
//! [`parse_frame`] the reading of bytes. [`Frame`] is the value that programs
//! hold: its text and bytes are borrowed from the buffer they were read from.

use crate::cursor::{
    lemma_scan_line_shape, no_terminator, scan_byte, scan_integer, scan_line, scan_size, scan_slice, Cursor, CR, LF,
};
use crate::decimal::{decimal, digits_of};
use crate::error::{CursorError, ParseError};
use vstd::prelude::*;
use vstd::string::StringSliceAdditionalSpecFns;
use vstd::utf8::{decode_utf8, encode_utf8, valid_utf8};

verus! {

/// The byte `+`, which starts a simple text frame.
pub const SIMPLE: u8 = 43;

/// The byte `-`, which starts an error text frame.
pub const ERROR: u8 = 45;

/// The byte `:`, which starts an integer frame.
pub const INTEGER: u8 = 58;

/// The byte `$`, which starts a bulk frame.
pub const BULK: u8 = 36;

/// The byte `*`, which starts an array frame.
pub const ARRAY: u8 = 42;

/// The two bytes that end a line.
pub open spec fn crlf() -> Seq<u8> {
    seq![CR, LF]
}

/// The byte names a kind of frame.
pub open spec fn is_tag(b: u8) -> bool {
    b == SIMPLE || b == ERROR || b == INTEGER || b == BULK || b == ARRAY
}

/// What a frame stands for.
pub ghost enum Datum {
    /// A line of text.
    Simple(Seq<char>),
    /// A line of text that reports an error.
    Error(Seq<char>),
    /// A number.
    Integer(int),
    /// A run of bytes.
    Bulk(Seq<u8>),
    /// A sequence of frames, in order.
    Array(Seq<Datum>),
}

impl Datum {
    /// The datum can be written so that it reads back as itself: its texts
    /// hold no line terminator, its numbers fit in 64 bits, and so do the
    /// lengths of its byte runs and sequences.
    pub open spec fn wire_safe(self) -> bool
        decreases self,
    {
        match self {
            Datum::Simple(text) => no_terminator(encode_utf8(text)),
            Datum::Error(text) => no_terminator(encode_utf8(text)),
            Datum::Integer(value) => i64::MIN <= value <= i64::MAX,
            Datum::Bulk(bytes) => bytes.len() <= u64::MAX,
            Datum::Array(items) => items.len() <= u64::MAX && forall|i: int|
                0 <= i < items.len() ==> (#[trigger] items[i]).wire_safe(),
        }
    }
}

/// The bytes of a frame.
pub open spec fn wire(d: Datum) -> Seq<u8>
    decreases d, 0nat,
{
    match d {
        Datum::Simple(text) => seq![SIMPLE] + encode_utf8(text) + crlf(),
        Datum::Error(text) => seq![ERROR] + encode_utf8(text) + crlf(),
        Datum::Integer(value) => seq![INTEGER] + decimal(value) + crlf(),
        Datum::Bulk(bytes) => seq![BULK] + digits_of(bytes.len()) + crlf() + bytes + crlf(),
        Datum::Array(items) => seq![ARRAY] + digits_of(items.len()) + crlf() + wire_all(items),
    }
}

/// The bytes of several frames, one after the other.
pub open spec fn wire_all(items: Seq<Datum>) -> Seq<u8>
    decreases items, items.len(),
{
    if items.len() == 0 {
        Seq::empty()
    } else {
        wire(items[0]) + wire_all(items.skip(1))
    }
}

/// The line of a text frame: it must be UTF-8.
pub open spec fn parse_text(s: Seq<u8>, at: int) -> Result<(Seq<char>, int), ParseError> {
    match scan_line(s, at) {
        Err(e) => Err(ParseError::Cursor(e)),
        Ok((line, next)) => if valid_utf8(line) {
            Ok((decode_utf8(line), next))
        } else {
            Err(ParseError::Utf8)
        },
    }
}

/// The line of an integer frame.
pub open spec fn parse_number(s: Seq<u8>, at: int) -> Result<(int, int), ParseError> {
    match scan_integer(s, at) {
        Err(e) => Err(ParseError::Cursor(e)),
        Ok((value, next)) => Ok((value as int, next)),
    }
}

/// The body of a bulk frame: a length on a line, that many bytes, and a line
/// terminator. Two other bytes in the terminator's place are an error of
/// their own; too few bytes are not.
pub open spec fn parse_bulk(s: Seq<u8>, at: int) -> Result<(Seq<u8>, int), ParseError> {
    match scan_size(s, at) {
        Err(e) => Err(ParseError::Cursor(e)),
        Ok((len, start)) => match scan_slice(s, start, len as int) {
            Err(e) => Err(ParseError::Cursor(e)),
            Ok((payload, after)) => match scan_slice(s, after, 2) {
                Err(e) => Err(ParseError::Cursor(e)),
                Ok((mark, next)) => if mark == crlf() {
                    Ok((payload, next))
                } else {
                    Err(ParseError::NonTerminatedBulk)
                },
            },
        },
    }
}

/// What the bytes of `s` from `at` on read as: a datum and the position
/// after its frame, or the first failure met on the way.
pub open spec fn parse_frame(s: Seq<u8>, at: int) -> Result<(Datum, int), ParseError>
    decreases s.len() - at, 0nat,
{
    match scan_byte(s, at) {
        Err(e) => Err(ParseError::Cursor(e)),
        Ok((tag, body)) => if tag == SIMPLE {
            match parse_text(s, body) {
                Err(e) => Err(e),
                Ok((text, next)) => Ok((Datum::Simple(text), next)),
            }
        } else if tag == ERROR {
            match parse_text(s, body) {
                Err(e) => Err(e),
                Ok((text, next)) => Ok((Datum::Error(text), next)),
            }
        } else if tag == INTEGER {
            match parse_number(s, body) {
                Err(e) => Err(e),
                Ok((value, next)) => Ok((Datum::Integer(value), next)),
            }
        } else if tag == BULK {
            match parse_bulk(s, body) {
                Err(e) => Err(e),
                Ok((bytes, next)) => Ok((Datum::Bulk(bytes), next)),
            }
        } else if tag == ARRAY {
            match scan_size(s, body) {
                Err(e) => Err(ParseError::Cursor(e)),
                Ok((count, first)) => {
                    proof {
                        lemma_scan_line_shape(s, body);
                    }
                    match parse_items(s, first, count as nat) {
                        Err(e) => Err(e),
                        Ok((items, next)) => Ok((Datum::Array(items), next)),
                    }
                },
            }
        } else {
            Err(ParseError::FrameType(tag))
        },
    }
}

/// What the bytes of `s` from `at` on read as when `count` frames are
/// expected, one after the other.
///
/// The test on the position after the first frame never fails, since a
/// frame takes at least one byte and ends inside the input: it is there to
/// show that the reading ends. [`crate::laws::lemma_items_step`] states this
/// function without it.
pub open spec fn parse_items(s: Seq<u8>, at: int, count: nat) -> Result<(Seq<Datum>, int), ParseError>
    decreases s.len() - at, count + 1,
{
    if count == 0 {
        Ok((Seq::empty(), at))
    } else {
        match parse_frame(s, at) {
            Err(e) => Err(e),
            Ok((first, next)) => if at < next <= s.len() {
                match parse_items(s, next, (count - 1) as nat) {
                    Err(e) => Err(e),
                    Ok((rest, end)) => Ok((seq![first] + rest, end)),
                }
            } else {
                Err(ParseError::Cursor(CursorError::NotEnoughData))
            },
        }
    }
}

/// One unit of the wire format. Text and bytes are borrowed from the buffer
/// that they were read from, or from the caller who wants them written.
#[derive(Debug, PartialEq)]
pub enum Frame<'a> {
    /// A line of text.
    Simple(&'a str),
    /// A line of text that reports an error.
    Error(&'a str),
    /// A number.
    Integer(i64),
    /// A run of bytes.
    Bulk(&'a [u8]),
    /// A sequence of frames that the frame owns: what reading yields.
    Array(Vec<Frame<'a>>),
    /// A sequence of frames that the frame borrows: for writing what the
    /// caller keeps.
    Slice(&'a Vec<Frame<'a>>),
}

impl<'a> View for Frame<'a> {
    type V = Datum;

    /// What the frame stands for. An owned and a borrowed sequence of the
    /// same frames stand for the same array.
    open spec fn view(&self) -> Datum
        decreases self,
    {
        match self {
            Frame::Simple(text) => Datum::Simple(text@),
            Frame::Error(text) => Datum::Error(text@),
            Frame::Integer(value) => Datum::Integer(*value as int),
            Frame::Bulk(bytes) => Datum::Bulk(bytes@),
            Frame::Array(items) => Datum::Array(
                Seq::new(
                    items@.len(),
                    |i: int|
                        if 0 <= i < items@.len() {
                            items[i].view()
                        } else {
                            arbitrary()
                        },
                ),
            ),
            Frame::Slice(items) => Datum::Array(
                Seq::new(
                    items@.len(),
                    |i: int|
                        if 0 <= i < items@.len() {
                            items[i].view()
                        } else {
                            arbitrary()
                        },
                ),
            ),
        }
    }
}

impl<'a> Frame<'a> {
    /// The frames of a sequence, owned or borrowed; no frames for any other
    /// frame.
    pub open spec fn items(&self) -> Seq<Frame<'a>> {
        match self {
            Frame::Array(items) => items@,
            Frame::Slice(items) => items@,
            _ => Seq::empty(),
        }
    }

    /// The frame is a sequence, owned or borrowed.
    pub open spec fn is_sequence(&self) -> bool {
        self is Array || self is Slice
    }

    /// No text in the frame, at any depth, holds a line terminator. Such a
    /// frame reads back as it was written; a text with a terminator would
    /// read back cut short.
    pub open spec fn plain(&self) -> bool
        decreases self,
    {
        match self {
            Frame::Simple(text) => no_terminator(text.spec_bytes()),
            Frame::Error(text) => no_terminator(text.spec_bytes()),
            Frame::Integer(_) => true,
            Frame::Bulk(_) => true,
            Frame::Array(items) => forall|i: int|
                0 <= i < items@.len() ==> (#[trigger] items[i]).plain(),
            Frame::Slice(items) => forall|i: int|
                0 <= i < items@.len() ==> (#[trigger] items[i]).plain(),
        }
    }
}

/// A sequence stands for the array of what its frames stand for.
pub proof fn lemma_view_of_sequence(frame: Frame<'_>)
    requires
        frame.is_sequence(),
    ensures
        frame@ is Array,
        frame@->Array_0.len() == frame.items().len(),
        forall|i: int|
            0 <= i < frame.items().len() ==> frame@->Array_0[i] == (#[trigger] frame.items()[i])@,
{
    reveal_with_fuel(<Frame as View>::view, 2);
}

/// What a plain frame stands for can be written so that it reads back.
pub proof fn lemma_plain_is_wire_safe(frame: Frame<'_>)
    requires
        frame.plain(),
    ensures
        frame@.wire_safe(),
    decreases frame,
{
    match frame {
        Frame::Simple(_) => {},
        Frame::Error(_) => {},
        Frame::Integer(_) => {},
        Frame::Bulk(bytes) => {
            assert(bytes@.len() == bytes.len() <= u64::MAX);
        },
        Frame::Array(items) => {
            lemma_view_of_sequence(frame);
            assert(items@.len() == items.len() <= u64::MAX);
            assert forall|i: int| 0 <= i < items@.len() implies (#[trigger] frame@->Array_0[i]).wire_safe() by {
                lemma_plain_is_wire_safe(items[i]);
            }
        },
        Frame::Slice(items) => {
            lemma_view_of_sequence(frame);
            assert(items@.len() == items.len() <= u64::MAX);
            assert forall|i: int| 0 <= i < items@.len() implies (#[trigger] frame@->Array_0[i]).wire_safe() by {
                lemma_plain_is_wire_safe(items[i]);
            }
        },
    }
}

/// `std::str::from_utf8`: the bytes as text. It succeeds exactly on UTF-8,
/// and the text it gives is made of the very bytes it was given.
#[verifier::external_body]
fn text_of<'a>(bytes: &'a [u8]) -> (res: Result<&'a str, core::str::Utf8Error>)
    ensures
        res is Ok <==> valid_utf8(bytes@),
        res matches Ok(text) ==> text.spec_bytes() == bytes@,
{
    core::str::from_utf8(bytes)
}

/// The text of a line, or the failure of a line that is not UTF-8.
fn line_text<'a>(line: &'a [u8]) -> (res: Result<&'a str, ParseError>)
    ensures
        valid_utf8(line@) ==> (res matches Ok(text) && text@ == decode_utf8(line@)),
        !valid_utf8(line@) ==> res == Err::<&str, ParseError>(ParseError::Utf8),
{
    match text_of(line) {
        Ok(text) => {
            proof {
                vstd::utf8::encode_utf8_decode_utf8(text@);
            }
            Ok(text)
        },
        Err(e) => Err(ParseError::from(e)),
    }
}

/// Reads the line of a text frame.
fn take_text<'a>(src: &mut Cursor<'a>) -> (res: Result<&'a str, ParseError>)
    ensures
        final(src).input() == old(src).input(),
        match parse_text(old(src).input(), old(src).offset()) {
            Ok((text, next)) => res matches Ok(got) && got@ == text && final(src).offset() == next,
            Err(e) => res == Err::<&str, ParseError>(e),
        },
{
    match src.line() {
        Ok(line) => line_text(line),
        Err(e) => Err(ParseError::from(e)),
    }
}

/// Reads the body of a bulk frame.
fn take_bulk<'a>(src: &mut Cursor<'a>) -> (res: Result<&'a [u8], ParseError>)
    ensures
        final(src).input() == old(src).input(),
        match parse_bulk(old(src).input(), old(src).offset()) {
            Ok((bytes, next)) => res matches Ok(got) && got@ == bytes && final(src).offset()
                == next,
            Err(e) => res == Err::<&[u8], ParseError>(e),
        },
{
    let len = match src.size() {
        Ok(len) => len,
        Err(e) => {
            return Err(ParseError::from(e));
        },
    };
    let payload = match src.slice(len) {
        Ok(payload) => payload,
        Err(e) => {
            return Err(ParseError::from(e));
        },
    };
    let mark = match src.slice(2) {
        Ok(mark) => mark,
        Err(e) => {
            return Err(ParseError::from(e));
        },
    };
    if mark[0] == CR && mark[1] == LF {
        assert(mark@ =~= crlf());
        Ok(payload)
    } else {
        Err(ParseError::NonTerminatedBulk)
    }
}

/// What is read once `done` has been read and `rest` is the reading of what
/// follows.
pub open spec fn after(done: Seq<Datum>, rest: Result<(Seq<Datum>, int), ParseError>) -> Result<
    (Seq<Datum>, int),
    ParseError,
> {
    match rest {
        Ok((items, end)) => Ok((done + items, end)),
        Err(e) => Err(e),
    }
}

/// Where a reading ends, or why it failed, whatever was read.
pub open spec fn end_of<T>(reading: Result<(T, int), ParseError>) -> Result<int, ParseError> {
    match reading {
        Ok((_, end)) => Ok(end),
        Err(e) => Err(e),
    }
}

/// Walks over one frame. A failure may leave the cursor anywhere.
fn check_at(src: &mut Cursor<'_>) -> (res: Result<(), ParseError>)
    ensures
        final(src).input() == old(src).input(),
        match parse_frame(old(src).input(), old(src).offset()) {
            Ok((datum, next)) => res is Ok && final(src).offset() == next,
            Err(e) => res == Err::<(), ParseError>(e),
        },
    decreases old(src).input().len() - old(src).offset(),
{
    let ghost s = src.input();
    let ghost at = src.offset();
    let tag = match src.byte() {
        Ok(tag) => tag,
        Err(e) => {
            return Err(ParseError::from(e));
        },
    };
    if tag == SIMPLE || tag == ERROR {
        match take_text(src) {
            Ok(_) => Ok(()),
            Err(e) => Err(e),
        }
    } else if tag == INTEGER {
        match src.integer() {
            Ok(_) => Ok(()),
            Err(e) => Err(ParseError::from(e)),
        }
    } else if tag == BULK {
        match take_bulk(src) {
            Ok(_) => Ok(()),
            Err(e) => Err(e),
        }
    } else if tag == ARRAY {
        let count = match src.size() {
            Ok(count) => count,
            Err(e) => {
                return Err(ParseError::from(e));
            },
        };
        let ghost first = src.offset();
        proof {
            crate::cursor::lemma_scan_line_shape(s, at + 1);
        }
        let mut i: u64 = 0;
        while i < count
            invariant
                i <= count,
                s == old(src).input(),
                at == old(src).offset(),
                src.input() == s,
                scan_byte(s, at) == Ok::<(u8, int), CursorError>((ARRAY, at + 1)),
                scan_size(s, at + 1) == Ok::<(u64, int), CursorError>((count, first)),
                at < first <= src.offset() <= s.len(),
                end_of(parse_items(s, first, count as nat)) == end_of(
                    parse_items(s, src.offset(), (count - i) as nat),
                ),
            decreases count - i,
        {
            let ghost here = src.offset();
            match check_at(src) {
                Ok(()) => {},
                Err(e) => {
                    return Err(e);
                },
            }
            proof {
                crate::laws::lemma_parse_advances(s, here);
            }
            i += 1;
        }
        Ok(())
    } else {
        Err(ParseError::FrameType(tag))
    }
}

/// Reads one frame. A failure may leave the cursor anywhere.
fn decode_at<'a>(src: &mut Cursor<'a>) -> (res: Result<Frame<'a>, ParseError>)
    ensures
        final(src).input() == old(src).input(),
        match parse_frame(old(src).input(), old(src).offset()) {
            Ok((datum, next)) => res matches Ok(frame) && frame@ == datum && final(src).offset()
                == next,
            Err(e) => res == Err::<Frame<'a>, ParseError>(e),
        },
    decreases old(src).input().len() - old(src).offset(),
{
    let ghost s = src.input();
    let ghost at = src.offset();
    let tag = match src.byte() {
        Ok(tag) => tag,
        Err(e) => {
            return Err(ParseError::from(e));
        },
    };
    if tag == SIMPLE {
        match take_text(src) {
            Ok(text) => Ok(Frame::Simple(text)),
            Err(e) => Err(e),
        }
    } else if tag == ERROR {
        match take_text(src) {
            Ok(text) => Ok(Frame::Error(text)),
            Err(e) => Err(e),
        }
    } else if tag == INTEGER {
        match src.integer() {
            Ok(value) => Ok(Frame::Integer(value)),
            Err(e) => Err(ParseError::from(e)),
        }
    } else if tag == BULK {
        match take_bulk(src) {
            Ok(bytes) => Ok(Frame::Bulk(bytes)),
            Err(e) => Err(e),
        }
    } else if tag == ARRAY {
        let count = match src.size() {
            Ok(count) => count,
            Err(e) => {
                return Err(ParseError::from(e));
            },
        };
        let ghost first = src.offset();
        proof {
            crate::cursor::lemma_scan_line_shape(s, at + 1);
        }
        let mut out: Vec<Frame<'a>> = Vec::new();
        let ghost mut done: Seq<Datum> = Seq::empty();
        let mut i: u64 = 0;
        while i < count
            invariant
                i <= count,
                s == old(src).input(),
                at == old(src).offset(),
                src.input() == s,
                scan_byte(s, at) == Ok::<(u8, int), CursorError>((ARRAY, at + 1)),
                scan_size(s, at + 1) == Ok::<(u64, int), CursorError>((count, first)),
                at < first <= src.offset() <= s.len(),
                out@.len() == done.len(),
                forall|j: int| 0 <= j < done.len() ==> (#[trigger] out@[j])@ == done[j],
                parse_items(s, first, count as nat) == after(
                    done,
                    parse_items(s, src.offset(), (count - i) as nat),
                ),
            decreases count - i,
        {
            let ghost here = src.offset();
            let frame = match decode_at(src) {
                Ok(frame) => frame,
                Err(e) => {
                    return Err(e);
                },
            };
            proof {
                crate::laws::lemma_parse_advances(s, here);
                let rest = parse_items(s, src.offset(), (count - i - 1) as nat);
                assert(parse_items(s, here, (count - i) as nat) == after(seq![frame@], rest));
                match rest {
                    Ok((items, end)) => {
                        assert(done + (seq![frame@] + items) =~= done.push(frame@) + items);
                    },
                    Err(e) => {},
                }
                done = done.push(frame@);
            }
            out.push(frame);
            i += 1;
        }
        let array = Frame::Array(out);
        proof {
            assert(done + Seq::<Datum>::empty() =~= done);
            assert(array@->Array_0 =~= done);
        }
        Ok(array)
    } else {
        Err(ParseError::FrameType(tag))
    }
}

impl<'a> Frame<'a> {
    /// Tells whether the bytes at the cursor read as one frame, without
    /// building the frame, and moves the cursor over that frame. On a failure
    /// the cursor stays where it was; the failure is the one that
    /// [`parse_frame`] names, and it says "not enough data" where the input
    /// ends before the frame does.
    pub fn check(src: &mut Cursor<'_>) -> (res: Result<(), ParseError>)
        ensures
            final(src).input() == old(src).input(),
            match parse_frame(old(src).input(), old(src).offset()) {
                Ok((datum, next)) => res is Ok && final(src).offset() == next,
                Err(e) => res == Err::<(), ParseError>(e) && final(src).offset() == old(src).offset(),
            },
    {
        let mut probe = *src;
        match check_at(&mut probe) {
            Ok(()) => {
                *src = probe;
                Ok(())
            },
            Err(e) => Err(e),
        }
    }

    /// Reads the frame at the cursor and moves the cursor over it. The
    /// frame's text and bytes are borrowed from the cursor's input. On a
    /// failure the cursor stays where it was.
    pub fn decode(src: &mut Cursor<'a>) -> (res: Result<Frame<'a>, ParseError>)
        ensures
            final(src).input() == old(src).input(),
            match parse_frame(old(src).input(), old(src).offset()) {
                Ok((datum, next)) => res matches Ok(frame) && frame@ == datum && final(src).offset() == next,
                Err(e) => res == Err::<Frame<'a>, ParseError>(e) && final(src).offset() == old(src).offset(),
            },
    {
        let mut probe = *src;
        match decode_at(&mut probe) {
            Ok(frame) => {
                *src = probe;
                Ok(frame)
            },
            Err(e) => Err(e),
        }
    }

    /// The text of a simple frame; nothing for any other frame.
    pub fn as_simple(&self) -> (res: Option<&str>)
        ensures
            match *self {
                Frame::Simple(text) => res == Some(text),
                _ => res is None,
            },
    {
        match self {
            Frame::Simple(text) => Some(*text),
            _ => None,
        }
    }

    /// The frames of an owned sequence; nothing for any other frame.
    pub fn as_array(&self) -> (res: Option<&[Frame<'a>]>)
        ensures
            match *self {
                Frame::Array(items) => res matches Some(got) && got@ == items@,
                _ => res is None,
            },
    {
        match self {
            Frame::Array(items) => Some(items.as_slice()),
            _ => None,
        }
    }
}

} // verus!
