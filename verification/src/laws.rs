//! What holds of the wire format as a whole: reading moves forward, depends
//! only on the bytes of the frame, fails with "not enough data" on every
//! frame that is cut short, and gives back what was written.

use crate::cursor::{
    lemma_scan_line_cut, lemma_scan_line_local, lemma_scan_line_shape, lemma_scan_line_written,
    no_terminator, same_up_to, scan_byte, scan_line, scan_size, terminator_at,
};
use crate::decimal::{
    decimal, digits_of, lemma_decimal_bytes, lemma_read_integer_of_decimal,
    lemma_read_size_of_digits,
};
use crate::error::{CursorError, ParseError, ReadError};
use crate::frame::{
    after, crlf, is_tag, lemma_plain_is_wire_safe, parse_frame, parse_items, wire, wire_all,
    Datum, Frame, ARRAY, BULK, ERROR, INTEGER, SIMPLE,
};
use vstd::prelude::*;
use vstd::utf8::{encode_utf8, encode_utf8_decode_utf8, encode_utf8_valid_utf8};

verus! {

/// A frame that was read takes at least one byte and ends inside the input.
pub proof fn lemma_parse_advances(s: Seq<u8>, at: int)
    ensures
        parse_frame(s, at) matches Ok((_, next)) ==> 0 <= at < next <= s.len(),
    decreases s.len() - at, 0nat,
{
    if parse_frame(s, at) is Ok {
        let (tag, body) = scan_byte(s, at)->Ok_0;
        lemma_scan_line_shape(s, body);
        if tag == ARRAY {
            let (count, first) = scan_size(s, body)->Ok_0;
            lemma_items_advance(s, first, count as nat);
        }
    }
}

/// Frames that were read one after the other end inside the input, and
/// there are as many of them as were asked for.
pub proof fn lemma_items_advance(s: Seq<u8>, at: int, count: nat)
    requires
        0 <= at <= s.len(),
    ensures
        parse_items(s, at, count) matches Ok((items, end)) ==> at <= end <= s.len() && items.len()
            == count,
    decreases s.len() - at, count + 1,
{
    if count > 0 && parse_items(s, at, count) is Ok {
        lemma_parse_advances(s, at);
        let (first, next) = parse_frame(s, at)->Ok_0;
        lemma_items_advance(s, next, (count - 1) as nat);
    }
}

/// Reading several frames is reading the first, then the others from where
/// the first ended.
pub proof fn lemma_items_step(s: Seq<u8>, at: int, count: nat)
    requires
        count > 0,
    ensures
        parse_items(s, at, count) == match parse_frame(s, at) {
            Err(e) => Err(e),
            Ok((first, next)) => after(seq![first], parse_items(s, next, (count - 1) as nat)),
        },
{
    lemma_parse_advances(s, at);
}

/// Reading a frame looks at no byte after the frame: every input that
/// agrees with this one up to the frame's end reads the same there.
pub proof fn lemma_parse_local(s: Seq<u8>, t: Seq<u8>, at: int)
    requires
        parse_frame(s, at) is Ok,
        same_up_to(s, t, parse_frame(s, at)->Ok_0.1),
    ensures
        parse_frame(t, at) == parse_frame(s, at),
    decreases s.len() - at, 0nat,
{
    lemma_parse_advances(s, at);
    let (tag, body) = scan_byte(s, at)->Ok_0;
    assert(scan_byte(t, at) == scan_byte(s, at));
    lemma_scan_line_shape(s, body);
    if tag == BULK {
        let (len, start) = scan_size(s, body)->Ok_0;
        lemma_scan_line_local(s, t, body);
        assert(t.subrange(start, start + len) =~= s.subrange(start, start + len));
        assert(t.subrange(start + len, start + len + 2) =~= s.subrange(
            start + len,
            start + len + 2,
        ));
    } else if tag == ARRAY {
        let (count, first) = scan_size(s, body)->Ok_0;
        lemma_items_advance(s, first, count as nat);
        lemma_scan_line_local(s, t, body);
        lemma_items_local(s, t, first, count as nat);
    } else {
        lemma_scan_line_local(s, t, body);
    }
}

/// Reading several frames looks at no byte after the last of them.
pub proof fn lemma_items_local(s: Seq<u8>, t: Seq<u8>, at: int, count: nat)
    requires
        0 <= at <= s.len(),
        parse_items(s, at, count) is Ok,
        same_up_to(s, t, parse_items(s, at, count)->Ok_0.1),
    ensures
        parse_items(t, at, count) == parse_items(s, at, count),
    decreases s.len() - at, count + 1,
{
    if count > 0 {
        lemma_parse_advances(s, at);
        let (first, next) = parse_frame(s, at)->Ok_0;
        lemma_items_advance(s, next, (count - 1) as nat);
        lemma_parse_local(s, t, at);
        lemma_items_local(s, t, next, (count - 1) as nat);
    }
}

/// A frame that is cut short reads as "not enough data", wherever the cut
/// falls: when a frame is read from `s` at `at`, the first `k` bytes of `s`
/// alone, for any `k` before the frame's end, give that failure and no
/// other.
pub proof fn lemma_parse_cut(s: Seq<u8>, at: int, k: int)
    requires
        parse_frame(s, at) is Ok,
        0 <= k < parse_frame(s, at)->Ok_0.1,
    ensures
        parse_frame(s.take(k), at) == Err::<(Datum, int), ParseError>(
            ParseError::Cursor(CursorError::NotEnoughData),
        ),
    decreases s.len() - at, 0nat,
{
    lemma_parse_advances(s, at);
    let t = s.take(k);
    if at < k {
        let (tag, body) = scan_byte(s, at)->Ok_0;
        assert(scan_byte(t, at) == scan_byte(s, at));
        lemma_scan_line_shape(s, body);
        let next = scan_line(s, body)->Ok_0.1;
        if k < next {
            lemma_scan_line_cut(s, body, k);
        } else {
            lemma_scan_line_local(s, t, body);
            if tag == BULK {
                let (len, start) = scan_size(s, body)->Ok_0;
                if start + len <= k {
                    assert(t.subrange(start, start + len) =~= s.subrange(start, start + len));
                }
            } else if tag == ARRAY {
                let (count, first) = scan_size(s, body)->Ok_0;
                lemma_items_cut(s, first, count as nat, k);
            }
        }
    }
}

/// Several frames of which the last is cut short read as "not enough data".
pub proof fn lemma_items_cut(s: Seq<u8>, at: int, count: nat, k: int)
    requires
        0 <= at <= k,
        parse_items(s, at, count) is Ok,
        k < parse_items(s, at, count)->Ok_0.1,
    ensures
        parse_items(s.take(k), at, count) == Err::<(Seq<Datum>, int), ParseError>(
            ParseError::Cursor(CursorError::NotEnoughData),
        ),
    decreases s.len() - at, count + 1,
{
    let t = s.take(k);
    if count > 0 {
        lemma_parse_advances(s, at);
        let (first, next) = parse_frame(s, at)->Ok_0;
        lemma_items_advance(s, next, (count - 1) as nat);
        if k < next {
            lemma_parse_cut(s, at, k);
        } else {
            lemma_parse_local(s, t, at);
            lemma_items_cut(s, next, (count - 1) as nat, k);
        }
    }
}

/// A frame that starts with a byte naming no kind of frame fails with that
/// very byte, and the failure is fatal: neither pending nor exhausted.
pub proof fn lemma_unknown_tag(s: Seq<u8>, at: int)
    requires
        0 <= at < s.len(),
        !is_tag(s[at]),
    ensures
        parse_frame(s, at) == Err::<(Datum, int), ParseError>(ParseError::FrameType(s[at])),
        !ReadError::Parse(ParseError::FrameType(s[at])).pending(),
        !ReadError::Parse(ParseError::FrameType(s[at])).exhausted(),
        ReadError::Parse(ParseError::FrameType(s[at])).fatal(),
{
}

/// A bulk frame whose bytes are all there, but are followed by two bytes
/// other than a line terminator, fails as a bulk frame without terminator.
pub proof fn lemma_bulk_without_terminator(s: Seq<u8>, at: int)
    requires
        0 <= at < s.len(),
        s[at] == BULK,
        scan_size(s, at + 1) is Ok,
        ({
            let (len, start) = scan_size(s, at + 1)->Ok_0;
            start + len + 2 <= s.len() && s.subrange(start + len, start + len + 2) != crlf()
        }),
    ensures
        parse_frame(s, at) == Err::<(Datum, int), ParseError>(ParseError::NonTerminatedBulk),
{
}

/// No line terminator stands among the bytes of a written number.
proof fn lemma_decimal_is_line(v: int)
    ensures
        no_terminator(decimal(v)),
{
    assert forall|i: int| !terminator_at(decimal(v), i) by {
        if 0 <= i < decimal(v).len() {
            lemma_decimal_bytes(v, i);
        }
    }
}

/// The bytes `w` stand in `s` from `at` on.
pub open spec fn holds_at(s: Seq<u8>, at: int, w: Seq<u8>) -> bool {
    0 <= at && at + w.len() <= s.len() && s.subrange(at, at + w.len()) == w
}

/// Where a frame's bytes stand, its first byte and its first line read as
/// they were written.
proof fn lemma_head_written(s: Seq<u8>, at: int, w: Seq<u8>, tag: u8, line: Seq<u8>)
    requires
        holds_at(s, at, w),
        w.len() >= line.len() + 3,
        w.take(line.len() as int + 3) == seq![tag] + line + crlf(),
        no_terminator(line),
    ensures
        scan_byte(s, at) == Ok::<(u8, int), CursorError>((tag, at + 1)),
        scan_line(s, at + 1) == Ok::<(Seq<u8>, int), CursorError>((line, at + line.len() + 3)),
{
    let head = seq![tag] + line + crlf();
    assert forall|j: int| 0 <= j < line.len() + 3 implies s[at + j] == head[j] by {
        assert(s.subrange(at, at + w.len())[j] == s[at + j]);
        assert(w.take(line.len() as int + 3)[j] == w[j]);
    }
    assert(s[at + 0] == head[0]);
    assert(s.subrange(at + 1, at + 1 + line.len() + 2) =~= line + crlf()) by {
        assert forall|j: int| 0 <= j < line.len() + 2 implies s[at + 1 + j] == (line
            + crlf())[j] by {
            assert(s[at + (j + 1)] == head[j + 1]);
        }
    }
    lemma_scan_line_written(s, at + 1, line);
}

/// A text frame reads back where its bytes stand.
proof fn lemma_text_written(s: Seq<u8>, at: int, d: Datum)
    requires
        d is Simple || d is Error,
        d.wire_safe(),
        holds_at(s, at, wire(d)),
    ensures
        parse_frame(s, at) == Ok::<(Datum, int), ParseError>((d, at + wire(d).len())),
{
    let text = if d is Simple {
        d->Simple_0
    } else {
        d->Error_0
    };
    let tag = if d is Simple {
        SIMPLE
    } else {
        ERROR
    };
    let line = encode_utf8(text);
    assert(wire(d).take(line.len() as int + 3) =~= seq![tag] + line + crlf());
    lemma_head_written(s, at, wire(d), tag, line);
    encode_utf8_valid_utf8(text);
    encode_utf8_decode_utf8(text);
}

/// An integer frame reads back where its bytes stand.
proof fn lemma_integer_written(s: Seq<u8>, at: int, d: Datum)
    requires
        d is Integer,
        d.wire_safe(),
        holds_at(s, at, wire(d)),
    ensures
        parse_frame(s, at) == Ok::<(Datum, int), ParseError>((d, at + wire(d).len())),
{
    let value = d->Integer_0;
    let line = decimal(value);
    assert(wire(d).take(line.len() as int + 3) =~= seq![INTEGER] + line + crlf());
    lemma_decimal_is_line(value);
    lemma_head_written(s, at, wire(d), INTEGER, line);
    lemma_read_integer_of_decimal(value as i64);
}

/// A bulk frame reads back where its bytes stand.
proof fn lemma_bulk_written(s: Seq<u8>, at: int, d: Datum)
    requires
        d is Bulk,
        d.wire_safe(),
        holds_at(s, at, wire(d)),
    ensures
        parse_frame(s, at) == Ok::<(Datum, int), ParseError>((d, at + wire(d).len())),
{
    let bytes = d->Bulk_0;
    let line = digits_of(bytes.len());
    let w = wire(d);
    assert(w.take(line.len() as int + 3) =~= seq![BULK] + line + crlf());
    lemma_decimal_is_line(bytes.len() as int);
    lemma_head_written(s, at, w, BULK, line);
    lemma_read_size_of_digits(bytes.len() as u64);
    let start = at + line.len() + 3;
    assert forall|j: int| 0 <= j < bytes.len() + 2 implies s[start + j] == (bytes + crlf())[j] by {
        assert(s.subrange(at, at + w.len())[line.len() + 3 + j] == s[start + j]);
    }
    assert(s.subrange(start, start + bytes.len()) =~= bytes) by {
        assert forall|j: int| 0 <= j < bytes.len() implies s[start + j] == bytes[j] by {
            assert((bytes + crlf())[j] == bytes[j]);
        }
    }
    assert(s.subrange(start + bytes.len(), start + bytes.len() + 2) =~= crlf()) by {
        assert(s[start + bytes.len()] == (bytes + crlf())[bytes.len() as int]);
        assert(s[start + (bytes.len() + 1)] == (bytes + crlf())[bytes.len() as int + 1]);
    }
}

/// A frame reads back where its bytes stand: as its datum, and the reading
/// ends where the bytes end.
pub proof fn lemma_frame_written(s: Seq<u8>, at: int, d: Datum)
    requires
        d.wire_safe(),
        holds_at(s, at, wire(d)),
    ensures
        parse_frame(s, at) == Ok::<(Datum, int), ParseError>((d, at + wire(d).len())),
    decreases d, 0nat,
{
    match d {
        Datum::Simple(_) => lemma_text_written(s, at, d),
        Datum::Error(_) => lemma_text_written(s, at, d),
        Datum::Integer(_) => lemma_integer_written(s, at, d),
        Datum::Bulk(_) => lemma_bulk_written(s, at, d),
        Datum::Array(items) => {
            let line = digits_of(items.len());
            let w = wire(d);
            assert(w.take(line.len() as int + 3) =~= seq![ARRAY] + line + crlf());
            lemma_decimal_is_line(items.len() as int);
            lemma_head_written(s, at, w, ARRAY, line);
            lemma_read_size_of_digits(items.len() as u64);
            let first = at + line.len() + 3;
            let all = wire_all(items);
            assert(s.subrange(first, first + all.len()) =~= all) by {
                assert forall|j: int| 0 <= j < all.len() implies s[first + j] == all[j] by {
                    assert(s.subrange(at, at + w.len())[line.len() + 3 + j] == s[first + j]);
                }
            }
            lemma_items_written(s, first, items);
        },
    }
}

/// Several frames read back where their bytes stand, in their order.
pub proof fn lemma_items_written(s: Seq<u8>, at: int, items: Seq<Datum>)
    requires
        forall|i: int| 0 <= i < items.len() ==> (#[trigger] items[i]).wire_safe(),
        holds_at(s, at, wire_all(items)),
    ensures
        parse_items(s, at, items.len()) == Ok::<(Seq<Datum>, int), ParseError>(
            (items, at + wire_all(items).len()),
        ),
    decreases items, items.len(),
{
    if items.len() == 0 {
        assert(items =~= Seq::<Datum>::empty());
    } else {
        let first = items[0];
        let rest = items.skip(1);
        let w = wire(first);
        let all = wire_all(items);
        assert forall|j: int| 0 <= j < all.len() implies s[at + j] == all[j] by {
            assert(s.subrange(at, at + all.len())[j] == s[at + j]);
        }
        assert(s.subrange(at, at + w.len()) =~= w);
        lemma_frame_written(s, at, first);
        lemma_parse_advances(s, at);
        let next = at + w.len();
        assert(s.subrange(next, next + wire_all(rest).len()) =~= wire_all(rest)) by {
            assert forall|j: int| 0 <= j < wire_all(rest).len() implies s[next + j] == wire_all(
                rest,
            )[j] by {
                assert(s[at + (w.len() + j)] == all[w.len() + j]);
            }
        }
        assert forall|i: int| 0 <= i < rest.len() implies (#[trigger] rest[i]).wire_safe() by {
            assert(rest[i] == items[i + 1]);
        }
        lemma_items_written(s, next, rest);
        assert(seq![first] + rest =~= items);
    }
}

/// Writing a frame and reading the bytes gives the frame back, and the
/// reading takes all of the bytes.
pub proof fn lemma_round_trip(d: Datum)
    requires
        d.wire_safe(),
    ensures
        parse_frame(wire(d), 0) == Ok::<(Datum, int), ParseError>((d, wire(d).len() as int)),
{
    assert(wire(d).subrange(0, wire(d).len() as int) =~= wire(d));
    lemma_frame_written(wire(d), 0, d);
}

/// Writing any frame whose texts hold no line terminator, and reading the
/// bytes, gives back what the frame stands for; a borrowed sequence comes
/// back as the array of the same frames.
pub proof fn lemma_frame_round_trip(frame: Frame<'_>)
    requires
        frame.plain(),
    ensures
        parse_frame(wire(frame@), 0) == Ok::<(Datum, int), ParseError>(
            (frame@, wire(frame@).len() as int),
        ),
{
    lemma_plain_is_wire_safe(frame);
    lemma_round_trip(frame@);
}

} // verus!
