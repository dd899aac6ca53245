//! Reading frames from bytes as they arrive, and writing frames as bytes.
//!
//! The reader keeps what has arrived and has not been used yet. Each call
//! of [`FrameReader::read_frame`] is handed the outcome of one read from the
//! byte source and looks for one whole frame at the front of what is kept.
//! The [`Guard`] it gives stands for that frame: the frame's bytes leave the
//! reader's kept bytes with the call that found them, whether or not the
//! frame is ever decoded, and can be decoded as long as the guard lives.

use crate::cursor::{Cursor, CR, LF};
use crate::decimal::{digits_of, push_decimal, push_digits};
use crate::error::{IoError, ParseError, ReadError};
use crate::frame::{
    crlf, lemma_view_of_sequence, parse_frame, wire, wire_all, Datum, Frame, ARRAY, BULK, ERROR,
    INTEGER, SIMPLE,
};
use vstd::prelude::*;
use vstd::string::StringSliceAdditionalSpecFns;

verus! {

/// Bytes that have arrived and have not been used yet, oldest first.
pub struct ReceiveBuffer {
    bytes: Vec<u8>,
}

impl View for ReceiveBuffer {
    type V = Seq<u8>;

    closed spec fn view(&self) -> Seq<u8> {
        self.bytes@
    }
}

impl ReceiveBuffer {
    /// A buffer that holds nothing.
    pub fn new() -> (buffer: Self)
        ensures
            buffer@ == Seq::<u8>::empty(),
    {
        ReceiveBuffer { bytes: Vec::new() }
    }

    /// Takes in the outcome of one read from the byte source: the bytes that
    /// arrived are put behind those already held. A read that failed, or one
    /// that gave no bytes at all, changes nothing and is a failure; no bytes
    /// at all means that the peer has closed the connection.
    pub fn read(&mut self, arrived: Result<&[u8], IoError>) -> (res: Result<(), IoError>)
        ensures
            match arrived {
                Err(e) => res == Err::<(), IoError>(e) && final(self)@ == old(self)@,
                Ok(bytes) => if bytes@.len() == 0 {
                    res == Err::<(), IoError>(IoError::ZeroRead) && final(self)@ == old(self)@
                } else {
                    res is Ok && final(self)@ == old(self)@ + bytes@
                },
            },
    {
        match arrived {
            Err(e) => Err(e),
            Ok(bytes) => {
                if bytes.len() == 0 {
                    Err(IoError::ZeroRead)
                } else {
                    push_all(&mut self.bytes, bytes);
                    Ok(())
                }
            },
        }
    }

    /// The bytes held, oldest first.
    pub fn buf(&self) -> (bytes: &[u8])
        ensures
            bytes@ == self@,
    {
        self.bytes.as_slice()
    }

    /// How many bytes are held.
    pub fn len(&self) -> (n: usize)
        ensures
            n == self@.len(),
    {
        self.bytes.len()
    }

    /// Drops the `n` oldest bytes.
    pub fn consume(&mut self, n: usize)
        requires
            n <= old(self)@.len(),
        ensures
            final(self)@ == old(self)@.skip(n as int),
    {
        let rest = self.bytes.split_off(n);
        self.bytes = rest;
    }
}

/// Puts `bytes` behind what `out` holds.
pub(crate) fn push_all(out: &mut Vec<u8>, bytes: &[u8])
    ensures
        final(out)@ == old(out)@ + bytes@,
{
    let mut i: usize = 0;
    while i < bytes.len()
        invariant
            i <= bytes.len(),
            out@ == old(out)@ + bytes@.take(i as int),
        decreases bytes.len() - i,
    {
        out.push(bytes[i]);
        proof {
            assert(bytes@.take(i + 1) =~= bytes@.take(i as int).push(bytes@[i as int]));
        }
        i += 1;
    }
    proof {
        assert(bytes@.take(i as int) =~= bytes@);
    }
}

/// One whole frame at the front of a reader's buffer. It can be decoded any
/// number of times, or not at all; the reader cannot be used while the guard
/// lives.
pub struct Guard<'a> {
    buf: &'a ReceiveBuffer,
    len: usize,
}

impl<'a> Guard<'a> {
    #[verifier::type_invariant]
    spec fn holds_frame(self) -> bool {
        &&& parse_frame(self.buf@, 0) is Ok
        &&& parse_frame(self.buf@, 0)->Ok_0.1 == self.len
    }

    /// What the guarded frame stands for.
    pub closed spec fn datum(&self) -> Datum {
        parse_frame(self.buf@, 0)->Ok_0.0
    }

    /// The bytes of the buffer that the frame was found in, the frame's
    /// bytes first.
    pub closed spec fn bytes(&self) -> Seq<u8> {
        self.buf@
    }

    /// How many bytes the guarded frame takes.
    pub closed spec fn frame_len(&self) -> int {
        self.len as int
    }

    /// How many bytes the guarded frame takes.
    pub fn len(&self) -> (n: usize)
        ensures
            n == self.frame_len(),
            parse_frame(self.bytes(), 0) == Ok::<(Datum, int), ParseError>(
                (self.datum(), self.frame_len()),
            ),
    {
        proof {
            use_type_invariant(self);
        }
        self.len
    }

    /// Decodes the guarded frame. Its text and bytes are borrowed from the
    /// reader's buffer. Every call gives the same frame.
    pub fn frame(&self) -> (frame: Frame<'_>)
        ensures
            frame@ == self.datum(),
    {
        proof {
            use_type_invariant(self);
        }
        let mut cursor = Cursor::new(self.buf.buf());
        match Frame::decode(&mut cursor) {
            Ok(frame) => frame,
            Err(_) => vstd::pervasive::unreached(),
        }
    }
}

/// Reads frames from bytes as they arrive.
pub struct FrameReader {
    buf: ReceiveBuffer,
    used: usize,
}

impl FrameReader {
    /// How many bytes at the front of the buffer belong to the frame that
    /// was handed out last.
    spec fn spent(&self) -> int {
        if self.used <= self.buf@.len() {
            self.used as int
        } else {
            self.buf@.len() as int
        }
    }

    /// The bytes that have arrived and belong to no frame that was handed
    /// out, oldest first.
    pub closed spec fn buffered(&self) -> Seq<u8> {
        self.buf@.skip(self.spent())
    }

    /// A reader that holds no bytes.
    pub fn new() -> (reader: Self)
        ensures
            reader.buffered() == Seq::<u8>::empty(),
    {
        let reader = FrameReader { buf: ReceiveBuffer::new(), used: 0 };
        assert(reader.buf@.skip(0) =~= Seq::<u8>::empty());
        reader
    }

    /// How many bytes have arrived and belong to no frame that was handed
    /// out.
    pub fn buffered_len(&self) -> (n: usize)
        ensures
            n == self.buffered().len(),
    {
        let held = self.buf.len();
        if self.used <= held {
            held - self.used
        } else {
            0
        }
    }

    /// Takes in the outcome of one read from the byte source, then looks for
    /// one whole frame at the front of the bytes kept.
    ///
    /// A read that failed is handed back as it is, and a read of no bytes as
    /// [`IoError::ZeroRead`]; neither changes what is kept. Otherwise the
    /// bytes that arrived are put behind those kept, and the whole is read
    /// from its start. Where that fails, the failure is handed back and all
    /// bytes stay, so that the next call reads from the same start. Where it
    /// succeeds, the frame's bytes, and no others, leave the bytes kept, and
    /// the guard stands for the frame.
    pub fn read_frame(&mut self, arrived: Result<&[u8], IoError>) -> (res: Result<
        Guard<'_>,
        ReadError,
    >)
        ensures
            match arrived {
                Err(e) => res matches Err(err) && err == ReadError::Io(e) && final(self).buffered()
                    == old(self).buffered(),
                Ok(bytes) => if bytes@.len() == 0 {
                    res matches Err(err) && err == ReadError::Io(IoError::ZeroRead)
                        && final(self).buffered() == old(self).buffered()
                } else {
                    let all = old(self).buffered() + bytes@;
                    match parse_frame(all, 0) {
                        Ok((datum, end)) => {
                            &&& res matches Ok(guard)
                            &&& guard.datum() == datum
                            &&& guard.frame_len() == end
                            &&& guard.bytes() == all
                            &&& final(self).buffered() == all.skip(end)
                        },
                        Err(e) => res matches Err(err) && err == ReadError::Parse(e)
                            && final(self).buffered() == all,
                    }
                },
            },
    {
        // The frame that was handed out last is let go of first.
        let used = if self.used <= self.buf.len() {
            self.used
        } else {
            self.buf.len()
        };
        self.used = 0;
        self.buf.consume(used);
        assert(self.buf@.skip(0) =~= self.buf@);
        match self.buf.read(arrived) {
            Ok(()) => {},
            Err(e) => {
                return Err(ReadError::from(e));
            },
        }
        let mut cursor = Cursor::new(self.buf.buf());
        match Frame::check(&mut cursor) {
            Ok(()) => {},
            Err(e) => {
                return Err(ReadError::from(e));
            },
        }
        let len = cursor.position();
        self.used = len;
        Ok(Guard { buf: &self.buf, len })
    }
}

/// What a sink of bytes can do once it knows the wire format: take a frame.
pub trait WriteFrame {
    /// All the bytes that the sink has taken, in order.
    spec fn taken(&self) -> Seq<u8>;

    /// Writes the frame's bytes to the sink: its kind, what it holds, and
    /// the line terminators the format asks for; for a sequence its count
    /// and then each of its frames in order. Where the sink fails, nothing
    /// is said of what it has taken.
    fn write_frame(&mut self, frame: &Frame<'_>) -> (res: Result<(), IoError>)
        ensures
            res is Ok ==> final(self).taken() == old(self).taken() + wire(frame@),
    ;
}

/// The bytes of several frames end with the bytes of the last of them.
pub proof fn lemma_wire_all_push(items: Seq<Datum>, last: Datum)
    ensures
        wire_all(items.push(last)) == wire_all(items) + wire(last),
    decreases items.len(),
{
    let all = items.push(last);
    if items.len() == 0 {
        assert(all.skip(1) =~= Seq::<Datum>::empty());
        assert(wire_all(all.skip(1)) =~= Seq::<u8>::empty());
        assert(wire_all(all) =~= wire(last));
        assert(wire_all(items) + wire(last) =~= wire(last));
    } else {
        lemma_wire_all_push(items.skip(1), last);
        assert(all.skip(1) =~= items.skip(1).push(last));
        assert(wire(items[0]) + (wire_all(items.skip(1)) + wire(last)) =~= (wire(items[0])
            + wire_all(items.skip(1))) + wire(last));
    }
}

/// Puts the bytes of a line of text behind what `out` holds.
fn push_text(out: &mut Vec<u8>, tag: u8, text: &str)
    ensures
        final(out)@ == old(out)@ + (seq![tag] + text.spec_bytes() + crlf()),
{
    out.push(tag);
    push_all(out, text.as_bytes());
    out.push(CR);
    out.push(LF);
    assert(final(out)@ =~= old(out)@ + (seq![tag] + text.spec_bytes() + crlf()));
}

/// Puts a kind and a count on a line behind what `out` holds.
fn push_head(out: &mut Vec<u8>, tag: u8, count: usize)
    ensures
        final(out)@ == old(out)@ + (seq![tag] + digits_of(count as nat) + crlf()),
{
    out.push(tag);
    push_digits(out, count as u64);
    out.push(CR);
    out.push(LF);
    assert(final(out)@ =~= old(out)@ + (seq![tag] + digits_of(count as nat)
        + crlf()));
}

/// Puts the bytes of each frame of `items`, in order, behind what `out`
/// holds.
fn push_frames(out: &mut Vec<u8>, items: &Vec<Frame<'_>>, Ghost(whole): Ghost<Datum>)
    requires
        whole is Array,
        whole->Array_0.len() == items.len(),
        forall|i: int| 0 <= i < items.len() ==> (#[trigger] items[i])@ == whole->Array_0[i],
    ensures
        final(out)@ == old(out)@ + wire_all(whole->Array_0),
    decreases items, 0nat,
{
    let ghost data = whole->Array_0;
    let mut i: usize = 0;
    proof {
        assert(data.take(0) =~= Seq::<Datum>::empty());
        assert(out@ =~= old(out)@ + wire_all(data.take(0)));
    }
    while i < items.len()
        invariant
            i <= items.len(),
            data.len() == items.len(),
            forall|j: int| 0 <= j < items.len() ==> (#[trigger] items[j])@ == data[j],
            out@ == old(out)@ + wire_all(data.take(i as int)),
        decreases items.len() - i,
    {
        let ghost before = out@;
        push_frame(out, &items[i]);
        proof {
            lemma_wire_all_push(data.take(i as int), data[i as int]);
            assert(data.take(i + 1) =~= data.take(i as int).push(data[i as int]));
            assert(out@ =~= old(out)@ + wire_all(data.take(i + 1)));
        }
        i += 1;
    }
    proof {
        assert(data.take(i as int) =~= data);
    }
}

/// Puts the bytes of `frame` behind what `out` holds.
pub(crate) fn push_frame(out: &mut Vec<u8>, frame: &Frame<'_>)
    ensures
        final(out)@ == old(out)@ + wire(frame@),
    decreases frame, 1nat,
{
    match frame {
        Frame::Simple(text) => {
            push_text(out, SIMPLE, text);
        },
        Frame::Error(text) => {
            push_text(out, ERROR, text);
        },
        Frame::Integer(value) => {
            out.push(INTEGER);
            push_decimal(out, *value);
            out.push(CR);
            out.push(LF);
            assert(final(out)@ =~= old(out)@ + wire(frame@));
        },
        Frame::Bulk(bytes) => {
            push_head(out, BULK, bytes.len());
            push_all(out, bytes);
            out.push(CR);
            out.push(LF);
            assert(final(out)@ =~= old(out)@ + wire(frame@));
        },
        Frame::Array(items) => {
            proof {
                lemma_view_of_sequence(*frame);
            }
            push_head(out, ARRAY, items.len());
            push_frames(out, items, Ghost(frame@));
            assert(final(out)@ =~= old(out)@ + wire(frame@));
        },
        Frame::Slice(items) => {
            proof {
                lemma_view_of_sequence(*frame);
            }
            push_head(out, ARRAY, items.len());
            push_frames(out, items, Ghost(frame@));
            assert(final(out)@ =~= old(out)@ + wire(frame@));
        },
    }
}

impl WriteFrame for Vec<u8> {
    /// A vector has taken the bytes it holds.
    open spec fn taken(&self) -> Seq<u8> {
        self@
    }

    /// Puts the frame's bytes behind those that the vector holds. This
    /// never fails.
    fn write_frame(&mut self, frame: &Frame<'_>) -> (res: Result<(), IoError>)
        ensures
            res is Ok,
            final(self)@ == old(self)@ + wire(frame@),
    {
        push_frame(self, frame);
        Ok(())
    }
}

} // verus!
