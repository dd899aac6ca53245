//! What can go wrong while a frame is read, and how a reader should take it:
//! try again later, stop quietly, or give up.

use vstd::prelude::*;
use vstd::std_specs::convert::FromSpecImpl;

verus! {

/// Declares `core::str::Utf8Error`, the error of `std::str::from_utf8`, so
/// that it can be carried to the place where it becomes a [`ParseError`].
/// Nothing is stated about what it holds.
#[verifier::external_type_specification]
#[verifier::external_body]
pub struct ExUtf8Error(core::str::Utf8Error);

/// A failure of one of the scanning steps of a [`crate::cursor::Cursor`].
#[derive(Debug, Clone, Copy, PartialEq, Eq, Structural)]
pub enum CursorError {
    /// The input ended before the item did. More input may mend it.
    NotEnoughData,
    /// A complete line does not hold a signed decimal number of 64 bits.
    Integer,
    /// A complete line does not hold an unsigned decimal number of 64 bits.
    Size,
}

impl CursorError {
    /// The failure only says that more input is needed.
    pub open spec fn is_not_enough_data(&self) -> bool {
        *self == CursorError::NotEnoughData
    }

    /// Tells whether the failure only says that more input is needed.
    #[verifier::when_used_as_spec(is_not_enough_data)]
    pub fn not_enough_data(&self) -> (b: bool)
        ensures
            b == self.is_not_enough_data(),
    {
        match self {
            CursorError::NotEnoughData => true,
            _ => false,
        }
    }
}

/// Why bytes do not read as a frame.
#[derive(Debug, Clone, Copy, PartialEq, Eq, Structural)]
pub enum ParseError {
    /// A scanning step failed.
    Cursor(CursorError),
    /// The frame starts with a byte that names no kind of frame.
    FrameType(u8),
    /// The line of a text frame is not UTF-8.
    Utf8,
    /// The payload of a bulk frame is not followed by a line terminator.
    NonTerminatedBulk,
}

impl From<core::str::Utf8Error> for ParseError {
    fn from(_err: core::str::Utf8Error) -> (res: Self) {
        ParseError::Utf8
    }
}

impl FromSpecImpl<core::str::Utf8Error> for ParseError {
    open spec fn obeys_from_spec() -> bool {
        true
    }

    open spec fn from_spec(_err: core::str::Utf8Error) -> Self {
        ParseError::Utf8
    }
}

impl From<CursorError> for ParseError {
    fn from(err: CursorError) -> (res: Self) {
        ParseError::Cursor(err)
    }
}

impl FromSpecImpl<CursorError> for ParseError {
    open spec fn obeys_from_spec() -> bool {
        true
    }

    open spec fn from_spec(err: CursorError) -> Self {
        ParseError::Cursor(err)
    }
}

/// How a read from the byte source failed, as far as a reader of frames
/// tells failures apart.
#[derive(Debug, Clone, Copy, PartialEq, Eq, Structural)]
pub enum IoError {
    /// The source has nothing to give at the moment.
    WouldBlock,
    /// The source gave zero bytes: the peer has closed the connection.
    ZeroRead,
    /// Any other failure of the transport.
    Other,
}

/// A failure to read a frame.
#[derive(Debug, Clone, Copy, PartialEq, Eq, Structural)]
pub enum ReadError {
    /// The bytes received do not read as a frame.
    Parse(ParseError),
    /// The byte source failed.
    Io(IoError),
}

impl ReadError {
    /// The failure means "try the same read again later": either the bytes
    /// received so far end before the frame does, or the source has nothing
    /// to give at the moment.
    pub open spec fn pending(&self) -> bool {
        *self == ReadError::Parse(ParseError::Cursor(CursorError::NotEnoughData))
            || *self == ReadError::Io(IoError::WouldBlock)
    }

    /// The failure means that the peer has closed the connection.
    pub open spec fn exhausted(&self) -> bool {
        *self == ReadError::Io(IoError::ZeroRead)
    }

    /// The failure is neither pending nor exhausted: it ends the connection
    /// and is reported.
    pub open spec fn fatal(&self) -> bool {
        !self.pending() && !self.exhausted()
    }

    /// Tells whether the read should be tried again later.
    #[verifier::when_used_as_spec(pending)]
    pub fn is_pending(&self) -> (b: bool)
        ensures
            b == self.pending(),
    {
        match self {
            ReadError::Parse(ParseError::Cursor(err)) => err.not_enough_data(),
            ReadError::Io(err) => *err == IoError::WouldBlock,
            _ => false,
        }
    }

    /// Tells whether the peer has closed the connection.
    #[verifier::when_used_as_spec(exhausted)]
    pub fn is_exhausted(&self) -> (b: bool)
        ensures
            b == self.exhausted(),
    {
        match self {
            ReadError::Io(err) => *err == IoError::ZeroRead,
            _ => false,
        }
    }

    /// Tells whether the failure ends the connection and is to be reported.
    #[verifier::when_used_as_spec(fatal)]
    pub fn is_fatal(&self) -> (b: bool)
        ensures
            b == self.fatal(),
    {
        !self.is_pending() && !self.is_exhausted()
    }
}

impl From<IoError> for ReadError {
    fn from(value: IoError) -> (res: Self) {
        ReadError::Io(value)
    }
}

impl FromSpecImpl<IoError> for ReadError {
    open spec fn obeys_from_spec() -> bool {
        true
    }

    open spec fn from_spec(value: IoError) -> Self {
        ReadError::Io(value)
    }
}

impl From<ParseError> for ReadError {
    fn from(value: ParseError) -> (res: Self) {
        ReadError::Parse(value)
    }
}

impl FromSpecImpl<ParseError> for ReadError {
    open spec fn obeys_from_spec() -> bool {
        true
    }

    open spec fn from_spec(value: ParseError) -> Self {
        ReadError::Parse(value)
    }
}

/// No failure is both pending and exhausted, and every failure is exactly
/// one of pending, exhausted and fatal.
pub proof fn lemma_classes_are_disjoint(err: ReadError)
    ensures
        !(err.pending() && err.exhausted()),
        err.pending() || err.exhausted() || err.fatal(),
        err.fatal() ==> !err.pending() && !err.exhausted(),
{
}

} // verus!
