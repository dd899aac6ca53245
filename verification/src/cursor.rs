//! A position in a slice of bytes, and the scanning steps a frame is made
//! of: one byte, one line, a number on a line, a run of bytes of known
//! length.
//!
//! Each step is given twice: as a spec function on a sequence and a position,
//! and as a method of [`Cursor`] that does what the spec function says. A
//! step that fails leaves the cursor where it was.

use crate::decimal::{parse_integer, parse_size, read_integer, read_size};
use crate::error::CursorError;
use vstd::prelude::*;
use vstd::slice::slice_subrange;

verus! {

/// The carriage return that starts a line terminator.
pub const CR: u8 = 13;

/// The line feed that ends a line terminator.
pub const LF: u8 = 10;

/// The two bytes of a line terminator stand at `i` and `i + 1`.
pub open spec fn terminator_at(s: Seq<u8>, i: int) -> bool {
    0 <= i && i + 1 < s.len() && s[i] == CR && s[i + 1] == LF
}

/// The first line terminator at or after `from` stands at `i`.
pub open spec fn first_terminator(s: Seq<u8>, from: int, i: int) -> bool {
    &&& from <= i
    &&& terminator_at(s, i)
    &&& forall|j: int| from <= j < i ==> !terminator_at(s, j)
}

/// No line terminator stands in `s`.
pub open spec fn no_terminator(s: Seq<u8>) -> bool {
    forall|i: int| !terminator_at(s, i)
}

/// One byte: the byte at `at` and the position after it.
pub open spec fn scan_byte(s: Seq<u8>, at: int) -> Result<(u8, int), CursorError> {
    if 0 <= at < s.len() {
        Ok((s[at], at + 1))
    } else {
        Err(CursorError::NotEnoughData)
    }
}

/// One line: the bytes from `at` up to the first line terminator, and the
/// position after that terminator. Without a terminator the line is not
/// complete yet.
pub open spec fn scan_line(s: Seq<u8>, at: int) -> Result<(Seq<u8>, int), CursorError> {
    if exists|i: int| first_terminator(s, at, i) {
        let i = choose|i: int| first_terminator(s, at, i);
        Ok((s.subrange(at, i), i + 2))
    } else {
        Err(CursorError::NotEnoughData)
    }
}

/// One line that holds a signed number.
pub open spec fn scan_integer(s: Seq<u8>, at: int) -> Result<(i64, int), CursorError> {
    match scan_line(s, at) {
        Ok((line, next)) => match read_integer(line) {
            Some(value) => Ok((value, next)),
            None => Err(CursorError::Integer),
        },
        Err(e) => Err(e),
    }
}

/// One line that holds a size.
pub open spec fn scan_size(s: Seq<u8>, at: int) -> Result<(u64, int), CursorError> {
    match scan_line(s, at) {
        Ok((line, next)) => match read_size(line) {
            Some(value) => Ok((value, next)),
            None => Err(CursorError::Size),
        },
        Err(e) => Err(e),
    }
}

/// Exactly `n` bytes: the bytes and the position after them.
pub open spec fn scan_slice(s: Seq<u8>, at: int, n: int) -> Result<(Seq<u8>, int), CursorError> {
    if at + n <= s.len() {
        Ok((s.subrange(at, at + n), at + n))
    } else {
        Err(CursorError::NotEnoughData)
    }
}

/// Where the first terminator stands decides what the line is.
pub proof fn lemma_scan_line_at(s: Seq<u8>, at: int, i: int)
    requires
        first_terminator(s, at, i),
    ensures
        scan_line(s, at) == Ok::<(Seq<u8>, int), CursorError>((s.subrange(at, i), i + 2)),
{
    let j = choose|j: int| first_terminator(s, at, j);
    assert(first_terminator(s, at, j));
    if j < i {
        assert(!terminator_at(s, j));
    }
    if i < j {
        assert(!terminator_at(s, i));
    }
}

/// A line that was read lies inside the input, holds no terminator, and is
/// followed by one.
pub proof fn lemma_scan_line_shape(s: Seq<u8>, at: int)
    requires
        scan_line(s, at) is Ok,
    ensures
        ({
            let (line, next) = scan_line(s, at)->Ok_0;
            &&& at + 2 <= next <= s.len()
            &&& line == s.subrange(at, next - 2)
            &&& first_terminator(s, at, next - 2)
            &&& 0 <= at ==> no_terminator(line)
        }),
{
    let i = choose|i: int| first_terminator(s, at, i);
    assert(first_terminator(s, at, i));
    let line = s.subrange(at, i);
    if 0 <= at {
        assert forall|j: int| !terminator_at(line, j) by {
            if terminator_at(line, j) {
                assert(line[j] == s[at + j]);
                assert(line[j + 1] == s[at + j + 1]);
                assert(terminator_at(s, at + j));
            }
        }
    }
}

/// The first `n` bytes of `s` and of `t` are the same.
pub open spec fn same_up_to(s: Seq<u8>, t: Seq<u8>, n: int) -> bool {
    &&& 0 <= n <= s.len()
    &&& n <= t.len()
    &&& forall|i: int| 0 <= i < n ==> s[i] == t[i]
}

/// A line reads the same in every input that agrees with this one up to the
/// end of the line's terminator.
pub proof fn lemma_scan_line_local(s: Seq<u8>, t: Seq<u8>, at: int)
    requires
        0 <= at,
        scan_line(s, at) is Ok,
        same_up_to(s, t, scan_line(s, at)->Ok_0.1),
    ensures
        scan_line(t, at) == scan_line(s, at),
{
    lemma_scan_line_shape(s, at);
    let next = scan_line(s, at)->Ok_0.1;
    let i = next - 2;
    assert(first_terminator(t, at, i)) by {
        assert forall|j: int| at <= j < i implies !terminator_at(t, j) by {
            assert(!terminator_at(s, j));
        }
    }
    lemma_scan_line_at(t, at, i);
    assert(t.subrange(at, i) =~= s.subrange(at, i));
}

/// A line stands where its bytes were written, if they hold no terminator
/// themselves and one follows them.
pub proof fn lemma_scan_line_written(s: Seq<u8>, at: int, line: Seq<u8>)
    requires
        0 <= at,
        at + line.len() + 2 <= s.len(),
        s.subrange(at, at + line.len() + 2) == line + seq![CR, LF],
        no_terminator(line),
    ensures
        scan_line(s, at) == Ok::<(Seq<u8>, int), CursorError>((line, at + line.len() + 2)),
{
    let i = at + line.len();
    let written = line + seq![CR, LF];
    assert forall|j: int| at <= j < i + 2 implies s[j] == written[j - at] by {
        assert(s.subrange(at, i + 2)[j - at] == s[j]);
    }
    assert forall|j: int| at <= j < i implies !terminator_at(s, j) by {
        if j + 1 < i {
            assert(!terminator_at(line, j - at));
        }
    }
    lemma_scan_line_at(s, at, i);
    assert(s.subrange(at, i) =~= line);
}

/// An input cut before the end of a line's terminator holds no complete
/// line there.
pub proof fn lemma_scan_line_cut(s: Seq<u8>, at: int, k: int)
    requires
        0 <= at,
        scan_line(s, at) is Ok,
        0 <= k < scan_line(s, at)->Ok_0.1,
    ensures
        scan_line(s.take(k), at) == Err::<(Seq<u8>, int), CursorError>(CursorError::NotEnoughData),
{
    lemma_scan_line_shape(s, at);
    let next = scan_line(s, at)->Ok_0.1;
    let t = s.take(k);
    assert forall|j: int| !first_terminator(t, at, j) by {
        if first_terminator(t, at, j) {
            assert(t[j] == s[j] && t[j + 1] == s[j + 1]);
            assert(terminator_at(s, j));
            assert(j < next - 2);
        }
    }
}

/// A position in a slice of bytes. The position never passes the end of the
/// slice.
#[derive(Clone, Copy, Debug)]
pub struct Cursor<'a> {
    bytes: &'a [u8],
    at: usize,
}

impl<'a> Cursor<'a> {
    #[verifier::type_invariant]
    spec fn in_bounds(self) -> bool {
        self.at <= self.bytes@.len()
    }

    /// The bytes that the cursor moves over.
    pub closed spec fn input(&self) -> Seq<u8> {
        self.bytes@
    }

    /// How many bytes lie before the cursor.
    pub closed spec fn offset(&self) -> int {
        self.at as int
    }

    /// A cursor at the start of `bytes`.
    pub fn new(bytes: &'a [u8]) -> (cursor: Self)
        ensures
            cursor.input() == bytes@,
            cursor.offset() == 0,
    {
        Cursor { bytes, at: 0 }
    }

    /// How many bytes lie before the cursor.
    pub fn position(&self) -> (at: usize)
        ensures
            at == self.offset(),
            at <= self.input().len(),
    {
        proof {
            use_type_invariant(self);
        }
        self.at
    }

    /// The bytes that the cursor moves over.
    pub fn get_ref(&self) -> (bytes: &'a [u8])
        ensures
            bytes@ == self.input(),
    {
        self.bytes
    }

    /// How many bytes lie at or after the cursor.
    pub fn remaining(&self) -> (n: usize)
        ensures
            n == self.input().len() - self.offset(),
    {
        proof {
            use_type_invariant(self);
        }
        self.bytes.len() - self.at
    }

    /// Takes one byte.
    pub fn byte(&mut self) -> (res: Result<u8, CursorError>)
        ensures
            final(self).input() == old(self).input(),
            match scan_byte(old(self).input(), old(self).offset()) {
                Ok((b, next)) => res == Ok::<u8, CursorError>(b) && final(self).offset() == next,
                Err(e) => res == Err::<u8, CursorError>(e) && final(self).offset() == old(self).offset(),
            },
    {
        proof {
            use_type_invariant(&*self);
        }
        if self.at < self.bytes.len() {
            let b = self.bytes[self.at];
            self.at += 1;
            Ok(b)
        } else {
            Err(CursorError::NotEnoughData)
        }
    }

    /// Takes one line, without its terminator, and steps over the
    /// terminator.
    pub fn line(&mut self) -> (res: Result<&'a [u8], CursorError>)
        ensures
            final(self).input() == old(self).input(),
            match scan_line(old(self).input(), old(self).offset()) {
                Ok((line, next)) => res matches Ok(got) && got@ == line && final(self).offset()
                    == next,
                Err(e) => res == Err::<&[u8], CursorError>(e) && final(self).offset() == old(self).offset(),
            },
    {
        proof {
            use_type_invariant(&*self);
        }
        let bytes = self.bytes;
        let start = self.at;
        let mut i: usize = start;
        while i < bytes.len() && i + 1 < bytes.len()
            invariant
                *self == *old(self),
                bytes == self.bytes,
                start == self.at,
                start <= i <= bytes.len(),
                forall|j: int| start <= j < i ==> !terminator_at(bytes@, j),
            decreases bytes.len() - i,
        {
            if bytes[i] == CR && bytes[i + 1] == LF {
                proof {
                    lemma_scan_line_at(bytes@, start as int, i as int);
                }
                let line = slice_subrange(bytes, start, i);
                self.at = i + 2;
                return Ok(line);
            }
            i += 1;
        }
        proof {
            assert forall|j: int| !first_terminator(bytes@, start as int, j) by {
                if first_terminator(bytes@, start as int, j) {
                    assert(j < i);
                }
            }
        }
        Err(CursorError::NotEnoughData)
    }

    /// Takes one line and reads it as a signed number.
    pub fn integer(&mut self) -> (res: Result<i64, CursorError>)
        ensures
            final(self).input() == old(self).input(),
            match scan_integer(old(self).input(), old(self).offset()) {
                Ok((value, next)) => res == Ok::<i64, CursorError>(value) && final(self).offset()
                    == next,
                Err(e) => res == Err::<i64, CursorError>(e) && final(self).offset() == old(self).offset(),
            },
    {
        let start = *self;
        match self.line() {
            Ok(line) => match parse_integer(line) {
                Some(value) => Ok(value),
                None => {
                    *self = start;
                    Err(CursorError::Integer)
                },
            },
            Err(e) => Err(e),
        }
    }

    /// Takes one line and reads it as a size.
    pub fn size(&mut self) -> (res: Result<u64, CursorError>)
        ensures
            final(self).input() == old(self).input(),
            match scan_size(old(self).input(), old(self).offset()) {
                Ok((value, next)) => res == Ok::<u64, CursorError>(value) && final(self).offset()
                    == next,
                Err(e) => res == Err::<u64, CursorError>(e) && final(self).offset() == old(self).offset(),
            },
    {
        let start = *self;
        match self.line() {
            Ok(line) => match parse_size(line) {
                Some(value) => Ok(value),
                None => {
                    *self = start;
                    Err(CursorError::Size)
                },
            },
            Err(e) => Err(e),
        }
    }

    /// Takes exactly `n` bytes.
    pub fn slice(&mut self, n: u64) -> (res: Result<&'a [u8], CursorError>)
        ensures
            final(self).input() == old(self).input(),
            match scan_slice(old(self).input(), old(self).offset(), n as int) {
                Ok((run, next)) => res matches Ok(got) && got@ == run && final(self).offset()
                    == next,
                Err(e) => res == Err::<&[u8], CursorError>(e) && final(self).offset() == old(self).offset(),
            },
    {
        proof {
            use_type_invariant(&*self);
        }
        let left = self.bytes.len() - self.at;
        if n <= left as u64 {
            let start = self.at;
            let end = start + n as usize;
            let run = slice_subrange(self.bytes, start, end);
            self.at = end;
            Ok(run)
        } else {
            Err(CursorError::NotEnoughData)
        }
    }
}

} // verus!
