//! The lines on the screen and the line being typed.

use crate::event::Tone;
use vstd::prelude::*;
use vstd::string::StringExecFns;

verus! {

/// A ring of `N` slots that are written in turn, so that it always holds
/// the `N` values written last.
pub struct Ring<T, const N: usize> {
    buf: [T; N],
    head: usize,
}

impl<T, const N: usize> Ring<T, N> {
    /// The slots, in the order in which they are stored.
    pub closed spec fn slots(&self) -> Seq<T> {
        self.buf@
    }

    /// The slot that is written next: the one written longest ago.
    pub closed spec fn head(&self) -> int {
        self.head as int
    }

    /// The ring is in order: where it has slots, one of them is next.
    pub open spec fn wf(&self) -> bool {
        &&& self.slots().len() == N
        &&& 0 <= self.head() <= N
        &&& N > 0 ==> self.head() < N
    }

    /// The values from the one written longest ago to the one written last.
    pub open spec fn ordered(&self) -> Seq<T> {
        self.slots().subrange(self.head(), N as int) + self.slots().subrange(0, self.head())
    }

    /// A ring over the given slots; the first of them is written first.
    pub fn new(buf: [T; N]) -> (ring: Self)
        ensures
            ring.wf(),
            ring.slots() == buf@,
            ring.head() == 0,
    {
        Ring { buf, head: 0 }
    }

    /// The slot to write next. The slot after it is next from then on, the
    /// first slot after the last.
    pub fn next_mut(&mut self) -> (slot: &mut T)
        requires
            old(self).wf(),
            N > 0,
        ensures
            *slot == old(self).slots()[old(self).head()],
            final(self).slots() == old(self).slots().update(old(self).head(), *final(slot)),
            final(self).head() == if old(self).head() + 1 == N {
                0
            } else {
                old(self).head() + 1
            },
            final(self).wf(),
    {
        let at = self.head;
        self.head += 1;
        if self.head == N {
            self.head = 0;
        }
        &mut self.buf[at]
    }

    /// The values from the one written longest ago to the one written last.
    pub fn iter(&self) -> (values: Vec<&T>)
        requires
            self.wf(),
        ensures
            values@.len() == N,
            forall|i: int| 0 <= i < N ==> *(#[trigger] values@[i]) == self.ordered()[i],
    {
        let mut values: Vec<&T> = Vec::new();
        let mut i: usize = self.head;
        while i < N
            invariant
                self.wf(),
                self.head <= i <= N,
                values@.len() == i - self.head,
                forall|j: int|
                    0 <= j < values@.len() ==> *(#[trigger] values@[j]) == self.ordered()[j],
            decreases N - i,
        {
            values.push(&self.buf[i]);
            i += 1;
        }
        let mut k: usize = 0;
        while k < self.head
            invariant
                self.wf(),
                k <= self.head,
                values@.len() == N - self.head + k,
                forall|j: int|
                    0 <= j < values@.len() ==> *(#[trigger] values@[j]) == self.ordered()[j],
            decreases self.head - k,
        {
            values.push(&self.buf[k]);
            k += 1;
        }
        values
    }
}

/// One line on the screen.
pub struct Line {
    /// What the line says.
    pub text: String,
    /// The kind of the line.
    pub tone: Tone,
}

impl Line {
    /// A line that says nothing.
    pub fn blank() -> (line: Self)
        ensures
            line.text@ == Seq::<char>::empty(),
            line.tone == Tone::Chat,
    {
        Line { text: String::new(), tone: Tone::Chat }
    }
}

/// The lines on the screen: the sixteen written last, the oldest on top.
pub struct Console {
    lines: Ring<Line, 16>,
}

impl Console {
    /// The lines from top to bottom.
    pub closed spec fn rows(&self) -> Seq<Line> {
        self.lines.ordered()
    }

    /// The console is in order: it has its sixteen lines.
    pub closed spec fn wf(&self) -> bool {
        self.lines.wf()
    }

    /// A console of sixteen blank lines.
    pub fn new() -> (console: Self)
        ensures
            console.wf(),
            console.rows().len() == 16,
            forall|i: int|
                0 <= i < 16 ==> (#[trigger] console.rows()[i]).text@ == Seq::<char>::empty()
                    && console.rows()[i].tone == Tone::Chat,
    {
        let lines = Ring::new(
            [
                Line::blank(),
                Line::blank(),
                Line::blank(),
                Line::blank(),
                Line::blank(),
                Line::blank(),
                Line::blank(),
                Line::blank(),
                Line::blank(),
                Line::blank(),
                Line::blank(),
                Line::blank(),
                Line::blank(),
                Line::blank(),
                Line::blank(),
                Line::blank(),
            ],
        );
        Console { lines }
    }

    /// Writes a line at the bottom: every line moves up by one, and the one
    /// on top is gone.
    pub fn write_line(&mut self, tone: Tone, text: &str)
        requires
            old(self).wf(),
        ensures
            final(self).wf(),
            final(self).rows().len() == 16,
            forall|i: int| 0 <= i < 15 ==> final(self).rows()[i] == old(self).rows()[i + 1],
            final(self).rows()[15].text@ == text@,
            final(self).rows()[15].tone == tone,
    {
        let slot = self.lines.next_mut();
        slot.text = String::from_str(text);
        slot.tone = tone;
    }

    /// The lines from top to bottom.
    pub fn lines(&self) -> (lines: Vec<&Line>)
        requires
            self.wf(),
        ensures
            lines@.len() == 16,
            forall|i: int| 0 <= i < 16 ==> *(#[trigger] lines@[i]) == self.rows()[i],
    {
        self.lines.iter()
    }
}

/// A key that the user pressed, as far as typing a line goes.
#[derive(Debug, Clone, Copy, PartialEq, Eq, Structural)]
pub enum Key {
    /// The key that ends the line.
    Enter,
    /// A key that types a character.
    Char(char),
    /// Any other key.
    Other,
}

/// `String::push`: puts one character at the end of the text.
#[verifier::external_body]
fn push_char(text: &mut String, c: char)
    ensures
        final(text)@ == old(text)@.push(c),
{
    text.push(c);
}

/// Takes one key into the line being typed and tells whether the line is
/// complete: a character is put at its end, the enter key completes it, and
/// any other key does nothing.
pub fn type_key(line: &mut String, key: Key) -> (done: bool)
    ensures
        match key {
            Key::Enter => done && final(line)@ == old(line)@,
            Key::Char(c) => !done && final(line)@ == old(line)@.push(c),
            Key::Other => !done && final(line)@ == old(line)@,
        },
{
    match key {
        Key::Enter => true,
        Key::Char(c) => {
            push_char(line, c);
            false
        },
        Key::Other => false,
    }
}

} // verus!
