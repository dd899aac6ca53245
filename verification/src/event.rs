//! What happens in a chat, and what is to be done about it.
//!
//! Three sources feed one stream of events: frames from the peer, lines
//! typed by the user, and the interrupt signal. This module turns a frame
//! into an event, says what a failed read asks of the reading loop, and says
//! what each event asks of the one consumer that writes to the peer and to
//! the screen.

use crate::decimal::decimal_text;
use crate::error::ReadError;
use crate::frame::{wire, Datum, Frame};
use crate::rw::push_frame;
use vstd::prelude::*;
use vstd::string::StringExecFns;
use vstd::utf8::encode_utf8_decode_utf8;

verus! {

/// One thing that happened.
#[derive(Debug, PartialEq, Eq)]
pub enum Event {
    /// The user typed a message.
    User { message: String },
    /// A peer sent a message.
    Peer { message: String },
    /// Someone joined.
    Join { username: String },
    /// Someone left.
    Leave { username: String },
    /// The peer reported an error.
    Error(String),
    /// The chat ends.
    Disconnect,
}

/// What an event says.
pub ghost enum EventView {
    User { message: Seq<char> },
    Peer { message: Seq<char> },
    Join { username: Seq<char> },
    Leave { username: Seq<char> },
    Error(Seq<char>),
    Disconnect,
}

impl View for Event {
    type V = EventView;

    open spec fn view(&self) -> EventView {
        match self {
            Event::User { message } => EventView::User { message: message@ },
            Event::Peer { message } => EventView::Peer { message: message@ },
            Event::Join { username } => EventView::Join { username: username@ },
            Event::Leave { username } => EventView::Leave { username: username@ },
            Event::Error(text) => EventView::Error(text@),
            Event::Disconnect => EventView::Disconnect,
        }
    }
}

/// What one frame of a message in parts adds to the message: a simple
/// frame its text, an integer its decimal form, any other frame nothing.
pub open spec fn part_text(frame: Frame<'_>) -> Seq<char> {
    match frame {
        Frame::Simple(text) => text@,
        Frame::Integer(value) => decimal_text(value as int),
        _ => Seq::empty(),
    }
}

/// The message that the parts make, in their order.
pub open spec fn parts_text(parts: Seq<Frame<'_>>) -> Seq<char>
    decreases parts.len(),
{
    if parts.len() == 0 {
        Seq::empty()
    } else {
        parts_text(parts.drop_last()) + part_text(parts.last())
    }
}

/// The message that a frame carries: a simple frame its text, an owned
/// sequence what its parts make; no other frame carries one.
pub open spec fn message_text(frame: Frame<'_>) -> Option<Seq<char>> {
    match frame {
        Frame::Simple(text) => Some(text@),
        Frame::Array(parts) => Some(parts_text(parts@)),
        _ => None,
    }
}

/// The text of a simple frame.
pub open spec fn simple_text(frame: Frame<'_>) -> Option<Seq<char>> {
    match frame {
        Frame::Simple(text) => Some(text@),
        _ => None,
    }
}

/// The event that a frame from the peer stands for, if it stands for one.
///
/// Only an owned sequence with a first frame does. An error frame in first
/// place is that error. A simple frame in first place names a command:
/// `MSG` with a message in second place, `JOIN` and `LEAVE` with a name in
/// second place. Whatever has another shape stands for nothing.
pub open spec fn event_of(frame: Frame<'_>) -> Option<EventView> {
    match frame {
        Frame::Array(items) => if items@.len() == 0 {
            None
        } else {
            match items@[0] {
                Frame::Error(text) => Some(EventView::Error(text@)),
                Frame::Simple(command) => if items@.len() < 2 {
                    None
                } else if command@ == "MSG"@ {
                    match message_text(items@[1]) {
                        Some(message) => Some(EventView::Peer { message }),
                        None => None,
                    }
                } else if command@ == "JOIN"@ {
                    match simple_text(items@[1]) {
                        Some(username) => Some(EventView::Join { username }),
                        None => None,
                    }
                } else if command@ == "LEAVE"@ {
                    match simple_text(items@[1]) {
                        Some(username) => Some(EventView::Leave { username }),
                        None => None,
                    }
                } else {
                    None
                },
                _ => None,
            }
        },
        _ => None,
    }
}

/// `itoa::Buffer::format`, on a buffer of its own: the decimal form of the
/// number, with a leading `-` where it is negative.
#[verifier::external_body]
fn decimal_string(value: i64) -> (text: String)
    ensures
        text@ == decimal_text(value as int),
{
    itoa::Buffer::new().format(value).to_string()
}

/// Tells whether two runs of bytes are the same.
fn same_bytes(a: &[u8], b: &[u8]) -> (same: bool)
    ensures
        same == (a@ == b@),
{
    if a.len() != b.len() {
        return false;
    }
    let mut i: usize = 0;
    while i < a.len()
        invariant
            i <= a.len(),
            a.len() == b.len(),
            forall|j: int| 0 <= j < i ==> a@[j] == b@[j],
        decreases a.len() - i,
    {
        if a[i] != b[i] {
            return false;
        }
        i += 1;
    }
    assert(a@ =~= b@);
    true
}

/// Tells whether two texts are the same.
pub fn same_text(a: &str, b: &str) -> (same: bool)
    ensures
        same == (a@ == b@),
{
    proof {
        encode_utf8_decode_utf8(a@);
        encode_utf8_decode_utf8(b@);
    }
    same_bytes(a.as_bytes(), b.as_bytes())
}

/// The message that the parts make.
fn join_parts(parts: &Vec<Frame<'_>>) -> (message: String)
    ensures
        message@ == parts_text(parts@),
{
    let mut message = String::new();
    let mut i: usize = 0;
    proof {
        assert(parts@.take(0) =~= Seq::<Frame<'_>>::empty());
    }
    while i < parts.len()
        invariant
            i <= parts.len(),
            message@ == parts_text(parts@.take(i as int)),
        decreases parts.len() - i,
    {
        proof {
            let longer = parts@.take(i + 1);
            assert(longer.drop_last() =~= parts@.take(i as int));
            assert(longer.last() == parts@[i as int]);
        }
        match &parts[i] {
            Frame::Simple(text) => {
                message.append(text);
            },
            Frame::Integer(value) => {
                let digits = decimal_string(*value);
                message.append(digits.as_str());
            },
            _ => {
                assert(message@ + Seq::<char>::empty() =~= message@);
            },
        }
        i += 1;
    }
    proof {
        assert(parts@.take(i as int) =~= parts@);
    }
    message
}

/// The name in second place, as an owned text.
fn name_of(frame: &Frame<'_>) -> (res: Option<String>)
    ensures
        match simple_text(*frame) {
            Some(text) => res matches Some(name) && name@ == text,
            None => res is None,
        },
{
    match frame.as_simple() {
        Some(text) => Some(String::from_str(text)),
        None => None,
    }
}

impl Event {
    /// Turns a frame from the peer into the event it stands for. A frame
    /// that stands for none is passed over in silence: there is no event,
    /// and no failure either.
    pub fn peer_frame(frame: &Frame<'_>) -> (res: Option<Event>)
        ensures
            match event_of(*frame) {
                Some(event) => res matches Some(got) && got@ == event,
                None => res is None,
            },
    {
        let items = match frame.as_array() {
            Some(items) => items,
            None => {
                return None;
            },
        };
        if items.len() == 0 {
            return None;
        }
        let first = &items[0];
        if let Frame::Error(text) = first {
            return Some(Event::Error(String::from_str(text)));
        }
        let command = match first.as_simple() {
            Some(command) => command,
            None => {
                return None;
            },
        };
        if items.len() < 2 {
            return None;
        }
        let second = &items[1];
        if same_text(command, "MSG") {
            let message = match second {
                Frame::Array(parts) => join_parts(parts),
                Frame::Simple(text) => String::from_str(text),
                _ => {
                    return None;
                },
            };
            Some(Event::Peer { message })
        } else if same_text(command, "JOIN") {
            match name_of(second) {
                Some(username) => Some(Event::Join { username }),
                None => None,
            }
        } else if same_text(command, "LEAVE") {
            match name_of(second) {
                Some(username) => Some(Event::Leave { username }),
                None => None,
            }
        } else {
            None
        }
    }
}

/// What a failed read asks of the loop that reads frames from the peer.
#[derive(Debug, Clone, Copy, PartialEq, Eq, Structural)]
pub enum Reaction {
    /// Nothing is lost: read again when the source has more.
    Retry,
    /// The peer has closed the connection: end the chat, report nothing.
    Close,
    /// The connection is of no use any more: report the failure, then end
    /// the chat.
    Fail,
}

/// Says what a failed read asks of the reading loop: a pending failure to
/// read again, an exhausted source to end the chat quietly, any other
/// failure to report it and end the chat.
pub fn react(err: &ReadError) -> (reaction: Reaction)
    ensures
        err.pending() ==> reaction == Reaction::Retry,
        err.exhausted() ==> reaction == Reaction::Close,
        err.fatal() ==> reaction == Reaction::Fail,
{
    if err.is_pending() {
        Reaction::Retry
    } else if err.is_exhausted() {
        Reaction::Close
    } else {
        Reaction::Fail
    }
}

/// The kind of a line on the screen, which decides its colour.
#[derive(Debug, Clone, Copy, PartialEq, Eq, Structural)]
pub enum Tone {
    /// What the server tells: who joined, who left.
    Server,
    /// An error.
    Error,
    /// What someone said.
    Chat,
}

/// What an event asks of the dispatcher.
#[derive(Debug, PartialEq, Eq)]
pub enum Action {
    /// Send the text to the peer as a message, then flush.
    Send(String),
    /// Put the line on the screen, then render.
    Show(Tone, String),
    /// Stop consuming events.
    Stop,
}

/// What an action says.
pub ghost enum ActionView {
    Send(Seq<char>),
    Show(Tone, Seq<char>),
    Stop,
}

impl View for Action {
    type V = ActionView;

    open spec fn view(&self) -> ActionView {
        match self {
            Action::Send(text) => ActionView::Send(text@),
            Action::Show(tone, line) => ActionView::Show(*tone, line@),
            Action::Stop => ActionView::Stop,
        }
    }
}

/// What each event asks for: the user's message is sent, a peer's message
/// and an error are shown as they are, a join and a leave are shown as a
/// line about the name, and a disconnect stops the dispatcher.
pub open spec fn action_for(event: EventView) -> ActionView {
    match event {
        EventView::User { message } => ActionView::Send(message),
        EventView::Peer { message } => ActionView::Show(Tone::Chat, message),
        EventView::Join { username } => ActionView::Show(Tone::Server, username + " joined"@),
        EventView::Leave { username } => ActionView::Show(Tone::Server, username + " left"@),
        EventView::Error(text) => ActionView::Show(Tone::Error, text),
        EventView::Disconnect => ActionView::Stop,
    }
}

/// Says what the event asks of the dispatcher.
pub fn dispatch(event: Event) -> (action: Action)
    ensures
        action@ == action_for(event@),
{
    match event {
        Event::User { message } => Action::Send(message),
        Event::Peer { message } => Action::Show(Tone::Chat, message),
        Event::Join { username } => Action::Show(Tone::Server, username.concat(" joined")),
        Event::Leave { username } => Action::Show(Tone::Server, username.concat(" left")),
        Event::Error(text) => Action::Show(Tone::Error, text),
        Event::Disconnect => Action::Stop,
    }
}

/// A name to join under is not empty and is ASCII throughout.
pub open spec fn name_is_valid(name: Seq<char>) -> bool {
    name.len() > 0 && vstd::utf8::is_ascii_chars(name)
}

/// Tells whether the text can be a name to join under.
pub fn valid_name(name: &str) -> (valid: bool)
    ensures
        valid == name_is_valid(name@),
{
    !name.is_empty() && name.is_ascii()
}

/// What a request to the server stands for: the command and its one
/// argument, as two simple frames in a sequence.
pub open spec fn request(command: Seq<char>, argument: Seq<char>) -> Datum {
    Datum::Array(seq![Datum::Simple(command), Datum::Simple(argument)])
}

/// Puts the bytes of a request behind what `out` holds.
fn push_request(out: &mut Vec<u8>, command: &str, argument: &str)
    ensures
        final(out)@ == old(out)@ + wire(request(command@, argument@)),
{
    let mut items: Vec<Frame<'_>> = Vec::new();
    items.push(Frame::Simple(command));
    items.push(Frame::Simple(argument));
    let frame = Frame::Slice(&items);
    proof {
        crate::frame::lemma_view_of_sequence(frame);
        assert(frame@->Array_0 =~= request(command@, argument@)->Array_0);
    }
    push_frame(out, &frame);
}

/// Puts behind what `out` holds the bytes that tell the server who joins.
pub fn push_join(out: &mut Vec<u8>, name: &str)
    ensures
        final(out)@ == old(out)@ + wire(request("JOIN"@, name@)),
{
    push_request(out, "JOIN", name);
}

/// Puts behind what `out` holds the bytes that tell the server what the
/// user said.
pub fn push_message(out: &mut Vec<u8>, text: &str)
    ensures
        final(out)@ == old(out)@ + wire(request("MSG"@, text@)),
{
    push_request(out, "MSG", text);
}

} // verus!
