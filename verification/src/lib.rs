//! The control engine of a device console on a byte stream.
//!
//! The bytes that arrive are either the keys of a line editor or the frames
//! of a binary protocol. In its text state the console decodes terminal
//! escape sequences into keys ([`eventparser`]), edits a line of UTF-8 text
//! with a cursor ([`linebuffer`]) and says what to draw on the terminal
//! ([`terminal`]); in its binary state it collects frames that end in a zero
//! byte. Two zero bytes with nothing between them change from one state to
//! the other ([`interface`]). Lines that were submitted can be kept and browsed
//! ([`history`]).
//!
//! The library reads and writes nothing itself: [`Interface::dispatch`] takes
//! one byte and returns the operations for the terminal and the input event
//! that the byte completed.

use vstd::prelude::*;

pub mod display;
pub mod eventparser;
pub mod history;
pub mod interface;
pub mod led;
pub mod line;
pub mod linebuffer;
pub mod stdstr;
pub mod terminal;
pub mod text;

pub use interface::Interface;

verus! {

/// A high-level input event produced by the console.
#[derive(Debug, PartialEq, Eq)]
pub enum Input {
    /// A complete binary frame, terminating sentinel byte included.
    Binary(Vec<u8>),
    /// A submitted line of text with surrounding whitespace removed.
    Text(String),
    /// CTRL + G was pressed.
    Bell,
    /// CTRL + X was pressed.
    Cancel,
    /// CTRL + C was pressed and the line was discarded.
    EndOfText,
    /// CTRL + D was pressed on an empty line.
    EndOfTransmission,
}

/// An input event as a mathematical value.
pub enum Signal {
    Binary(Seq<u8>),
    Text(Seq<char>),
    Bell,
    Cancel,
    EndOfText,
    EndOfTransmission,
}

impl View for Input {
    type V = Signal;

    open spec fn view(&self) -> Signal {
        match self {
            Input::Binary(bytes) => Signal::Binary(bytes@),
            Input::Text(text) => Signal::Text(text@),
            Input::Bell => Signal::Bell,
            Input::Cancel => Signal::Cancel,
            Input::EndOfText => Signal::EndOfText,
            Input::EndOfTransmission => Signal::EndOfTransmission,
        }
    }
}

/// The event that `input` holds, if any, as a mathematical value.
pub open spec fn signal(input: Option<Input>) -> Option<Signal> {
    match input {
        Some(input) => Some(input@),
        None => None,
    }
}

} // verus!
