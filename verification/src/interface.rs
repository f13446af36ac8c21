//! The console: a state machine with a text state, in which it behaves as a
//! line editor, and a binary state, in which it collects frames that end in a
//! zero byte.
//!
//! The console does no input or output of its own. It is handed the bytes
//! that were read, one at a time, and answers each with the operations to
//! perform on the terminal and with the input event that the byte completed,
//! if any.

use vstd::prelude::*;
use vstd::slice::slice_to_vec;
use vstd::utf8::*;
use vte::Parser;

use crate::display::{lemma_cursor_redraw, lemma_line_redraw};
use crate::eventparser::{
    advanced, grammar_after, grammar_reports, lemma_decoded_nul, lemma_termination_has_event,
    Decoded, Dispatch, Event, EventParser, Flags, Key,
};
use crate::line::{lemma_word_bounds, Line};
use crate::linebuffer::{split, LineBuffer};
use crate::stdstr::{char_count, encode_char};
use crate::terminal::{draws, lemma_draws_push, repeat, Draw, Screen, TermOp};
use crate::text::trimmed;
use crate::{signal, Input, Signal};

verus! {

/// The state of the console.
#[derive(Clone, Copy, PartialEq, Eq, Debug)]
pub enum InterfaceMode {
    /// Bytes are collected into frames.
    Binary,
    /// Bytes are decoded and edit a line.
    Text,
}

/// The room that a fresh frame buffer reserves, in bytes.
pub const FRAME_RESERVE: usize = 128;

/// The text `s` written to the terminal.
pub open spec fn echo(s: Seq<char>) -> Draw {
    Draw::Write(encode_utf8(s))
}

/// The notice written when the console changes to the text state.
pub open spec fn text_notice() -> Seq<char> {
    "\r\nSwitching to text mode.\r\n"@
}

/// The notice written when the console changes to the binary state.
pub open spec fn binary_notice() -> Seq<char> {
    "\r\nSwitching to binary mode.\r\nPress CTRL + Space twice to leave.\r\n"@
}

/// The operations that bring the terminal up to date from the cursor on: the
/// text after the cursor is written, what may follow it on the terminal is
/// cleared, and the cursor goes back to where it stood.
pub open spec fn cursor_redraw(line: Line) -> Seq<Draw> {
    seq![echo(line.text.skip(line.cursor)), Draw::ClearEol] + repeat(
        Draw::CursorLeft,
        line.text.len() - line.cursor,
    )
}

/// The operations that show the line after an empty prompt: the whole text
/// is written and the cursor goes back to where it stands in the line.
pub open spec fn line_redraw(line: Line) -> Seq<Draw> {
    seq![echo(line.text)] + repeat(Draw::CursorLeft, line.text.len() - line.cursor)
}

/// The line after the key `key`.
pub open spec fn key_line(line: Line, key: Key) -> Line {
    match key {
        Key::ArrowUp => line,
        Key::ArrowDown => line,
        Key::ArrowRight => line.right(),
        Key::ArrowLeft => line.left(),
        Key::Home => line.home(),
        Key::End => line.end(),
        Key::Backspace => line.backspace(),
        Key::Delete => line.delete(),
        Key::CtrlBackspace => line.delete_word_left(),
        Key::CtrlDelete => line.delete_word_right(),
        Key::CtrlRight => line.word_right(),
        Key::CtrlLeft => line.word_left(),
    }
}

/// The operations on the terminal for the key `key`.
pub open spec fn key_draws(line: Line, key: Key) -> Seq<Draw> {
    match key {
        Key::ArrowUp => Seq::empty(),
        Key::ArrowDown => Seq::empty(),
        Key::ArrowRight => if line.cursor < line.text.len() {
            seq![Draw::CursorRight]
        } else {
            Seq::empty()
        },
        Key::ArrowLeft => if line.cursor > 0 {
            seq![Draw::CursorLeft]
        } else {
            Seq::empty()
        },
        Key::Home => repeat(Draw::CursorLeft, line.cursor),
        Key::End => repeat(Draw::CursorRight, line.text.len() - line.cursor),
        Key::Backspace => if line.cursor > 0 {
            seq![Draw::CursorLeft] + cursor_redraw(line.backspace())
        } else {
            Seq::empty()
        },
        Key::Delete => if line.cursor < line.text.len() {
            cursor_redraw(line.delete())
        } else {
            Seq::empty()
        },
        Key::CtrlBackspace => repeat(Draw::CursorLeft, line.cursor - line.word_start_left())
            + cursor_redraw(line.delete_word_left()),
        Key::CtrlDelete => cursor_redraw(line.delete_word_right()),
        Key::CtrlRight => repeat(Draw::CursorRight, line.word_end_right() - line.cursor),
        Key::CtrlLeft => repeat(Draw::CursorLeft, line.cursor - line.word_start_left()),
    }
}

/// What an event does to the line, what it has written to the terminal, and
/// which input it completes.
pub struct Effect {
    pub line: Line,
    pub draws: Seq<Draw>,
    pub signal: Option<Signal>,
}

/// The effect of a control code.
pub open spec fn control_effect(line: Line, byte: u8) -> Effect {
    if byte == 0x00 {
        Effect { line, draws: seq![echo("^@"@)], signal: None }
    } else if byte == 0x03 {
        Effect {
            line: Line::empty(),
            draws: seq![echo("^C\r\n"@)],
            signal: Some(Signal::EndOfText),
        }
    } else if byte == 0x04 {
        if line.text.len() == 0 {
            Effect { line, draws: seq![echo("^D\r\n"@)], signal: Some(Signal::EndOfTransmission) }
        } else {
            Effect { line, draws: Seq::empty(), signal: None }
        }
    } else if byte == 0x07 {
        Effect { line, draws: seq![echo("^G\r\n"@)], signal: Some(Signal::Bell) }
    } else if byte == 0x0d {
        Effect {
            line: Line::empty(),
            draws: seq![echo("\r\n"@)],
            signal: Some(Signal::Text(trimmed(line.text))),
        }
    } else if byte == 0x18 {
        Effect { line, draws: seq![echo("^X\r\n"@)], signal: Some(Signal::Cancel) }
    } else {
        Effect { line, draws: Seq::empty(), signal: None }
    }
}

/// The effect of a decoded event.
pub open spec fn event_effect(line: Line, event: Event) -> Effect {
    match event {
        Event::Print(c) => Effect {
            line: line.insert(c),
            draws: seq![echo(seq![c])] + cursor_redraw(line.insert(c)),
            signal: None,
        },
        Event::Execute(byte) => control_effect(line, byte),
        Event::KeyEvent(key) => Effect {
            line: key_line(line, key),
            draws: key_draws(line, key),
            signal: None,
        },
    }
}

/// The console as a mathematical value.
pub struct Console {
    /// The state that governs what is done with a byte.
    pub mode: InterfaceMode,
    /// The flags of the decoder.
    pub flags: Flags,
    /// The line under edit.
    pub line: Line,
    /// The bytes of the frame that is being received.
    pub frame: Seq<u8>,
}

/// What one byte leads to: the console afterwards, the operations for the
/// terminal, and the input that the byte completed.
pub struct Outcome {
    pub console: Console,
    pub draws: Seq<Draw>,
    pub signal: Option<Signal>,
}

impl Console {
    /// The console at start-up: in the text state, with nothing typed and
    /// nothing received.
    pub open spec fn initial() -> Console {
        Console {
            mode: InterfaceMode::Text,
            flags: Flags { sentinel_seen: false, terminated: false },
            line: Line::empty(),
            frame: Seq::empty(),
        }
    }

    /// What the byte `byte` leads to in the binary state: a zero byte with
    /// nothing received changes to the text state; any other zero byte ends
    /// the frame, which is handed out with it; every other byte is kept.
    pub open spec fn binary(self, byte: u8) -> Outcome {
        if byte != 0x00 {
            Outcome {
                console: Console { frame: self.frame.push(byte), ..self },
                draws: Seq::empty(),
                signal: None,
            }
        } else if self.frame.len() == 0 {
            Outcome {
                console: Console { mode: InterfaceMode::Text, ..self },
                draws: seq![echo(text_notice())],
                signal: None,
            }
        } else {
            Outcome {
                console: Console { frame: Seq::empty(), ..self },
                draws: Seq::empty(),
                signal: Some(Signal::Binary(self.frame.push(byte))),
            }
        }
    }

    /// What the decoder's answer to a byte leads to in the text state. The
    /// flags of `self` are those that the decoder has after the byte. Without
    /// an event nothing happens; with one, its effect takes place, and if the
    /// decoder has seen two NUL bytes with nothing between them the console
    /// then changes to the binary state and clears the flags.
    pub open spec fn text(self, event: Option<Event>) -> Outcome {
        match event {
            None => Outcome { console: self, draws: Seq::empty(), signal: None },
            Some(event) => {
                let effect = event_effect(self.line, event);
                if self.flags.terminated {
                    Outcome {
                        console: Console {
                            mode: InterfaceMode::Binary,
                            flags: Flags { sentinel_seen: false, terminated: false },
                            line: effect.line,
                            frame: self.frame,
                        },
                        draws: effect.draws.push(echo(binary_notice())),
                        signal: effect.signal,
                    }
                } else {
                    Outcome {
                        console: Console { line: effect.line, ..self },
                        draws: effect.draws,
                        signal: effect.signal,
                    }
                }
            },
        }
    }

    /// What a byte leads to in the text state, given what the decoder made
    /// of the byte.
    pub open spec fn text_decoded(self, answer: Decoded) -> Outcome {
        Console { flags: answer.flags, ..self }.text(answer.event)
    }
}

/// Ask the terminal to write the text `s`.
fn write_str(ops: &mut Vec<TermOp>, s: &str)
    ensures
        draws(final(ops)@) == draws(old(ops)@).push(echo(s@)),
{
    let op = TermOp::Write(slice_to_vec(s.as_bytes()));
    proof {
        lemma_draws_push(ops@, op);
    }
    ops.push(op);
}

/// Ask the terminal to move the cursor `count` cells to the left.
fn cursor_lefts(ops: &mut Vec<TermOp>, count: usize)
    ensures
        draws(final(ops)@) == draws(old(ops)@) + repeat(Draw::CursorLeft, count as int),
{
    let mut i: usize = 0;
    while i < count
        invariant
            0 <= i <= count,
            draws(ops@) == draws(old(ops)@) + repeat(Draw::CursorLeft, i as int),
        decreases count - i,
    {
        proof {
            lemma_draws_push(ops@, TermOp::CursorLeft);
            assert(repeat(Draw::CursorLeft, i + 1) =~= repeat(Draw::CursorLeft, i as int).push(
                Draw::CursorLeft,
            ));
            assert((draws(old(ops)@) + repeat(Draw::CursorLeft, i as int)).push(Draw::CursorLeft)
                =~= draws(old(ops)@) + repeat(Draw::CursorLeft, i + 1));
        }
        ops.push(TermOp::CursorLeft);
        i += 1;
    }
    assert(draws(old(ops)@) + repeat(Draw::CursorLeft, 0) =~= draws(old(ops)@));
}

/// Ask the terminal to move the cursor `count` cells to the right.
fn cursor_rights(ops: &mut Vec<TermOp>, count: usize)
    ensures
        draws(final(ops)@) == draws(old(ops)@) + repeat(Draw::CursorRight, count as int),
{
    let mut i: usize = 0;
    while i < count
        invariant
            0 <= i <= count,
            draws(ops@) == draws(old(ops)@) + repeat(Draw::CursorRight, i as int),
        decreases count - i,
    {
        proof {
            lemma_draws_push(ops@, TermOp::CursorRight);
            assert(repeat(Draw::CursorRight, i + 1) =~= repeat(Draw::CursorRight, i as int).push(
                Draw::CursorRight,
            ));
            assert((draws(old(ops)@) + repeat(Draw::CursorRight, i as int)).push(
                Draw::CursorRight,
            ) =~= draws(old(ops)@) + repeat(Draw::CursorRight, i + 1));
        }
        ops.push(TermOp::CursorRight);
        i += 1;
    }
    assert(draws(old(ops)@) + repeat(Draw::CursorRight, 0) =~= draws(old(ops)@));
}

/// Whether `outcome` is what happened: the console is `console`, the
/// operations `after` are those that stood in the list `before` with those of
/// the outcome behind them, and the input is `input`.
pub open spec fn happened(
    outcome: Outcome,
    console: Console,
    before: Seq<Draw>,
    after: Seq<Draw>,
    input: Option<Signal>,
) -> bool {
    &&& console == outcome.console
    &&& after == before + outcome.draws
    &&& input == outcome.signal
}

/// The console: a line editor in its text state, a collector of frames in
/// its binary state.
///
/// Two zero bytes with nothing between them (CTRL + SPACE twice) change
/// from the text state to the binary state. In the binary state a frame ends with a zero byte, and a
/// zero byte that follows the end of a frame at once changes back to the text
/// state.
///
/// The caller prints the prompt, reads the bytes, and performs the
/// operations that each byte is answered with.
pub struct Interface {
    mode: InterfaceMode,
    parser: EventParser,
    line: LineBuffer,
    binary_buf: Vec<u8>,
}

impl View for Interface {
    type V = Console;

    closed spec fn view(&self) -> Console {
        Console {
            mode: self.mode,
            flags: self.parser@,
            line: self.line@,
            frame: self.binary_buf@,
        }
    }
}

impl Interface {
    /// The decoder holds no event and the cursor of the line is on a
    /// character boundary.
    pub closed spec fn wf(&self) -> bool {
        self.parser.wf() && self.line.wf()
    }

    /// The parser of the escape grammar, in the state in which it is.
    pub closed spec fn grammar(&self) -> Parser<4> {
        self.parser.grammar()
    }

    /// What the grammar reports for `byte` in the state in which it is.
    pub open spec fn reports(&self, byte: u8) -> Seq<Dispatch> {
        grammar_reports(self.grammar(), byte)
    }

    /// In a well-formed console the cursor is inside the line.
    pub proof fn lemma_line_wf(&self)
        requires
            self.wf(),
        ensures
            self@.line.wf(),
    {
        self.line.lemma_cursor();
    }

    /// Construct a console in its text state.
    pub fn new() -> (interface: Self)
        ensures
            interface.wf(),
            interface@ == Console::initial(),
    {
        Self {
            mode: InterfaceMode::Text,
            parser: EventParser::new(),
            line: LineBuffer::new(),
            binary_buf: Vec::with_capacity(FRAME_RESERVE),
        }
    }

    /// Take in one byte that was read, whatever the state.
    ///
    /// The operations for the terminal are added to `ops`; the caller
    /// performs them in their order. Returns the input that the byte
    /// completed, if any.
    pub fn dispatch(&mut self, byte: u8, ops: &mut Vec<TermOp>) -> (input: Option<Input>)
        requires
            old(self).wf(),
        ensures
            final(self).wf(),
            !old(self)@.flags.terminated ==> !final(self)@.flags.terminated,
            old(self)@.mode is Binary ==> final(self).grammar() == old(self).grammar() && happened(
                old(self)@.binary(byte),
                final(self)@,
                draws(old(ops)@),
                draws(final(ops)@),
                signal(input),
            ),
            old(self)@.mode is Text ==> final(self).grammar() == grammar_after(
                old(self).grammar(),
                byte,
            ) && happened(
                old(self)@.text_decoded(
                    advanced(old(self)@.flags, old(self).reports(byte), byte),
                ),
                final(self)@,
                draws(old(ops)@),
                draws(final(ops)@),
                signal(input),
            ),
    {
        match self.mode {
            InterfaceMode::Binary => self.binary_dispatch(byte, ops),
            InterfaceMode::Text => self.text_dispatch(byte, ops),
        }
    }

    /// Take in one byte in the binary state.
    pub fn binary_dispatch(&mut self, byte: u8, ops: &mut Vec<TermOp>) -> (input: Option<Input>)
        requires
            old(self).wf(),
        ensures
            final(self).wf(),
            final(self).grammar() == old(self).grammar(),
            happened(
                old(self)@.binary(byte),
                final(self)@,
                draws(old(ops)@),
                draws(final(ops)@),
                signal(input),
            ),
    {
        if byte == 0x00 {
            if self.binary_buf.len() == 0 {
                write_str(ops, "\r\nSwitching to text mode.\r\n");
                self.mode = InterfaceMode::Text;
                assert(draws(ops@) =~= draws(old(ops)@) + seq![echo(text_notice())]);
                None
            } else {
                self.binary_buf.push(byte);
                let mut bytes = Vec::with_capacity(FRAME_RESERVE);
                std::mem::swap(&mut self.binary_buf, &mut bytes);
                assert(draws(ops@) =~= draws(old(ops)@) + Seq::<Draw>::empty());
                Some(Input::Binary(bytes))
            }
        } else {
            self.binary_buf.push(byte);
            assert(draws(ops@) =~= draws(old(ops)@) + Seq::<Draw>::empty());
            None
        }
    }

    /// Take in one byte in the text state: the decoder works on the byte,
    /// and what it made of the byte is acted on.
    pub fn text_dispatch(&mut self, byte: u8, ops: &mut Vec<TermOp>) -> (input: Option<Input>)
        requires
            old(self).wf(),
        ensures
            final(self).wf(),
            !old(self)@.flags.terminated ==> !final(self)@.flags.terminated,
            final(self).grammar() == grammar_after(old(self).grammar(), byte),
            happened(
                old(self)@.text_decoded(advanced(old(self)@.flags, old(self).reports(byte), byte)),
                final(self)@,
                draws(old(ops)@),
                draws(final(ops)@),
                signal(input),
            ),
    {
        let event = self.parser.advance(byte);
        proof {
            if !old(self)@.flags.terminated {
                lemma_termination_has_event(old(self)@.flags, old(self).reports(byte));
            }
        }
        self.text_event(event, ops)
    }

    /// Act on what the decoder made of a byte in the text state.
    pub fn text_event(&mut self, event: Option<Event>, ops: &mut Vec<TermOp>) -> (input: Option<
        Input,
    >)
        requires
            old(self).wf(),
        ensures
            final(self).wf(),
            final(self).grammar() == old(self).grammar(),
            happened(
                old(self)@.text(event),
                final(self)@,
                draws(old(ops)@),
                draws(final(ops)@),
                signal(input),
            ),
    {
        if let Some(event) = event {
            let input = self.run_event(event, ops);

            if self.parser.terminated() {
                write_str(
                    ops,
                    "\r\nSwitching to binary mode.\r\nPress CTRL + Space twice to leave.\r\n",
                );
                self.parser.unterminate();
                self.mode = InterfaceMode::Binary;
                proof {
                    let effect = event_effect(old(self)@.line, event);
                    assert(draws(ops@) =~= draws(old(ops)@) + effect.draws.push(
                        echo(binary_notice()),
                    ));
                }
            }
            input
        } else {
            assert(draws(ops@) =~= draws(old(ops)@) + Seq::<Draw>::empty());
            None
        }
    }

    /// Perform what the event `event` asks for.
    pub fn run_event(&mut self, event: Event, ops: &mut Vec<TermOp>) -> (input: Option<Input>)
        requires
            old(self).wf(),
        ensures
            final(self).wf(),
            final(self).grammar() == old(self).grammar(),
            final(self)@ == (Console {
                line: event_effect(old(self)@.line, event).line,
                ..old(self)@
            }),
            draws(final(ops)@) == draws(old(ops)@) + event_effect(old(self)@.line, event).draws,
            signal(input) == event_effect(old(self)@.line, event).signal,
    {
        let ghost before = draws(ops@);
        match event {
            Event::Print(c) => {
                self.line.insert_char(c);
                let op = TermOp::Write(encode_char(c));
                proof {
                    lemma_draws_push(ops@, op);
                }
                ops.push(op);
                self.redraw_from_cursor(ops);
                assert(draws(ops@) =~= before + (seq![echo(seq![c])] + cursor_redraw(
                    self.line@,
                )));
                None
            },
            Event::Execute(byte) => {
                if byte == 0x00 {
                    // CTRL + SPACE: the decoder keeps count of these
                    write_str(ops, "^@");
                    assert(draws(ops@) =~= before + seq![echo("^@"@)]);
                    None
                } else if byte == 0x03 {
                    // CTRL + C
                    write_str(ops, "^C\r\n");
                    self.line.clear();
                    assert(draws(ops@) =~= before + seq![echo("^C\r\n"@)]);
                    Some(Input::EndOfText)
                } else if byte == 0x04 {
                    // CTRL + D
                    if self.line.is_empty() {
                        write_str(ops, "^D\r\n");
                        assert(draws(ops@) =~= before + seq![echo("^D\r\n"@)]);
                        Some(Input::EndOfTransmission)
                    } else {
                        assert(draws(ops@) =~= before + Seq::<Draw>::empty());
                        None
                    }
                } else if byte == 0x07 {
                    // CTRL + G
                    write_str(ops, "^G\r\n");
                    assert(draws(ops@) =~= before + seq![echo("^G\r\n"@)]);
                    Some(Input::Bell)
                } else if byte == 0x0d {
                    // ENTER
                    write_str(ops, "\r\n");
                    let text = self.line.take();
                    self.line.clear();
                    assert(draws(ops@) =~= before + seq![echo("\r\n"@)]);
                    Some(Input::Text(text))
                } else if byte == 0x18 {
                    // CTRL + X
                    write_str(ops, "^X\r\n");
                    assert(draws(ops@) =~= before + seq![echo("^X\r\n"@)]);
                    Some(Input::Cancel)
                } else {
                    assert(draws(ops@) =~= before + Seq::<Draw>::empty());
                    None
                }
            },
            Event::KeyEvent(key) => {
                self.run_key_event(key, ops);
                None
            },
        }
    }

    /// Perform what the key `key` asks for.
    pub fn run_key_event(&mut self, key: Key, ops: &mut Vec<TermOp>)
        requires
            old(self).wf(),
        ensures
            final(self).wf(),
            final(self).grammar() == old(self).grammar(),
            final(self)@ == (Console { line: key_line(old(self)@.line, key), ..old(self)@ }),
            draws(final(ops)@) == draws(old(ops)@) + key_draws(old(self)@.line, key),
    {
        let ghost before = draws(ops@);
        let ghost line = self.line@;
        proof {
            self.line.lemma_cursor();
            lemma_word_bounds(line);
        }
        match key {
            Key::ArrowUp => {
                assert(draws(ops@) =~= before + Seq::<Draw>::empty());
            },
            Key::ArrowDown => {
                assert(draws(ops@) =~= before + Seq::<Draw>::empty());
            },
            Key::ArrowRight => {
                if self.line.move_cursor_right() {
                    proof {
                        lemma_draws_push(ops@, TermOp::CursorRight);
                    }
                    ops.push(TermOp::CursorRight);
                    assert(draws(ops@) =~= before + seq![Draw::CursorRight]);
                } else {
                    assert(draws(ops@) =~= before + Seq::<Draw>::empty());
                }
            },
            Key::ArrowLeft => {
                if self.line.move_cursor_left() {
                    proof {
                        lemma_draws_push(ops@, TermOp::CursorLeft);
                    }
                    ops.push(TermOp::CursorLeft);
                    assert(draws(ops@) =~= before + seq![Draw::CursorLeft]);
                } else {
                    assert(draws(ops@) =~= before + Seq::<Draw>::empty());
                }
            },
            Key::Home => {
                let count = self.line.move_cursor_to_start();
                cursor_lefts(ops, count);
            },
            Key::End => {
                let count = self.line.move_cursor_to_end();
                cursor_rights(ops, count);
            },
            Key::Backspace => {
                if self.line.delete_before_cursor() {
                    proof {
                        lemma_draws_push(ops@, TermOp::CursorLeft);
                    }
                    ops.push(TermOp::CursorLeft);
                    self.redraw_from_cursor(ops);
                    assert(draws(ops@) =~= before + (seq![Draw::CursorLeft] + cursor_redraw(
                        self.line@,
                    )));
                } else {
                    assert(draws(ops@) =~= before + Seq::<Draw>::empty());
                }
            },
            Key::Delete => {
                if self.line.delete_at_cursor() {
                    self.redraw_from_cursor(ops);
                } else {
                    assert(draws(ops@) =~= before + Seq::<Draw>::empty());
                }
            },
            Key::CtrlBackspace => {
                let count = self.line.delete_word_left();
                cursor_lefts(ops, count);
                self.redraw_from_cursor(ops);
                assert(draws(ops@) =~= before + (repeat(Draw::CursorLeft, count as int)
                    + cursor_redraw(self.line@)));
            },
            Key::CtrlDelete => {
                self.line.delete_word_right();
                self.redraw_from_cursor(ops);
            },
            Key::CtrlRight => {
                let count = self.line.move_cursor_word_right();
                cursor_rights(ops, count);
            },
            Key::CtrlLeft => {
                let count = self.line.move_cursor_word_left();
                cursor_lefts(ops, count);
            },
        }
    }

    /// Bring the terminal up to date from the cursor to the end of the line.
    ///
    /// Whatever the terminal showed from the cursor on, it then shows the
    /// text of the line from the cursor on, and its cursor is back where it
    /// stood.
    pub fn redraw_from_cursor(&self, ops: &mut Vec<TermOp>)
        requires
            self.wf(),
        ensures
            draws(final(ops)@) == draws(old(ops)@) + cursor_redraw(self@.line),
            forall|screen: Screen|
                screen.wf() && screen.col == self@.line.cursor && screen.cells.take(screen.col)
                    == self@.line.text.take(self@.line.cursor) ==> #[trigger] screen.draw_all(
                    cursor_redraw(self@.line),
                ).shows(self@.line),
    {
        let ghost before = draws(ops@);
        proof {
            self.line.lemma_cursor();
            assert forall|screen: Screen|
                screen.wf() && screen.col == self@.line.cursor && screen.cells.take(screen.col)
                    == self@.line.text.take(self@.line.cursor) implies #[trigger] screen.draw_all(
                cursor_redraw(self@.line),
            ).shows(self@.line) by {
                lemma_cursor_redraw(self@.line, screen);
            }
        }
        let (_, tail) = split(self.line.as_str(), self.line.cursor_pos());
        write_str(ops, tail);
        proof {
            lemma_draws_push(ops@, TermOp::ClearEol);
        }
        ops.push(TermOp::ClearEol);
        cursor_lefts(ops, char_count(tail));
        assert(draws(ops@) =~= before + cursor_redraw(self@.line));
    }

    /// Show the line on a terminal whose cursor stands after an empty prompt.
    ///
    /// The whole text is written, and the cursor of the terminal then goes
    /// to where the cursor stands in the line.
    pub fn redraw_line(&self, ops: &mut Vec<TermOp>)
        requires
            self.wf(),
        ensures
            draws(final(ops)@) == draws(old(ops)@) + line_redraw(self@.line),
            (Screen { cells: Seq::empty(), col: 0 }).draw_all(line_redraw(self@.line)).shows(
                self@.line,
            ),
    {
        let ghost before = draws(ops@);
        proof {
            self.line.lemma_cursor();
            lemma_line_redraw(self@.line);
        }
        let text = self.line.as_str();
        let (_, tail) = split(text, self.line.cursor_pos());
        write_str(ops, text);
        cursor_lefts(ops, char_count(tail));
        assert(draws(ops@) =~= before + line_redraw(self@.line));
    }
}

/// CTRL + D on a line that is not empty does nothing; on an empty line it
/// ends the transmission. The line is left as it is either way.
pub proof fn lemma_ctrl_d(line: Line)
    ensures
        event_effect(line, Event::Execute(0x04)).line == line,
        line.text.len() > 0 ==> event_effect(line, Event::Execute(0x04)).signal is None
            && event_effect(line, Event::Execute(0x04)).draws.len() == 0,
        line.text.len() == 0 ==> event_effect(line, Event::Execute(0x04)).signal == Some(
            Signal::EndOfTransmission,
        ),
{
}

/// The console after the bytes `bytes` in the binary state, where none of
/// them completes a frame or changes the state.
pub open spec fn collected(console: Console, bytes: Seq<u8>) -> Console
    decreases bytes.len(),
{
    if bytes.len() == 0 {
        console
    } else {
        collected(console, bytes.drop_last()).binary(bytes.last()).console
    }
}

/// Bytes other than zero are collected in their order, with no input and no
/// operation on the terminal.
pub proof fn lemma_collecting(console: Console, bytes: Seq<u8>)
    requires
        forall|i: int| 0 <= i < bytes.len() ==> bytes[i] != 0x00,
    ensures
        collected(console, bytes) == (Console { frame: console.frame + bytes, ..console }),
        bytes.len() > 0 ==> collected(console, bytes.drop_last()).binary(bytes.last()).signal
            is None,
    decreases bytes.len(),
{
    if bytes.len() == 0 {
        assert(console.frame + bytes =~= console.frame);
    } else {
        lemma_collecting(console, bytes.drop_last());
        assert(console.frame + bytes =~= (console.frame + bytes.drop_last()).push(bytes.last()));
    }
}

/// A frame of bytes other than zero, received with nothing collected before
/// it, is handed out by the zero byte that follows it, with that zero byte
/// at its end; the console is then ready for the next frame. A zero byte
/// with nothing collected changes to the text state instead.
pub proof fn lemma_frame(console: Console, payload: Seq<u8>)
    requires
        console.frame.len() == 0,
        forall|i: int| 0 <= i < payload.len() ==> payload[i] != 0x00,
    ensures
        payload.len() > 0 ==> collected(console, payload).binary(0x00).signal == Some(
            Signal::Binary(payload.push(0x00)),
        ) && collected(console, payload).binary(0x00).console == console,
        payload.len() == 0 ==> collected(console, payload).binary(0x00).signal is None
            && collected(console, payload).binary(0x00).console.mode is Text,
{
    lemma_collecting(console, payload);
    assert(console.frame + payload =~= payload);
    if payload.len() > 0 {
        assert(console.frame =~= Seq::<u8>::empty());
    }
}

/// The text state is left only when the decoder has seen two NUL bytes with
/// nothing between them. The notice is then the last thing written, and the
/// flags are cleared for the next time.
pub proof fn lemma_text_to_binary(console: Console, event: Option<Event>)
    requires
        console.mode is Text,
    ensures
        console.text(event).console.mode is Binary <==> event is Some && console.flags.terminated,
        console.text(event).console.mode is Binary ==> console.text(event).console.flags == (Flags {
            sentinel_seen: false,
            terminated: false,
        }) && console.text(event).draws == event_effect(console.line, event->0).draws.push(
            echo(binary_notice()),
        ),
        console.text(event).console.mode is Text ==> console.text(event).draws == (match event {
            Some(event) => event_effect(console.line, event).draws,
            None => Seq::empty(),
        }),
{
}

/// The binary state is left only by a zero byte with nothing collected. The
/// notice is then all that is written; nothing is written otherwise.
pub proof fn lemma_binary_to_text(console: Console, byte: u8)
    requires
        console.mode is Binary,
    ensures
        console.binary(byte).console.mode is Text <==> byte == 0x00 && console.frame.len() == 0,
        console.binary(byte).console.mode is Text ==> console.binary(byte).draws
            == seq![echo(text_notice())],
        console.binary(byte).console.mode is Binary ==> console.binary(byte).draws.len() == 0,
{
}

/// Two NUL bytes with nothing between them, each reported by the grammar as
/// a control code, take a console with cleared flags from the text state to
/// the binary state: the first is echoed, the second is echoed and followed by the
/// notice. Neither gives an input, and the line is left as it is.
pub proof fn lemma_two_nul_bytes(console: Console)
    requires
        console.mode is Text,
        console.flags == (Flags { sentinel_seen: false, terminated: false }),
    ensures
        ({
            let nul = seq![Dispatch::Execute(0x00)];
            let first = console.text_decoded(advanced(console.flags, nul, 0x00));
            let second = first.console.text_decoded(advanced(first.console.flags, nul, 0x00));
            &&& first.console == (Console {
                flags: Flags { sentinel_seen: true, terminated: false },
                ..console
            })
            &&& first.draws == seq![echo("^@"@)]
            &&& first.signal is None
            &&& second.console == (Console { mode: InterfaceMode::Binary, ..console })
            &&& second.draws == seq![echo("^@"@), echo(binary_notice())]
            &&& second.signal is None
        }),
{
    lemma_decoded_nul(console.flags);
    lemma_decoded_nul(Flags { sentinel_seen: true, terminated: false });
    let nul = seq![Dispatch::Execute(0x00)];
    let first = console.text_decoded(advanced(console.flags, nul, 0x00));
    let second = first.console.text_decoded(advanced(first.console.flags, nul, 0x00));
    assert(second.draws =~= seq![echo("^@"@), echo(binary_notice())]);
}

} // verus!
