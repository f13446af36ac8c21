//! Decoding of terminal input, one byte at a time, into printable
//! characters, control codes and keys.
//!
//! The escape grammar itself is that of the `vte` parser; what it reports for
//! a byte is turned into at most one [`Event`] here.

use vstd::prelude::*;
use vstd::slice::slice_to_vec;
use vte::{Params, Parser, Perform};

verus! {

/// An event decoded from the input.
#[derive(Copy, Clone, PartialEq, Eq, Debug)]
pub enum Event {
    /// A printable character was received.
    Print(char),
    /// A control code was received.
    Execute(u8),
    /// A key was recognised, from an escape sequence or a remapped byte.
    KeyEvent(Key),
}

/// A navigation or editing key.
#[derive(Copy, Clone, PartialEq, Eq, Debug)]
pub enum Key {
    ArrowUp,
    ArrowDown,
    ArrowRight,
    ArrowLeft,
    Home,
    End,
    Backspace,
    Delete,
    CtrlBackspace,
    CtrlDelete,
    CtrlRight,
    CtrlLeft,
}

/// One report of the escape grammar, as plain values.
#[derive(Debug, PartialEq, Eq)]
pub enum Dispatch {
    /// A character to print.
    Print(char),
    /// A control code to execute.
    Execute(u8),
    /// The final character of a CSI sequence has arrived.
    Csi {
        /// How many parameters and subparameters the sequence has.
        count: usize,
        /// The parameters, each with its subparameters.
        groups: Vec<Vec<u16>>,
        /// The intermediate bytes of the sequence.
        intermediates: Vec<u8>,
        /// Whether the grammar had to drop part of the sequence.
        ignore: bool,
        /// The final character.
        action: char,
    },
}

/// The two flags by which two NUL bytes with nothing between them are
/// detected.
pub struct Flags {
    /// The last byte was a NUL that was taken as a control code.
    pub sentinel_seen: bool,
    /// Since the flags were last cleared, two NUL bytes have been taken as
    /// control codes with no other byte between them.
    pub terminated: bool,
}

/// The flags together with the event that is held for the caller.
pub struct Decoded {
    pub flags: Flags,
    pub event: Option<Event>,
}

/// The event for a printable character: DEL is the backspace key.
pub open spec fn print_event(c: char) -> Event {
    if c == '\u{7f}' {
        Event::KeyEvent(Key::Backspace)
    } else {
        Event::Print(c)
    }
}

/// The event for a control code: BS is the backspace key with CTRL.
pub open spec fn execute_event(byte: u8) -> Event {
    if byte == 0x08 {
        Event::KeyEvent(Key::CtrlBackspace)
    } else {
        Event::Execute(byte)
    }
}

/// The flags with the sentinel forgotten.
pub open spec fn disarmed(flags: Flags) -> Flags {
    Flags { sentinel_seen: false, terminated: flags.terminated }
}

/// The flags after a control code: a NUL sets `sentinel_seen`, a NUL that
/// finds it set sets `terminated`, and any other code clears `sentinel_seen`.
pub open spec fn execute_flags(flags: Flags, byte: u8) -> Flags {
    if byte != 0x00 {
        Flags { sentinel_seen: false, terminated: flags.terminated }
    } else if flags.sentinel_seen {
        Flags { sentinel_seen: true, terminated: true }
    } else {
        Flags { sentinel_seen: true, terminated: flags.terminated }
    }
}

/// The first subparameter of the parameter at `index`, or zero if there is none.
pub open spec fn param_at(groups: Seq<Vec<u16>>, index: int) -> u16 {
    if 0 <= index < groups.len() && groups[index]@.len() > 0 {
        groups[index]@[0]
    } else {
        0
    }
}

/// The key that a CSI sequence stands for, by its final character, the
/// number of its parameters and its first two parameters.
pub open spec fn csi_key(action: char, count: int, first: u16, second: u16) -> Option<Key> {
    if action == 'A' && count == 1 && first == 0 {
        Some(Key::ArrowUp)
    } else if action == 'B' && count == 1 && first == 0 {
        Some(Key::ArrowDown)
    } else if action == 'C' && count == 1 && first == 0 {
        Some(Key::ArrowRight)
    } else if action == 'D' && count == 1 && first == 0 {
        Some(Key::ArrowLeft)
    } else if action == 'H' && count == 1 && first == 0 {
        Some(Key::Home)
    } else if action == 'F' && count == 1 && first == 0 {
        Some(Key::End)
    } else if action == '~' && count == 1 && first == 3 {
        Some(Key::Delete)
    } else if action == '~' && count == 2 && first == 3 && second == 5 {
        Some(Key::CtrlDelete)
    } else if action == 'C' && count == 2 && first == 1 && second == 5 {
        Some(Key::CtrlRight)
    } else if action == 'D' && count == 2 && first == 1 && second == 5 {
        Some(Key::CtrlLeft)
    } else {
        None
    }
}

/// The key that a reported CSI sequence stands for: none if the grammar
/// dropped part of it or if it has intermediate bytes.
pub open spec fn dispatch_key(
    count: usize,
    groups: Seq<Vec<u16>>,
    intermediates: Seq<u8>,
    ignore: bool,
    action: char,
) -> Option<Key> {
    if ignore || intermediates.len() > 0 {
        None
    } else {
        csi_key(action, count as int, param_at(groups, 0), param_at(groups, 1))
    }
}

/// The state after one report of the grammar. Only a control code can leave
/// `sentinel_seen` set: a character to print and a CSI sequence clear it.
pub open spec fn perform(state: Decoded, call: Dispatch) -> Decoded {
    match call {
        Dispatch::Print(c) => Decoded {
            flags: disarmed(state.flags),
            event: Some(print_event(c)),
        },
        Dispatch::Execute(byte) => Decoded {
            flags: execute_flags(state.flags, byte),
            event: Some(execute_event(byte)),
        },
        Dispatch::Csi { count, groups, intermediates, ignore, action } => match dispatch_key(
            count,
            groups@,
            intermediates@,
            ignore,
            action,
        ) {
            Some(key) => Decoded {
                flags: disarmed(state.flags),
                event: Some(Event::KeyEvent(key)),
            },
            None => Decoded { flags: disarmed(state.flags), event: state.event },
        },
    }
}

/// The state after the reports `calls`, in their order.
pub open spec fn perform_all(state: Decoded, calls: Seq<Dispatch>) -> Decoded
    decreases calls.len(),
{
    if calls.len() == 0 {
        state
    } else {
        perform(perform_all(state, calls.drop_last()), calls.last())
    }
}

/// What a decoder with the flags `flags` and no event held makes of the
/// reports `calls`.
pub open spec fn decoded(flags: Flags, calls: Seq<Dispatch>) -> Decoded {
    perform_all(Decoded { flags, event: None }, calls)
}

/// The flags after the byte `byte` has been taken in, `flags` being those
/// after its reports: a byte other than NUL leaves `sentinel_seen` cleared,
/// whatever the grammar reported for it, and be it nothing.
pub open spec fn after_byte(flags: Flags, byte: u8) -> Flags {
    if byte != 0x00 {
        disarmed(flags)
    } else {
        flags
    }
}

/// What a decoder with the flags `flags` and no event held makes of the byte
/// `byte`, for which the grammar reported `calls`.
pub open spec fn advanced(flags: Flags, calls: Seq<Dispatch>, byte: u8) -> Decoded {
    Decoded {
        flags: after_byte(decoded(flags, calls).flags, byte),
        event: decoded(flags, calls).event,
    }
}

/// Extract the first subparameter of the parameter at `index`, zero if
/// there is none.
pub fn get_param(groups: &Vec<Vec<u16>>, index: usize) -> (value: u16)
    ensures
        value == param_at(groups@, index as int),
{
    if index < groups.len() {
        let group = &groups[index];
        if group.len() > 0 {
            return group[0];
        }
    }
    0
}

/// The flags and the held event of a decoder.
pub struct EventBuf {
    pub event: Option<Event>,
    pub terminated: bool,
    pub sentinel_seen: bool,
}

impl View for EventBuf {
    type V = Decoded;

    open spec fn view(&self) -> Decoded {
        Decoded {
            flags: Flags { sentinel_seen: self.sentinel_seen, terminated: self.terminated },
            event: self.event,
        }
    }
}

impl EventBuf {
    /// A printable character arrived.
    pub fn print(&mut self, c: char)
        ensures
            final(self)@ == perform(old(self)@, Dispatch::Print(c)),
    {
        self.sentinel_seen = false;

        self.event = if c == '\u{7f}' {
            Some(Event::KeyEvent(Key::Backspace))
        } else {
            Some(Event::Print(c))
        };
    }

    /// A control code arrived.
    pub fn execute(&mut self, byte: u8)
        ensures
            final(self)@ == perform(old(self)@, Dispatch::Execute(byte)),
    {
        if byte == 0x00 {
            if self.sentinel_seen {
                self.terminated = true;
            } else {
                self.sentinel_seen = true;
            }
        } else {
            self.sentinel_seen = false;
        }

        self.event = if byte == 0x08 {
            Some(Event::KeyEvent(Key::CtrlBackspace))
        } else {
            Some(Event::Execute(byte))
        };
    }

    /// A CSI sequence arrived.
    pub fn csi_dispatch(
        &mut self,
        count: usize,
        groups: &Vec<Vec<u16>>,
        intermediates: &Vec<u8>,
        ignore: bool,
        action: char,
    )
        ensures
            final(self)@.flags == disarmed(old(self)@.flags),
            final(self)@.event == match dispatch_key(
                count,
                groups@,
                intermediates@,
                ignore,
                action,
            ) {
                Some(key) => Some(Event::KeyEvent(key)),
                None => old(self)@.event,
            },
    {
        self.sentinel_seen = false;

        if ignore || intermediates.len() > 0 {
            return ;
        }
        let first = get_param(groups, 0);
        let second = get_param(groups, 1);

        let key = if action == 'A' && count == 1 && first == 0 {
            Key::ArrowUp
        } else if action == 'B' && count == 1 && first == 0 {
            Key::ArrowDown
        } else if action == 'C' && count == 1 && first == 0 {
            Key::ArrowRight
        } else if action == 'D' && count == 1 && first == 0 {
            Key::ArrowLeft
        } else if action == 'H' && count == 1 && first == 0 {
            Key::Home
        } else if action == 'F' && count == 1 && first == 0 {
            Key::End
        } else if action == '~' && count == 1 && first == 3 {
            Key::Delete
        } else if action == '~' && count == 2 && first == 3 && second == 5 {
            Key::CtrlDelete
        } else if action == 'C' && count == 2 && first == 1 && second == 5 {
            Key::CtrlRight
        } else if action == 'D' && count == 2 && first == 1 && second == 5 {
            Key::CtrlLeft
        } else {
            return ;
        };

        self.event = Some(Event::KeyEvent(key));
    }

    /// One report of the grammar arrived.
    pub fn perform(&mut self, call: &Dispatch)
        ensures
            final(self)@ == perform(old(self)@, *call),
    {
        match call {
            Dispatch::Print(c) => self.print(*c),
            Dispatch::Execute(byte) => self.execute(*byte),
            Dispatch::Csi { count, groups, intermediates, ignore, action } => self.csi_dispatch(
                *count,
                groups,
                intermediates,
                *ignore,
                *action,
            ),
        }
    }
}

/// Two NUL control codes, one straight after the other, terminate, whatever
/// the flags were before.
pub proof fn lemma_double_nul_terminates(flags: Flags)
    ensures
        execute_flags(execute_flags(flags, 0x00), 0x00).terminated,
{
}

/// With the flags cleared, a single NUL byte arms the detection and does not
/// terminate.
pub proof fn lemma_single_nul_arms()
    ensures
        execute_flags(Flags { sentinel_seen: false, terminated: false }, 0x00) == (Flags {
            sentinel_seen: true,
            terminated: false,
        }),
{
}

/// Termination comes only from a NUL control code that finds the sentinel
/// set, and once set it stays until the flags are cleared.
pub proof fn lemma_termination(flags: Flags, byte: u8)
    ensures
        flags.terminated ==> execute_flags(flags, byte).terminated,
        !flags.terminated && execute_flags(flags, byte).terminated ==> byte == 0x00
            && flags.sentinel_seen,
        byte != 0x00 ==> !execute_flags(flags, byte).sentinel_seen,
{
}

/// Every report but a NUL control code leaves the sentinel cleared, and no
/// report but a NUL control code that finds the sentinel set terminates.
pub proof fn lemma_report_disarms(state: Decoded, call: Dispatch)
    ensures
        call != Dispatch::Execute(0x00) ==> !perform(state, call).flags.sentinel_seen,
        !(call == Dispatch::Execute(0x00) && state.flags.sentinel_seen) ==> perform(
            state,
            call,
        ).flags.terminated == state.flags.terminated,
{
}

/// Two NUL control codes with another report between them do not terminate:
/// the second one finds the sentinel cleared and only sets it again.
pub proof fn lemma_interrupted_nul(state: Decoded, between: Dispatch)
    requires
        between != Dispatch::Execute(0x00),
    ensures
        ({
            let first = perform(state, Dispatch::Execute(0x00));
            let second = perform(perform(first, between), Dispatch::Execute(0x00));
            &&& second.flags.terminated == first.flags.terminated
            &&& second.flags.sentinel_seen
        }),
{
}

/// A byte other than NUL leaves the sentinel cleared, whatever the grammar
/// reported for it, so that a NUL byte after it cannot terminate: whatever
/// the grammar reports for that NUL byte, a single NUL control code among
/// them at most sets the sentinel.
pub proof fn lemma_other_byte_disarms(flags: Flags, calls: Seq<Dispatch>, byte: u8)
    requires
        byte != 0x00,
    ensures
        !advanced(flags, calls, byte).flags.sentinel_seen,
        advanced(flags, calls, byte).flags.terminated == decoded(flags, calls).flags.terminated,
        advanced(
            advanced(flags, calls, byte).flags,
            seq![Dispatch::Execute(0x00)],
            0x00,
        ).flags == (Flags {
            sentinel_seen: true,
            terminated: advanced(flags, calls, byte).flags.terminated,
        }),
{
    reveal_with_fuel(perform_all, 2);
    assert(seq![Dispatch::Execute(0x00)].drop_last() =~= Seq::<Dispatch>::empty());
}

/// The `vte` parser, whose state Verus does not look into.
#[verifier::external_type_specification]
#[verifier::external_body]
pub struct ExParser<const OSC_RAW_BUF_SIZE: usize>(Parser<OSC_RAW_BUF_SIZE>);

/// The parameter list that the `vte` parser hands to a CSI dispatch.
#[verifier::external_type_specification]
#[verifier::external_body]
pub struct ExParams(Params);

/// The parameters that a parameter list holds, in their order, each as the
/// list of its subparameters.
pub uninterp spec fn param_list(params: Params) -> Seq<Seq<u16>>;

/// `Params::iter`, collected: the parameters that the list holds, in their
/// order, each as the list of its subparameters.
#[verifier::external_body]
fn param_groups(params: &Params) -> (groups: Vec<Vec<u16>>)
    ensures
        groups.deep_view() == param_list(*params),
{
    params.iter().map(|group| group.to_vec()).collect()
}

/// `Params::len`: how many values the list holds, parameters and
/// subparameters counted alike.
#[verifier::external_body]
fn param_count(params: &Params) -> (count: usize)
    ensures
        count == param_list(*params).flatten().len(),
{
    params.len()
}

/// Keeps what the grammar reports while it works on a byte.
pub struct Recorder {
    /// The reports so far, in the order in which they came.
    pub calls: Vec<Dispatch>,
}

impl Perform for Recorder {
    /// The character is added to the reports.
    fn print(&mut self, c: char)
        ensures
            final(self).calls@ == old(self).calls@.push(Dispatch::Print(c)),
    {
        self.calls.push(Dispatch::Print(c));
    }

    /// The control code is added to the reports.
    fn execute(&mut self, byte: u8)
        ensures
            final(self).calls@ == old(self).calls@.push(Dispatch::Execute(byte)),
    {
        self.calls.push(Dispatch::Execute(byte));
    }

    /// The CSI sequence is added to the reports, with the parameters that
    /// the list holds and their number, and with the intermediate bytes, the
    /// flag and the final character as they were given.
    fn csi_dispatch(&mut self, params: &Params, intermediates: &[u8], ignore: bool, action: char)
        ensures
            final(self).calls@.len() == old(self).calls@.len() + 1,
            final(self).calls@.drop_last() == old(self).calls@,
            final(self).calls@.last() matches Dispatch::Csi {
                count: kept_count,
                groups: kept_groups,
                intermediates: kept_intermediates,
                ignore: kept_ignore,
                action: kept_action,
            } && kept_count == param_list(*params).flatten().len() && kept_groups.deep_view()
                == param_list(*params) && kept_intermediates@ == intermediates@ && kept_ignore
                == ignore && kept_action == action,
    {
        let count = param_count(params);
        let groups = param_groups(params);
        let intermediates = slice_to_vec(intermediates);
        self.calls.push(Dispatch::Csi { count, groups, intermediates, ignore, action });
        assert(self.calls@.drop_last() =~= old(self).calls@);
    }
}

/// What a parser reports when it is given the single byte `byte`, in order.
pub uninterp spec fn grammar_reports(parser: Parser<4>, byte: u8) -> Seq<Dispatch>;

/// The parser that a parser has become when it has worked on the single
/// byte `byte`.
pub uninterp spec fn grammar_after(parser: Parser<4>, byte: u8) -> Parser<4>;

/// `Parser::new_with_size`: a parser in its ground state.
#[verifier::external_body]
fn grammar_new() -> (parser: Parser<4>) {
    Parser::new_with_size()
}

/// `Parser::advance` on the single byte `byte`: returns what the grammar
/// reported while it worked on the byte, in order. The reports and the
/// state in which the parser is left depend on the state in which the parser
/// was and on the byte, and on nothing else; they are what `grammar_reports`
/// and `grammar_after` name.
#[verifier::external_body]
fn grammar_advance(parser: &mut Parser<4>, byte: u8) -> (calls: Vec<Dispatch>)
    ensures
        calls@ == grammar_reports(*old(parser), byte),
        *final(parser) == grammar_after(*old(parser), byte),
{
    let mut recorder = Recorder { calls: Vec::new() };
    parser.advance(&mut recorder, &[byte]);
    recorder.calls
}

/// A decoder of terminal input that is fed one byte at a time.
///
/// Pass bytes to [`EventParser::advance`] until it returns an event.
pub struct EventParser {
    parser: Parser<4>,
    performer: EventBuf,
}

impl View for EventParser {
    type V = Flags;

    closed spec fn view(&self) -> Flags {
        self.performer@.flags
    }
}

impl EventParser {
    /// No event is held between two calls.
    pub closed spec fn wf(&self) -> bool {
        self.performer.event is None
    }

    /// The parser of the escape grammar, in the state in which it is.
    pub closed spec fn grammar(&self) -> Parser<4> {
        self.parser
    }

    /// What the grammar reports for `byte` in the state in which it is.
    pub open spec fn reports(&self, byte: u8) -> Seq<Dispatch> {
        grammar_reports(self.grammar(), byte)
    }

    /// Construct a new decoder.
    pub fn new() -> (parser: Self)
        ensures
            parser.wf(),
            parser@ == (Flags { sentinel_seen: false, terminated: false }),
    {
        Self {
            parser: grammar_new(),
            performer: EventBuf { event: None, terminated: false, sentinel_seen: false },
        }
    }

    /// Take in what the grammar reported for one byte, and return the event
    /// that is left at the end.
    pub fn digest(&mut self, calls: &Vec<Dispatch>) -> (event: Option<Event>)
        requires
            old(self).wf(),
        ensures
            final(self).wf(),
            final(self).grammar() == old(self).grammar(),
            decoded(old(self)@, calls@) == (Decoded { flags: final(self)@, event }),
    {
        let mut i: usize = 0;
        while i < calls.len()
            invariant
                0 <= i <= calls.len(),
                self.grammar() == old(self).grammar(),
                self.performer@ == decoded(old(self)@, calls@.take(i as int)),
            decreases calls.len() - i,
        {
            self.performer.perform(&calls[i]);
            proof {
                assert(calls@.take(i + 1).drop_last() =~= calls@.take(i as int));
            }
            i += 1;
        }
        proof {
            assert(calls@.take(i as int) =~= calls@);
        }
        self.performer.event.take()
    }

    /// Advance the decoder with `byte`.
    ///
    /// Returns the event that the byte completed, if any; bytes in the
    /// middle of an escape sequence give none. The grammar works on the byte
    /// and the result is what [`advanced`] makes of its reports: the last
    /// event among them, the flags as the reports leave them, and the
    /// sentinel cleared by every byte other than NUL.
    pub fn advance(&mut self, byte: u8) -> (event: Option<Event>)
        requires
            old(self).wf(),
        ensures
            final(self).wf(),
            final(self).grammar() == grammar_after(old(self).grammar(), byte),
            advanced(old(self)@, old(self).reports(byte), byte) == (Decoded {
                flags: final(self)@,
                event,
            }),
    {
        let calls = grammar_advance(&mut self.parser, byte);
        let event = self.digest(&calls);
        if byte != 0x00 {
            self.performer.sentinel_seen = false;
        }
        event
    }

    /// Whether two NUL bytes have arrived with no other byte between them
    /// since the flags were last cleared.
    ///
    /// Termination does not stop the decoder; it is how a change from text
    /// to binary input is requested. A caller that sees `true` should call
    /// [`EventParser::unterminate`] at once.
    pub fn terminated(&self) -> (terminated: bool)
        ensures
            terminated == self@.terminated,
    {
        self.performer.terminated
    }

    /// Clear both flags, so that another termination can be detected.
    pub fn unterminate(&mut self)
        ensures
            final(self).wf() == old(self).wf(),
            final(self).grammar() == old(self).grammar(),
            final(self)@ == (Flags { sentinel_seen: false, terminated: false }),
    {
        self.performer.terminated = false;
        self.performer.sentinel_seen = false;
    }
}

/// A decoder that is given two NUL control codes, one straight after the
/// other, is terminated; given a single one with its flags cleared, it is
/// not.
pub proof fn lemma_decoded_nul(flags: Flags)
    ensures
        decoded(decoded(flags, seq![Dispatch::Execute(0x00)]).flags, seq![Dispatch::Execute(0x00)])
            == (Decoded {
            flags: Flags { sentinel_seen: true, terminated: true },
            event: Some(Event::Execute(0x00)),
        }),
        decoded(
            Flags { sentinel_seen: false, terminated: false },
            seq![Dispatch::Execute(0x00)],
        ) == (Decoded {
            flags: Flags { sentinel_seen: true, terminated: false },
            event: Some(Event::Execute(0x00)),
        }),
{
    reveal_with_fuel(perform_all, 2);
    assert(seq![Dispatch::Execute(0x00)].drop_last() =~= Seq::<Dispatch>::empty());
}

/// Without a report from the grammar the decoder gives no event and keeps
/// its flags.
pub proof fn lemma_decoded_nothing(flags: Flags)
    ensures
        decoded(flags, Seq::empty()) == (Decoded { flags, event: None }),
{
}

/// Termination never comes without an event: if the reports for a byte set
/// `terminated`, the byte gives an event.
pub proof fn lemma_termination_has_event(flags: Flags, calls: Seq<Dispatch>)
    requires
        !flags.terminated,
    ensures
        decoded(flags, calls).flags.terminated ==> decoded(flags, calls).event is Some,
    decreases calls.len(),
{
    if calls.len() > 0 {
        lemma_termination_has_event(flags, calls.drop_last());
    }
}

/// The remapped bytes never come out as they came in: no event prints DEL
/// and none executes BS.
pub proof fn lemma_remapped(flags: Flags, calls: Seq<Dispatch>)
    ensures
        decoded(flags, calls).event != Some(Event::Print('\u{7f}')),
        decoded(flags, calls).event != Some(Event::Execute(0x08)),
    decreases calls.len(),
{
    if calls.len() > 0 {
        lemma_remapped(flags, calls.drop_last());
    }
}

} // verus!
