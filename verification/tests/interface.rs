use juk_com::eventparser::{Event, Key};
use juk_com::terminal::TermOp;
use juk_com::{Input, Interface};

const TO_BINARY: &[u8] = b"\r\nSwitching to binary mode.\r\nPress CTRL + Space twice to leave.\r\n";
const TO_TEXT: &[u8] = b"\r\nSwitching to text mode.\r\n";

fn w(bytes: &[u8]) -> TermOp {
    TermOp::Write(bytes.to_vec())
}

fn step(console: &mut Interface, byte: u8) -> (Vec<TermOp>, Option<Input>) {
    let mut ops = Vec::new();
    let input = console.dispatch(byte, &mut ops);
    (ops, input)
}

fn feed(console: &mut Interface, bytes: &[u8]) -> (Vec<TermOp>, Vec<Input>) {
    let mut ops = Vec::new();
    let mut inputs = Vec::new();
    for b in bytes {
        if let Some(input) = console.dispatch(*b, &mut ops) {
            inputs.push(input);
        }
    }
    (ops, inputs)
}

fn typed(text: &str) -> Interface {
    let mut console = Interface::new();
    let (_, inputs) = feed(&mut console, text.as_bytes());
    assert!(inputs.is_empty());
    console
}

fn binary() -> Interface {
    let mut console = Interface::new();
    feed(&mut console, &[0x00, 0x00]);
    console
}

/// The line of a terminal after the prompt, one character in each cell.
struct Screen {
    cells: Vec<char>,
    col: usize,
}

impl Screen {
    fn new() -> Self {
        Screen { cells: Vec::new(), col: 0 }
    }

    fn perform(&mut self, ops: &[TermOp]) {
        for op in ops {
            match op {
                TermOp::Write(bytes) => {
                    for c in std::str::from_utf8(bytes).unwrap().chars() {
                        if self.col < self.cells.len() {
                            self.cells[self.col] = c;
                        } else {
                            self.cells.push(c);
                        }
                        self.col += 1;
                    }
                }
                TermOp::CursorLeft => self.col -= 1,
                TermOp::CursorRight => self.col += 1,
                TermOp::ClearEol => self.cells.truncate(self.col),
            }
        }
    }

    fn text(&self) -> String {
        self.cells.iter().collect()
    }
}

#[test]
fn ctrl_d_only_on_an_empty_line() {
    let mut console = typed("abc");
    let (ops, input) = step(&mut console, 0x04);
    assert_eq!(input, None);
    assert!(ops.is_empty());
    let mut console = Interface::new();
    let (ops, input) = step(&mut console, 0x04);
    assert_eq!(input, Some(Input::EndOfTransmission));
    assert_eq!(ops, vec![w(b"^D\r\n")]);
}

#[test]
fn ctrl_d_leaves_the_line_alone() {
    let mut console = typed("abc");
    step(&mut console, 0x04);
    let (_, input) = step(&mut console, 0x0d);
    assert_eq!(input, Some(Input::Text("abc".to_string())));
}

#[test]
fn binary_frame_ends_with_the_sentinel() {
    let mut console = binary();
    let (ops, inputs) = feed(&mut console, &[0x41, 0x42, 0x00]);
    assert_eq!(inputs, vec![Input::Binary(vec![0x41, 0x42, 0x00])]);
    assert!(ops.is_empty());
}

#[test]
fn zero_byte_with_nothing_collected_changes_to_text() {
    let mut console = binary();
    let (ops, input) = step(&mut console, 0x00);
    assert_eq!(input, None);
    assert_eq!(ops, vec![w(TO_TEXT)]);
    let (_, inputs) = feed(&mut console, b"ok\r");
    assert_eq!(inputs, vec![Input::Text("ok".to_string())]);
}

#[test]
fn frames_follow_one_another() {
    let mut console = binary();
    let (ops, inputs) = feed(&mut console, &[1, 2, 0, 3, 0, 0xff, 0x1b, b'[', b'A', 0]);
    assert_eq!(
        inputs,
        vec![
            Input::Binary(vec![1, 2, 0]),
            Input::Binary(vec![3, 0]),
            Input::Binary(vec![0xff, 0x1b, b'[', b'A', 0]),
        ]
    );
    assert!(ops.is_empty());
    let (ops, inputs) = feed(&mut console, &[0]);
    assert!(inputs.is_empty());
    assert_eq!(ops, vec![w(TO_TEXT)]);
}

#[test]
fn two_nul_bytes_change_to_binary_once() {
    let mut console = Interface::new();
    let (ops, input) = step(&mut console, 0x00);
    assert_eq!(input, None);
    assert_eq!(ops, vec![w(b"^@")]);
    let (ops, input) = step(&mut console, 0x00);
    assert_eq!(input, None);
    assert_eq!(ops, vec![w(b"^@"), w(TO_BINARY)]);
    let (ops, input) = step(&mut console, b'a');
    assert_eq!(input, None);
    assert!(ops.is_empty());
    let (_, input) = step(&mut console, 0x00);
    assert_eq!(input, Some(Input::Binary(vec![b'a', 0x00])));
}

#[test]
fn nul_bytes_with_a_byte_between_them_do_not_switch() {
    let mut console = Interface::new();
    let (ops, inputs) = feed(&mut console, &[0x00, b'a', 0x00]);
    assert!(inputs.is_empty());
    assert_eq!(ops, vec![w(b"^@"), w(b"a"), w(b""), TermOp::ClearEol, w(b"^@")]);
    let (ops, _) = feed(&mut console, b"\x1b[D\x00");
    assert_eq!(ops, vec![TermOp::CursorLeft, w(b"^@")]);
    let (ops, _) = feed(&mut console, b"\x1b\x00");
    assert_eq!(ops, vec![w(b"^@")]);
    let (ops, inputs) = feed(&mut console, &[0x00]);
    assert!(inputs.is_empty());
    assert_eq!(ops, vec![w(b"^@"), w(TO_BINARY)]);
}

#[test]
fn single_nul_after_return_to_text_does_not_switch() {
    let mut console = binary();
    step(&mut console, 0x00);
    let (ops, input) = step(&mut console, 0x00);
    assert_eq!(input, None);
    assert_eq!(ops, vec![w(b"^@")]);
    let (_, inputs) = feed(&mut console, b"x\r");
    assert_eq!(inputs, vec![Input::Text("x".to_string())]);
    let (ops, _) = feed(&mut console, &[0x00, 0x00]);
    assert_eq!(ops, vec![w(b"^@"), w(b"^@"), w(TO_BINARY)]);
}

#[test]
fn the_line_survives_a_visit_to_binary() {
    let mut console = typed("keep");
    feed(&mut console, &[0x00, 0x00, 0x07, 0x00, 0x00]);
    let (_, inputs) = feed(&mut console, b"!\r");
    assert_eq!(inputs, vec![Input::Text("keep!".to_string())]);
}

#[test]
fn enter_submits_the_trimmed_line() {
    let mut console = typed("  hello world  ");
    let (ops, input) = step(&mut console, 0x0d);
    assert_eq!(input, Some(Input::Text("hello world".to_string())));
    assert_eq!(ops, vec![w(b"\r\n")]);
    let (_, input) = step(&mut console, 0x0d);
    assert_eq!(input, Some(Input::Text(String::new())));
}

#[test]
fn ctrl_c_discards_the_line() {
    let mut console = typed("abc");
    let (ops, input) = step(&mut console, 0x03);
    assert_eq!(input, Some(Input::EndOfText));
    assert_eq!(ops, vec![w(b"^C\r\n")]);
    let (_, input) = step(&mut console, 0x04);
    assert_eq!(input, Some(Input::EndOfTransmission));
}

#[test]
fn bell_and_cancel() {
    let mut console = typed("abc");
    let (ops, input) = step(&mut console, 0x07);
    assert_eq!(input, Some(Input::Bell));
    assert_eq!(ops, vec![w(b"^G\r\n")]);
    let (ops, input) = step(&mut console, 0x18);
    assert_eq!(input, Some(Input::Cancel));
    assert_eq!(ops, vec![w(b"^X\r\n")]);
    let (_, input) = step(&mut console, 0x0d);
    assert_eq!(input, Some(Input::Text("abc".to_string())));
}

#[test]
fn other_control_codes_are_ignored() {
    let mut console = typed("abc");
    for byte in [0x01u8, 0x02, 0x05, 0x06, 0x09, 0x0a, 0x0b, 0x0c, 0x0e, 0x1a, 0x1f] {
        let (ops, input) = step(&mut console, byte);
        assert_eq!(input, None);
        assert!(ops.is_empty());
    }
}

#[test]
fn printing_echoes_and_redraws() {
    let mut console = Interface::new();
    let (ops, input) = step(&mut console, b'a');
    assert_eq!(input, None);
    assert_eq!(ops, vec![w(b"a"), w(b""), TermOp::ClearEol]);
    let (ops, _) = feed(&mut console, "é".as_bytes());
    assert_eq!(ops, vec![w("é".as_bytes()), w(b""), TermOp::ClearEol]);
    feed(&mut console, b"\x1b[D\x1b[D");
    let (ops, _) = feed(&mut console, "€".as_bytes());
    assert_eq!(
        ops,
        vec![
            w("€".as_bytes()),
            w("aé".as_bytes()),
            TermOp::ClearEol,
            TermOp::CursorLeft,
            TermOp::CursorLeft
        ]
    );
    let (_, input) = step(&mut console, 0x0d);
    assert_eq!(input, Some(Input::Text("€aé".to_string())));
}

#[test]
fn arrows_move_only_where_they_can() {
    let mut console = typed("ab");
    let (ops, _) = feed(&mut console, b"\x1b[C");
    assert!(ops.is_empty());
    let (ops, _) = feed(&mut console, b"\x1b[D");
    assert_eq!(ops, vec![TermOp::CursorLeft]);
    let (ops, _) = feed(&mut console, b"\x1b[D\x1b[D\x1b[D");
    assert_eq!(ops, vec![TermOp::CursorLeft]);
    let (ops, _) = feed(&mut console, b"\x1b[C");
    assert_eq!(ops, vec![TermOp::CursorRight]);
}

#[test]
fn arrow_up_and_down_do_nothing_here() {
    let mut console = typed("ab");
    let (ops, inputs) = feed(&mut console, b"\x1b[A\x1b[B");
    assert!(ops.is_empty());
    assert!(inputs.is_empty());
    let (_, input) = step(&mut console, 0x0d);
    assert_eq!(input, Some(Input::Text("ab".to_string())));
}

#[test]
fn home_and_end_move_by_characters() {
    let mut console = typed("héllo");
    let (ops, _) = feed(&mut console, b"\x1b[H");
    assert_eq!(ops.len(), 5);
    assert!(ops.iter().all(|op| *op == TermOp::CursorLeft));
    let (ops, _) = feed(&mut console, b"\x1b[H");
    assert!(ops.is_empty());
    let (ops, _) = feed(&mut console, b"\x1b[F");
    assert_eq!(ops.len(), 5);
    assert!(ops.iter().all(|op| *op == TermOp::CursorRight));
}

#[test]
fn backspace_and_delete() {
    let mut console = typed("abc");
    feed(&mut console, b"\x1b[D");
    let (ops, _) = step(&mut console, 0x7f);
    assert_eq!(ops, vec![TermOp::CursorLeft, w(b"c"), TermOp::ClearEol, TermOp::CursorLeft]);
    let (ops, _) = feed(&mut console, b"\x1b[3~");
    assert_eq!(ops, vec![w(b""), TermOp::ClearEol]);
    let (ops, _) = feed(&mut console, b"\x1b[3~");
    assert!(ops.is_empty());
    feed(&mut console, b"\x1b[H");
    let (ops, _) = step(&mut console, 0x7f);
    assert!(ops.is_empty());
    let (_, input) = step(&mut console, 0x0d);
    assert_eq!(input, Some(Input::Text("a".to_string())));
}

#[test]
fn word_keys() {
    let mut console = typed("foo bar");
    let (ops, _) = feed(&mut console, b"\x1b[1;5D");
    assert_eq!(ops, vec![TermOp::CursorLeft, TermOp::CursorLeft, TermOp::CursorLeft]);
    let (ops, _) = step(&mut console, 0x08);
    assert_eq!(
        ops,
        vec![
            TermOp::CursorLeft,
            TermOp::CursorLeft,
            TermOp::CursorLeft,
            TermOp::CursorLeft,
            w(b"bar"),
            TermOp::ClearEol,
            TermOp::CursorLeft,
            TermOp::CursorLeft,
            TermOp::CursorLeft
        ]
    );
    let (ops, _) = step(&mut console, 0x08);
    assert_eq!(
        ops,
        vec![
            w(b"bar"),
            TermOp::ClearEol,
            TermOp::CursorLeft,
            TermOp::CursorLeft,
            TermOp::CursorLeft
        ]
    );
    let (ops, _) = feed(&mut console, b"\x1b[1;5C");
    assert_eq!(ops, vec![TermOp::CursorRight, TermOp::CursorRight, TermOp::CursorRight]);
    feed(&mut console, b"\x1b[H");
    let (ops, _) = feed(&mut console, b"\x1b[3;5~");
    assert_eq!(ops, vec![w(b""), TermOp::ClearEol]);
    let (ops, _) = feed(&mut console, b"\x1b[3;5~");
    assert_eq!(ops, vec![w(b""), TermOp::ClearEol]);
    let (_, input) = step(&mut console, 0x0d);
    assert_eq!(input, Some(Input::Text(String::new())));
}

#[test]
fn run_event_and_run_key_event() {
    let mut console = Interface::new();
    let mut ops = Vec::new();
    assert_eq!(console.run_event(Event::Print('x'), &mut ops), None);
    assert_eq!(console.run_event(Event::Print('y'), &mut ops), None);
    ops.clear();
    console.run_key_event(Key::ArrowLeft, &mut ops);
    assert_eq!(ops, vec![TermOp::CursorLeft]);
    ops.clear();
    assert_eq!(console.run_event(Event::KeyEvent(Key::Delete), &mut ops), None);
    assert_eq!(ops, vec![w(b""), TermOp::ClearEol]);
    ops.clear();
    assert_eq!(console.run_event(Event::Execute(0x04), &mut ops), None);
    assert_eq!(
        console.run_event(Event::Execute(0x0d), &mut ops),
        Some(Input::Text("x".to_string()))
    );
    assert_eq!(console.run_event(Event::Execute(0x04), &mut ops), Some(Input::EndOfTransmission));
}

#[test]
fn text_event_without_an_event_does_nothing() {
    let mut console = typed("abc");
    let mut ops = Vec::new();
    assert_eq!(console.text_event(None, &mut ops), None);
    assert!(ops.is_empty());
    assert_eq!(
        console.text_event(Some(Event::Execute(0x0d)), &mut ops),
        Some(Input::Text("abc".to_string()))
    );
}

#[test]
fn redraw_line_writes_the_line_and_places_the_cursor() {
    let mut console = typed("héllo");
    feed(&mut console, b"\x1b[D\x1b[D\x1b[D");
    let mut ops = Vec::new();
    console.redraw_line(&mut ops);
    assert_eq!(
        ops,
        vec![
            w("héllo".as_bytes()),
            TermOp::CursorLeft,
            TermOp::CursorLeft,
            TermOp::CursorLeft
        ]
    );
    let mut screen = Screen::new();
    screen.perform(&ops);
    assert_eq!(screen.text(), "héllo");
    assert_eq!(screen.col, 2);
    let console = Interface::new();
    let mut ops = Vec::new();
    console.redraw_line(&mut ops);
    assert_eq!(ops, vec![w(b"")]);
}

#[test]
fn redraw_from_cursor_repaints_the_tail() {
    let mut console = typed("héllo");
    feed(&mut console, b"\x1b[D\x1b[D");
    let mut ops = vec![TermOp::CursorRight];
    console.redraw_from_cursor(&mut ops);
    assert_eq!(
        ops,
        vec![
            TermOp::CursorRight,
            w(b"lo"),
            TermOp::ClearEol,
            TermOp::CursorLeft,
            TermOp::CursorLeft
        ]
    );
}

#[test]
fn the_screen_follows_the_line() {
    let script: &[&[u8]] = &[
        "hello wörld".as_bytes(),
        b"\x1b[D\x1b[D",
        b"\x7f",
        "€".as_bytes(),
        b"\x1b[1;5D",
        b"x+",
        b"\x1b[H",
        b"\x1b[3~",
        b"\x1b[1;5C",
        b"\x1b[3;5~",
        b" in",
        b"\x1b[F",
        b"\x08",
        b"\x08",
        b"end",
        b"\x1b[D\x1b[C\x1b[C",
        b"\x1b[H",
        b"\x1b[1;5C\x1b[1;5C",
        b"_",
    ];
    let mut console = Interface::new();
    let mut screen = Screen::new();
    let mut shown = Vec::new();
    for bytes in script {
        let (ops, inputs) = feed(&mut console, bytes);
        assert!(inputs.is_empty());
        screen.perform(&ops);
        shown.push((screen.text(), screen.col));
    }
    assert_eq!(
        shown,
        vec![
            ("hello wörld".to_string(), 11),
            ("hello wörld".to_string(), 9),
            ("hello wöld".to_string(), 8),
            ("hello wö€ld".to_string(), 9),
            ("hello wö€ld".to_string(), 8),
            ("hello wöx+€ld".to_string(), 10),
            ("hello wöx+€ld".to_string(), 0),
            ("ello wöx+€ld".to_string(), 0),
            ("ello wöx+€ld".to_string(), 4),
            ("ello+€ld".to_string(), 4),
            ("ello in+€ld".to_string(), 7),
            ("ello in+€ld".to_string(), 11),
            ("ello in+€".to_string(), 9),
            ("ello in+".to_string(), 8),
            ("ello in+end".to_string(), 11),
            ("ello in+end".to_string(), 11),
            ("ello in+end".to_string(), 0),
            ("ello in+end".to_string(), 7),
            ("ello in_+end".to_string(), 8),
        ]
    );
    let (_, input) = step(&mut console, 0x0d);
    assert_eq!(input, Some(Input::Text("ello in_+end".to_string())));
}

#[test]
fn ansi_bytes_of_the_operations() {
    assert_eq!(TermOp::CursorLeft.to_ansi(), b"\x1b[D".to_vec());
    assert_eq!(TermOp::CursorRight.to_ansi(), b"\x1b[C".to_vec());
    assert_eq!(TermOp::ClearEol.to_ansi(), b"\x1b[0K".to_vec());
    assert_eq!(w(b"ab\r\n").to_ansi(), b"ab\r\n".to_vec());
}
