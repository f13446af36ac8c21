use juk_com::eventparser::{get_param, Dispatch, Event, EventBuf, EventParser, Key};

fn feed(parser: &mut EventParser, bytes: &[u8]) -> Vec<Option<Event>> {
    bytes.iter().map(|b| parser.advance(*b)).collect()
}

fn key(bytes: &[u8]) -> Vec<Option<Event>> {
    let mut parser = EventParser::new();
    feed(&mut parser, bytes)
}

fn last_is_key(bytes: &[u8], expected: Key) {
    let events = key(bytes);
    let (last, before) = events.split_last().unwrap();
    assert!(before.iter().all(|e| e.is_none()), "{:?}", events);
    assert_eq!(*last, Some(Event::KeyEvent(expected)));
}

fn gives_nothing(bytes: &[u8]) {
    let events = key(bytes);
    assert!(events.iter().all(|e| e.is_none()), "{:?}", events);
}

#[test]
fn arrow_up_sequence_yields_one_key() {
    let mut parser = EventParser::new();
    assert_eq!(parser.advance(0x1b), None);
    assert_eq!(parser.advance(b'['), None);
    assert_eq!(parser.advance(b'A'), Some(Event::KeyEvent(Key::ArrowUp)));
}

#[test]
fn plain_csi_keys() {
    last_is_key(b"\x1b[A", Key::ArrowUp);
    last_is_key(b"\x1b[B", Key::ArrowDown);
    last_is_key(b"\x1b[C", Key::ArrowRight);
    last_is_key(b"\x1b[D", Key::ArrowLeft);
    last_is_key(b"\x1b[H", Key::Home);
    last_is_key(b"\x1b[F", Key::End);
}

#[test]
fn csi_keys_with_parameters() {
    last_is_key(b"\x1b[3~", Key::Delete);
    last_is_key(b"\x1b[3;5~", Key::CtrlDelete);
    last_is_key(b"\x1b[1;5C", Key::CtrlRight);
    last_is_key(b"\x1b[1;5D", Key::CtrlLeft);
    last_is_key(b"\x1b[0A", Key::ArrowUp);
}

#[test]
fn other_csi_sequences_are_dropped() {
    gives_nothing(b"\x1b[2~");
    gives_nothing(b"\x1b[1;2C");
    gives_nothing(b"\x1b[1A");
    gives_nothing(b"\x1b[Z");
    gives_nothing(b"\x1b[3;5;1~");
    gives_nothing(b"\x1b[1;5A");
}

#[test]
fn csi_with_intermediate_is_dropped() {
    gives_nothing(b"\x1b[ A");
    gives_nothing(b"\x1b[?A");
}

#[test]
fn subparameters_count_as_parameters() {
    gives_nothing(b"\x1b[0:0A");
    gives_nothing(b"\x1b[1:5C");
}

#[test]
fn printable_characters() {
    let mut parser = EventParser::new();
    assert_eq!(parser.advance(b'a'), Some(Event::Print('a')));
    assert_eq!(parser.advance(b' '), Some(Event::Print(' ')));
    assert_eq!(parser.advance(b'~'), Some(Event::Print('~')));
}

#[test]
fn multi_byte_character_is_printed_by_its_last_byte() {
    let mut parser = EventParser::new();
    let bytes = "é".as_bytes();
    assert_eq!(parser.advance(bytes[0]), None);
    assert_eq!(parser.advance(bytes[1]), Some(Event::Print('é')));
    let bytes = "€".as_bytes();
    assert_eq!(parser.advance(bytes[0]), None);
    assert_eq!(parser.advance(bytes[1]), None);
    assert_eq!(parser.advance(bytes[2]), Some(Event::Print('€')));
    let bytes = "😀".as_bytes();
    assert_eq!(parser.advance(bytes[0]), None);
    assert_eq!(parser.advance(bytes[1]), None);
    assert_eq!(parser.advance(bytes[2]), None);
    assert_eq!(parser.advance(bytes[3]), Some(Event::Print('😀')));
}

#[test]
fn del_is_backspace() {
    let mut parser = EventParser::new();
    assert_eq!(parser.advance(0x7f), Some(Event::KeyEvent(Key::Backspace)));
}

#[test]
fn bs_is_ctrl_backspace() {
    let mut parser = EventParser::new();
    assert_eq!(parser.advance(0x08), Some(Event::KeyEvent(Key::CtrlBackspace)));
}

#[test]
fn control_codes_are_executed() {
    let mut parser = EventParser::new();
    assert_eq!(parser.advance(0x03), Some(Event::Execute(0x03)));
    assert_eq!(parser.advance(0x04), Some(Event::Execute(0x04)));
    assert_eq!(parser.advance(0x07), Some(Event::Execute(0x07)));
    assert_eq!(parser.advance(0x0d), Some(Event::Execute(0x0d)));
    assert_eq!(parser.advance(0x18), Some(Event::Execute(0x18)));
    assert_eq!(parser.advance(0x00), Some(Event::Execute(0x00)));
}

#[test]
fn two_nul_bytes_terminate() {
    let mut parser = EventParser::new();
    assert!(!parser.terminated());
    assert_eq!(parser.advance(0x00), Some(Event::Execute(0x00)));
    assert!(!parser.terminated());
    assert_eq!(parser.advance(0x00), Some(Event::Execute(0x00)));
    assert!(parser.terminated());
    parser.unterminate();
    assert!(!parser.terminated());
    assert_eq!(parser.advance(0x00), Some(Event::Execute(0x00)));
    assert!(!parser.terminated());
}

#[test]
fn control_code_between_nul_bytes_prevents_termination() {
    let mut parser = EventParser::new();
    parser.advance(0x00);
    parser.advance(0x07);
    parser.advance(0x00);
    assert!(!parser.terminated());
    parser.advance(0x00);
    assert!(parser.terminated());
}

#[test]
fn character_between_nul_bytes_prevents_termination() {
    let mut parser = EventParser::new();
    parser.advance(0x00);
    parser.advance(0x41);
    parser.advance(0x00);
    assert!(!parser.terminated());
    parser.advance(0x00);
    assert!(parser.terminated());
}

#[test]
fn key_between_nul_bytes_prevents_termination() {
    let mut parser = EventParser::new();
    parser.advance(0x00);
    assert_eq!(feed(&mut parser, b"\x1b[A").last(), Some(&Some(Event::KeyEvent(Key::ArrowUp))));
    parser.advance(0x00);
    assert!(!parser.terminated());
    parser.advance(0x7f);
    parser.advance(0x00);
    assert!(!parser.terminated());
}

#[test]
fn byte_without_event_between_nul_bytes_prevents_termination() {
    let mut parser = EventParser::new();
    parser.advance(0x00);
    assert_eq!(feed(&mut parser, b"\x1b[2~"), vec![None, None, None, None]);
    parser.advance(0x00);
    assert!(!parser.terminated());
    let mut parser = EventParser::new();
    parser.advance(0x00);
    assert_eq!(parser.advance(0xe2), None);
    assert_eq!(parser.advance(0x00), Some(Event::Execute(0x00)));
    assert!(!parser.terminated());
    assert_eq!(parser.advance(0x00), Some(Event::Execute(0x00)));
    assert!(parser.terminated());
}

#[test]
fn termination_stays_until_cleared() {
    let mut parser = EventParser::new();
    parser.advance(0x00);
    parser.advance(0x00);
    parser.advance(0x07);
    parser.advance(b'x');
    assert!(parser.terminated());
}

#[test]
fn get_param_reads_first_subparameter() {
    let groups = vec![vec![3u16, 9], vec![5], vec![]];
    assert_eq!(get_param(&groups, 0), 3);
    assert_eq!(get_param(&groups, 1), 5);
    assert_eq!(get_param(&groups, 2), 0);
    assert_eq!(get_param(&groups, 3), 0);
    assert_eq!(get_param(&Vec::new(), 0), 0);
}

fn buf() -> EventBuf {
    EventBuf { event: None, terminated: false, sentinel_seen: false }
}

#[test]
fn event_buf_print() {
    let mut b = buf();
    b.print('x');
    assert_eq!(b.event, Some(Event::Print('x')));
    b.print('\u{7f}');
    assert_eq!(b.event, Some(Event::KeyEvent(Key::Backspace)));
    assert!(!b.sentinel_seen && !b.terminated);
    b.execute(0x00);
    assert!(b.sentinel_seen);
    b.print('x');
    assert!(!b.sentinel_seen && !b.terminated);
    b.execute(0x00);
    assert!(b.sentinel_seen && !b.terminated);
}

#[test]
fn event_buf_execute() {
    let mut b = buf();
    b.execute(0x00);
    assert_eq!(b.event, Some(Event::Execute(0x00)));
    assert!(b.sentinel_seen && !b.terminated);
    b.execute(0x08);
    assert_eq!(b.event, Some(Event::KeyEvent(Key::CtrlBackspace)));
    assert!(!b.sentinel_seen && !b.terminated);
    b.execute(0x00);
    b.execute(0x00);
    assert!(b.sentinel_seen && b.terminated);
    b.execute(0x01);
    assert!(!b.sentinel_seen && b.terminated);
}

#[test]
fn event_buf_csi_dispatch() {
    let none: Vec<u8> = Vec::new();
    let mut b = buf();
    b.csi_dispatch(1, &vec![vec![0]], &none, false, 'H');
    assert_eq!(b.event, Some(Event::KeyEvent(Key::Home)));
    let mut b = buf();
    b.csi_dispatch(2, &vec![vec![3], vec![5]], &none, false, '~');
    assert_eq!(b.event, Some(Event::KeyEvent(Key::CtrlDelete)));
    let mut b = buf();
    b.csi_dispatch(1, &vec![vec![0]], &none, true, 'H');
    assert_eq!(b.event, None);
    let mut b = buf();
    b.csi_dispatch(1, &vec![vec![0]], &vec![b'?'], false, 'H');
    assert_eq!(b.event, None);
    let mut b = buf();
    b.print('q');
    b.csi_dispatch(1, &vec![vec![7]], &none, false, 'H');
    assert_eq!(b.event, Some(Event::Print('q')));
    let mut b = buf();
    b.execute(0x00);
    b.csi_dispatch(1, &vec![vec![0]], &none, false, 'A');
    assert!(!b.sentinel_seen && !b.terminated);
    b.execute(0x00);
    b.csi_dispatch(1, &vec![vec![9]], &none, true, 'Z');
    assert!(!b.sentinel_seen && !b.terminated);
    assert_eq!(b.event, Some(Event::Execute(0x00)));
}

#[test]
fn digest_keeps_the_last_event() {
    let mut parser = EventParser::new();
    let calls = vec![Dispatch::Print('\u{fffd}'), Dispatch::Print('a')];
    assert_eq!(parser.digest(&calls), Some(Event::Print('a')));
    let calls = vec![
        Dispatch::Execute(0x00),
        Dispatch::Csi {
            count: 1,
            groups: vec![vec![9]],
            intermediates: Vec::new(),
            ignore: false,
            action: 'A',
        },
    ];
    assert_eq!(parser.digest(&calls), Some(Event::Execute(0x00)));
    assert_eq!(parser.digest(&Vec::new()), None);
    assert_eq!(parser.digest(&vec![Dispatch::Execute(0x00)]), Some(Event::Execute(0x00)));
    assert!(!parser.terminated());
    assert_eq!(parser.digest(&Vec::new()), None);
    assert_eq!(parser.digest(&vec![Dispatch::Execute(0x00)]), Some(Event::Execute(0x00)));
    assert!(parser.terminated());
}

#[test]
fn digest_of_interrupted_nul_reports() {
    let mut parser = EventParser::new();
    parser.digest(&vec![Dispatch::Execute(0x00)]);
    parser.digest(&vec![Dispatch::Print('A')]);
    parser.digest(&vec![Dispatch::Execute(0x00)]);
    assert!(!parser.terminated());
    let mut parser = EventParser::new();
    parser.digest(&vec![Dispatch::Execute(0x00), Dispatch::Print('A'), Dispatch::Execute(0x00)]);
    assert!(!parser.terminated());
    parser.digest(&vec![Dispatch::Execute(0x00)]);
    assert!(parser.terminated());
}

#[test]
fn broken_utf8_then_character() {
    let mut parser = EventParser::new();
    assert_eq!(parser.advance(0xe2), None);
    assert_eq!(parser.advance(b'a'), Some(Event::Print('a')));
}

#[test]
fn recorder_keeps_the_reports_in_order() {
    let mut parser = vte::Parser::new();
    let mut recorder = juk_com::eventparser::Recorder { calls: Vec::new() };
    parser.advance(&mut recorder, b"a\x07\x1b[1:2;3 m\x1b[;5~");
    assert_eq!(
        recorder.calls,
        vec![
            Dispatch::Print('a'),
            Dispatch::Execute(0x07),
            Dispatch::Csi {
                count: 3,
                groups: vec![vec![1, 2], vec![3]],
                intermediates: vec![b' '],
                ignore: false,
                action: 'm',
            },
            Dispatch::Csi {
                count: 2,
                groups: vec![vec![0], vec![5]],
                intermediates: Vec::new(),
                ignore: false,
                action: '~',
            },
        ]
    );
}
