//! What the operations of the console do on the terminal: the line that the
//! terminal shows follows the line under edit.

use vstd::prelude::*;
use vstd::utf8::*;

use crate::eventparser::{Event, Key};
use crate::interface::{cursor_redraw, echo, event_effect, key_draws, key_line, line_redraw};
use crate::line::{lemma_word_bounds, Line};
use crate::terminal::{
    lemma_draw_all_concat, lemma_draw_all_one, lemma_draw_lefts, lemma_draw_rights, repeat, Draw,
    Screen,
};

verus! {

/// Writing a text puts its characters on the screen.
pub proof fn lemma_draw_echo(screen: Screen, text: Seq<char>)
    ensures
        screen.draw(echo(text)) == screen.put(text),
{
    encode_utf8_decode_utf8(text);
}

/// A redraw from the cursor, on a screen that agrees with the line up to the
/// cursor and has its cursor where the line has it: the screen then shows the
/// line, whatever stood after the cursor before, and the cursor is back in
/// its place.
pub proof fn lemma_cursor_redraw(line: Line, screen: Screen)
    requires
        line.wf(),
        screen.wf(),
        screen.col == line.cursor,
        screen.cells.take(screen.col) == line.text.take(line.cursor),
    ensures
        screen.draw_all(cursor_redraw(line)).shows(line),
{
    let tail = line.text.skip(line.cursor);
    let n = line.text.len() - line.cursor;
    let head = seq![echo(tail), Draw::ClearEol];
    let written = screen.draw(echo(tail));
    let cleared = written.draw(Draw::ClearEol);
    lemma_draw_echo(screen, tail);
    assert(screen.draw_all(head) == cleared) by {
        assert(head.drop_last() =~= seq![echo(tail)]);
        lemma_draw_all_one(screen, echo(tail));
    }
    assert(cleared.cells =~= line.text);
    assert(cleared.col == line.text.len());
    lemma_draw_all_concat(screen, head, repeat(Draw::CursorLeft, n));
    lemma_draw_lefts(cleared, n);
}

/// A redraw of the whole line, on a screen with nothing after the prompt:
/// the screen then shows the line, with the cursor in its place.
pub proof fn lemma_line_redraw(line: Line)
    requires
        line.wf(),
    ensures
        (Screen { cells: Seq::empty(), col: 0 }).draw_all(line_redraw(line)).shows(line),
{
    let screen = Screen { cells: Seq::empty(), col: 0 };
    let n = line.text.len() - line.cursor;
    let written = screen.draw(echo(line.text));
    lemma_draw_echo(screen, line.text);
    lemma_draw_all_one(screen, echo(line.text));
    assert(written.cells =~= line.text);
    lemma_draw_all_concat(screen, seq![echo(line.text)], repeat(Draw::CursorLeft, n));
    lemma_draw_lefts(written, n);
}

/// On a screen that shows the line, the operations for a key leave the
/// screen showing the line as it is after the key.
pub proof fn lemma_key_display(line: Line, key: Key, screen: Screen)
    requires
        line.wf(),
        screen.shows(line),
    ensures
        screen.draw_all(key_draws(line, key)).shows(key_line(line, key)),
        key_line(line, key).wf(),
{
    lemma_word_bounds(line);
    let t = line.text;
    let k = line.cursor;
    let after = key_line(line, key);
    match key {
        Key::ArrowUp => {},
        Key::ArrowDown => {},
        Key::ArrowRight => {
            if k < t.len() {
                lemma_draw_all_one(screen, Draw::CursorRight);
            }
        },
        Key::ArrowLeft => {
            if k > 0 {
                lemma_draw_all_one(screen, Draw::CursorLeft);
            }
        },
        Key::Home => {
            lemma_draw_lefts(screen, k);
        },
        Key::End => {
            lemma_draw_rights(screen, t.len() - k);
        },
        Key::Backspace => {
            if k > 0 {
                let moved = screen.draw(Draw::CursorLeft);
                lemma_draw_all_one(screen, Draw::CursorLeft);
                lemma_draw_all_concat(screen, seq![Draw::CursorLeft], cursor_redraw(after));
                assert(moved.cells.take(k - 1) =~= after.text.take(k - 1));
                lemma_cursor_redraw(after, moved);
            }
        },
        Key::Delete => {
            if k < t.len() {
                assert(screen.cells.take(k) =~= after.text.take(k));
                lemma_cursor_redraw(after, screen);
            }
        },
        Key::CtrlBackspace => {
            let w = line.word_start_left();
            let lefts = repeat(Draw::CursorLeft, k - w);
            let moved = Screen { cells: t, col: w };
            lemma_draw_lefts(screen, k - w);
            lemma_draw_all_concat(screen, lefts, cursor_redraw(after));
            assert(moved.cells.take(w) =~= after.text.take(w));
            lemma_cursor_redraw(after, moved);
        },
        Key::CtrlDelete => {
            assert(screen.cells.take(k) =~= after.text.take(k));
            lemma_cursor_redraw(after, screen);
        },
        Key::CtrlRight => {
            lemma_draw_rights(screen, line.word_end_right() - k);
        },
        Key::CtrlLeft => {
            lemma_draw_lefts(screen, k - line.word_start_left());
        },
    }
}

/// On a screen that shows the line, the operations for a printable character
/// leave the screen showing the line with the character inserted.
pub proof fn lemma_print_display(line: Line, c: char, screen: Screen)
    requires
        line.wf(),
        screen.shows(line),
    ensures
        screen.draw_all(event_effect(line, Event::Print(c)).draws).shows(line.insert(c)),
        line.insert(c).wf(),
{
    let after = line.insert(c);
    let k = line.cursor;
    let echoed = screen.draw(echo(seq![c]));
    lemma_draw_echo(screen, seq![c]);
    lemma_draw_all_one(screen, echo(seq![c]));
    lemma_draw_all_concat(screen, seq![echo(seq![c])], cursor_redraw(after));
    assert(echoed.cells.take(k + 1) =~= after.text.take(k + 1));
    lemma_cursor_redraw(after, echoed);
}

} // verus!
