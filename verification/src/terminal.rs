//! What the console asks of a terminal, and a model of what the terminal
//! then shows on the line of the prompt.

use vstd::prelude::*;
use vstd::utf8::*;

use crate::line::Line;

verus! {

/// One operation that the console asks the terminal to perform.
#[derive(Debug, PartialEq, Eq)]
pub enum TermOp {
    /// Write these bytes.
    Write(Vec<u8>),
    /// Move the cursor one cell to the left.
    CursorLeft,
    /// Move the cursor one cell to the right.
    CursorRight,
    /// Clear the line from the cursor to its end.
    ClearEol,
}

/// A terminal operation as a mathematical value.
pub enum Draw {
    Write(Seq<u8>),
    CursorLeft,
    CursorRight,
    ClearEol,
}

impl View for TermOp {
    type V = Draw;

    open spec fn view(&self) -> Draw {
        match self {
            TermOp::Write(bytes) => Draw::Write(bytes@),
            TermOp::CursorLeft => Draw::CursorLeft,
            TermOp::CursorRight => Draw::CursorRight,
            TermOp::ClearEol => Draw::ClearEol,
        }
    }
}

/// The operations of `ops` as mathematical values.
pub open spec fn draws(ops: Seq<TermOp>) -> Seq<Draw> {
    ops.map_values(|op: TermOp| op@)
}

/// The operation `d`, `n` times.
pub open spec fn repeat(d: Draw, n: int) -> Seq<Draw> {
    Seq::new(n as nat, |i: int| d)
}

/// The bytes that stand for an operation on a terminal that understands ANSI
/// escape sequences: `ESC [ D` moves left, `ESC [ C` moves right and
/// `ESC [ 0 K` clears to the end of the line.
pub open spec fn ansi_bytes(d: Draw) -> Seq<u8> {
    match d {
        Draw::Write(bytes) => bytes,
        Draw::CursorLeft => seq![0x1bu8, 0x5bu8, 0x44u8],
        Draw::CursorRight => seq![0x1bu8, 0x5bu8, 0x43u8],
        Draw::ClearEol => seq![0x1bu8, 0x5bu8, 0x30u8, 0x4bu8],
    }
}

impl TermOp {
    /// The bytes to write for this operation where the terminal has no
    /// other means to perform it.
    pub fn to_ansi(&self) -> (bytes: Vec<u8>)
        ensures
            bytes@ == ansi_bytes(self@),
    {
        match self {
            TermOp::Write(bytes) => bytes.clone(),
            TermOp::CursorLeft => vec![0x1bu8, 0x5bu8, 0x44u8],
            TermOp::CursorRight => vec![0x1bu8, 0x5bu8, 0x43u8],
            TermOp::ClearEol => vec![0x1bu8, 0x5bu8, 0x30u8, 0x4bu8],
        }
    }
}

/// The line of the terminal that holds the prompt: the cells after the
/// prompt, one character each, and the column of the cursor among them.
pub struct Screen {
    pub cells: Seq<char>,
    pub col: int,
}

impl Screen {
    /// The cursor is on a cell or just after the last one.
    pub open spec fn wf(self) -> bool {
        0 <= self.col <= self.cells.len()
    }

    /// The screen after `chars` are written at the cursor, each over the
    /// cell that it lands on.
    pub open spec fn put(self, chars: Seq<char>) -> Screen {
        Screen {
            cells: if self.col + chars.len() >= self.cells.len() {
                self.cells.take(self.col) + chars
            } else {
                self.cells.take(self.col) + chars + self.cells.skip(self.col + chars.len())
            },
            col: self.col + chars.len(),
        }
    }

    /// The screen after one operation. Bytes written are taken as UTF-8.
    pub open spec fn draw(self, d: Draw) -> Screen {
        match d {
            Draw::Write(bytes) => self.put(decode_utf8(bytes)),
            Draw::CursorLeft => Screen {
                cells: self.cells,
                col: if self.col > 0 {
                    self.col - 1
                } else {
                    0
                },
            },
            Draw::CursorRight => Screen { cells: self.cells, col: self.col + 1 },
            Draw::ClearEol => Screen { cells: self.cells.take(self.col), col: self.col },
        }
    }

    /// The screen after the operations `ds`, in their order.
    pub open spec fn draw_all(self, ds: Seq<Draw>) -> Screen
        decreases ds.len(),
    {
        if ds.len() == 0 {
            self
        } else {
            self.draw_all(ds.drop_last()).draw(ds.last())
        }
    }

    /// The screen shows `line`: its text in the cells and its cursor at the
    /// column.
    pub open spec fn shows(self, line: Line) -> bool {
        self.cells == line.text && self.col == line.cursor
    }
}

/// Operations performed one list after another give the screen of the two
/// lists joined.
pub proof fn lemma_draw_all_concat(s: Screen, a: Seq<Draw>, b: Seq<Draw>)
    ensures
        s.draw_all(a + b) == s.draw_all(a).draw_all(b),
    decreases b.len(),
{
    if b.len() == 0 {
        assert(a + b =~= a);
    } else {
        assert((a + b).drop_last() =~= a + b.drop_last());
        assert((a + b).last() == b.last());
        lemma_draw_all_concat(s, a, b.drop_last());
    }
}

/// A single operation performed as a list.
pub proof fn lemma_draw_all_one(s: Screen, d: Draw)
    ensures
        s.draw_all(seq![d]) == s.draw(d),
{
    assert(seq![d].drop_last() =~= Seq::<Draw>::empty());
    reveal_with_fuel(Screen::draw_all, 2);
}

/// Moving left `n` times, with at least `n` cells before the cursor, moves
/// the cursor `n` cells to the left and changes no cell.
pub proof fn lemma_draw_lefts(s: Screen, n: int)
    requires
        0 <= n <= s.col,
    ensures
        s.draw_all(repeat(Draw::CursorLeft, n)) == (Screen { cells: s.cells, col: s.col - n }),
    decreases n,
{
    if n > 0 {
        assert(repeat(Draw::CursorLeft, n).drop_last() =~= repeat(Draw::CursorLeft, n - 1));
        lemma_draw_lefts(s, n - 1);
    }
}

/// Moving right `n` times moves the cursor `n` cells to the right and
/// changes no cell.
pub proof fn lemma_draw_rights(s: Screen, n: int)
    requires
        0 <= n,
    ensures
        s.draw_all(repeat(Draw::CursorRight, n)) == (Screen { cells: s.cells, col: s.col + n }),
    decreases n,
{
    if n > 0 {
        assert(repeat(Draw::CursorRight, n).drop_last() =~= repeat(Draw::CursorRight, n - 1));
        lemma_draw_rights(s, n - 1);
    }
}

/// The views of a list with one more operation at its end.
pub proof fn lemma_draws_push(ops: Seq<TermOp>, op: TermOp)
    ensures
        draws(ops.push(op)) == draws(ops).push(op@),
{
    assert(draws(ops.push(op)) =~= draws(ops).push(op@));
}

} // verus!
