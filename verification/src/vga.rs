//! The VGA text screen: a grid of character cells, each a glyph with a
//! foreground and background palette entry, and the hardware cursor.

use vstd::prelude::*;
use crate::cp437::{glyph_of, shows};

verus! {

/// Columns in every text mode.
pub const COLS: usize = 80;

/// The two text modes: 80x25 with the 8x16 font, 80x50 with the 8x8.
#[derive(Clone, Copy, Debug, PartialEq, Eq, Structural)]
pub enum Mode {
    Text80x25,
    Text80x50,
}

/// Rows of a mode.
pub open spec fn mode_rows(m: Mode) -> int {
    match m {
        Mode::Text80x25 => 25,
        Mode::Text80x50 => 50,
    }
}

/// One character cell.
#[derive(Clone, Copy, Debug, PartialEq, Eq, Structural)]
pub struct Cell {
    pub glyph: u8,
    pub fg: u8,
    pub bg: u8,
}

/// A blank cell: a space in light grey on black.
pub open spec fn blank() -> Cell {
    Cell { glyph: 0x20, fg: 7, bg: 0 }
}

/// The screen as its contents: mode, cells row by row, cursor cell.
pub struct ScreenView {
    pub mode: Mode,
    pub cells: Seq<Cell>,
    pub cursor: Option<(usize, usize)>,
}

impl ScreenView {
    pub open spec fn rows(self) -> int {
        mode_rows(self.mode)
    }

    /// Whether `(col, row)` is on the grid.
    pub open spec fn on(self, col: int, row: int) -> bool {
        0 <= col < COLS && 0 <= row < self.rows()
    }

    /// The cell at `(col, row)`.
    pub open spec fn at(self, col: int, row: int) -> Cell {
        self.cells[row * 80 + col]
    }

    pub open spec fn wf(self) -> bool {
        self.cells.len() == self.rows() * 80
    }

    /// The same cells as `other` everywhere except row `row`.
    pub open spec fn same_off_row(self, other: ScreenView, row: int) -> bool {
        forall|c: int, r: int| self.on(c, r) && r != row ==> #[trigger] self.at(c, r) == other.at(c, r)
    }
}

pub struct Screen {
    mode: Mode,
    cells: Vec<Cell>,
    cursor: Option<(usize, usize)>,
}

impl View for Screen {
    type V = ScreenView;

    closed spec fn view(&self) -> ScreenView {
        ScreenView { mode: self.mode, cells: self.cells@, cursor: self.cursor }
    }
}

proof fn lemma_index(col: int, row: int, rows: int)
    requires
        0 <= col < 80,
        0 <= row < rows,
    ensures
        0 <= row * 80 + col < rows * 80,
{
}

proof fn lemma_index_unique(c1: int, r1: int, c2: int, r2: int)
    requires
        0 <= c1 < 80,
        0 <= c2 < 80,
        r1 * 80 + c1 == r2 * 80 + c2,
    ensures
        c1 == c2 && r1 == r2,
{
}

impl Screen {
    /// A blank screen in `mode`, with no cursor.
    pub fn new(mode: Mode) -> (s: Screen)
        ensures
            s@.wf(),
            s@.mode == mode,
            s@.cursor is None,
            forall|c: int, r: int| s@.on(c, r) ==> #[trigger] s@.at(c, r) == blank(),
    {
        let n: usize = match mode {
            Mode::Text80x25 => 25 * 80,
            Mode::Text80x50 => 50 * 80,
        };
        let mut cells: Vec<Cell> = Vec::new();
        let mut i: usize = 0;
        while i < n
            invariant
                i <= n,
                cells@.len() == i,
                forall|k: int| 0 <= k < i ==> cells@[k] == blank(),
            decreases n - i,
        {
            cells.push(Cell { glyph: 0x20, fg: 7, bg: 0 });
            i = i + 1;
        }
        let s = Screen { mode, cells, cursor: None };
        proof {
            assert forall|c: int, r: int| s@.on(c, r) implies #[trigger] s@.at(c, r) == blank() by {
                lemma_index(c, r, s@.rows());
            }
        }
        s
    }

    pub fn mode(&self) -> (m: Mode)
        ensures
            m == self@.mode,
    {
        self.mode
    }

    /// Switching modes gives a fresh, blank screen of the new size.
    pub fn set_mode(&mut self, mode: Mode)
        ensures
            final(self)@.wf(),
            final(self)@.mode == mode,
            final(self)@.cursor is None,
            forall|c: int, r: int| final(self)@.on(c, r) ==> #[trigger] final(self)@.at(c, r) == blank(),
    {
        *self = Screen::new(mode);
    }

    pub fn rows(&self) -> (n: usize)
        ensures
            n == self@.rows(),
    {
        match self.mode {
            Mode::Text80x25 => 25,
            Mode::Text80x50 => 50,
        }
    }

    pub fn cols(&self) -> (n: usize)
        ensures
            n == COLS,
    {
        COLS
    }

    pub fn cell(&self, col: usize, row: usize) -> (c: Cell)
        requires
            self@.wf(),
            self@.on(col as int, row as int),
        ensures
            c == self@.at(col as int, row as int),
    {
        proof {
            lemma_index(col as int, row as int, self@.rows());
        }
        self.cells[row * 80 + col]
    }

    pub fn cursor(&self) -> (c: Option<(usize, usize)>)
        ensures
            c == self@.cursor,
    {
        self.cursor
    }

    pub fn set_cursor(&mut self, at: Option<(usize, usize)>)
        ensures
            final(self)@ == (ScreenView { cursor: at, ..old(self)@ }),
    {
        self.cursor = at;
    }

    /// Writes one cell; a position off the grid is ignored.
    pub fn set(&mut self, col: usize, row: usize, glyph: u8, fg: u8, bg: u8)
        requires
            old(self)@.wf(),
        ensures
            final(self)@.wf(),
            final(self)@.mode == old(self)@.mode,
            final(self)@.cursor == old(self)@.cursor,
            forall|c: int, r: int| final(self)@.on(c, r) ==> #[trigger] final(self)@.at(c, r) == if c == col
                && r == row {
                (Cell { glyph, fg, bg })
            } else {
                old(self)@.at(c, r)
            },
    {
        if col < COLS && row < self.rows() {
            proof {
                lemma_index(col as int, row as int, self@.rows());
            }
            let ghost before = self@;
            self.cells.set(row * 80 + col, Cell { glyph, fg, bg });
            proof {
                assert forall|c: int, r: int| self@.on(c, r) implies #[trigger] self@.at(c, r) == if c
                    == col && r == row {
                    (Cell { glyph, fg, bg })
                } else {
                    before.at(c, r)
                } by {
                    lemma_index(c, r, self@.rows());
                    if r * 80 + c == row * 80 + col {
                        lemma_index_unique(c, r, col as int, row as int);
                    }
                }
            }
        }
    }

    /// Swaps foreground and background of one cell, as a selection shows.
    pub fn invert(&mut self, col: usize, row: usize)
        requires
            old(self)@.wf(),
        ensures
            final(self)@.wf(),
            final(self)@.mode == old(self)@.mode,
            final(self)@.cursor == old(self)@.cursor,
            forall|c: int, r: int| final(self)@.on(c, r) ==> #[trigger] final(self)@.at(c, r) == if c == col
                && r == row {
                (Cell { glyph: old(self)@.at(c, r).glyph, fg: old(self)@.at(c, r).bg, bg: old(self)@.at(c, r).fg })
            } else {
                old(self)@.at(c, r)
            },
    {
        if col < COLS && row < self.rows() {
            let old_cell = self.cell(col, row);
            self.set(col, row, old_cell.glyph, old_cell.bg, old_cell.fg);
        }
    }

    /// Fills every cell with a space in the given colours.
    pub fn clear(&mut self, fg: u8, bg: u8)
        requires
            old(self)@.wf(),
        ensures
            final(self)@.wf(),
            final(self)@.mode == old(self)@.mode,
            final(self)@.cursor == old(self)@.cursor,
            forall|c: int, r: int| final(self)@.on(c, r) ==> #[trigger] final(self)@.at(c, r) == (Cell {
                glyph: 0x20,
                fg,
                bg,
            }),
    {
        let n = self.cells.len();
        let mut i: usize = 0;
        while i < n
            invariant
                i <= n,
                n == self.cells@.len(),
                self.cells@.len() == mode_rows(self.mode) * 80,
                self.mode == old(self).mode,
                self.cursor == old(self).cursor,
                forall|k: int| 0 <= k < i ==> self.cells@[k] == (Cell { glyph: 0x20, fg, bg }),
            decreases n - i,
        {
            self.cells.set(i, Cell { glyph: 0x20, fg, bg });
            i = i + 1;
        }
        proof {
            assert forall|c: int, r: int| self@.on(c, r) implies #[trigger] self@.at(c, r) == (Cell {
                glyph: 0x20,
                fg,
                bg,
            }) by {
                lemma_index(c, r, self@.rows());
            }
        }
    }

    /// Writes `s` from `(x, y)` rightwards, one glyph per character,
    /// clipped at the right edge.
    pub fn put_str(&mut self, x: usize, y: usize, s: &str, fg: u8, bg: u8)
        requires
            old(self)@.wf(),
        ensures
            final(self)@.wf(),
            final(self)@.mode == old(self)@.mode,
            final(self)@.cursor == old(self)@.cursor,
            final(self)@.same_off_row(old(self)@, y as int),
            forall|c: int| 0 <= c < COLS && (y as int) < old(self)@.rows() ==> {
                let cell = #[trigger] final(self)@.at(c, y as int);
                if x <= c < x + s@.len() {
                    &&& shows(cell.glyph, s@[c - x])
                    &&& cell.fg == fg
                    &&& cell.bg == bg
                } else {
                    cell == old(self)@.at(c, y as int)
                }
            },
    {
        let cs = crate::text::chars_of(s);
        self.put_chars(x, y, cs.as_slice(), fg, bg);
    }

    /// `put_str` for a run of characters.
    pub fn put_chars(&mut self, x: usize, y: usize, cs: &[char], fg: u8, bg: u8)
        requires
            old(self)@.wf(),
        ensures
            final(self)@.wf(),
            final(self)@.mode == old(self)@.mode,
            final(self)@.cursor == old(self)@.cursor,
            final(self)@.same_off_row(old(self)@, y as int),
            forall|c: int| 0 <= c < COLS && (y as int) < old(self)@.rows() ==> {
                let cell = #[trigger] final(self)@.at(c, y as int);
                if x <= c < x + cs@.len() {
                    &&& shows(cell.glyph, cs@[c - x])
                    &&& cell.fg == fg
                    &&& cell.bg == bg
                } else {
                    cell == old(self)@.at(c, y as int)
                }
            },
    {
        let ghost before = self@;
        let mut i: usize = 0;
        while i < cs.len() && x < COLS && i < COLS - x
            invariant
                i <= cs@.len(),
                x < COLS ==> i <= COLS - x,
                x >= COLS ==> i == 0,
                self@.wf(),
                self@.mode == before.mode,
                self@.cursor == before.cursor,
                self@.same_off_row(before, y as int),
                forall|c: int| 0 <= c < COLS && (y as int) < before.rows() ==> {
                    let cell = #[trigger] self@.at(c, y as int);
                    if x <= c < x + i {
                        &&& shows(cell.glyph, cs@[c - x])
                        &&& cell.fg == fg
                        &&& cell.bg == bg
                    } else {
                        cell == before.at(c, y as int)
                    }
                },
            decreases cs@.len() - i,
        {
            let g = glyph_of(cs[i]);
            self.set(x + i, y, g, fg, bg);
            i = i + 1;
        }
    }
}

} // verus!
