//! Application state: the document, where it is on screen, and the
//! interpretation of every command.

use vstd::prelude::*;
use crate::cp437::{accept_text, typed};
use crate::editor::{Editor, EditorView, word_left_of, word_right_of, words};
use crate::input::{Input, InputView, Purpose};
use crate::keymap::{Command, Motion};
use crate::menu::{self, Menu, MenuState, table_ok, table_view, the_menus};
use crate::overlay::{Overlay, Prompt, box_painted, draw_centered, in_box};
use crate::paint::{
    field_cursor, field_painted, field_region, menu_painted, menu_region, paint_field, paint_menu, paint_print,
    paint_status_row, paint_text, print_painted, status_cell, text_cell,
};
use crate::status::{dos_path_of, measure_of, right_field_of};
use crate::print::{self, Request, Scope};
use crate::text::{chars_of, decimal, is_space, push_chars, push_decimal, repeat, space, string_of};
use crate::vga::{Mode, Screen, ScreenView};
use crate::wrap::{self, VisualLine, is_wrap, line_of, lines_ok, offset_at_spec, TEXT_COLS, TEXT_TOP, TEXT_LEFT};

verus! {

/// Body text and status line colours.
pub const FG: u8 = 7;
/// The screen's background. The shell also paints the letterbox slack
/// around the picture in it, so the blue runs to the window's edge.
pub const BG: u8 = 1;
pub const STATUS_FG: u8 = 15;
/// Columns of clearance at each end of the status line.
pub const STATUS_MARGIN: usize = 2;
/// The cursor holds steady this long after the last keystroke, so it
/// never flickers while you are actually writing.
pub const CURSOR_STEADY_MS: u64 = 1000;
/// Half-period of the idle blink: about 1.2Hz, slow enough to read as
/// breathing rather than flashing.
pub const CURSOR_BLINK_MS: u64 = 420;
/// Tab stops every eight columns.
pub const TAB_STOP: usize = 8;
/// How long the word count and notices borrow the status line.
pub const READOUT_MS: u64 = 3000;

/// Shown by Shift-F1. The keys stay discoverable without a permanent
/// hint bar eating a row of the writing surface forever.
pub const HELP_TEXT: &'static str = "F1 or Esc  Menu bar        Alt-=  Menu bar

Cmd-N  New            Cmd-Z  Undo
Cmd-O  Open           Cmd-Shift-Z  Redo
Cmd-S  Save           Cmd-A  Select all
Cmd-Shift-S  Save as  Cmd-C / X / V  Copy, cut, paste
Cmd-Q  Quit           Cmd-P  Print

Opt-Arrow  By word    Cmd-Arrow  Line or document
F3  CRT effects       F5  80x25 / 80x50
F6  Word count        F11  Fullscreen
F7  Exit              F10  Save As
Shft-F7  Print        Shft-F10  Retrieve
Shft-F1  This help

Esc  Close this";

/// The question asked before quitting with unsaved changes.
pub const QUIT_QUESTION: &'static str = "Save changes to this document? (Y/N)";

/// The application as its contents.
pub struct AppView {
    pub editor: EditorView,
    pub screen: ScreenView,
    pub path: Option<Seq<char>>,
    pub crlf: bool,
    /// First visual line shown in the viewport.
    pub viewport_top: nat,
    /// The wrap of the whole document.
    pub lines: Seq<VisualLine>,
    /// Column the cursor is trying to keep while moving vertically.
    pub goal_col: Option<usize>,
    /// Last clock reading handed to `paint_at`.
    pub now_ms: u64,
    /// When the user last did anything, for the blink hold-off.
    pub last_input_ms: u64,
    pub overlay: Overlay,
    /// The word count replaces the status readout until this moment.
    pub word_count_until: u64,
    /// A value entered in a modal, waiting for the shell.
    pub submitted: Option<(Purpose, Seq<char>)>,
    /// A command the menu fired that only the shell can carry out.
    pub deferred: Option<Command>,
    /// What the print screen asked for, waiting for the shell.
    pub print_request: Option<Request>,
    /// A short readout that borrows the status line's right field.
    pub notice: Option<(Seq<char>, u64)>,
    pub status_line: bool,
    pub effects: bool,
    pub fullscreen: bool,
    pub should_quit: bool,
    pub menus: Seq<Menu>,
}

/// The least scrolling that shows `line` in `rows` rows from `top`.
pub open spec fn top_showing(top: int, line: int, rows: int) -> nat {
    if line < top {
        line as nat
    } else if line >= top + rows {
        (line + 1 - rows) as nat
    } else {
        top as nat
    }
}

/// Where `motion` takes the caret of `e`, whose wrap is `lines`, from
/// visual line `line` with `rows` rows on screen, keeping column `goal`
/// on vertical moves.
pub open spec fn motion_dest(e: EditorView, lines: Seq<VisualLine>, motion: Motion, goal: int, line: int, rows: int) -> int {
    let c = e.cursor as int;
    match motion {
        Motion::Left => if c > 0 { c - 1 } else { 0 },
        Motion::Right => if c + 1 <= e.text.len() { c + 1 } else { e.text.len() as int },
        Motion::WordLeft => word_left_of(e.text, c),
        Motion::WordRight => word_right_of(e.text, c),
        Motion::LineStart => offset_at_spec(lines, line, 0),
        Motion::LineEnd => offset_at_spec(lines, line, usize::MAX as int),
        Motion::DocStart => 0,
        Motion::DocEnd => e.text.len() as int,
        Motion::Up => offset_at_spec(lines, if line > 0 { line - 1 } else { 0 }, goal),
        Motion::Down => offset_at_spec(lines, line + 1, goal),
        Motion::PageUp => offset_at_spec(lines, if line > rows { line - rows } else { 0 }, goal),
        Motion::PageDown => offset_at_spec(lines, line + rows, goal),
    }
}

/// Motions that move between lines and so keep a goal column.
pub open spec fn is_vertical(m: Motion) -> bool {
    m is Up || m is Down || m is PageUp || m is PageDown
}

impl AppView {
    /// Rows of the grid available for text: everything but the top
    /// margin and the status line.
    pub open spec fn text_rows(self) -> int {
        self.screen.rows() - (if self.status_line { 1int } else { 0int }) - TEXT_TOP
    }

    /// The visual line of the caret.
    pub open spec fn cursor_line(self) -> int {
        line_of(self.lines, self.editor.cursor as int)
    }

    /// The caret's column within its visual line.
    pub open spec fn cursor_col(self) -> int {
        self.editor.cursor - self.lines[self.cursor_line()].start
    }

    /// The caret's line is in the viewport.
    pub open spec fn shows_cursor(self) -> bool {
        self.viewport_top <= self.cursor_line() < self.viewport_top + self.text_rows()
    }

    /// Where `motion` takes the caret, keeping column `goal` on
    /// vertical moves.
    pub open spec fn target(self, motion: Motion, goal: int) -> int {
        motion_dest(self.editor, self.lines, motion, goal, self.cursor_line(), self.text_rows())
    }

    /// `new` is this state after the document became `e`: rewrapped,
    /// the goal column forgotten, and scrolled just enough to show the
    /// caret.
    pub open spec fn after_edit(self, e: EditorView, new: AppView) -> bool {
        &&& is_wrap(e.text, TEXT_COLS as int, new.lines)
        &&& new == AppView {
            editor: e,
            lines: new.lines,
            goal_col: None,
            viewport_top: top_showing(self.viewport_top as int, line_of(new.lines, e.cursor as int), self.text_rows()),
            ..self
        }
    }

    /// `new` is this state after moving the caret by `motion`.
    pub open spec fn after_move(self, motion: Motion, extend: bool, new: AppView) -> bool {
        let col = self.cursor_col();
        let goal = if is_vertical(motion) {
            match self.goal_col {
                Some(g) => g as int,
                None => col,
            }
        } else {
            col
        };
        let e = self.editor.moved(self.target(motion, goal) as nat, extend);
        new == AppView {
            editor: e,
            goal_col: if is_vertical(motion) { Some(goal as usize) } else { None },
            viewport_top: top_showing(self.viewport_top as int, line_of(self.lines, e.cursor as int), self.text_rows()),
            ..self
        }
    }

    /// The character offset under the grid cell `(col, row)`.
    pub open spec fn cell_offset(self, col: int, row: int) -> int {
        let line = self.viewport_top + (if row > TEXT_TOP { row - TEXT_TOP } else { 0 });
        if line >= self.lines.len() {
            self.editor.text.len() as int
        } else {
            offset_at_spec(self.lines, line, if col > TEXT_LEFT { col - TEXT_LEFT } else { 0 })
        }
    }

    /// The viewport's first line after scrolling by `by` lines, held
    /// between the top of the document and the last full screen.
    pub open spec fn scrolled(self, by: int) -> nat {
        let rows = self.text_rows();
        let max_top = if self.lines.len() > rows { self.lines.len() - rows } else { 0 };
        let next = self.viewport_top + by;
        if next < 0 { 0 } else if next > max_top { max_top as nat } else { next as nat }
    }

    /// `new` is this state after `cmd` reached the document.
    pub open spec fn doc_applied(self, cmd: Command, now: u64, new: AppView) -> bool {
        match cmd {
            Command::Insert(text) => if typed(text@).len() == 0 {
                new == self
            } else {
                self.after_edit(self.editor.inserted(typed(text@)), new)
            },
            Command::Newline => self.after_edit(self.editor.inserted(seq!['\n']), new),
            Command::Tab => self.after_edit(
                self.editor.inserted(repeat(' ', (TAB_STOP - self.cursor_col() % (TAB_STOP as int)) as nat)),
                new,
            ),
            Command::Backspace => self.after_edit(self.editor.backspaced(), new),
            Command::DeleteForward => self.after_edit(self.editor.deleted(), new),
            Command::Move { motion, extend } => self.after_move(motion, extend, new),
            Command::SelectAll => new == AppView {
                editor: self.editor.moved(0, false).moved(self.editor.text.len(), true),
                ..self
            },
            Command::Undo => if self.editor.past.len() > 0 {
                self.after_edit(self.editor.undone(), new)
            } else {
                new == self
            },
            Command::Redo => if self.editor.future.len() > 0 {
                self.after_edit(self.editor.redone(), new)
            } else {
                new == self
            },
            Command::MenuBar | Command::Dismiss => new == AppView {
                overlay: Overlay::Menu(MenuState { menu: 0, item: None }),
                ..self
            },
            Command::Quit => if self.editor.is_dirty() {
                &&& new.overlay matches Overlay::Confirm { prompt, body } && prompt == Prompt::QuitUnsaved
                    && body@ == QUIT_QUESTION@
                &&& new == AppView { overlay: new.overlay, ..self }
            } else {
                new == AppView { should_quit: true, ..self }
            },
            Command::ToggleHelp => {
                &&& new.overlay matches Overlay::Message { title, body, danger } && title@ == "Help"@
                    && body@ == HELP_TEXT@ && !danger
                &&& new == AppView { overlay: new.overlay, ..self }
            },
            Command::ShowWordCount => new == AppView { word_count_until: (now + READOUT_MS) as u64, ..self },
            Command::ToggleDenseMode => {
                &&& new.screen.wf()
                &&& new.screen.mode == if self.screen.mode == Mode::Text80x50 {
                    Mode::Text80x25
                } else {
                    Mode::Text80x50
                }
                &&& new == AppView {
                    screen: new.screen,
                    viewport_top: top_showing(self.viewport_top as int, self.cursor_line(), new.text_rows()),
                    ..self
                }
            },
            Command::ToggleEffects => new == AppView { effects: !self.effects, ..self },
            Command::ToggleStatusLine => {
                let flipped = AppView { status_line: !self.status_line, ..self };
                new == AppView {
                    viewport_top: top_showing(self.viewport_top as int, self.cursor_line(), flipped.text_rows()),
                    ..flipped
                }
            },
            Command::ToggleFullscreen => new == AppView { fullscreen: !self.fullscreen, ..self },
            Command::Copy | Command::Cut | Command::Paste | Command::New | Command::Open | Command::Retrieve
            | Command::Save | Command::SaveAs | Command::Print => new == AppView {
                deferred: Some(cmd),
                ..self
            },
        }
    }
}

/// Where a key leaves an open menu: still open in a new state, or closed.
pub open spec fn menu_next(s: MenuState, t: Seq<Menu>, cmd: Command) -> Option<MenuState> {
    match cmd {
        Command::Move { motion: Motion::Left, .. } => Some(s.left_of(t)),
        Command::Move { motion: Motion::Right, .. } => Some(s.right_of(t)),
        Command::Move { motion: Motion::Up, .. } => Some(s.up_of(t)),
        Command::Move { motion: Motion::Down, .. } => Some(s.down_of(t)),
        Command::Newline => if s.activate_fires(t) is Some {
            None
        } else {
            Some(s.activated())
        },
        Command::Insert(text) => if text@.len() == 0 {
            Some(s)
        } else if s.letter_fires(t, text@[0]) is Some {
            None
        } else {
            Some(s.after_letter(t, text@[0]))
        },
        Command::Dismiss => if s.item is Some {
            Some(MenuState { item: None, ..s })
        } else {
            None
        },
        _ => None,
    }
}

/// The command a key fires from an open menu, if any.
pub open spec fn menu_fires(s: MenuState, t: Seq<Menu>, cmd: Command) -> Option<Command> {
    match cmd {
        Command::Newline => s.activate_fires(t),
        Command::Insert(text) => if text@.len() == 0 {
            None
        } else {
            s.letter_fires(t, text@[0])
        },
        _ => None,
    }
}

/// Whether `v` is nothing but whitespace.
pub open spec fn blank(v: Seq<char>) -> bool {
    forall|i: int| 0 <= i < v.len() ==> is_space(#[trigger] v[i])
}

/// How a key changes an open field, if it leaves the field open.
pub open spec fn field_next(f: InputView, cmd: Command) -> Option<InputView> {
    match cmd {
        Command::Insert(text) => Some(
            InputView { value: f.value.take(f.cursor as int) + text@ + f.value.skip(f.cursor as int), cursor: f.cursor + text@.len(), ..f },
        ),
        Command::Backspace => Some(
            if f.cursor > 0 {
                InputView { value: f.value.remove(f.cursor - 1), cursor: (f.cursor - 1) as nat, ..f }
            } else {
                f
            },
        ),
        Command::DeleteForward => Some(
            if f.cursor < f.value.len() {
                InputView { value: f.value.remove(f.cursor as int), ..f }
            } else {
                f
            },
        ),
        Command::Move { motion: Motion::Left, .. } => Some(
            InputView { cursor: if f.cursor > 0 { (f.cursor - 1) as nat } else { 0 }, ..f },
        ),
        Command::Move { motion: Motion::Right, .. } => Some(
            InputView { cursor: if f.cursor < f.value.len() { f.cursor + 1 } else { f.cursor }, ..f },
        ),
        Command::Move { motion: Motion::LineStart, .. } => Some(InputView { cursor: 0, ..f }),
        Command::Move { motion: Motion::LineEnd, .. } => Some(InputView { cursor: f.value.len(), ..f }),
        Command::Newline | Command::Dismiss => None,
        _ => Some(f),
    }
}

/// The print screen's choice for a key: the digit typed, `0` for Enter
/// or Esc.
pub open spec fn print_choice(cmd: Command) -> Option<char> {
    match cmd {
        Command::Insert(text) => if text@.len() > 0 { Some(text@[0]) } else { None },
        Command::Dismiss | Command::Newline => Some('0'),
        _ => None,
    }
}

impl AppView {
    /// `new` is this state after `cmd` reached the open menu `s`.
    pub open spec fn menu_applied(self, s: MenuState, cmd: Command, now: u64, new: AppView) -> bool {
        let mid = AppView {
            overlay: match menu_next(s, self.menus, cmd) {
                Some(s2) => Overlay::Menu(s2),
                None => Overlay::Closed,
            },
            ..self
        };
        match menu_fires(s, self.menus, cmd) {
            Some(c) => mid.doc_applied(c, now, new),
            None => new == mid,
        }
    }

    /// `new` is this state after `cmd` reached the open field `f`.
    pub open spec fn field_applied(self, f: InputView, cmd: Command, new: AppView) -> bool {
        match field_next(f, cmd) {
            Some(g) => new.overlay matches Overlay::Field(h) && h@ == g && new == AppView { overlay: new.overlay, ..self },
            None => new == AppView {
                overlay: Overlay::Closed,
                submitted: if cmd is Newline && !blank(f.value) {
                    Some((f.purpose, f.value))
                } else {
                    self.submitted
                },
                ..self
            },
        }
    }

    /// `new` is this state after `cmd` reached the print screen.
    pub open spec fn print_applied(self, cmd: Command, new: AppView) -> bool {
        let page = Scope::Page((self.cursor_line() / 54) as usize);
        match print_choice(cmd) {
            Some('1') => new == AppView { print_request: Some(Request::Printer(Scope::Full)), overlay: Overlay::Closed, ..self },
            Some('2') => new == AppView { print_request: Some(Request::Printer(page)), overlay: Overlay::Closed, ..self },
            Some('3') => new == AppView { print_request: Some(Request::ToFile(Scope::Full)), overlay: Overlay::Closed, ..self },
            Some('0') => new == AppView { overlay: Overlay::Closed, ..self },
            _ => new == self,
        }
    }

    /// Whether `cmd` starts the word-count readout, which runs for
    /// `READOUT_MS` from the moment of the key: typed in the document, or
    /// fired from the menu.
    pub open spec fn starts_word_count(self, cmd: Command) -> bool {
        match self.overlay {
            Overlay::Closed => cmd is ShowWordCount,
            Overlay::Menu(s) => menu_fires(s, self.menus, cmd) == Some(Command::ShowWordCount),
            _ => false,
        }
    }

    /// `new` is this state after the command `cmd` at `now`: whatever
    /// holds the focus takes the key first.
    pub open spec fn applied(self, cmd: Command, now: u64, new: AppView) -> bool {
        let o = AppView { last_input_ms: now, ..self };
        match self.overlay {
            Overlay::Menu(s) => o.menu_applied(s, cmd, now, new),
            Overlay::Field(f) => o.field_applied(f@, cmd, new),
            Overlay::Print { .. } => o.print_applied(cmd, new),
            Overlay::Message { .. } | Overlay::Confirm { .. } => if cmd is Dismiss {
                new == AppView { overlay: Overlay::Closed, ..o }
            } else {
                new == o
            },
            Overlay::Closed => o.doc_applied(cmd, now, new),
        }
    }
}

impl AppView {
    /// Whether the caret is lit at `now`: solid for a moment after the
    /// last input, then a slow blink.
    pub open spec fn blink_on(self, now: u64) -> bool {
        let since = if now >= self.last_input_ms { now - self.last_input_ms } else { 0 };
        since < CURSOR_STEADY_MS || ((since - CURSOR_STEADY_MS) / (CURSOR_BLINK_MS as int)) % 2 == 0
    }

    /// The status line's right field: a notice while it lasts, then the
    /// word count while that lasts, otherwise where the caret sits on
    /// the printed page.
    pub open spec fn readout(self) -> Seq<char> {
        let count = decimal(words(self.editor.text)) + " words"@;
        let pos = right_field_of(measure_of(self.cursor_line(), self.cursor_col()));
        let rest = if self.now_ms < self.word_count_until { count } else { pos };
        match self.notice {
            Some((text, until)) => if self.now_ms < until { text } else { rest },
            None => rest,
        }
    }

    /// What the document and status line put at `(c, r)`.
    pub open spec fn base_cell(self, c: int, r: int, cell: crate::vga::Cell) -> bool {
        if self.status_line && r == self.screen.rows() - 1 {
            status_cell(dos_path_of(self.path, self.editor.is_dirty()), self.readout(), c, cell)
        } else {
            text_cell(
                self.editor.text,
                self.lines,
                self.viewport_top as int,
                self.text_rows(),
                self.editor.selection(),
                c,
                r,
                cell,
            )
        }
    }

    /// Whether the open overlay covers `(c, r)`.
    pub open spec fn covered(self, c: int, r: int) -> bool {
        let rows = self.screen.rows();
        match self.overlay {
            Overlay::Closed => false,
            Overlay::Menu(s) => menu_region(s, self.menus, c, r),
            Overlay::Field(f) => field_region(f@, rows, c, r),
            Overlay::Message { title, body, .. } => in_box(title@, body@, rows, c, r),
            Overlay::Confirm { body, .. } => in_box(""@, body@, rows, c, r),
            Overlay::Print { .. } => true,
        }
    }

    /// The document's cursor: at the caret when it is lit, nothing is
    /// selected and its line is on screen.
    pub open spec fn doc_cursor(self, blink: bool) -> Option<(usize, usize)> {
        if blink && self.editor.selection() is None && self.shows_cursor() {
            Some(((TEXT_LEFT + self.cursor_col()) as usize, (TEXT_TOP + self.cursor_line() - self.viewport_top) as usize))
        } else {
            None
        }
    }

    /// `s` is this state painted with the cursor lit or not: the document
    /// and status line wherever no overlay covers them, the overlay on
    /// top, and the cursor wherever the focus is. The print screen
    /// replaces everything.
    pub open spec fn painted(self, blink: bool, s: ScreenView) -> bool {
        let rows = self.screen.rows();
        match self.overlay {
            Overlay::Print { printer } => print_painted(
                str_view(printer),
                crate::print::pages_for(self.lines.len() as int) as nat,
                (self.cursor_line() / 54 + 1) as nat,
                s,
            ),
            _ => {
                &&& forall|c: int, r: int| s.on(c, r) && !self.covered(c, r) ==> self.base_cell(c, r, #[trigger] s.at(c, r))
                &&& s.cursor == match self.overlay {
                    Overlay::Field(f) => if blink { Some(field_cursor(f@, rows)) } else { None },
                    _ => self.doc_cursor(blink),
                }
                &&& match self.overlay {
                    Overlay::Menu(m) => menu_painted(m, self.menus, s),
                    Overlay::Field(f) => field_painted(f@, rows, s),
                    Overlay::Message { title, body, .. } => box_painted(title@, body@, s),
                    Overlay::Confirm { body, .. } => box_painted(""@, body@, s),
                    _ => true,
                }
            },
        }
    }
}

/// `top_showing` puts `line` within the `rows` rows it starts.
proof fn lemma_top_showing(top: int, line: int, rows: int)
    requires
        0 <= top,
        0 <= line,
        rows > 0,
    ensures
        top_showing(top, line, rows) <= line < top_showing(top, line, rows) + rows,
{
}

/// Every text-changing command leaves the caret's line in view: the
/// viewport follows the caret down and back up.
pub proof fn law_an_edit_shows_the_caret(v: AppView, e: EditorView, new: AppView)
    requires
        v.after_edit(e, new),
    ensures
        new.shows_cursor(),
{
    wrap::lemma_wrap_ok(e.text, TEXT_COLS as int, new.lines);
    wrap::lemma_line_exists(new.lines, e.text.len() as int, e.cursor as int);
    lemma_top_showing(v.viewport_top as int, line_of(new.lines, e.cursor as int), v.text_rows());
}

/// Every caret movement leaves the caret's line in view.
pub proof fn law_a_move_shows_the_caret(v: AppView, motion: Motion, extend: bool, new: AppView)
    requires
        is_wrap(v.editor.text, TEXT_COLS as int, v.lines),
        v.after_move(motion, extend, new),
    ensures
        new.shows_cursor(),
{
    wrap::lemma_wrap_ok(v.editor.text, TEXT_COLS as int, v.lines);
    wrap::lemma_line_exists(v.lines, v.editor.text.len() as int, new.editor.cursor as int);
    lemma_top_showing(v.viewport_top as int, line_of(v.lines, new.editor.cursor as int), v.text_rows());
}

/// A caret in view stays in view whatever reaches the document, switching
/// screen modes and the status line included. Select All is the one
/// command that moves the caret without scrolling.
pub proof fn law_the_caret_stays_in_view(v: AppView, cmd: Command, now: u64, new: AppView)
    requires
        is_wrap(v.editor.text, TEXT_COLS as int, v.lines),
        v.shows_cursor(),
        v.doc_applied(cmd, now, new),
        !(cmd is SelectAll),
    ensures
        new.shows_cursor(),
{
    wrap::lemma_wrap_ok(v.editor.text, TEXT_COLS as int, v.lines);
    wrap::lemma_line_exists(v.lines, v.editor.text.len() as int, v.editor.cursor as int);
    match cmd {
        Command::Insert(text) => {
            if typed(text@).len() != 0 {
                law_an_edit_shows_the_caret(v, v.editor.inserted(typed(text@)), new);
            }
        },
        Command::Newline => law_an_edit_shows_the_caret(v, v.editor.inserted(seq!['\n']), new),
        Command::Tab => law_an_edit_shows_the_caret(
            v,
            v.editor.inserted(repeat(' ', (TAB_STOP - v.cursor_col() % (TAB_STOP as int)) as nat)),
            new,
        ),
        Command::Backspace => law_an_edit_shows_the_caret(v, v.editor.backspaced(), new),
        Command::DeleteForward => law_an_edit_shows_the_caret(v, v.editor.deleted(), new),
        Command::Move { motion, extend } => law_a_move_shows_the_caret(v, motion, extend, new),
        Command::Undo => {
            if v.editor.past.len() > 0 {
                law_an_edit_shows_the_caret(v, v.editor.undone(), new);
            }
        },
        Command::Redo => {
            if v.editor.future.len() > 0 {
                law_an_edit_shows_the_caret(v, v.editor.redone(), new);
            }
        },
        Command::ToggleDenseMode => {
            lemma_top_showing(v.viewport_top as int, v.cursor_line(), new.text_rows());
        },
        Command::ToggleStatusLine => {
            lemma_top_showing(v.viewport_top as int, v.cursor_line(), new.text_rows());
        },
        _ => {},
    }
}

/// A command reaching the document leaves the input clock alone.
proof fn lemma_doc_keeps_the_clock(v: AppView, cmd: Command, now: u64, new: AppView)
    requires
        v.doc_applied(cmd, now, new),
    ensures
        new.last_input_ms == v.last_input_ms,
{
}

/// The cursor holds perfectly steady while you type and for a moment
/// after: whatever the command, and whatever has the focus, it is lit
/// from the keystroke until `CURSOR_STEADY_MS` later.
pub proof fn law_the_cursor_holds_steady_after_input(v: AppView, cmd: Command, now: u64, new: AppView, later: u64)
    requires
        v.applied(cmd, now, new),
        now <= later < now + CURSOR_STEADY_MS,
    ensures
        new.blink_on(later),
{
    let o = AppView { last_input_ms: now, ..v };
    match v.overlay {
        Overlay::Menu(s) => {
            let mid = AppView {
                overlay: match menu_next(s, o.menus, cmd) {
                    Some(s2) => Overlay::Menu(s2),
                    None => Overlay::Closed,
                },
                ..o
            };
            if let Some(c) = menu_fires(s, o.menus, cmd) {
                lemma_doc_keeps_the_clock(mid, c, now, new);
            }
        },
        Overlay::Closed => lemma_doc_keeps_the_clock(o, cmd, now, new),
        _ => {},
    }
    assert(new.last_input_ms == now);
}

/// Esc closes any box without acting on it: nothing is submitted,
/// printed or changed in the document. In the menu it backs out one
/// level at a time, from a dropdown to the bar and from the bar out.
pub proof fn law_escape_closes_any_box(v: AppView, now: u64, new: AppView)
    requires
        !(v.overlay is Closed),
        v.applied(Command::Dismiss, now, new),
    ensures
        new.overlay == match v.overlay {
            Overlay::Menu(s) => if s.item is Some {
                Overlay::Menu(MenuState { item: None, ..s })
            } else {
                Overlay::Closed
            },
            _ => Overlay::Closed,
        },
        new.editor == v.editor,
        new.submitted == v.submitted,
        new.print_request == v.print_request,
        new.deferred == v.deferred,
        !new.should_quit || v.should_quit,
{
}

/// A message or a question swallows every key but Esc: nothing reaches
/// the document, nothing is handed to the shell, and the box stays
/// until Esc closes it.
pub proof fn law_a_message_box_swallows_keys(v: AppView, cmd: Command, now: u64, new: AppView)
    requires
        v.overlay is Message || v.overlay is Confirm,
        v.applied(cmd, now, new),
    ensures
        new.editor == v.editor,
        new.should_quit == v.should_quit,
        new.deferred == v.deferred,
        new.submitted == v.submitted,
        new.print_request == v.print_request,
        new.overlay == if cmd is Dismiss { Overlay::Closed } else { v.overlay },
{
}

/// Is `cmd` one of the switches the View menu flips?
pub open spec fn is_toggle(cmd: Command) -> bool {
    cmd is ToggleEffects || cmd is ToggleFullscreen || cmd is ToggleStatusLine || cmd is ToggleDenseMode
}

/// A switch flips exactly its own setting and leaves the document alone;
/// flipping it again puts every setting, and the rows for text, back.
pub proof fn law_a_switch_flips_one_setting(v: AppView, cmd: Command, now: u64, mid: AppView, later: u64, new: AppView)
    requires
        v.overlay is Closed,
        is_toggle(cmd),
        v.applied(cmd, now, mid),
        mid.applied(cmd, later, new),
    ensures
        mid.effects == (if cmd is ToggleEffects { !v.effects } else { v.effects }),
        mid.fullscreen == (if cmd is ToggleFullscreen { !v.fullscreen } else { v.fullscreen }),
        mid.status_line == (if cmd is ToggleStatusLine { !v.status_line } else { v.status_line }),
        (mid.screen.mode == Mode::Text80x50) == (if cmd is ToggleDenseMode {
            v.screen.mode != Mode::Text80x50
        } else {
            v.screen.mode == Mode::Text80x50
        }),
        mid.editor == v.editor,
        new.effects == v.effects,
        new.fullscreen == v.fullscreen,
        new.status_line == v.status_line,
        new.screen.mode == v.screen.mode,
        new.text_rows() == v.text_rows(),
        new.editor == v.editor,
{
}

/// While a field, the print screen or a message box is open, no key
/// reaches the document: the text, its wrap and the viewport stay as
/// they were.
pub proof fn law_an_open_box_keeps_the_document(v: AppView, cmd: Command, now: u64, new: AppView)
    requires
        !(v.overlay is Closed),
        !(v.overlay is Menu),
        v.applied(cmd, now, new),
    ensures
        new.editor == v.editor,
        new.lines == v.lines,
        new.viewport_top == v.viewport_top,
{
}

} // verus!

verus! {

pub open spec fn str_view(o: Option<String>) -> Option<Seq<char>> {
    match o {
        Some(s) => Some(s@),
        None => None,
    }
}

/// A menu state lies within the table; a field holds together.
pub open spec fn overlay_ok(o: Overlay, t: Seq<Menu>) -> bool {
    &&& (o matches Overlay::Menu(s) ==> s.ok(t))
    &&& (o matches Overlay::Field(f) ==> f@.wf())
}

pub struct App {
    editor: Editor,
    screen: Screen,
    path: Option<String>,
    crlf: bool,
    viewport_top: usize,
    lines: Vec<VisualLine>,
    goal_col: Option<usize>,
    now_ms: u64,
    last_input_ms: u64,
    overlay: Overlay,
    word_count_until: u64,
    submitted: Option<(Purpose, String)>,
    deferred: Option<Command>,
    print_request: Option<Request>,
    notice: Option<(String, u64)>,
    status_line: bool,
    effects: bool,
    fullscreen: bool,
    menus: Vec<Menu>,
    pub should_quit: bool,
}

impl View for App {
    type V = AppView;

    closed spec fn view(&self) -> AppView {
        AppView {
            editor: self.editor@,
            screen: self.screen@,
            path: str_view(self.path),
            crlf: self.crlf,
            viewport_top: self.viewport_top as nat,
            lines: self.lines@,
            goal_col: self.goal_col,
            now_ms: self.now_ms,
            last_input_ms: self.last_input_ms,
            overlay: self.overlay,
            word_count_until: self.word_count_until,
            submitted: match self.submitted {
                Some((p, s)) => Some((p, s@)),
                None => None,
            },
            deferred: self.deferred,
            print_request: self.print_request,
            notice: match self.notice {
                Some((s, t)) => Some((s@, t)),
                None => None,
            },
            status_line: self.status_line,
            effects: self.effects,
            fullscreen: self.fullscreen,
            should_quit: self.should_quit,
            menus: self.menus@,
        }
    }
}

impl App {
    /// Everything but the wrap holds together.
    closed spec fn parts_ok(self) -> bool {
        &&& self.editor.wf()
        &&& self.screen@.wf()
        &&& table_ok(self.menus@)
        &&& overlay_ok(self.overlay, self.menus@)
    }

    /// The application holds together: the editor and screen are sound,
    /// the wrap is the document's, and the viewport starts within it.
    pub closed spec fn wf(self) -> bool {
        &&& self.parts_ok()
        &&& is_wrap(self.editor@.text, TEXT_COLS as int, self.lines@)
        &&& self.viewport_top <= self.lines@.len()
    }

    /// What a sound application holds: a sound screen, the wrap of its
    /// text, a viewport starting within it, a caret and anchor within the
    /// text, a menu table that fits, and an open overlay that holds
    /// together.
    pub proof fn lemma_wf(&self)
        requires
            self.wf(),
        ensures
            self@.screen.wf(),
            is_wrap(self@.editor.text, TEXT_COLS as int, self@.lines),
            self@.viewport_top <= self@.lines.len(),
            self@.editor.cursor <= self@.editor.text.len(),
            self@.editor.anchor matches Some(x) ==> x <= self@.editor.text.len(),
            table_ok(self@.menus),
            overlay_ok(self@.overlay, self@.menus),
    {
        self.editor.lemma_view_ok();
    }

    /// An untitled, empty document at the top of an 80x25 screen, with
    /// CRT effects on and nothing open.
    pub fn new() -> (a: App)
        ensures
            a.wf(),
            a@.screen.wf(),
            is_wrap(Seq::empty(), TEXT_COLS as int, a@.lines),
            table_view(a@.menus) == the_menus(),
            a@.editor == EditorView::fresh(Seq::empty()),
            a@.screen.mode == Mode::Text80x25,
            a@.path is None,
            !a@.crlf,
            a@.viewport_top == 0,
            a@.goal_col is None,
            a@.now_ms == 0,
            a@.last_input_ms == 0,
            a@.overlay is Closed,
            a@.word_count_until == 0,
            a@.submitted is None,
            a@.deferred is None,
            a@.print_request is None,
            a@.notice is None,
            a@.status_line,
            a@.effects,
            !a@.fullscreen,
            !a@.should_quit,
    {
        let editor = Editor::new();
        let lines = wrap::wrap(editor.text(), TEXT_COLS);
        App {
            editor,
            screen: Screen::new(Mode::Text80x25),
            path: None,
            crlf: false,
            viewport_top: 0,
            lines,
            goal_col: None,
            now_ms: 0,
            last_input_ms: 0,
            overlay: Overlay::Closed,
            word_count_until: 0,
            submitted: None,
            deferred: None,
            print_request: None,
            notice: None,
            status_line: true,
            effects: true,
            fullscreen: false,
            menus: menu::menus(),
            should_quit: false,
        }
    }

    pub fn editor(&self) -> (e: &Editor)
        ensures
            e@ == self@.editor,
    {
        &self.editor
    }

    pub fn screen(&self) -> (s: &Screen)
        ensures
            s@ == self@.screen,
    {
        &self.screen
    }

    pub fn viewport_top(&self) -> (t: usize)
        ensures
            t == self@.viewport_top,
    {
        self.viewport_top
    }

    pub fn path(&self) -> (p: Option<&str>)
        ensures
            match p {
                Some(s) => self@.path == Some(s@),
                None => self@.path is None,
            },
    {
        match &self.path {
            Some(s) => Some(s.as_str()),
            None => None,
        }
    }

    pub fn crlf(&self) -> (b: bool)
        ensures
            b == self@.crlf,
    {
        self.crlf
    }

    /// Where the document lives, and whether it uses CRLF line endings.
    pub fn set_path(&mut self, path: &str, crlf: bool)
        ensures
            final(self)@ == (AppView { path: Some(path@), crlf, ..old(self)@ }),
            final(self).wf() == old(self).wf(),
    {
        self.path = Some(string_of(chars_of(path).as_slice()));
        self.crlf = crlf;
    }

    pub fn mark_saved(&mut self)
        requires
            old(self).wf(),
        ensures
            final(self).wf(),
            final(self)@ == (AppView {
                editor: EditorView { saved: old(self)@.editor.text, typing: false, ..old(self)@.editor },
                ..old(self)@
            }),
    {
        self.editor.mark_saved();
    }

    /// Rows of the grid available for text: everything but the top
    /// margin and the status line.
    pub fn text_rows(&self) -> (n: usize)
        ensures
            n == self@.text_rows(),
            n >= 23,
    {
        let status: usize = if self.status_line { 1 } else { 0 };
        self.screen.rows() - status - TEXT_TOP
    }

    /// Replace the document, as when opening a file.
    pub fn load_text(&mut self, text: &str)
        requires
            old(self).wf(),
        ensures
            final(self).wf(),
            is_wrap(text@, TEXT_COLS as int, final(self)@.lines),
            final(self)@ == (AppView {
                editor: EditorView::fresh(text@),
                viewport_top: 0,
                goal_col: None,
                lines: final(self)@.lines,
                ..old(self)@
            }),
    {
        self.editor = Editor::from_str(text);
        self.viewport_top = 0;
        self.goal_col = None;
        self.lines = wrap::wrap(self.editor.text(), TEXT_COLS);
    }

    /// The caret's visual line and column.
    fn cursor_position(&self) -> (r: (usize, usize))
        requires
            self.parts_ok(),
            is_wrap(self.editor@.text, TEXT_COLS as int, self.lines@),
        ensures
            r.0 == self@.cursor_line(),
            r.1 == self@.cursor_col(),
            (r.0 as int) < self@.lines.len(),
            r.1 <= TEXT_COLS,
    {
        proof {
            wrap::lemma_wrap_ok(self.editor@.text, TEXT_COLS as int, self.lines@);
            wrap::lemma_wrap_faithful(self.editor@.text, TEXT_COLS as int, self.lines@);
        }
        let r = wrap::position_of(self.lines.as_slice(), self.editor.cursor());
        proof {
            wrap::lemma_line_of(self.lines@, self.editor@.text.len() as int, self.editor@.cursor as int, r.0 as int);
            let l = self.lines@;
            let i = r.0 as int;
            assert(l[i].end - l[i].start <= TEXT_COLS);
            assert(self.editor@.cursor <= self.editor@.text.len());
            if i + 1 < l.len() {
                assert(l[i + 1].start == l[i].end && l[i].start < l[i].end || l[i + 1].start == l[i].end + 1);
            } else {
                assert(l[i] == l.last());
            }
        }
        r
    }

    /// The caret's visual line and column.
    pub fn cursor_position_for_test(&self) -> (r: (usize, usize))
        requires
            self.wf(),
        ensures
            r.0 == self@.cursor_line(),
            r.1 == self@.cursor_col(),
    {
        self.cursor_position()
    }

    /// The wrap of the document.
    pub fn lines_for_test(&self) -> (l: &[VisualLine])
        ensures
            l@ == self@.lines,
    {
        self.lines.as_slice()
    }

    /// Scroll the minimum distance that puts the caret's line on screen.
    #[verifier::rlimit(50)]
    fn scroll_to_cursor(&mut self)
        requires
            old(self).parts_ok(),
            is_wrap(old(self).editor@.text, TEXT_COLS as int, old(self).lines@),
        ensures
            final(self).wf(),
            final(self)@ == (AppView {
                viewport_top: top_showing(old(self)@.viewport_top as int, old(self)@.cursor_line(), old(self)@.text_rows()),
                ..old(self)@
            }),
    {
        let (line, _) = self.cursor_position();
        let rows = self.text_rows();
        if line < self.viewport_top {
            self.viewport_top = line;
        } else if line - self.viewport_top >= rows {
            self.viewport_top = line - rows + 1;
        }
    }

    /// Every text-changing command ends the same way: rewrap, forget the
    /// goal column, show the caret.
    fn after_edit(&mut self)
        requires
            old(self).parts_ok(),
        ensures
            final(self).wf(),
            old(self)@.after_edit(old(self)@.editor, final(self)@),
    {
        self.goal_col = None;
        self.lines = wrap::wrap(self.editor.text(), TEXT_COLS);
        self.scroll_to_cursor();
    }

    fn move_cursor(&mut self, motion: Motion, extend: bool)
        requires
            old(self).wf(),
        ensures
            final(self).wf(),
            old(self)@.after_move(motion, extend, final(self)@),
    {
        let (_, col) = self.cursor_position();
        let vertical = match motion {
            Motion::Up | Motion::Down | Motion::PageUp | Motion::PageDown => true,
            _ => false,
        };
        let goal = if vertical {
            match self.goal_col {
                Some(g) => g,
                None => col,
            }
        } else {
            col
        };
        let rows = self.text_rows();
        let (line, _) = self.cursor_position();
        proof {
            wrap::lemma_wrap_ok(self.editor@.text, TEXT_COLS as int, self.lines@);
        }
        let target = motion_target(&self.editor, self.lines.as_slice(), motion, goal, line, rows);
        self.editor.set_cursor(target, extend);
        self.goal_col = if vertical { Some(goal) } else { None };
        self.scroll_to_cursor();
    }

    pub fn effects(&self) -> (b: bool)
        ensures
            b == self@.effects,
    {
        self.effects
    }

    pub fn set_effects(&mut self, on: bool)
        ensures
            final(self)@ == (AppView { effects: on, ..old(self)@ }),
            final(self).wf() == old(self).wf(),
    {
        self.effects = on;
    }

    pub fn status_line(&self) -> (b: bool)
        ensures
            b == self@.status_line,
    {
        self.status_line
    }

    /// Shows or dismisses the status line; its row goes to the text when
    /// it is gone, and the caret stays on screen.
    pub fn set_status_line(&mut self, on: bool)
        requires
            old(self).wf(),
        ensures
            final(self).wf(),
            ({
                let flipped = AppView { status_line: on, ..old(self)@ };
                final(self)@ == AppView {
                    viewport_top: top_showing(old(self)@.viewport_top as int, old(self)@.cursor_line(), flipped.text_rows()),
                    ..flipped
                }
            }),
    {
        self.status_line = on;
        self.scroll_to_cursor();
    }

    pub fn fullscreen(&self) -> (b: bool)
        ensures
            b == self@.fullscreen,
    {
        self.fullscreen
    }

    pub fn set_fullscreen(&mut self, on: bool)
        ensures
            final(self)@ == (AppView { fullscreen: on, ..old(self)@ }),
            final(self).wf() == old(self).wf(),
    {
        self.fullscreen = on;
    }

    /// Whether the screen is in 80x50.
    pub fn dense(&self) -> (b: bool)
        ensures
            b == (self@.screen.mode == Mode::Text80x50),
    {
        match self.screen.mode() {
            Mode::Text80x50 => true,
            Mode::Text80x25 => false,
        }
    }

    /// Switches between 80x25 and 80x50, keeping the caret on screen.
    pub fn set_dense(&mut self, dense: bool)
        requires
            old(self).wf(),
        ensures
            final(self).wf(),
            final(self)@.screen.wf(),
            final(self)@.screen.mode == if dense { Mode::Text80x50 } else { Mode::Text80x25 },
            final(self)@ == (AppView {
                screen: final(self)@.screen,
                viewport_top: top_showing(old(self)@.viewport_top as int, old(self)@.cursor_line(), final(self)@.text_rows()),
                ..old(self)@
            }),
    {
        let mode = if dense { Mode::Text80x50 } else { Mode::Text80x25 };
        self.screen.set_mode(mode);
        self.scroll_to_cursor();
    }

    pub fn overlay(&self) -> (o: &Overlay)
        ensures
            *o == self@.overlay,
    {
        &self.overlay
    }

    pub fn set_overlay(&mut self, o: Overlay)
        requires
            old(self).wf(),
            overlay_ok(o, old(self)@.menus),
        ensures
            final(self).wf(),
            final(self)@ == (AppView { overlay: o, ..old(self)@ }),
    {
        self.overlay = o;
    }

    /// Asks a yes/no question.
    pub fn confirm(&mut self, prompt: Prompt, body: &str)
        requires
            old(self).wf(),
        ensures
            final(self).wf(),
            final(self)@.overlay matches Overlay::Confirm { prompt: p, body: b } && p == prompt && b@ == body@,
            final(self)@ == (AppView { overlay: final(self)@.overlay, ..old(self)@ }),
    {
        self.overlay = Overlay::Confirm { prompt, body: string_of(chars_of(body).as_slice()) };
    }

    /// Answer the open confirmation. The caller performs the resulting
    /// action, since saving and quitting touch the outside world.
    pub fn answer(&mut self, yes: bool) -> (r: Option<(Prompt, bool)>)
        requires
            old(self).wf(),
        ensures
            final(self).wf(),
            old(self)@.overlay matches Overlay::Confirm { prompt, .. } ==> r == Some((prompt, yes))
                && final(self)@ == (AppView { overlay: Overlay::Closed, ..old(self)@ }),
            !(old(self)@.overlay is Confirm) ==> r is None && final(self)@ == old(self)@,
    {
        let prompt = match &self.overlay {
            Overlay::Confirm { prompt, .. } => *prompt,
            _ => return None,
        };
        self.overlay = Overlay::Closed;
        Some((prompt, yes))
    }

    /// Take whatever a modal field submitted, if anything.
    pub fn take_submitted(&mut self) -> (r: Option<(Purpose, String)>)
        ensures
            match r {
                Some((p, s)) => old(self)@.submitted == Some((p, s@)),
                None => old(self)@.submitted is None,
            },
            final(self)@ == (AppView { submitted: None, ..old(self)@ }),
            final(self).wf() == old(self).wf(),
    {
        self.submitted.take()
    }

    /// A menu item can fire a command the shell owns -- Save, Open,
    /// Copy -- which `apply` cannot perform. It is parked here for the
    /// shell to pick up after every `apply`.
    pub fn take_deferred(&mut self) -> (r: Option<Command>)
        ensures
            r == old(self)@.deferred,
            final(self)@ == (AppView { deferred: None, ..old(self)@ }),
            final(self).wf() == old(self).wf(),
    {
        self.deferred.take()
    }

    pub fn take_print_request(&mut self) -> (r: Option<Request>)
        ensures
            r == old(self)@.print_request,
            final(self)@ == (AppView { print_request: None, ..old(self)@ }),
            final(self).wf() == old(self).wf(),
    {
        self.print_request.take()
    }

    /// Show `text` in the status line's right field for three seconds.
    pub fn notify(&mut self, text: &str)
        requires
            old(self)@.now_ms <= u64::MAX - READOUT_MS,
        ensures
            final(self)@ == (AppView { notice: Some((text@, (old(self)@.now_ms + READOUT_MS) as u64)), ..old(self)@ }),
            final(self).wf() == old(self).wf(),
    {
        self.notice = Some((string_of(chars_of(text).as_slice()), self.now_ms + READOUT_MS));
    }

    /// The print screen. The shell passes the printer, since asking the
    /// system for it is its job.
    pub fn open_print(&mut self, printer: Option<String>)
        requires
            old(self).wf(),
        ensures
            final(self).wf(),
            final(self)@ == (AppView { overlay: Overlay::Print { printer }, ..old(self)@ }),
    {
        self.overlay = Overlay::Print { printer };
    }

    /// How many pages the document prints on.
    pub fn page_count(&self) -> (n: usize)
        ensures
            n == print::pages_for(self@.lines.len() as int),
    {
        print::page_count(self.lines.as_slice())
    }

    /// The print job text for `scope`, or `None` if there is nothing to
    /// print or no such page.
    pub fn print_job(&self, scope: Scope) -> (r: Option<String>)
        requires
            self.wf(),
        ensures
            blank(self@.editor.text) ==> r is None,
            !blank(self@.editor.text) ==> match r {
                Some(s) => print::job_of(self@.editor.text, self@.lines, scope) == Some(s@),
                None => print::job_of(self@.editor.text, self@.lines, scope) is None,
            },
    {
        if all_space(self.editor.text()) {
            return None;
        }
        proof {
            wrap::lemma_wrap_ok(self.editor@.text, TEXT_COLS as int, self.lines@);
        }
        print::job(self.editor.text(), self.lines.as_slice(), scope)
    }

    /// Keys reaching the print screen: a digit picks, 0 or Esc leaves.
    fn print_key(&mut self, cmd: Command)
        requires
            old(self).wf(),
            old(self)@.overlay is Print,
        ensures
            final(self).wf(),
            old(self)@.print_applied(cmd, final(self)@),
    {
        let choice: Option<char> = match &cmd {
            Command::Insert(text) => first_char(text.as_str()),
            Command::Dismiss | Command::Newline => Some('0'),
            _ => None,
        };
        let (line, _) = self.cursor_position();
        let page = Scope::Page(print::page_of(line));
        match choice {
            Some('1') => self.print_request = Some(Request::Printer(Scope::Full)),
            Some('2') => self.print_request = Some(Request::Printer(page)),
            Some('3') => self.print_request = Some(Request::ToFile(Scope::Full)),
            Some('0') => {},
            _ => return,
        }
        self.overlay = Overlay::Closed;
    }

    pub fn open_menu(&mut self)
        requires
            old(self).wf(),
        ensures
            final(self).wf(),
            final(self)@ == (AppView { overlay: Overlay::Menu(MenuState { menu: 0, item: None }), ..old(self)@ }),
    {
        self.overlay = Overlay::Menu(MenuState::new());
    }

    /// Opens a text field, seeded with `seed` and the cursor at its end.
    pub fn open_field(&mut self, purpose: Purpose, title: &str, label: &str, seed: &str)
        requires
            old(self).wf(),
        ensures
            final(self).wf(),
            final(self)@.overlay matches Overlay::Field(f) && f@ == (InputView {
                purpose,
                title: title@,
                label: label@,
                value: seed@,
                cursor: seed@.len(),
            }),
            final(self)@ == (AppView { overlay: final(self)@.overlay, ..old(self)@ }),
    {
        let mut field = Input::new(purpose, title, label);
        field.set_value(seed);
        self.overlay = Overlay::Field(field);
    }

    /// Keys reaching an open menu. Returns the command it fired, if any.
    fn menu_key(&mut self, cmd: &Command) -> (fired: Option<Command>)
        requires
            old(self).wf(),
            old(self)@.overlay is Menu,
        ensures
            final(self).wf(),
            old(self)@.overlay matches Overlay::Menu(s) && fired == menu_fires(s, old(self)@.menus, *cmd)
                && final(self)@ == (AppView {
                overlay: match menu_next(s, old(self)@.menus, *cmd) {
                    Some(s2) => Overlay::Menu(s2),
                    None => Overlay::Closed,
                },
                ..old(self)@
            }),
    {
        let mut state = match &self.overlay {
            Overlay::Menu(s) => *s,
            _ => return None,
        };
        let t = self.menus.as_slice();
        let mut open = true;
        let fired = match cmd {
            Command::Move { motion: Motion::Left, .. } => {
                state.left(t);
                None
            },
            Command::Move { motion: Motion::Right, .. } => {
                state.right(t);
                None
            },
            Command::Move { motion: Motion::Up, .. } => {
                state.up(t);
                None
            },
            Command::Move { motion: Motion::Down, .. } => {
                state.down(t);
                None
            },
            Command::Newline => state.activate(t),
            Command::Insert(text) => match first_char(text.as_str()) {
                Some(c) => state.letter(t, c),
                None => None,
            },
            Command::Dismiss => {
                if !state.escape() {
                    open = false;
                }
                None
            },
            _ => {
                open = false;
                None
            },
        };
        if fired.is_some() || !open {
            self.overlay = Overlay::Closed;
        } else {
            self.overlay = Overlay::Menu(state);
        }
        fired
    }

    /// Keys reaching an open text field.
    fn field_key(&mut self, cmd: Command)
        requires
            old(self).wf(),
            old(self)@.overlay is Field,
        ensures
            final(self).wf(),
            old(self)@.overlay matches Overlay::Field(f) && old(self)@.field_applied(f@, cmd, final(self)@),
    {
        let mut ov = Overlay::Closed;
        std::mem::swap(&mut ov, &mut self.overlay);
        let mut field = match ov {
            Overlay::Field(f) => f,
            _ => {
                self.overlay = ov;
                return;
            },
        };
        match cmd {
            Command::Insert(text) => field.insert(text.as_str()),
            Command::Backspace => field.backspace(),
            Command::DeleteForward => field.delete(),
            Command::Move { motion: Motion::Left, .. } => field.left(),
            Command::Move { motion: Motion::Right, .. } => field.right(),
            Command::Move { motion: Motion::LineStart, .. } => field.home(),
            Command::Move { motion: Motion::LineEnd, .. } => field.end(),
            Command::Newline => {
                // An empty name is the same as backing out.
                if !all_space(field.chars()) {
                    self.submitted = Some((field.purpose(), field.value()));
                }
                return;
            },
            Command::Dismiss => return,
            _ => {},
        }
        self.overlay = Overlay::Field(field);
    }

    /// Solid while typing; a slow blink once you pause.
    pub fn cursor_visible(&self, now_ms: u64) -> (b: bool)
        ensures
            b == self@.blink_on(now_ms),
    {
        let since = now_ms.saturating_sub(self.last_input_ms);
        if since < CURSOR_STEADY_MS {
            return true;
        }
        ((since - CURSOR_STEADY_MS) / CURSOR_BLINK_MS) % 2 == 0
    }

    /// A command reaching the document.
    fn doc_command(&mut self, cmd: Command, now_ms: u64)
        requires
            old(self).wf(),
            cmd is ShowWordCount ==> now_ms <= u64::MAX - READOUT_MS,
        ensures
            final(self).wf(),
            old(self)@.doc_applied(cmd, now_ms, final(self)@),
    {
        let ghost cmd0 = cmd;
        match cmd {
            Command::Insert(text) => {
                // Filter through CP437 so the buffer can only ever hold
                // characters the screen can draw.
                let filtered = accept_text(text.as_str());
                if filtered.len() == 0 {
                    return;
                }
                self.editor.insert(filtered.as_slice());
                self.after_edit();
            },
            Command::Newline => {
                let mut nl: Vec<char> = Vec::new();
                nl.push('\n');
                proof {
                    assert(nl@ =~= seq!['\n']);
                }
                self.editor.insert(nl.as_slice());
                self.after_edit();
            },
            Command::Tab => {
                let (_, col) = self.cursor_position();
                let spaces = TAB_STOP - (col % TAB_STOP);
                let mut pad: Vec<char> = Vec::new();
                let mut i: usize = 0;
                while i < spaces
                    invariant
                        i <= spaces,
                        pad@ == repeat(' ', i as nat),
                    decreases spaces - i,
                {
                    pad.push(' ');
                    i = i + 1;
                    proof {
                        assert(pad@ =~= repeat(' ', i as nat));
                    }
                }
                self.editor.insert(pad.as_slice());
                self.after_edit();
            },
            Command::Backspace => {
                self.editor.backspace();
                self.after_edit();
            },
            Command::DeleteForward => {
                self.editor.delete_forward();
                self.after_edit();
            },
            Command::Move { motion, extend } => self.move_cursor(motion, extend),
            Command::SelectAll => {
                self.editor.set_cursor(0, false);
                let len = self.editor.len();
                self.editor.set_cursor(len, true);
            },
            Command::Undo => {
                if self.editor.undo() {
                    self.after_edit();
                }
            },
            Command::Redo => {
                if self.editor.redo() {
                    self.after_edit();
                }
            },
            // Nothing to dismiss when the document has focus, so Esc
            // becomes the always-available way to reach the menu.
            Command::MenuBar | Command::Dismiss => self.open_menu(),
            Command::Quit => {
                if self.editor.is_dirty() {
                    self.confirm(Prompt::QuitUnsaved, QUIT_QUESTION);
                } else {
                    self.should_quit = true;
                }
            },
            Command::ToggleHelp => {
                self.overlay = Overlay::Message {
                    title: String::from_str("Help"),
                    body: String::from_str(HELP_TEXT),
                    danger: false,
                };
            },
            Command::ShowWordCount => self.word_count_until = now_ms + READOUT_MS,
            Command::ToggleDenseMode => {
                let dense = self.dense();
                self.set_dense(!dense);
            },
            Command::ToggleEffects => self.effects = !self.effects,
            Command::ToggleStatusLine => {
                let on = !self.status_line;
                self.set_status_line(on);
            },
            Command::ToggleFullscreen => self.fullscreen = !self.fullscreen,
            // The shell performs these: they touch the OS. A hotkey never
            // gets here (the shell intercepts it first), so this is a
            // menu item firing, and the shell collects it after.
            Command::Copy => self.deferred = Some(Command::Copy),
            Command::Cut => self.deferred = Some(Command::Cut),
            Command::Paste => self.deferred = Some(Command::Paste),
            Command::New => self.deferred = Some(Command::New),
            Command::Open => self.deferred = Some(Command::Open),
            Command::Retrieve => self.deferred = Some(Command::Retrieve),
            Command::Save => self.deferred = Some(Command::Save),
            Command::SaveAs => self.deferred = Some(Command::SaveAs),
            Command::Print => self.deferred = Some(Command::Print),
        }
    }

    /// Interprets a command at `now_ms`. Whatever holds the focus takes
    /// the key first: an open menu, field, print screen or message box;
    /// only with none open does it reach the document.
    pub fn apply(&mut self, cmd: Command, now_ms: u64)
        requires
            old(self).wf(),
            old(self)@.starts_word_count(cmd) ==> now_ms <= u64::MAX - READOUT_MS,
        ensures
            final(self).wf(),
            old(self)@.applied(cmd, now_ms, final(self)@),
    {
        self.last_input_ms = now_ms;
        match &self.overlay {
            Overlay::Menu(_) => {
                if let Some(fired) = self.menu_key(&cmd) {
                    self.doc_command(fired, now_ms);
                }
            },
            Overlay::Field(_) => self.field_key(cmd),
            Overlay::Print { .. } => self.print_key(cmd),
            Overlay::Message { .. } | Overlay::Confirm { .. } => {
                if let Command::Dismiss = cmd {
                    self.overlay = Overlay::Closed;
                }
            },
            Overlay::Closed => self.doc_command(cmd, now_ms),
        }
    }

    /// The character offset under a grid cell. A cell below the last
    /// line lands at the end of the document, not at the start of the
    /// last line.
    pub fn offset_at_cell(&self, col: usize, row: usize) -> (off: usize)
        requires
            self.wf(),
        ensures
            off == self@.cell_offset(col as int, row as int),
            off <= self@.editor.text.len(),
    {
        proof {
            wrap::lemma_wrap_ok(self.editor@.text, TEXT_COLS as int, self.lines@);
        }
        let down = row.saturating_sub(TEXT_TOP);
        let n = self.lines.len();
        if down >= n - self.viewport_top {
            return self.editor.len();
        }
        let line = self.viewport_top + down;
        let col = col.saturating_sub(TEXT_LEFT);
        wrap::offset_at(self.lines.as_slice(), line, col)
    }

    /// A click on a cell puts the caret there, or extends the selection
    /// to it.
    pub fn click(&mut self, col: usize, row: usize, extend: bool)
        requires
            old(self).wf(),
        ensures
            final(self).wf(),
            ({
                let v = old(self)@;
                let e = v.editor.moved(v.cell_offset(col as int, row as int) as nat, extend);
                final(self)@ == AppView {
                    editor: e,
                    last_input_ms: v.now_ms,
                    goal_col: None,
                    viewport_top: top_showing(v.viewport_top as int, line_of(v.lines, e.cursor as int), v.text_rows()),
                    ..v
                }
            }),
    {
        self.last_input_ms = self.now_ms;
        let offset = self.offset_at_cell(col, row);
        self.editor.set_cursor(offset, extend);
        self.goal_col = None;
        self.scroll_to_cursor();
    }

    /// Scroll by `lines` without moving the caret, as a scroll wheel
    /// should, stopping at either end of the document.
    pub fn scroll(&mut self, lines: i32)
        requires
            old(self).wf(),
        ensures
            final(self).wf(),
            final(self)@ == (AppView { viewport_top: old(self)@.scrolled(lines as int), ..old(self)@ }),
    {
        let rows = self.text_rows();
        let n = self.lines.len();
        let max_top: usize = if n > rows { n - rows } else { 0 };
        let top = self.viewport_top;
        let next: usize = if lines >= 0 {
            let d = lines as usize;
            if d > max_top || top > max_top - d { max_top } else { top + d }
        } else {
            let d = (0i64 - lines as i64) as usize;
            let lowered: usize = if d >= top { 0 } else { top - d };
            if lowered > max_top { max_top } else { lowered }
        };
        self.viewport_top = next;
    }

    /// The status line's right field.
    fn readout(&self) -> (r: Vec<char>)
        requires
            self.wf(),
        ensures
            r@ == self@.readout(),
    {
        if let Some((text, until)) = &self.notice {
            if self.now_ms < *until {
                return chars_of(text.as_str());
            }
        }
        if self.now_ms < self.word_count_until {
            let mut s = String::new();
            push_decimal(&mut s, self.editor.word_count() as u64);
            push_chars(&mut s, chars_of(" words").as_slice());
            return chars_of(s.as_str());
        }
        let (line, col) = self.cursor_position();
        let m = crate::status::measure(line, col);
        chars_of(crate::status::right_field(&m).as_str())
    }

    /// Repaints the grid as at time zero.
    pub fn paint(&mut self)
        requires
            old(self).wf(),
        ensures
            final(self).wf(),
            final(self)@ == (AppView { screen: final(self)@.screen, now_ms: 0, ..old(self)@ }),
            final(self)@.screen.wf(),
            final(self)@.screen.mode == old(self)@.screen.mode,
            final(self)@.painted(old(self)@.blink_on(0), final(self)@.screen),
    {
        self.paint_at(0)
    }

    /// Repaints the grid from the application state at `now_ms`, which
    /// drives the cursor's blink and the expiry of the status readouts.
    pub fn paint_at(&mut self, now_ms: u64)
        requires
            old(self).wf(),
        ensures
            final(self).wf(),
            final(self)@ == (AppView { screen: final(self)@.screen, now_ms, ..old(self)@ }),
            final(self)@.screen.wf(),
            final(self)@.screen.mode == old(self)@.screen.mode,
            final(self)@.painted(old(self)@.blink_on(now_ms), final(self)@.screen),
    {
        self.now_ms = now_ms;
        let blink_on = self.cursor_visible(now_ms);
        self.paint_base(blink_on);
        let ghost based = self@;
        self.paint_overlay(blink_on);
        proof {
            let a = self@;
            assert forall|c: int, r: int| a.screen.on(c, r) && !a.covered(c, r) implies a.base_cell(c, r, #[trigger] a.screen.at(c, r)) by {
                assert(a.screen.at(c, r) == based.screen.at(c, r));
                assert(based.base_cell(c, r, based.screen.at(c, r)));
            }
        }
    }

    /// The document and the status line, and the document's cursor unless
    /// the open overlay places its own.
    #[verifier::rlimit(60)]
    #[verifier::spinoff_prover]
    fn paint_base(&mut self, blink_on: bool)
        requires
            old(self).wf(),
        ensures
            final(self).wf(),
            final(self)@ == (AppView { screen: final(self)@.screen, ..old(self)@ }),
            final(self)@.screen.wf(),
            final(self)@.screen.mode == old(self)@.screen.mode,
            forall|c: int, r: int| final(self)@.screen.on(c, r) ==> old(self)@.base_cell(c, r, #[trigger] final(self)@.screen.at(c, r)),
            final(self)@.screen.cursor == match old(self)@.overlay {
                Overlay::Field(_) | Overlay::Print { .. } => None,
                _ => old(self)@.doc_cursor(blink_on),
            },
    {
        let rows = self.text_rows();
        let (line, col) = self.cursor_position();
        let sel = self.editor.selection();
        proof {
            wrap::lemma_wrap_ok(self.editor@.text, TEXT_COLS as int, self.lines@);
            wrap::lemma_wrap_faithful(self.editor@.text, TEXT_COLS as int, self.lines@);
        }
        self.screen.clear(FG, BG);
        paint_text(&mut self.screen, self.editor.text(), self.lines.as_slice(), self.viewport_top, rows, sel);
        let ghost texted = self.screen@;
        self.screen.set_cursor(None);
        let owned = match &self.overlay {
            Overlay::Field(_) | Overlay::Print { .. } => true,
            _ => false,
        };
        if blink_on && sel.is_none() && !owned && line >= self.viewport_top && line - self.viewport_top < rows {
            self.screen.set_cursor(Some((TEXT_LEFT + col, TEXT_TOP + (line - self.viewport_top))));
        }
        let ghost cursored = self.screen@;
        if self.status_line {
            let path = match &self.path {
                Some(p) => Some(p.as_str()),
                None => None,
            };
            let left = chars_of(crate::status::dos_path(path, self.editor.is_dirty()).as_str());
            let right = self.readout();
            let bottom = self.screen.rows() - 1;
            paint_status_row(&mut self.screen, bottom, left.as_slice(), right.as_slice());
        }
        proof {
            let a = old(self)@;
            assert forall|c: int, r: int| self.screen@.on(c, r) implies a.base_cell(c, r, #[trigger] self.screen@.at(c, r)) by {
                assert(cursored.at(c, r) == texted.at(c, r));
            }
        }
    }

    /// The open overlay, over whatever is painted already.
    fn paint_overlay(&mut self, blink_on: bool)
        requires
            old(self).wf(),
        ensures
            final(self).wf(),
            final(self)@ == (AppView { screen: final(self)@.screen, ..old(self)@ }),
            final(self)@.screen.wf(),
            final(self)@.screen.mode == old(self)@.screen.mode,
            forall|c: int, r: int| final(self)@.screen.on(c, r) && !old(self)@.covered(c, r)
                ==> #[trigger] final(self)@.screen.at(c, r) == old(self)@.screen.at(c, r),
            ({
                let a = old(self)@;
                let rows = a.screen.rows();
                let s = final(self)@.screen;
                match a.overlay {
                    Overlay::Print { printer } => print_painted(
                        str_view(printer),
                        crate::print::pages_for(a.lines.len() as int) as nat,
                        (a.cursor_line() / 54 + 1) as nat,
                        s,
                    ),
                    Overlay::Field(f) => field_painted(f@, rows, s) && s.cursor == if blink_on {
                        Some(field_cursor(f@, rows))
                    } else {
                        a.screen.cursor
                    },
                    Overlay::Menu(m) => menu_painted(m, a.menus, s) && s.cursor == a.screen.cursor,
                    Overlay::Message { title, body, .. } => box_painted(title@, body@, s) && s.cursor == a.screen.cursor,
                    Overlay::Confirm { body, .. } => box_painted(""@, body@, s) && s.cursor == a.screen.cursor,
                    Overlay::Closed => s == a.screen,
                }
            }),
    {
        let (line, _) = self.cursor_position();
        match &self.overlay {
            Overlay::Closed => {},
            Overlay::Menu(state) => paint_menu(&mut self.screen, *state, self.menus.as_slice()),
            Overlay::Field(field) => paint_field(&mut self.screen, field, blink_on),
            Overlay::Message { title, body, danger } => {
                let bg: u8 = if *danger { 4 } else { BG };
                draw_centered(&mut self.screen, title.as_str(), body.as_str(), 15, bg);
            },
            Overlay::Confirm { body, .. } => {
                proof {
                    reveal_strlit("");
                }
                draw_centered(&mut self.screen, "", body.as_str(), 15, 1);
            },
            Overlay::Print { printer } => {
                let name = match printer {
                    Some(p) => Some(p.as_str()),
                    None => None,
                };
                let pages = crate::print::page_count(self.lines.as_slice());
                let here = crate::print::page_of(line) + 1;
                paint_print(&mut self.screen, name, pages, here);
            },
        }
    }
}

impl Default for App {
    /// The same fresh application as `App::new`.
    fn default() -> (a: App)
        ensures
            a.wf(),
            a@.screen.wf(),
            is_wrap(Seq::empty(), TEXT_COLS as int, a@.lines),
            table_view(a@.menus) == the_menus(),
            a@.editor == EditorView::fresh(Seq::empty()),
            a@.screen.mode == Mode::Text80x25,
            a@.path is None,
            !a@.crlf,
            a@.viewport_top == 0,
            a@.goal_col is None,
            a@.now_ms == 0,
            a@.last_input_ms == 0,
            a@.overlay is Closed,
            a@.word_count_until == 0,
            a@.submitted is None,
            a@.deferred is None,
            a@.print_request is None,
            a@.notice is None,
            a@.status_line,
            a@.effects,
            !a@.fullscreen,
            !a@.should_quit,
    {
        App::new()
    }
}

/// Where `motion` takes the caret of `editor` from visual line `line`
/// of `lines`, with `rows` rows on screen, holding column `goal` on
/// vertical moves.
fn motion_target(editor: &Editor, lines: &[VisualLine], motion: Motion, goal: usize, line: usize, rows: usize) -> (target: usize)
    requires
        editor.wf(),
        lines_ok(lines@, editor@.text.len() as int),
        (line as int) < lines@.len(),
    ensures
        target == motion_dest(editor@, lines@, motion, goal as int, line as int, rows as int),
{
    let cursor = editor.cursor();
    let len = editor.len();
    let n = lines.len();
    match motion {
        Motion::Left => return cursor.saturating_sub(1),
        Motion::Right => return if cursor < len { cursor + 1 } else { len },
        Motion::WordLeft => return editor.word_left(),
        Motion::WordRight => return editor.word_right(),
        Motion::DocStart => return 0,
        Motion::DocEnd => return len,
        _ => {},
    }
    let (li, col): (usize, usize) = match motion {
        Motion::LineStart => (line, 0),
        Motion::LineEnd => (line, usize::MAX),
        Motion::Up => (line.saturating_sub(1), goal),
        Motion::Down => (line + 1, goal),
        Motion::PageUp => (line.saturating_sub(rows), goal),
        _ => (line.saturating_add(rows), goal),
    };
    proof {
        if motion is PageDown && line + rows > usize::MAX {
            assert(offset_at_spec(lines@, usize::MAX as int, goal as int) == offset_at_spec(lines@, line + rows, goal as int));
        }
    }
    wrap::offset_at(lines, li, col)
}

/// The first character of `s`, if any.
fn first_char(s: &str) -> (c: Option<char>)
    ensures
        s@.len() > 0 ==> c == Some(s@[0]),
        s@.len() == 0 ==> c is None,
{
    if s.is_empty() {
        None
    } else {
        Some(s.get_char(0))
    }
}

/// Whether every character is whitespace.
fn all_space(v: &[char]) -> (b: bool)
    ensures
        b == blank(v@),
{
    let mut i: usize = 0;
    while i < v.len()
        invariant
            i <= v@.len(),
            forall|k: int| 0 <= k < i ==> is_space(#[trigger] v@[k]),
        decreases v@.len() - i,
    {
        if !space(v[i]) {
            return false;
        }
        i = i + 1;
    }
    true
}

} // verus!
