//! Modal boxes drawn over the document: the menu, text fields, messages,
//! confirmations and the print screen.

use vstd::prelude::*;
use crate::input::Input;
use crate::menu::MenuState;
use crate::vga::{Screen, ScreenView, COLS};
use crate::cp437::shows;
use crate::text::chars_of;

verus! {

/// The question a confirmation asks, so the shell knows what a yes means.
#[derive(Clone, Copy, Debug, PartialEq, Eq, Structural)]
pub enum Prompt {
    /// Quitting with unsaved changes.
    QuitUnsaved,
    /// Starting a new document over unsaved changes.
    NewUnsaved,
    /// Opening another document over unsaved changes.
    OpenUnsaved,
    /// A backup outlived its document: recover it?
    RecoverBackup,
}

/// Whatever holds the keyboard instead of the document.
pub enum Overlay {
    Closed,
    Menu(MenuState),
    Field(Input),
    Message { title: String, body: String, danger: bool },
    Confirm { prompt: Prompt, body: String },
    Print { printer: Option<String> },
}

/// The glyph at `(dx, dy)` of a `w` by `h` double-line frame.
pub open spec fn frame_glyph(dx: int, dy: int, w: int, h: int) -> u8 {
    if dy == 0 {
        if dx == 0 { 0xC9u8 } else if dx == w - 1 { 0xBBu8 } else { 0xCDu8 }
    } else if dy == h - 1 {
        if dx == 0 { 0xC8u8 } else if dx == w - 1 { 0xBCu8 } else { 0xCDu8 }
    } else {
        if dx == 0 || dx == w - 1 { 0xBAu8 } else { 0x20u8 }
    }
}

pub open spec fn in_rect(c: int, r: int, x: int, y: int, w: int, h: int) -> bool {
    x <= c < x + w && y <= r < y + h
}

fn frame_glyph_exec(dx: usize, dy: usize, w: usize, h: usize) -> (g: u8)
    requires
        dx < w,
        dy < h,
    ensures
        g == frame_glyph(dx as int, dy as int, w as int, h as int),
{
    if dy == 0 {
        if dx == 0 { 0xC9 } else if dx + 1 == w { 0xBB } else { 0xCD }
    } else if dy + 1 == h {
        if dx == 0 { 0xC8 } else if dx + 1 == w { 0xBC } else { 0xCD }
    } else {
        if dx == 0 || dx + 1 == w { 0xBA } else { 0x20 }
    }
}

/// Draws a `w` by `h` double-line frame at `(x, y)`, its inside blank.
pub fn draw_box(screen: &mut Screen, x: usize, y: usize, w: usize, h: usize, fg: u8, bg: u8)
    requires
        old(screen)@.wf(),
        x + w <= COLS,
        y + h <= old(screen)@.rows(),
    ensures
        final(screen)@.wf(),
        final(screen)@.mode == old(screen)@.mode,
        final(screen)@.cursor == old(screen)@.cursor,
        forall|c: int, r: int| final(screen)@.on(c, r) ==> #[trigger] final(screen)@.at(c, r) == if in_rect(
            c,
            r,
            x as int,
            y as int,
            w as int,
            h as int,
        ) {
            (crate::vga::Cell {
                glyph: frame_glyph(c - x, r - y, w as int, h as int),
                fg,
                bg,
            })
        } else {
            old(screen)@.at(c, r)
        },
{
    let ghost before = screen@;
    let mut dy: usize = 0;
    while dy < h
        invariant
            dy <= h,
            y + h <= before.rows(),
            x + w <= COLS,
            screen@.wf(),
            screen@.mode == before.mode,
            screen@.cursor == before.cursor,
            forall|c: int, r: int| screen@.on(c, r) ==> #[trigger] screen@.at(c, r) == if in_rect(
                c,
                r,
                x as int,
                y as int,
                w as int,
                dy as int,
            ) {
                (crate::vga::Cell {
                    glyph: frame_glyph(c - x, r - y, w as int, h as int),
                    fg,
                    bg,
                })
            } else {
                before.at(c, r)
            },
        decreases h - dy,
    {
        let mut dx: usize = 0;
        while dx < w
            invariant
                dx <= w,
                dy < h,
                y + h <= before.rows(),
                x + w <= COLS,
                screen@.wf(),
                screen@.mode == before.mode,
                screen@.cursor == before.cursor,
                forall|c: int, r: int| screen@.on(c, r) ==> #[trigger] screen@.at(c, r) == if in_rect(
                    c,
                    r,
                    x as int,
                    y as int,
                    w as int,
                    dy as int,
                ) || (r == y + dy && x <= c < x + dx) {
                    (crate::vga::Cell {
                        glyph: frame_glyph(c - x, r - y, w as int, h as int),
                        fg,
                        bg,
                    })
                } else {
                    before.at(c, r)
                },
            decreases w - dx,
        {
            let g = frame_glyph_exec(dx, dy, w, h);
            screen.set(x + dx, y + dy, g, fg, bg);
            dx = dx + 1;
        }
        dy = dy + 1;
    }
}

/// `s` cut at each newline.
pub open spec fn split_lines(s: Seq<char>) -> Seq<Seq<char>>
    decreases s.len(),
{
    if s.len() == 0 {
        seq![Seq::empty()]
    } else {
        let rest = split_lines(s.drop_last());
        if s.last() == '\n' {
            rest.push(Seq::empty())
        } else {
            rest.update(rest.len() - 1, rest.last().push(s.last()))
        }
    }
}

proof fn lemma_split_lines_nonempty(s: Seq<char>)
    ensures
        split_lines(s).len() > 0,
    decreases s.len(),
{
    if s.len() > 0 {
        lemma_split_lines_nonempty(s.drop_last());
    }
}

/// The lines of `s`.
pub fn lines_of(s: &[char]) -> (v: Vec<Vec<char>>)
    ensures
        v@.len() == split_lines(s@).len(),
        forall|i: int| 0 <= i < v@.len() ==> (#[trigger] v@[i])@ == split_lines(s@)[i],
{
    let mut v: Vec<Vec<char>> = Vec::new();
    v.push(Vec::new());
    let mut i: usize = 0;
    while i < s.len()
        invariant
            i <= s@.len(),
            v@.len() == split_lines(s@.take(i as int)).len(),
            v@.len() > 0,
            forall|k: int| 0 <= k < v@.len() ==> (#[trigger] v@[k])@ == split_lines(s@.take(i as int))[k],
        decreases s@.len() - i,
    {
        proof {
            assert(s@.take(i + 1).drop_last() =~= s@.take(i as int));
            lemma_split_lines_nonempty(s@.take(i as int));
        }
        if s[i] == '\n' {
            v.push(Vec::new());
        } else {
            let n = v.len();
            let mut last = v.pop().unwrap();
            last.push(s[i]);
            v.push(last);
            proof {
                let rest = split_lines(s@.take(i as int));
                assert(split_lines(s@.take(i + 1)) == rest.update(rest.len() - 1, rest.last().push(s@[i as int])));
                assert forall|k: int| 0 <= k < v@.len() implies (#[trigger] v@[k])@ == split_lines(
                    s@.take(i + 1),
                )[k] by {
                    if k < n - 1 {
                    }
                }
            }
        }
        i = i + 1;
    }
    proof {
        assert(s@.take(i as int) =~= s@);
    }
    v
}

/// The longest of `lines`.
pub open spec fn widest(lines: Seq<Seq<char>>) -> nat
    decreases lines.len(),
{
    if lines.len() == 0 {
        0
    } else {
        let w = widest(lines.drop_last());
        if lines.last().len() > w { lines.last().len() } else { w }
    }
}

proof fn lemma_widest(lines: Seq<Seq<char>>, k: int)
    requires
        0 <= k < lines.len(),
    ensures
        lines[k].len() <= widest(lines),
    decreases lines.len(),
{
    if k < lines.len() - 1 {
        lemma_widest(lines.drop_last(), k);
    }
}

/// The frame of a centred message box for a title of `title_len`
/// characters and `n` lines at most `wide` long, on a screen of `rows`
/// rows: `(x, y, w, h)`. The box fits the widest line (or the title)
/// with room either side, and is clamped to the screen.
pub open spec fn centred_box(title_len: int, wide: int, n: int, rows: int) -> (int, int, int, int) {
    let inner = if wide > title_len + 2 { wide } else { title_len + 2 };
    let w = if inner + 6 <= 80 { inner + 6 } else { 80 };
    let h = if n + 4 <= rows { n + 4 } else { rows };
    ((80 - w) / 2, (rows - h) / 2, w, h)
}

fn centred_geometry(title_len: usize, wide: usize, n: usize, rows: usize) -> (r: (usize, usize, usize, usize))
    requires
        rows >= 25,
    ensures
        (r.0 as int, r.1 as int, r.2 as int, r.3 as int) == centred_box(title_len as int, wide as int, n as int, rows as int),
        r.0 + r.2 <= 80,
        r.1 + r.3 <= rows,
        r.2 >= 6,
        r.3 >= 4,
        r.2 == 80 ==> r.0 == 0,
        r.2 < 80 ==> wide + 6 <= r.2 && title_len + 8 <= r.2,
{
    let w: usize = if wide <= 74 && title_len <= 72 {
        (if wide > title_len + 2 { wide } else { title_len + 2 }) + 6
    } else {
        80
    };
    let h: usize = if n <= rows - 4 { n + 4 } else { rows };
    ((80 - w) / 2, (rows - h) / 2, w, h)
}

/// Where ` title ` starts in the top edge of a box at `x`, `w` wide, for
/// a title of `n` characters: centred, or flush left when it is too long.
pub open spec fn title_col(x: int, w: int, n: int) -> int {
    x + (if w > n + 2 { w - n - 2 } else { 0 }) / 2
}

/// Sets ` title ` into the top edge of a box at `(x, y)`, `w` wide.
fn draw_title(screen: &mut Screen, x: usize, y: usize, w: usize, title: &[char], fg: u8, bg: u8)
    requires
        old(screen)@.wf(),
        x + w <= COLS,
        (y as int) < old(screen)@.rows(),
        w == 80 ==> x == 0,
        w < 80 ==> title@.len() + 8 <= w,
    ensures
        final(screen)@.wf(),
        final(screen)@.mode == old(screen)@.mode,
        final(screen)@.cursor == old(screen)@.cursor,
        forall|c: int, r: int| final(screen)@.on(c, r) && (r != y || c < x || c >= x + w) ==> #[trigger] final(screen)@.at(c, r) == old(screen)@.at(c, r),
        title@.len() == 0 ==> final(screen)@ == old(screen)@,
        forall|k: int| 0 <= k < title@.len() && title_col(x as int, w as int, title@.len() as int) + 1 + k < COLS ==> shows(
            #[trigger] final(screen)@.at(title_col(x as int, w as int, title@.len() as int) + 1 + k, y as int).glyph,
            title@[k],
        ),
{
    if title.len() == 0 {
        return;
    }
    let mut framed: Vec<char> = Vec::new();
    framed.push(' ');
    let mut j: usize = 0;
    while j < title.len()
        invariant
            j <= title@.len(),
            framed@ == seq![' '] + title@.take(j as int),
        decreases title@.len() - j,
    {
        framed.push(title[j]);
        j = j + 1;
        proof {
            assert(framed@ =~= seq![' '] + title@.take(j as int));
        }
    }
    framed.push(' ');
    proof {
        assert(title@.take(j as int) =~= title@);
        assert forall|k: int| 0 <= k < title@.len() implies framed@[1 + k] == title@[k] by {}
    }
    let fl = framed.len();
    let tx = x + (if w > fl { w - fl } else { 0 }) / 2;
    assert(tx + fl <= x + w || (x == 0 && w == 80));
    screen.put_chars(tx, y, framed.as_slice(), fg, bg);
}

/// Writes `lines` into the box at `(x, y)`, `w` by `h`, from its third
/// row and three columns in.
fn draw_body(screen: &mut Screen, x: usize, y: usize, w: usize, h: usize, lines: &Vec<Vec<char>>, fg: u8, bg: u8)
    requires
        old(screen)@.wf(),
        x + w <= COLS,
        y + h <= old(screen)@.rows(),
        h >= 4,
        w >= 6,
        w == 80 ==> x == 0,
        w < 80 ==> forall|q: int| 0 <= q < lines@.len() ==> (#[trigger] lines@[q])@.len() + 6 <= w,
    ensures
        final(screen)@.wf(),
        final(screen)@.mode == old(screen)@.mode,
        final(screen)@.cursor == old(screen)@.cursor,
        forall|c: int, r: int| final(screen)@.on(c, r) && !(x <= c < x + w && y + 2 <= r < y + h - 2) ==> #[trigger] final(screen)@.at(c, r) == old(screen)@.at(c, r),
        forall|q: int, c: int|
            0 <= q < h - 4 && q < lines@.len() && x + 3 <= c < COLS && c - (x + 3) < lines@[q]@.len() ==> shows(
                #[trigger] final(screen)@.at(c, y + 2 + q).glyph,
                lines@[q]@[c - (x + 3)],
            ),
{
    let body_rows = h - 4;
    let mut k: usize = 0;
    while k < lines.len() && k < body_rows
        invariant
            body_rows == h - 4,
            k <= lines@.len(),
            k <= body_rows,
            x + w <= COLS,
            y + h <= old(screen)@.rows(),
            w == 80 ==> x == 0,
            w < 80 ==> forall|q: int| 0 <= q < lines@.len() ==> (#[trigger] lines@[q])@.len() + 6 <= w,
            screen@.wf(),
            screen@.mode == old(screen)@.mode,
            screen@.cursor == old(screen)@.cursor,
            forall|c: int, r: int| screen@.on(c, r) && !(x <= c < x + w && y + 2 <= r < y + 2 + k) ==> #[trigger] screen@.at(c, r)
                == old(screen)@.at(c, r),
            forall|q: int, c: int|
                0 <= q < k && x + 3 <= c < COLS && c - (x + 3) < lines@[q]@.len() ==> shows(
                    #[trigger] screen@.at(c, y + 2 + q).glyph,
                    lines@[q]@[c - (x + 3)],
                ),
        decreases lines@.len() - k,
    {
        let ghost before_row = screen@;
        screen.put_chars(x + 3, y + 2 + k, lines[k].as_slice(), fg, bg);
        proof {
            assert forall|c: int, r: int| screen@.on(c, r) && !(x <= c < x + w && y + 2 <= r < y + 2 + k + 1)
                implies #[trigger] screen@.at(c, r) == old(screen)@.at(c, r) by {
                assert(before_row.at(c, r) == old(screen)@.at(c, r));
                if r == y + 2 + k {
                    assert(c < x + 3 || c >= x + 3 + lines@[k as int]@.len());
                }
            }
            assert forall|q: int, c: int|
                0 <= q < k + 1 && x + 3 <= c < COLS && c - (x + 3) < lines@[q]@.len() implies shows(
                #[trigger] screen@.at(c, y + 2 + q).glyph,
                lines@[q]@[c - (x + 3)],
            ) by {
                if q < k {
                    assert(before_row.at(c, y + 2 + q) == screen@.at(c, y + 2 + q));
                }
            }
        }
        k = k + 1;
    }
}

/// The frame of the centred box for `title` and `body` on a screen of
/// `rows` rows: `(x, y, w, h)`.
pub open spec fn box_frame(title: Seq<char>, body: Seq<char>, rows: int) -> (int, int, int, int) {
    let sl = split_lines(body);
    centred_box(title.len() as int, widest(sl) as int, sl.len() as int, rows)
}

/// Whether `(c, r)` lies inside that box.
pub open spec fn in_box(title: Seq<char>, body: Seq<char>, rows: int, c: int, r: int) -> bool {
    let (x, y, w, h) = box_frame(title, body, rows);
    in_rect(c, r, x, y, w, h)
}

/// What the centred box shows: its bottom corners (and top-left corner
/// when it has no title), and the lines of `body` from its third row,
/// three columns in, as many as fit.
pub open spec fn box_painted(title: Seq<char>, body: Seq<char>, s: ScreenView) -> bool {
    let sl = split_lines(body);
    let (x, y, w, h) = box_frame(title, body, s.rows());
    &&& forall|c: int| x <= c < x + w ==> (#[trigger] s.at(c, y + h - 1)).glyph == frame_glyph(c - x, h - 1, w, h)
    &&& (title.len() == 0 ==> s.at(x, y).glyph == 0xC9)
    &&& forall|k: int| 0 <= k < title.len() && title_col(x, w, title.len() as int) + 1 + k < COLS ==> shows(
        #[trigger] s.at(title_col(x, w, title.len() as int) + 1 + k, y).glyph,
        title[k],
    )
    &&& forall|k: int, c: int|
        0 <= k < h - 4 && k < sl.len() && x + 3 <= c < COLS && c - (x + 3) < sl[k].len()
            ==> shows(#[trigger] s.at(c, y + 2 + k).glyph, sl[k][c - (x + 3)])
}

/// A framed box centred on the screen: `title` set into its top edge,
/// the lines of `body` inside, three columns in from the frame.
pub fn draw_centered(screen: &mut Screen, title: &str, body: &str, fg: u8, bg: u8)
    requires
        old(screen)@.wf(),
    ensures
        final(screen)@.wf(),
        final(screen)@.mode == old(screen)@.mode,
        final(screen)@.cursor == old(screen)@.cursor,
        forall|c: int, r: int| final(screen)@.on(c, r) && !in_box(title@, body@, old(screen)@.rows(), c, r)
            ==> #[trigger] final(screen)@.at(c, r) == old(screen)@.at(c, r),
        box_painted(title@, body@, final(screen)@),
{
    let tcs = chars_of(title);
    let bcs = chars_of(body);
    let lines = lines_of(bcs.as_slice());
    let ghost sl = split_lines(body@);
    let mut wide: usize = 0;
    let mut i: usize = 0;
    while i < lines.len()
        invariant
            i <= lines@.len(),
            lines@.len() == sl.len(),
            forall|k: int| 0 <= k < lines@.len() ==> (#[trigger] lines@[k])@ == sl[k],
            wide == widest(sl.take(i as int)),
        decreases lines@.len() - i,
    {
        proof {
            assert(sl.take(i + 1).drop_last() =~= sl.take(i as int));
        }
        if lines[i].len() > wide {
            wide = lines[i].len();
        }
        i = i + 1;
    }
    proof {
        assert(sl.take(i as int) =~= sl);
        assert forall|q: int| 0 <= q < lines@.len() implies (#[trigger] lines@[q])@.len() <= wide by {
            lemma_widest(sl, q);
        }
    }
    let rows = screen.rows();
    let (x, y, w, h) = centred_geometry(tcs.len(), wide, lines.len(), rows);
    draw_box(screen, x, y, w, h, fg, bg);
    let ghost boxed = screen@;
    draw_title(screen, x, y, w, tcs.as_slice(), fg, bg);
    let ghost titled = screen@;
    draw_body(screen, x, y, w, h, &lines, fg, bg);
    proof {
        assert forall|c: int| x <= c < x + w implies (#[trigger] screen@.at(c, (y + h - 1) as int)).glyph == frame_glyph(
            c - x,
            h - 1,
            w as int,
            h as int,
        ) by {
            assert(screen@.on(c, (y + h - 1) as int));
            assert(screen@.at(c, (y + h - 1) as int) == titled.at(c, (y + h - 1) as int));
            assert(titled.at(c, (y + h - 1) as int) == boxed.at(c, (y + h - 1) as int));
        }
        assert forall|k: int| 0 <= k < title@.len() && title_col(x as int, w as int, title@.len() as int) + 1 + k < COLS implies shows(
            #[trigger] screen@.at(title_col(x as int, w as int, title@.len() as int) + 1 + k, y as int).glyph,
            title@[k],
        ) by {
            let c = title_col(x as int, w as int, title@.len() as int) + 1 + k;
            assert(screen@.at(c, y as int) == titled.at(c, y as int));
        }
        assert forall|c: int, r: int| screen@.on(c, r) && !in_rect(c, r, x as int, y as int, w as int, h as int)
            implies #[trigger] screen@.at(c, r) == old(screen)@.at(c, r) by {
            assert(titled.at(c, r) == boxed.at(c, r));
        }
    }
}

} // verus!
