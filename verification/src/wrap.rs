//! Soft wrapping: the document as the visual lines the screen shows.
//!
//! Text wraps at `TEXT_COLS` columns, centred in the 80-column screen.
//! A line breaks after the last space that fits; a word longer than a
//! whole line is cut at the column limit. Hard newlines always break,
//! and the newline itself belongs to no visual line.

use vstd::prelude::*;

verus! {

/// Columns of text: a 6.5" line at 10 characters to the inch.
pub const TEXT_COLS: usize = 65;
/// The grid column where text starts, centring it in 80 columns.
pub const TEXT_LEFT: usize = 7;
/// The grid row of the first text line; row 0 is a blank margin.
pub const TEXT_TOP: usize = 1;

/// One visual line: the characters `start..end` of the document.
#[derive(Clone, Copy, Debug, PartialEq, Eq, Structural)]
pub struct VisualLine {
    pub start: usize,
    pub end: usize,
}

/// The first newline at or after `i`, or the end of the text.
pub open spec fn next_newline(text: Seq<char>, i: int) -> int
    decreases text.len() - i,
{
    if i >= text.len() {
        text.len() as int
    } else if text[i] == '\n' {
        i
    } else {
        next_newline(text, i + 1)
    }
}

/// The furthest break point in `start+1..=limit` that follows a space,
/// or `start` when there is none.
pub open spec fn space_break(text: Seq<char>, start: int, limit: int) -> int
    decreases limit - start,
{
    if limit <= start {
        start
    } else if text[limit - 1] == ' ' {
        limit
    } else {
        space_break(text, start, limit - 1)
    }
}

/// Where the visual line that begins at `start` ends: at the paragraph's
/// end if the rest of the paragraph fits, else after the last space that
/// fits, else at the column limit.
pub open spec fn line_end(text: Seq<char>, cols: int, start: int) -> int {
    let nl = next_newline(text, start);
    if nl - start <= cols {
        nl
    } else {
        let k = space_break(text, start, start + cols);
        if k > start {
            k
        } else {
            start + cols
        }
    }
}

/// Where the visual line after the one at `start` begins: past the
/// newline at a hard break, straight on at a soft one.
pub open spec fn line_next(text: Seq<char>, cols: int, start: int) -> int {
    let e = line_end(text, cols, start);
    if e == next_newline(text, start) {
        e + 1
    } else {
        e
    }
}

/// `lines` is the wrap of `text` at `cols` columns: it starts at the
/// beginning, every line ends where `line_end` says, every next line
/// begins where `line_next` says, and the last line reaches the end.
pub open spec fn is_wrap(text: Seq<char>, cols: int, lines: Seq<VisualLine>) -> bool {
    &&& lines.len() > 0
    &&& lines[0].start == 0
    &&& forall|i: int| 0 <= i < lines.len() ==> #[trigger] lines[i].end == line_end(text, cols, lines[i].start as int)
    &&& forall|i: int| 0 <= i < lines.len() - 1 ==> (#[trigger] lines[i]).end < text.len() && lines[i + 1].start
        == line_next(text, cols, lines[i].start as int)
    &&& lines.last().end == text.len()
}

/// The shape every wrap has, which is all that moving through it needs:
/// lines in order from offset 0 to `len`, each next line starting where
/// the previous one ended (a soft break, after a non-empty line) or one
/// past it (the newline of a hard break).
pub open spec fn lines_ok(lines: Seq<VisualLine>, len: int) -> bool {
    &&& lines.len() > 0
    &&& lines[0].start == 0
    &&& lines.last().end == len
    &&& forall|i: int| 0 <= i < lines.len() ==> (#[trigger] lines[i]).start <= lines[i].end <= len
    &&& forall|i: int| 0 <= i < lines.len() - 1 ==> {
        ||| (lines[i + 1].start == (#[trigger] lines[i]).end && lines[i].start < lines[i].end)
        ||| lines[i + 1].start == lines[i].end + 1
    }
}

/// Whether the break after line `i` is soft (inside a paragraph).
pub open spec fn soft_after(lines: Seq<VisualLine>, i: int) -> bool {
    i + 1 < lines.len() && lines[i + 1].start == lines[i].end
}

proof fn lemma_next_newline(text: Seq<char>, i: int)
    requires
        0 <= i <= text.len(),
    ensures
        i <= next_newline(text, i) <= text.len(),
        next_newline(text, i) < text.len() ==> text[next_newline(text, i)] == '\n',
        forall|m: int| i <= m < next_newline(text, i) ==> text[m] != '\n',
    decreases text.len() - i,
{
    if i < text.len() && text[i] != '\n' {
        lemma_next_newline(text, i + 1);
    }
}

proof fn lemma_next_newline_skip(text: Seq<char>, i: int, j: int)
    requires
        0 <= i <= j <= text.len(),
        forall|m: int| i <= m < j ==> text[m] != '\n',
    ensures
        next_newline(text, i) == next_newline(text, j),
    decreases j - i,
{
    if i < j {
        lemma_next_newline_skip(text, i + 1, j);
    }
}

proof fn lemma_space_break(text: Seq<char>, start: int, limit: int)
    requires
        0 <= start <= limit <= text.len(),
    ensures
        start <= space_break(text, start, limit) <= limit,
        space_break(text, start, limit) > start ==> text[space_break(text, start, limit) - 1] == ' ',
    decreases limit - start,
{
    if limit > start && text[limit - 1] != ' ' {
        lemma_space_break(text, start, limit - 1);
    }
}

/// Every visual line lies within the text, fits the column width, and
/// holds no newline; the next line follows it directly at a soft break,
/// or just past the newline at a hard one.
pub proof fn lemma_line(text: Seq<char>, cols: int, start: int)
    requires
        cols > 0,
        0 <= start <= text.len(),
    ensures
        start <= line_end(text, cols, start) <= text.len(),
        line_end(text, cols, start) - start <= cols,
        forall|m: int| start <= m < line_end(text, cols, start) ==> text[m] != '\n',
        line_next(text, cols, start) == line_end(text, cols, start) + 1 ==> line_end(text, cols, start)
            == next_newline(text, start),
        line_next(text, cols, start) == line_end(text, cols, start) ==> line_end(text, cols, start) > start,
        line_next(text, cols, start) == line_end(text, cols, start) || line_next(text, cols, start)
            == line_end(text, cols, start) + 1,
        line_end(text, cols, start) < text.len() ==> start < line_next(text, cols, start) <= text.len(),
        line_end(text, cols, start) < text.len() && line_next(text, cols, start) == line_end(text, cols, start) + 1
            ==> text[line_end(text, cols, start)] == '\n',
{
    lemma_next_newline(text, start);
    let nl = next_newline(text, start);
    if nl - start > cols {
        lemma_space_break(text, start, start + cols);
    }
}

/// A wrap has the shape that moving through it relies on.
pub proof fn lemma_wrap_ok(text: Seq<char>, cols: int, lines: Seq<VisualLine>)
    requires
        cols > 0,
        is_wrap(text, cols, lines),
    ensures
        lines_ok(lines, text.len() as int),
{
    assert forall|i: int| 0 <= i < lines.len() implies (#[trigger] lines[i]).start <= lines[i].end <= text.len()
        && lines[i].start <= text.len() by {
        lemma_wrap_starts(text, cols, lines, i);
        lemma_line(text, cols, lines[i].start as int);
    }
    assert forall|i: int| 0 <= i < lines.len() - 1 implies {
        ||| (lines[i + 1].start == (#[trigger] lines[i]).end && lines[i].start < lines[i].end)
        ||| lines[i + 1].start == lines[i].end + 1
    } by {
        lemma_wrap_starts(text, cols, lines, i);
        lemma_line(text, cols, lines[i].start as int);
    }
}

proof fn lemma_wrap_starts(text: Seq<char>, cols: int, lines: Seq<VisualLine>, i: int)
    requires
        cols > 0,
        is_wrap(text, cols, lines),
        0 <= i < lines.len(),
    ensures
        lines[i].start <= text.len(),
    decreases i,
{
    if i > 0 {
        lemma_wrap_starts(text, cols, lines, i - 1);
        assert(lines[i - 1].end < text.len());
        lemma_line(text, cols, lines[i - 1].start as int);
    }
}

/// Every visual line fits the width and holds no newline, and every
/// hard break sits on a newline of the text: wrapping only decides where
/// lines break, it never changes the text.
pub proof fn lemma_wrap_faithful(text: Seq<char>, cols: int, lines: Seq<VisualLine>)
    requires
        cols > 0,
        is_wrap(text, cols, lines),
    ensures
        forall|i: int| 0 <= i < lines.len() ==> (#[trigger] lines[i]).end - lines[i].start <= cols,
        forall|i: int, m: int| 0 <= i < lines.len() && (#[trigger] lines[i]).start <= m < lines[i].end ==> #[trigger] text[m]
            != '\n',
        forall|i: int| 0 <= i < lines.len() - 1 && lines[i + 1].start == (#[trigger] lines[i]).end + 1 ==> text[lines[i].end as int]
            == '\n',
{
    assert forall|i: int| 0 <= i < lines.len() implies (#[trigger] lines[i]).end - lines[i].start <= cols by {
        lemma_wrap_starts(text, cols, lines, i);
        lemma_line(text, cols, lines[i].start as int);
    }
    assert forall|i: int, m: int| 0 <= i < lines.len() && (#[trigger] lines[i]).start <= m < lines[i].end implies #[trigger] text[m]
        != '\n' by {
        lemma_wrap_starts(text, cols, lines, i);
        lemma_line(text, cols, lines[i].start as int);
    }
    assert forall|i: int| 0 <= i < lines.len() - 1 && lines[i + 1].start == (#[trigger] lines[i]).end + 1 implies text[lines[i].end as int]
        == '\n' by {
        lemma_wrap_starts(text, cols, lines, i);
        lemma_line(text, cols, lines[i].start as int);
    }
}

/// The end of the line starting at `start`, and where the next begins.
fn line_at(text: &[char], cols: usize, start: usize) -> (r: (usize, usize))
    requires
        cols > 0,
        start <= text@.len(),
    ensures
        r.0 == line_end(text@, cols as int, start as int),
        r.0 < text@.len() ==> r.1 == line_next(text@, cols as int, start as int),
{
    proof {
        lemma_next_newline(text@, start as int);
    }
    let len = text.len();
    let mut j: usize = start;
    while j < len && j - start <= cols && text[j] != '\n'
        invariant
            start <= j <= len,
            len == text@.len(),
            j - start <= cols + 1,
            forall|m: int| start <= m < j ==> text@[m] != '\n',
        decreases len - j,
    {
        j = j + 1;
    }
    proof {
        lemma_next_newline_skip(text@, start as int, j as int);
        lemma_next_newline(text@, j as int);
    }
    if j - start <= cols {
        // The rest of the paragraph fits: the line runs to its end.
        if j < len {
            (j, j + 1)
        } else {
            (j, j)
        }
    } else {
        // Too long: break after the last space that fits.
        let limit = start + cols;
        let mut k: usize = limit;
        while k > start && text[k - 1] != ' '
            invariant
                start <= k <= limit,
                limit == start + cols,
                limit < len,
                len == text@.len(),
                space_break(text@, start as int, limit as int) == space_break(text@, start as int, k as int),
            decreases k,
        {
            k = k - 1;
        }
        if k > start {
            (k, k)
        } else {
            (limit, limit)
        }
    }
}

/// Wraps `text` into visual lines of at most `cols` columns.
pub fn wrap(text: &[char], cols: usize) -> (lines: Vec<VisualLine>)
    requires
        cols > 0,
    ensures
        is_wrap(text@, cols as int, lines@),
{
    let len = text.len();
    let mut lines: Vec<VisualLine> = Vec::new();
    let mut start: usize = 0;
    loop
        invariant
            len == text@.len(),
            cols > 0,
            start <= len,
            lines@.len() == 0 ==> start == 0,
            lines@.len() > 0 ==> lines@[0].start == 0,
            lines@.len() > 0 ==> lines@.last().end < len && start == line_next(
                text@,
                cols as int,
                lines@.last().start as int,
            ),
            forall|i: int| 0 <= i < lines@.len() ==> #[trigger] lines@[i].end == line_end(
                text@,
                cols as int,
                lines@[i].start as int,
            ),
            forall|i: int| 0 <= i < lines@.len() - 1 ==> (#[trigger] lines@[i]).end < text@.len() && lines@[i + 1].start
                == line_next(text@, cols as int, lines@[i].start as int),
        decreases len - start,
    {
        let (end, next) = line_at(text, cols, start);
        proof {
            lemma_line(text@, cols as int, start as int);
        }
        let ghost before = lines@;
        lines.push(VisualLine { start, end });
        if end == len {
            return lines;
        }
        proof {
            assert(lines@.last() == VisualLine { start, end });
            assert forall|i: int| 0 <= i < lines@.len() - 1 implies (#[trigger] lines@[i]).end < text@.len()
                && lines@[i + 1].start == line_next(text@, cols as int, lines@[i].start as int) by {
                if i < before.len() - 1 {
                    assert(lines@[i] == before[i]);
                    assert(lines@[i + 1] == before[i + 1]);
                } else {
                    assert(lines@[i] == before.last());
                }
            }
        }
        start = next;
    }
}

/// The visual line holding `offset`, and its column within that line.
/// A soft break's offset belongs to the line that starts there.
pub open spec fn line_holding(lines: Seq<VisualLine>, offset: int, line: int) -> bool {
    &&& 0 <= line < lines.len()
    &&& lines[line].start <= offset
    &&& (line + 1 == lines.len() || offset < lines[line + 1].start)
}

/// The (visual line, column) of a character offset.
pub fn position_of(lines: &[VisualLine], offset: usize) -> (r: (usize, usize))
    requires
        lines@.len() > 0,
        lines@[0].start == 0,
    ensures
        line_holding(lines@, offset as int, r.0 as int),
        r.1 == offset - lines@[r.0 as int].start,
{
    let n = lines.len();
    let mut i: usize = 0;
    while i + 1 < n && lines[i + 1].start <= offset
        invariant
            i < n,
            n == lines@.len(),
            lines@[i as int].start <= offset,
        decreases n - i,
    {
        i = i + 1;
    }
    (i, offset - lines[i].start)
}

/// The offset that column `col` of visual line `line` lands on: the line
/// is clamped to the last one, the column to the line's length. At a soft
/// break the line's end is also the next line's start, so the column
/// stops one short of it to stay on this line.
pub open spec fn offset_at_spec(lines: Seq<VisualLine>, line: int, col: int) -> int {
    let i = if line < lines.len() { line } else { lines.len() - 1 };
    let l = lines[i];
    let width = if soft_after(lines, i) { l.end - l.start - 1 } else { l.end - l.start };
    l.start + if col < width { col } else { width }
}

/// The character offset under column `col` of visual line `line`.
pub fn offset_at(lines: &[VisualLine], line: usize, col: usize) -> (r: usize)
    requires
        lines_ok(lines@, lines@.last().end as int),
    ensures
        r == offset_at_spec(lines@, line as int, col as int),
{
    let n = lines.len();
    let i = if line < n { line } else { n - 1 };
    let l = lines[i];
    assert(lines@[i as int] == l);
    let width = if i + 1 < n && lines[i + 1].start == l.end {
        l.end - l.start - 1
    } else {
        l.end - l.start
    };
    l.start + if col < width { col } else { width }
}

/// Placing the cursor on a line by column keeps it on that line: the
/// offset `offset_at` gives for a line `position_of` reads back as that
/// same line (the last one, for a line past the end).
pub proof fn lemma_offset_at_on_line(lines: Seq<VisualLine>, line: int, col: int)
    requires
        lines_ok(lines, lines.last().end as int),
        0 <= line,
        0 <= col,
    ensures
        line_holding(
            lines,
            offset_at_spec(lines, line, col),
            if line < lines.len() { line } else { lines.len() - 1 },
        ),
{
    let i = if line < lines.len() { line } else { lines.len() - 1 };
    assert(lines[i].start <= lines[i].end);
    if i + 1 < lines.len() {
        assert(lines[i + 1].start == lines[i].end && lines[i].start < lines[i].end || lines[i + 1].start
            == lines[i].end + 1);
    }
}

/// The visual line holding `offset`.
pub open spec fn line_of(lines: Seq<VisualLine>, offset: int) -> int {
    choose|l: int| line_holding(lines, offset, l)
}

proof fn lemma_starts_increase(lines: Seq<VisualLine>, len: int, i: int, j: int)
    requires
        lines_ok(lines, len),
        0 <= i < j < lines.len(),
    ensures
        lines[i].start < lines[j].start,
    decreases j - i,
{
    let k = j - 1;
    assert(lines[k + 1].start == lines[k].end && lines[k].start < lines[k].end || lines[k + 1].start == lines[k].end + 1);
    assert(lines[k].start <= lines[k].end);
    if i < k {
        lemma_starts_increase(lines, len, i, k);
    }
}

/// Exactly one visual line holds any offset: `line_of` names it.
pub proof fn lemma_line_of(lines: Seq<VisualLine>, len: int, offset: int, l: int)
    requires
        lines_ok(lines, len),
        line_holding(lines, offset, l),
    ensures
        line_of(lines, offset) == l,
{
    let c = line_of(lines, offset);
    assert(line_holding(lines, offset, c));
    if c < l {
        if c + 1 < l {
            lemma_starts_increase(lines, len, c + 1, l);
        }
    } else if l < c {
        if l + 1 < c {
            lemma_starts_increase(lines, len, l + 1, c);
        }
    }
}

/// From line `j` on, some line holds `offset`.
proof fn lemma_holding_from(lines: Seq<VisualLine>, len: int, offset: int, j: int)
    requires
        lines_ok(lines, len),
        0 <= j < lines.len(),
        lines[j].start <= offset,
    ensures
        exists|l: int| line_holding(lines, offset, l),
    decreases lines.len() - j,
{
    if j + 1 < lines.len() && lines[j + 1].start <= offset {
        lemma_holding_from(lines, len, offset, j + 1);
    } else {
        assert(line_holding(lines, offset, j));
    }
}

/// Every offset of the text, its end included, lies on some visual line.
pub proof fn lemma_line_exists(lines: Seq<VisualLine>, len: int, offset: int)
    requires
        lines_ok(lines, len),
        0 <= offset,
    ensures
        exists|l: int| line_holding(lines, offset, l),
        0 <= line_of(lines, offset) < lines.len(),
{
    lemma_holding_from(lines, len, offset, 0);
}

/// Reading an offset as (line, column) and placing the caret at that
/// line and column gives the offset back: a click where the caret is
/// leaves it there.
pub proof fn law_offset_round_trip(lines: Seq<VisualLine>, len: int, off: int)
    requires
        lines_ok(lines, len),
        0 <= off <= len,
    ensures
        offset_at_spec(lines, line_of(lines, off), off - lines[line_of(lines, off)].start) == off,
{
    lemma_line_exists(lines, len, off);
    let l = line_of(lines, off);
    assert(line_holding(lines, off, l));
    assert(lines[l].start <= lines[l].end);
    if l + 1 < lines.len() {
        assert(lines[l + 1].start == lines[l].end && lines[l].start < lines[l].end || lines[l + 1].start == lines[l].end + 1);
    } else {
        assert(lines[l] == lines.last());
    }
}

/// No space lies between where `space_break` stops and the limit, and
/// none at all in the range when it finds none.
proof fn lemma_space_break_last(text: Seq<char>, start: int, limit: int)
    requires
        0 <= start <= limit <= text.len(),
    ensures
        forall|j: int| space_break(text, start, limit) <= j < limit && start <= j ==> text[j] != ' ',
    decreases limit - start,
{
    if limit > start && text[limit - 1] != ' ' {
        lemma_space_break_last(text, start, limit - 1);
    }
}

/// A line breaks inside a paragraph only where the paragraph runs past
/// the column width, and then right after the last space that fits on
/// it; a word longer than the whole width is cut at the width. So text
/// is never broken inside a word that could have moved down whole.
pub proof fn law_soft_breaks_after_the_last_space_that_fits(text: Seq<char>, cols: int, lines: Seq<VisualLine>, i: int)
    requires
        cols > 0,
        is_wrap(text, cols, lines),
        0 <= i < lines.len() - 1,
        lines[i + 1].start == lines[i].end,
    ensures
        ({
            let start = lines[i].start as int;
            let end = lines[i].end as int;
            &&& start + cols < text.len()
            &&& forall|j: int| start <= j <= start + cols ==> text[j] != '\n'
            &&& (exists|j: int| start <= j < start + cols && text[j] == ' ') ==> {
                &&& start < end
                &&& text[end - 1] == ' '
                &&& forall|j: int| end <= j < start + cols ==> text[j] != ' '
            }
            &&& (forall|j: int| start <= j < start + cols ==> text[j] != ' ') ==> end == start + cols
        }),
{
    let start = lines[i].start as int;
    lemma_wrap_starts(text, cols, lines, i);
    lemma_line(text, cols, start);
    lemma_next_newline(text, start);
    let nl = next_newline(text, start);
    let e = line_end(text, cols, start);
    assert(lines[i].end == e);
    assert(lines[i + 1].start == line_next(text, cols, start));
    assert(e < text.len());
    assert(nl - start > cols) by {
        if nl - start <= cols {
            assert(e == nl);
        }
    }
    lemma_space_break(text, start, start + cols);
    lemma_space_break_last(text, start, start + cols);
    let k = space_break(text, start, start + cols);
    if exists|j: int| start <= j < start + cols && text[j] == ' ' {
        let j = choose|j: int| start <= j < start + cols && text[j] == ' ';
        assert(k > start);
    }
}

} // verus!
