//! The status line: the document's DOS-style name on the left, and on the
//! right where the caret sits on the printed page, in WordPerfect's terms.

use vstd::prelude::*;
use crate::text::{decimal, digit, push_char, push_decimal};

verus! {

/// Lines on a printed page: 11 inches at six lines to the inch, less an
/// inch of margin top and bottom.
pub const LINES_PER_PAGE: usize = 54;

/// Where the caret is on paper: the page (from 1), and its line and
/// column in hundredths of an inch from the page's edges.
#[derive(Clone, Copy, Debug, PartialEq, Eq, Structural)]
pub struct Measure {
    pub page: usize,
    pub ln: usize,
    pub pos: usize,
}

/// The measure of visual line `line`, column `col`: one inch of margin,
/// then six lines and ten characters to the inch, rounded to the
/// hundredth.
pub open spec fn measure_of(line: int, col: int) -> Measure {
    Measure {
        page: (line / 54 + 1) as usize,
        ln: (100 + ((line % 54) * 100 + 3) / 6) as usize,
        pos: (100 + col * 10) as usize,
    }
}

pub fn measure(line: usize, col: usize) -> (m: Measure)
    requires
        col * 10 + 100 <= usize::MAX,
    ensures
        m == measure_of(line as int, col as int),
{
    Measure {
        page: line / LINES_PER_PAGE + 1,
        ln: 100 + ((line % LINES_PER_PAGE) * 100 + 3) / 6,
        pos: 100 + col * 10,
    }
}

/// Hundredths of an inch as WordPerfect shows them: whole inches, and
/// the fraction with its trailing zeros dropped.
pub open spec fn inches(h: nat) -> Seq<char> {
    let whole = decimal(h / 100);
    let frac = h % 100;
    if frac == 0 {
        whole
    } else if frac % 10 == 0 {
        whole + seq!['.', digit(frac / 10)]
    } else {
        whole + seq!['.', digit(frac / 10), digit(frac % 10)]
    }
}

fn digit_of(d: usize) -> (c: char)
    requires
        d < 10,
    ensures
        c == digit(d as nat),
{
    if d == 0 { '0' }
    else if d == 1 { '1' }
    else if d == 2 { '2' }
    else if d == 3 { '3' }
    else if d == 4 { '4' }
    else if d == 5 { '5' }
    else if d == 6 { '6' }
    else if d == 7 { '7' }
    else if d == 8 { '8' }
    else { '9' }
}

fn push_inches(s: &mut String, h: usize)
    ensures
        final(s)@ == old(s)@ + inches(h as nat),
{
    let ghost start = s@;
    push_decimal(s, (h / 100) as u64);
    let frac = h % 100;
    if frac != 0 {
        push_char(s, '.');
        push_char(s, digit_of(frac / 10));
        if frac % 10 != 0 {
            push_char(s, digit_of(frac % 10));
        }
    }
    proof {
        assert(s@ =~= start + inches(h as nat));
    }
}

/// The right field: document, page, line and position.
pub open spec fn right_field_of(m: Measure) -> Seq<char> {
    "Doc 1   Pg "@ + decimal(m.page as nat) + "   Ln "@ + inches(m.ln as nat) + "\"   Pos "@ + inches(
        m.pos as nat,
    ) + "\""@
}

pub fn right_field(m: &Measure) -> (s: String)
    ensures
        s@ == right_field_of(*m),
{
    let mut s = String::from_str("Doc 1   Pg ");
    push_decimal(&mut s, m.page as u64);
    s.append("   Ln ");
    push_inches(&mut s, m.ln);
    s.append("\"   Pos ");
    push_inches(&mut s, m.pos);
    s.append("\"");
    s
}

/// A path as DOS would print it: a drive letter, backslashes, capitals.
pub open spec fn dos_char(c: char) -> char {
    if c == '/' {
        '\\'
    } else if 'a' <= c <= 'z' {
        ((c as u32) - 32) as char
    } else {
        c
    }
}

/// The left field: the document's name, or `(UNTITLED)`, then ` *` when
/// there are unsaved changes.
pub open spec fn dos_path_of(path: Option<Seq<char>>, dirty: bool) -> Seq<char> {
    let name = match path {
        Some(p) => "C:"@ + p.map_values(|c: char| dos_char(c)),
        None => "(UNTITLED)"@,
    };
    if dirty {
        name + " *"@
    } else {
        name
    }
}

fn dos_char_exec(c: char) -> (d: char)
    ensures
        d == dos_char(c),
{
    if c == '/' {
        '\\'
    } else if 'a' <= c && c <= 'z' {
        let u = (c as u8) - 32;
        u as char
    } else {
        c
    }
}

pub fn dos_path(path: Option<&str>, dirty: bool) -> (s: String)
    ensures
        s@ == dos_path_of(
            match path {
                Some(p) => Some(p@),
                None => None,
            },
            dirty,
        ),
{
    let mut s = match path {
        Some(p) => {
            let cs = crate::text::chars_of(p);
            let mut out = String::from_str("C:");
            let ghost start = out@;
            let mut i: usize = 0;
            while i < cs.len()
                invariant
                    i <= cs@.len(),
                    cs@ == p@,
                    out@ == start + cs@.take(i as int).map_values(|c: char| dos_char(c)),
                decreases cs@.len() - i,
            {
                push_char(&mut out, dos_char_exec(cs[i]));
                i = i + 1;
                proof {
                    assert(out@ =~= start + cs@.take(i as int).map_values(|c: char| dos_char(c)));
                }
            }
            proof {
                assert(cs@.take(i as int) =~= cs@);
            }
            out
        },
        None => String::from_str("(UNTITLED)"),
    };
    if dirty {
        s.append(" *");
    }
    s
}

/// The readout steps the way paper does: each column right is a tenth
/// of an inch further along, each line down a sixth of an inch further
/// down (rounded to the hundredth) within the page, and every 54 lines
/// a new page begins back at the one-inch top margin.
pub proof fn law_the_measure_steps_like_paper(line: int, col: int)
    requires
        0 <= line <= usize::MAX,
        0 <= col,
        col * 10 + 110 <= usize::MAX,
    ensures
        measure_of(line, col + 1).pos == measure_of(line, col).pos + 10,
        measure_of(line, 0).pos == 100,
        measure_of(line + 54, col).page == measure_of(line, col).page + 1,
        measure_of(line + 54, col).ln == measure_of(line, col).ln,
        measure_of(line * 54, col).ln == 100,
        line % 54 < 53 ==> measure_of(line + 1, col).page == measure_of(line, col).page,
        line % 54 < 53 ==> measure_of(line + 1, col).ln - measure_of(line, col).ln == 16
            || measure_of(line + 1, col).ln - measure_of(line, col).ln == 17,
{
    assert((line + 54) / 54 == line / 54 + 1) by (nonlinear_arith);
    assert((line + 54) % 54 == line % 54) by (nonlinear_arith);
    assert((line * 54) % 54 == 0) by (nonlinear_arith);
    if line % 54 < 53 {
        assert((line + 1) / 54 == line / 54 && (line + 1) % 54 == line % 54 + 1) by (nonlinear_arith)
            requires line % 54 < 53;
    }
}

} // verus!
