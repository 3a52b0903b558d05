//! Printing the way a line printer took it: plain text, ten characters
//! to the inch, six lines to the inch, a form feed between pages. The
//! page geometry is the same one the status line reports, so "Pg 3"
//! on screen is page 3 on paper.

use vstd::prelude::*;
use crate::status::LINES_PER_PAGE;
use crate::text::{is_space, repeat, space, string_of, push_char, push_repeat};
use crate::wrap::VisualLine;

verus! {

/// One inch of left margin at 10 cpi.
pub const LEFT_MARGIN: usize = 10;
/// One inch of top margin at 6 lpi.
pub const TOP_MARGIN: usize = 6;
pub const FORM_FEED: char = '\x0c';

/// What the Print screen was asked for.
#[derive(Copy, Clone, Debug, PartialEq, Eq, Structural)]
pub enum Scope {
    /// Everything, in order.
    Full,
    /// A single zero-based page.
    Page(usize),
}

/// Where the job goes.
#[derive(Copy, Clone, Debug, PartialEq, Eq, Structural)]
pub enum Request {
    Printer(Scope),
    /// Written to disk as the printer would have received it.
    ToFile(Scope),
}

/// The zero-based page a visual line falls on.
pub fn page_of(visual_line: usize) -> (p: usize)
    ensures
        p == visual_line / 54,
{
    visual_line / LINES_PER_PAGE
}

/// Pages needed for `n` lines: at least one, as the status line says.
pub open spec fn pages_for(n: int) -> int {
    if n == 0 {
        1
    } else {
        (n + 53) / 54
    }
}

/// How many pages the document occupies. An empty document is still
/// one page.
pub fn page_count(lines: &[VisualLine]) -> (n: usize)
    ensures
        n == pages_for(lines@.len() as int),
{
    let n = lines.len();
    if n == 0 {
        1
    } else {
        n / LINES_PER_PAGE + if n % LINES_PER_PAGE != 0 { 1 } else { 0 }
    }
}

/// `s` without its trailing whitespace.
pub open spec fn trim_end(s: Seq<char>) -> Seq<char>
    decreases s.len(),
{
    if s.len() > 0 && is_space(s.last()) {
        trim_end(s.drop_last())
    } else {
        s
    }
}

/// The lines of the document as they go on paper, `start..end` of each
/// visual line with trailing whitespace trimmed.
pub open spec fn printed_line(text: Seq<char>, l: VisualLine) -> Seq<char> {
    trim_end(text.subrange(l.start as int, l.end as int))
}

/// The pages: consecutive runs of `LINES_PER_PAGE` visual lines, the last
/// one possibly shorter; a document without lines is one blank page.
pub open spec fn pages_of(text: Seq<char>, lines: Seq<VisualLine>) -> Seq<Seq<Seq<char>>> {
    Seq::new(
        pages_for(lines.len() as int) as nat,
        |p: int|
            Seq::new(
                (if lines.len() - p * 54 < 54 { lines.len() - p * 54 } else { 54 }) as nat,
                |k: int| printed_line(text, lines[p * 54 + k]),
            ),
    )
}

/// Every visual line lies within the text.
pub open spec fn lines_in(text: Seq<char>, lines: Seq<VisualLine>) -> bool {
    forall|i: int| 0 <= i < lines.len() ==> (#[trigger] lines[i]).start <= lines[i].end <= text.len()
}

fn trimmed(text: &[char], start: usize, end: usize) -> (s: String)
    requires
        start <= end <= text@.len(),
    ensures
        s@ == trim_end(text@.subrange(start as int, end as int)),
{
    let mut e = end;
    while e > start && space(text[e - 1])
        invariant
            start <= e <= end <= text@.len(),
            trim_end(text@.subrange(start as int, end as int)) == trim_end(text@.subrange(start as int, e as int)),
        decreases e,
    {
        proof {
            assert(text@.subrange(start as int, e as int).drop_last() =~= text@.subrange(start as int, e - 1));
        }
        e = e - 1;
    }
    let mut v: Vec<char> = Vec::new();
    let mut i = start;
    while i < e
        invariant
            start <= i <= e <= text@.len(),
            v@ == text@.subrange(start as int, i as int),
        decreases e - i,
    {
        v.push(text[i]);
        i = i + 1;
        proof {
            assert(v@ =~= text@.subrange(start as int, i as int));
        }
    }
    proof {
        let t = text@.subrange(start as int, e as int);
        assert(!(t.len() > 0 && is_space(t.last())));
    }
    string_of(v.as_slice())
}

/// The views of the pages' strings.
pub open spec fn pages_view(pages: Seq<Vec<String>>) -> Seq<Seq<Seq<char>>> {
    Seq::new(pages.len(), |p: int| Seq::new(pages[p]@.len(), |k: int| pages[p]@[k]@))
}

/// Split the wrapped document into pages of at most `LINES_PER_PAGE`
/// lines each, with trailing whitespace trimmed so a blank line is
/// really blank.
pub fn paginate(text: &[char], lines: &[VisualLine]) -> (pages: Vec<Vec<String>>)
    requires
        lines_in(text@, lines@),
    ensures
        pages_view(pages@) == pages_of(text@, lines@),
{
    let n = lines.len();
    let count = page_count(lines);
    let ghost want = pages_of(text@, lines@);
    let mut pages: Vec<Vec<String>> = Vec::new();
    let mut p: usize = 0;
    while p < count
        invariant
            p <= count,
            count == pages_for(n as int),
            n == lines@.len(),
            lines_in(text@, lines@),
            want == pages_of(text@, lines@),
            pages@.len() == p,
            forall|q: int| 0 <= q < p ==> pages_view(pages@)[q] =~= want[q],
        decreases count - p,
    {
        let lo = p * LINES_PER_PAGE;
        let hi = if n - lo < LINES_PER_PAGE { n } else { lo + LINES_PER_PAGE };
        let mut page: Vec<String> = Vec::new();
        let mut k = lo;
        while k < hi
            invariant
                lo <= k <= hi <= n,
                lo == p * 54,
                hi == if n - lo < 54 { n as int } else { lo + 54 },
                n == lines@.len(),
                lines_in(text@, lines@),
                page@.len() == k - lo,
                forall|j: int| 0 <= j < page@.len() ==> (#[trigger] page@[j])@ == printed_line(
                    text@,
                    lines@[lo + j],
                ),
            decreases hi - k,
        {
            let l = lines[k];
            assert(lines@[k as int] == l);
            page.push(trimmed(text, l.start, l.end));
            k = k + 1;
        }
        let ghost before = pages@;
        pages.push(page);
        proof {
            assert forall|q: int| 0 <= q < p + 1 implies pages_view(pages@)[q] =~= want[q] by {
                if q < p {
                    assert(pages@[q] == before[q]);
                    assert(pages_view(pages@)[q] == pages_view(before)[q]);
                }
            }
        }
        p = p + 1;
    }
    proof {
        assert(pages_view(pages@) =~= want);
    }
    pages
}

/// One printed line: the left margin then the text, or nothing at all
/// for a blank line, so it carries no stray spaces.
pub open spec fn render_line(l: Seq<char>) -> Seq<char> {
    if l.len() == 0 {
        seq!['\n']
    } else {
        repeat(' ', 10) + l + seq!['\n']
    }
}

/// One page: the top margin, then its lines.
pub open spec fn render_page(page: Seq<Seq<char>>) -> Seq<char>
    decreases page.len(),
{
    if page.len() == 0 {
        repeat('\n', 6)
    } else {
        render_page(page.drop_last()) + render_line(page.last())
    }
}

/// The pages in order, a form feed between each two and none after the
/// last.
pub open spec fn render_pages(pages: Seq<Seq<Seq<char>>>) -> Seq<char>
    decreases pages.len(),
{
    if pages.len() == 0 {
        Seq::empty()
    } else if pages.len() == 1 {
        render_page(pages[0])
    } else {
        render_pages(pages.drop_last()) + seq![FORM_FEED] + render_page(pages.last())
    }
}

fn render_page_into(out: &mut String, page: &Vec<String>)
    ensures
        final(out)@ == old(out)@ + render_page(Seq::new(page@.len(), |k: int| page@[k]@)),
{
    let ghost start = out@;
    let ghost pv = Seq::new(page@.len(), |k: int| page@[k]@);
    push_repeat(out, '\n', TOP_MARGIN);
    let mut i: usize = 0;
    while i < page.len()
        invariant
            i <= page@.len(),
            pv == Seq::new(page@.len(), |k: int| page@[k]@),
            out@ == start + render_page(pv.take(i as int)),
        decreases page@.len() - i,
    {
        proof {
            assert(pv.take(i + 1).drop_last() =~= pv.take(i as int));
        }
        let line = page[i].as_str();
        if !line.is_empty() {
            push_repeat(out, ' ', LEFT_MARGIN);
            out.append(line);
        }
        push_char(out, '\n');
        i = i + 1;
        proof {
            let l = pv[i - 1];
            assert(out@ =~= start + render_page(pv.take(i as int)));
        }
    }
    proof {
        assert(pv.take(i as int) =~= pv);
    }
}

/// Render pages for the printer. Every page opens with the top margin,
/// every line carries the left margin, and a form feed separates pages.
/// There is no trailing form feed: the printer ejects the last page on
/// its own, and a stray one would waste a sheet.
pub fn render(pages: &[Vec<String>]) -> (out: String)
    ensures
        out@ == render_pages(pages_view(pages@)),
{
    let ghost pv = pages_view(pages@);
    let mut out = String::new();
    let mut i: usize = 0;
    while i < pages.len()
        invariant
            i <= pages@.len(),
            pv == pages_view(pages@),
            out@ == render_pages(pv.take(i as int)),
        decreases pages@.len() - i,
    {
        proof {
            assert(pv.take(i + 1).drop_last() =~= pv.take(i as int));
            assert(pv.take(i + 1).last() =~= Seq::new(pages@[i as int]@.len(), |k: int| pages@[i as int]@[k]@));
            if i == 0 {
                assert(pv.take(1)[0] == pv.take(1).last());
            }
        }
        if i > 0 {
            push_char(&mut out, FORM_FEED);
        }
        render_page_into(&mut out, &pages[i]);
        i = i + 1;
    }
    proof {
        assert(pv.take(i as int) =~= pv);
    }
    out
}

/// The text a job sends to the printer, or `None` when the requested
/// page does not exist.
pub open spec fn job_of(text: Seq<char>, lines: Seq<VisualLine>, scope: Scope) -> Option<Seq<char>> {
    let pages = pages_of(text, lines);
    match scope {
        Scope::Full => Some(render_pages(pages)),
        Scope::Page(n) => if n < pages.len() {
            Some(render_pages(seq![pages[n as int]]))
        } else {
            None
        },
    }
}

pub fn job(text: &[char], lines: &[VisualLine], scope: Scope) -> (r: Option<String>)
    requires
        lines_in(text@, lines@),
    ensures
        r matches Some(s) ==> job_of(text@, lines@, scope) == Some(s@),
        r is None <==> job_of(text@, lines@, scope) is None,
{
    let pages = paginate(text, lines);
    match scope {
        Scope::Full => Some(render(pages.as_slice())),
        Scope::Page(n) => {
            if n < pages.len() {
                let mut out = String::new();
                render_page_into(&mut out, &pages[n]);
                proof {
                    let one = seq![pages_of(text@, lines@)[n as int]];
                    assert(pages_view(pages@)[n as int] =~= Seq::new(
                        pages@[n as int]@.len(),
                        |k: int| pages@[n as int]@[k]@,
                    ));
                    assert(out@ =~= render_pages(one));
                }
                Some(out)
            } else {
                None
            }
        },
    }
}

/// Pages are counted the way they are printed: `page_count` is the
/// number of pages `paginate` produces, and every visual line is printed
/// on the page `page_of` names, as the status line reports it, at its
/// line of that page.
pub proof fn law_page_count_matches_pages(text: Seq<char>, lines: Seq<VisualLine>, line: int)
    requires
        0 <= line < lines.len(),
    ensures
        pages_of(text, lines).len() == pages_for(lines.len() as int),
        line / 54 < pages_for(lines.len() as int),
        line % 54 < pages_of(text, lines)[line / 54].len(),
        pages_of(text, lines)[line / 54][line % 54] == printed_line(text, lines[line]),
{
    let p = line / 54;
    let k = line % 54;
    assert(line == p * 54 + k);
    assert(p * 54 <= line);
}

proof fn lemma_page_ends_in_newline(page: Seq<Seq<char>>)
    ensures
        render_page(page).len() > 0,
        render_page(page).last() == '\n',
    decreases page.len(),
{
    if page.len() > 0 {
        lemma_page_ends_in_newline(page.drop_last());
    }
}

/// A job never ends in a form feed: the last page ends with its last
/// line's newline (or its top margin), so no sheet is wasted.
pub proof fn law_no_trailing_form_feed(pages: Seq<Seq<Seq<char>>>)
    requires
        pages.len() > 0,
    ensures
        render_pages(pages).len() > 0,
        render_pages(pages).last() == '\n',
{
    lemma_page_ends_in_newline(pages.last());
    if pages.len() == 1 {
        assert(pages[0] == pages.last());
    }
}

proof fn lemma_trim_end(s: Seq<char>)
    ensures
        trim_end(s).len() <= s.len(),
        trim_end(s) == s.take(trim_end(s).len() as int),
        forall|j: int| trim_end(s).len() <= j < s.len() ==> is_space(#[trigger] s[j]),
        trim_end(s).len() == 0 || !is_space(trim_end(s).last()),
    decreases s.len(),
{
    if s.len() > 0 && is_space(s.last()) {
        let d = s.drop_last();
        lemma_trim_end(d);
        let n = trim_end(d).len() as int;
        assert(d.take(n) =~= s.take(n));
        assert forall|j: int| n <= j < s.len() implies is_space(#[trigger] s[j]) by {
            if j < d.len() {
                assert(s[j] == d[j]);
            }
        }
    } else {
        assert(s.take(s.len() as int) =~= s);
    }
}

/// On paper a line keeps everything up to its last character that is
/// not whitespace, indentation included: what printing drops is only
/// whitespace at the end of the line.
pub proof fn law_printing_trims_only_trailing_whitespace(text: Seq<char>, lines: Seq<VisualLine>, line: int)
    requires
        0 <= line < lines.len(),
        lines[line].start <= lines[line].end <= text.len(),
    ensures
        ({
            let l = lines[line];
            let p = pages_of(text, lines)[line / 54][line % 54];
            &&& l.start + p.len() <= l.end
            &&& p == text.subrange(l.start as int, l.start + p.len())
            &&& forall|j: int| l.start + p.len() <= j < l.end ==> is_space(#[trigger] text[j])
            &&& p.len() == 0 || !is_space(p.last())
        }),
{
    law_page_count_matches_pages(text, lines, line);
    let l = lines[line];
    let sub = text.subrange(l.start as int, l.end as int);
    lemma_trim_end(sub);
    let p = trim_end(sub);
    assert(p =~= text.subrange(l.start as int, l.start + p.len()));
    assert forall|j: int| l.start + p.len() <= j < l.end implies is_space(#[trigger] text[j]) by {
        assert(text[j] == sub[j - l.start]);
    }
}

} // verus!
