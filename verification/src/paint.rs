//! Painting: what each layer of the screen shows, and the painters that
//! put it there. The document fills the text area, the status line the
//! last row, and an open overlay sits on top of both.

use vstd::prelude::*;
use crate::app::{FG, BG, STATUS_FG, STATUS_MARGIN};
use crate::cp437::{glyph_of, shows};
use crate::input::Input;
use crate::menu::{self, Menu, MenuState, table_ok};
use crate::overlay::{draw_box, frame_glyph, in_rect};
use crate::text::{chars_of, decimal, push_chars, push_decimal};
use crate::vga::{Cell, Screen, ScreenView};
use crate::wrap::{VisualLine, TEXT_LEFT, TEXT_TOP};

verus! {

/// Where the bar draws menu `i`'s title block: two columns in, each
/// title with a space either side and a column between blocks.
pub open spec fn title_x(t: Seq<Menu>, i: int) -> int
    decreases i,
{
    if i <= 0 {
        2
    } else {
        title_x(t, i - 1) + t[i - 1].title@.len() + 3
    }
}

/// The width an item asks of its dropdown.
pub open spec fn item_width(it: menu::Item) -> int {
    (it.label@.len() + it.hotkey@.len() + 6) as int
}

/// The widest item of `items`.
pub open spec fn widest_item(items: Seq<menu::Item>) -> int
    decreases items.len(),
{
    if items.len() == 0 {
        0
    } else {
        let w = widest_item(items.drop_last());
        if item_width(items.last()) > w { item_width(items.last()) } else { w }
    }
}

/// The dropdown's width: its widest item, at least 20, within the screen.
pub open spec fn dropdown_width(items: Seq<menu::Item>, x: int) -> int {
    let w = widest_item(items);
    if w < 20 { 20 } else if w > 80 - x { 80 - x } else { w }
}

proof fn lemma_title_x(t: Seq<Menu>, i: int)
    requires
        table_ok(t),
        0 <= i <= t.len(),
    ensures
        2 <= title_x(t, i) <= 2 + 11 * i,
    decreases i,
{
    if i > 0 {
        lemma_title_x(t, i - 1);
    }
}

proof fn lemma_title_x_mono(t: Seq<Menu>, j: int, i: int)
    requires
        table_ok(t),
        0 <= j < i <= t.len(),
    ensures
        title_x(t, j) + t[j].title@.len() + 3 <= title_x(t, i),
    decreases i - j,
{
    if j + 1 < i {
        lemma_title_x_mono(t, j, i - 1);
    }
}

/// Fills row `row` from `from` up to `to` with glyph `g` in the given
/// colours.
fn fill_row(screen: &mut Screen, row: usize, from: usize, to: usize, g: u8, fg: u8, bg: u8)
    requires
        old(screen)@.wf(),
        from <= to <= 80,
        (row as int) < old(screen)@.rows(),
    ensures
        final(screen)@.wf(),
        final(screen)@.mode == old(screen)@.mode,
        final(screen)@.cursor == old(screen)@.cursor,
        forall|c: int, r: int| final(screen)@.on(c, r) ==> #[trigger] final(screen)@.at(c, r) == if r == row && from <= c < to {
            Cell { glyph: g, fg, bg }
        } else {
            old(screen)@.at(c, r)
        },
{
    let mut c = from;
    while c < to
        invariant
            from <= c <= to <= 80,
            (row as int) < old(screen)@.rows(),
            screen@.wf(),
            screen@.mode == old(screen)@.mode,
            screen@.cursor == old(screen)@.cursor,
            forall|cc: int, r: int| screen@.on(cc, r) ==> #[trigger] screen@.at(cc, r) == if r == row && from <= cc < c {
                Cell { glyph: g, fg, bg }
            } else {
                old(screen)@.at(cc, r)
            },
        decreases to - c,
    {
        screen.set(c, row, g, fg, bg);
        c = c + 1;
    }
}

/// The bar across row 0: grey, each title in a block of its own, the
/// highlighted one inverted.
fn paint_bar(screen: &mut Screen, state: MenuState, t: &[Menu]) -> (open_at: usize)
    requires
        old(screen)@.wf(),
        table_ok(t@),
        state.ok(t@),
    ensures
        open_at == title_x(t@, state.menu as int),
        open_at <= 57,
        final(screen)@.wf(),
        final(screen)@.mode == old(screen)@.mode,
        final(screen)@.cursor == old(screen)@.cursor,
        forall|c: int, r: int| final(screen)@.on(c, r) && r > 0 ==> #[trigger] final(screen)@.at(c, r) == old(screen)@.at(c, r),
        forall|c: int| 0 <= c < 80 ==> {
            let cell = #[trigger] final(screen)@.at(c, 0);
            let x = title_x(t@, state.menu as int);
            if x <= c < x + t@[state.menu as int].title@.len() + 2 {
                cell.fg == 7 && cell.bg == 0
            } else {
                cell.fg == 0 && cell.bg == 7
            }
        },
        forall|i: int, k: int| 0 <= i < t@.len() && 0 <= k < t@[i].title@.len() ==> shows(
            #[trigger] final(screen)@.at(title_x(t@, i) + 1 + k, 0).glyph,
            t@[i].title@[k],
        ),
{
    let bar_fg: u8 = 0;
    let bar_bg: u8 = 7;
    let ghost before = screen@;
    fill_row(screen, 0, 0, 80, 0x20, bar_fg, bar_bg);
    let mut x: usize = 2;
    let mut open_at: usize = 2;
    let mut i: usize = 0;
    proof {
        lemma_title_x(t@, 0);
        lemma_title_x(t@, state.menu as int);
    }
    while i < t.len()
        invariant
            i <= t@.len(),
            table_ok(t@),
            state.ok(t@),
            x == title_x(t@, i as int),
            i <= state.menu ==> open_at == 2,
            i > state.menu ==> open_at == title_x(t@, state.menu as int),
            title_x(t@, state.menu as int) <= 57,
            screen@.wf(),
            screen@.mode == before.mode,
            screen@.cursor == before.cursor,
            forall|c: int, r: int| screen@.on(c, r) && r > 0 ==> #[trigger] screen@.at(c, r) == before.at(c, r),
            forall|c: int| 0 <= c < 80 ==> {
                let cell = #[trigger] screen@.at(c, 0);
                let sx = title_x(t@, state.menu as int);
                if state.menu < i && sx <= c < sx + t@[state.menu as int].title@.len() + 2 {
                    cell.fg == 7 && cell.bg == 0
                } else if c >= x {
                    cell == Cell { glyph: 0x20, fg: 0, bg: 7 }
                } else {
                    cell.fg == 0 && cell.bg == 7
                }
            },
            forall|j: int, k: int| 0 <= j < i && 0 <= k < t@[j].title@.len() ==> shows(
                #[trigger] screen@.at(title_x(t@, j) + 1 + k, 0).glyph,
                t@[j].title@[k],
            ),
        decreases t@.len() - i,
    {
        proof {
            lemma_title_x(t@, i as int);
            lemma_title_x(t@, i + 1);
        }
        let title = t[i].title;
        let selected = i == state.menu;
        let fg: u8 = if selected { 7 } else { 0 };
        let bg: u8 = if selected { 0 } else { 7 };
        let n = title.unicode_len();
        let ghost s0 = screen@;
        fill_row(screen, 0, x, x + n + 2, 0x20, fg, bg);
        let ghost s1 = screen@;
        screen.put_str(x + 1, 0, title, fg, bg);
        proof {
            assert(n == t@[i as int].title@.len());
            assert forall|c: int| 0 <= c < 80 implies (#[trigger] screen@.at(c, 0)).fg == (if x <= c < x + n + 2 { fg } else { s0.at(c, 0).fg })
                && screen@.at(c, 0).bg == (if x <= c < x + n + 2 { bg } else { s0.at(c, 0).bg })
                && (c < x || c >= x + n + 2 ==> screen@.at(c, 0) == s0.at(c, 0)) by {
                assert(s1.at(c, 0) == if x <= c < x + n + 2 {
                    Cell { glyph: 0x20, fg, bg }
                } else {
                    s0.at(c, 0)
                });
            }
            assert forall|j: int, k: int| 0 <= j < i + 1 && 0 <= k < t@[j].title@.len() implies shows(
                #[trigger] screen@.at(title_x(t@, j) + 1 + k, 0).glyph,
                t@[j].title@[k],
            ) by {
                if j < i {
                    lemma_title_x_mono(t@, j, i as int);
                    lemma_title_x(t@, j);
                    let c = title_x(t@, j) + 1 + k;
                    assert(0 <= c < 80 && c < x);
                    assert(screen@.at(c, 0) == s0.at(c, 0));
                }
            }
            assert forall|c: int| 0 <= c < 80 implies {
                let cell = #[trigger] screen@.at(c, 0);
                let sx = title_x(t@, state.menu as int);
                if state.menu < i + 1 && sx <= c < sx + t@[state.menu as int].title@.len() + 2 {
                    cell.fg == 7 && cell.bg == 0
                } else if c >= x + n + 3 {
                    cell == Cell { glyph: 0x20, fg: 0, bg: 7 }
                } else {
                    cell.fg == 0 && cell.bg == 7
                }
            } by {
                let sx = title_x(t@, state.menu as int);
                let len = t@[state.menu as int].title@.len();
                let old_cell = s0.at(c, 0);
                let cell = screen@.at(c, 0);
                assert(old_cell == s0.at(c, 0));
                assert(screen@.at(c, 0).fg == (if x <= c < x + n + 2 { fg } else { s0.at(c, 0).fg }));
                assert(screen@.at(c, 0).bg == (if x <= c < x + n + 2 { bg } else { s0.at(c, 0).bg }));
                if state.menu < i {
                    lemma_title_x_mono(t@, state.menu as int, i as int);
                    assert(sx + len + 2 < x);
                }
                if state.menu == i {
                    assert(sx == x && len == n && selected);
                }
                if state.menu < i + 1 && sx <= c < sx + len + 2 {
                    if state.menu == i {
                        assert(cell.fg == 7 && cell.bg == 0);
                    } else {
                        assert(cell == old_cell);
                        assert(cell.fg == 7 && cell.bg == 0);
                    }
                } else if c >= x + n + 3 {
                    assert(cell == old_cell);
                    assert(cell == Cell { glyph: 0x20, fg: 0, bg: 7 });
                } else {
                    if x <= c < x + n + 2 {
                        assert(!selected);
                        assert(cell.fg == 0 && cell.bg == 7);
                    } else {
                        assert(cell == old_cell);
                        assert(cell.fg == 0 && cell.bg == 7);
                    }
                }
            }
        }
        if selected {
            open_at = x;
        }
        x = x + n + 3;
        i = i + 1;
    }
    open_at
}

/// What a dropdown row shows for a real item: the label two columns in,
/// the hotkey flush against the right edge (it wins where the two
/// meet), and the row between the frame's edges in the item's colours,
/// inverted when it is highlighted.
pub open spec fn item_painted(it: menu::Item, selected: bool, x: int, row: int, w: int, s: ScreenView) -> bool {
    let hk = it.hotkey@;
    let hx = x + w - 2 - hk.len();
    &&& forall|c: int| x + 1 <= c < x + w - 1 ==> {
        let cell = #[trigger] s.at(c, row);
        if selected {
            cell.fg == 7 && cell.bg == 0
        } else {
            cell.fg == 0 && cell.bg == 7
        }
    }
    &&& forall|k: int| 0 <= k < it.label@.len() && x + 2 + k < 80 && (hk.len() == 0 || x + 2 + k < hx) ==> shows(
        #[trigger] s.at(x + 2 + k, row).glyph,
        it.label@[k],
    )
    &&& forall|j: int| 0 <= j < hk.len() ==> shows(#[trigger] s.at(hx + j, row).glyph, hk[j])
}

/// The frame of a dropdown of `n` items at column `x`, `w` wide: its top
/// and bottom edges whole, and its left edge beside every item.
pub open spec fn dropdown_frame(x: int, w: int, n: int, s: ScreenView) -> bool {
    &&& forall|c: int| x <= c < x + w ==> #[trigger] s.at(c, 1) == Cell { glyph: frame_glyph(c - x, 0, w, n + 2), fg: 0, bg: 7 }
    &&& forall|c: int| x <= c < x + w ==> #[trigger] s.at(c, n + 2) == Cell {
        glyph: frame_glyph(c - x, n + 1, w, n + 2),
        fg: 0,
        bg: 7,
    }
    &&& forall|i: int| 0 <= i < n ==> (#[trigger] s.at(x, 2 + i)).glyph == 0xBA || s.at(x, 2 + i).glyph == 0xC7
}

/// A rule across a dropdown row, tied into both edges of the frame.
pub open spec fn rule_painted(x: int, row: int, w: int, s: ScreenView) -> bool {
    &&& s.at(x, row) == Cell { glyph: 0xC7, fg: 0, bg: 7 }
    &&& s.at(x + w - 1, row) == Cell { glyph: 0xB6, fg: 0, bg: 7 }
    &&& forall|c: int| x < c < x + w - 1 ==> #[trigger] s.at(c, row) == Cell { glyph: 0xC4, fg: 0, bg: 7 }
}

/// One item line of a dropdown at column `x`, `width` wide: a rule tied
/// into both edges, or the label and its hotkey on a line of their own.
fn paint_item(screen: &mut Screen, x: usize, row: usize, width: usize, it: &menu::Item, selected: bool)
    requires
        old(screen)@.wf(),
        x + width <= 80,
        width >= 20,
        (row as int) < old(screen)@.rows(),
        it.label@.len() <= 30,
        it.hotkey@.len() <= 15,
        x + width == 80 || it.label@.len() + 3 <= width,
    ensures
        final(screen)@.wf(),
        final(screen)@.mode == old(screen)@.mode,
        final(screen)@.cursor == old(screen)@.cursor,
        forall|c: int, r: int| final(screen)@.on(c, r) && (r != row || c < x || c >= x + width) ==> #[trigger] final(screen)@.at(c, r) == old(screen)@.at(c, r),
        !menu::is_rule(*it) ==> item_painted(*it, selected, x as int, row as int, width as int, final(screen)@),
        menu::is_rule(*it) ==> rule_painted(x as int, row as int, width as int, final(screen)@),
        !menu::is_rule(*it) ==> final(screen)@.at(x as int, row as int) == old(screen)@.at(x as int, row as int),
{
    let bar_fg: u8 = 0;
    let bar_bg: u8 = 7;
    if it.command.is_none() {
        fill_row(screen, row, x + 1, x + width - 1, 0xC4, bar_fg, bar_bg);
        screen.set(x, row, 0xC7, bar_fg, bar_bg);
        screen.set(x + width - 1, row, 0xB6, bar_fg, bar_bg);
    } else {
        let fg: u8 = if selected { bar_bg } else { bar_fg };
        let bg: u8 = if selected { bar_fg } else { bar_bg };
        fill_row(screen, row, x + 1, x + width - 1, 0x20, fg, bg);
        let ghost filled = screen@;
        screen.put_str(x + 2, row, it.label, fg, bg);
        let ghost labelled = screen@;
        if !it.hotkey.is_empty() {
            let hk = it.hotkey.unicode_len();
            let hx = x + width - 2 - hk;
            screen.put_str(hx, row, it.hotkey, fg, bg);
            proof {
                assert forall|k: int| 0 <= k < it.label@.len() && x + 2 + k < 80 && x + 2 + k < hx implies shows(
                    #[trigger] screen@.at(x + 2 + k, row as int).glyph,
                    it.label@[k],
                ) by {
                    assert(screen@.at(x + 2 + k, row as int) == labelled.at(x + 2 + k, row as int));
                }
                assert forall|c: int| x + 1 <= c < x + width - 1 implies {
                    let cell = #[trigger] screen@.at(c, row as int);
                    cell.fg == fg && cell.bg == bg
                } by {
                    assert(filled.at(c, row as int).fg == fg);
                }
            }
        }
        proof {
            assert forall|c: int, r: int| screen@.on(c, r) && (r != row || c < x || c >= x + width) implies #[trigger] screen@.at(c, r) == old(screen)@.at(c, r) by {
                if r == row {
                    assert(screen@.at(c, r) == labelled.at(c, r));
                    assert(labelled.at(c, r) == filled.at(c, r));
                } else {
                    assert(screen@.at(c, r) == labelled.at(c, r));
                    assert(labelled.at(c, r) == filled.at(c, r));
                }
            }
        }
    }
}

/// The widest item is at least as wide as any.
proof fn lemma_widest_item(items: Seq<menu::Item>, i: int)
    requires
        0 <= i < items.len(),
    ensures
        item_width(items[i]) <= widest_item(items),
    decreases items.len(),
{
    if i < items.len() - 1 {
        lemma_widest_item(items.drop_last(), i);
    }
}

/// The dropdown of `items` below the title at `x`, item `highlighted`
/// inverted.
fn paint_dropdown(screen: &mut Screen, x: usize, items: &Vec<menu::Item>, highlighted: usize)
    requires
        old(screen)@.wf(),
        x <= 57,
        0 < items@.len() <= 20,
        menu::items_fit(items@),
    ensures
        final(screen)@.wf(),
        final(screen)@.mode == old(screen)@.mode,
        final(screen)@.cursor == old(screen)@.cursor,
        ({
            let w = dropdown_width(items@, x as int);
            &&& forall|c: int, r: int| final(screen)@.on(c, r) && !in_rect(c, r, x as int, 1, w, items@.len() + 2 as int)
                ==> #[trigger] final(screen)@.at(c, r) == old(screen)@.at(c, r)
            &&& dropdown_frame(x as int, w, items@.len() as int, final(screen)@)
            &&& forall|i: int| 0 <= i < items@.len() && !menu::is_rule(#[trigger] items@[i]) ==> item_painted(
                items@[i],
                i == highlighted,
                x as int,
                2 + i,
                w,
                final(screen)@,
            )
            &&& forall|i: int| 0 <= i < items@.len() && menu::is_rule(#[trigger] items@[i]) ==> rule_painted(
                x as int,
                2 + i,
                w,
                final(screen)@,
            )
        }),
{
    let mut widest: usize = 0;
    let mut k: usize = 0;
    while k < items.len()
        invariant
            k <= items@.len(),
            items@.len() <= 20,
            menu::items_fit(items@),
            widest == widest_item(items@.take(k as int)),
            widest <= 51,
        decreases items@.len() - k,
    {
        proof {
            assert(items@.take(k + 1).drop_last() =~= items@.take(k as int));
            assert(items@[k as int].label@.len() <= 30 && items@[k as int].hotkey@.len() <= 15);
        }
        let it = &items[k];
        let wi = it.label.unicode_len() + it.hotkey.unicode_len() + 6;
        if wi > widest {
            widest = wi;
        }
        k = k + 1;
    }
    proof {
        assert(items@.take(k as int) =~= items@);
    }
    let room = 80 - x;
    let width = if widest < 20 { 20 } else if widest > room { room } else { widest };
    let height = items.len() + 2;
    draw_box(screen, x, 1, width, height, 0, 7);
    let ghost boxed = screen@;
    let mut i: usize = 0;
    while i < items.len()
        invariant
            i <= items@.len(),
            menu::items_fit(items@),
            x + width <= 80,
            width >= 20,
            width == dropdown_width(items@, x as int),
            height == items@.len() + 2,
            items@.len() <= 20,
            screen@.wf(),
            screen@.mode == boxed.mode,
            screen@.cursor == boxed.cursor,
            forall|c: int, r: int| screen@.on(c, r) && (r < 2 || r >= 2 + i || c < x || c >= x + width)
                ==> #[trigger] screen@.at(c, r) == boxed.at(c, r),
            forall|c: int, r: int| screen@.on(c, r) && in_rect(c, r, x as int, 1, width as int, height as int)
                ==> #[trigger] boxed.at(c, r) == (Cell { glyph: frame_glyph(c - x, r - 1, width as int, height as int), fg: 0, bg: 7 }),
            forall|j: int| 0 <= j < i ==> (#[trigger] screen@.at(x as int, 2 + j)).glyph == 0xBA || screen@.at(x as int, 2 + j).glyph == 0xC7,
            forall|j: int| 0 <= j < i && !menu::is_rule(#[trigger] items@[j]) ==> item_painted(
                items@[j],
                j == highlighted,
                x as int,
                2 + j,
                width as int,
                screen@,
            ),
            forall|j: int| 0 <= j < i && menu::is_rule(#[trigger] items@[j]) ==> rule_painted(
                x as int,
                2 + j,
                width as int,
                screen@,
            ),
        decreases items@.len() - i,
    {
        let ghost r0 = screen@;
        proof {
            assert(items@[i as int].label@.len() <= 30 && items@[i as int].hotkey@.len() <= 15);
            lemma_widest_item(items@, i as int);
        }
        paint_item(screen, x, 2 + i, width, &items[i], i == highlighted);
        proof {
            assert forall|j: int| 0 <= j < i + 1 && !menu::is_rule(#[trigger] items@[j]) implies item_painted(
                items@[j],
                j == highlighted,
                x as int,
                2 + j,
                width as int,
                screen@,
            ) by {
                if j < i {
                    let it = items@[j];
                    let hk = it.hotkey@;
                    let hx = x + width - 2 - hk.len();
                    assert(item_painted(it, j == highlighted, x as int, 2 + j, width as int, r0));
                    assert forall|c: int| x + 1 <= c < x + width - 1 implies #[trigger] screen@.at(c, 2 + j) == r0.at(c, 2 + j) by {}
                    assert forall|k: int| 0 <= k < it.label@.len() && x + 2 + k < 80 implies #[trigger] screen@.at(x + 2 + k, 2 + j) == r0.at(x + 2 + k, 2 + j) by {}
                    assert forall|q: int| 0 <= q < hk.len() implies #[trigger] screen@.at(hx + q, 2 + j) == r0.at(hx + q, 2 + j) by {}
                }
            }
            assert forall|j: int| 0 <= j < i + 1 implies (#[trigger] screen@.at(x as int, 2 + j)).glyph == 0xBA || screen@.at(
                x as int,
                2 + j,
            ).glyph == 0xC7 by {
                if j < i {
                    assert(screen@.at(x as int, 2 + j) == r0.at(x as int, 2 + j));
                } else if !menu::is_rule(items@[j]) {
                    assert(screen@.at(x as int, 2 + j) == r0.at(x as int, 2 + j));
                    assert(r0.at(x as int, 2 + j) == boxed.at(x as int, 2 + j));
                    assert(screen@.on(x as int, 2 + j));
                }
            }
            assert forall|j: int| 0 <= j < i + 1 && menu::is_rule(#[trigger] items@[j]) implies rule_painted(
                x as int,
                2 + j,
                width as int,
                screen@,
            ) by {
                if j < i {
                    assert(rule_painted(x as int, 2 + j, width as int, r0));
                    assert forall|c: int| x <= c < x + width implies #[trigger] screen@.at(c, 2 + j) == r0.at(c, 2 + j) by {}
                }
            }
        }
        i = i + 1;
    }
    proof {
        let n = items@.len() as int;
        assert forall|c: int| x <= c < x + width implies #[trigger] screen@.at(c, 1) == (Cell {
            glyph: frame_glyph(c - x, 0, width as int, n + 2),
            fg: 0,
            bg: 7,
        }) by {
            assert(screen@.on(c, 1));
            assert(screen@.at(c, 1) == boxed.at(c, 1));
        }
        assert forall|c: int| x <= c < x + width implies #[trigger] screen@.at(c, n + 2) == (Cell {
            glyph: frame_glyph(c - x, n + 1, width as int, n + 2),
            fg: 0,
            bg: 7,
        }) by {
            assert(screen@.on(c, n + 2));
            assert(screen@.at(c, n + 2) == boxed.at(c, n + 2));
        }
    }
}

/// Whether the open menu covers `(c, r)`: the bar across row 0, and
/// the dropdown's frame when one is pulled down.
pub open spec fn menu_region(state: MenuState, t: Seq<Menu>, c: int, r: int) -> bool {
    let items = t[state.menu as int].items@;
    let x = title_x(t, state.menu as int);
    ||| r == 0
    ||| (state.item is Some && in_rect(c, r, x, 1, dropdown_width(items, x), items.len() + 2 as int))
}

/// What an open menu shows: a grey bar with the highlighted title's
/// block inverted and every title in its block, and, pulled down, a
/// frame below the title holding every real item's label.
pub open spec fn menu_painted(state: MenuState, t: Seq<Menu>, s: ScreenView) -> bool {
    let x = title_x(t, state.menu as int);
    &&& forall|c: int| 0 <= c < 80 ==> {
        let cell = #[trigger] s.at(c, 0);
        if x <= c < x + t[state.menu as int].title@.len() + 2 {
            cell.fg == 7 && cell.bg == 0
        } else {
            cell.fg == 0 && cell.bg == 7
        }
    }
    &&& forall|i: int, k: int| 0 <= i < t.len() && 0 <= k < t[i].title@.len() ==> shows(
        #[trigger] s.at(title_x(t, i) + 1 + k, 0).glyph,
        t[i].title@[k],
    )
    &&& state.item is Some ==> {
        let items = t[state.menu as int].items@;
        let w = dropdown_width(items, x);
        &&& dropdown_frame(x, w, items.len() as int, s)
        &&& forall|i: int| 0 <= i < items.len() && !menu::is_rule(#[trigger] items[i]) ==> item_painted(
            items[i],
            state.item == Some(i as usize),
            x,
            2 + i,
            w,
            s,
        )
        &&& forall|i: int| 0 <= i < items.len() && menu::is_rule(#[trigger] items[i]) ==> rule_painted(x, 2 + i, w, s)
    }
}

/// The menu bar across row 0, and the dropdown when one is pulled down.
pub fn paint_menu(screen: &mut Screen, state: MenuState, t: &[Menu])
    requires
        old(screen)@.wf(),
        table_ok(t@),
        state.ok(t@),
    ensures
        final(screen)@.wf(),
        final(screen)@.mode == old(screen)@.mode,
        final(screen)@.cursor == old(screen)@.cursor,
        forall|c: int, r: int| final(screen)@.on(c, r) && !menu_region(state, t@, c, r) ==> #[trigger] final(screen)@.at(c, r)
            == old(screen)@.at(c, r),
        menu_painted(state, t@, final(screen)@),
{
    let open_at = paint_bar(screen, state, t);
    let highlighted = match state.item {
        Some(h) => h,
        None => return,
    };
    let ghost barred = screen@;
    paint_dropdown(screen, open_at, &t[state.menu].items, highlighted);
    proof {
        assert forall|c: int| 0 <= c < 80 implies #[trigger] screen@.at(c, 0) == barred.at(c, 0) by {}
        assert forall|i: int, k: int| 0 <= i < t@.len() && 0 <= k < t@[i].title@.len() implies shows(
            #[trigger] screen@.at(title_x(t@, i) + 1 + k, 0).glyph,
            t@[i].title@[k],
        ) by {
            lemma_title_x(t@, i);
            assert(screen@.at(title_x(t@, i) + 1 + k, 0) == barred.at(title_x(t@, i) + 1 + k, 0));
        }
    }
}

/// A selection as offsets, for contracts.
pub open spec fn sel_view(sel: Option<(usize, usize)>) -> Option<(nat, nat)> {
    match sel {
        Some((lo, hi)) => Some((lo as nat, hi as nat)),
        None => None,
    }
}

/// Whether offset `off` lies in the selection `sel`.
pub open spec fn in_selection(sel: Option<(nat, nat)>, off: int) -> bool {
    sel matches Some((lo, hi)) && lo <= off < hi
}

/// An empty cell of the writing surface.
pub open spec fn body_blank() -> Cell {
    Cell { glyph: 0x20, fg: FG, bg: BG }
}

/// What the text area shows at `(c, r)` with the wrap `lines` of `text`
/// scrolled to line `top` and `rows` rows of text: the character under
/// the cell, inverted inside the selection, or an empty cell where no
/// character falls.
pub open spec fn text_cell(
    text: Seq<char>,
    lines: Seq<VisualLine>,
    top: int,
    rows: int,
    sel: Option<(nat, nat)>,
    c: int,
    r: int,
    cell: Cell,
) -> bool {
    let row = r - TEXT_TOP;
    let li = top + row;
    let k = c - TEXT_LEFT;
    if 0 <= row < rows && li < lines.len() && 0 <= k < lines[li].end - lines[li].start {
        let off = lines[li].start + k;
        &&& shows(cell.glyph, text[off])
        &&& if in_selection(sel, off) {
            cell.fg == BG && cell.bg == FG
        } else {
            cell.fg == FG && cell.bg == BG
        }
    } else {
        cell == body_blank()
    }
}

/// One visual line `l` of `text` into row `y`, from the left margin,
/// inverted where it falls in the selection.
fn paint_line(screen: &mut Screen, text: &[char], l: VisualLine, y: usize, sel: Option<(usize, usize)>)
    requires
        old(screen)@.wf(),
        (y as int) < old(screen)@.rows(),
        l.start <= l.end <= text@.len(),
        l.end - l.start <= 65,
    ensures
        final(screen)@.wf(),
        final(screen)@.mode == old(screen)@.mode,
        final(screen)@.cursor == old(screen)@.cursor,
        forall|c: int, r: int| final(screen)@.on(c, r) ==> {
            let cell = #[trigger] final(screen)@.at(c, r);
            if r == y && TEXT_LEFT <= c < TEXT_LEFT + (l.end - l.start) {
                let off = l.start + c - TEXT_LEFT;
                &&& shows(cell.glyph, text@[off])
                &&& if in_selection(sel_view(sel), off) {
                    cell.fg == BG && cell.bg == FG
                } else {
                    cell.fg == FG && cell.bg == BG
                }
            } else {
                cell == old(screen)@.at(c, r)
            }
        },
{
    let n = l.end - l.start;
    let mut k: usize = 0;
    while k < n
        invariant
            k <= n,
            n == l.end - l.start,
            n <= 65,
            l.start <= l.end <= text@.len(),
            (y as int) < old(screen)@.rows(),
            screen@.wf(),
            screen@.mode == old(screen)@.mode,
            screen@.cursor == old(screen)@.cursor,
            forall|c: int, r: int| screen@.on(c, r) ==> {
                let cell = #[trigger] screen@.at(c, r);
                if r == y && TEXT_LEFT <= c < TEXT_LEFT + k {
                    let off = l.start + c - TEXT_LEFT;
                    &&& shows(cell.glyph, text@[off])
                    &&& if in_selection(sel_view(sel), off) {
                        cell.fg == BG && cell.bg == FG
                    } else {
                        cell.fg == FG && cell.bg == BG
                    }
                } else {
                    cell == old(screen)@.at(c, r)
                }
            },
        decreases n - k,
    {
        let off = l.start + k;
        let g = glyph_of(text[off]);
        let inverted = match sel {
            Some((lo, hi)) => lo <= off && off < hi,
            None => false,
        };
        let fg: u8 = if inverted { BG } else { FG };
        let bg: u8 = if inverted { FG } else { BG };
        screen.set(TEXT_LEFT + k, y, g, fg, bg);
        k = k + 1;
    }
}

/// The visible part of the document: `rows` visual lines of `lines`
/// from `top`, on a screen that starts out empty.
pub fn paint_text(
    screen: &mut Screen,
    text: &[char],
    lines: &[VisualLine],
    top: usize,
    rows: usize,
    sel: Option<(usize, usize)>,
)
    requires
        old(screen)@.wf(),
        TEXT_TOP + rows <= old(screen)@.rows(),
        forall|i: int| 0 <= i < lines@.len() ==> (#[trigger] lines@[i]).start <= lines@[i].end <= text@.len()
            && lines@[i].end - lines@[i].start <= 65,
        forall|c: int, r: int| old(screen)@.on(c, r) ==> #[trigger] old(screen)@.at(c, r) == body_blank(),
    ensures
        final(screen)@.wf(),
        final(screen)@.mode == old(screen)@.mode,
        final(screen)@.cursor == old(screen)@.cursor,
        forall|c: int, r: int| final(screen)@.on(c, r) ==> text_cell(
            text@,
            lines@,
            top as int,
            rows as int,
            sel_view(sel),
            c,
            r,
            #[trigger] final(screen)@.at(c, r),
        ),
{
    let n = lines.len();
    let mut row: usize = 0;
    while row < rows && top < n && row < n - top
        invariant
            row <= rows,
            n == lines@.len(),
            top < n ==> row <= n - top,
            top >= n ==> row == 0,
            TEXT_TOP + rows <= old(screen)@.rows(),
            forall|i: int| 0 <= i < lines@.len() ==> (#[trigger] lines@[i]).start <= lines@[i].end <= text@.len()
                && lines@[i].end - lines@[i].start <= 65,
            screen@.wf(),
            screen@.mode == old(screen)@.mode,
            screen@.cursor == old(screen)@.cursor,
            forall|c: int, r: int| screen@.on(c, r) ==> {
                let cell = #[trigger] screen@.at(c, r);
                if r < TEXT_TOP + row {
                    text_cell(text@, lines@, top as int, rows as int, sel_view(sel), c, r, cell)
                } else {
                    cell == body_blank()
                }
            },
        decreases rows - row,
    {
        let l = lines[top + row];
        let ghost before = screen@;
        paint_line(screen, text, l, TEXT_TOP + row, sel);
        proof {
            assert forall|c: int, r: int| screen@.on(c, r) implies {
                let cell = #[trigger] screen@.at(c, r);
                if r < TEXT_TOP + row + 1 {
                    text_cell(text@, lines@, top as int, rows as int, sel_view(sel), c, r, cell)
                } else {
                    cell == body_blank()
                }
            } by {
                let cell = screen@.at(c, r);
                if r == TEXT_TOP + row {
                    assert(lines@[top + row] == l);
                    if !(TEXT_LEFT <= c < TEXT_LEFT + (l.end - l.start)) {
                        assert(cell == before.at(c, r));
                    }
                } else {
                    assert(cell == before.at(c, r));
                }
            }
        }
        row = row + 1;
    }
    proof {
        assert forall|c: int, r: int| screen@.on(c, r) implies text_cell(
            text@,
            lines@,
            top as int,
            rows as int,
            sel_view(sel),
            c,
            r,
            #[trigger] screen@.at(c, r),
        ) by {
            if r >= TEXT_TOP + row {
                assert(screen@.at(c, r) == body_blank());
            }
        }
    }
}

/// Where the status line's right field starts: flush right, clear of
/// the margin, or at the left edge when it is too long for that.
pub open spec fn right_start(len: int) -> int {
    if len < 80 - STATUS_MARGIN { 80 - STATUS_MARGIN - len } else { 0 }
}

/// What the status line shows in column `c`: `left` from the margin,
/// `right` flush right (it wins where the two meet), in the status
/// colours across the full width.
pub open spec fn status_cell(left: Seq<char>, right: Seq<char>, c: int, cell: Cell) -> bool {
    let start = right_start(right.len() as int);
    &&& cell.fg == STATUS_FG
    &&& cell.bg == BG
    &&& if start <= c < start + right.len() {
        shows(cell.glyph, right[c - start])
    } else if STATUS_MARGIN <= c < STATUS_MARGIN + left.len() {
        shows(cell.glyph, left[c - STATUS_MARGIN])
    } else {
        cell.glyph == 0x20
    }
}

/// The status line across row `row`.
pub fn paint_status_row(screen: &mut Screen, row: usize, left: &[char], right: &[char])
    requires
        old(screen)@.wf(),
        (row as int) < old(screen)@.rows(),
    ensures
        final(screen)@.wf(),
        final(screen)@.mode == old(screen)@.mode,
        final(screen)@.cursor == old(screen)@.cursor,
        forall|c: int, r: int| final(screen)@.on(c, r) && r != row ==> #[trigger] final(screen)@.at(c, r) == old(screen)@.at(c, r),
        forall|c: int| 0 <= c < 80 ==> status_cell(left@, right@, c, #[trigger] final(screen)@.at(c, row as int)),
{
    fill_row(screen, row, 0, 80, 0x20, STATUS_FG, BG);
    let ghost filled = screen@;
    screen.put_chars(STATUS_MARGIN, row, left, STATUS_FG, BG);
    let ghost lefted = screen@;
    let n = right.len();
    let start: usize = if n < 80 - STATUS_MARGIN { 80 - STATUS_MARGIN - n } else { 0 };
    screen.put_chars(start, row, right, STATUS_FG, BG);
    proof {
        assert forall|c: int| 0 <= c < 80 implies status_cell(left@, right@, c, #[trigger] screen@.at(c, row as int)) by {
            assert(filled.at(c, row as int) == Cell { glyph: 0x20, fg: STATUS_FG, bg: BG });
            if !(start <= c < start + n) {
                assert(screen@.at(c, row as int) == lefted.at(c, row as int));
            }
        }
        assert forall|c: int, r: int| screen@.on(c, r) && r != row implies #[trigger] screen@.at(c, r) == old(screen)@.at(c, r) by {
            assert(screen@.at(c, r) == lefted.at(c, r));
            assert(lefted.at(c, r) == filled.at(c, r));
        }
    }
}

/// The entry field's top row on a screen of `rows` rows.
pub open spec fn field_top(rows: int) -> int {
    (rows - 7) / 2
}

/// Where the entry field's box sits on a screen of `rows` rows, together
/// with a title or label too long for it, which runs on to the right.
pub open spec fn field_region(f: crate::input::InputView, rows: int, c: int, r: int) -> bool {
    let y = field_top(rows);
    let tl = f.title.len() + 2;
    let tx = 15 + (if 50 > tl { 50 - tl } else { 0 }) / 2;
    ||| in_rect(c, r, 15, y, 50, 7)
    ||| (r == y && tx <= c < tx + tl)
    ||| (r == y + 2 && 18 <= c < 18 + f.label.len())
}

/// The frame cell at `(dx, dy)` of the entry field's box.
pub open spec fn field_frame_cell(dx: int, dy: int) -> Cell {
    Cell { glyph: frame_glyph(dx, dy, 50, 7), fg: 15, bg: BG }
}

/// How far a long value scrolls left to keep the field's cursor in view.
pub open spec fn field_offset(f: crate::input::InputView) -> int {
    if f.cursor > 43 { f.cursor - 43 } else { 0 }
}

/// Where the field's cursor sits on screen.
pub open spec fn field_cursor(f: crate::input::InputView, rows: int) -> (usize, usize) {
    let d = f.cursor - field_offset(f);
    ((18 + if d < 43 { d } else { 43 }) as usize, (field_top(rows) + 3) as usize)
}

/// What an open entry field shows: its label above the sunken field,
/// the title set into the frame, and the visible stretch of the value.
pub open spec fn field_painted(f: crate::input::InputView, rows: int, s: ScreenView) -> bool {
    let y = field_top(rows);
    let off = field_offset(f);
    let tl = f.title.len() + 2;
    let tx = 15 + (if 50 > tl { 50 - tl } else { 0 }) / 2;
    &&& forall|j: int| 0 <= j < 44 ==> {
        let cell = #[trigger] s.at(18 + j, y + 3);
        &&& cell.fg == 0
        &&& cell.bg == 7
        &&& if off + j < f.value.len() {
            shows(cell.glyph, f.value[off + j])
        } else {
            cell.glyph == 0x20
        }
    }
    &&& forall|k: int| 0 <= k < f.label.len() && 18 + k < 80 ==> shows(#[trigger] s.at(18 + k, y + 2).glyph, f.label[k])
    &&& forall|k: int| 0 <= k < f.title.len() && tx + 1 + k < 80 ==> shows(#[trigger] s.at(tx + 1 + k, y).glyph, f.title[k])
    &&& shows_at(s, 25, y + 5, "Enter  Accept     Esc  Cancel"@)
    &&& forall|c: int| 15 <= c < 65 ==> #[trigger] s.at(c, y + 6) == field_frame_cell(c - 15, 6)
    &&& forall|c: int| 15 <= c < 65 ==> #[trigger] s.at(c, y + 1) == field_frame_cell(c - 15, 1)
    &&& forall|c: int| 15 <= c < 65 ==> #[trigger] s.at(c, y + 4) == field_frame_cell(c - 15, 4)
    &&& forall|dy: int| 1 <= dy < 6 ==> #[trigger] s.at(15, y + dy) == field_frame_cell(0, dy)
    &&& forall|dy: int| 1 <= dy < 6 && (dy != 2 || 18 + f.label.len() <= 64) ==> #[trigger] s.at(64, y + dy)
        == field_frame_cell(49, dy)
}

/// `v` from `from`, at most `n` long.
fn window(v: &[char], from: usize, n: usize) -> (r: Vec<char>)
    requires
        from <= v@.len(),
    ensures
        r@ == v@.subrange(from as int, if from + n < v@.len() { from + n } else { v@.len() as int }),
{
    let mut r: Vec<char> = Vec::new();
    let mut i: usize = from;
    let len = v.len();
    while i < len && i - from < n
        invariant
            from <= i <= len,
            len == v@.len(),
            i - from <= n,
            r@ == v@.subrange(from as int, i as int),
        decreases len - i,
    {
        r.push(v[i]);
        i = i + 1;
        proof {
            assert(r@ =~= v@.subrange(from as int, i as int));
        }
    }
    r
}

/// A framed box with a single editable line and the cursor in it.
pub fn paint_field(screen: &mut Screen, field: &Input, blink_on: bool)
    requires
        old(screen)@.wf(),
        field@.wf(),
    ensures
        final(screen)@.wf(),
        final(screen)@.mode == old(screen)@.mode,
        final(screen)@.cursor == if blink_on {
            Some(field_cursor(field@, old(screen)@.rows()))
        } else {
            old(screen)@.cursor
        },
        forall|c: int, r: int| final(screen)@.on(c, r) && !field_region(field@, old(screen)@.rows(), c, r)
            ==> #[trigger] final(screen)@.at(c, r) == old(screen)@.at(c, r),
        field_painted(field@, old(screen)@.rows(), final(screen)@),
{
    let fg: u8 = 15;
    let bg: u8 = BG;
    let x: usize = 15;
    let rows = screen.rows();
    let y: usize = (rows - 7) / 2;
    draw_box(screen, x, y, 50, 7, fg, bg);
    let title = chars_of(field.title());
    let mut framed: Vec<char> = Vec::new();
    framed.push(' ');
    let mut j: usize = 0;
    while j < title.len()
        invariant
            j <= title@.len(),
            framed@ == seq![' '] + title@.take(j as int),
        decreases title@.len() - j,
    {
        framed.push(title[j]);
        j = j + 1;
        proof {
            assert(framed@ =~= seq![' '] + title@.take(j as int));
        }
    }
    framed.push(' ');
    proof {
        assert(title@.take(j as int) =~= title@);
    }
    let tl = framed.len();
    let tx = x + (if 50 > tl { 50 - tl } else { 0 }) / 2;
    let ghost boxed = screen@;
    screen.put_chars(tx, y, framed.as_slice(), fg, bg);
    let ghost titled = screen@;
    screen.put_str(x + 3, y + 2, field.label(), fg, bg);
    let ghost labelled = screen@;
    let fx = x + 3;
    let fy = y + 3;
    fill_row(screen, fy, fx, fx + 44, 0x20, 0, 7);
    let ghost sunk = screen@;
    let cursor = field.cursor();
    let value = field.chars();
    let offset: usize = if cursor > 43 { cursor - 43 } else { 0 };
    let shown = window(value, offset, 44);
    screen.put_chars(fx, fy, shown.as_slice(), 0, 7);
    let ghost valued = screen@;
    let d = cursor - offset;
    let cx = fx + if d < 43 { d } else { 43 };
    if blink_on {
        screen.set_cursor(Some((cx, fy)));
    }
    let ghost cursored = screen@;
    let help = chars_of("Enter  Accept     Esc  Cancel");
    screen.put_chars(25, y + 5, help.as_slice(), fg, bg);
    proof {
        let f = field@;
        assert(y + 7 <= rows);
        assert forall|c: int, r: int| screen@.on(c, r) && r != y + 5 implies #[trigger] screen@.at(c, r) == valued.at(c, r) by {
            assert(screen@.at(c, r) == cursored.at(c, r));
            assert(cursored.cells == valued.cells);
        }
        assert forall|c: int, r: int| screen@.on(c, r) && r != y + 5 && r != y + 3 implies #[trigger] screen@.at(c, r) == labelled.at(c, r) by {
            assert(screen@.at(c, r) == valued.at(c, r));
            assert(valued.at(c, r) == sunk.at(c, r));
            assert(sunk.at(c, r) == labelled.at(c, r));
        }
        assert forall|jj: int| 0 <= jj < 44 implies {
            let cell = #[trigger] screen@.at(18 + jj, y + 3);
            &&& cell.fg == 0
            &&& cell.bg == 7
            &&& if offset + jj < f.value.len() {
                shows(cell.glyph, f.value[offset + jj])
            } else {
                cell.glyph == 0x20
            }
        } by {
            assert(screen@.on(18 + jj, y + 3));
            assert(screen@.at(18 + jj, y + 3) == valued.at(18 + jj, y + 3));
            if offset + jj >= f.value.len() {
                assert(valued.at(18 + jj, y + 3) == sunk.at(18 + jj, y + 3));
            }
        }
        assert forall|k: int| 0 <= k < f.label.len() && 18 + k < 80 implies shows(#[trigger] screen@.at(18 + k, y + 2).glyph, f.label[k]) by {
            assert(screen@.on(18 + k, y + 2));
            assert(screen@.at(18 + k, y + 2) == labelled.at(18 + k, y + 2));
        }
        assert forall|k: int| 0 <= k < f.title.len() && tx + 1 + k < 80 implies shows(#[trigger] screen@.at(tx + 1 + k, y as int).glyph, f.title[k]) by {
            assert(screen@.on(tx + 1 + k, y as int));
            assert(screen@.at(tx + 1 + k, y as int) == labelled.at(tx + 1 + k, y as int));
            assert(labelled.at(tx + 1 + k, y as int) == titled.at(tx + 1 + k, y as int));
            assert(framed@[1 + k] == f.title[k]);
        }
        let hl = help@.len() as int;
        assert(hl == 29) by {
            reveal_strlit("Enter  Accept     Esc  Cancel");
        }
        assert forall|c: int, r: int| screen@.on(c, r) && !((r == y && tx <= c < tx + tl) || (r == y + 2 && 18 <= c < 18
            + f.label.len()) || (r == y + 3 && 18 <= c < 62) || (r == y + 5 && 25 <= c < 25 + hl)) implies #[trigger] screen@.at(
            c,
            r,
        ) == boxed.at(c, r) by {
            assert(screen@.at(c, r) == cursored.at(c, r));
            assert(cursored.cells == valued.cells);
            assert(cursored.at(c, r) == valued.at(c, r));
            assert(valued.at(c, r) == sunk.at(c, r));
            assert(sunk.at(c, r) == labelled.at(c, r));
            assert(labelled.at(c, r) == titled.at(c, r));
            assert(titled.at(c, r) == boxed.at(c, r));
        }
        assert forall|c: int| 15 <= c < 65 implies #[trigger] screen@.at(c, y + 6) == field_frame_cell(c - 15, 6) by {
            assert(screen@.on(c, y + 6));
        }
        assert forall|c: int| 15 <= c < 65 implies #[trigger] screen@.at(c, y + 1) == field_frame_cell(c - 15, 1) by {
            assert(screen@.on(c, y + 1));
        }
        assert forall|c: int| 15 <= c < 65 implies #[trigger] screen@.at(c, y + 4) == field_frame_cell(c - 15, 4) by {
            assert(screen@.on(c, y + 4));
        }
        assert forall|dy: int| 1 <= dy < 6 implies #[trigger] screen@.at(15, y + dy) == field_frame_cell(0, dy) by {
            assert(screen@.on(15, y + dy));
        }
        assert forall|dy: int| 1 <= dy < 6 && (dy != 2 || 18 + f.label.len() <= 64) implies #[trigger] screen@.at(64, y + dy)
            == field_frame_cell(49, dy) by {
            assert(screen@.on(64, y + dy));
        }
        assert forall|c: int, r: int| screen@.on(c, r) && !field_region(f, rows as int, c, r) implies #[trigger] screen@.at(c, r)
            == old(screen)@.at(c, r) by {
            assert(screen@.at(c, r) == boxed.at(c, r));
        }
    }
}

/// `t` written from `(x, y)`, as far as the right edge.
pub open spec fn shows_at(s: ScreenView, x: int, y: int, t: Seq<char>) -> bool {
    forall|k: int| 0 <= k < t.len() && x + k < 80 ==> shows(#[trigger] s.at(x + k, y).glyph, t[k])
}

/// The print screen's printer line.
pub open spec fn printer_line(printer: Option<Seq<char>>) -> Seq<char> {
    "Printer               "@ + match printer {
        Some(p) => p,
        None => "(none selected)"@,
    }
}

/// The print screen's page line: how many pages, and which one holds
/// the cursor.
pub open spec fn pages_line(pages: nat, here: nat) -> Seq<char> {
    "Pages                 "@ + decimal(pages) + "   (cursor on page "@ + decimal(here) + ")"@
}

/// Whether `(c, r)` falls within one of the print screen's lines of
/// text, on a screen whose last row is `bottom`.
pub open spec fn print_text_at(printer: Option<Seq<char>>, pages: nat, here: nat, bottom: int, c: int, r: int) -> bool {
    ||| (r == 0 && 0 <= c < "Print"@.len())
    ||| (r == 2 && 5 <= c < 5 + "1 - Full Document"@.len())
    ||| (r == 3 && 5 <= c < 5 + "2 - Page"@.len())
    ||| (r == 4 && 5 <= c < 5 + "3 - Document to Disk"@.len())
    ||| (r == 6 && 0 <= c < "Options"@.len())
    ||| (r == 8 && 5 <= c < 5 + printer_line(printer).len())
    ||| (r == 9 && 5 <= c < 5 + pages_line(pages, here).len())
    ||| (r == bottom && 0 <= c < "Selection: 0"@.len())
}

/// The print screen: the choices at the top left, the options below,
/// and "Selection: 0" at the bottom with the cursor on the 0; every
/// other cell empty, all in the body colours.
pub open spec fn print_painted(printer: Option<Seq<char>>, pages: nat, here: nat, s: ScreenView) -> bool {
    let bottom = s.rows() - 1;
    &&& forall|c: int, r: int| s.on(c, r) ==> {
        let cell = #[trigger] s.at(c, r);
        &&& cell.fg == FG
        &&& cell.bg == BG
        &&& !print_text_at(printer, pages, here, bottom, c, r) ==> cell.glyph == 0x20
    }
    &&& shows_at(s, 0, 0, "Print"@)
    &&& shows_at(s, 5, 2, "1 - Full Document"@)
    &&& shows_at(s, 5, 3, "2 - Page"@)
    &&& shows_at(s, 5, 4, "3 - Document to Disk"@)
    &&& shows_at(s, 0, 6, "Options"@)
    &&& shows_at(s, 5, 8, printer_line(printer))
    &&& shows_at(s, 5, 9, pages_line(pages, here))
    &&& shows_at(s, 0, bottom, "Selection: 0"@)
    &&& s.cursor == Some((11usize, bottom as usize))
}

/// The body colours everywhere, and a space wherever `written` has not
/// put text.
pub open spec fn plain_except(s: ScreenView, written: spec_fn(int, int) -> bool) -> bool {
    forall|c: int, r: int| s.on(c, r) ==> {
        let cell = #[trigger] s.at(c, r);
        &&& cell.fg == FG
        &&& cell.bg == BG
        &&& !written(c, r) ==> cell.glyph == 0x20
    }
}

/// Writing `t` at `(x, y)` in the body colours keeps a plain screen
/// plain everywhere else.
proof fn lemma_plain_step(a: ScreenView, b: ScreenView, x: int, y: int, t: Seq<char>, written: spec_fn(int, int) -> bool)
    requires
        plain_except(a, written),
        b.mode == a.mode,
        b.same_off_row(a, y),
        0 <= y < a.rows(),
        forall|c: int| 0 <= c < 80 ==> {
            let cell = #[trigger] b.at(c, y);
            if x <= c < x + t.len() {
                cell.fg == FG && cell.bg == BG
            } else {
                cell == a.at(c, y)
            }
        },
    ensures
        plain_except(b, |c: int, r: int| written(c, r) || (r == y && x <= c < x + t.len())),
{
    assert forall|c: int, r: int| b.on(c, r) implies {
        let cell = #[trigger] b.at(c, r);
        &&& cell.fg == FG
        &&& cell.bg == BG
        &&& !(written(c, r) || (r == y && x <= c < x + t.len())) ==> cell.glyph == 0x20
    } by {
        if r != y {
            assert(b.at(c, r) == a.at(c, r));
        } else if !(x <= c < x + t.len()) {
            assert(b.at(c, r) == a.at(c, r));
        }
        assert(a.on(c, r));
    }
}

/// WordPerfect's print screen, in place of everything else.
pub fn paint_print(screen: &mut Screen, printer: Option<&str>, pages: usize, here: usize)
    requires
        old(screen)@.wf(),
    ensures
        final(screen)@.wf(),
        final(screen)@.mode == old(screen)@.mode,
        print_painted(
            match printer {
                Some(p) => Some(p@),
                None => None,
            },
            pages as nat,
            here as nat,
            final(screen)@,
        ),
{
    screen.clear(FG, BG);
    let ghost s0 = screen@;
    let rows = screen.rows();
    let bottom = rows - 1;
    screen.put_str(0, 0, "Print", FG, BG);
    let ghost s1 = screen@;
    screen.put_str(5, 2, "1 - Full Document", FG, BG);
    let ghost s2 = screen@;
    screen.put_str(5, 3, "2 - Page", FG, BG);
    let ghost s3 = screen@;
    screen.put_str(5, 4, "3 - Document to Disk", FG, BG);
    let ghost s4 = screen@;
    screen.put_str(0, 6, "Options", FG, BG);
    let ghost s6 = screen@;
    let mut pl = String::new();
    push_chars(&mut pl, chars_of("Printer               ").as_slice());
    match printer {
        Some(p) => push_chars(&mut pl, chars_of(p).as_slice()),
        None => push_chars(&mut pl, chars_of("(none selected)").as_slice()),
    }
    screen.put_str(5, 8, pl.as_str(), FG, BG);
    let ghost s8 = screen@;
    let mut gl = String::new();
    push_chars(&mut gl, chars_of("Pages                 ").as_slice());
    push_decimal(&mut gl, pages as u64);
    push_chars(&mut gl, chars_of("   (cursor on page ").as_slice());
    push_decimal(&mut gl, here as u64);
    push_chars(&mut gl, chars_of(")").as_slice());
    screen.put_str(5, 9, gl.as_str(), FG, BG);
    let ghost s9 = screen@;
    screen.put_str(0, bottom, "Selection: 0", FG, BG);
    let ghost sb = screen@;
    screen.set_cursor(Some((11, bottom)));
    proof {
        reveal_strlit("Selection: 0");
        let pv: Option<Seq<char>> = match printer {
            Some(p) => Some(p@),
            None => None,
        };
        assert(pl@ == printer_line(pv));
        assert(gl@ == pages_line(pages as nat, here as nat));
        assert(screen@.cells == sb.cells);
        assert(shows_at(s1, 0, 0, "Print"@));
        assert(shows_at(screen@, 0, 0, "Print"@)) by {
            assert forall|k: int| 0 <= k < "Print"@.len() && 0 + k < 80 implies shows(#[trigger] screen@.at(0 + k, 0).glyph, "Print"@[k]) by {
                assert(screen@.at(k, 0) == sb.at(k, 0));
                assert(sb.at(k, 0) == s9.at(k, 0));
                assert(s9.at(k, 0) == s8.at(k, 0));
                assert(s8.at(k, 0) == s6.at(k, 0));
                assert(s6.at(k, 0) == s4.at(k, 0));
                assert(s4.at(k, 0) == s3.at(k, 0));
                assert(s3.at(k, 0) == s2.at(k, 0));
                assert(s2.at(k, 0) == s1.at(k, 0));
            }
        }
        assert(shows_at(screen@, 5, 2, "1 - Full Document"@)) by {
            assert forall|k: int| 0 <= k < "1 - Full Document"@.len() && 5 + k < 80 implies shows(#[trigger] screen@.at(5 + k, 2).glyph, "1 - Full Document"@[k]) by {
                assert(screen@.at(5 + k, 2) == sb.at(5 + k, 2));
                assert(sb.at(5 + k, 2) == s9.at(5 + k, 2));
                assert(s9.at(5 + k, 2) == s8.at(5 + k, 2));
                assert(s8.at(5 + k, 2) == s6.at(5 + k, 2));
                assert(s6.at(5 + k, 2) == s4.at(5 + k, 2));
                assert(s4.at(5 + k, 2) == s3.at(5 + k, 2));
                assert(s3.at(5 + k, 2) == s2.at(5 + k, 2));
            }
        }
        assert(shows_at(screen@, 5, 3, "2 - Page"@)) by {
            assert forall|k: int| 0 <= k < "2 - Page"@.len() && 5 + k < 80 implies shows(#[trigger] screen@.at(5 + k, 3).glyph, "2 - Page"@[k]) by {
                assert(screen@.at(5 + k, 3) == sb.at(5 + k, 3));
                assert(sb.at(5 + k, 3) == s9.at(5 + k, 3));
                assert(s9.at(5 + k, 3) == s8.at(5 + k, 3));
                assert(s8.at(5 + k, 3) == s6.at(5 + k, 3));
                assert(s6.at(5 + k, 3) == s4.at(5 + k, 3));
                assert(s4.at(5 + k, 3) == s3.at(5 + k, 3));
            }
        }
        assert(shows_at(screen@, 5, 4, "3 - Document to Disk"@)) by {
            assert forall|k: int| 0 <= k < "3 - Document to Disk"@.len() && 5 + k < 80 implies shows(#[trigger] screen@.at(5 + k, 4).glyph, "3 - Document to Disk"@[k]) by {
                assert(screen@.at(5 + k, 4) == sb.at(5 + k, 4));
                assert(sb.at(5 + k, 4) == s9.at(5 + k, 4));
                assert(s9.at(5 + k, 4) == s8.at(5 + k, 4));
                assert(s8.at(5 + k, 4) == s6.at(5 + k, 4));
                assert(s6.at(5 + k, 4) == s4.at(5 + k, 4));
            }
        }
        assert(shows_at(screen@, 0, 6, "Options"@)) by {
            assert forall|k: int| 0 <= k < "Options"@.len() && 0 + k < 80 implies shows(#[trigger] screen@.at(0 + k, 6).glyph, "Options"@[k]) by {
                assert(screen@.at(k, 6) == sb.at(k, 6));
                assert(sb.at(k, 6) == s9.at(k, 6));
                assert(s9.at(k, 6) == s8.at(k, 6));
                assert(s8.at(k, 6) == s6.at(k, 6));
            }
        }
        assert(shows_at(screen@, 5, 8, printer_line(pv))) by {
            assert forall|k: int| 0 <= k < printer_line(pv).len() && 5 + k < 80 implies shows(#[trigger] screen@.at(5 + k, 8).glyph, printer_line(pv)[k]) by {
                assert(screen@.at(5 + k, 8) == sb.at(5 + k, 8));
                assert(sb.at(5 + k, 8) == s9.at(5 + k, 8));
                assert(s9.at(5 + k, 8) == s8.at(5 + k, 8));
            }
        }
        let w0 = |c: int, r: int| false;
        assert(plain_except(s0, w0));
        lemma_plain_step(s0, s1, 0, 0, "Print"@, w0);
        let w1 = |c: int, r: int| w0(c, r) || (r == 0 && 0 <= c < 0 + "Print"@.len());
        lemma_plain_step(s1, s2, 5, 2, "1 - Full Document"@, w1);
        let w2 = |c: int, r: int| w1(c, r) || (r == 2 && 5 <= c < 5 + "1 - Full Document"@.len());
        lemma_plain_step(s2, s3, 5, 3, "2 - Page"@, w2);
        let w3 = |c: int, r: int| w2(c, r) || (r == 3 && 5 <= c < 5 + "2 - Page"@.len());
        lemma_plain_step(s3, s4, 5, 4, "3 - Document to Disk"@, w3);
        let w4 = |c: int, r: int| w3(c, r) || (r == 4 && 5 <= c < 5 + "3 - Document to Disk"@.len());
        lemma_plain_step(s4, s6, 0, 6, "Options"@, w4);
        let w6 = |c: int, r: int| w4(c, r) || (r == 6 && 0 <= c < 0 + "Options"@.len());
        lemma_plain_step(s6, s8, 5, 8, pl@, w6);
        let w8 = |c: int, r: int| w6(c, r) || (r == 8 && 5 <= c < 5 + pl@.len());
        lemma_plain_step(s8, s9, 5, 9, gl@, w8);
        let w9 = |c: int, r: int| w8(c, r) || (r == 9 && 5 <= c < 5 + gl@.len());
        lemma_plain_step(s9, sb, 0, bottom as int, "Selection: 0"@, w9);
        let wb = |c: int, r: int| w9(c, r) || (r == bottom && 0 <= c < 0 + "Selection: 0"@.len());
        assert forall|c: int, r: int| screen@.on(c, r) implies {
            let cell = #[trigger] screen@.at(c, r);
            &&& cell.fg == FG
            &&& cell.bg == BG
            &&& !print_text_at(pv, pages as nat, here as nat, (screen@.rows() - 1), c, r) ==> cell.glyph == 0x20
        } by {
            assert(screen@.at(c, r) == sb.at(c, r));
            assert(sb.on(c, r));
            assert(wb(c, r) == print_text_at(pv, pages as nat, here as nat, bottom as int, c, r));
        }
        assert(shows_at(screen@, 0, bottom as int, "Selection: 0"@)) by {
            assert forall|k: int| 0 <= k < "Selection: 0"@.len() && 0 + k < 80 implies shows(#[trigger] screen@.at(0 + k, bottom as int).glyph, "Selection: 0"@[k]) by {
                assert(screen@.at(k, bottom as int) == sb.at(k, bottom as int));
            }
        }
        assert(screen@.cursor == Some((11usize, (screen@.rows() - 1) as usize)));
        assert(shows_at(screen@, 5, 9, pages_line(pages as nat, here as nat))) by {
            assert forall|k: int| 0 <= k < pages_line(pages as nat, here as nat).len() && 5 + k < 80 implies shows(#[trigger] screen@.at(5 + k, 9).glyph, pages_line(pages as nat, here as nat)[k]) by {
                assert(screen@.at(5 + k, 9) == sb.at(5 + k, 9));
                assert(sb.at(5 + k, 9) == s9.at(5 + k, 9));
            }
        }
    }
}

} // verus!
