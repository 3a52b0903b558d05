//! The menu bar: its menus and items, and moving about in it.

use vstd::prelude::*;
use crate::keymap::Command;

verus! {

/// One line of a dropdown: a label, the hotkey it teaches, and the
/// command it fires. An item without a command is a rule between groups.
pub struct Item {
    pub label: &'static str,
    pub hotkey: &'static str,
    pub command: Option<Command>,
}

/// One menu of the bar.
pub struct Menu {
    pub title: &'static str,
    pub items: Vec<Item>,
}

pub open spec fn is_rule(it: Item) -> bool {
    it.command is None
}

/// Every menu has items, and its first and last are real ones.
/// Every menu has items, and its first and last are real ones; the bar
/// and every dropdown fit on the screen.
pub open spec fn table_ok(t: Seq<Menu>) -> bool {
    &&& 0 < t.len() <= 5
    &&& forall|m: int| 0 <= m < t.len() ==> {
        &&& (#[trigger] t[m]).items@.len() > 0
        &&& t[m].items@.len() <= 20
        &&& t[m].title@.len() <= 8
        &&& items_fit(t[m].items@)
        &&& !is_rule(t[m].items@[0])
        &&& !is_rule(t[m].items@.last())
    }
}

/// Every item's label and hotkey are short enough for a dropdown.
pub open spec fn items_fit(items: Seq<Item>) -> bool {
    forall|i: int| 0 <= i < items.len() ==> (#[trigger] items[i]).label@.len() <= 30 && items[i].hotkey@.len() <= 15
}

fn push_item(v: &mut Vec<Item>, it: Item)
    requires
        items_fit(old(v)@),
        it.label@.len() <= 30,
        it.hotkey@.len() <= 15,
    ensures
        final(v)@ == old(v)@.push(it),
        items_fit(final(v)@),
{
    v.push(it);
    proof {
        assert forall|i: int| 0 <= i < v@.len() implies (#[trigger] v@[i]).label@.len() <= 30 && v@[i].hotkey@.len() <= 15 by {
            if i < v@.len() - 1 {
                assert(v@[i] == old(v)@[i]);
            }
        }
    }
}

fn item(label: &'static str, hotkey: &'static str, command: Command) -> (it: Item)
    ensures
        it.label == label,
        it.hotkey == hotkey,
        it.command == Some(command),
{
    Item { label, hotkey, command: Some(command) }
}

fn rule() -> (it: Item)
    ensures
        is_rule(it),
        it.label == "",
        it.hotkey == "",
        it.command is None,
        it.label@.len() == 0,
        it.hotkey@.len() == 0,
{
    proof {
        reveal_strlit("");
    }
    Item { label: "", hotkey: "", command: None }
}

/// An item as plain values: its label, its hotkey, and the command it
/// fires (none for a rule).
pub open spec fn item_view(it: Item) -> (Seq<char>, Seq<char>, Option<Command>) {
    (it.label@, it.hotkey@, it.command)
}

/// A menu as plain values: its title and its items.
pub open spec fn menu_view(m: Menu) -> (Seq<char>, Seq<(Seq<char>, Seq<char>, Option<Command>)>) {
    (m.title@, m.items@.map_values(|it: Item| item_view(it)))
}

/// A table of menus as plain values.
pub open spec fn table_view(t: Seq<Menu>) -> Seq<(Seq<char>, Seq<(Seq<char>, Seq<char>, Option<Command>)>)> {
    t.map_values(|m: Menu| menu_view(m))
}

/// A rule between groups of items.
pub open spec fn rule_view() -> (Seq<char>, Seq<char>, Option<Command>) {
    (""@, ""@, None)
}

/// The menu bar: every title, and every item with its hotkey and the
/// command it fires.
pub open spec fn the_menus() -> Seq<(Seq<char>, Seq<(Seq<char>, Seq<char>, Option<Command>)>)> {
    seq![
        ("File"@, seq![
            ("Retrieve..."@, "Shft-F10"@, Some(Command::Retrieve)),
            ("Open (browse)..."@, "Cmd-O"@, Some(Command::Open)),
            ("Save"@, "Cmd-S"@, Some(Command::Save)),
            ("Save As..."@, "F10"@, Some(Command::SaveAs)),
            ("New"@, "Cmd-N"@, Some(Command::New)),
            rule_view(),
            ("Print..."@, "Shft-F7"@, Some(Command::Print)),
            rule_view(),
            ("Exit"@, "F7"@, Some(Command::Quit)),
        ]),
        ("Edit"@, seq![
            ("Undo"@, "Cmd-Z"@, Some(Command::Undo)),
            ("Redo"@, "Cmd-Shift-Z"@, Some(Command::Redo)),
            rule_view(),
            ("Cut"@, "Cmd-X"@, Some(Command::Cut)),
            ("Copy"@, "Cmd-C"@, Some(Command::Copy)),
            ("Paste"@, "Cmd-V"@, Some(Command::Paste)),
            rule_view(),
            ("Select All"@, "Cmd-A"@, Some(Command::SelectAll)),
        ]),
        ("View"@, seq![
            ("CRT Effects"@, "F3"@, Some(Command::ToggleEffects)),
            ("80x50 Mode"@, "F5"@, Some(Command::ToggleDenseMode)),
            ("Status Line"@, ""@, Some(Command::ToggleStatusLine)),
            ("Fullscreen"@, "F11"@, Some(Command::ToggleFullscreen)),
        ]),
        ("Tools"@, seq![("Word Count"@, "F6"@, Some(Command::ShowWordCount))]),
        ("Help"@, seq![("Keys"@, "Shft-F1"@, Some(Command::ToggleHelp))]),
    ]
}

/// File, Edit, View, Tools and Help, with their items.
pub fn menus() -> (t: Vec<Menu>)
    ensures
        table_ok(t@),
        t@.len() == 5,
        table_view(t@) == the_menus(),
{
    proof {
        reveal_strlit("File");
        reveal_strlit("Edit");
        reveal_strlit("View");
        reveal_strlit("Tools");
        reveal_strlit("Help");
        reveal_strlit("");
        reveal_strlit("");
        reveal_strlit("80x50 Mode");
        reveal_strlit("CRT Effects");
        reveal_strlit("Cmd-A");
        reveal_strlit("Cmd-C");
        reveal_strlit("Cmd-N");
        reveal_strlit("Cmd-O");
        reveal_strlit("Cmd-S");
        reveal_strlit("Cmd-Shift-Z");
        reveal_strlit("Cmd-V");
        reveal_strlit("Cmd-X");
        reveal_strlit("Cmd-Z");
        reveal_strlit("Copy");
        reveal_strlit("Cut");
        reveal_strlit("Exit");
        reveal_strlit("F10");
        reveal_strlit("F11");
        reveal_strlit("F3");
        reveal_strlit("F5");
        reveal_strlit("F6");
        reveal_strlit("F7");
        reveal_strlit("Fullscreen");
        reveal_strlit("Keys");
        reveal_strlit("New");
        reveal_strlit("Open (browse)...");
        reveal_strlit("Paste");
        reveal_strlit("Print...");
        reveal_strlit("Redo");
        reveal_strlit("Retrieve...");
        reveal_strlit("Save");
        reveal_strlit("Save As...");
        reveal_strlit("Select All");
        reveal_strlit("Shft-F1");
        reveal_strlit("Shft-F10");
        reveal_strlit("Shft-F7");
        reveal_strlit("Status Line");
        reveal_strlit("Undo");
        reveal_strlit("Word Count");
    }
    let mut t: Vec<Menu> = Vec::new();
    let mut file: Vec<Item> = Vec::new();
    push_item(&mut file, item("Retrieve...", "Shft-F10", Command::Retrieve));
    push_item(&mut file, item("Open (browse)...", "Cmd-O", Command::Open));
    push_item(&mut file, item("Save", "Cmd-S", Command::Save));
    push_item(&mut file, item("Save As...", "F10", Command::SaveAs));
    push_item(&mut file, item("New", "Cmd-N", Command::New));
    push_item(&mut file, rule());
    push_item(&mut file, item("Print...", "Shft-F7", Command::Print));
    push_item(&mut file, rule());
    push_item(&mut file, item("Exit", "F7", Command::Quit));
    t.push(Menu { title: "File", items: file });

    let mut edit: Vec<Item> = Vec::new();
    push_item(&mut edit, item("Undo", "Cmd-Z", Command::Undo));
    push_item(&mut edit, item("Redo", "Cmd-Shift-Z", Command::Redo));
    push_item(&mut edit, rule());
    push_item(&mut edit, item("Cut", "Cmd-X", Command::Cut));
    push_item(&mut edit, item("Copy", "Cmd-C", Command::Copy));
    push_item(&mut edit, item("Paste", "Cmd-V", Command::Paste));
    push_item(&mut edit, rule());
    push_item(&mut edit, item("Select All", "Cmd-A", Command::SelectAll));
    t.push(Menu { title: "Edit", items: edit });

    let mut view: Vec<Item> = Vec::new();
    push_item(&mut view, item("CRT Effects", "F3", Command::ToggleEffects));
    push_item(&mut view, item("80x50 Mode", "F5", Command::ToggleDenseMode));
    push_item(&mut view, item("Status Line", "", Command::ToggleStatusLine));
    push_item(&mut view, item("Fullscreen", "F11", Command::ToggleFullscreen));
    t.push(Menu { title: "View", items: view });

    let mut tools: Vec<Item> = Vec::new();
    push_item(&mut tools, item("Word Count", "F6", Command::ShowWordCount));
    t.push(Menu { title: "Tools", items: tools });

    let mut help: Vec<Item> = Vec::new();
    push_item(&mut help, item("Keys", "Shft-F1", Command::ToggleHelp));
    t.push(Menu { title: "Help", items: help });
    proof {
        let m = the_menus();
        assert(menu_view(t@[0]).1 =~= m[0].1);
        assert(menu_view(t@[1]).1 =~= m[1].1);
        assert(menu_view(t@[2]).1 =~= m[2].1);
        assert(menu_view(t@[3]).1 =~= m[3].1);
        assert(menu_view(t@[4]).1 =~= m[4].1);
        assert(table_view(t@) =~= m);
    }
    t
}

/// Which menu is highlighted, and which item of its dropdown when one
/// is pulled down.
#[derive(Clone, Copy, Debug, PartialEq, Eq, Structural)]
pub struct MenuState {
    pub menu: usize,
    pub item: Option<usize>,
}

/// The first real item at or after `j`, or the first item.
pub open spec fn real_from(items: Seq<Item>, j: int) -> int
    decreases items.len() - j,
{
    if j >= items.len() || j < 0 {
        0
    } else if !is_rule(items[j]) {
        j
    } else {
        real_from(items, j + 1)
    }
}

/// The last real item before `j`, or the last item.
pub open spec fn real_before(items: Seq<Item>, j: int) -> int
    decreases j,
{
    if j <= 0 {
        items.len() - 1
    } else if !is_rule(items[j - 1]) {
        j - 1
    } else {
        real_before(items, j - 1)
    }
}

/// The first menu from `m` on whose title starts with the letter `c`.
pub open spec fn title_hit(t: Seq<Menu>, c: char, m: int) -> Option<int>
    decreases t.len() - m,
{
    if m < 0 || m >= t.len() {
        None
    } else if starts_with_letter(t[m].title@, c) {
        Some(m)
    } else {
        title_hit(t, c, m + 1)
    }
}

/// The first real item from `i` on whose label starts with `c`.
pub open spec fn item_hit(items: Seq<Item>, c: char, i: int) -> Option<int>
    decreases items.len() - i,
{
    if i < 0 || i >= items.len() {
        None
    } else if !is_rule(items[i]) && starts_with_letter(items[i].label@, c) {
        Some(i)
    } else {
        item_hit(items, c, i + 1)
    }
}

proof fn lemma_item_hit(items: Seq<Item>, c: char, i: int)
    requires
        0 <= i,
    ensures
        item_hit(items, c, i) matches Some(k) ==> i <= k < items.len() && !is_rule(items[k]),
    decreases items.len() - i,
{
    if i < items.len() && !(!is_rule(items[i]) && starts_with_letter(items[i].label@, c)) {
        lemma_item_hit(items, c, i + 1);
    }
}

proof fn lemma_title_hit(t: Seq<Menu>, c: char, m: int)
    requires
        0 <= m,
    ensures
        title_hit(t, c, m) matches Some(k) ==> m <= k < t.len(),
    decreases t.len() - m,
{
    if m < t.len() && !starts_with_letter(t[m].title@, c) {
        lemma_title_hit(t, c, m + 1);
    }
}

/// Letters match whatever their case.
pub open spec fn same_letter(a: char, b: char) -> bool {
    ||| a == b
    ||| ('A' <= a <= 'Z' && a as u32 + 32 == b as u32)
    ||| ('A' <= b <= 'Z' && b as u32 + 32 == a as u32)
}

/// Whether `s` starts with the letter `c`.
pub open spec fn starts_with_letter(s: Seq<char>, c: char) -> bool {
    s.len() > 0 && same_letter(s[0], c)
}

fn letter_eq(a: char, b: char) -> (r: bool)
    ensures
        r == same_letter(a, b),
{
    a == b || ('A' <= a && a <= 'Z' && (a as u32) + 32 == (b as u32)) || ('A' <= b && b <= 'Z' && (b
        as u32) + 32 == (a as u32))
}

fn starts_with(s: &str, c: char) -> (r: bool)
    ensures
        r == starts_with_letter(s@, c),
{
    if s.is_empty() {
        false
    } else {
        letter_eq(s.get_char(0), c)
    }
}

fn copy_command(c: &Option<Command>) -> (r: Option<Command>)
    ensures
        r == *c,
{
    match c {
        Some(cmd) => Some(cmd.duplicate()),
        None => None,
    }
}

impl MenuState {
    /// The state lies within the table and highlights a real item.
    pub open spec fn ok(self, t: Seq<Menu>) -> bool {
        &&& self.menu < t.len()
        &&& self.item matches Some(i) ==> i < t[self.menu as int].items@.len() && !is_rule(
            t[self.menu as int].items@[i as int],
        )
    }

    /// The first menu highlighted, nothing pulled down.
    pub fn new() -> (s: MenuState)
        ensures
            s == (MenuState { menu: 0, item: None }),
    {
        MenuState { menu: 0, item: None }
    }

    pub fn menu(&self) -> (m: usize)
        ensures
            m == self.menu,
    {
        self.menu
    }

    pub fn item(&self) -> (i: Option<usize>)
        ensures
            i == self.item,
    {
        self.item
    }

    /// The menu to the left, wrapping; an open dropdown stays open, on
    /// the new menu's first item.
    pub fn left(&mut self, t: &[Menu])
        requires
            table_ok(t@),
            old(self).ok(t@),
        ensures
            final(self).ok(t@),
            *final(self) == old(self).left_of(t@),
    {
        self.menu = if self.menu == 0 { t.len() - 1 } else { self.menu - 1 };
        if self.item.is_some() {
            self.item = Some(0);
        }
        proof {
            assert(t@[self.menu as int].items@.len() > 0);
        }
    }

    /// The menu to the right, wrapping.
    pub fn right(&mut self, t: &[Menu])
        requires
            table_ok(t@),
            old(self).ok(t@),
        ensures
            final(self).ok(t@),
            *final(self) == old(self).right_of(t@),
    {
        let n = t.len();
        self.menu = if self.menu + 1 == n { 0 } else { self.menu + 1 };
        if self.item.is_some() {
            self.item = Some(0);
        }
        proof {
            assert(t@[self.menu as int].items@.len() > 0);
        }
    }

    /// Down pulls the dropdown open, then walks its items, skipping rules
    /// and wrapping from the last to the first.
    pub fn down(&mut self, t: &[Menu])
        requires
            table_ok(t@),
            old(self).ok(t@),
        ensures
            final(self).ok(t@),
            *final(self) == old(self).down_of(t@),
    {
        let items = &t[self.menu].items;
        proof {
            assert(t@[self.menu as int].items@.len() > 0);
        }
        match self.item {
            None => {
                self.item = Some(0);
            },
            Some(i) => {
                let n = items.len();
                assert(i < n);
                let mut j = i + 1;
                while j < items.len() && items[j].command.is_none()
                    invariant
                        i < j <= items@.len(),
                        real_from(items@, i + 1) == real_from(items@, j as int),
                    decreases items@.len() - j,
                {
                    j = j + 1;
                }
                self.item = Some(if j < items.len() { j } else { 0 });
            },
        }
    }

    /// Up walks the dropdown's items backwards, skipping rules and
    /// wrapping; on the bar it opens the dropdown at its last item.
    pub fn up(&mut self, t: &[Menu])
        requires
            table_ok(t@),
            old(self).ok(t@),
        ensures
            final(self).ok(t@),
            *final(self) == old(self).up_of(t@),
    {
        let items = &t[self.menu].items;
        proof {
            assert(t@[self.menu as int].items@.len() > 0);
        }
        match self.item {
            None => {
                self.item = Some(items.len() - 1);
            },
            Some(i) => {
                let mut j = i;
                while j > 0 && items[j - 1].command.is_none()
                    invariant
                        j <= i < items@.len(),
                        real_before(items@, i as int) == real_before(items@, j as int),
                    decreases j,
                {
                    j = j - 1;
                }
                self.item = Some(if j > 0 { j - 1 } else { items.len() - 1 });
            },
        }
    }

    /// Enter: on the bar it pulls the dropdown open; on an item it fires
    /// the item's command.
    pub fn activate(&mut self, t: &[Menu]) -> (fired: Option<Command>)
        requires
            table_ok(t@),
            old(self).ok(t@),
        ensures
            final(self).ok(t@),
            *final(self) == old(self).activated(),
            fired == old(self).activate_fires(t@),
            old(self).item is Some ==> fired is Some,
    {
        proof {
            assert(t@[self.menu as int].items@.len() > 0);
        }
        match self.item {
            None => {
                self.item = Some(0);
                None
            },
            Some(i) => copy_command(&t[self.menu].items[i].command),
        }
    }

    /// A letter. On the bar it pulls down the menu whose title starts
    /// with it; in a dropdown it fires the first item whose label starts
    /// with it. A letter that matches nothing does nothing.
    pub fn letter(&mut self, t: &[Menu], c: char) -> (fired: Option<Command>)
        requires
            table_ok(t@),
            old(self).ok(t@),
        ensures
            final(self).ok(t@),
            *final(self) == old(self).after_letter(t@, c),
            fired == old(self).letter_fires(t@, c),
    {
        match self.item {
            None => {
                let mut m: usize = 0;
                while m < t.len()
                    invariant
                        m <= t@.len(),
                        *self == *old(self),
                        table_ok(t@),
                        self.ok(t@),
                        self.item is None,
                        title_hit(t@, c, 0) == title_hit(t@, c, m as int),
                    decreases t@.len() - m,
                {
                    if starts_with(t[m].title, c) {
                        self.menu = m;
                        self.item = Some(0);
                        proof {
                            assert(t@[m as int].items@.len() > 0);
                        }
                        return None;
                    }
                    m = m + 1;
                }
                None
            },
            Some(_) => {
                let items = &t[self.menu].items;
                let mut i: usize = 0;
                while i < items.len()
                    invariant
                        i <= items@.len(),
                        *self == *old(self),
                        old(self).item is Some,
                        self.ok(t@),
                        items@ == t@[self.menu as int].items@,
                        item_hit(items@, c, 0) == item_hit(items@, c, i as int),
                    decreases items@.len() - i,
                {
                    if items[i].command.is_some() && starts_with(items[i].label, c) {
                        return copy_command(&items[i].command);
                    }
                    i = i + 1;
                }
                None
            },
        }
    }

    pub open spec fn left_of(self, t: Seq<Menu>) -> MenuState {
        MenuState {
            menu: if self.menu == 0 { (t.len() - 1) as usize } else { (self.menu - 1) as usize },
            item: if self.item is Some { Some(0usize) } else { None },
        }
    }

    pub open spec fn right_of(self, t: Seq<Menu>) -> MenuState {
        MenuState {
            menu: if self.menu + 1 == t.len() { 0 } else { (self.menu + 1) as usize },
            item: if self.item is Some { Some(0usize) } else { None },
        }
    }

    pub open spec fn down_of(self, t: Seq<Menu>) -> MenuState {
        MenuState {
            menu: self.menu,
            item: Some(
                match self.item {
                    None => 0,
                    Some(i) => real_from(t[self.menu as int].items@, i + 1) as usize,
                },
            ),
        }
    }

    pub open spec fn up_of(self, t: Seq<Menu>) -> MenuState {
        MenuState {
            menu: self.menu,
            item: Some(
                match self.item {
                    None => (t[self.menu as int].items@.len() - 1) as usize,
                    Some(i) => real_before(t[self.menu as int].items@, i as int) as usize,
                },
            ),
        }
    }

    /// Enter pulls the dropdown open, or leaves an open one as it is.
    pub open spec fn activated(self) -> MenuState {
        match self.item {
            None => MenuState { item: Some(0usize), ..self },
            Some(_) => self,
        }
    }

    /// The command Enter fires: the highlighted item's.
    pub open spec fn activate_fires(self, t: Seq<Menu>) -> Option<Command> {
        match self.item {
            None => None,
            Some(i) => t[self.menu as int].items@[i as int].command,
        }
    }

    /// Where a letter leaves the menu.
    pub open spec fn after_letter(self, t: Seq<Menu>, c: char) -> MenuState {
        match self.item {
            None => match title_hit(t, c, 0) {
                Some(m) => MenuState { menu: m as usize, item: Some(0) },
                None => self,
            },
            Some(_) => self,
        }
    }

    /// The command a letter fires, if any.
    pub open spec fn letter_fires(self, t: Seq<Menu>, c: char) -> Option<Command> {
        match self.item {
            None => None,
            Some(_) => match item_hit(t[self.menu as int].items@, c, 0) {
                Some(i) => t[self.menu as int].items@[i].command,
                None => None,
            },
        }
    }

    /// Esc: closes an open dropdown and reports `true`; on the bar it
    /// reports `false`, leaving the caller to close the menu.
    pub fn escape(&mut self) -> (stays: bool)
        ensures
            stays == old(self).item is Some,
            *final(self) == (MenuState { item: None, ..*old(self) }),
    {
        let stays = self.item.is_some();
        self.item = None;
        stays
    }
}

/// `real_from` finds the first real item at or after `k`, passing only
/// rules, or wraps to the first item when there is none.
proof fn lemma_real_from(items: Seq<Item>, k: int)
    requires
        0 <= k,
    ensures
        ({
            let r = real_from(items, k);
            ||| (k <= r < items.len() && !is_rule(items[r]) && forall|q: int| k <= q < r ==> is_rule(#[trigger] items[q]))
            ||| (r == 0 && forall|q: int| k <= q < items.len() ==> is_rule(#[trigger] items[q]))
        }),
    decreases items.len() - k,
{
    if k < items.len() && is_rule(items[k]) {
        lemma_real_from(items, k + 1);
    }
}

/// `real_before` finds the last real item before `j`, passing only
/// rules, or wraps to the last item when there is none.
proof fn lemma_real_before(items: Seq<Item>, j: int)
    requires
        j <= items.len(),
    ensures
        ({
            let r = real_before(items, j);
            ||| (0 <= r < j && !is_rule(items[r]) && forall|q: int| r < q < j ==> is_rule(#[trigger] items[q]))
            ||| (r == items.len() - 1 && forall|q: int| 0 <= q < j ==> is_rule(#[trigger] items[q]))
        }),
    decreases j,
{
    if j > 0 && is_rule(items[j - 1]) {
        lemma_real_before(items, j - 1);
    }
}

/// Left and right along the bar take each other back: the same menu is
/// highlighted again, and with no dropdown open nothing else changed.
pub proof fn law_left_and_right_take_each_other_back(s: MenuState, t: Seq<Menu>)
    requires
        table_ok(t),
        s.ok(t),
    ensures
        s.left_of(t).right_of(t).menu == s.menu,
        s.right_of(t).left_of(t).menu == s.menu,
        s.item is None ==> s.left_of(t).right_of(t) == s && s.right_of(t).left_of(t) == s,
{
}

/// In an open dropdown, Up takes back Down and Down takes back Up.
pub proof fn law_up_and_down_take_each_other_back(s: MenuState, t: Seq<Menu>)
    requires
        table_ok(t),
        s.ok(t),
        s.item is Some,
    ensures
        s.down_of(t).up_of(t) == s,
        s.up_of(t).down_of(t) == s,
{
    let items = t[s.menu as int].items@;
    let i = s.item->0 as int;
    assert(items.len() > 0);
    assert(!is_rule(items[0]) && !is_rule(items.last()));
    lemma_real_from(items, i + 1);
    let d = real_from(items, i + 1);
    lemma_real_before(items, d);
    if d == 0 && !(i + 1 <= d) {
        if i < items.len() - 1 {
            assert(is_rule(items[items.len() - 1]));
        }
    }
    lemma_real_before(items, i);
    let u = real_before(items, i);
    lemma_real_from(items, u + 1);
    if u == items.len() - 1 && !(u < i) {
        if i > 0 {
            assert(is_rule(items[0]));
        }
    }
}

} // verus!
