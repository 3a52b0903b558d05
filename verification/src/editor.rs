//! The document being written: its characters, the caret, the selection,
//! whether it matches what was last saved, and undo and redo one word at
//! a time.

use vstd::prelude::*;
use crate::text::{is_space, space, chars_of, string_of};

verus! {

/// A document as undo and redo restore it: its text and caret.
pub struct DocState {
    pub text: Seq<char>,
    pub cursor: nat,
}

/// `t` with `t[lo..hi]` replaced by `s`.
pub open spec fn spliced(t: Seq<char>, lo: int, hi: int, s: Seq<char>) -> Seq<char> {
    t.subrange(0, lo) + s + t.subrange(hi, t.len() as int)
}

/// The editor as its contents.
pub struct EditorView {
    pub text: Seq<char>,
    pub cursor: nat,
    /// The other end of the selection, while one is being made.
    pub anchor: Option<nat>,
    /// The text as last saved or loaded.
    pub saved: Seq<char>,
    /// The states undo returns to, the most recent last.
    pub past: Seq<DocState>,
    /// The states redo returns to, the next one last.
    pub future: Seq<DocState>,
    /// Whether further typing joins the most recent undo step.
    pub typing: bool,
}

impl EditorView {
    /// The selected range, when the anchor and caret differ.
    pub open spec fn selection(self) -> Option<(nat, nat)> {
        match self.anchor {
            Some(a) => if a < self.cursor {
                Some((a, self.cursor))
            } else if self.cursor < a {
                Some((self.cursor, a))
            } else {
                None
            },
            None => None,
        }
    }

    /// The range an edit replaces: the selection, or the empty range at
    /// the caret.
    pub open spec fn edit_range(self) -> (nat, nat) {
        match self.selection() {
            Some(r) => r,
            None => (self.cursor, self.cursor),
        }
    }

    pub open spec fn state(self) -> DocState {
        DocState { text: self.text, cursor: self.cursor }
    }

    /// Whether typing `s` now continues the most recent undo step: typing
    /// is still going on, nothing is selected, and `s` does not start a
    /// new word after a space.
    pub open spec fn joins(self, s: Seq<char>) -> bool {
        &&& self.typing
        &&& self.selection() is None
        &&& !(is_space(self.text[self.cursor - 1]) && !is_space(s[0]))
    }

    pub open spec fn is_dirty(self) -> bool {
        self.text != self.saved
    }

    /// A clean document holding `t`, the caret at its start, no history.
    pub open spec fn fresh(t: Seq<char>) -> EditorView {
        EditorView {
            text: t,
            cursor: 0,
            anchor: None,
            saved: t,
            past: Seq::empty(),
            future: Seq::empty(),
            typing: false,
        }
    }

    /// The editor after typing `s`.
    pub open spec fn inserted(self, s: Seq<char>) -> EditorView {
        if s.len() == 0 && self.selection() is None {
            self
        } else {
            let (lo, hi) = self.edit_range();
            EditorView {
                text: spliced(self.text, lo as int, hi as int, s),
                cursor: lo + s.len(),
                anchor: None,
                past: if s.len() > 0 && self.joins(s) {
                    self.past
                } else {
                    self.past.push(self.state())
                },
                future: Seq::empty(),
                typing: s.len() > 0,
                ..self
            }
        }
    }

    /// The editor after deleting `lo..hi` as an undo step of its own.
    pub open spec fn removed(self, lo: nat, hi: nat) -> EditorView {
        EditorView {
            text: spliced(self.text, lo as int, hi as int, Seq::empty()),
            cursor: lo,
            anchor: None,
            past: self.past.push(self.state()),
            future: Seq::empty(),
            typing: false,
            ..self
        }
    }

    /// The editor after Backspace: the selection or the character before
    /// the caret goes; at the very start nothing does.
    pub open spec fn backspaced(self) -> EditorView {
        match self.selection() {
            Some((lo, hi)) => self.removed(lo, hi),
            None => if self.cursor > 0 {
                self.removed((self.cursor - 1) as nat, self.cursor)
            } else {
                EditorView { typing: false, ..self }
            },
        }
    }

    /// The editor after Delete: the selection or the character after the
    /// caret goes; at the very end nothing does.
    pub open spec fn deleted(self) -> EditorView {
        match self.selection() {
            Some((lo, hi)) => self.removed(lo, hi),
            None => if self.cursor < self.text.len() {
                self.removed(self.cursor, self.cursor + 1)
            } else {
                EditorView { typing: false, ..self }
            },
        }
    }

    /// The editor after an undo.
    pub open spec fn undone(self) -> EditorView {
        if self.past.len() == 0 {
            self
        } else {
            EditorView {
                text: self.past.last().text,
                cursor: self.past.last().cursor,
                anchor: None,
                past: self.past.drop_last(),
                future: self.future.push(self.state()),
                typing: false,
                ..self
            }
        }
    }

    /// The editor after a redo.
    pub open spec fn redone(self) -> EditorView {
        if self.future.len() == 0 {
            self
        } else {
            EditorView {
                text: self.future.last().text,
                cursor: self.future.last().cursor,
                anchor: None,
                past: self.past.push(self.state()),
                future: self.future.drop_last(),
                typing: false,
                ..self
            }
        }
    }

    /// The editor after moving the caret to `target`, extending the
    /// selection or not.
    pub open spec fn moved(self, target: nat, extend: bool) -> EditorView {
        EditorView {
            cursor: if target <= self.text.len() { target } else { self.text.len() },
            anchor: if extend {
                match self.anchor {
                    Some(a) => Some(a),
                    None => Some(self.cursor),
                }
            } else {
                None
            },
            typing: false,
            ..self
        }
    }
}

/// The first offset at or after `i` that is not whitespace (or the end).
pub open spec fn skip_spaces(t: Seq<char>, i: int) -> int
    decreases t.len() - i,
{
    if i >= t.len() {
        t.len() as int
    } else if is_space(t[i]) {
        skip_spaces(t, i + 1)
    } else {
        i
    }
}

/// The first offset at or after `i` that is whitespace (or the end).
pub open spec fn skip_word(t: Seq<char>, i: int) -> int
    decreases t.len() - i,
{
    if i >= t.len() {
        t.len() as int
    } else if !is_space(t[i]) {
        skip_word(t, i + 1)
    } else {
        i
    }
}

/// Going left from `i`, the first offset not preceded by whitespace.
pub open spec fn back_spaces(t: Seq<char>, i: int) -> int
    decreases i,
{
    if i <= 0 {
        0
    } else if is_space(t[i - 1]) {
        back_spaces(t, i - 1)
    } else {
        i
    }
}

/// Going left from `i`, the first offset preceded by whitespace.
pub open spec fn back_word(t: Seq<char>, i: int) -> int
    decreases i,
{
    if i <= 0 {
        0
    } else if !is_space(t[i - 1]) {
        back_word(t, i - 1)
    } else {
        i
    }
}

/// The end of the next word at or after `i`.
pub open spec fn word_right_of(t: Seq<char>, i: int) -> int {
    skip_word(t, skip_spaces(t, i))
}

/// The start of the word before `i`.
pub open spec fn word_left_of(t: Seq<char>, i: int) -> int {
    back_word(t, back_spaces(t, i))
}

/// How many words `t` holds: runs of characters between whitespace.
pub open spec fn words(t: Seq<char>) -> nat
    decreases t.len(),
{
    if t.len() == 0 {
        0
    } else {
        words(t.drop_last()) + if !is_space(t.last()) && (t.len() == 1 || is_space(t[t.len() - 2])) {
            1nat
        } else {
            0nat
        }
    }
}

/// One undoable change: at `at`, `removed` gave way to `inserted`.
struct Edit {
    at: usize,
    removed: Vec<char>,
    inserted: Vec<char>,
    /// Where undo puts the caret.
    cursor_before: usize,
    /// Where redo puts the caret.
    cursor_after: usize,
}

spec fn forward(e: Edit, t: Seq<char>) -> Seq<char> {
    spliced(t, e.at as int, e.at + e.removed@.len(), e.inserted@)
}

spec fn backward(e: Edit, t: Seq<char>) -> Seq<char> {
    spliced(t, e.at as int, e.at + e.inserted@.len(), e.removed@)
}

/// Undoing `e` in `after` leads back to `p`.
spec fn undo_ok(e: Edit, p: DocState, after: Seq<char>) -> bool {
    &&& e.at + e.inserted@.len() <= after.len()
    &&& after.subrange(e.at as int, e.at + e.inserted@.len()) == e.inserted@
    &&& p.text == backward(e, after)
    &&& p.cursor == e.cursor_before
    &&& e.cursor_before <= p.text.len()
}

/// Redoing `e` in `before` leads on to `f`.
spec fn redo_ok(e: Edit, f: DocState, before: Seq<char>) -> bool {
    &&& e.at + e.removed@.len() <= before.len()
    &&& before.subrange(e.at as int, e.at + e.removed@.len()) == e.removed@
    &&& f.text == forward(e, before)
    &&& f.cursor == e.cursor_after
    &&& e.cursor_after <= f.text.len()
}

proof fn lemma_round_trip(t: Seq<char>, lo: int, n: int, s: Seq<char>)
    requires
        0 <= lo,
        0 <= n,
        lo + n <= t.len(),
    ensures
        spliced(spliced(t, lo, lo + n, s), lo, lo + s.len(), t.subrange(lo, lo + n)) == t,
        spliced(t, lo, lo + n, s).subrange(lo, lo + s.len()) == s,
        spliced(t, lo, lo + n, s).len() == t.len() - n + s.len(),
{
    let u = spliced(t, lo, lo + n, s);
    assert(u.len() == t.len() - n + s.len());
    assert forall|i: int| 0 <= i < s.len() implies u[lo + i] == s[i] by {
        assert(u[lo + i] == (t.subrange(0, lo) + s)[lo + i]);
    }
    assert(u.subrange(lo, lo + s.len()) =~= s);
    let w = spliced(u, lo, lo + s.len(), t.subrange(lo, lo + n));
    assert forall|i: int| 0 <= i < t.len() implies w[i] == t[i] by {
        if i < lo {
            assert(w[i] == u[i]);
        } else if i < lo + n {
            assert(w[i] == t.subrange(lo, lo + n)[i - lo]);
        } else {
            assert(w[i] == u[i - n + s.len()]);
        }
    }
    assert(w =~= t);
}

pub struct Editor {
    text: Vec<char>,
    cursor: usize,
    anchor: Option<usize>,
    saved: Vec<char>,
    undo: Vec<Edit>,
    redo: Vec<Edit>,
    typing: bool,
    past: Ghost<Seq<DocState>>,
    future: Ghost<Seq<DocState>>,
}

impl View for Editor {
    type V = EditorView;

    closed spec fn view(&self) -> EditorView {
        EditorView {
            text: self.text@,
            cursor: self.cursor as nat,
            anchor: match self.anchor {
                Some(a) => Some(a as nat),
                None => None,
            },
            saved: self.saved@,
            past: self.past@,
            future: self.future@,
            typing: self.typing,
        }
    }
}

impl Editor {
    spec fn after(self, j: int) -> Seq<char> {
        if j + 1 < self.undo@.len() {
            self.past@[j + 1].text
        } else {
            self.text@
        }
    }

    spec fn before(self, j: int) -> Seq<char> {
        if j + 1 < self.redo@.len() {
            self.future@[j + 1].text
        } else {
            self.text@
        }
    }

    /// The editor holds together: the caret and anchor lie in the text,
    /// and the undo and redo steps lead exactly to the states recorded
    /// for them.
    pub closed spec fn wf(self) -> bool {
        &&& self.cursor <= self.text@.len()
        &&& (self.anchor matches Some(a) ==> a <= self.text@.len())
        &&& self.undo@.len() == self.past@.len()
        &&& self.redo@.len() == self.future@.len()
        &&& forall|j: int| 0 <= j < self.undo@.len() ==> undo_ok(#[trigger] self.undo@[j], self.past@[j], self.after(j))
        &&& forall|j: int| 0 <= j < self.redo@.len() ==> redo_ok(#[trigger] self.redo@[j], self.future@[j], self.before(j))
        &&& self.typing ==> {
            &&& self.undo@.len() > 0
            &&& self.redo@.len() == 0
            &&& self.anchor is None
            &&& self.undo@.last().inserted@.len() > 0
            &&& self.cursor == self.undo@.last().at + self.undo@.last().inserted@.len()
        }
    }

    /// An empty, clean document.
    /// A sound editor's caret and selection anchor lie within its text.
    pub proof fn lemma_view_ok(&self)
        requires
            self.wf(),
        ensures
            self@.cursor <= self@.text.len(),
            self@.anchor matches Some(a) ==> a <= self@.text.len(),
    {
    }

    pub fn new() -> (e: Editor)
        ensures
            e.wf(),
            e@ == EditorView::fresh(Seq::empty()),
    {
        Editor {
            text: Vec::new(),
            cursor: 0,
            anchor: None,
            saved: Vec::new(),
            undo: Vec::new(),
            redo: Vec::new(),
            typing: false,
            past: Ghost(Seq::empty()),
            future: Ghost(Seq::empty()),
        }
    }

    /// A clean document holding `text`, the caret at its start.
    pub fn from_str(text: &str) -> (e: Editor)
        ensures
            e.wf(),
            e@ == EditorView::fresh(text@),
    {
        let t = chars_of(text);
        let s = copy_range(&t, 0, t.len());
        proof {
            assert(t@.subrange(0, t@.len() as int) =~= t@);
        }
        Editor {
            text: t,
            cursor: 0,
            anchor: None,
            saved: s,
            undo: Vec::new(),
            redo: Vec::new(),
            typing: false,
            past: Ghost(Seq::empty()),
            future: Ghost(Seq::empty()),
        }
    }

    pub fn text(&self) -> (t: &[char])
        ensures
            t@ == self@.text,
    {
        self.text.as_slice()
    }

    pub fn len(&self) -> (n: usize)
        ensures
            n == self@.text.len(),
    {
        self.text.len()
    }

    pub fn cursor(&self) -> (c: usize)
        ensures
            c == self@.cursor,
            self.wf() ==> c <= self@.text.len(),
    {
        self.cursor
    }

    /// The document as a string.
    pub fn to_string(&self) -> (s: String)
        ensures
            s@ == self@.text,
    {
        string_of(self.text.as_slice())
    }

    /// The selected range `(lo, hi)`, `lo < hi`, if anything is selected.
    pub fn selection(&self) -> (r: Option<(usize, usize)>)
        ensures
            r matches Some(p) ==> self@.selection() == Some((p.0 as nat, p.1 as nat)),
            r is None <==> self@.selection() is None,
    {
        match self.anchor {
            Some(a) => if a < self.cursor {
                Some((a, self.cursor))
            } else if self.cursor < a {
                Some((self.cursor, a))
            } else {
                None
            },
            None => None,
        }
    }

    /// Whether the document differs from what was last saved.
    pub fn is_dirty(&self) -> (b: bool)
        ensures
            b == self@.is_dirty(),
    {
        if self.text.len() != self.saved.len() {
            return true;
        }
        let mut i: usize = 0;
        while i < self.text.len()
            invariant
                i <= self.text@.len(),
                self.text@.len() == self.saved@.len(),
                forall|k: int| 0 <= k < i ==> self.text@[k] == self.saved@[k],
            decreases self.text@.len() - i,
        {
            if self.text[i] != self.saved[i] {
                return true;
            }
            i = i + 1;
        }
        proof {
            assert(self.text@ =~= self.saved@);
        }
        false
    }

    /// What is on screen now is what is on disk.
    pub fn mark_saved(&mut self)
        requires
            old(self).wf(),
        ensures
            final(self).wf(),
            final(self)@ == (EditorView { saved: old(self)@.text, typing: false, ..old(self)@ }),
    {
        self.saved = copy_range(&self.text, 0, self.text.len());
        self.typing = false;
        proof {
            assert(self.text@.subrange(0, self.text@.len() as int) =~= self.text@);
        }
    }

    /// Moves the caret to `target` (clamped to the text). With `extend`
    /// the selection grows from where it was anchored, or from the old
    /// caret; without, any selection ends.
    pub fn set_cursor(&mut self, target: usize, extend: bool)
        requires
            old(self).wf(),
        ensures
            final(self).wf(),
            final(self)@ == old(self)@.moved(target as nat, extend),
    {
        let len = self.text.len();
        let target = if target <= len { target } else { len };
        if extend {
            if self.anchor.is_none() {
                self.anchor = Some(self.cursor);
            }
        } else {
            self.anchor = None;
        }
        self.cursor = target;
        self.typing = false;
    }

    /// Replaces `lo..hi` with `s`, as one new undo step.
    fn replace(&mut self, lo: usize, hi: usize, s: &[char])
        requires
            old(self).wf(),
            lo <= hi <= old(self)@.text.len(),
        ensures
            final(self).wf(),
            final(self)@ == (EditorView {
                text: spliced(old(self)@.text, lo as int, hi as int, s@),
                cursor: (lo + s@.len()) as nat,
                anchor: None,
                past: old(self)@.past.push(old(self)@.state()),
                future: Seq::empty(),
                typing: false,
                ..old(self)@
            }),
            final(self).undo@.last().inserted@ == s@,
            final(self).undo@.last().at == lo,
            final(self).redo@.len() == 0,
    {
        let removed = copy_range(&self.text, lo, hi);
        let new_text = splice(&self.text, lo, hi, s);
        proof {
            lemma_round_trip(self.text@, lo as int, hi - lo, s@);
        }
        let mut inserted: Vec<char> = Vec::new();
        extend_from(&mut inserted, s);
        let ghost old_self = *self;
        let ghost old_state = self@.state();
        let new_len = new_text.len();
        assert(lo + s@.len() <= new_len);
        let e = Edit { at: lo, removed, inserted, cursor_before: self.cursor, cursor_after: lo + s.len() };
        proof {
            lemma_round_trip(self.text@, lo as int, hi - lo, s@);
            assert(inserted@ =~= s@);
        }
        self.undo.push(e);
        self.redo = Vec::new();
        self.text = new_text;
        self.cursor = lo + s.len();
        self.anchor = None;
        self.typing = false;
        self.past = Ghost(self.past@.push(old_state));
        self.future = Ghost(Seq::empty());
        proof {
            assert forall|j: int| 0 <= j < self.undo@.len() implies undo_ok(
                #[trigger] self.undo@[j],
                self.past@[j],
                self.after(j),
            ) by {
                if j < self.undo@.len() - 1 {
                    assert(self.undo@[j] == old_self.undo@[j]);
                    assert(self.past@[j] == old_self.past@[j]);
                    if j + 1 < self.undo@.len() - 1 {
                        assert(self.after(j) == old_self.after(j));
                    } else {
                        assert(self.after(j) == old_state.text);
                    }
                }
            }
        }
    }

    /// Types `s` at the caret, replacing any selection. Typing that goes
    /// on within a word joins the previous undo step; otherwise the
    /// change is an undo step of its own. Nothing selected and nothing
    /// typed changes nothing.
    pub fn insert(&mut self, s: &[char])
        requires
            old(self).wf(),
        ensures
            final(self).wf(),
            final(self)@ == old(self)@.inserted(s@),
    {
        let sel = self.selection();
        if s.len() == 0 && sel.is_none() {
            return;
        }
        if s.len() > 0 && self.typing && sel.is_none() {
            proof {
                assert(self.undo@.len() > 0);
            }
            let n = self.undo.len();
            let last_ins_len = self.undo[n - 1].inserted.len();
            let last_char = self.undo[n - 1].inserted[last_ins_len - 1];
            proof {
                let e = self.undo@[n - 1];
                assert(undo_ok(e, self.past@[n - 1], self.after(n - 1)));
                assert(self.after(n - 1) == self.text@);
                assert(self.text@.subrange(e.at as int, e.at + e.inserted@.len())[last_ins_len - 1]
                    == self.text@[self.cursor - 1]);
            }
            if !(space(last_char) && !space(s[0])) {
                proof {
                    assert(self@.future =~= Seq::<DocState>::empty());
                    assert(self@.joins(s@));
                }
                self.extend_typing(s);
                return;
            }
        }
        let (lo, hi) = match sel {
            Some(p) => p,
            None => (self.cursor, self.cursor),
        };
        self.replace(lo, hi, s);
        if s.len() > 0 {
            self.typing = true;
            proof {
                assert(self.undo@.last().inserted@ == s@);
            }
        }
    }

    /// Typing that continues the most recent undo step.
    fn extend_typing(&mut self, s: &[char])
        requires
            old(self).wf(),
            old(self).typing,
            s@.len() > 0,
        ensures
            final(self).wf(),
            final(self)@ == (EditorView {
                text: spliced(old(self)@.text, old(self)@.cursor as int, old(self)@.cursor as int, s@),
                cursor: old(self)@.cursor + s@.len(),
                ..old(self)@
            }),
    {
        let ghost old_self = *self;
        let c = self.cursor;
        let new_text = splice(&self.text, c, c, s);
        proof {
            lemma_round_trip(self.text@, c as int, 0, s@);
        }
        let mut e = self.undo.pop().unwrap();
        let ghost old_e = e;
        proof {
            assert(old_self.undo@.last() == old_e);
            assert(self.undo@ == old_self.undo@.drop_last());
        }
        extend_from(&mut e.inserted, s);
        let new_len = new_text.len();
        assert(c + s@.len() <= new_len);
        e.cursor_after = c + s.len();
        proof {
            let t = old_self.text@;
            let n = old_self.undo@.len() - 1;
            assert(undo_ok(old_e, old_self.past@[n], old_self.after(n)));
            assert(old_self.after(n) == t);
            let u = spliced(t, c as int, c as int, s@);
            assert(u.subrange(e.at as int, e.at + e.inserted@.len()) =~= e.inserted@);
            assert(spliced(u, e.at as int, e.at + e.inserted@.len(), e.removed@) =~= spliced(
                t,
                old_e.at as int,
                old_e.at + old_e.inserted@.len(),
                old_e.removed@,
            ));
        }
        self.undo.push(e);
        self.text = new_text;
        self.cursor = c + s.len();
        proof {
            assert forall|j: int| 0 <= j < self.undo@.len() implies undo_ok(
                #[trigger] self.undo@[j],
                self.past@[j],
                self.after(j),
            ) by {
                if j < self.undo@.len() - 1 {
                    assert(self.undo@[j] == old_self.undo@[j]);
                    assert(self.after(j) == old_self.after(j));
                }
            }
        }
    }

    /// Deletes the selection, or the character before the caret.
    pub fn backspace(&mut self)
        requires
            old(self).wf(),
        ensures
            final(self).wf(),
            final(self)@ == old(self)@.backspaced(),
    {
        let empty: Vec<char> = Vec::new();
        match self.selection() {
            Some((lo, hi)) => self.replace(lo, hi, empty.as_slice()),
            None => {
                if self.cursor > 0 {
                    let c = self.cursor;
                    self.replace(c - 1, c, empty.as_slice());
                } else {
                    self.typing = false;
                }
            },
        }
    }

    /// Deletes the selection, or the character after the caret.
    pub fn delete_forward(&mut self)
        requires
            old(self).wf(),
        ensures
            final(self).wf(),
            final(self)@ == old(self)@.deleted(),
    {
        let empty: Vec<char> = Vec::new();
        match self.selection() {
            Some((lo, hi)) => self.replace(lo, hi, empty.as_slice()),
            None => {
                if self.cursor < self.text.len() {
                    let c = self.cursor;
                    self.replace(c, c + 1, empty.as_slice());
                } else {
                    self.typing = false;
                }
            },
        }
    }

    /// Steps back to the state before the most recent undo step; `false`
    /// when there is none.
    pub fn undo(&mut self) -> (done: bool)
        requires
            old(self).wf(),
        ensures
            final(self).wf(),
            done == (old(self)@.past.len() > 0),
            final(self)@ == old(self)@.undone(),
    {
        if self.undo.len() == 0 {
            return false;
        }
        let ghost old_self = *self;
        let mut e = self.undo.pop().unwrap();
        let ghost n = old_self.undo@.len() - 1;
        proof {
            assert(old_self.undo@.last() == e);
            assert(undo_ok(e, old_self.past@[n], old_self.after(n)));
            assert(old_self.after(n) == old_self.text@);
        }
        let tl = self.text.len();
        assert(e.at + e.inserted@.len() <= tl);
        let new_text = splice(&self.text, e.at, e.at + e.inserted.len(), e.removed.as_slice());
        let cursor = e.cursor_before;
        e.cursor_after = self.cursor;
        proof {
            lemma_round_trip(
                old_self.past@[n].text,
                e.at as int,
                e.removed@.len() as int,
                e.inserted@,
            );
            assert(old_self.past@[n].text.subrange(e.at as int, e.at + e.removed@.len()) =~= e.removed@);
            assert(spliced(old_self.past@[n].text, e.at as int, e.at + e.removed@.len(), e.inserted@)
                =~= old_self.text@) by {
                let t = old_self.text@;
                let p = old_self.past@[n].text;
                assert(p == spliced(t, e.at as int, e.at + e.inserted@.len(), e.removed@));
                lemma_round_trip(t, e.at as int, e.inserted@.len() as int, e.removed@);
            }
        }
        self.redo.push(e);
        self.future = Ghost(self.future@.push(DocState { text: self.text@, cursor: self.cursor as nat }));
        self.text = new_text;
        self.cursor = cursor;
        self.anchor = None;
        self.typing = false;
        self.past = Ghost(self.past@.drop_last());
        proof {
            assert forall|j: int| 0 <= j < self.undo@.len() implies undo_ok(
                #[trigger] self.undo@[j],
                self.past@[j],
                self.after(j),
            ) by {
                assert(self.undo@[j] == old_self.undo@[j]);
                assert(self.past@[j] == old_self.past@[j]);
                if j + 1 < self.undo@.len() {
                    assert(self.after(j) == old_self.after(j));
                } else {
                    assert(self.after(j) == old_self.past@[n].text);
                }
            }
            assert forall|j: int| 0 <= j < self.redo@.len() implies redo_ok(
                #[trigger] self.redo@[j],
                self.future@[j],
                self.before(j),
            ) by {
                if j < self.redo@.len() - 1 {
                    assert(self.redo@[j] == old_self.redo@[j]);
                    assert(self.future@[j] == old_self.future@[j]);
                    if j + 1 < self.redo@.len() - 1 {
                        assert(self.before(j) == old_self.before(j));
                    } else {
                        assert(self.before(j) == old_self.text@);
                    }
                }
            }
        }
        true
    }

    /// Steps forward again to the state the last undo left; `false` when
    /// there is nothing to redo.
    pub fn redo(&mut self) -> (done: bool)
        requires
            old(self).wf(),
        ensures
            final(self).wf(),
            done == (old(self)@.future.len() > 0),
            final(self)@ == old(self)@.redone(),
    {
        if self.redo.len() == 0 {
            return false;
        }
        let ghost old_self = *self;
        let mut e = self.redo.pop().unwrap();
        let ghost n = old_self.redo@.len() - 1;
        proof {
            assert(old_self.redo@.last() == e);
            assert(redo_ok(e, old_self.future@[n], old_self.before(n)));
            assert(old_self.before(n) == old_self.text@);
        }
        let tl = self.text.len();
        assert(e.at + e.removed@.len() <= tl);
        let new_text = splice(&self.text, e.at, e.at + e.removed.len(), e.inserted.as_slice());
        let cursor = e.cursor_after;
        e.cursor_before = self.cursor;
        proof {
            let t = old_self.text@;
            lemma_round_trip(t, e.at as int, e.removed@.len() as int, e.inserted@);
            assert(t.subrange(e.at as int, e.at + e.removed@.len()) =~= e.removed@);
        }
        self.undo.push(e);
        self.past = Ghost(self.past@.push(DocState { text: self.text@, cursor: self.cursor as nat }));
        self.text = new_text;
        self.cursor = cursor;
        self.anchor = None;
        self.typing = false;
        self.future = Ghost(self.future@.drop_last());
        proof {
            assert forall|j: int| 0 <= j < self.undo@.len() implies undo_ok(
                #[trigger] self.undo@[j],
                self.past@[j],
                self.after(j),
            ) by {
                if j < self.undo@.len() - 1 {
                    assert(self.undo@[j] == old_self.undo@[j]);
                    assert(self.past@[j] == old_self.past@[j]);
                    if j + 1 < self.undo@.len() - 1 {
                        assert(self.after(j) == old_self.after(j));
                    } else {
                        assert(self.after(j) == old_self.text@);
                    }
                }
            }
            assert forall|j: int| 0 <= j < self.redo@.len() implies redo_ok(
                #[trigger] self.redo@[j],
                self.future@[j],
                self.before(j),
            ) by {
                assert(self.redo@[j] == old_self.redo@[j]);
                assert(self.future@[j] == old_self.future@[j]);
                if j + 1 < self.redo@.len() {
                    assert(self.before(j) == old_self.before(j));
                } else {
                    assert(self.before(j) == old_self.future@[n].text);
                }
            }
        }
        true
    }
}

impl Editor {
    /// The end of the next word: whitespace, then a word, is skipped.
    pub fn word_right(&self) -> (r: usize)
        requires
            self.wf(),
        ensures
            r == word_right_of(self@.text, self@.cursor as int),
    {
        let t = &self.text;
        let len = t.len();
        let mut i = self.cursor;
        while i < len && space(t[i])
            invariant
                self.cursor <= i <= len,
                len == t@.len(),
                skip_spaces(t@, self.cursor as int) == skip_spaces(t@, i as int),
            decreases len - i,
        {
            i = i + 1;
        }
        let mut j = i;
        while j < len && !space(t[j])
            invariant
                i <= j <= len,
                len == t@.len(),
                skip_spaces(t@, self.cursor as int) == i,
                skip_word(t@, i as int) == skip_word(t@, j as int),
            decreases len - j,
        {
            j = j + 1;
        }
        j
    }

    /// The start of the previous word: whitespace, then a word, is
    /// skipped leftwards.
    pub fn word_left(&self) -> (r: usize)
        requires
            self.wf(),
        ensures
            r == word_left_of(self@.text, self@.cursor as int),
    {
        let t = &self.text;
        let mut i = self.cursor;
        while i > 0 && space(t[i - 1])
            invariant
                i <= self.cursor <= t@.len(),
                back_spaces(t@, self.cursor as int) == back_spaces(t@, i as int),
            decreases i,
        {
            i = i - 1;
        }
        let mut j = i;
        while j > 0 && !space(t[j - 1])
            invariant
                j <= i <= t@.len(),
                back_spaces(t@, self.cursor as int) == i,
                back_word(t@, i as int) == back_word(t@, j as int),
            decreases j,
        {
            j = j - 1;
        }
        j
    }

    /// How many words the document holds.
    pub fn word_count(&self) -> (n: usize)
        ensures
            n == words(self@.text),
    {
        let t = &self.text;
        let mut n: usize = 0;
        let mut i: usize = 0;
        while i < t.len()
            invariant
                i <= t@.len(),
                n == words(t@.take(i as int)),
                n <= i,
            decreases t@.len() - i,
        {
            proof {
                assert(t@.take(i + 1).drop_last() =~= t@.take(i as int));
            }
            if !space(t[i]) && (i == 0 || space(t[i - 1])) {
                n = n + 1;
            }
            i = i + 1;
        }
        proof {
            assert(t@.take(i as int) =~= t@);
        }
        n
    }
}

/// Redo takes back an undo exactly: the text, the caret and both
/// histories are as they were.
pub proof fn law_redo_takes_back_undo(v: EditorView)
    requires
        v.past.len() > 0,
    ensures
        v.undone().redone() == (EditorView { anchor: None, typing: false, ..v }),
{
    assert(v.undone().redone().past =~= v.past);
    assert(v.undone().redone().future =~= v.future);
}

/// Undo takes back a redo exactly.
pub proof fn law_undo_takes_back_redo(v: EditorView)
    requires
        v.future.len() > 0,
    ensures
        v.redone().undone() == (EditorView { anchor: None, typing: false, ..v }),
{
    assert(v.redone().undone().past =~= v.past);
    assert(v.redone().undone().future =~= v.future);
}

/// An edit that starts an undo step of its own is taken back by a single
/// undo: the text and caret are as they were before it.
pub proof fn law_undo_takes_back_an_edit(v: EditorView, s: Seq<char>)
    requires
        s.len() > 0 || v.selection() is Some,
        !(s.len() > 0 && v.joins(s)),
    ensures
        v.inserted(s).undone().state() == v.state(),
{
}

/// Typing within a word joins the step it continues: one undo takes
/// back the whole word, to where undoing before the typing would go.
pub proof fn law_undo_takes_back_a_word(v: EditorView, s: Seq<char>)
    requires
        s.len() > 0,
        v.joins(s),
        v.past.len() > 0,
    ensures
        v.inserted(s).undone().state() == v.undone().state(),
{
}

/// Backspace and Delete are each taken back by a single undo.
pub proof fn law_undo_takes_back_a_deletion(v: EditorView)
    ensures
        (v.selection() is Some || v.cursor > 0) ==> v.backspaced().undone().state() == v.state(),
        (v.selection() is Some || v.cursor < v.text.len()) ==> v.deleted().undone().state() == v.state(),
{
}

/// Saving makes the document clean, and returning to the saved text by
/// any route (undo included) makes it clean again.
pub proof fn law_clean_exactly_at_the_saved_text(v: EditorView)
    ensures
        !(EditorView { saved: v.text, ..v }).is_dirty(),
        v.undone().text == v.saved ==> !v.undone().is_dirty(),
{
}

/// Only which characters are whitespace decides the word count: any
/// whitespace separates words as well as any other.
pub proof fn law_words_see_only_whitespace(t1: Seq<char>, t2: Seq<char>)
    requires
        t1.len() == t2.len(),
        forall|i: int| 0 <= i < t1.len() ==> is_space(t1[i]) == is_space(t2[i]),
    ensures
        words(t1) == words(t2),
    decreases t1.len(),
{
    if t1.len() > 0 {
        law_words_see_only_whitespace(t1.drop_last(), t2.drop_last());
        assert(is_space(t1[t1.len() - 1]) == is_space(t2[t2.len() - 1]));
        if t1.len() > 1 {
            assert(is_space(t1[t1.len() - 2]) == is_space(t2[t2.len() - 2]));
        }
    }
}

/// A newline, a tab or any other whitespace between two stretches of
/// text separates words exactly as a space does.
pub proof fn law_any_whitespace_separates_words(a: Seq<char>, c: char, b: Seq<char>)
    requires
        is_space(c),
    ensures
        words(a + seq![c] + b) == words(a + seq![' '] + b),
{
    let t1 = a + seq![c] + b;
    let t2 = a + seq![' '] + b;
    assert forall|i: int| 0 <= i < t1.len() implies is_space(t1[i]) == is_space(t2[i]) by {
        if i < a.len() {
            assert(t1[i] == a[i] && t2[i] == a[i]);
        } else if i == a.len() {
            assert(t1[i] == c && t2[i] == ' ');
        } else {
            assert(t1[i] == b[i - a.len() - 1] && t2[i] == b[i - a.len() - 1]);
        }
    }
    law_words_see_only_whitespace(t1, t2);
}

proof fn lemma_back_spaces(t: Seq<char>, i: int)
    requires
        0 <= i <= t.len(),
    ensures
        0 <= back_spaces(t, i) <= i,
        forall|j: int| back_spaces(t, i) <= j < i ==> is_space(t[j]),
        back_spaces(t, i) > 0 ==> !is_space(t[back_spaces(t, i) - 1]),
    decreases i,
{
    if i > 0 && is_space(t[i - 1]) {
        lemma_back_spaces(t, i - 1);
    }
}

proof fn lemma_back_word(t: Seq<char>, i: int)
    requires
        0 <= i <= t.len(),
    ensures
        0 <= back_word(t, i) <= i,
        forall|j: int| back_word(t, i) <= j < i ==> !is_space(t[j]),
        back_word(t, i) > 0 ==> is_space(t[back_word(t, i) - 1]),
    decreases i,
{
    if i > 0 && !is_space(t[i - 1]) {
        lemma_back_word(t, i - 1);
    }
}

proof fn lemma_skip_spaces(t: Seq<char>, i: int)
    requires
        0 <= i <= t.len(),
    ensures
        i <= skip_spaces(t, i) <= t.len(),
        forall|j: int| i <= j < skip_spaces(t, i) ==> is_space(t[j]),
        skip_spaces(t, i) < t.len() ==> !is_space(t[skip_spaces(t, i)]),
    decreases t.len() - i,
{
    if i < t.len() && is_space(t[i]) {
        lemma_skip_spaces(t, i + 1);
    }
}

proof fn lemma_skip_word(t: Seq<char>, i: int)
    requires
        0 <= i <= t.len(),
    ensures
        i <= skip_word(t, i) <= t.len(),
        forall|j: int| i <= j < skip_word(t, i) ==> !is_space(t[j]),
        skip_word(t, i) < t.len() ==> is_space(t[skip_word(t, i)]),
    decreases t.len() - i,
{
    if i < t.len() && !is_space(t[i]) {
        lemma_skip_word(t, i + 1);
    }
}

/// Whether a word begins at `j`: a character that is not whitespace,
/// at the start or after whitespace.
pub open spec fn starts_word(t: Seq<char>, j: int) -> bool {
    0 <= j < t.len() && !is_space(t[j]) && (j == 0 || is_space(t[j - 1]))
}

/// Whether a word ends at `j`: after a character that is not
/// whitespace, at the end or before whitespace.
pub open spec fn ends_word(t: Seq<char>, j: int) -> bool {
    0 < j <= t.len() && !is_space(t[j - 1]) && (j == t.len() || is_space(t[j]))
}

/// Word-left from anywhere but the start moves strictly left, to the
/// start of the nearest word that begins before the caret (or to the
/// start of the text): no word begins between where it lands and where
/// it left.
pub proof fn law_word_left_lands_on_the_previous_word_start(t: Seq<char>, i: int)
    requires
        0 < i <= t.len(),
    ensures
        ({
            let r = word_left_of(t, i);
            &&& 0 <= r < i
            &&& r == 0 || starts_word(t, r)
            &&& forall|j: int| r < j < i ==> !#[trigger] starts_word(t, j)
        }),
{
    lemma_back_spaces(t, i);
    let k = back_spaces(t, i);
    lemma_back_word(t, k);
    let r = back_word(t, k);
    if k > 0 {
        assert(!is_space(t[k - 1]));
        assert(r < k);
    }
    assert forall|j: int| r < j < i implies !#[trigger] starts_word(t, j) by {
        if j < k {
            assert(!is_space(t[j - 1]));
        } else {
            assert(is_space(t[j]));
        }
    }
}

/// Word-right from anywhere but the end moves strictly right, to the end
/// of the nearest word that ends after the caret (or to the end of the
/// text): no word ends between where it left and where it lands.
pub proof fn law_word_right_lands_on_the_next_word_end(t: Seq<char>, i: int)
    requires
        0 <= i < t.len(),
    ensures
        ({
            let r = word_right_of(t, i);
            &&& i < r <= t.len()
            &&& r == t.len() || ends_word(t, r)
            &&& forall|j: int| i < j < r ==> !#[trigger] ends_word(t, j)
        }),
{
    lemma_skip_spaces(t, i);
    let k = skip_spaces(t, i);
    lemma_skip_word(t, k);
    let r = skip_word(t, k);
    if k < t.len() {
        assert(!is_space(t[k]));
        assert(r > k);
    }
    assert forall|j: int| i < j < r implies !#[trigger] ends_word(t, j) by {
        if j <= k {
            assert(is_space(t[j - 1]));
        } else {
            assert(!is_space(t[j]));
        }
    }
}

/// Typing puts the characters at the caret, in place of the selection
/// when there is one, and leaves the caret just after them with nothing
/// selected; what was around them stays as it was.
pub proof fn law_typing_replaces_the_selection_at_the_caret(v: EditorView, s: Seq<char>)
    requires
        v.cursor <= v.text.len(),
        v.anchor matches Some(a) ==> a <= v.text.len(),
        s.len() > 0,
    ensures
        ({
            let lo = if v.anchor matches Some(a) && a < v.cursor { v.anchor->0 } else { v.cursor };
            let hi = if v.anchor matches Some(a) && a > v.cursor { v.anchor->0 } else { v.cursor };
            let u = v.inserted(s);
            &&& u.text.len() == v.text.len() - (hi - lo) + s.len()
            &&& u.text.take(lo as int) == v.text.take(lo as int)
            &&& u.text.subrange(lo as int, (lo + s.len()) as int) == s
            &&& u.text.skip((lo + s.len()) as int) == v.text.skip(hi as int)
            &&& u.cursor == lo + s.len()
            &&& u.selection() is None
        }),
{
    let lo = v.edit_range().0 as int;
    let hi = v.edit_range().1 as int;
    let u = v.inserted(s);
    assert(u.text.take(lo) =~= v.text.take(lo));
    assert(u.text.subrange(lo, lo + s.len()) =~= s);
    assert(u.text.skip(lo + s.len()) =~= v.text.skip(hi));
}

/// Backspace with nothing selected takes away just the character before
/// the caret, and the caret steps back over it.
pub proof fn law_backspace_takes_the_character_before_the_caret(v: EditorView)
    requires
        v.selection() is None,
        0 < v.cursor <= v.text.len(),
    ensures
        v.backspaced().text == v.text.take(v.cursor - 1) + v.text.skip(v.cursor as int),
        v.backspaced().cursor == v.cursor - 1,
{
    assert(v.backspaced().text =~= v.text.take(v.cursor - 1) + v.text.skip(v.cursor as int));
}

/// Delete with nothing selected takes away just the character after the
/// caret, and the caret stays.
pub proof fn law_delete_takes_the_character_after_the_caret(v: EditorView)
    requires
        v.selection() is None,
        v.cursor < v.text.len(),
    ensures
        v.deleted().text == v.text.take(v.cursor as int) + v.text.skip((v.cursor + 1) as int),
        v.deleted().cursor == v.cursor,
{
    assert(v.deleted().text =~= v.text.take(v.cursor as int) + v.text.skip((v.cursor + 1) as int));
}

/// Typing `w` one key at a time.
pub open spec fn typed_keys(v: EditorView, w: Seq<char>) -> EditorView
    decreases w.len(),
{
    if w.len() == 0 {
        v
    } else {
        typed_keys(v, w.drop_last()).inserted(seq![w.last()])
    }
}

/// Typing inside a word, or going on with whitespace, continues the undo
/// step under way: the history of undo steps does not grow.
pub proof fn law_typing_on_in_a_word_adds_no_undo_step(v: EditorView, s: Seq<char>)
    requires
        v.typing,
        v.selection() is None,
        0 < v.cursor <= v.text.len(),
        s.len() > 0,
        !is_space(v.text[v.cursor - 1]) || is_space(s[0]),
    ensures
        v.inserted(s).past == v.past,
        v.inserted(s).text == spliced(v.text, v.cursor as int, v.cursor as int, s),
{
}

/// A word started after whitespace, or after anything but typing (a
/// move, an undo, a deletion), opens an undo step of its own, which
/// undo takes back to exactly the text and caret before it.
pub proof fn law_a_new_word_opens_an_undo_step(v: EditorView, s: Seq<char>)
    requires
        v.selection() is None,
        s.len() > 0,
        !v.typing || (0 < v.cursor <= v.text.len() && is_space(v.text[v.cursor - 1]) && !is_space(s[0])),
    ensures
        v.inserted(s).past == v.past.push(v.state()),
        v.inserted(s).undone().text == v.text,
        v.inserted(s).undone().cursor == v.cursor,
{
}

/// A word typed key by key after anything but typing is one undo step:
/// every key lands after the one before, and a single undo takes the
/// whole word back, to the text and caret from before its first key.
pub proof fn law_a_word_typed_key_by_key_undoes_at_once(v: EditorView, w: Seq<char>)
    requires
        v.selection() is None,
        !v.typing,
        v.cursor <= v.text.len(),
        w.len() > 0,
        forall|i: int| 0 <= i < w.len() ==> !is_space(#[trigger] w[i]),
    ensures
        typed_keys(v, w).text == spliced(v.text, v.cursor as int, v.cursor as int, w),
        typed_keys(v, w).cursor == v.cursor + w.len(),
        typed_keys(v, w).past == v.past.push(v.state()),
        typed_keys(v, w).undone().text == v.text,
        typed_keys(v, w).undone().cursor == v.cursor,
    decreases w.len(),
{
    lemma_typed_word(v, w);
}

proof fn lemma_typed_word(v: EditorView, w: Seq<char>)
    requires
        v.selection() is None,
        !v.typing,
        v.cursor <= v.text.len(),
        w.len() > 0,
        forall|i: int| 0 <= i < w.len() ==> !is_space(#[trigger] w[i]),
    ensures
        typed_keys(v, w).text == spliced(v.text, v.cursor as int, v.cursor as int, w),
        typed_keys(v, w).cursor == v.cursor + w.len(),
        typed_keys(v, w).past == v.past.push(v.state()),
        typed_keys(v, w).typing,
        typed_keys(v, w).anchor is None,
    decreases w.len(),
{
    let c = v.cursor as int;
    if w.len() == 1 {
        assert(w.drop_last() =~= Seq::<char>::empty());
        assert(typed_keys(v, w.drop_last()) == v);
        assert(seq![w.last()] =~= w);
    } else {
        let d = w.drop_last();
        assert forall|i: int| 0 <= i < d.len() implies !is_space(#[trigger] d[i]) by {
            assert(d[i] == w[i]);
        }
        lemma_typed_word(v, d);
        let u = typed_keys(v, d);
        let t = spliced(v.text, c, c, d);
        assert(u.text[u.cursor - 1] == d[d.len() - 1]) by {
            assert(t[c + d.len() - 1] == d[d.len() - 1]);
        }
        assert(!is_space(d[d.len() - 1]));
        assert(u.selection() is None);
        let x = u.inserted(seq![w.last()]);
        assert(x.past == u.past);
        assert(spliced(t, c + d.len(), c + d.len(), seq![w.last()]) =~= spliced(v.text, c, c, w));
    }
}

/// `t[lo..hi]` as a new vector.
fn copy_range(t: &Vec<char>, lo: usize, hi: usize) -> (v: Vec<char>)
    requires
        lo <= hi <= t@.len(),
    ensures
        v@ == t@.subrange(lo as int, hi as int),
{
    let mut v: Vec<char> = Vec::new();
    let mut i = lo;
    while i < hi
        invariant
            lo <= i <= hi,
            hi <= t@.len(),
            v@ == t@.subrange(lo as int, i as int),
        decreases hi - i,
    {
        v.push(t[i]);
        i = i + 1;
        proof {
            assert(v@ =~= t@.subrange(lo as int, i as int));
        }
    }
    v
}

/// Appends `s` to `v`.
fn extend_from(v: &mut Vec<char>, s: &[char])
    ensures
        final(v)@ == old(v)@ + s@,
{
    let ghost start = v@;
    let mut i: usize = 0;
    while i < s.len()
        invariant
            i <= s@.len(),
            v@ == start + s@.take(i as int),
        decreases s@.len() - i,
    {
        v.push(s[i]);
        i = i + 1;
        proof {
            assert(v@ =~= start + s@.take(i as int));
        }
    }
    proof {
        assert(s@.take(i as int) =~= s@);
    }
}

/// `t` with `t[lo..hi]` replaced by `s`, as a new vector.
fn splice(t: &Vec<char>, lo: usize, hi: usize, s: &[char]) -> (v: Vec<char>)
    requires
        lo <= hi <= t@.len(),
    ensures
        v@ == spliced(t@, lo as int, hi as int, s@),
{
    let mut v = copy_range(t, 0, lo);
    extend_from(&mut v, s);
    let tail = copy_range(t, hi, t.len());
    extend_from(&mut v, tail.as_slice());
    v
}

} // verus!
