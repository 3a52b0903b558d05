//! The single-line text field of the naming, Save As and Retrieve boxes.

use vstd::prelude::*;
use crate::text::{chars_of, string_of};

verus! {

/// What a field's value is for, so the shell knows what to do with it.
#[derive(Clone, Copy, Debug, PartialEq, Eq, Structural)]
pub enum Purpose {
    /// Naming the document at launch.
    CreateAtLaunch,
    /// Save As.
    SaveAs,
    /// Retrieve: open a file by typed name.
    Retrieve,
}

pub struct InputView {
    pub purpose: Purpose,
    pub title: Seq<char>,
    pub label: Seq<char>,
    pub value: Seq<char>,
    pub cursor: nat,
}

impl InputView {
    pub open spec fn wf(self) -> bool {
        self.cursor <= self.value.len()
    }
}

pub struct Input {
    purpose: Purpose,
    title: String,
    label: String,
    value: Vec<char>,
    cursor: usize,
}

impl View for Input {
    type V = InputView;

    closed spec fn view(&self) -> InputView {
        InputView {
            purpose: self.purpose,
            title: self.title@,
            label: self.label@,
            value: self.value@,
            cursor: self.cursor as nat,
        }
    }
}

impl Input {
    /// An empty field.
    pub fn new(purpose: Purpose, title: &str, label: &str) -> (f: Input)
        ensures
            f@.wf(),
            f@.purpose == purpose,
            f@.title == title@,
            f@.label == label@,
            f@.value.len() == 0,
            f@.cursor == 0,
    {
        Input {
            purpose,
            title: string_of(chars_of(title).as_slice()),
            label: string_of(chars_of(label).as_slice()),
            value: Vec::new(),
            cursor: 0,
        }
    }

    pub fn purpose(&self) -> (p: Purpose)
        ensures
            p == self@.purpose,
    {
        self.purpose
    }

    pub fn title(&self) -> (t: &str)
        ensures
            t@ == self@.title,
    {
        self.title.as_str()
    }

    pub fn label(&self) -> (l: &str)
        ensures
            l@ == self@.label,
    {
        self.label.as_str()
    }

    pub fn value(&self) -> (v: String)
        ensures
            v@ == self@.value,
    {
        string_of(self.value.as_slice())
    }

    /// The value's characters.
    pub fn chars(&self) -> (v: &[char])
        ensures
            v@ == self@.value,
    {
        self.value.as_slice()
    }

    pub fn cursor(&self) -> (c: usize)
        ensures
            c == self@.cursor,
    {
        self.cursor
    }

    /// Replaces the value, with the cursor ready at its end.
    pub fn set_value(&mut self, v: &str)
        ensures
            final(self)@ == (InputView { value: v@, cursor: v@.len(), ..old(self)@ }),
    {
        self.value = chars_of(v);
        self.cursor = self.value.len();
    }

    /// Types `s` at the cursor.
    pub fn insert(&mut self, s: &str)
        requires
            old(self)@.wf(),
        ensures
            final(self)@ == (InputView {
                value: old(self)@.value.take(old(self)@.cursor as int) + s@ + old(self)@.value.skip(
                    old(self)@.cursor as int,
                ),
                cursor: old(self)@.cursor + s@.len(),
                ..old(self)@
            }),
    {
        let cs = chars_of(s);
        let c = self.cursor;
        let mut v: Vec<char> = Vec::new();
        let mut i: usize = 0;
        while i < c
            invariant
                i <= c <= self.value@.len(),
                v@ == self.value@.take(i as int),
            decreases c - i,
        {
            v.push(self.value[i]);
            i = i + 1;
            proof {
                assert(v@ =~= self.value@.take(i as int));
            }
        }
        let mut j: usize = 0;
        while j < cs.len()
            invariant
                j <= cs@.len(),
                v@ == self.value@.take(c as int) + cs@.take(j as int),
            decreases cs@.len() - j,
        {
            v.push(cs[j]);
            j = j + 1;
            proof {
                assert(v@ =~= self.value@.take(c as int) + cs@.take(j as int));
            }
        }
        let mut k: usize = c;
        while k < self.value.len()
            invariant
                c <= k <= self.value@.len(),
                v@ == self.value@.take(c as int) + cs@ + self.value@.subrange(c as int, k as int),
            decreases self.value@.len() - k,
        {
            v.push(self.value[k]);
            k = k + 1;
            proof {
                assert(v@ =~= self.value@.take(c as int) + cs@ + self.value@.subrange(c as int, k as int));
            }
        }
        proof {
            assert(cs@.take(j as int) =~= cs@);
            assert(self.value@.subrange(c as int, k as int) =~= self.value@.skip(c as int));
        }
        let n = v.len();
        assert(c + cs@.len() <= n);
        self.value = v;
        self.cursor = c + cs.len();
    }

    /// Deletes the character before the cursor.
    pub fn backspace(&mut self)
        requires
            old(self)@.wf(),
        ensures
            final(self)@.wf(),
            old(self)@.cursor == 0 ==> final(self)@ == old(self)@,
            old(self)@.cursor > 0 ==> final(self)@ == (InputView {
                value: old(self)@.value.remove(old(self)@.cursor - 1),
                cursor: (old(self)@.cursor - 1) as nat,
                ..old(self)@
            }),
    {
        if self.cursor > 0 {
            self.value.remove(self.cursor - 1);
            self.cursor = self.cursor - 1;
        }
    }

    /// Deletes the character under the cursor.
    pub fn delete(&mut self)
        requires
            old(self)@.wf(),
        ensures
            final(self)@.wf(),
            old(self)@.cursor == old(self)@.value.len() ==> final(self)@ == old(self)@,
            old(self)@.cursor < old(self)@.value.len() ==> final(self)@ == (InputView {
                value: old(self)@.value.remove(old(self)@.cursor as int),
                ..old(self)@
            }),
    {
        if self.cursor < self.value.len() {
            self.value.remove(self.cursor);
        }
    }

    pub fn left(&mut self)
        ensures
            final(self)@ == (InputView {
                cursor: if old(self)@.cursor > 0 { (old(self)@.cursor - 1) as nat } else { 0 },
                ..old(self)@
            }),
    {
        if self.cursor > 0 {
            self.cursor = self.cursor - 1;
        }
    }

    pub fn right(&mut self)
        ensures
            final(self)@ == (InputView {
                cursor: if old(self)@.cursor < old(self)@.value.len() {
                    old(self)@.cursor + 1
                } else {
                    old(self)@.cursor
                },
                ..old(self)@
            }),
    {
        if self.cursor < self.value.len() {
            self.cursor = self.cursor + 1;
        }
    }

    pub fn home(&mut self)
        ensures
            final(self)@ == (InputView { cursor: 0, ..old(self)@ }),
    {
        self.cursor = 0;
    }

    pub fn end(&mut self)
        ensures
            final(self)@ == (InputView { cursor: old(self)@.value.len(), ..old(self)@ }),
    {
        self.cursor = self.value.len();
    }
}

} // verus!
