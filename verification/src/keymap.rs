//! What the keys mean: the commands the application interprets.

use vstd::prelude::*;

verus! {

/// Ways the caret moves.
#[derive(Clone, Copy, Debug, PartialEq, Eq, Structural)]
pub enum Motion {
    Left,
    Right,
    WordLeft,
    WordRight,
    LineStart,
    LineEnd,
    DocStart,
    DocEnd,
    Up,
    Down,
    PageUp,
    PageDown,
}

/// Every command the application understands.
#[derive(Clone, Debug, PartialEq, Eq)]
pub enum Command {
    Insert(String),
    Newline,
    Tab,
    Backspace,
    DeleteForward,
    Move { motion: Motion, extend: bool },
    SelectAll,
    Undo,
    Redo,
    MenuBar,
    Dismiss,
    Quit,
    ToggleHelp,
    ShowWordCount,
    ToggleDenseMode,
    ToggleEffects,
    ToggleStatusLine,
    ToggleFullscreen,
    Copy,
    Cut,
    Paste,
    New,
    Open,
    Retrieve,
    Save,
    SaveAs,
    Print,
}

impl Command {
    /// A copy of the command.
    pub fn duplicate(&self) -> (c: Command)
        ensures
            c == *self,
    {
        match self {
            Command::Insert(s) => Command::Insert(s.clone()),
            Command::Newline => Command::Newline,
            Command::Tab => Command::Tab,
            Command::Backspace => Command::Backspace,
            Command::DeleteForward => Command::DeleteForward,
            Command::Move { motion, extend } => Command::Move { motion: *motion, extend: *extend },
            Command::SelectAll => Command::SelectAll,
            Command::Undo => Command::Undo,
            Command::Redo => Command::Redo,
            Command::MenuBar => Command::MenuBar,
            Command::Dismiss => Command::Dismiss,
            Command::Quit => Command::Quit,
            Command::ToggleHelp => Command::ToggleHelp,
            Command::ShowWordCount => Command::ShowWordCount,
            Command::ToggleDenseMode => Command::ToggleDenseMode,
            Command::ToggleEffects => Command::ToggleEffects,
            Command::ToggleStatusLine => Command::ToggleStatusLine,
            Command::ToggleFullscreen => Command::ToggleFullscreen,
            Command::Copy => Command::Copy,
            Command::Cut => Command::Cut,
            Command::Paste => Command::Paste,
            Command::New => Command::New,
            Command::Open => Command::Open,
            Command::Retrieve => Command::Retrieve,
            Command::Save => Command::Save,
            Command::SaveAs => Command::SaveAs,
            Command::Print => Command::Print,
        }
    }
}

} // verus!
