//! The closed set of editing commands. Each variant carries its payload by
//! value; the variant itself is the command's stable identity.

use vstd::prelude::*;
use crate::mode::Mode;

verus! {

#[derive(Clone, PartialEq, Debug)]
pub enum Command {
    CursorUp,
    CursorDown,
    CursorLeft,
    CursorRight,
    ScrollUp,
    ScrollDown,
    Home,
    End,
    MoveForwardByWord,
    MoveBackwardByWord,
    JumpToFirstLineBuffer,
    JumpToLastLineBuffer,
    Backspace,
    DeleteChar,
    DeleteLine,
    YankLine,
    Paste,
    PasteBack,
    InsertChar(char),
    InsertTab,
    NewLine,
    FirstCharInLine,
    ChangeMode(Mode),
    EnterCommandMode,
    ExitCommandMode,
    ExecuteCommandLine,
    NextWindow,
    Print(String),
    Save,
    Quit,
    CloseWindow,
    ListBuffers,
    /// Ask the scripting host to call the function it registered under
    /// this token; the core never interprets the token itself.
    Invoke(u64),
    JumpListBack,
    JumpListForward,
    Undo,
}

} // verus!
