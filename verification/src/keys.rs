//! What the state machines read of a key press.
use vstd::prelude::*;

verus! {

/// A key, as far as the state machines tell keys apart.
#[derive(Clone, Copy, PartialEq, Eq, Structural, Debug)]
pub enum KeyCode {
    Char(char),
    Enter,
    Esc,
    Backspace,
    Delete,
    Left,
    Right,
    Home,
    End,
    Other,
}

/// No modifier.
pub const NO_MODIFIERS: u8 = 0;

pub const SHIFT: u8 = 1;

pub const CONTROL: u8 = 2;

pub const ALT: u8 = 4;

pub const META: u8 = 32;

/// A key press.
#[derive(Clone, Copy, PartialEq, Eq, Structural, Debug)]
pub struct KeyEvent {
    pub code: KeyCode,
    /// The modifiers that are held, one bit for each.
    pub modifiers: u8,
}

impl KeyEvent {
    /// A key pressed without modifiers.
    pub fn plain(code: KeyCode) -> (r: KeyEvent)
        ensures
            r == (KeyEvent { code, modifiers: NO_MODIFIERS }),
    {
        KeyEvent { code, modifiers: NO_MODIFIERS }
    }
}

/// What a key asks of a line of text that is being typed.
pub enum EditRequest {
    InsertChar(char),
    GoToPrevChar,
    GoToNextChar,
    GoToPrevWord,
    GoToNextWord,
    GoToStart,
    GoToEnd,
    DeletePrevChar,
    DeleteNextChar,
    DeletePrevWord,
    DeleteNextWord,
    DeleteLine,
    DeleteTillEnd,
}

/// What a key asks of a line of text that is being typed, if anything.
pub open spec fn edit_of(key: KeyEvent) -> Option<EditRequest> {
    let m = key.modifiers;
    match key.code {
        KeyCode::Backspace => if m == NO_MODIFIERS {
            Some(EditRequest::DeletePrevChar)
        } else if m == META || m == ALT {
            Some(EditRequest::DeletePrevWord)
        } else {
            None
        },
        KeyCode::Delete => if m == NO_MODIFIERS {
            Some(EditRequest::DeleteNextChar)
        } else if m == CONTROL {
            Some(EditRequest::DeleteNextWord)
        } else {
            None
        },
        KeyCode::Left => if m == NO_MODIFIERS {
            Some(EditRequest::GoToPrevChar)
        } else if m == CONTROL {
            Some(EditRequest::GoToPrevWord)
        } else {
            None
        },
        KeyCode::Right => if m == NO_MODIFIERS {
            Some(EditRequest::GoToNextChar)
        } else if m == CONTROL {
            Some(EditRequest::GoToNextWord)
        } else {
            None
        },
        KeyCode::Home => if m == NO_MODIFIERS {
            Some(EditRequest::GoToStart)
        } else {
            None
        },
        KeyCode::End => if m == NO_MODIFIERS {
            Some(EditRequest::GoToEnd)
        } else {
            None
        },
        KeyCode::Char(c) => if m == NO_MODIFIERS || m == SHIFT {
            Some(EditRequest::InsertChar(c))
        } else if m == CONTROL {
            match c {
                'h' => Some(EditRequest::DeletePrevChar),
                'b' => Some(EditRequest::GoToPrevChar),
                'f' => Some(EditRequest::GoToNextChar),
                'u' => Some(EditRequest::DeleteLine),
                'w' => Some(EditRequest::DeletePrevWord),
                'k' => Some(EditRequest::DeleteTillEnd),
                'a' => Some(EditRequest::GoToStart),
                'e' => Some(EditRequest::GoToEnd),
                _ => None,
            }
        } else if m == META {
            match c {
                'b' => Some(EditRequest::GoToPrevWord),
                'f' => Some(EditRequest::GoToNextWord),
                'd' => Some(EditRequest::DeletePrevWord),
                _ => None,
            }
        } else {
            None
        },
        KeyCode::Enter | KeyCode::Esc | KeyCode::Other => None,
    }
}

} // verus!
