//! Compatibility bindings from decoded keys to normalized input, separate from
//! protocol recognition and editor storage.
use crate::actions::{EditCommand, Input, Request};
use crate::editor::EditError;
use vstd::prelude::*;

verus! {

/// One decoded key or input unit.
#[derive(Clone, Debug, PartialEq)]
pub enum Key {
    /// Typed text.
    Text(String),
    /// A complete bracketed paste.
    Paste(String),
    /// Left arrow.
    Left,
    /// Right arrow.
    Right,
    /// Escape followed by a byte.
    Meta(u8),
    /// A control byte.
    Control(u8),
    /// Home.
    Home,
    /// End.
    End,
    /// Backspace.
    Backspace,
    /// Delete.
    Delete,
    /// Up arrow.
    Up,
    /// Down arrow.
    Down,
    /// Enter.
    Enter,
    /// Ctrl-C.
    Interrupt,
    /// Tab.
    Tab,
    /// Shift-Tab.
    BackTab,
    /// A lone escape.
    Escape,
    /// Ctrl-D.
    Eof,
    /// Ctrl-L.
    Clear,
    /// Undecodable input.
    Rejected(EditError),
    /// A bracketed paste that never ended.
    IncompletePaste,
}

/// The edit command bound to a control byte, if any.
pub open spec fn control_binding(b: u8) -> Option<EditCommand> {
    if b == 18 {
        Some(EditCommand::HistorySearchOlder)
    } else if b == 19 {
        Some(EditCommand::HistorySearchNewer)
    } else if b == 31 {
        Some(EditCommand::Undo)
    } else if b == 23 {
        Some(EditCommand::KillWordBackward)
    } else if b == 21 {
        Some(EditCommand::KillLineStart)
    } else if b == 11 {
        Some(EditCommand::KillLineEnd)
    } else if b == 25 {
        Some(EditCommand::Yank)
    } else {
        None
    }
}

/// The edit command bound to escape followed by a byte, if any.
pub open spec fn meta_binding(b: u8) -> Option<EditCommand> {
    if b == 0x62 {
        Some(EditCommand::WordLeft)
    } else if b == 0x66 {
        Some(EditCommand::WordRight)
    } else if b == 0x64 {
        Some(EditCommand::WordDeleteForward)
    } else if b == 8 || b == 127 {
        Some(EditCommand::WordDeleteBackward)
    } else {
        None
    }
}

/// The input bound to a key; `None` for an unfinished paste, which ends the interaction.
pub open spec fn bound(key: Key) -> Option<Input> {
    match key {
        Key::Text(t) => Some(Input::Text(t)),
        Key::Paste(t) => Some(Input::Paste(t)),
        Key::Left => Some(Input::Edit(EditCommand::Left)),
        Key::Right => Some(Input::Edit(EditCommand::Right)),
        Key::Meta(b) => match meta_binding(b) {
            Some(c) => Some(Input::Edit(c)),
            None => Some(Input::Rejected(EditError::InvalidSequence)),
        },
        Key::Control(b) => match control_binding(b) {
            Some(c) => Some(Input::Edit(c)),
            None => Some(Input::Rejected(EditError::InvalidSequence)),
        },
        Key::Home => Some(Input::Edit(EditCommand::Home)),
        Key::End => Some(Input::Edit(EditCommand::End)),
        Key::Backspace => Some(Input::Edit(EditCommand::Backspace)),
        Key::Delete => Some(Input::Edit(EditCommand::Delete)),
        Key::Up => Some(Input::Edit(EditCommand::HistoryPrevious)),
        Key::Down => Some(Input::Edit(EditCommand::HistoryNext)),
        Key::Enter => Some(Input::Request(Request::Submit)),
        Key::Interrupt => Some(Input::Request(Request::Interrupt)),
        Key::Tab => Some(Input::Request(Request::Completion)),
        Key::BackTab => Some(Input::Request(Request::CompletionPrevious)),
        Key::Escape => Some(Input::Request(Request::DismissCompletion)),
        Key::Eof => Some(Input::Request(Request::DeleteOrEof)),
        Key::Clear => Some(Input::Request(Request::Redraw)),
        Key::Rejected(e) => Some(Input::Rejected(e)),
        Key::IncompletePaste => None,
    }
}

/// The current compatibility keymap.
pub fn binding(key: Key) -> (r: Result<Input, &'static str>)
    ensures
        match bound(key) {
            Some(i) => r == Ok::<Input, &'static str>(i),
            None => r matches Err(m) && m@ == "incomplete bracketed paste; interaction closed"@,
        },
{
    match key {
        Key::Text(text) => Ok(Input::Text(text)),
        Key::Paste(text) => Ok(Input::Paste(text)),
        Key::Left => Ok(Input::Edit(EditCommand::Left)),
        Key::Right => Ok(Input::Edit(EditCommand::Right)),
        Key::Meta(b) => {
            if b == 0x62 {
                Ok(Input::Edit(EditCommand::WordLeft))
            } else if b == 0x66 {
                Ok(Input::Edit(EditCommand::WordRight))
            } else if b == 0x64 {
                Ok(Input::Edit(EditCommand::WordDeleteForward))
            } else if b == 8 || b == 127 {
                Ok(Input::Edit(EditCommand::WordDeleteBackward))
            } else {
                Ok(Input::Rejected(EditError::InvalidSequence))
            }
        },
        Key::Control(b) => {
            if b == 18 {
                Ok(Input::Edit(EditCommand::HistorySearchOlder))
            } else if b == 19 {
                Ok(Input::Edit(EditCommand::HistorySearchNewer))
            } else if b == 31 {
                Ok(Input::Edit(EditCommand::Undo))
            } else if b == 23 {
                Ok(Input::Edit(EditCommand::KillWordBackward))
            } else if b == 21 {
                Ok(Input::Edit(EditCommand::KillLineStart))
            } else if b == 11 {
                Ok(Input::Edit(EditCommand::KillLineEnd))
            } else if b == 25 {
                Ok(Input::Edit(EditCommand::Yank))
            } else {
                Ok(Input::Rejected(EditError::InvalidSequence))
            }
        },
        Key::Home => Ok(Input::Edit(EditCommand::Home)),
        Key::End => Ok(Input::Edit(EditCommand::End)),
        Key::Backspace => Ok(Input::Edit(EditCommand::Backspace)),
        Key::Delete => Ok(Input::Edit(EditCommand::Delete)),
        Key::Up => Ok(Input::Edit(EditCommand::HistoryPrevious)),
        Key::Down => Ok(Input::Edit(EditCommand::HistoryNext)),
        Key::Enter => Ok(Input::Request(Request::Submit)),
        Key::Interrupt => Ok(Input::Request(Request::Interrupt)),
        Key::Tab => Ok(Input::Request(Request::Completion)),
        Key::BackTab => Ok(Input::Request(Request::CompletionPrevious)),
        Key::Escape => Ok(Input::Request(Request::DismissCompletion)),
        Key::Eof => Ok(Input::Request(Request::DeleteOrEof)),
        Key::Clear => Ok(Input::Request(Request::Redraw)),
        Key::Rejected(error) => Ok(Input::Rejected(error)),
        Key::IncompletePaste => {
            proof {
                reveal_strlit("incomplete bracketed paste; interaction closed");
            }
            Err("incomplete bracketed paste; interaction closed")
        },
    }
}

} // verus!
