//! Normalized input, independent of physical keys, byte protocols and resources.
use crate::completion::CompletionAction;
use crate::editor::EditError;
use vstd::prelude::*;

verus! {

/// A draft edit or cursor movement.
#[derive(Clone, Copy, Debug, PartialEq, Eq, Structural)]
pub enum EditCommand {
    /// Previous grapheme.
    Left,
    /// Next grapheme.
    Right,
    /// Start of the draft.
    Home,
    /// End of the draft.
    End,
    /// Delete the previous grapheme.
    Backspace,
    /// Delete the next grapheme.
    Delete,
    /// Previous line, or older history at the first line when validated.
    HistoryPrevious,
    /// Next line, or newer history at the last line when validated.
    HistoryNext,
    /// Previous word start.
    WordLeft,
    /// Next word end.
    WordRight,
    /// Delete to the previous word start.
    WordDeleteBackward,
    /// Delete to the next word end.
    WordDeleteForward,
    /// Begin reverse search, or select an older match.
    HistorySearchOlder,
    /// Select a newer match during reverse search.
    HistorySearchNewer,
    /// Revert the last edit group.
    Undo,
    /// Reapply the last reverted group.
    Redo,
    /// Kill to the previous word start.
    KillWordBackward,
    /// Kill to the next word end.
    KillWordForward,
    /// Kill to the start of the logical line.
    KillLineStart,
    /// Kill to the end of the logical line.
    KillLineEnd,
    /// Insert the kill register.
    Yank,
}

/// A lifecycle or presentation request.
#[derive(Clone, Copy, Debug, PartialEq, Eq, Structural)]
pub enum Request {
    /// Enter.
    Submit,
    /// Ctrl-C.
    Interrupt,
    /// Tab: request completion or select the next candidate.
    Completion,
    /// Select the previous candidate.
    CompletionPrevious,
    /// Dismiss the completion menu.
    DismissCompletion,
    /// Ctrl-D: end of input on an empty draft, else delete.
    DeleteOrEof,
    /// Clear the screen and draw again.
    Redraw,
    /// An explicit completion-menu operation.
    CompletionAction(CompletionAction),
    /// Accept the reverse-search match.
    HistorySearchAccept,
    /// Leave reverse search without changes.
    HistorySearchDismiss,
    /// Accept the suggestion.
    SuggestionAccept,
    /// Dismiss the suggestion.
    SuggestionDismiss,
}

/// One unit of normalized input.
#[derive(Clone, Debug, PartialEq)]
pub enum Input {
    /// Typed text.
    Text(String),
    /// Bracketed paste.
    Paste(String),
    /// An edit command.
    Edit(EditCommand),
    /// A request.
    Request(Request),
    /// New surface size in columns and rows.
    Resize(usize, usize),
    /// The input transport ended.
    TransportEof,
    /// Undecodable input, rejected before editing.
    Rejected(EditError),
}

/// The request with menu shorthands expressed as explicit completion operations.
pub open spec fn canonical_request(r: Request) -> Request {
    match r {
        Request::CompletionPrevious => Request::CompletionAction(CompletionAction::Previous),
        Request::DismissCompletion => Request::CompletionAction(CompletionAction::Dismiss),
        other => other,
    }
}

/// Express menu shorthands as explicit completion operations.
pub fn canonical(r: Request) -> (c: Request)
    ensures
        c == canonical_request(r),
{
    match r {
        Request::CompletionPrevious => Request::CompletionAction(CompletionAction::Previous),
        Request::DismissCompletion => Request::CompletionAction(CompletionAction::Dismiss),
        other => other,
    }
}

} // verus!
