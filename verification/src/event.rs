//! Host-visible interaction events and recoverable failures.
use crate::analysis::AnalysisSnapshot;
use crate::editor::{edit_error_text, EditError};
use vstd::prelude::*;

verus! {

/// The standard library's I/O error, carried through unchanged.
#[verifier::external_type_specification]
#[verifier::external_body]
pub struct ExIoError(std::io::Error);

/// Recoverable edit rejection or terminal I/O failure.
#[derive(Debug)]
pub enum Error {
    /// Operation requires a different open/closed interaction state.
    State,
    /// Another interaction already owns a terminal in this process.
    Busy,
    /// Input/output are not a matching, suitably sized terminal pair.
    UnsuitableTerminal,
    /// Required terminal semantics could not be admitted before acquisition.
    CapabilityMismatch(&'static str),
    /// An invalid edit; the terminal remains active and the draft is unchanged.
    Edit(EditError),
    /// Terminal failure. Cleanup has been attempted.
    Io(std::io::Error),
}

impl Error {
    /// Human-readable description of the failure.
    pub fn message(&self) -> (r: String)
        ensures
            match self {
                Error::State => r@ == "invalid interaction state"@,
                Error::Busy => r@ == "another terminal interaction is active"@,
                Error::UnsuitableTerminal => r@ == "unsuitable terminal descriptors or dimensions"@,
                Error::CapabilityMismatch(reason) => r@ == reason@,
                Error::Edit(e) => r@ == edit_error_text(*e),
                Error::Io(_) => true,
            },
    {
        match self {
            Error::State => "invalid interaction state".to_owned(),
            Error::Busy => "another terminal interaction is active".to_owned(),
            Error::UnsuitableTerminal => "unsuitable terminal descriptors or dimensions".to_owned(),
            Error::CapabilityMismatch(reason) => (*reason).to_owned(),
            Error::Edit(e) => e.message().to_owned(),
            Error::Io(e) => io_message(e),
        }
    }
}

/// `ToString::to_string` on a standard I/O error: its operating-system text,
/// which depends on the machine and locale, so nothing is claimed of it.
#[verifier::external_body]
pub(crate) fn io_message(e: &std::io::Error) -> String {
    e.to_string()
}

/// A host-visible interaction event; input is never interpreted by the library.
#[derive(Debug, PartialEq)]
pub enum Event {
    /// Enter submitted the complete input, possibly containing newlines.
    Submitted(String),
    /// Ctrl-C or explicit host interruption; the draft remains available.
    Interrupted,
    /// Read EOF or Ctrl-D on an empty buffer.
    EndOfInput,
    /// Tab requests host completion.
    CompletionRequested,
    /// Opt-in Enter request. The host returns a revision-bound validation result.
    SubmissionRequested(AnalysisSnapshot),
    /// Invalid input or capacity rejection; the unchanged draft remains editable.
    Rejected(EditError),
}

} // verus!
