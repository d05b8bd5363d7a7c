//! Public scheduling vocabulary, independent of descriptors and terminal protocols.
use std::time::Instant;
use vstd::prelude::*;

verus! {

/// The standard library's monotonic instant, carried through unchanged.
#[verifier::external_type_specification]
#[verifier::external_body]
pub struct ExInstant(Instant);

/// Opaque monotonic wakeup token for one active interaction and input epoch.
///
/// Copying a token does not keep a terminal alive. A stale token or a notification
/// before its due time is a no-op. Obtain a fresh interest after every operation.
#[derive(Clone, Copy, Debug, PartialEq, Eq)]
pub struct Deadline {
    at: Instant,
    session: u64,
    revision: u64,
}

impl Deadline {
    /// A token due at `at` for one interaction session and input epoch.
    pub fn new(at: Instant, session: u64, revision: u64) -> (r: Self)
        ensures
            r.spec_at() == at,
            r.spec_session() == session,
            r.spec_revision() == revision,
    {
        Deadline { at, session, revision }
    }

    /// Due time.
    pub closed spec fn spec_at(self) -> Instant {
        self.at
    }

    /// Interaction session.
    pub closed spec fn spec_session(self) -> u64 {
        self.session
    }

    /// Input epoch.
    pub closed spec fn spec_revision(self) -> u64 {
        self.revision
    }

    /// Monotonic due time; this has no wall-clock representation or meaning.
    pub fn at(self) -> (r: Instant)
        ensures
            r == self.spec_at(),
    {
        self.at
    }

    /// Whether this token belongs to `session` and input epoch `revision`.
    pub fn belongs_to(self, session: u64, revision: u64) -> (r: bool)
        ensures
            r == (self.spec_session() == session && self.spec_revision() == revision),
    {
        self.session == session && self.revision == revision
    }
}

/// What can advance an active interaction. This value never waits or owns I/O.
#[derive(Clone, Copy, Debug, PartialEq, Eq)]
pub enum WaitInterest {
    /// Already-read input remains. Advance without waiting for OS readiness.
    Ready,
    /// Wait for terminal input, or the deadline if present, whichever comes first.
    Input {
        /// An internal wakeup, opaque to the host beyond its monotonic due time.
        deadline: Option<Deadline>,
    },
}

/// One host-observed reason to advance the interaction, never an application action.
#[derive(Clone, Copy, Debug, PartialEq, Eq)]
pub enum Wake {
    /// Input is readable, or [`WaitInterest::Ready`] reports retained input.
    InputReady,
    /// An internal wakeup was scheduled using the supplied opaque token.
    Deadline(Deadline),
    /// Refresh resource dimensions after a host-owned resize notification.
    Resize,
}

/// Terminal features actually admitted for an open interaction.
#[derive(Clone, Copy, Debug, PartialEq, Eq, Structural)]
pub struct InteractionFeatures {
    /// Semantic foreground/weight styling is enabled.
    pub styling: bool,
    /// The bracketed-paste terminal mode is enabled and restored.
    pub bracketed_paste: bool,
}

/// Result of the simple blocking tier. The terminal has been restored on success.
#[derive(Debug, PartialEq, Eq)]
pub enum ReadOutcome {
    /// Complete submitted UTF-8 input, including any pasted newlines.
    Submitted(String),
    /// Editing was interrupted; the retained draft can be inspected or cleared.
    Interrupted,
    /// Terminal EOF or Ctrl-D on an empty draft; no submission is implied.
    EndOfInput,
}

} // verus!
