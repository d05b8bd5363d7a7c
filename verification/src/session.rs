//! Decisions of the terminal session driver: what follows one written engine
//! step, one read from the terminal, and one event of the blocking line
//! reader. The driver itself performs the I/O and the waiting; every choice it
//! makes is one of these functions.
use crate::driving::ReadOutcome;
use crate::editor::{edit_error_text, EditError};
use crate::engine::Effects;
use crate::event::Event;
use crate::render::Mutation;
use vstd::prelude::*;

verus! {

/// Milliseconds after which an incomplete key sequence expires while no byte arrives.
pub const SEQUENCE_IDLE_MILLIS: u64 = 250;

/// Longest single wait for terminal input, in milliseconds.
pub const POLL_SLICE_MILLIS: u64 = 100;

/// What the driver does after writing one engine step's mutations.
#[derive(Debug)]
pub enum DriverStep {
    /// The surface is still open and the write succeeded: report the event.
    Continue(Option<Event>),
    /// The engine closed its surface: restore the terminal, then report the event.
    Restore(Option<Event>),
    /// The write failed while the surface was open: abandon the surface and
    /// restore the terminal, reporting the failure.
    Abandon,
}

/// The step after writing an engine step: a closed engine restores the
/// terminal whatever the write did; an open one continues unless the write failed.
pub fn after_effects(engine_open: bool, write_ok: bool, event: Option<Event>) -> (r: DriverStep)
    ensures
        !engine_open ==> r == DriverStep::Restore(event),
        engine_open && !write_ok ==> r == DriverStep::Abandon,
        engine_open && write_ok ==> r == DriverStep::Continue(event),
{
    if !engine_open {
        DriverStep::Restore(event)
    } else if !write_ok {
        DriverStep::Abandon
    } else {
        DriverStep::Continue(event)
    }
}

/// The effects that open a session: bracketed paste on, then the first drawing.
pub fn start_effects(effects: Effects) -> (r: Effects)
    ensures
        r.mutations@ == seq![Mutation::Paste(true)] + effects.mutations@,
        r.event == effects.event,
{
    let mut mutations: Vec<Mutation> = Vec::new();
    mutations.push(Mutation::Paste(true));
    let mut rest = effects.mutations;
    let ghost before = rest@;
    mutations.append(&mut rest);
    proof {
        assert(mutations@ =~= seq![Mutation::Paste(true)] + before);
    }
    Effects { mutations, event: effects.event }
}

/// One read from the terminal.
#[derive(Clone, Copy, Debug, PartialEq, Eq, Structural)]
pub enum InputRead {
    /// One input byte.
    Byte(u8),
    /// Nothing arrived before the wait ended.
    Idle,
    /// The input ended.
    Eof,
}

/// What the driver does with one read.
#[derive(Clone, Copy, Debug, PartialEq, Eq, Structural)]
pub enum PollAction {
    /// Give the byte to the key decoder.
    Feed(u8),
    /// The incomplete key sequence has waited too long: expire it.
    Expire,
    /// Nothing to do yet.
    Wait,
    /// Report end of input to the engine.
    EndOfInput,
    /// The input ended inside an incomplete key sequence: a failure.
    Truncated,
}

/// Whether an incomplete key sequence has been idle for `elapsed_millis` long enough to expire.
pub fn sequence_expired(elapsed_millis: u128) -> (r: bool)
    ensures
        r == (elapsed_millis >= SEQUENCE_IDLE_MILLIS),
{
    elapsed_millis >= SEQUENCE_IDLE_MILLIS as u128
}

/// The wait for one read: the host's timeout, capped at one poll slice.
pub fn poll_wait_millis(timeout_millis: u64) -> (r: u64)
    ensures
        r == if timeout_millis < POLL_SLICE_MILLIS { timeout_millis } else { POLL_SLICE_MILLIS },
{
    if timeout_millis < POLL_SLICE_MILLIS {
        timeout_millis
    } else {
        POLL_SLICE_MILLIS
    }
}

/// The action for one read, given whether the key decoder holds an incomplete
/// sequence and whether that sequence has expired.
pub fn poll_action(read: InputRead, pending: bool, expired: bool) -> (r: PollAction)
    ensures
        read matches InputRead::Byte(b) ==> r == PollAction::Feed(b),
        read is Idle ==> r == (if pending && expired { PollAction::Expire } else { PollAction::Wait }),
        read is Eof ==> r == (if pending { PollAction::Truncated } else { PollAction::EndOfInput }),
{
    match read {
        InputRead::Byte(b) => PollAction::Feed(b),
        InputRead::Idle => if pending && expired { PollAction::Expire } else { PollAction::Wait },
        InputRead::Eof => if pending { PollAction::Truncated } else { PollAction::EndOfInput },
    }
}

/// What the blocking line reader does with one polled event.
#[derive(Debug)]
pub enum ReadStep {
    /// Return this outcome; the terminal has been restored.
    Return(ReadOutcome),
    /// Show this warning above the draft and keep reading.
    Warn(String),
    /// Keep reading.
    Continue,
}

/// The blocking reader's step for one event: submission, interruption and end
/// of input end the read; a rejection is shown as a warning; a completion
/// request (Tab is declined) or no event keeps reading. The blocking reader
/// runs under direct submission, so no validation request occurs.
pub fn read_line_step(event: Option<Event>) -> (r: ReadStep)
    requires
        !(event matches Some(Event::SubmissionRequested(_))),
    ensures
        event matches Some(Event::Submitted(t)) ==> (r matches ReadStep::Return(ReadOutcome::Submitted(u)) && u@ == t@),
        event matches Some(Event::Interrupted) ==> (r matches ReadStep::Return(o) && o == ReadOutcome::Interrupted),
        event matches Some(Event::EndOfInput) ==> (r matches ReadStep::Return(o) && o == ReadOutcome::EndOfInput),
        event matches Some(Event::Rejected(e)) ==> (r matches ReadStep::Warn(m) && m@ == edit_error_text(e)),
        event is None || (event matches Some(Event::CompletionRequested)) ==> r is Continue,
{
    match event {
        Some(Event::Submitted(t)) => ReadStep::Return(ReadOutcome::Submitted(t)),
        Some(Event::Interrupted) => ReadStep::Return(ReadOutcome::Interrupted),
        Some(Event::EndOfInput) => ReadStep::Return(ReadOutcome::EndOfInput),
        Some(Event::Rejected(e)) => ReadStep::Warn(e.message().to_owned()),
        _ => ReadStep::Continue,
    }
}

} // verus!
