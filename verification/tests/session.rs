//! Decisions of the terminal session driver.
use replai::driving::ReadOutcome;
use replai::editor::EditError;
use replai::engine::Effects;
use replai::event::Event;
use replai::render::Mutation;
use replai::session::{
    after_effects, poll_action, poll_wait_millis, read_line_step, sequence_expired, start_effects, DriverStep, InputRead,
    PollAction, ReadStep,
};

#[test]
fn a_closed_engine_restores_the_terminal() {
    assert!(matches!(after_effects(false, true, Some(Event::EndOfInput)), DriverStep::Restore(Some(Event::EndOfInput))));
    assert!(matches!(after_effects(false, false, None), DriverStep::Restore(None)));
}

#[test]
fn a_failed_write_abandons_an_open_surface() {
    assert!(matches!(after_effects(true, false, Some(Event::Interrupted)), DriverStep::Abandon));
    assert!(matches!(after_effects(true, true, Some(Event::CompletionRequested)), DriverStep::Continue(Some(Event::CompletionRequested))));
}

#[test]
fn a_session_starts_with_bracketed_paste() {
    let fx = start_effects(Effects { mutations: vec![Mutation::ClearLine], event: None });
    assert_eq!(fx.mutations, vec![Mutation::Paste(true), Mutation::ClearLine]);
    assert!(fx.event.is_none());
}

#[test]
fn reads_feed_expire_or_end() {
    assert_eq!(poll_action(InputRead::Byte(b'a'), false, false), PollAction::Feed(b'a'));
    assert_eq!(poll_action(InputRead::Idle, true, true), PollAction::Expire);
    assert_eq!(poll_action(InputRead::Idle, true, false), PollAction::Wait);
    assert_eq!(poll_action(InputRead::Idle, false, true), PollAction::Wait);
    assert_eq!(poll_action(InputRead::Eof, true, false), PollAction::Truncated);
    assert_eq!(poll_action(InputRead::Eof, false, false), PollAction::EndOfInput);
    assert!(!sequence_expired(249));
    assert!(sequence_expired(250));
    assert_eq!(poll_wait_millis(30), 30);
    assert_eq!(poll_wait_millis(5000), 100);
}

#[test]
fn the_line_reader_returns_warns_or_continues() {
    assert!(matches!(read_line_step(Some(Event::Submitted("ls".into()))), ReadStep::Return(ReadOutcome::Submitted(t)) if t == "ls"));
    assert!(matches!(read_line_step(Some(Event::Interrupted)), ReadStep::Return(ReadOutcome::Interrupted)));
    assert!(matches!(read_line_step(Some(Event::EndOfInput)), ReadStep::Return(ReadOutcome::EndOfInput)));
    match read_line_step(Some(Event::Rejected(EditError::Capacity))) {
        ReadStep::Warn(m) => assert_eq!(m, "input capacity exceeded"),
        other => panic!("unexpected {other:?}"),
    }
    assert!(matches!(read_line_step(Some(Event::CompletionRequested)), ReadStep::Continue));
    assert!(matches!(read_line_step(None), ReadStep::Continue));
}
