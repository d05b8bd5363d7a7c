//! Step-by-step history views, path entries, undo records, editing commands
//! through the engine, and what the engine draws.
use replai::actions::{EditCommand, Input, Request};
use replai::analysis_presentation::{AnalysisPresentation, AnalysisPresentationError, Hint};
use replai::completion::{CompletionAction, CompletionCandidate, CompletionSet};
use replai::completion_helpers::path_entry;
use replai::editor::{EditError, Editor};
use replai::engine::Engine;
use replai::event::Event;
use replai::history::{HistoryCollector, HistoryError, HistoryProviderError, HistorySearchLimits};
use replai::presentation::Prompt;
use replai::validation::{Diagnostic, SubmissionPolicy, ValidationDisposition, ValidationError, ValidationResult};

#[test]
fn collector_asks_in_order_and_stops_at_the_end_of_entries() {
    let limits = HistorySearchLimits::new(8, 256, 32).unwrap();
    let mut c = HistoryCollector::new(limits);
    let answers = ["newest", "older"];
    let mut asked = Vec::new();
    while c.wants_more() {
        let i = c.next_index();
        asked.push(i);
        c.offer(Ok(answers.get(i).map(|s| s.to_string())));
    }
    assert_eq!(asked, vec![0, 1, 2]);
    let view = c.finish().unwrap();
    assert_eq!(view.entries(), &["newest".to_string(), "older".to_string()][..]);
}

#[test]
fn collector_stops_at_the_entry_limit_and_reports_failures() {
    let limits = HistorySearchLimits::new(2, 256, 32).unwrap();
    let mut c = HistoryCollector::new(limits);
    let mut n = 0;
    while c.wants_more() {
        c.offer(Ok(Some(format!("entry {n}"))));
        n += 1;
    }
    assert_eq!(n, 2);
    assert_eq!(c.finish().unwrap().len(), 2);

    let mut c = HistoryCollector::new(limits);
    c.offer(Ok(Some("fine".to_string())));
    c.offer(Err(HistoryProviderError));
    assert!(!c.wants_more());
    assert_eq!(c.finish().unwrap_err(), HistoryError::Provider);

    let mut c = HistoryCollector::new(limits);
    c.offer(Ok(Some("bad\u{1b}".to_string())));
    assert_eq!(c.finish().unwrap_err(), HistoryError::InvalidText);
}

#[test]
fn collector_stops_when_the_byte_bound_is_reached() {
    let limits = HistorySearchLimits::new(8, 10, 32).unwrap();
    let mut c = HistoryCollector::new(limits);
    c.offer(Ok(Some("abcdef".to_string())));
    assert!(c.wants_more());
    c.offer(Ok(Some("ghijk".to_string())));
    assert!(!c.wants_more());
    let view = c.finish().unwrap();
    assert_eq!(view.entries(), &["abcdef".to_string()][..]);
}

#[test]
fn path_entries_mark_directories_and_kinds() {
    let d = path_entry("src/alpha dir", "alpha dir", true, false, '/');
    assert_eq!(d.insertion, "src/alpha dir/");
    assert_eq!(d.name, "alpha dir");
    assert_eq!(d.kind, "directory");
    let f = path_entry("alpine", "alpine", false, false, '/');
    assert_eq!(f.insertion, "alpine");
    assert_eq!(f.kind, "file");
    let l = path_entry("link", "link", false, true, '/');
    assert_eq!(l.kind, "symlink");
}

#[test]
fn typing_is_one_record_and_undo_empties_the_draft() {
    let mut e = Editor::new(1 << 20, 4);
    assert_eq!(e.undo_usage(), (0, 0));
    for p in ["h", "e", "l", "l", "o"] {
        e.insert(p).unwrap();
    }
    assert_eq!(e.undo_usage(), (1, 5));
    assert_eq!(e.redo_usage(), (0, 0));
    assert!(e.undo());
    assert_eq!(e.text(), "");
    assert_eq!(e.cursor(), 0);
    e.clear();
    assert_eq!(e.undo_usage(), (0, 0));
    assert_eq!(e.redo_usage(), (0, 0));
}

fn open(text: &str) -> Engine {
    let mut e = Engine::new(Editor::new(1024, 10));
    e.editor.insert(text).unwrap();
    e.start(Prompt::new("> ").unwrap(), (40, 8)).unwrap();
    e
}

#[test]
fn kill_and_yank_through_the_engine() {
    let mut e = open("alpha beta");
    let fx = e.apply(Input::Edit(EditCommand::KillWordBackward)).unwrap();
    assert!(fx.event.is_none());
    assert_eq!(e.editor.text(), "alpha ");
    assert_eq!(e.editor.kill_register(), "beta");
    e.apply(Input::Edit(EditCommand::Home)).unwrap();
    e.apply(Input::Edit(EditCommand::Yank)).unwrap();
    assert_eq!(e.editor.text(), "betaalpha ");
    assert_eq!(e.editor.cursor(), 4);
    e.apply(Input::Edit(EditCommand::KillLineEnd)).unwrap();
    assert_eq!(e.editor.text(), "beta");
    assert_eq!(e.editor.kill_register(), "alpha ");
    e.apply(Input::Edit(EditCommand::WordDeleteBackward)).unwrap();
    assert_eq!(e.editor.text(), "");
    assert_eq!(e.editor.kill_register(), "alpha ");
    assert!(e.is_open());
}

#[test]
fn history_previous_and_next_through_the_engine() {
    let mut e = Engine::new(Editor::new(1024, 10));
    e.editor.admit_history("first").unwrap();
    e.editor.admit_history("second").unwrap();
    e.editor.insert("draft").unwrap();
    e.start(Prompt::new("> ").unwrap(), (40, 8)).unwrap();
    e.apply(Input::Edit(EditCommand::HistoryPrevious)).unwrap();
    assert_eq!(e.editor.text(), "second");
    e.apply(Input::Edit(EditCommand::HistoryPrevious)).unwrap();
    assert_eq!(e.editor.text(), "first");
    e.apply(Input::Edit(EditCommand::HistoryNext)).unwrap();
    assert_eq!(e.editor.text(), "second");
    e.apply(Input::Edit(EditCommand::HistoryNext)).unwrap();
    assert_eq!(e.editor.text(), "draft");
    assert_eq!(e.editor.cursor(), 5);
}

#[test]
fn history_previous_moves_between_lines_under_validation() {
    let mut e = Engine::new(Editor::new(1024, 10));
    e.editor.admit_history("old").unwrap();
    e.editor.insert("ab\ncd").unwrap();
    e.set_submission_policy(SubmissionPolicy::Validated).unwrap();
    e.start(Prompt::new("> ").unwrap(), (40, 8)).unwrap();
    e.apply(Input::Edit(EditCommand::HistoryPrevious)).unwrap();
    assert_eq!(e.editor.text(), "ab\ncd");
    assert_eq!(e.editor.cursor(), 2);
    e.apply(Input::Edit(EditCommand::HistoryPrevious)).unwrap();
    assert_eq!(e.editor.text(), "old");
}

#[test]
fn rejected_input_keeps_the_surface_and_results() {
    let mut e = open("x");
    let fx = e.apply(Input::Rejected(EditError::InvalidText)).unwrap();
    assert_eq!(fx.event, Some(Event::Rejected(EditError::InvalidText)));
    assert!(e.is_open());
    assert_eq!(e.editor.text(), "x");
    let fx = e.apply(Input::Edit(EditCommand::HistorySearchNewer)).unwrap();
    assert_eq!(fx.event, Some(Event::Rejected(EditError::InvalidSequence)));
}

#[test]
fn a_failed_kill_is_reported_as_a_rejection() {
    let mut e = Engine::new(Editor::new(1 << 20, 10));
    let long = "x".repeat(70000);
    e.editor.insert(&long).unwrap();
    e.start(Prompt::new("> ").unwrap(), (40, 8)).unwrap();
    let before = e.editor.revision();
    let fx = e.apply(Input::Edit(EditCommand::KillLineStart)).unwrap();
    assert_eq!(fx.event, Some(Event::Rejected(EditError::Capacity)));
    assert_eq!(e.editor.revision(), before);
    assert_eq!(e.editor.len(), 70000);
}

#[test]
fn reverse_search_selects_the_newest_entry_containing_the_query() {
    let mut e = Engine::new(Editor::new(256, 8));
    e.editor.admit_history("older alpha").unwrap();
    e.editor.admit_history("newest beta").unwrap();
    e.start(Prompt::new("t").unwrap(), (40, 8)).unwrap();
    e.apply(Input::Edit(EditCommand::HistorySearchOlder)).unwrap();
    assert_eq!(e.history_search_match(), Some("newest beta"));
    e.apply(Input::Text("alpha".into())).unwrap();
    assert_eq!(e.history_search_match(), Some("older alpha"));
    e.apply(Input::Text("zzz".into())).unwrap();
    assert_eq!(e.history_search_match(), None);
}

#[test]
fn accepting_a_search_match_is_one_undo_record() {
    let mut e = Engine::new(Editor::new(256, 8));
    e.editor.admit_history("older alpha").unwrap();
    e.editor.insert("draft").unwrap();
    e.start(Prompt::new("t").unwrap(), (40, 8)).unwrap();
    e.apply(Input::Edit(EditCommand::HistorySearchOlder)).unwrap();
    e.apply(Input::Text("alpha".into())).unwrap();
    let fx = e.apply(Input::Request(Request::Submit)).unwrap();
    assert!(fx.event.is_none());
    assert_eq!(e.editor.text(), "older alpha");
    assert!(e.editor.undo());
    assert_eq!(e.editor.text(), "draft");
    assert_eq!(e.editor.cursor(), 5);
}

#[test]
fn close_clears_every_shown_result() {
    let mut e = open("bu");
    let c = vec![CompletionCandidate::new(0..2, "build", "build").unwrap()];
    e.present_completions(CompletionSet::new(e.editor.revision(), c).unwrap()).unwrap();
    assert!(e.completion_selection().is_some());
    let fx = e.close();
    assert!(fx.event.is_none());
    assert!(!e.is_open());
    assert!(e.completion_selection().is_none());
    assert!(e.analysis_presentation().is_none());
    assert!(e.suggestion().is_none());
    assert_eq!(e.editor.text(), "bu");
}

#[test]
fn diagnostics_outside_the_draft_are_an_invalid_range() {
    let mut e = Engine::new(Editor::new(1 << 20, 10));
    e.editor.insert("e\u{301}\u{754c}").unwrap();
    e.set_submission_policy(SubmissionPolicy::Validated).unwrap();
    e.start(Prompt::new("demo").unwrap(), (80, 24)).unwrap();
    let fx = e.apply(Input::Request(Request::Submit)).unwrap();
    let s = match fx.event {
        Some(Event::SubmissionRequested(s)) => s,
        other => panic!("unexpected {other:?}"),
    };
    for range in [1..2, 0..999, 3..4] {
        let d = Diagnostic::new("safe", Some(range)).unwrap();
        let r = ValidationResult::new(s.revision(), ValidationDisposition::Invalid(vec![d])).unwrap();
        assert!(matches!(e.apply_validation(r), Err(ValidationError::Edit(EditError::InvalidRange))));
        assert_eq!(e.editor.revision(), s.revision());
        assert!(e.diagnostics().is_none());
    }
    let done = ValidationResult::new(s.revision(), ValidationDisposition::Complete).unwrap();
    let (_, fx) = e.apply_validation(done).unwrap();
    assert_eq!(fx.event, Some(Event::Submitted("e\u{301}\u{754c}".into())));
}

#[test]
fn analysis_ranges_outside_the_draft_are_an_invalid_range() {
    let mut e = open("e\u{301}");
    let p = AnalysisPresentation::new(e.editor.revision(), vec![
        replai::analysis_presentation::AnalysisSpan::new(1..2, replai::presentation::Role::Accent).unwrap(),
    ], None).unwrap();
    assert!(matches!(e.present_analysis(p), Err(AnalysisPresentationError::Edit(EditError::InvalidRange))));
}

#[test]
fn the_menu_hides_the_hint_and_dismissal_shows_it_again() {
    let mut e = open("ab");
    let p = AnalysisPresentation::new(e.editor.revision(), vec![], Some(Hint::new("suffix", replai::presentation::Role::Dim).unwrap())).unwrap();
    e.present_analysis(p).unwrap();
    let c = vec![CompletionCandidate::new(0..2, "abc", "abc").unwrap()];
    let (_, fx) = e.present_completions(CompletionSet::new(e.editor.revision(), c).unwrap()).unwrap();
    let drawn: String = fx.mutations.iter().map(|m| format!("{m:?}")).collect();
    assert!(!drawn.contains("[~"));
    assert!(e.analysis_presentation().is_some());
    let (_, fx) = e.completion_action(CompletionAction::Dismiss).unwrap();
    let drawn: String = fx.mutations.iter().map(|m| format!("{m:?}")).collect();
    assert!(drawn.contains("[~"));
}

#[test]
fn a_backspace_run_is_one_record() {
    let mut e = Editor::new(1 << 20, 4);
    e.insert("abc").unwrap();
    e.break_undo_group();
    e.backspace();
    e.backspace();
    assert_eq!(e.text(), "a");
    assert_eq!(e.undo_usage(), (2, 5));
    assert!(e.undo());
    assert_eq!(e.text(), "abc");
    assert_eq!(e.cursor(), 3);
}

#[test]
fn delete_or_eof_and_completion_requests() {
    let mut e = open("ab");
    e.apply(Input::Edit(EditCommand::Home)).unwrap();
    let fx = e.apply(Input::Request(Request::DeleteOrEof)).unwrap();
    assert!(fx.event.is_none());
    assert_eq!(e.editor.text(), "b");
    let fx = e.apply(Input::Request(Request::Completion)).unwrap();
    assert_eq!(fx.event, Some(Event::CompletionRequested));
    assert_eq!(e.editor.text(), "b");
    e.apply(Input::Request(Request::DeleteOrEof)).unwrap();
    let fx = e.apply(Input::Request(Request::DeleteOrEof)).unwrap();
    assert_eq!(fx.event, Some(Event::EndOfInput));
    assert!(!e.is_open());
}

#[test]
fn the_host_edits_through_the_engine_s_editor() {
    let mut e = open("a");
    e.editor_mut().insert("b").unwrap();
    assert_eq!(e.editor.text(), "ab");
    assert!(e.is_open());
}

#[test]
fn requests_out_of_context_are_rejected() {
    let mut e = open("ab");
    for r in [Request::SuggestionAccept, Request::SuggestionDismiss, Request::HistorySearchAccept, Request::HistorySearchDismiss] {
        let fx = e.apply(Input::Request(r)).unwrap();
        assert_eq!(fx.event, Some(Event::Rejected(EditError::InvalidSequence)));
        assert_eq!(e.editor.text(), "ab");
        assert!(e.is_open());
    }
}

#[test]
fn tab_and_shift_tab_move_the_menu_selection() {
    let mut e = open("bu");
    let c = (0..3).map(|i| CompletionCandidate::new(0..2, &format!("build-{i} "), &format!("build-{i}")).unwrap()).collect();
    e.present_completions(CompletionSet::new(e.editor.revision(), c).unwrap()).unwrap();
    e.apply(Input::Request(Request::Completion)).unwrap();
    assert_eq!(e.completion_selection().unwrap().index, 1);
    e.apply(Input::Request(Request::CompletionPrevious)).unwrap();
    e.apply(Input::Request(Request::CompletionPrevious)).unwrap();
    assert_eq!(e.completion_selection().unwrap().index, 2);
    let fx = e.apply(Input::Request(Request::Submit)).unwrap();
    assert!(fx.event.is_none());
    assert_eq!(e.editor.text(), "build-2 ");
    assert!(e.is_open());
}

#[test]
fn tab_indents_continuation_lines_under_validation() {
    let mut e = Engine::new(Editor::new(1024, 10));
    e.editor.insert("if x:\n  ").unwrap();
    e.set_submission_policy(SubmissionPolicy::Validated).unwrap();
    e.start(Prompt::new("> ").unwrap(), (40, 8)).unwrap();
    let fx = e.apply(Input::Request(Request::Completion)).unwrap();
    assert!(fx.event.is_none());
    assert_eq!(e.editor.text(), "if x:\n    ");
    e.apply(Input::Text("y".into())).unwrap();
    let fx = e.apply(Input::Request(Request::Completion)).unwrap();
    assert_eq!(fx.event, Some(Event::CompletionRequested));
}

#[test]
fn beginning_a_search_drops_the_pending_request() {
    let mut e = Engine::new(Editor::new(256, 8));
    e.editor.admit_history("old").unwrap();
    e.editor.insert("x").unwrap();
    e.set_submission_policy(SubmissionPolicy::Validated).unwrap();
    e.start(Prompt::new("> ").unwrap(), (40, 8)).unwrap();
    let fx = e.apply(Input::Request(Request::Submit)).unwrap();
    let s = match fx.event {
        Some(Event::SubmissionRequested(s)) => s,
        other => panic!("unexpected {other:?}"),
    };
    e.apply(Input::Edit(EditCommand::HistorySearchOlder)).unwrap();
    let done = ValidationResult::new(s.revision(), ValidationDisposition::Complete).unwrap();
    assert!(matches!(e.apply_validation(done), Err(ValidationError::NoRequest)));
}

#[test]
fn undo_after_a_cursor_move_reverses_the_last_edit() {
    let mut e = Editor::new(128, 0);
    e.insert("abc def").unwrap();
    e.home();
    e.word_right();
    e.delete_word_forward();
    assert_eq!(e.text(), "abc");
    e.undo();
    assert_eq!(e.text(), "abc def");
    e.right();
    assert!(e.redo());
    assert_eq!(e.text(), "abc");
}
