//! Engine-level interaction scenarios: completion acceptance, invalidation,
//! submission, reverse search, undo grouping and shared prefixes.
use replai::actions::{EditCommand, Input, Request};
use replai::completion::{CompletionCandidate, CompletionSet};
use replai::completion_helpers::common_grapheme_prefix;
use replai::completion::CompletionError;
use replai::editor::{EditError, Editor};
use replai::event::Error;
use replai::presentation::Role;
use replai::engine::Engine;
use replai::event::Event;
use replai::history::{HistorySearchLimits, HistorySearchSource};
use replai::presentation::Prompt;

#[test]
fn submit_with_a_menu_accepts_the_selection_then_submits() {
    let mut e = Engine::new(Editor::new(1024, 10));
    e.editor.insert("bu").unwrap();
    e.start(Prompt::new("demo").unwrap(), (80, 24)).unwrap();
    let candidates = (0..3)
        .map(|i| CompletionCandidate::new(0..2, &format!("build-{i} "), &format!("build-{i}")).unwrap())
        .collect();
    e.present_completions(CompletionSet::new(e.editor.revision(), candidates).unwrap()).unwrap();
    e.apply(Input::Request(Request::CompletionPrevious)).unwrap();
    let r = e.editor.revision();
    let fx = e.apply(Input::Request(Request::Submit)).unwrap();
    assert!(fx.event.is_none());
    assert_eq!(e.editor.text(), "build-2 ");
    assert_ne!(e.editor.revision(), r);
    assert!(e.completion_selection().is_none());
    assert!(e.is_open());
    let fx = e.apply(Input::Request(Request::Submit)).unwrap();
    assert_eq!(fx.event, Some(Event::Submitted("build-2 ".into())));
}

#[test]
fn edits_keep_shown_results_only_while_the_revision_stands() {
    let mut e = Engine::new(Editor::new(1024, 10));
    e.editor.insert("bu").unwrap();
    e.start(Prompt::new("demo").unwrap(), (80, 24)).unwrap();
    let set = CompletionSet::new(e.editor.revision(), vec![CompletionCandidate::new(0..2, "build", "build").unwrap()])
        .unwrap();
    e.present_completions(set).unwrap();
    let r = e.editor.revision();
    e.apply(Input::Resize(60, 20)).unwrap();
    e.apply(Input::Request(Request::Redraw)).unwrap();
    assert_eq!(e.editor.revision(), r);
    assert!(e.completion_selection().is_some());
    e.apply(Input::Paste("x".into())).unwrap();
    assert_ne!(e.editor.revision(), r);
    assert!(e.completion_selection().is_none());
    assert!(e.is_open());
}

#[test]
fn direct_submit_keeps_the_text_and_starts_a_fresh_revision() {
    let mut e = Engine::new(Editor::new(1024, 10));
    e.start(Prompt::new("demo").unwrap(), (80, 24)).unwrap();
    e.apply(Input::Text("ship it".into())).unwrap();
    let s = e.editor.analysis_snapshot();
    let fx = e.apply(Input::Request(Request::Submit)).unwrap();
    assert_eq!(fx.event, Some(Event::Submitted("ship it".into())));
    assert!(!e.is_open());
    assert_eq!(e.editor.text(), "ship it");
    assert_ne!(e.editor.revision(), s.revision());
}

#[test]
fn left_moves_the_cursor_one_grapheme() {
    let mut e = Engine::new(Editor::new(1024, 10));
    e.start(Prompt::new("demo").unwrap(), (80, 24)).unwrap();
    e.apply(Input::Text("ae\u{301}".into())).unwrap();
    e.apply(Input::Edit(EditCommand::Left)).unwrap();
    assert_eq!(e.editor.cursor(), 1);
    e.apply(Input::Edit(EditCommand::Right)).unwrap();
    assert_eq!(e.editor.cursor(), 4);
}

#[test]
fn reverse_search_edits_its_query_and_accepts_the_match() {
    let mut e = Engine::new(Editor::new(256, 8));
    e.editor.admit_history("older alpha").unwrap();
    e.editor.admit_history("newest beta").unwrap();
    let source = HistorySearchSource::from_entries(
        &["external gamma", "external delta"],
        HistorySearchLimits::new(8, 256, 32).unwrap(),
    )
    .unwrap();
    e.set_history_source(Some(source)).unwrap();
    e.start(Prompt::new("t").unwrap(), (40, 8)).unwrap();
    e.apply(Input::Text("draft".into())).unwrap();
    e.apply(Input::Edit(EditCommand::Left)).unwrap();
    let r = e.editor.revision();
    e.apply(Input::Edit(EditCommand::HistorySearchOlder)).unwrap();
    e.apply(Input::Text("alpha".into())).unwrap();
    assert_eq!(e.history_search_query(), Some("alpha"));
    assert_eq!(e.history_search_match(), Some("older alpha"));
    assert_eq!((e.editor.text(), e.editor.cursor(), e.editor.revision()), ("draft", 4, r));
    let fx = e.apply(Input::Request(Request::Submit)).unwrap();
    assert!(fx.event.is_none());
    assert_eq!(e.history_search_query(), None);
    assert_eq!((e.editor.text(), e.editor.cursor()), ("older alpha", 11));
    assert_ne!(e.editor.revision(), r);
    assert!(e.editor.undo());
    assert_eq!((e.editor.text(), e.editor.cursor()), ("draft", 4));
}

#[test]
fn contiguous_typing_is_one_undo_record() {
    let mut e = Editor::new(1 << 20, 4);
    for p in ["h", "e", "l", "l", "o"] {
        e.insert(p).unwrap();
    }
    assert_eq!(e.undo_usage(), (1, 5));
    assert_eq!(e.redo_usage(), (0, 0));
    assert!(e.undo());
    assert_eq!((e.text(), e.cursor()), ("", 0));
}

#[test]
fn shared_prefixes_end_at_a_boundary_of_every_value() {
    assert_eq!(common_grapheme_prefix(&["e", "e\u{301}"]), "");
    assert_eq!(common_grapheme_prefix(&["界面", "界線"]), "界");
    assert_eq!(common_grapheme_prefix(&["cafe\u{301}x", "cafe\u{301}y"]), "cafe\u{301}");
    assert_eq!(common_grapheme_prefix(&["same", "same"]), "same");
}

#[test]
fn completions_are_refused_during_reverse_search_and_bad_output_is_rejected() {
    let mut e = Engine::new(Editor::new(256, 8));
    e.editor.admit_history("one").unwrap();
    e.start(Prompt::new("t").unwrap(), (40, 8)).unwrap();
    e.apply(Input::Edit(EditCommand::HistorySearchOlder)).unwrap();
    assert_eq!(e.history_search_query(), Some(""));
    let set = CompletionSet::new(e.editor.revision(), vec![CompletionCandidate::new(0..0, "x", "x").unwrap()]).unwrap();
    assert!(matches!(e.present_completions(set), Err(CompletionError::Interaction(Error::State))));
    e.apply(Input::Request(Request::HistorySearchDismiss)).unwrap();
    assert!(matches!(e.external_output(Role::Dim, "bad\u{7}"), Err(Error::Edit(EditError::InvalidText))));
    let fx = e.external_output(Role::Dim, "fine").unwrap();
    assert!(!fx.mutations.is_empty());
}

#[test]
fn admitting_valid_history_succeeds_and_invalid_history_is_refused() {
    let mut e = Editor::new(8, 2);
    assert!(e.admit_history("ok").is_ok());
    assert_eq!(e.admit_history("far too long"), Err(EditError::Capacity));
    let mut off = Editor::new(8, 0);
    assert_eq!(off.admit_history("ok"), Err(EditError::HistoryDisabled));
}
