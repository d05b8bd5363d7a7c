//! Public helper and suggestion contract tests.
use replai::completion_helpers::{
    common_grapheme_prefix, complete_fuzzy, complete_prefix, CompletionItem, MatchCase,
};
use replai::editor::Editor;
use replai::suggestion::{suggest_from_history, suggest_from_static, Suggestion};

#[test]
fn helper_outputs_are_revision_bound_safe_and_ordered() {
    let mut editor = Editor::new(1024, 4);
    editor.insert("dep").unwrap();
    let snapshot = editor.analysis_snapshot();
    let items = [
        CompletionItem::new("deploy").unwrap(),
        CompletionItem::new("depend").unwrap(),
        CompletionItem::new("debug").unwrap(),
    ];
    let set = complete_prefix(&snapshot, 0..3, "dep", &items, MatchCase::Sensitive).unwrap();
    assert_eq!(
        set.candidates()
            .iter()
            .map(|c| c.replacement())
            .collect::<Vec<_>>(),
        ["deploy", "depend"]
    );
    let fuzzy = complete_fuzzy(&snapshot, 0..3, "dg", &items, MatchCase::Sensitive).unwrap();
    assert_eq!(fuzzy.candidates()[0].replacement(), "debug");
    assert_eq!(common_grapheme_prefix(&["界面", "界線"]), "界");
    let suggestion = suggest_from_static(&snapshot, &["deploy", "debug"])
        .unwrap()
        .unwrap();
    assert_eq!(suggestion.text(), "loy");
    assert_eq!(
        suggest_from_history(&snapshot, &["depend", "deploy"])
            .unwrap()
            .unwrap()
            .text(),
        "end"
    );
    editor.insert("x").unwrap();
    assert_ne!(suggestion.revision(), editor.revision());
}

#[test]
fn suggestion_constructor_rejects_controls_and_is_noncanonical() {
    let editor = Editor::new(32, 0);
    let revision = editor.revision();
    let suggestion = Suggestion::new(revision, "loy").unwrap();
    assert_eq!(suggestion.text(), "loy");
    assert_eq!(editor.text(), "");
    assert!(Suggestion::new(revision, "\u{1b}[31m").is_err());
}
