use replai::completion_helpers::{
    common_grapheme_prefix, complete_fuzzy, complete_prefix, path_candidates, CompletionHelperError, CompletionItem,
    MatchCase, PathCompletionOptions, PathEntry,
};
use replai::editor::Editor;
use std::path::PathBuf;

#[test]
fn prefix_fuzzy_and_common_prefix_are_deterministic() {
    let mut editor = Editor::new(100, 0);
    editor.insert("bu").unwrap();
    let s = editor.analysis_snapshot();
    let items =
        [CompletionItem::new("build").unwrap(), CompletionItem::new("bundle").unwrap(), CompletionItem::new("debug").unwrap()];
    assert_eq!(complete_prefix(&s, 0..2, "bu", &items, MatchCase::Sensitive).unwrap().candidates().len(), 2);
    assert_eq!(complete_fuzzy(&s, 0..2, "bg", &items, MatchCase::Sensitive).unwrap().candidates()[0].replacement(), "debug");
    assert_eq!(common_grapheme_prefix(&["cafe\u{301}x", "cafe\u{301}y"]), "cafe\u{301}");
}

#[test]
fn ascii_folding_ranges_and_limits_are_checked() {
    let mut editor = Editor::new(100, 0);
    editor.insert("e\u{301}x").unwrap();
    let s = editor.analysis_snapshot();
    let items = [CompletionItem::new("Build").unwrap(), CompletionItem::labeled("bUNDLE", "bundle").unwrap()];
    let set = complete_prefix(&s, 0..3, "BU", &items, MatchCase::AsciiInsensitive).unwrap();
    assert_eq!(set.candidates().len(), 2);
    assert_eq!(set.candidates()[1].label(), "bundle");
    assert!(complete_prefix(&s, 0..3, "BU", &items, MatchCase::Sensitive).unwrap().candidates().is_empty());
    assert!(matches!(
        complete_prefix(&s, 0..1, "b", &items, MatchCase::Sensitive),
        Err(CompletionHelperError::InvalidRange)
    ));
    assert!(matches!(
        complete_prefix(&s, 0..3, &"q".repeat(4097), &items, MatchCase::Sensitive),
        Err(CompletionHelperError::Limit)
    ));
    let fuzzy = complete_fuzzy(&s, 0..3, "bd", &items, MatchCase::AsciiInsensitive).unwrap();
    assert_eq!(fuzzy.candidates().len(), 2);
    assert_eq!(fuzzy.candidates()[0].replacement(), "bUNDLE");
    assert_eq!(common_grapheme_prefix(&[]), "");
    assert_eq!(common_grapheme_prefix(&["abc", "abd", "ab"]), "ab");
}

#[test]
fn path_entries_are_sorted_and_bounded() {
    let editor = Editor::new(100, 0);
    let s = editor.analysis_snapshot();
    let options = PathCompletionOptions::new(PathBuf::from(".")).max_candidates(2).unwrap();
    let found = vec![
        PathEntry { insertion: "src/".into(), name: "src".into(), kind: "directory" },
        PathEntry { insertion: "README.md".into(), name: "README.md".into(), kind: "file" },
    ];
    let set = path_candidates(&s, 0..0, found, &options).unwrap();
    assert_eq!(set.candidates()[0].replacement(), "README.md");
    assert_eq!(set.candidates()[1].annotation(), Some("directory"));
    let three = vec![
        PathEntry { insertion: "a".into(), name: "a".into(), kind: "file" },
        PathEntry { insertion: "b".into(), name: "b".into(), kind: "file" },
        PathEntry { insertion: "c".into(), name: "c".into(), kind: "file" },
    ];
    assert!(matches!(path_candidates(&s, 0..0, three, &options), Err(CompletionHelperError::Limit)));
    assert!(PathCompletionOptions::new(PathBuf::from(".")).max_candidates(0).is_err());
}
