//! Scenarios for the editing, layout, rendering and protocol layers.
use replai::actions::{EditCommand, Input, Request};
use replai::analysis_presentation::{AnalysisPresentation, AnalysisSpan};
use replai::completion_helpers::{complete_fuzzy, path_candidates, CompletionHelperError, CompletionItem, MatchCase,
    PathCompletionOptions, PathEntry};
use replai::document::{plain_mutations, Block, Document, Text};
use replai::editor::{EditError, Editor};
use replai::keymap::{binding, Key};
use replai::presentation::{clip, Frame, Line, Point, Prompt, Role, Run, Theme};
use replai::protocol::encode;
use replai::render::{Damage, Mutation, Renderer};
use replai::text::visible_breaks;
use replai::width::WidthPolicy;

#[test]
fn clip_keeps_fitting_text_and_ends_shortened_text_with_an_ellipsis() {
    assert_eq!(clip("hello", 10), "hello");
    assert_eq!(clip("hello", 5), "hello");
    assert_eq!(clip("hello world", 6), "hello\u{2026}");
    assert_eq!(clip("界界界", 4), "界\u{2026}");
    assert_eq!(clip("e\u{301}e\u{301}e\u{301}", 2), "e\u{301}\u{2026}");
    assert_eq!(clip("abc", 0), "");
    assert_eq!(clip("abc", 1), "\u{2026}");
}

#[test]
fn visible_breaks_marks_line_feeds_and_tabs() {
    assert_eq!(visible_breaks("a\nb\tc"), "a\u{21b5}b\u{21e5}c");
    assert_eq!(visible_breaks("plain"), "plain");
}

#[test]
fn notices_normalize_line_endings_and_end_with_one_newline() {
    assert_eq!(
        plain_mutations(Role::Warning, "one\r\ntwo\n").unwrap(),
        vec![
            Mutation::Style(Role::Warning),
            Mutation::Text("one".into()),
            Mutation::Newline,
            Mutation::Text("two".into()),
            Mutation::Newline,
            Mutation::Style(Role::Default),
        ]
    );
    assert_eq!(
        plain_mutations(Role::Dim, "a\n\nb").unwrap(),
        vec![
            Mutation::Style(Role::Dim),
            Mutation::Text("a".into()),
            Mutation::Newline,
            Mutation::Newline,
            Mutation::Text("b".into()),
            Mutation::Style(Role::Default),
            Mutation::Newline,
        ]
    );
    assert_eq!(plain_mutations(Role::Dim, "bad\u{1b}"), Err(EditError::InvalidText));
}

#[test]
fn documents_render_headings_and_reject_bad_widths() {
    let document = Document::new(vec![Block::Heading { level: 1, text: Text::new("Connection").unwrap() }]).unwrap();
    assert_eq!(document.render(40, Theme::new(false, false, None)).unwrap(), "# Connection\n");
    assert_eq!(document.render(1, Theme::plain()), Err(EditError::InvalidRange));
    assert!(matches!(document.mutations(4097), Err(EditError::InvalidRange)));
    let styled = document.render(40, Theme::new(true, false, None)).unwrap();
    assert_eq!(styled, "\x1b[0m\x1b[1;38;5;250m# \x1b[0m\x1b[1;38;5;250mConnection\x1b[0m\n");
}

#[test]
fn document_construction_reports_the_first_refusal() {
    let bad_heading = Block::Heading { level: 4, text: Text::new("x").unwrap() };
    assert!(matches!(Document::new(vec![bad_heading]), Err(EditError::InvalidRange)));
    assert!(matches!(Document::new(vec![Block::Spacer; 4097]), Err(EditError::Capacity)));
    let big = Block::Paragraph(Text::new(&"x".repeat(16384)).unwrap());
    assert!(Document::new(vec![big.clone(); 64]).is_ok());
    assert!(matches!(Document::new(vec![big; 65]), Err(EditError::Capacity)));
}

#[test]
fn width_policy_measures_clusters_and_refuses_controls() {
    for (text, cells) in [("ASCII", 5), ("e\u{301}", 1), ("界", 2), ("👩\u{200d}💻", 2)] {
        assert_eq!(WidthPolicy::UnicodeNarrow.measure(text), Ok(cells), "{text}");
    }
    for control in ["a\tb", "a\nb", "\x1b[31m"] {
        assert_eq!(WidthPolicy::UnicodeNarrow.measure(control), Err(EditError::InvalidText));
    }
}

#[test]
fn keymap_binds_established_keys_and_refuses_unknown_sequences() {
    assert_eq!(binding(Key::Left), Ok(Input::Edit(EditCommand::Left)));
    assert_eq!(binding(Key::Meta(b'b')), Ok(Input::Edit(EditCommand::WordLeft)));
    assert_eq!(binding(Key::Control(18)), Ok(Input::Edit(EditCommand::HistorySearchOlder)));
    assert_eq!(binding(Key::Control(1)), Ok(Input::Rejected(EditError::InvalidSequence)));
    assert_eq!(binding(Key::Enter), Ok(Input::Request(Request::Submit)));
    assert_eq!(binding(Key::Text("x".into())), Ok(Input::Text("x".into())));
    assert_eq!(binding(Key::IncompletePaste), Err("incomplete bracketed paste; interaction closed"));
}

#[test]
fn protocol_encodes_movement_and_styles() {
    let ms = vec![
        Mutation::Style(Role::Accent),
        Mutation::Text("a".into()),
        Mutation::Up(2),
        Mutation::Right(10),
        Mutation::CarriageReturn,
        Mutation::ClearLine,
        Mutation::Newline,
    ];
    assert_eq!(encode(&ms, Theme::plain()), "a\x1b[2A\x1b[10C\r\x1b[2K\r\n");
    assert_eq!(encode(&ms, Theme::new(true, false, None)), "\x1b[38;5;81ma\x1b[2A\x1b[10C\r\x1b[2K\r\n");
}

fn one_row(text: &str) -> Frame {
    let width = text.len();
    Frame {
        lines: vec![Line(vec![Run::Style(Role::Default), Run::Text(text.into())])],
        widths: vec![width],
        cursor: Point { row: 0, col: width },
        end: Point { row: 0, col: width },
        columns: 10,
        rows: 3,
        source_len: width,
        source_cursor: width,
    }
}

#[test]
fn renderer_patches_an_ascii_tail_and_clears_what_a_shorter_row_leaves() {
    let mut r = Renderer::new();
    let first = r.transition(one_row("ab"));
    assert_eq!(first[0], Mutation::CarriageReturn);
    assert_eq!(first[1], Mutation::ClearLine);
    assert_eq!(r.transition(one_row("abc")), vec![Mutation::Style(Role::Default), Mutation::Text("c".into())]);
    assert_eq!(
        r.transition(one_row("ab")),
        vec![Mutation::Left(1), Mutation::Style(Role::Default), Mutation::ClearToEnd]
    );
    assert_eq!(r.transition(one_row("ab")), vec![]);
}

#[test]
fn frames_wrap_the_draft_and_place_the_cursor() {
    let mut editor = Editor::new(100, 0);
    editor.insert("abcdefgh").unwrap();
    let prompt = Prompt::new("p").unwrap();
    let frame = Frame::new(&editor, &prompt, 6, 10);
    assert_eq!(frame.widths, vec![5, 5, 1]);
    assert_eq!(frame.cursor, Point { row: 2, col: 1 });
    assert_eq!(frame.end, Point { row: 2, col: 1 });
    assert_eq!(row_texts(&frame), vec!["p> ab", "cdefg", "h"]);
}

fn row_texts(frame: &Frame) -> Vec<String> {
    frame
        .lines
        .iter()
        .map(|l| {
            l.0.iter()
                .map(|r| match r {
                    Run::Text(t) => t.as_str(),
                    Run::Style(_) => "",
                })
                .collect::<String>()
        })
        .collect()
}

#[test]
fn frames_show_tabs_as_spaces_and_continue_after_line_breaks() {
    let mut editor = Editor::new(100, 0);
    editor.insert("ab\tc\nd").unwrap();
    let prompt = Prompt::new("p").unwrap();
    let frame = Frame::new(&editor, &prompt, 80, 10);
    assert_eq!(row_texts(&frame), vec!["p> ab  c", "... d"]);
    assert_eq!(frame.widths, vec![8, 5]);
}

#[test]
fn undo_and_redo_restore_text_and_cursor() {
    let mut editor = Editor::new(64, 0);
    editor.insert("hello world").unwrap();
    editor.replace(0..5, "howdy").unwrap();
    assert_eq!(editor.text(), "howdy world");
    assert!(editor.undo());
    assert_eq!(editor.text(), "hello world");
    assert!(editor.redo());
    assert_eq!(editor.text(), "howdy world");
    assert!(editor.undo());
    assert!(editor.undo());
    assert_eq!((editor.text(), editor.cursor()), ("", 0));
    assert!(!editor.undo());
}

#[test]
fn history_admission_round_trips_through_navigation() {
    let mut editor = Editor::new(64, 4);
    editor.admit_history("first").unwrap();
    editor.admit_history("second").unwrap();
    editor.insert("draft").unwrap();
    editor.history_up();
    assert_eq!(editor.text(), "second");
    editor.history_up();
    assert_eq!(editor.text(), "first");
    editor.history_down();
    editor.history_down();
    assert_eq!(editor.text(), "draft");
}

#[test]
fn fuzzy_matches_rank_by_start_then_gaps_then_caller_order() {
    let editor = Editor::new(100, 0);
    let s = editor.analysis_snapshot();
    let items = [
        CompletionItem::new("xaxb").unwrap(),
        CompletionItem::new("ba").unwrap(),
        CompletionItem::new("zab").unwrap(),
        CompletionItem::new("a_b").unwrap(),
        CompletionItem::new("ab").unwrap(),
        CompletionItem::new("zab").unwrap(),
    ];
    let set = complete_fuzzy(&s, 0..0, "ab", &items, MatchCase::Sensitive).unwrap();
    let got: Vec<&str> = set.candidates().iter().map(|c| c.replacement()).collect();
    assert_eq!(got, vec!["ab", "a_b", "zab", "zab", "xaxb"]);
    let folded = complete_fuzzy(&s, 0..0, "AB", &items, MatchCase::AsciiInsensitive).unwrap();
    assert_eq!(folded.candidates().len(), 5);
    assert!(complete_fuzzy(&s, 0..0, "AB", &items, MatchCase::Sensitive).unwrap().candidates().is_empty());
    let wide = [CompletionItem::new("界xb").unwrap(), CompletionItem::new("xb").unwrap()];
    let set = complete_fuzzy(&s, 0..0, "b", &wide, MatchCase::Sensitive).unwrap();
    assert_eq!(set.candidates()[0].replacement(), "xb");
    assert!(matches!(complete_fuzzy(&s, 0..1, "b", &wide, MatchCase::Sensitive), Err(CompletionHelperError::InvalidRange)));
}

#[test]
fn path_entries_sort_bytewise_and_keep_found_order_for_equal_insertions() {
    let editor = Editor::new(100, 0);
    let s = editor.analysis_snapshot();
    let options = PathCompletionOptions::new(std::path::PathBuf::from("."));
    let found = vec![
        PathEntry { insertion: "b".into(), name: "first".into(), kind: "file" },
        PathEntry { insertion: "a/".into(), name: "a".into(), kind: "directory" },
        PathEntry { insertion: "b".into(), name: "second".into(), kind: "symlink" },
        PathEntry { insertion: "B".into(), name: "B".into(), kind: "file" },
    ];
    let set = path_candidates(&s, 0..0, found, &options).unwrap();
    let labels: Vec<&str> = set.candidates().iter().map(|c| c.label()).collect();
    assert_eq!(labels, vec!["B", "a", "first", "second"]);
    assert_eq!(set.candidates()[3].annotation(), Some("symlink"));
    let bad = vec![PathEntry { insertion: "x".into(), name: "".into(), kind: "file" }];
    assert!(matches!(path_candidates(&s, 0..0, bad, &options), Err(CompletionHelperError::Completion(_))));
    let empty = vec![PathEntry { insertion: "x".into(), name: "x".into(), kind: "file" }];
    assert!(matches!(path_candidates(&s, 0..1, empty, &options), Err(CompletionHelperError::InvalidRange)));
}

#[test]
fn cursor_moves_within_a_row_reuse_the_drawn_frame() {
    let mut editor = Editor::new(100, 0);
    editor.insert("hello").unwrap();
    let prompt = Prompt::new("p").unwrap();
    let mut r = Renderer::new();
    let first = r.redraw(&editor, &prompt, (40, 10));
    assert_eq!(first[0], Mutation::CarriageReturn);
    editor.left();
    editor.left();
    assert_eq!(r.redraw_changed(&editor, &prompt, (40, 10), Damage::Cursor), vec![Mutation::Left(2)]);
    editor.right();
    assert_eq!(r.redraw_changed(&editor, &prompt, (40, 10), Damage::Cursor), vec![Mutation::Right(1)]);
    assert_eq!(r.redraw_changed(&editor, &prompt, (40, 10), Damage::Cursor), vec![]);
}

#[test]
fn analysis_spans_style_the_clusters_they_cover() {
    let mut editor = Editor::new(100, 0);
    editor.insert("let x").unwrap();
    let prompt = Prompt::new("p").unwrap();
    let spans = vec![AnalysisSpan::new(0..3, Role::Strong).unwrap()];
    let presentation = AnalysisPresentation::new(editor.revision(), spans, None).unwrap();
    let frame = Frame::analyzed(&editor, &prompt, 40, 10, Some(&presentation));
    assert_eq!(
        frame.lines[0].0,
        vec![
            Run::Style(Role::Accent),
            Run::Text("p> ".into()),
            Run::Style(Role::Strong),
            Run::Text("let".into()),
            Run::Style(Role::Default),
            Run::Text(" x".into()),
            Run::Style(Role::Default),
        ]
    );
    let plain = Frame::new(&editor, &prompt, 40, 10);
    assert_eq!(plain.widths, frame.widths);
    assert_eq!(row_texts(&plain), row_texts(&frame));
}
