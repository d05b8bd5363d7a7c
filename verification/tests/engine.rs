use replai::actions::{EditCommand, Input};
use replai::document::{Block, Document, Text};
use replai::editor::{EditError, Editor};
use replai::engine::Engine;
use replai::event::Error;
use replai::presentation::{Frame, Prompt, Role};

fn assert_frame(e: &Engine, prompt: &Prompt, size: (usize, usize)) {
    let fresh = Frame::new(&e.editor, prompt, size.0, size.1);
    let actual = e.frame().unwrap();
    assert_eq!(actual.lines, fresh.lines, "draft {:?}, cursor {}", e.editor.text(), e.editor.cursor());
    assert_eq!(actual.widths, fresh.widths);
    assert_eq!(actual.cursor, fresh.cursor, "draft {:?}, cursor {}", e.editor.text(), e.editor.cursor());
    assert_eq!(actual.end, fresh.end);
    assert_eq!((actual.source_len, actual.source_cursor), (fresh.source_len, fresh.source_cursor));
}

#[test]
fn structured_output_is_deterministic_and_rejection_does_not_mutate_surface() {
    let mut e = Engine::new(Editor::new(1024, 2));
    let doc = Document::new(vec![Block::Paragraph(Text::new("facts 界").unwrap())]).unwrap();
    assert!(matches!(e.output_document(&doc), Err(Error::State)));
    let prompt = Prompt::new("demo").unwrap();
    e.start(prompt.clone(), (2, 8)).unwrap();
    e.apply(Input::Text("a界b".into())).unwrap();
    e.apply(Input::Edit(EditCommand::Left)).unwrap();
    let huge = Document::new(vec![Block::Paragraph(Text::new(&"x".repeat(16384)).unwrap()); 64]).unwrap();
    assert!(matches!(e.output_document(&huge), Err(Error::Edit(EditError::Capacity))));
    assert_eq!((e.editor.text(), e.editor.cursor()), ("a界b", 4));
    assert_frame(&e, &prompt, (2, 8));
    e.output_document(&doc).unwrap();
    assert_eq!((e.editor.text(), e.editor.cursor()), ("a界b", 4));
    assert_frame(&e, &prompt, (2, 8));
}

#[test]
fn deferred_damage_completion_resize_and_output_invalidate_reuse() {
    for label in ["label", "界\u{301}", "👩\u{200d}💻"] {
        for width in [6, 20, 80] {
            let prompt = Prompt::new(label).unwrap();
            let mut e = Engine::new(Editor::new(4096, 1));
            e.start(prompt.clone(), (width, 8)).unwrap();
            for i in 0..60 {
                e.apply_deferred(Input::Text("a".into())).unwrap();
                e.apply_deferred(Input::Text("b".into())).unwrap();
                e.flush();
                e.apply_deferred(Input::Edit(EditCommand::Backspace)).unwrap();
                e.apply_deferred(Input::Edit(EditCommand::Backspace)).unwrap();
                e.flush();
                assert_frame(&e, &prompt, (width, 8));
                e.apply_deferred(Input::Text("x".into())).unwrap();
                e.complete(0..e.editor.text().len(), if i % 2 == 0 { "界\na\u{301}" } else { "ascii" }).unwrap();
                assert_frame(&e, &prompt, (width, 8));
                e.external_output(Role::Dim, "notice\nnext").unwrap();
                assert_frame(&e, &prompt, (width, 8));
                e.apply(Input::Resize(width + 1, 8)).unwrap();
                assert_frame(&e, &prompt, (width + 1, 8));
                e.apply(Input::Resize(width, 8)).unwrap();
            }
        }
    }
}
