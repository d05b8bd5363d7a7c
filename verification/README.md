# replai

Terminal line-editing infrastructure whose logic is specified and proved with
Verus: the application owns the language, the library owns the line.

## Layout

- `src/` is the verified library. Public functions state their results in
  `ensures` over mathematical models (`Seq`, `Map`, `int`, views); where a
  result rests on a host-implemented trait, the contract says what holds of
  every answer.
  - `editor.rs`: the draft buffer, cursor, undo/redo, kill register and history.
  - `engine.rs`, `event.rs`, `actions.rs`, `keymap.rs`: the interaction state
    machine that maps requests to editor changes, redraws and events.
  - `analysis.rs`, `analysis_presentation.rs`, `suggestion.rs`, `validation.rs`,
    `completion.rs`, `completion_helpers.rs`, `history.rs`: revision-bound host
    results, menus, diagnostics and searches.
  - `presentation.rs`, `render.rs`, `protocol.rs`, `document.rs`: frame layout,
    differential rendering, terminal byte encoding and structured documents.
  - `text.rs`, `segment.rs`, `width.rs`: UTF-8, grapheme and cell-width models;
    grapheme segmentation and display width come from `unicode-segmentation`
    and `unicode-width` through small trusted wrappers.
  - `capabilities.rs`, `driving.rs`: terminal facts and readiness decisions.
  - `session.rs`: the terminal session driver's decisions: what follows a
    written engine step, a read from the terminal, and an event of the
    blocking line reader.
- `app/` holds what cannot be verified: terminal I/O through `rustix`, the
  session loop (`Terminal`, `Interaction::read_line`) that performs those
  decisions, filesystem enumeration for path completion, and writing rendered
  bytes. The key decoder that turns terminal bytes into keys is supplied by
  the host through `KeyDecoder`.
- `tests/` exercises the library with concrete scenarios.

## Laws

Properties that relate several operations (undo after replace, redo after
undo, history navigation, menu navigation, plain rendering) are public `law_*`
proof functions, proved by Verus together with the code they speak of.
