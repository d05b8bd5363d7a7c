//! Deterministic interaction coordination. No resources, environment or clock.
use crate::actions::{canonical, EditCommand, Input, Request};
use crate::analysis::{AnalysisOutcome, DraftRevision};
use crate::analysis_presentation::{AnalysisPresentation, AnalysisPresentationError};
use crate::completion::{ActiveCompletion, CompletionAction, CompletionError, CompletionSelection, CompletionSet,
    navigated, page_rows};
use crate::document::{plain_mutations, Document};
use crate::editor::{EditError, Editor};
use crate::event::{Error, Event};
use crate::history::{HistoryError, HistorySearchLimits, HistorySearchSource, HistorySearchState};
use crate::presentation::{analysis_spans, clipped, frame_geometry, frame_rows, Frame, Prompt, Role};
use crate::render::{laid_out, moves, reused_for, transition_moves, Damage, Mutation, Renderer};
use crate::document::{rows_view, Piece};
use crate::completion::{draft_surface, menu_rows};
use crate::history::search_row;
use crate::validation::{diagnostics_frame, hinted_rows};
use crate::text::visible_char;
use crate::suggestion::{Suggestion, SuggestionError};
use crate::text::{blen, byte_len, substring};
use crate::validation::{Diagnostic, SubmissionPolicy, ValidationDisposition, ValidationError, ValidationResult,
    ValidationState};
use std::ops::Range;
use vstd::prelude::*;
use vstd::string::*;

verus! {

/// What one engine step asks the host to do: surface mutations, then at most one event.
pub struct Effects {
    /// Surface mutations in order.
    pub mutations: Vec<Mutation>,
    /// The observable event, if any.
    pub event: Option<Event>,
}

/// No mutations and no event.
pub open spec fn no_effects(fx: &Effects) -> bool {
    fx.mutations@.len() == 0 && fx.event is None
}

impl Effects {
    /// No mutations and no event.
    pub fn none() -> (r: Self)
        ensures
            no_effects(&r),
    {
        Effects { mutations: Vec::new(), event: None }
    }
}

struct Surface {
    prompt: Prompt,
    size: (usize, usize),
    renderer: Renderer,
    dirty: bool,
    damage: Damage,
    completion: Option<ActiveCompletion>,
    analysis: Option<AnalysisPresentation>,
    suggestion: Option<Suggestion>,
}

impl Surface {
    spec fn ok(&self) -> bool {
        &&& self.renderer.wf()
        &&& self.size.0 >= 2
        &&& self.size.1 >= 2
        &&& (self.completion matches Some(c) ==> c.wf())
    }
}

/// The coordinator of one editor and at most one open surface.
pub struct Engine {
    /// The retained editor.
    pub editor: Editor,
    surface: Option<Surface>,
    validation: Option<ValidationState>,
    history_source: Option<HistorySearchSource>,
    history_search: Option<HistorySearchState>,
}

/// Cells left after the draft's last row of widths `ws` (keeping the last
/// column free) when the cursor is at the end of the draft; none otherwise.
pub open spec fn room_after(ws: Seq<usize>, at_end: bool, columns: usize) -> int {
    if !at_end || ws.last() >= columns { 0 } else { columns - ws.last() - 1 }
}

/// Rows of a draft frame after a suggestion `text` joins its last row as
/// ` [→text]` in the dim role, when at least five cells remain.
pub open spec fn suggested_rows(rows: Seq<Seq<Piece>>, ws: Seq<usize>, at_end: bool, columns: usize, text: Seq<char>)
    -> Seq<Seq<Piece>>
{
    let room = room_after(ws, at_end, columns);
    if room >= 5 {
        rows.update(rows.len() - 1, rows.last() + seq![Piece::Style(Role::Dim),
            Piece::Text(" [\u{2192}"@ + clipped(text.map_values(|c: char| visible_char(c)), room - 4) + "]"@),
            Piece::Style(Role::Default)])
    } else {
        rows
    }
}

/// The presentation as a reference.
pub open spec fn as_ref(o: &Option<AnalysisPresentation>) -> Option<&AnalysisPresentation> {
    match o {
        Some(p) => Some(p),
        None => None,
    }
}

/// A step from `old` to `new` keeps shown host results current: the draft
/// revision never decreases, coherence is preserved, and a changed draft
/// revision leaves no transient host result.
pub open spec fn keeps_coherence(old: &Engine, new: &Engine) -> bool {
    &&& new.ed().rev() >= old.ed().rev()
    &&& (old.coherent() ==> new.coherent())
    &&& (new.ed().revision_spec() != old.ed().revision_spec() ==> new.transient_cleared())
}

/// Whether a command edits the draft rather than driving reverse search.
pub open spec fn draft_command(cmd: EditCommand) -> bool {
    !(cmd is HistorySearchOlder) && !(cmd is HistorySearchNewer)
}

/// Whether an editor command, or the line move that stands for it, never fails.
pub open spec fn infallible_command(cmd: EditCommand) -> bool {
    draft_command(cmd) && !(cmd is KillWordBackward) && !(cmd is KillWordForward) && !(cmd is KillLineStart)
        && !(cmd is KillLineEnd) && !(cmd is Yank)
}

/// Deleting `b[s..e]` without touching the kill register: nothing when the
/// range is empty, else the range is replaced by nothing.
pub open spec fn deleted(e0: Editor, e1: Editor, s: int, e: int) -> bool {
    if s == e {
        e0.same_draft(&e1)
    } else {
        e0.replaced(&e1, s, e, Seq::empty())
    }
}

/// What a draft command does to the editor, with `r` the editor's own
/// result (`Err` is reported to the host as a rejection). Under the validated
/// policy, history recall first moves between logical lines of the draft and
/// recalls only from its first (or last) line.
pub open spec fn command_effect(e0: Editor, e1: Editor, cmd: EditCommand, validated: bool, r: Result<(), EditError>)
    -> bool
{
    let b = e0.bytes();
    let c = e0.pos();
    &&& (infallible_command(cmd) ==> r is Ok)
    &&& match cmd {
        EditCommand::Left => e0.moved_to(&e1, crate::editor::prev_boundary(b, c)),
        EditCommand::Right => e0.moved_to(&e1, crate::editor::next_boundary(b, c)),
        EditCommand::Home => e0.moved_to(&e1, 0),
        EditCommand::End => e0.moved_to(&e1, b.len() as int),
        EditCommand::WordLeft => e0.moved_to(&e1, crate::editor::word_left_target(b, c)),
        EditCommand::WordRight => e0.moved_to(&e1, crate::editor::word_right_target(b, c)),
        EditCommand::Backspace => (c == 0 ==> e0.same_draft(&e1))
            && (c > 0 ==> e0.replaced(&e1, crate::editor::prev_boundary(b, c), c, Seq::empty())
            && crate::editor::erase_effect(&e0, &e1, crate::editor::prev_boundary(b, c), c, true)),
        EditCommand::Delete => (c == b.len() ==> e0.same_draft(&e1))
            && (c < b.len() ==> e0.replaced(&e1, c, crate::editor::next_boundary(b, c), Seq::empty())
            && crate::editor::erase_effect(&e0, &e1, c, crate::editor::next_boundary(b, c), false)),
        EditCommand::WordDeleteBackward => deleted(e0, e1, crate::editor::word_left_target(b, c), c)
            && e1.kill_spec() == e0.kill_spec(),
        EditCommand::WordDeleteForward => deleted(e0, e1, c, crate::editor::word_right_target(b, c))
            && e1.kill_spec() == e0.kill_spec(),
        EditCommand::KillWordBackward => e0.killed(&e1, crate::editor::word_left_target(b, c), c, r),
        EditCommand::KillWordForward => e0.killed(&e1, c, crate::editor::word_right_target(b, c), r),
        EditCommand::KillLineStart => e0.killed(&e1, crate::editor::line_start(b, c), c, r),
        EditCommand::KillLineEnd => e0.killed(&e1, c, crate::editor::line_end(b, c), r),
        EditCommand::Yank => e1.kill_spec() == e0.kill_spec() && (e0.kill_spec().len() == 0 ==> r is Ok
            && e0.same_draft(&e1)) && (e0.kill_spec().len() > 0 ==> match r {
            Ok(()) => crate::editor::replace_error(b, e0.cap() as int, c, c, e0.kill_spec()) is None
                && e0.replaced(&e1, c, c, e0.kill_spec()),
            Err(x) => crate::editor::replace_error(b, e0.cap() as int, c, c, e0.kill_spec()) == Some(x)
                && e0.same_draft(&e1),
        }),
        EditCommand::Undo => e0.undo_count() > 0 ==> e0.undo_step(&e1),
        EditCommand::Redo => e0.redo_count() > 0 ==> e0.redo_step(&e1),
        EditCommand::HistoryPrevious => if validated && crate::editor::vertical_target(b, c, false) is Some {
            e0.moved_to(&e1, crate::editor::vertical_target(b, c, false)->0)
        } else {
            e0.history_up_post(&e1)
        },
        EditCommand::HistoryNext => if validated && crate::editor::vertical_target(b, c, true) is Some {
            e0.moved_to(&e1, crate::editor::vertical_target(b, c, true)->0)
        } else {
            e0.history_down_post(&e1)
        },
        _ => true,
    }
}

/// Whether text `e` contains the query `q`, as bytes.
pub open spec fn text_matches(e: Seq<char>, q: Seq<char>) -> bool {
    crate::history::contains_bytes(crate::text::bytes_of(e), crate::text::bytes_of(q))
}

/// `m` is the first (newest) of `entries` that contains `q`, or `None` when none does.
pub open spec fn first_match_is(entries: Seq<Seq<char>>, q: Seq<char>, m: Option<Seq<char>>) -> bool {
    match m {
        Some(x) => exists|i: int| 0 <= i < entries.len() && #[trigger] entries[i] == x && text_matches(x, q)
            && forall|j: int| 0 <= j < i ==> !text_matches(#[trigger] entries[j], q),
        None => forall|j: int| 0 <= j < entries.len() ==> !text_matches(#[trigger] entries[j], q),
    }
}

/// How many of `all[i..]` a reverse search keeps, given `bytes` already kept:
/// entries are kept in order while the entry bound `n` and the byte bound `b`
/// allow.
pub open spec fn pool_len(all: Seq<Seq<char>>, n: int, b: int, i: int, bytes: int) -> int
    decreases all.len() - i,
{
    if i < 0 || i >= all.len() || i >= n || blen(all[i]) > b || bytes > b - blen(all[i]) {
        i
    } else {
        pool_len(all, n, b, i + 1, bytes + blen(all[i]))
    }
}

/// The entries a reverse search runs over: the editor's history, newest first,
/// then the host view, cut to the host view's bounds (or the default bounds).
pub open spec fn search_pool(history: Seq<Seq<char>>, host: Option<HistorySearchSource>) -> Seq<Seq<char>> {
    let newest = Seq::new(history.len(), |i: int| history[history.len() - 1 - i]);
    let (extra, n, b) = match host {
        Some(s) => (s.spec_entries(), s.spec_limits().spec_entries() as int, s.spec_limits().spec_bytes() as int),
        None => (Seq::<Seq<char>>::empty(), crate::history::DEFAULT_HISTORY_SEARCH_ENTRIES as int,
            crate::history::DEFAULT_HISTORY_SEARCH_BYTES as int),
    };
    let all = newest + extra;
    all.take(pool_len(all, n, b, 0, 0))
}

/// The selected entry of a reverse search.
pub open spec fn state_match(h: HistorySearchState) -> Option<Seq<char>> {
    match h.selected {
        Some(i) => if i < h.entries@.len() { Some(h.entries@[i as int]@) } else { None },
        None => None,
    }
}

/// The selected reverse-search match is the newest entry containing the query.
proof fn lemma_search_match(h: HistorySearchState)
    requires
        h.first_match_from(0),
    ensures
        first_match_is(h.entries@.map_values(|s: String| s@), h.query@, state_match(h)),
{
    let es = h.entries@.map_values(|s: String| s@);
    let q = h.query@;
    assert forall|j: int| 0 <= j < es.len() implies (#[trigger] text_matches(es[j], q))
        == crate::history::entry_matches(h.entries@[j], crate::text::bytes_of(q)) by {}
    match h.selected {
        Some(i) => {
            assert(es[i as int] == h.entries@[i as int]@);
            assert(text_matches(es[i as int], q));
        },
        None => {},
    }
}

/// The tab-stop remainder of the blanks `b[s..i]`: spaces advance it modulo
/// four and a tab resets it.
pub open spec fn blank_remainder(b: Seq<u8>, s: int, i: int) -> int
    decreases i - s,
{
    if i <= s {
        0
    } else if b[i - 1] == 0x20 {
        (blank_remainder(b, s, i - 1) + 1) % 4
    } else {
        0
    }
}

/// Spaces to the next four-cell stop when the cursor `c` of draft `b` is on a
/// continuation line (after a line feed) whose prefix is only spaces and tabs.
pub open spec fn continuation_indent_spec(b: Seq<u8>, c: int) -> Option<int> {
    let s = crate::editor::line_start(b, c);
    if s == 0 || !(forall|j: int| s <= j < c ==> #[trigger] b[j] == 0x20 || b[j] == 9) {
        None
    } else {
        Some(4 - blank_remainder(b, s, c))
    }
}

/// `n` spaces.
pub open spec fn spaces(n: int) -> Seq<char> {
    Seq::new(n as nat, |i: int| ' ')
}

/// What accepting (or dismissing) the shown suggestion does: a stale one has
/// no effect; dismissal removes it; acceptance, refused while diagnostics are
/// shown, inserts its text at the cursor as one undo record, or is rejected
/// with the draft unchanged; no event is reported and the surface stays open.
pub open spec fn suggestion_outcome(old: &Engine, new: &Engine, accept: bool, r: Result<Effects, Error>) -> bool {
    let e0 = old.ed();
    let e1 = new.ed();
    match old.suggestion_spec() {
        None => (r matches Err(e) && e is State) && *new == *old,
        Some(g) => if g.spec_revision() != e0.revision_spec() {
            (r matches Ok(fx) && no_effects(&fx)) && *new == *old
        } else if !accept {
            (r matches Ok(fx) && fx.event is None) && new.open_spec() && e0.same_draft(&e1) && new.suggestion_spec() is None
        } else if old.diagnostics_spec() is Some {
            (r matches Err(e) && e is State) && *new == *old
        } else {
            match r {
                Ok(fx) => fx.event is None && new.open_spec()
                    && crate::editor::replace_error(e0.bytes(), e0.cap() as int, e0.pos(), e0.pos(), g.spec_text()) is None
                    && e0.replaced(&e1, e0.pos(), e0.pos(), g.spec_text()) && new.suggestion_spec() is None,
                Err(e) => (e matches Error::Edit(x) && crate::editor::replace_error(e0.bytes(), e0.cap() as int, e0.pos(),
                    e0.pos(), g.spec_text()) == Some(x)) && e0.same_draft(&e1),
            }
        },
    }
}

/// Shown host results are unchanged.
pub open spec fn transient_kept(old: &Engine, new: &Engine) -> bool {
    &&& new.selection_spec() == old.selection_spec()
    &&& new.analysis_spec() == old.analysis_spec()
    &&& new.suggestion_spec() == old.suggestion_spec()
    &&& new.diagnostics_spec() == old.diagnostics_spec()
}

/// What an ordinary input does to an open engine: typed text is inserted at
/// the cursor or rejected with the draft unchanged; interruption and end of
/// input close the surface with their events; undecodable input is reported
/// without changing the editor; Enter submits the draft, or asks the host for
/// validation under the validated policy.
pub open spec fn edit_outcome(old: &Engine, new: &Engine, input: Input, r: Result<Effects, Error>) -> bool {
    let e0 = old.ed();
    let e1 = new.ed();
    &&& (input matches Input::Text(t) ==> new.open_spec() && (r matches Ok(fx) && match fx.event {
        Some(Event::Rejected(x)) => crate::editor::replace_error(e0.bytes(), e0.cap() as int, e0.pos(), e0.pos(), t@)
            == Some(x) && e0.same_draft(&e1),
        None => crate::editor::replace_error(e0.bytes(), e0.cap() as int, e0.pos(), e0.pos(), t@) is None
            && e0.replaced(&e1, e0.pos(), e0.pos(), t@)
            && (crate::text::bytes_of(t@).len() > 0 && e1.pos() == e0.pos() + crate::text::bytes_of(t@).len()
            ==> crate::editor::typing_effect(&e0, &e1, crate::text::bytes_of(t@))),
        _ => false,
    }))
    &&& (input matches Input::Request(Request::Interrupt) ==> (r matches Ok(fx) && fx.event == Some(Event::Interrupted))
        && !new.open_spec() && e1.chars() == e0.chars())
    &&& (input is TransportEof ==> (r matches Ok(fx) && fx.event == Some(Event::EndOfInput)) && !new.open_spec()
        && e1.chars() == e0.chars())
    &&& (input matches Input::Rejected(x) ==> (r matches Ok(fx) && fx.event == Some(Event::Rejected(x))) && e1 == e0
        && new.open_spec() && transient_kept(old, new))
    &&& (input matches Input::Request(Request::Submit) && !old.validated() ==> (r matches Ok(fx) && fx.event matches Some(
        Event::Submitted(t)) && t@ == e0.chars()) && !new.open_spec())
    &&& (input matches Input::Request(Request::Submit) && old.validated() ==> (r matches Ok(fx) && fx.event matches Some(
        Event::SubmissionRequested(snap)) && snap.spec_revision() == e0.revision_spec() && snap.spec_text() == e0.chars()
        && snap.spec_cursor() == e0.pos())
        && new.pending_spec() == Some(e0.revision_spec()) && new.open_spec() && e0.same_draft(&e1))
    &&& (input matches Input::Request(Request::Submit) && !old.validated() ==> e1.chars() == e0.chars()
        && e1.revision_spec() != e0.revision_spec())
    &&& (input is Edit && draft_command(input->Edit_0) ==> new.open_spec() && (r matches Ok(fx) && match fx.event {
        None => command_effect(e0, e1, input->Edit_0, old.validated(), Ok(())),
        Some(Event::Rejected(x)) => command_effect(e0, e1, input->Edit_0, old.validated(), Err(x)),
        _ => false,
    }))
    &&& (input matches Input::Edit(EditCommand::HistorySearchNewer) ==> new.open_spec() && (r matches Ok(fx)
        && fx.event == Some(Event::Rejected(EditError::InvalidSequence))) && e0.same_draft(&e1))
    &&& (input is Edit && input->Edit_0 is HistorySearchOlder ==> r is Ok && new.open_spec() && new.searching()
        && new.search_query_spec() == Some(Seq::<char>::empty()) && new.search_revision_spec() == Some(e0.revision_spec())
        && new.search_entries_spec() == Some(search_pool(e0.history_spec(), old.side().2))
        && new.pending_spec() is None && new.selection_spec() is None
        && first_match_is(search_pool(e0.history_spec(), old.side().2), Seq::empty(), new.search_match_spec())
        && e0.same_draft(&e1))
    &&& (input matches Input::Paste(t) ==> new.open_spec() && (r matches Ok(fx) && match fx.event {
        Some(Event::Rejected(x)) => crate::editor::replace_error(e0.bytes(), e0.cap() as int, e0.pos(), e0.pos(), t@)
            == Some(x) && e0.same_draft(&e1),
        None => crate::editor::replace_error(e0.bytes(), e0.cap() as int, e0.pos(), e0.pos(), t@) is None
            && e0.replaced(&e1, e0.pos(), e0.pos(), t@),
        _ => false,
    }))
    &&& (input is Resize && input->Resize_0 >= 2 && input->Resize_1 >= 2 ==> (r matches Ok(fx) && fx.event is None)
        && new.open_spec() && e1 == e0 && new.size_spec() == (input->Resize_0, input->Resize_1))
    &&& (input matches Input::Request(Request::Redraw) ==> (r matches Ok(fx) && fx.event is None) && new.open_spec() && e1 == e0)
    &&& ((input matches Input::Request(Request::HistorySearchAccept)) || (input matches Input::Request(
        Request::HistorySearchDismiss)) || (input matches Input::Request(Request::SuggestionAccept)) || (input matches Input::Request(
        Request::SuggestionDismiss)) ==> new.open_spec() && (r matches Ok(fx)
        && fx.event == Some(Event::Rejected(EditError::InvalidSequence))) && e0.same_draft(&e1))
    &&& (input matches Input::Request(Request::DeleteOrEof) && e0.bytes().len() == 0 ==> (r matches Ok(fx)
        && fx.event == Some(Event::EndOfInput)) && !new.open_spec() && e1.chars() == e0.chars())
    &&& (input matches Input::Request(Request::DeleteOrEof) && e0.bytes().len() > 0 ==> (r matches Ok(fx) && fx.event is None)
        && new.open_spec() && command_effect(e0, e1, EditCommand::Delete, old.validated(), Ok(())))
    &&& (input matches Input::Request(Request::Completion) && old.validated() ==> new.open_spec()
        && match continuation_indent_spec(e0.bytes(), e0.pos()) {
            None => (r matches Ok(fx) && fx.event == Some(Event::CompletionRequested)) && e0.same_draft(&e1),
            Some(n) => r matches Ok(fx) && match fx.event {
                None => crate::editor::replace_error(e0.bytes(), e0.cap() as int, e0.pos(), e0.pos(), spaces(n)) is None
                    && e0.replaced(&e1, e0.pos(), e0.pos(), spaces(n)),
                Some(Event::Rejected(x)) => crate::editor::replace_error(e0.bytes(), e0.cap() as int, e0.pos(), e0.pos(),
                    spaces(n)) == Some(x) && e0.same_draft(&e1),
                _ => false,
            },
        })
    &&& (input matches Input::Request(Request::Completion) && !old.validated() ==> (r matches Ok(fx)
        && fx.event == Some(Event::CompletionRequested)) && new.open_spec() && e0.same_draft(&e1))
    &&& ((input is Text || input is Paste || (input is Edit && !(input->Edit_0 is HistorySearchOlder)) || input is Resize || (input matches Input::Request(Request::Redraw)))
        && r is Ok && e1.revision_spec() == e0.revision_spec() ==> transient_kept(old, new))
}

/// The completion operation an input stands for while a menu is shown: Tab
/// selects the next candidate, Enter accepts the selected one, and the menu
/// shorthands name their operations.
pub open spec fn menu_action(input: Input) -> Option<CompletionAction> {
    match input {
        Input::Request(Request::Completion) => Some(CompletionAction::Next),
        Input::Request(Request::Submit) => Some(CompletionAction::Accept),
        Input::Request(Request::CompletionPrevious) => Some(CompletionAction::Previous),
        Input::Request(Request::DismissCompletion) => Some(CompletionAction::Dismiss),
        Input::Request(Request::CompletionAction(a)) => Some(a),
        _ => None,
    }
}

/// What completion operation `a` does to a current menu: accepting applies
/// the selected candidate, dismissing closes the menu, and the others move the
/// selection; the draft is untouched except by acceptance, no event is
/// reported, and the surface stays open.
pub open spec fn menu_outcome(old: &Engine, new: &Engine, a: CompletionAction, r: Result<Effects, Error>) -> bool {
    match old.selection_spec() {
        Some(s) => s.revision == old.ed().revision_spec() ==> match a {
            CompletionAction::Accept => accept_outcome(old, new, r),
            CompletionAction::Dismiss => (r matches Ok(fx) && fx.event is None) && new.open_spec() && new.ed() == old.ed()
                && new.selection_spec() is None,
            _ => (r matches Ok(fx) && fx.event is None) && new.open_spec() && new.ed() == old.ed()
                && new.selection_spec() == Some(CompletionSelection {
                    revision: s.revision,
                    index: navigated(s.index as int, s.count as int, a, page_rows(old.size_spec().1, s.count as int)) as usize,
                    count: s.count,
                }),
        },
        None => true,
    }
}

/// The ordinary-input outcome applies when no reverse search is active; the
/// menu and suggestion shorthands take precedence for the inputs they bind,
/// so Enter submits only when no completion menu is shown.
pub open spec fn apply_outcome(old: &Engine, new: &Engine, input: Input, r: Result<Effects, Error>) -> bool {
    &&& (old.open_spec() && !old.searching() && !(input matches Input::Request(Request::Submit))
        && (input is Text || input is Rejected || input is TransportEof || (input matches Input::Request(Request::Interrupt)))
        ==> edit_outcome(old, new, input, r))
    &&& (old.open_spec() && (input is Rejected || input is TransportEof || (input matches Input::Request(Request::Interrupt)))
        ==> edit_outcome(old, new, input, r))
    &&& (old.open_spec() && !old.searching() && old.selection_spec() is None && (input matches Input::Request(Request::Submit))
        ==> edit_outcome(old, new, input, r))
    &&& (old.open_spec() && !old.searching() && (input is Paste || input is Resize
        || (input matches Input::Request(Request::Redraw))
        || (input matches Input::Request(Request::DeleteOrEof))
        || (input matches Input::Request(Request::HistorySearchAccept))
        || (input matches Input::Request(Request::HistorySearchDismiss))
        || (((input matches Input::Request(Request::SuggestionAccept)) || (input matches Input::Request(Request::SuggestionDismiss)))
            && !(old.selection_spec() is None && old.diagnostics_spec() is None && old.suggestion_spec() is Some))
        || (input matches Input::Request(Request::Completion) && old.selection_spec() is None)
        || (input is Edit && input->Edit_0 is HistorySearchOlder)
        || (input matches Input::Edit(cmd) && !(cmd is HistorySearchOlder) && !(cmd is Right && old.selection_spec() is None
            && old.diagnostics_spec() is None && old.suggestion_spec() is Some && old.ed().pos() == old.ed().bytes().len())))
        ==> edit_outcome(old, new, input, r))
    &&& (old.open_spec() && !old.searching() && old.selection_spec() is Some && (input matches Input::Request(Request::Submit))
        ==> accept_outcome(old, new, r))
    &&& (old.open_spec() && !old.searching() && old.selection_spec() is Some && menu_action(input) is Some
        ==> menu_outcome(old, new, menu_action(input)->0, r))
    &&& (old.open_spec() && !old.searching() && old.selection_spec() is None && old.diagnostics_spec() is None
        && old.suggestion_spec() is Some && ((input matches Input::Request(Request::SuggestionAccept))
        || (input matches Input::Edit(EditCommand::Right) && old.ed().pos() == old.ed().bytes().len()))
        ==> suggestion_outcome(old, new, true, r))
    &&& (old.open_spec() && !old.searching() && old.selection_spec() is None && old.diagnostics_spec() is None
        && old.suggestion_spec() is Some && (input matches Input::Request(Request::SuggestionDismiss))
        ==> suggestion_outcome(old, new, false, r))
    &&& (old.open_spec() && old.searching() && input is Text ==> search_text_outcome(old, new, input->Text_0@, r))
    &&& (old.open_spec() && old.searching() && input is Paste ==> search_text_outcome(old, new, input->Paste_0@, r))
    &&& (old.open_spec() && old.searching() && input is Request && (crate::actions::canonical_request(input->Request_0) is Submit
        || crate::actions::canonical_request(input->Request_0) is HistorySearchAccept) ==> search_accept_outcome(old, new, r))
}

/// Accepting a reverse search ends it; when it began at the current revision
/// and has a match, the match replaces the draft with a fresh revision, the
/// cursor at its end (or where it was, when the draft and cursor already were
/// the match and its end), as one undo record that restores the draft from
/// before the search; otherwise the draft is unchanged. No event is reported.
pub open spec fn search_accept_outcome(old: &Engine, new: &Engine, r: Result<Effects, Error>) -> bool {
    &&& !new.searching()
    &&& (r matches Ok(fx) ==> fx.event is None)
    &&& new.open_spec() == old.open_spec()
    &&& (old.search_revision_spec() != Some(old.ed().revision_spec()) ==> r is Ok && new.ed() == old.ed())
    &&& (old.search_revision_spec() == Some(old.ed().revision_spec()) ==> match old.search_match_spec() {
        None => r is Ok && new.ed() == old.ed(),
        Some(x) => match r {
            Ok(_) => new.ed().chars() == x && new.ed().rev() == old.ed().rev() + 1
                && new.ed().pos() == (if old.ed().chars() == x && old.ed().pos() == blen(x) {
                    blen(x) } else { crate::editor::snap(new.ed().bytes(), blen(x)) })
                && (!(old.ed().chars() == x && old.ed().pos() == blen(x)) && 2 * old.ed().cap() <= usize::MAX
                ==> new.ed().undo_count() > 0 && new.ed().undo_top() == (crate::editor::RecView {
                    start: 0,
                    removed: old.ed().bytes(),
                    inserted: crate::text::bytes_of(x),
                    before: old.ed().pos(),
                    after: new.ed().pos(),
                })),
            Err(e) => (e matches Error::Edit(y) && crate::editor::replace_error(old.ed().bytes(),
                old.ed().cap() as int, 0, old.ed().bytes().len() as int, x) == Some(y))
                && old.ed().same_draft(&new.ed()),
        },
    })
}

/// Text typed or pasted during a reverse search extends its query and selects
/// the newest entry that contains it, or is rejected with the query
/// unchanged; the draft never changes.
pub open spec fn search_text_outcome(old: &Engine, new: &Engine, t: Seq<char>, r: Result<Effects, Error>) -> bool {
    &&& r is Ok
    &&& new.ed() == old.ed()
    &&& new.searching()
    &&& new.open_spec()
    &&& new.search_entries_spec() == old.search_entries_spec()
    &&& (r->Ok_0.event is None ==> new.search_query_spec() == Some(old.search_query_spec()->0 + t)
        && first_match_is(new.search_entries_spec()->0, new.search_query_spec()->0, new.search_match_spec()))
    &&& (r->Ok_0.event is Some ==> new.search_query_spec() == old.search_query_spec())
}

/// Enter while a completion menu is shown accepts the selected candidate:
/// its replacement is applied to its range and the menu closes, or the edit
/// is refused with the draft unchanged. No event is reported and the surface
/// stays open.
pub open spec fn accept_outcome(old: &Engine, new: &Engine, r: Result<Effects, Error>) -> bool {
    match old.selected_candidate() {
        Some(c) => old.selection_spec().unwrap().revision == old.ed().revision_spec() ==> match r {
            Ok(fx) => fx.event is None && new.open_spec() && crate::editor::replace_error(old.ed().bytes(), old.ed().cap() as int, c.spec_start() as int,
                c.spec_end() as int, c.spec_replacement()) is None && old.ed().replaced(&new.ed(), c.spec_start() as int,
                c.spec_end() as int, c.spec_replacement()) && new.selection_spec() is None,
            Err(e) => (e matches Error::Edit(x) && crate::editor::replace_error(old.ed().bytes(), old.ed().cap() as int,
                c.spec_start() as int, c.spec_end() as int, c.spec_replacement()) == Some(x))
                && old.ed().same_draft(&new.ed()),
        },
        None => true,
    }
}

impl Engine {
    /// What a redraw of an open surface draws, in order of precedence: a reverse
    /// search row, else the completion menu, else diagnostics below the draft
    /// (with the analysis hint), else the draft with the suggestion, else the
    /// draft with the analysis hint, else the plain draft, reusing the drawn
    /// frame where the change allows. The frame drawn shows the current draft
    /// at the surface size, and `out` moves the terminal from the frame drawn
    /// before to it.
    pub closed spec fn redraw_effect(old: &Engine, new: &Engine, out: Seq<Mutation>) -> bool {
        match old.surface {
            Some(s0) => Engine::redraw_from(old, s0.renderer.spec_frame(), new, out),
            None => out.len() == 0,
        }
    }

    /// What an output step emits: bracketed paste off, the drawn frame erased,
    /// `content`, bracketed paste on, then a redraw from an empty surface.
    pub closed spec fn output_effect(old: &Engine, new: &Engine, content: Seq<Mutation>, m: Seq<Mutation>) -> bool {
        match old.surface {
            Some(s0) => {
                let erased = match s0.renderer.spec_frame() {
                    Some(f) => crate::render::erase_spec(f),
                    None => seq![Mutation::CarriageReturn, Mutation::ClearLine],
                };
                let head = seq![Mutation::Paste(false)] + erased + content + seq![Mutation::Paste(true)];
                &&& m.len() >= head.len()
                &&& m.take(head.len() as int) == head
                &&& Engine::redraw_from(old, None, new, m.skip(head.len() as int))
            },
            None => m == seq![Mutation::Paste(false)] + content + seq![Mutation::Paste(true)],
        }
    }

    /// [`Engine::redraw_effect`] from the frame `before` drawn on the surface.
    pub closed spec fn redraw_from(old: &Engine, before: Option<Frame>, new: &Engine, out: Seq<Mutation>) -> bool {
        match (old.surface, new.surface) {
            (Some(s0), Some(s1)) => {
                let ed = old.editor;
                let size = s0.size;
                let pr = s0.prompt;
                let spans = analysis_spans(as_ref(&s0.analysis));
                let at_end = ed.pos() == ed.bytes().len();
                let rows_for = |draft: usize| frame_rows(ed.chars(), ed.pos() as int, pr.spec_first(), pr.spec_continuation(),
                    pr.spec_role(), spans, size.0, draft);
                let geo_for = |draft: usize| frame_geometry(ed.chars(), ed.pos() as int, pr.spec_first(), pr.spec_continuation(),
                    size.0, draft);
                &&& s1.size == size
                &&& s1.renderer.spec_frame() matches Some(f) && f.source_len == ed.bytes().len() && f.source_cursor == ed.pos()
                    && f.columns == size.0 && f.rows == size.1 && {
                    if old.history_search is Some {
                        &&& moves(out) == transition_moves(before, f)
                        &&& rows_view(f.lines@) == rows_for(if size.1 > 3 { (size.1 - 1) as usize } else { 2 }).push(
                            search_row(old.history_search->0, size.0).0)
                    } else if s0.completion is Some {
                        let c = s0.completion->0;
                        let m = menu_rows(c.set.spec_candidates(), c.selected as int, size);
                        let draft = draft_surface(size.1, m.0.len() as int);
                        &&& moves(out) == transition_moves(before, f)
                        &&& rows_view(f.lines@).take(geo_for(draft).0.len() as int) == rows_for(draft)
                        &&& rows_view(f.lines@).subrange(geo_for(draft).0.len() as int, f.lines@.len() as int) == m.0
                    } else if old.validation is Some && old.validation->0.diagnostics is Some {
                        &&& moves(out) == transition_moves(before, f)
                        &&& diagnostics_frame(old.validation->0, f, &ed, &pr, size, as_ref(&s0.analysis))
                    } else if s0.suggestion is Some {
                        &&& moves(out) == transition_moves(before, f)
                        &&& rows_view(f.lines@) == suggested_rows(rows_for(size.1), geo_for(size.1).0, at_end, size.0,
                            s0.suggestion->0.spec_text())
                    } else if s0.analysis is Some {
                        &&& moves(out) == transition_moves(before, f)
                        &&& rows_view(f.lines@) == hinted_rows(rows_for(size.1), geo_for(size.1).0, as_ref(&s0.analysis),
                            at_end, size.0)
                    } else {
                        let damage = if s0.dirty { s0.damage } else { Damage::Rebuild };
                        ||| before matches Some(o) && o.columns == size.0 && o.rows == size.1 && reused_for(o, f, &ed, damage, out)
                        ||| laid_out(f, &ed, &pr, size) && moves(out) == transition_moves(before, f)
                    }
                }
            },
            _ => out.len() == 0,
        }
    }

    /// The reverse-search query, while searching.
    pub closed spec fn search_query_spec(&self) -> Option<Seq<char>> {
        match self.history_search {
            Some(h) => Some(h.query@),
            None => None,
        }
    }

    /// The selected reverse-search match, while searching and one is selected.
    pub closed spec fn search_match_spec(&self) -> Option<Seq<char>> {
        match self.history_search {
            Some(h) => state_match(h),
            None => None,
        }
    }

    /// The entries a reverse search runs over, newest first, while searching.
    pub closed spec fn search_entries_spec(&self) -> Option<Seq<Seq<char>>> {
        match self.history_search {
            Some(h) => Some(h.entries@.map_values(|s: String| s@)),
            None => None,
        }
    }

    /// The draft revision a reverse search began at, while searching.
    pub closed spec fn search_revision_spec(&self) -> Option<DraftRevision> {
        match self.history_search {
            Some(h) => Some(h.revision),
            None => None,
        }
    }

    /// The frame last drawn on the open surface.
    pub closed spec fn drawn_spec(&self) -> Option<Frame> {
        match self.surface {
            Some(s) => s.renderer.spec_frame(),
            None => None,
        }
    }

    /// The open surface has changes not yet drawn.
    pub closed spec fn dirty_spec(&self) -> bool {
        self.surface matches Some(s) && s.dirty
    }

    /// A pending redraw, if any, lays the frame out afresh.
    pub closed spec fn rebuild_pending(&self) -> bool {
        self.surface matches Some(s) && (!s.dirty || s.damage == Damage::Rebuild)
    }

    /// The open surface shows what [`Engine::redraw_effect`] draws for this
    /// engine's state, and `out` moved the terminal there from `before`.
    pub closed spec fn shows(&self, before: Option<Frame>, out: Seq<Mutation>) -> bool {
        Engine::redraw_from(self, before, self, out)
    }

    /// The editor and any open surface are well formed.
    pub closed spec fn wf(&self) -> bool {
        &&& self.editor.wf()
        &&& (self.surface matches Some(s) ==> s.ok())
    }

    /// A surface is open.
    pub closed spec fn open_spec(&self) -> bool {
        self.surface is Some
    }

    /// The open surface's size.
    pub closed spec fn size_spec(&self) -> (usize, usize) {
        match self.surface {
            Some(s) => s.size,
            None => (0, 0),
        }
    }

    /// The active completion selection.
    pub closed spec fn selection_spec(&self) -> Option<CompletionSelection> {
        match self.surface {
            Some(s) => match s.completion {
                Some(c) => Some(CompletionSelection {
                    revision: c.set.spec_revision(),
                    index: c.selected,
                    count: c.set.spec_candidates().len() as usize,
                }),
                None => None,
            },
            None => None,
        }
    }

    /// The selected completion candidate.
    pub closed spec fn selected_candidate(&self) -> Option<crate::completion::CompletionCandidate> {
        match self.surface {
            Some(s) => match s.completion {
                Some(c) => Some(c.set.spec_candidates()[c.selected as int]),
                None => None,
            },
            None => None,
        }
    }

    /// The shown analysis presentation.
    pub closed spec fn analysis_spec(&self) -> Option<AnalysisPresentation> {
        match self.surface {
            Some(s) => s.analysis,
            None => None,
        }
    }

    /// The shown suggestion.
    pub closed spec fn suggestion_spec(&self) -> Option<Suggestion> {
        match self.surface {
            Some(s) => s.suggestion,
            None => None,
        }
    }

    /// Enter asks the host for validation.
    pub closed spec fn validated(&self) -> bool {
        self.validation is Some
    }

    /// Revision of the pending Enter request.
    pub closed spec fn pending_spec(&self) -> Option<DraftRevision> {
        match self.validation {
            Some(v) => v.pending,
            None => None,
        }
    }

    /// Diagnostics shown for the current revision.
    pub closed spec fn diagnostics_spec(&self) -> Option<Seq<Diagnostic>> {
        match self.validation {
            Some(v) => match v.diagnostics {
                Some(d) => Some(d@),
                None => None,
            },
            None => None,
        }
    }

    /// Validation state, reverse search and the host history view.
    pub closed spec fn side(&self) -> (Option<ValidationState>, Option<HistorySearchState>, Option<HistorySearchSource>) {
        (self.validation, self.history_search, self.history_source)
    }

    /// The retained editor.
    pub closed spec fn ed(&self) -> Editor {
        self.editor
    }

    /// The open surface's prompt.
    pub closed spec fn prompt_spec(&self) -> Prompt {
        self.surface->0.prompt
    }

    /// The candidates and selected index of the shown completion menu.
    pub closed spec fn menu_spec(&self) -> Option<(Seq<crate::completion::CompletionCandidate>, int)> {
        match self.surface {
            Some(s) => match s.completion {
                Some(c) => Some((c.set.spec_candidates(), c.selected as int)),
                None => None,
            },
            None => None,
        }
    }

    /// What [`Engine::shows`] says of the drawn frame: it shows the current
    /// draft at the surface size; with a completion menu (and no reverse
    /// search) its rows are the draft's rows, with the analysis spans but no
    /// hint, above the menu rows; with nothing else shown it is the fresh
    /// layout of the draft; and `out` moves the terminal from `before` to it,
    /// except where a plain redraw reused the frame.
    pub proof fn lemma_shows(&self, before: Option<Frame>, out: Seq<Mutation>)
        requires
            self.shows(before, out),
            self.open_spec(),
        ensures
            self.drawn_spec() matches Some(f) && f.source_len == self.ed().bytes().len() && f.source_cursor == self.ed().pos()
                && f.columns == self.size_spec().0 && f.rows == self.size_spec().1,
            !self.searching() && self.menu_spec() is Some ==> ({
                let (cands, selected) = self.menu_spec()->0;
                let size = self.size_spec();
                let m = menu_rows(cands, selected, size);
                let draft = draft_surface(size.1, m.0.len() as int);
                let p = self.prompt_spec();
                let f = self.drawn_spec()->0;
                let geo = frame_geometry(self.ed().chars(), self.ed().pos() as int, p.spec_first(), p.spec_continuation(),
                    size.0, draft);
                &&& moves(out) == transition_moves(before, f)
                &&& rows_view(f.lines@).take(geo.0.len() as int) == frame_rows(self.ed().chars(), self.ed().pos() as int,
                    p.spec_first(), p.spec_continuation(), p.spec_role(), analysis_spans(as_ref(&self.analysis_spec())),
                    size.0, draft)
                &&& rows_view(f.lines@).subrange(geo.0.len() as int, f.lines@.len() as int) == m.0
            }),
            !self.searching() && self.menu_spec() is None && self.diagnostics_spec() is None && self.suggestion_spec() is None
                && self.analysis_spec() is None ==> laid_out(self.drawn_spec()->0, &self.ed(), &self.prompt_spec(), self.size_spec())
                || (before matches Some(o) && o.columns == self.size_spec().0 && o.rows == self.size_spec().1),
    {
    }

    /// What [`Engine::output_effect`] says of an output step's head: bracketed
    /// paste off, the drawn frame erased, the content, then bracketed paste on.
    pub proof fn lemma_output_effect(old: &Engine, new: &Engine, content: Seq<Mutation>, m: Seq<Mutation>)
        requires
            Engine::output_effect(old, new, content, m),
        ensures
            ({
                let erased = if old.open_spec() {
                    match old.drawn_spec() {
                        Some(f) => crate::render::erase_spec(f),
                        None => seq![Mutation::CarriageReturn, Mutation::ClearLine],
                    }
                } else {
                    Seq::empty()
                };
                let head = seq![Mutation::Paste(false)] + erased + content + seq![Mutation::Paste(true)];
                m.len() >= head.len() && m.take(head.len() as int) == head
            }),
    {
        if !old.open_spec() {
            assert(seq![Mutation::Paste(false)] + Seq::<Mutation>::empty() =~= seq![Mutation::Paste(false)]);
            assert(m.take(m.len() as int) =~= m);
        }
    }

    /// Reverse search is active.
    pub closed spec fn searching(&self) -> bool {
        self.history_search is Some
    }

    /// Every shown host result belongs to the current draft revision.
    pub open spec fn coherent(&self) -> bool {
        &&& (self.selection_spec() matches Some(s) ==> s.revision == self.ed().revision_spec())
        &&& (self.analysis_spec() matches Some(a) ==> a.spec_revision() == self.ed().revision_spec())
        &&& (self.suggestion_spec() matches Some(g) ==> g.spec_revision() == self.ed().revision_spec())
    }

    /// No completion menu, analysis, suggestion, pending request or diagnostics remain.
    pub open spec fn transient_cleared(&self) -> bool {
        &&& self.selection_spec() is None
        &&& self.analysis_spec() is None
        &&& self.suggestion_spec() is None
        &&& self.pending_spec() is None
        &&& self.diagnostics_spec() is None
    }

    /// An engine over `editor`, closed, with direct submission and no history source.
    pub fn new(editor: Editor) -> (r: Self)
        requires
            editor.wf(),
        ensures
            r.wf(),
            !r.open_spec(),
            !r.validated(),
            !r.searching(),
            r.ed() == editor,
    {
        Engine { editor, surface: None, validation: None, history_source: None, history_search: None }
    }

    /// The retained editor, for direct editing by the host. Whatever the host
    /// does through it, the engine stays well formed as long as the editor
    /// does; nothing else about the engine changes.
    pub fn editor_mut(&mut self) -> (r: &mut Editor)
        requires
            old(self).wf(),
        ensures
            *r == old(self).ed(),
            final(self).ed() == *final(r),
            final(r).wf() ==> final(self).wf(),
            final(self).open_spec() == old(self).open_spec(),
            final(self).size_spec() == old(self).size_spec(),
            final(self).side() == old(self).side(),
            final(self).selection_spec() == old(self).selection_spec(),
            final(self).analysis_spec() == old(self).analysis_spec(),
            final(self).suggestion_spec() == old(self).suggestion_spec(),
            final(self).drawn_spec() == old(self).drawn_spec(),
    {
        &mut self.editor
    }

    /// Whether a surface is open.
    pub fn is_open(&self) -> (r: bool)
        ensures
            r == self.open_spec(),
    {
        self.surface.is_some()
    }

    /// Install or remove the host's history-search view. Refused during a
    /// search, or when an entry could not fit the editor.
    pub fn set_history_source(&mut self, source: Option<HistorySearchSource>) -> (r: Result<(), HistoryError>)
        requires
            old(self).wf(),
        ensures
            final(self).wf(),
            keeps_coherence(old(self), final(self)),
            final(self).ed() == old(self).ed(),
            final(self).open_spec() == old(self).open_spec(),
            old(self).searching() ==> r == Err::<(), HistoryError>(HistoryError::SearchActive),
            r matches Err(e) ==> e == HistoryError::SearchActive || e == HistoryError::EntryTooLarge,
    {
        if self.history_search.is_some() {
            return Err(HistoryError::SearchActive);
        }
        if let Some(s) = &source {
            if !entries_fit(s.entries(), self.editor.capacity()) {
                return Err(HistoryError::EntryTooLarge);
            }
        }
        self.history_source = source;
        Ok(())
    }

    /// The reverse-search query, while searching.
    pub fn history_search_query(&self) -> (r: Option<&str>)
        ensures
            r is Some <==> self.searching(),
            match r {
                Some(q) => self.search_query_spec() == Some(q@),
                None => self.search_query_spec() is None,
            },
    {
        match &self.history_search {
            Some(h) => Some(h.query.as_str()),
            None => None,
        }
    }

    /// The selected reverse-search match, while searching.
    pub fn history_search_match(&self) -> (r: Option<&str>)
        ensures
            r is Some ==> self.searching(),
            match r {
                Some(m) => self.search_match_spec() == Some(m@),
                None => self.search_match_spec() is None,
            },
    {
        match &self.history_search {
            Some(h) => h.selected_text(),
            None => None,
        }
    }

    /// The shown suggestion.
    pub fn suggestion(&self) -> (r: Option<&Suggestion>)
        ensures
            r == match self.suggestion_spec() {
                Some(s) => Some(&s),
                None => None::<&Suggestion>,
            },
    {
        match &self.surface {
            Some(s) => match &s.suggestion {
                Some(x) => Some(x),
                None => None,
            },
            None => None,
        }
    }

    /// The frame most recently drawn on the open surface.
    pub fn frame(&self) -> (r: Option<&Frame>)
        ensures
            r is Some ==> self.open_spec(),
    {
        match &self.surface {
            Some(s) => s.renderer.frame(),
            None => None,
        }
    }

    /// The open surface's size.
    pub fn size(&self) -> (r: Option<(usize, usize)>)
        ensures
            r is Some <==> self.open_spec(),
            r matches Some(z) ==> z == self.size_spec(),
    {
        match &self.surface {
            Some(s) => Some(s.size),
            None => None,
        }
    }

    /// The frame the active completion menu would draw now.
    pub fn completion_frame(&self) -> (r: Option<Frame>)
        requires
            self.wf(),
        ensures
            r is Some <==> self.selection_spec() is Some,
            r matches Some(f) ==> f.lines@.len() <= self.size_spec().1 && f.wf(),
    {
        match &self.surface {
            Some(s) => match &s.completion {
                Some(c) => {
                    let a = match &s.analysis {
                        Some(p) => Some(p),
                        None => None,
                    };
                    Some(c.frame(&self.editor, &s.prompt, s.size, a))
                },
                None => None,
            },
            None => None,
        }
    }

    /// Mark the open surface for a full layout.
    fn invalidate(&mut self)
        requires
            old(self).wf(),
        ensures
            final(self).wf(),
            keeps_coherence(old(self), final(self)),
            final(self).ed() == old(self).ed(),
            final(self).side() == old(self).side(),
            final(self).open_spec() == old(self).open_spec(),
            final(self).size_spec() == old(self).size_spec(),
            final(self).selection_spec() == old(self).selection_spec(),
            final(self).analysis_spec() == old(self).analysis_spec(),
            final(self).suggestion_spec() == old(self).suggestion_spec(),
            final(self).open_spec() ==> final(self).dirty_spec() && final(self).rebuild_pending(),
    {
        if let Some(mut s) = self.surface.take() {
            s.dirty = true;
            s.damage = Damage::Rebuild;
            self.surface = Some(s);
        }
    }

    /// Begin reverse search over the editor's history, newest first, followed by
    /// the host view, bounded by the host view's limits.
    fn begin_history_search(&mut self)
        requires
            old(self).wf(),
        ensures
            final(self).wf(),
            keeps_coherence(old(self), final(self)),
            final(self).searching(),
            old(self).ed().same_draft(&final(self).ed()),
            final(self).open_spec() == old(self).open_spec(),
            final(self).size_spec() == old(self).size_spec(),
            final(self).selection_spec() is None,
            final(self).validated() == old(self).validated(),
            final(self).search_query_spec() == Some(Seq::<char>::empty()),
            final(self).search_revision_spec() == Some(old(self).ed().revision_spec()),
            final(self).pending_spec() is None,
            final(self).search_entries_spec() == Some(search_pool(old(self).ed().history_spec(), old(self).side().2)),
            first_match_is(search_pool(old(self).ed().history_spec(), old(self).side().2), Seq::empty(),
                final(self).search_match_spec()),
    {
        let limits = match &self.history_source {
            Some(s) => s.limits(),
            None => HistorySearchLimits::default(),
        };
        let ghost h = self.editor.history_spec();
        let ghost newest = Seq::new(h.len(), |i: int| h[h.len() - 1 - i]);
        let ghost extra = match &self.history_source {
            Some(s) => s.spec_entries(),
            None => Seq::<Seq<char>>::empty(),
        };
        let mut all = self.editor.history_newest();
        proof {
            assert(all@.map_values(|s: String| s@) =~= newest + extra.take(0));
        }
        if let Some(s) = &self.history_source {
            let more = s.entries();
            let mut i: usize = 0;
            while i < more.len()
                invariant
                    i <= more@.len(),
                    more@.map_values(|s: String| s@) == extra,
                    all@.map_values(|s: String| s@) == newest + extra.take(i as int),
                decreases more@.len() - i,
            {
                let e = more[i].clone();
                assert(e@ == extra[i as int]);
                let ghost a0 = all@;
                all.push(e);
                i += 1;
                proof {
                    assert(all@.map_values(|s: String| s@) =~= a0.map_values(|s: String| s@).push(e@));
                    assert(extra.take(i as int) =~= extra.take(i - 1).push(extra[i - 1]));
                    assert(all@.map_values(|s: String| s@) =~= newest + extra.take(i as int));
                }
            }
            proof {
                assert(extra.take(i as int) =~= extra);
            }
        } else {
            proof {
                assert(extra.take(0) =~= extra);
            }
        }
        let ghost allv = newest + extra;
        let ghost nb = limits.spec_entries() as int;
        let ghost bb = limits.spec_bytes() as int;
        assert(all@.map_values(|s: String| s@) == allv);
        let mut entries: Vec<String> = Vec::new();
        let mut bytes: usize = 0;
        let mut i: usize = 0;
        proof {
            assert(entries@.map_values(|s: String| s@) =~= allv.take(0));
        }
        while i < all.len() && entries.len() < limits.entries()
            invariant
                i <= all@.len(),
                all@.map_values(|s: String| s@) == allv,
                entries@.len() == i,
                entries@.map_values(|s: String| s@) == allv.take(i as int),
                nb == limits.spec_entries(),
                bb == limits.spec_bytes(),
                bytes <= limits.spec_bytes(),
                pool_len(allv, nb, bb, 0, 0) == pool_len(allv, nb, bb, i as int, bytes as int),
            ensures
                i <= all@.len(),
                entries@.map_values(|s: String| s@) == allv.take(i as int),
                pool_len(allv, nb, bb, 0, 0) == i,
            decreases all@.len() - i,
        {
            let n = byte_len(all[i].as_str());
            proof {
                assert(allv[i as int] == all@[i as int]@);
            }
            if n > limits.bytes() || bytes > limits.bytes() - n {
                break;
            }
            bytes = bytes + n;
            let e = all[i].clone();
            assert(e@ == allv[i as int]);
            entries.push(e);
            i += 1;
            proof {
                assert(entries@.map_values(|s: String| s@) =~= allv.take(i as int));
            }
        }
        proof {
            assert(pool_len(allv, nb, bb, i as int, bytes as int) == i);
            assert(search_pool(h, self.side().2) == allv.take(i as int));
        }
        self.editor.break_undo_group();
        self.remove_completion();
        if let Some(mut v) = self.validation.take() {
            v.pending = None;
            self.validation = Some(v);
        }
        self.history_search = Some(HistorySearchState::new(self.editor.revision(), entries, limits.query_bytes()));
        proof {
            lemma_search_match(self.history_search->0);
        }
    }

    /// Redraw after a search change.
    fn history_search_changed(&mut self) -> (fx: Effects)
        requires
            old(self).wf(),
        ensures
            final(self).wf(),
            keeps_coherence(old(self), final(self)),
            final(self).ed() == old(self).ed(),
            final(self).open_spec() == old(self).open_spec(),
            final(self).size_spec() == old(self).size_spec(),
            final(self).selection_spec() == old(self).selection_spec(),
            final(self).searching() == old(self).searching(),
            final(self).analysis_spec() == old(self).analysis_spec(),
            final(self).suggestion_spec() == old(self).suggestion_spec(),
            final(self).side() == old(self).side(),
            final(self).validated() == old(self).validated(),
            fx.event is None,
    {
        self.invalidate();
        self.flush()
    }

    /// Accept the selected match as one atomic edit, if the draft is unchanged
    /// since the search began.
    fn accept_history_search(&mut self) -> (r: Result<Effects, Error>)
        requires
            old(self).wf(),
            old(self).ed().rev() < u128::MAX,
        ensures
            final(self).wf(),
            keeps_coherence(old(self), final(self)),
            !final(self).searching(),
            final(self).open_spec() == old(self).open_spec(),
            final(self).size_spec() == old(self).size_spec(),
            search_accept_outcome(old(self), final(self), r),
    {
        let search = match self.history_search.take() {
            Some(s) => s,
            None => return Ok(self.history_search_changed()),
        };
        if search.revision != self.editor.revision() {
            return Ok(self.history_search_changed());
        }
        let revision = self.editor.revision();
        if let Some(text) = search.selected_text() {
            match self.editor.replace_search_result(text) {
                Ok(()) => {},
                Err(e) => return Err(Error::Edit(e)),
            }
        }
        if revision != self.editor.revision() {
            self.invalidate_validation();
            self.remove_completion();
            self.remove_suggestion();
        }
        Ok(self.history_search_changed())
    }

    /// Open a surface of `size` columns and rows and draw the prompt and draft.
    pub fn start(&mut self, prompt: Prompt, size: (usize, usize)) -> (r: Result<Effects, Error>)
        requires
            old(self).wf(),
        ensures
            final(self).wf(),
            keeps_coherence(old(self), final(self)),
            final(self).ed() == old(self).ed(),
            old(self).open_spec() ==> (r matches Err(e) && e is State) && *final(self) == *old(self),
            !old(self).open_spec() && (size.0 < 2 || size.1 < 2) ==> (r matches Err(e) && e is UnsuitableTerminal)
                && *final(self) == *old(self),
            r is Ok <==> !old(self).open_spec() && size.0 >= 2 && size.1 >= 2,
            r is Ok ==> final(self).open_spec() && final(self).size_spec() == size && final(self).selection_spec() is None
                && final(self).analysis_spec() is None && final(self).suggestion_spec() is None,
            r is Ok && !old(self).searching() && old(self).diagnostics_spec() is None
                ==> r->Ok_0.event is None && (final(self).drawn_spec() matches Some(f) && laid_out(f, &old(self).ed(), &prompt, size)
                && moves(r->Ok_0.mutations@) == transition_moves(None, f)),
    {
        if self.surface.is_some() {
            return Err(Error::State);
        }
        if size.0 < 2 || size.1 < 2 {
            return Err(Error::UnsuitableTerminal);
        }
        self.surface = Some(Surface {
            prompt,
            size,
            renderer: Renderer::new(),
            dirty: true,
            damage: Damage::Rebuild,
            completion: None,
            analysis: None,
            suggestion: None,
        });
        let mutations = self.redraw();
        Ok(Effects { mutations, event: None })
    }

    /// Draw the current presentation: search, completion menu, diagnostics,
    /// suggestion, analysis, or the plain draft reusing the retained geometry.
    fn redraw(&mut self) -> (out: Vec<Mutation>)
        requires
            old(self).wf(),
        ensures
            final(self).wf(),
            Engine::redraw_effect(old(self), final(self), out@),
            old(self).rebuild_pending() ==> final(self).shows(old(self).drawn_spec(), out@),
            keeps_coherence(old(self), final(self)),
            final(self).ed() == old(self).ed(),
            final(self).side() == old(self).side(),
            final(self).open_spec() == old(self).open_spec(),
            final(self).size_spec() == old(self).size_spec(),
            final(self).selection_spec() == old(self).selection_spec(),
            final(self).analysis_spec() == old(self).analysis_spec(),
            final(self).suggestion_spec() == old(self).suggestion_spec(),
    {
        let mut s = match self.surface.take() {
            Some(s) => s,
            None => return Vec::new(),
        };
        let damage = if s.dirty { s.damage } else { Damage::Rebuild };
        s.dirty = false;
        let analysis = match &s.analysis {
            Some(p) => Some(p),
            None => None,
        };
        assert(analysis == as_ref(&s.analysis));
        let ghost at_end = self.editor.pos() == self.editor.bytes().len();
        let diagnostics_shown = match &self.validation {
            Some(v) => v.diagnostics.is_some(),
            None => false,
        };
        let out = if let Some(search) = &self.history_search {
            let f = search.frame(&self.editor, &s.prompt, s.size, analysis);
            s.renderer.transition(f)
        } else if let Some(c) = &s.completion {
            let f = c.frame(&self.editor, &s.prompt, s.size, analysis);
            s.renderer.transition(f)
        } else if diagnostics_shown {
            let f = match &self.validation {
                Some(v) => {
                    let f = v.frame(&self.editor, &s.prompt, s.size, analysis);
                    f
                },
                None => Frame::new(&self.editor, &s.prompt, s.size.0, s.size.1),
            };
            s.renderer.transition(f)
        } else if let Some(sg) = &s.suggestion {
            let mut f = Frame::analyzed(&self.editor, &s.prompt, s.size.0, s.size.1, analysis);
            let ghost f0 = f;
            sg.append(&mut f);
            proof {
                assert(rows_view(f.lines@) == suggested_rows(rows_view(f0.lines@), f0.widths@, at_end, s.size.0,
                    sg.spec_text()));
            }
            s.renderer.transition(f)
        } else if let Some(a) = analysis {
            let mut f = Frame::analyzed(&self.editor, &s.prompt, s.size.0, s.size.1, Some(a));
            let ghost f0 = f;
            a.append_hint(&mut f);
            proof {
                assert(rows_view(f.lines@) == hinted_rows(rows_view(f0.lines@), f0.widths@, analysis, at_end, s.size.0));
            }
            s.renderer.transition(f)
        } else {
            s.renderer.redraw_changed(&self.editor, &s.prompt, s.size, damage)
        };
        self.surface = Some(s);
        out
    }

    /// Apply one input and redraw.
    pub fn apply(&mut self, input: Input) -> (r: Result<Effects, Error>)
        requires
            old(self).wf(),
            old(self).ed().rev() < u128::MAX,
        ensures
            final(self).wf(),
            keeps_coherence(old(self), final(self)),
            !old(self).open_spec() ==> (r matches Err(e) && e is State) && *final(self) == *old(self),
            apply_outcome(old(self), final(self), input, r),
    {
        self.apply_inner(input, false)
    }

    /// Apply already-ready input without rebuilding intermediate presentations.
    /// Host events, explicit redraw and lifecycle transitions always flush first.
    pub fn apply_deferred(&mut self, input: Input) -> (r: Result<Effects, Error>)
        requires
            old(self).wf(),
            old(self).ed().rev() < u128::MAX,
        ensures
            final(self).wf(),
            keeps_coherence(old(self), final(self)),
            !old(self).open_spec() ==> (r matches Err(e) && e is State) && *final(self) == *old(self),
            apply_outcome(old(self), final(self), input, r),
    {
        self.apply_inner(input, true)
    }

    /// Draw pending changes, if any.
    pub fn flush(&mut self) -> (fx: Effects)
        requires
            old(self).wf(),
        ensures
            final(self).wf(),
            keeps_coherence(old(self), final(self)),
            final(self).ed() == old(self).ed(),
            final(self).side() == old(self).side(),
            final(self).open_spec() == old(self).open_spec(),
            final(self).size_spec() == old(self).size_spec(),
            final(self).selection_spec() == old(self).selection_spec(),
            final(self).analysis_spec() == old(self).analysis_spec(),
            final(self).suggestion_spec() == old(self).suggestion_spec(),
            fx.event is None,
            !old(self).open_spec() ==> no_effects(&fx),
            old(self).dirty_spec() ==> Engine::redraw_effect(old(self), final(self), fx.mutations@),
            old(self).dirty_spec() && old(self).rebuild_pending() ==> final(self).shows(old(self).drawn_spec(), fx.mutations@),
            !old(self).dirty_spec() ==> fx.mutations@.len() == 0,
    {
        let dirty = match &self.surface {
            Some(s) => s.dirty,
            None => false,
        };
        let mutations = if dirty { self.redraw() } else { Vec::new() };
        Effects { mutations, event: None }
    }

    /// Flush, then report `event`.
    fn observable(&mut self, event: Event) -> (fx: Effects)
        requires
            old(self).wf(),
        ensures
            final(self).wf(),
            keeps_coherence(old(self), final(self)),
            final(self).ed() == old(self).ed(),
            final(self).open_spec() == old(self).open_spec(),
            final(self).size_spec() == old(self).size_spec(),
            final(self).selection_spec() == old(self).selection_spec(),
            final(self).analysis_spec() == old(self).analysis_spec(),
            final(self).suggestion_spec() == old(self).suggestion_spec(),
            final(self).validation == old(self).validation,
            final(self).history_search == old(self).history_search,
            final(self).side() == old(self).side(),
            fx.event == Some(event),
    {
        let mut fx = self.flush();
        fx.event = Some(event);
        fx
    }

    /// Reject `e`, keeping the draft.
    fn rejected(&mut self, e: EditError) -> (r: Result<Effects, Error>)
        requires
            old(self).wf(),
        ensures
            final(self).wf(),
            keeps_coherence(old(self), final(self)),
            final(self).ed() == old(self).ed(),
            final(self).open_spec() == old(self).open_spec(),
            final(self).size_spec() == old(self).size_spec(),
            transient_kept(old(self), final(self)),
            final(self).side() == old(self).side(),
            r matches Ok(fx) && fx.event == Some(Event::Rejected(e)),
    {
        Ok(self.observable(Event::Rejected(e)))
    }

    /// Reverse-search input: query edits and match navigation never touch the draft.
    fn search_input(&mut self, input: &Input) -> (r: Option<Result<Effects, Error>>)
        requires
            old(self).wf(),
            old(self).ed().rev() < u128::MAX,
            old(self).searching(),
            old(self).open_spec(),
        ensures
            final(self).wf(),
            keeps_coherence(old(self), final(self)),
            final(self).open_spec() == old(self).open_spec(),
            final(self).size_spec() == old(self).size_spec(),
            r is None ==> final(self).ed() == old(self).ed() && final(self).selection_spec() == old(self).selection_spec()
                && final(self).side().0 == old(self).side().0 && final(self).open_spec()
                && transient_kept(old(self), final(self)),
            (input is Rejected || input is TransportEof || (input matches Input::Request(Request::Interrupt))) ==> r is None,
            input is Text ==> r is Some && search_text_outcome(old(self), final(self), input->Text_0@, r->0),
            input is Paste ==> r is Some && search_text_outcome(old(self), final(self), input->Paste_0@, r->0),
            input is Request && (crate::actions::canonical_request(input->Request_0) is Submit
                || crate::actions::canonical_request(input->Request_0) is HistorySearchAccept)
                ==> r is Some && search_accept_outcome(old(self), final(self), r->0),
    {
        let mut h = match self.history_search.take() {
            Some(h) => h,
            None => return None,
        };
        let outcome: Option<bool> = match input {
            Input::Text(t) | Input::Paste(t) => {
                match h.insert_query(t.as_str()) {
                    Ok(()) => {
                        proof {
                            lemma_search_match(h);
                        }
                        Some(true)
                    },
                    Err(e) => {
                        self.history_search = Some(h);
                        return Some(self.rejected(e));
                    },
                }
            },
            Input::Edit(EditCommand::Backspace) => {
                h.backspace();
                Some(true)
            },
            Input::Edit(EditCommand::KillWordBackward) => {
                h.delete_query_word();
                Some(true)
            },
            Input::Edit(EditCommand::KillLineStart) => {
                h.clear_query();
                Some(true)
            },
            Input::Edit(EditCommand::HistorySearchOlder) => {
                h.older();
                Some(true)
            },
            Input::Edit(EditCommand::HistorySearchNewer) => {
                h.newer();
                Some(true)
            },
            Input::Request(r) => {
                let r = canonical(*r);
                match r {
                    Request::Submit | Request::HistorySearchAccept => {
                        self.history_search = Some(h);
                        return Some(self.accept_history_search());
                    },
                    Request::CompletionAction(CompletionAction::Dismiss) | Request::HistorySearchDismiss => {
                        Some(false)
                    },
                    Request::Redraw => {
                        self.history_search = Some(h);
                        return None;
                    },
                    _ => None,
                }
            },
            Input::Resize(..) => {
                self.history_search = Some(h);
                return None;
            },
            _ => None,
        };
        match outcome {
            Some(true) => {
                self.history_search = Some(h);
                Some(Ok(self.history_search_changed()))
            },
            Some(false) => Some(Ok(self.history_search_changed())),
            None => {
                self.invalidate();
                None
            },
        }
    }

    /// Apply one input; `deferred` postpones the redraw of ordinary edits.
    fn apply_inner(&mut self, input: Input, deferred: bool) -> (r: Result<Effects, Error>)
        requires
            old(self).wf(),
            old(self).ed().rev() < u128::MAX,
        ensures
            final(self).wf(),
            keeps_coherence(old(self), final(self)),
            !old(self).open_spec() ==> (r matches Err(e) && e is State) && *final(self) == *old(self),
            apply_outcome(old(self), final(self), input, r),
    {
        if self.surface.is_none() {
            return Err(Error::State);
        }
        if self.history_search.is_some() {
            match self.search_input(&input) {
                Some(r) => return r,
                None => {},
            }
        }
        if self.surface.is_none() {
            return Err(Error::State);
        }
        let input = match input {
            Input::Request(r) => Input::Request(canonical(r)),
            other => other,
        };
        if self.completion_selection().is_some() {
            let action = match &input {
                Input::Request(Request::Completion) => Some(CompletionAction::Next),
                Input::Request(Request::Submit) => Some(CompletionAction::Accept),
                Input::Request(Request::CompletionAction(a)) => Some(*a),
                _ => None,
            };
            if let Some(a) = action {
                return match self.completion_action(a) {
                    Ok((_, fx)) => Ok(fx),
                    Err(e) => Err(e),
                };
            }
        }
        let diagnostics_shown = match &self.validation {
            Some(v) => v.diagnostics.is_some(),
            None => false,
        };
        if self.completion_selection().is_none() && !diagnostics_shown && self.suggestion().is_some() {
            let at_end = self.editor.cursor() == self.editor.len();
            let accept = match &input {
                Input::Request(Request::SuggestionAccept) => Some(true),
                Input::Request(Request::SuggestionDismiss) => Some(false),
                Input::Edit(EditCommand::Right) => if at_end { Some(true) } else { None },
                _ => None,
            };
            if let Some(a) = accept {
                return match self.suggestion_action(a) {
                    Ok((_, fx)) => Ok(fx),
                    Err(e) => Err(e),
                };
            }
        }
        self.apply_edit(input, deferred)
    }

    /// The damage an input causes when it is an ordinary edit.
    fn damage_of(&self, input: &Input) -> (d: Damage)
        requires
            self.wf(),
    {
        let text = self.editor.text();
        let len = self.editor.len();
        let at_end = self.editor.cursor() == len;
        let b = text.as_bytes();
        let ascii_tail = len == 0 || (b[len - 1] >= 0x20 && b[len - 1] <= 0x7e);
        match input {
            Input::Edit(EditCommand::Left) | Input::Edit(EditCommand::Right) | Input::Edit(EditCommand::Home)
            | Input::Edit(EditCommand::End) => Damage::Cursor,
            Input::Text(t) => {
                if at_end && ascii_tail && printable(t.as_str()) {
                    Damage::AppendAscii
                } else {
                    Damage::Rebuild
                }
            },
            Input::Edit(EditCommand::Backspace) => {
                if at_end && ascii_tail {
                    Damage::BackspaceAscii
                } else {
                    Damage::Rebuild
                }
            },
            _ => Damage::Rebuild,
        }
    }

    /// An edit command applied to the editor; `Err` carries a rejection.
    fn edit_command(&mut self, command: EditCommand) -> (r: Result<bool, EditError>)
        requires
            old(self).wf(),
            old(self).ed().rev() < u128::MAX,
        ensures
            final(self).wf(),
            final(self).surface == old(self).surface,
            final(self).validation == old(self).validation,
            final(self).history_search == old(self).history_search,
            r matches Err(_) ==> old(self).ed().same_draft(&final(self).ed()),
            draft_command(command) ==> match r {
                Ok(_) => command_effect(old(self).ed(), final(self).ed(), command, old(self).validated(), Ok(())),
                Err(x) => command_effect(old(self).ed(), final(self).ed(), command, old(self).validated(), Err(x)),
            },
            final(self).ed().rev() >= old(self).ed().rev(),
    {
        let ghost e0 = self.editor;
        match command {
            EditCommand::Left => self.editor.left(),
            EditCommand::Right => self.editor.right(),
            EditCommand::Home => self.editor.home(),
            EditCommand::End => self.editor.end(),
            EditCommand::Backspace => {
                self.editor.backspace();
                
            },
            EditCommand::Delete => {
                self.editor.delete();
                
            },
            EditCommand::WordLeft => {
                self.editor.word_left();
                
            },
            EditCommand::WordRight => {
                self.editor.word_right();
                
            },
            EditCommand::WordDeleteBackward => self.editor.delete_word_backward(),
            EditCommand::WordDeleteForward => self.editor.delete_word_forward(),
            EditCommand::Undo => {
                self.editor.undo();
            },
            EditCommand::Redo => {
                self.editor.redo();
            },
            EditCommand::KillWordBackward => {
                match self.editor.kill_word_backward() {
                    Ok(()) => {},
                    Err(e) => return Err(e),
                }
            },
            EditCommand::KillWordForward => {
                match self.editor.kill_word_forward() {
                    Ok(()) => {},
                    Err(e) => return Err(e),
                }
            },
            EditCommand::KillLineStart => {
                match self.editor.kill_line_start() {
                    Ok(()) => {},
                    Err(e) => return Err(e),
                }
            },
            EditCommand::KillLineEnd => {
                match self.editor.kill_line_end() {
                    Ok(()) => {},
                    Err(e) => return Err(e),
                }
            },
            EditCommand::Yank => {
                match self.editor.yank() {
                    Ok(()) => {},
                    Err(e) => return Err(e),
                }
            },
            EditCommand::HistoryPrevious => {
                if self.validation.is_none() || !self.editor.line_up() {
                    self.editor.history_up();
                }
            },
            EditCommand::HistoryNext => {
                if self.validation.is_none() || !self.editor.line_down() {
                    self.editor.history_down();
                }
            },
            EditCommand::HistorySearchOlder | EditCommand::HistorySearchNewer => {
                return Ok(false);
            },
        }
        Ok(true)
    }

    /// Ordinary editing, lifecycle requests and resizes.
    #[verifier::rlimit(80)]
    #[verifier::spinoff_prover]
    fn apply_edit(&mut self, input: Input, deferred: bool) -> (r: Result<Effects, Error>)
        requires
            old(self).wf(),
            old(self).ed().rev() < u128::MAX,
            old(self).open_spec(),
        ensures
            final(self).wf(),
            keeps_coherence(old(self), final(self)),
            edit_outcome(old(self), final(self), input, r),
    {
        let revision = self.editor.revision();
        let previous_len = self.editor.len();
        let mut damage = self.damage_of(&input);
        let force = match &input {
            Input::Request(Request::Redraw) | Input::Resize(..) => true,
            _ => false,
        };
        let mut mutations: Vec<Mutation> = Vec::new();
        match input {
            Input::Text(text) => {
                match self.editor.insert(text.as_str()) {
                    Ok(()) => {},
                    Err(e) => return self.rejected(e),
                }
            },
            Input::Paste(text) => {
                match self.editor.insert_transaction(text.as_str()) {
                    Ok(()) => {},
                    Err(e) => return self.rejected(e),
                }
            },
            Input::Edit(command) => {
                if command == EditCommand::HistorySearchOlder {
                    self.begin_history_search();
                    return Ok(self.history_search_changed());
                }
                if command == EditCommand::HistorySearchNewer {
                    return self.rejected(EditError::InvalidSequence);
                }
                match self.edit_command(command) {
                    Ok(_) => {},
                    Err(e) => return self.rejected(e),
                }
            },
            Input::Request(Request::Submit) => {
                self.editor.break_undo_group();
                if let Some(mut v) = self.validation.take() {
                    v.pending = Some(self.editor.revision());
                    self.validation = Some(v);
                    let snapshot = self.editor.analysis_snapshot();
                    return Ok(self.observable(Event::SubmissionRequested(snapshot)));
                }
                let text = self.editor.text().to_owned();
                return Ok(self.finish(Event::Submitted(text)));
            },
            Input::Request(Request::Interrupt) => return Ok(self.finish(Event::Interrupted)),
            Input::TransportEof => return Ok(self.finish(Event::EndOfInput)),
            Input::Request(Request::DeleteOrEof) => {
                if self.editor.len() == 0 {
                    return Ok(self.finish(Event::EndOfInput));
                }
                let ghost e0 = self.editor;
                self.editor.delete();
                assert(command_effect(e0, self.editor, EditCommand::Delete, self.validation is Some, Ok(())));
            },
            Input::Request(Request::Completion) => {
                self.editor.break_undo_group();
                match self.continuation_indent() {
                    Some(count) => {
                        let pad: &str = if count == 1 { " " } else if count == 2 { "  " } else if count == 3 { "   " } else { "    " };
                        proof {
                            reveal_strlit(" ");
                            reveal_strlit("  ");
                            reveal_strlit("   ");
                            reveal_strlit("    ");
                            assert(pad@ =~= spaces(count as int));
                        }
                        match self.editor.insert_transaction(pad) {
                            Ok(()) => {},
                            Err(e) => return self.rejected(e),
                        }
                    },
                    None => return Ok(self.observable(Event::CompletionRequested)),
                }
            },
            Input::Request(Request::CompletionAction(a)) => {
                if a == CompletionAction::Dismiss && self.clear_diagnostics() {
                    return Ok(self.flush());
                }
                return self.rejected(EditError::InvalidSequence);
            },
            Input::Request(Request::HistorySearchAccept) | Input::Request(Request::HistorySearchDismiss)
            | Input::Request(Request::SuggestionAccept) | Input::Request(Request::SuggestionDismiss)
            | Input::Request(Request::CompletionPrevious) | Input::Request(Request::DismissCompletion) => {
                return self.rejected(EditError::InvalidSequence);
            },
            Input::Request(Request::Redraw) => {
                if let Some(mut s) = self.surface.take() {
                    let mut cleared = s.renderer.clear();
                    mutations.append(&mut cleared);
                    self.surface = Some(s);
                }
            },
            Input::Resize(columns, rows) => {
                if columns < 2 || rows < 2 {
                    return Err(Error::UnsuitableTerminal);
                }
                let mut s = match self.surface.take() {
                    Some(s) => s,
                    None => return Err(Error::State),
                };
                if s.size.0 == columns && s.size.1 == rows {
                    self.surface = Some(s);
                    return Ok(Effects::none());
                }
                s.size = (columns, rows);
                self.surface = Some(s);
            },
            Input::Rejected(e) => return self.rejected(e),
        }
        let now_len = self.editor.len();
        if damage == Damage::BackspaceAscii && (now_len >= previous_len || previous_len - now_len != 1) {
            damage = Damage::Rebuild;
        }
        let changed = revision != self.editor.revision();
        if changed {
            self.history_search = None;
            self.remove_suggestion();
            if self.analysis_presentation().is_some() {
                damage = Damage::Rebuild;
            }
            self.invalidate_validation();
        }
        let mut s = match self.surface.take() {
            Some(s) => s,
            None => return Err(Error::State),
        };
        if changed && s.completion.is_some() {
            s.completion = None;
            damage = Damage::Rebuild;
        }
        if s.dirty && s.damage != damage {
            damage = Damage::Rebuild;
        }
        s.dirty = true;
        s.damage = damage;
        self.surface = Some(s);
        if !deferred || force {
            let mut drawn = self.redraw();
            mutations.append(&mut drawn);
        }
        Ok(Effects { mutations, event: None })
    }

    /// End the interaction with `event`: drop transient state, start a fresh
    /// draft identity, flush and leave the surface.
    fn finish(&mut self, event: Event) -> (fx: Effects)
        requires
            old(self).wf(),
            old(self).ed().rev() < u128::MAX,
        ensures
            final(self).wf(),
            keeps_coherence(old(self), final(self)),
            !final(self).open_spec(),
            !final(self).searching(),
            final(self).pending_spec() is None,
            final(self).diagnostics_spec() is None,
            final(self).validated() == old(self).validated(),
            final(self).ed().chars() == old(self).ed().chars(),
            final(self).ed().rev() == old(self).ed().rev() + 1,
            fx.event == Some(event),
    {
        self.history_search = None;
        self.remove_completion();
        self.invalidate_validation();
        self.editor.end_draft();
        let mut fx = self.flush();
        if let Some(mut s) = self.surface.take() {
            let interrupted = match &event {
                Event::Interrupted => true,
                _ => false,
            };
            let mut left = s.renderer.leave(interrupted);
            fx.mutations.append(&mut left);
        }
        fx.event = Some(event);
        fx
    }

    /// Close the surface without an event, keeping the draft and its identity.
    pub fn close(&mut self) -> (fx: Effects)
        requires
            old(self).wf(),
        ensures
            final(self).wf(),
            keeps_coherence(old(self), final(self)),
            !final(self).open_spec(),
            !final(self).searching(),
            final(self).pending_spec() is None,
            final(self).diagnostics_spec() is None,
            final(self).selection_spec() is None,
            final(self).analysis_spec() is None,
            final(self).suggestion_spec() is None,
            old(self).ed().same_draft(&final(self).ed()),
            fx.event is None,
            old(self).open_spec() ==> exists|k: int, mid: Engine, done: Engine|
                #![trigger mid.dirty_spec(), done.drawn_spec(), fx.mutations@.skip(k)]
                0 <= k <= fx.mutations@.len()
                && mid.open_spec() && !mid.searching() && mid.selection_spec() is None && mid.analysis_spec() is None
                && mid.diagnostics_spec() is None && mid.pending_spec() is None
                && mid.suggestion_spec() == old(self).suggestion_spec() && mid.size_spec() == old(self).size_spec()
                && old(self).ed().same_draft(&mid.ed())
                && (old(self).selection_spec() is Some || old(self).analysis_spec() is Some
                    || old(self).diagnostics_spec() is Some ==> mid.dirty_spec() && mid.rebuild_pending())
                && (mid.dirty_spec() ==> Engine::redraw_effect(&mid, &done, fx.mutations@.take(k)))
                && (mid.dirty_spec() && mid.rebuild_pending() ==> done.shows(mid.drawn_spec(), fx.mutations@.take(k)))
                && (!mid.dirty_spec() ==> k == 0)
                && crate::render::leave_spec(done.drawn_spec(), false, fx.mutations@.skip(k)),
    {
        self.history_search = None;
        self.editor.break_undo_group();
        self.remove_completion();
        self.invalidate_validation();
        let ghost mid = *self;
        let mut fx = self.flush();
        let ghost k = fx.mutations@.len() as int;
        let ghost out0 = fx.mutations@;
        let ghost done = *self;
        if let Some(mut s) = self.surface.take() {
            let ghost f = s.renderer.spec_frame();
            let mut left = s.renderer.leave(false);
            let ghost l = left@;
            fx.mutations.append(&mut left);
            proof {
                assert(fx.mutations@.skip(k) =~= l);
                assert(fx.mutations@.take(k) =~= out0);
                assert(crate::render::leave_spec(done.drawn_spec(), false, fx.mutations@.skip(k)));
            }
        }
        fx
    }

    /// Forget the surface without drawing, after a transport failure.
    pub fn abandon(&mut self)
        requires
            old(self).wf(),
        ensures
            final(self).wf(),
            keeps_coherence(old(self), final(self)),
            !final(self).open_spec(),
            !final(self).searching(),
            final(self).pending_spec() is None,
            final(self).ed() == old(self).ed(),
    {
        self.history_search = None;
        self.invalidate_validation();
        self.surface = None;
    }

    /// Replace a grapheme-aligned range of the draft on behalf of the host.
    pub fn complete(&mut self, range: Range<usize>, text: &str) -> (r: Result<Effects, Error>)
        requires
            old(self).wf(),
            old(self).ed().rev() < u128::MAX,
        ensures
            final(self).wf(),
            keeps_coherence(old(self), final(self)),
            !old(self).open_spec() ==> (r matches Err(e) && e is State) && *final(self) == *old(self),
            old(self).open_spec() ==> match r {
                Ok(_) => crate::editor::replace_error(old(self).ed().bytes(), old(self).ed().cap() as int,
                    range.start as int, range.end as int, text@) is None && old(self).ed().replaced(&final(self).ed(),
                    range.start as int, range.end as int, text@),
                Err(e) => (e matches Error::Edit(x) && crate::editor::replace_error(old(self).ed().bytes(),
                    old(self).ed().cap() as int, range.start as int, range.end as int, text@) == Some(x))
                    && old(self).ed().same_draft(&final(self).ed()),
            },
            final(self).open_spec() == old(self).open_spec(),
    {
        if self.surface.is_none() {
            return Err(Error::State);
        }
        let revision = self.editor.revision();
        match self.editor.replace(range, text) {
            Ok(()) => {},
            Err(e) => return Err(Error::Edit(e)),
        }
        if revision != self.editor.revision() {
            self.invalidate_validation();
            self.remove_completion();
            self.remove_suggestion();
        }
        if let Some(mut s) = self.surface.take() {
            s.damage = Damage::Rebuild;
            self.surface = Some(s);
        }
        let mutations = self.redraw();
        Ok(Effects { mutations, event: None })
    }

    /// Replace a range only if the originating revision is still current.
    pub fn complete_at(&mut self, revision: DraftRevision, range: Range<usize>, text: &str) -> (r: Result<(AnalysisOutcome, Effects), Error>)
        requires
            old(self).wf(),
            old(self).ed().rev() < u128::MAX,
        ensures
            final(self).wf(),
            keeps_coherence(old(self), final(self)),
            !old(self).open_spec() ==> (r matches Err(e) && e is State) && *final(self) == *old(self),
            old(self).open_spec() && revision != old(self).ed().revision_spec() ==> (r matches Ok((o, fx))
                && o == AnalysisOutcome::Stale && no_effects(&fx)) && *final(self) == *old(self),
            old(self).open_spec() && revision == old(self).ed().revision_spec() ==> match r {
                Ok((o, _)) => o == AnalysisOutcome::Applied && crate::editor::replace_error(old(self).ed().bytes(),
                    old(self).ed().cap() as int, range.start as int, range.end as int, text@) is None
                    && old(self).ed().replaced(&final(self).ed(), range.start as int, range.end as int, text@),
                Err(e) => (e matches Error::Edit(x) && crate::editor::replace_error(old(self).ed().bytes(),
                    old(self).ed().cap() as int, range.start as int, range.end as int, text@) == Some(x))
                    && old(self).ed().same_draft(&final(self).ed()),
            },
    {
        if self.surface.is_none() {
            return Err(Error::State);
        }
        if revision != self.editor.revision() {
            return Ok((AnalysisOutcome::Stale, Effects::none()));
        }
        match self.complete(range, text) {
            Ok(fx) => Ok((AnalysisOutcome::Applied, fx)),
            Err(e) => Err(e),
        }
    }

    /// The active completion selection.
    pub fn completion_selection(&self) -> (r: Option<CompletionSelection>)
        ensures
            r == self.selection_spec(),
    {
        match &self.surface {
            Some(s) => match &s.completion {
                Some(c) => Some(c.selection()),
                None => None,
            },
            None => None,
        }
    }

    fn remove_completion(&mut self)
        requires
            old(self).wf(),
        ensures
            final(self).wf(),
            keeps_coherence(old(self), final(self)),
            final(self).ed() == old(self).ed(),
            final(self).side() == old(self).side(),
            final(self).open_spec() == old(self).open_spec(),
            final(self).size_spec() == old(self).size_spec(),
            final(self).selection_spec() is None,
            final(self).analysis_spec() == old(self).analysis_spec(),
            final(self).suggestion_spec() == old(self).suggestion_spec(),
            old(self).dirty_spec() ==> final(self).dirty_spec(),
            old(self).dirty_spec() && old(self).rebuild_pending() ==> final(self).rebuild_pending(),
            old(self).selection_spec() is Some ==> final(self).dirty_spec() && final(self).rebuild_pending(),
    {
        if let Some(mut s) = self.surface.take() {
            if s.completion.is_some() {
                s.completion = None;
                s.dirty = true;
                s.damage = Damage::Rebuild;
            }
            self.surface = Some(s);
        }
    }

    fn remove_suggestion(&mut self)
        requires
            old(self).wf(),
        ensures
            final(self).wf(),
            keeps_coherence(old(self), final(self)),
            final(self).ed() == old(self).ed(),
            final(self).side() == old(self).side(),
            final(self).open_spec() == old(self).open_spec(),
            final(self).size_spec() == old(self).size_spec(),
            final(self).selection_spec() == old(self).selection_spec(),
            final(self).analysis_spec() == old(self).analysis_spec(),
            final(self).suggestion_spec() is None,
    {
        if let Some(mut s) = self.surface.take() {
            if s.suggestion.is_some() {
                s.suggestion = None;
                s.dirty = true;
                s.damage = Damage::Rebuild;
            }
            self.surface = Some(s);
        }
    }

    /// Show a suffix suggestion for the current revision. Stale suggestions
    /// have no effect; the draft never changes.
    pub fn present_suggestion(&mut self, suggestion: Suggestion) -> (r: Result<(AnalysisOutcome, Effects), SuggestionError>)
        requires
            old(self).wf(),
        ensures
            final(self).wf(),
            keeps_coherence(old(self), final(self)),
            final(self).ed() == old(self).ed(),
            suggestion.spec_revision() != old(self).ed().revision_spec() ==> (r matches Ok((o, fx))
                && o == AnalysisOutcome::Stale && no_effects(&fx)) && *final(self) == *old(self),
            suggestion.spec_revision() == old(self).ed().revision_spec() && !old(self).open_spec() ==> (r matches Err(e)
                && e matches SuggestionError::Interaction(x) && x is State),
            r matches Ok((o, _)) && o == AnalysisOutcome::Applied ==> final(self).suggestion_spec() == Some(suggestion),
    {
        if suggestion.revision() != self.editor.revision() {
            return Ok((AnalysisOutcome::Stale, Effects::none()));
        }
        if self.surface.is_none() {
            return Err(SuggestionError::Interaction(Error::State));
        }
        match suggestion.validate(&self.editor) {
            Ok(()) => {},
            Err(e) => return Err(e),
        }
        let mut s = match self.surface.take() {
            Some(s) => s,
            None => return Err(SuggestionError::Interaction(Error::State)),
        };
        s.suggestion = Some(suggestion);
        s.dirty = true;
        s.damage = Damage::Rebuild;
        self.surface = Some(s);
        Ok((AnalysisOutcome::Applied, self.flush()))
    }

    /// Accept the suggestion as one undoable insertion, or dismiss it.
    pub fn suggestion_action(&mut self, accept: bool) -> (r: Result<(AnalysisOutcome, Effects), Error>)
        requires
            old(self).wf(),
            old(self).ed().rev() < u128::MAX,
        ensures
            final(self).wf(),
            keeps_coherence(old(self), final(self)),
            old(self).suggestion_spec() is None ==> (r matches Err(e) && e is State) && *final(self) == *old(self),
            suggestion_outcome(old(self), final(self), accept, match r {
                Ok((_, fx)) => Ok::<Effects, Error>(fx),
                Err(e) => Err(e),
            }),
            r is Ok && r->Ok_0.0 == AnalysisOutcome::Applied ==> exists|before: Option<Frame>|
                #[trigger] final(self).shows(before, r->Ok_0.1.mutations@),
            match r {
                Ok((o, _)) => o == AnalysisOutcome::Applied && !accept ==> old(self).ed().same_draft(&final(self).ed())
                    && final(self).suggestion_spec() is None,
                Err(_) => true,
            },
            match old(self).suggestion_spec() {
                Some(s) => s.spec_revision() != old(self).ed().revision_spec() ==> (r matches Ok((o, fx))
                    && o == AnalysisOutcome::Stale && no_effects(&fx)) && *final(self) == *old(self),
                None => true,
            },
            match old(self).suggestion_spec() {
                Some(g) => g.spec_revision() == old(self).ed().revision_spec() && !accept ==> (r matches Ok((o, _))
                    && o == AnalysisOutcome::Applied),
                None => true,
            },
            match old(self).suggestion_spec() {
                Some(g) => g.spec_revision() == old(self).ed().revision_spec() && accept && old(self).diagnostics_spec() is Some
                    ==> (r matches Err(e) && e is State) && *final(self) == *old(self),
                None => true,
            },
            match old(self).suggestion_spec() {
                Some(g) => g.spec_revision() == old(self).ed().revision_spec() && accept && old(self).diagnostics_spec() is None
                    ==> match r {
                    Ok((o, _)) => o == AnalysisOutcome::Applied && crate::editor::replace_error(old(self).ed().bytes(),
                        old(self).ed().cap() as int, old(self).ed().pos(), old(self).ed().pos(), g.spec_text()) is None
                        && old(self).ed().replaced(&final(self).ed(), old(self).ed().pos(), old(self).ed().pos(), g.spec_text())
                        && final(self).suggestion_spec() is None
                        && (crate::text::bytes_of(g.spec_text()).len() > 0 && 2 * old(self).ed().cap() <= usize::MAX
                        ==> final(self).ed().undo_count() > 0 && final(self).ed().undo_top() == (crate::editor::RecView {
                            start: old(self).ed().pos(),
                            removed: Seq::empty(),
                            inserted: crate::text::bytes_of(g.spec_text()),
                            before: old(self).ed().pos(),
                            after: final(self).ed().pos(),
                        })),
                    Err(e) => (e matches Error::Edit(x) && crate::editor::replace_error(old(self).ed().bytes(),
                        old(self).ed().cap() as int, old(self).ed().pos(), old(self).ed().pos(), g.spec_text()) == Some(x))
                        && old(self).ed().same_draft(&final(self).ed()),
                },
                None => true,
            },
    {
        let (rev, text) = match self.suggestion() {
            Some(s) => (s.revision(), s.text().to_owned()),
            None => return Err(Error::State),
        };
        if rev != self.editor.revision() {
            return Ok((AnalysisOutcome::Stale, Effects::none()));
        }
        let diagnostics_shown = match &self.validation {
            Some(v) => v.diagnostics.is_some(),
            None => false,
        };
        if accept && diagnostics_shown {
            return Err(Error::State);
        }
        if accept {
            match self.editor.insert_transaction(text.as_str()) {
                Ok(()) => {},
                Err(e) => return Err(Error::Edit(e)),
            }
            self.remove_suggestion();
            self.invalidate_validation();
            self.remove_completion();
        } else {
            self.remove_suggestion();
        }
        self.invalidate();
        Ok((AnalysisOutcome::Applied, self.flush()))
    }

    /// Install a completion set for the current revision after validating every
    /// candidate against the draft. An empty set dismisses. The draft never changes.
    pub fn present_completions(&mut self, set: CompletionSet) -> (r: Result<(AnalysisOutcome, Effects), CompletionError>)
        requires
            old(self).wf(),
        ensures
            final(self).wf(),
            keeps_coherence(old(self), final(self)),
            final(self).ed() == old(self).ed(),
            !old(self).open_spec() ==> (r matches Err(e) && e matches CompletionError::Interaction(x) && x is State)
                && *final(self) == *old(self),
            old(self).open_spec() && set.spec_revision() != old(self).ed().revision_spec() ==> (r matches Ok((o, fx))
                && o == AnalysisOutcome::Stale && no_effects(&fx)) && *final(self) == *old(self),
            r is Err ==> final(self).selection_spec() == old(self).selection_spec(),
            r is Ok && r->Ok_0.0 == AnalysisOutcome::Applied && set.spec_candidates().len() > 0 ==> exists|before: Option<Frame>|
                #[trigger] final(self).shows(before, r->Ok_0.1.mutations@),
            r matches Ok((o, _)) && o == AnalysisOutcome::Applied ==> final(self).selection_spec() == (if set.spec_candidates().len() == 0 {
                None::<CompletionSelection>
            } else {
                Some(CompletionSelection { revision: set.spec_revision(), index: 0, count: set.spec_candidates().len() as usize })
            }),
            r matches Ok((o, _)) && o == AnalysisOutcome::Applied ==> set.fits(old(self).ed().bytes(), old(self).ed().cap() as int),
            old(self).open_spec() && set.spec_revision() == old(self).ed().revision_spec() && old(self).searching() ==> (r matches Err(
                e) && e matches CompletionError::Interaction(x) && x is State) && *final(self) == *old(self),
            old(self).open_spec() && set.spec_revision() == old(self).ed().revision_spec() && !old(self).searching() ==> {
                &&& (r matches Ok((o, _)) && o == AnalysisOutcome::Applied) == (set.spec_candidates().len()
                    <= crate::completion::MAX_COMPLETION_CANDIDATES && set.fits(old(self).ed().bytes(), old(self).ed().cap() as int))
                &&& (set.spec_candidates().len() <= crate::completion::MAX_COMPLETION_CANDIDATES && !set.fits(old(self).ed().bytes(),
                    old(self).ed().cap() as int) ==> (r matches Err(e) && e is Edit))
                &&& (r is Ok ==> final(self).diagnostics_spec() is None && final(self).open_spec()
                    && final(self).analysis_spec() == old(self).analysis_spec())
            },
    {
        if self.surface.is_none() {
            return Err(CompletionError::Interaction(Error::State));
        }
        if set.revision() != self.editor.revision() {
            return Ok((AnalysisOutcome::Stale, Effects::none()));
        }
        if self.history_search.is_some() {
            return Err(CompletionError::Interaction(Error::State));
        }
        if set.candidates().len() > crate::completion::MAX_COMPLETION_CANDIDATES {
            return Err(CompletionError::Limit);
        }
        match set.validate(&self.editor) {
            Ok(()) => {},
            Err(e) => return Err(e),
        }
        self.clear_diagnostics();
        self.remove_completion();
        if set.candidates().len() > 0 {
            let mut s = match self.surface.take() {
                Some(s) => s,
                None => return Err(CompletionError::Interaction(Error::State)),
            };
            s.completion = Some(ActiveCompletion { set, selected: 0 });
            s.dirty = true;
            s.damage = Damage::Rebuild;
            self.surface = Some(s);
        }
        Ok((AnalysisOutcome::Applied, self.flush()))
    }

    /// Navigate, accept or dismiss the active completion menu.
    #[verifier::rlimit(40)]
    #[verifier::spinoff_prover]
    pub fn completion_action(&mut self, action: CompletionAction) -> (r: Result<(AnalysisOutcome, Effects), Error>)
        requires
            old(self).wf(),
            old(self).ed().rev() < u128::MAX,
        ensures
            final(self).wf(),
            keeps_coherence(old(self), final(self)),
            old(self).selection_spec() is None ==> (r matches Err(e) && e is State) && *final(self) == *old(self),
            r matches Ok((_, fx)) ==> fx.event is None && final(self).open_spec() == old(self).open_spec(),
            r is Ok && r->Ok_0.0 == AnalysisOutcome::Applied ==> exists|before: Option<Frame>|
                #[trigger] final(self).shows(before, r->Ok_0.1.mutations@),
            match old(self).selection_spec() {
                Some(s) => s.revision == old(self).ed().revision_spec() && action != CompletionAction::Accept
                    && action != CompletionAction::Dismiss ==> r is Ok && old(self).ed() == final(self).ed()
                    && final(self).selection_spec() == Some(CompletionSelection {
                        revision: s.revision,
                        index: navigated(s.index as int, s.count as int, action, page_rows(old(self).size_spec().1, s.count as int)) as usize,
                        count: s.count,
                    }),
                None => true,
            },
            match old(self).selected_candidate() {
                Some(c) => old(self).selection_spec().unwrap().revision == old(self).ed().revision_spec()
                    && action == CompletionAction::Accept ==> match r {
                    Ok(_) => crate::editor::replace_error(old(self).ed().bytes(), old(self).ed().cap() as int,
                        c.spec_start() as int, c.spec_end() as int, c.spec_replacement()) is None
                        && old(self).ed().replaced(&final(self).ed(), c.spec_start() as int, c.spec_end() as int,
                        c.spec_replacement()) && final(self).selection_spec() is None,
                    Err(e) => (e matches Error::Edit(x) && crate::editor::replace_error(old(self).ed().bytes(),
                        old(self).ed().cap() as int, c.spec_start() as int, c.spec_end() as int, c.spec_replacement())
                        == Some(x)) && old(self).ed().same_draft(&final(self).ed()),
                },
                None => true,
            },
            match old(self).selection_spec() {
                Some(s) => s.revision == old(self).ed().revision_spec() && action == CompletionAction::Dismiss ==> r is Ok
                    && old(self).ed() == final(self).ed() && final(self).selection_spec() is None,
                None => true,
            },
    {
        let mut s = match self.surface.take() {
            Some(s) => s,
            None => return Err(Error::State),
        };
        let mut c = match s.completion.take() {
            Some(c) => c,
            None => {
                self.surface = Some(s);
                return Err(Error::State);
            },
        };
        if c.set.revision() != self.editor.revision() {
            s.completion = Some(c);
            self.surface = Some(s);
            return Ok((AnalysisOutcome::Stale, Effects::none()));
        }
        match action {
            CompletionAction::Accept => {
                let candidate = c.candidate();
                let range = candidate.range();
                let replacement = candidate.replacement().to_owned();
                let revision = self.editor.revision();
                let set_revision = c.set.revision();
                s.completion = Some(c);
                self.surface = Some(s);
                match self.editor.replace_at(set_revision, range, replacement.as_str()) {
                    Ok(_) => {},
                    Err(e) => return Err(Error::Edit(e)),
                }
                if self.editor.revision() != revision {
                    self.invalidate_validation();
                    self.remove_suggestion();
                }
                self.remove_completion();
            },
            CompletionAction::Dismiss => {
                s.completion = None;
                self.surface = Some(s);
            },
            _ => {
                let page = c.page_size(s.size.1);
                c.navigate(action, page);
                s.completion = Some(c);
                self.surface = Some(s);
            },
        }
        self.invalidate();
        Ok((AnalysisOutcome::Applied, self.flush()))
    }

    /// The shown analysis presentation.
    pub fn analysis_presentation(&self) -> (r: Option<&AnalysisPresentation>)
        ensures
            r == match self.analysis_spec() {
                Some(p) => Some(&p),
                None => None::<&AnalysisPresentation>,
            },
    {
        match &self.surface {
            Some(s) => match &s.analysis {
                Some(p) => Some(p),
                None => None,
            },
            None => None,
        }
    }

    fn remove_analysis(&mut self)
        requires
            old(self).wf(),
        ensures
            final(self).wf(),
            keeps_coherence(old(self), final(self)),
            final(self).ed() == old(self).ed(),
            final(self).side() == old(self).side(),
            final(self).open_spec() == old(self).open_spec(),
            final(self).size_spec() == old(self).size_spec(),
            final(self).selection_spec() == old(self).selection_spec(),
            final(self).analysis_spec() is None,
            final(self).suggestion_spec() == old(self).suggestion_spec(),
            old(self).dirty_spec() ==> final(self).dirty_spec(),
            old(self).dirty_spec() && old(self).rebuild_pending() ==> final(self).rebuild_pending(),
            old(self).analysis_spec() is Some ==> final(self).dirty_spec() && final(self).rebuild_pending(),
    {
        if let Some(mut s) = self.surface.take() {
            if s.analysis.is_some() {
                s.analysis = None;
                s.dirty = true;
                s.damage = Damage::Rebuild;
            }
            self.surface = Some(s);
        }
    }

    /// Replace the shown analysis for the current revision; an empty result
    /// clears it. Stale results have no effect; the draft never changes.
    pub fn present_analysis(&mut self, result: AnalysisPresentation) -> (r: Result<(AnalysisOutcome, Effects), AnalysisPresentationError>)
        requires
            old(self).wf(),
        ensures
            final(self).wf(),
            keeps_coherence(old(self), final(self)),
            final(self).ed() == old(self).ed(),
            result.spec_revision() != old(self).ed().revision_spec() ==> (r matches Ok((o, fx))
                && o == AnalysisOutcome::Stale && no_effects(&fx)) && *final(self) == *old(self),
            result.spec_revision() == old(self).ed().revision_spec() && !old(self).open_spec() ==> (r matches Err(e)
                && e matches AnalysisPresentationError::Interaction(x) && x is State),
            r is Err ==> final(self).analysis_spec() == old(self).analysis_spec(),
            r matches Ok((o, _)) && o == AnalysisOutcome::Applied ==> result.fits(old(self).ed().bytes())
                && final(self).analysis_spec() == (if result.spec_spans().len() == 0 && result.spec_hint() is None {
                    None::<AnalysisPresentation>
                } else {
                    Some(result)
                }),
            result.spec_revision() == old(self).ed().revision_spec() && old(self).open_spec() ==> (r matches Ok((o, _))
                && o == AnalysisOutcome::Applied) == result.fits(old(self).ed().bytes()),
            result.spec_revision() == old(self).ed().revision_spec() && old(self).open_spec()
                && !result.fits(old(self).ed().bytes()) ==> (r matches Err(e)
                && e == AnalysisPresentationError::Edit(EditError::InvalidRange)),
            r is Ok && r->Ok_0.0 == AnalysisOutcome::Applied ==> exists|before: Option<Frame>|
                #[trigger] final(self).shows(before, r->Ok_0.1.mutations@),
    {
        if result.revision() != self.editor.revision() {
            return Ok((AnalysisOutcome::Stale, Effects::none()));
        }
        if self.surface.is_none() {
            return Err(AnalysisPresentationError::Interaction(Error::State));
        }
        match result.validate(&self.editor) {
            Ok(()) => {},
            Err(e) => return Err(e),
        }
        let mut s = match self.surface.take() {
            Some(s) => s,
            None => return Err(AnalysisPresentationError::Interaction(Error::State)),
        };
        s.analysis = if result.is_empty() { None } else { Some(result) };
        s.dirty = true;
        s.damage = Damage::Rebuild;
        self.surface = Some(s);
        Ok((AnalysisOutcome::Applied, self.flush()))
    }

    /// With validated submission, spaces from the cursor's logical-line prefix
    /// to the next four-cell stop when that prefix is only spaces and tabs on a
    /// continuation line; otherwise nothing.
    fn continuation_indent(&self) -> (r: Option<usize>)
        requires
            self.wf(),
        ensures
            r matches Some(n) ==> 1 <= n <= 4,
            self.validation is None ==> r is None,
            self.validation is Some ==> match continuation_indent_spec(self.ed().bytes(), self.ed().pos()) {
                Some(n) => r == Some(n as usize),
                None => r is None,
            },
    {
        if self.validation.is_none() {
            return None;
        }
        let b = self.editor.text().as_bytes();
        let c = self.editor.cursor();
        proof { self.editor.lemma_wf_facts(); }
        let ghost bs = self.ed().bytes();
        assert(b@ == bs);
        let mut k = c;
        while k > 0 && b[k - 1] != 10
            invariant
                k <= c <= b@.len(),
                b@ == bs,
                crate::editor::line_start(bs, k as int) == crate::editor::line_start(bs, c as int),
            decreases k,
        {
            k -= 1;
        }
        assert(crate::editor::line_start(bs, k as int) == k);
        if k == 0 {
            return None;
        }
        let mut remainder: usize = 0;
        let mut i = k;
        while i < c
            invariant
                k <= i <= c <= b@.len(),
                b@ == bs,
                k > 0,
                bs == self.ed().bytes(),
                c == self.ed().pos(),
                crate::editor::line_start(bs, c as int) == k,
                remainder < 4,
                remainder == blank_remainder(bs, k as int, i as int),
                forall|j: int| k <= j < i ==> #[trigger] bs[j] == 0x20 || bs[j] == 9,
            decreases c - i,
        {
            if b[i] == 0x20 {
                remainder = (remainder + 1) % 4;
            } else if b[i] == 9 {
                remainder = 0;
            } else {
                assert(!(bs[i as int] == 0x20 || bs[i as int] == 9));
                assert(!(forall|j: int| k <= j < c ==> #[trigger] bs[j] == 0x20 || bs[j] == 9));
                assert(continuation_indent_spec(bs, c as int) is None);
                return None;
            }
            i += 1;
        }
        Some(4 - remainder)
    }

    /// Direct or validated submission.
    pub fn submission_policy(&self) -> (r: SubmissionPolicy)
        ensures
            r == (if self.validated() { SubmissionPolicy::Validated } else { SubmissionPolicy::Direct }),
    {
        if self.validation.is_some() {
            SubmissionPolicy::Validated
        } else {
            SubmissionPolicy::Direct
        }
    }

    /// Choose the submission policy while closed.
    pub fn set_submission_policy(&mut self, policy: SubmissionPolicy) -> (r: Result<(), Error>)
        requires
            old(self).wf(),
        ensures
            final(self).wf(),
            keeps_coherence(old(self), final(self)),
            final(self).ed() == old(self).ed(),
            old(self).open_spec() ==> (r matches Err(e) && e is State) && *final(self) == *old(self),
            !old(self).open_spec() ==> r is Ok && final(self).validated() == (policy == SubmissionPolicy::Validated)
                && final(self).pending_spec() is None && final(self).diagnostics_spec() is None,
    {
        if self.surface.is_some() {
            return Err(Error::State);
        }
        self.validation = match policy {
            SubmissionPolicy::Direct => None,
            SubmissionPolicy::Validated => Some(ValidationState::new()),
        };
        Ok(())
    }

    /// Diagnostics shown for the current revision.
    pub fn diagnostics(&self) -> (r: Option<&[Diagnostic]>)
        ensures
            match self.diagnostics_spec() {
                Some(d) => r matches Some(x) && x@ == d,
                None => r is None,
            },
    {
        match &self.validation {
            Some(v) => match &v.diagnostics {
                Some(d) => Some(d.as_slice()),
                None => None,
            },
            None => None,
        }
    }

    /// Remove shown diagnostics; whether there were any.
    fn clear_diagnostics(&mut self) -> (removed: bool)
        requires
            old(self).wf(),
        ensures
            final(self).wf(),
            keeps_coherence(old(self), final(self)),
            final(self).ed() == old(self).ed(),
            final(self).history_search == old(self).history_search,
            final(self).history_source == old(self).history_source,
            final(self).open_spec() == old(self).open_spec(),
            final(self).size_spec() == old(self).size_spec(),
            final(self).selection_spec() == old(self).selection_spec(),
            final(self).analysis_spec() == old(self).analysis_spec(),
            final(self).suggestion_spec() == old(self).suggestion_spec(),
            final(self).validated() == old(self).validated(),
            final(self).pending_spec() == old(self).pending_spec(),
            final(self).diagnostics_spec() is None,
            removed == old(self).diagnostics_spec() is Some,
            old(self).dirty_spec() ==> final(self).dirty_spec(),
            old(self).dirty_spec() && old(self).rebuild_pending() ==> final(self).rebuild_pending(),
            old(self).diagnostics_spec() is Some && old(self).open_spec() ==> final(self).dirty_spec() && final(self).rebuild_pending(),
    {
        let removed = match self.validation.take() {
            Some(mut v) => {
                let had = v.diagnostics.is_some();
                v.diagnostics = None;
                self.validation = Some(v);
                had
            },
            None => false,
        };
        if removed {
            self.invalidate();
        }
        removed
    }

    /// Drop analysis, diagnostics and any pending request: the draft changed.
    fn invalidate_validation(&mut self)
        requires
            old(self).wf(),
        ensures
            final(self).wf(),
            keeps_coherence(old(self), final(self)),
            final(self).ed() == old(self).ed(),
            final(self).history_search == old(self).history_search,
            final(self).history_source == old(self).history_source,
            final(self).open_spec() == old(self).open_spec(),
            final(self).size_spec() == old(self).size_spec(),
            final(self).selection_spec() == old(self).selection_spec(),
            final(self).analysis_spec() is None,
            final(self).suggestion_spec() == old(self).suggestion_spec(),
            final(self).validated() == old(self).validated(),
            final(self).pending_spec() is None,
            final(self).diagnostics_spec() is None,
            old(self).dirty_spec() ==> final(self).dirty_spec(),
            old(self).dirty_spec() && old(self).rebuild_pending() ==> final(self).rebuild_pending(),
            (old(self).analysis_spec() is Some || (old(self).diagnostics_spec() is Some && old(self).open_spec())) ==> final(self).dirty_spec() && final(self).rebuild_pending(),
    {
        self.remove_analysis();
        self.clear_diagnostics();
        if let Some(mut v) = self.validation.take() {
            v.pending = None;
            self.validation = Some(v);
        }
    }

    /// Deliver the host's decision on a pending Enter request: submit, continue
    /// on a new line, or show diagnostics. Stale decisions have no effect.
    pub fn apply_validation(&mut self, result: ValidationResult) -> (r: Result<(AnalysisOutcome, Effects), ValidationError>)
        requires
            old(self).wf(),
            old(self).ed().rev() < u128::MAX,
        ensures
            final(self).wf(),
            keeps_coherence(old(self), final(self)),
            result.spec_revision() != old(self).ed().revision_spec() ==> (r matches Ok((o, fx))
                && o == AnalysisOutcome::Stale && no_effects(&fx)) && *final(self) == *old(self),
            result.spec_revision() == old(self).ed().revision_spec() && !old(self).open_spec() ==> (r matches Err(e)
                && e matches ValidationError::Interaction(x) && x is State) && *final(self) == *old(self),
            result.spec_revision() == old(self).ed().revision_spec() && old(self).open_spec() && old(self).pending_spec()
                != Some(result.spec_revision()) ==> (r matches Err(e) && e is NoRequest) && *final(self) == *old(self),
            r is Err ==> old(self).ed().same_draft(&final(self).ed()),
            match r {
                Ok((o, fx)) => o == AnalysisOutcome::Applied ==> match result.spec_disposition() {
                    ValidationDisposition::Complete => (fx.event matches Some(Event::Submitted(t)) && t@ == old(self).ed().chars())
                        && !final(self).open_spec(),
                    ValidationDisposition::Incomplete => final(self).open_spec() && fx.event is None
                        && old(self).ed().replaced(&final(self).ed(), old(self).ed().pos(), old(self).ed().pos(), "\n"@),
                    ValidationDisposition::Invalid(ds) => final(self).open_spec() && fx.event is None
                        && old(self).ed().same_draft(&final(self).ed()) && final(self).diagnostics_spec() == Some(ds@)
                        && final(self).pending_spec() is None,
                },
                Err(_) => true,
            },
            result.spec_revision() == old(self).ed().revision_spec() && old(self).open_spec() && old(self).pending_spec()
                == Some(result.spec_revision()) ==> match result.spec_disposition() {
                ValidationDisposition::Complete => r matches Ok((o, _)) && o == AnalysisOutcome::Applied,
                ValidationDisposition::Incomplete => (r matches Ok((o, _)) && o == AnalysisOutcome::Applied)
                    == (crate::editor::replace_error(old(self).ed().bytes(), old(self).ed().cap() as int, old(self).ed().pos(),
                    old(self).ed().pos(), "\n"@) is None),
                ValidationDisposition::Invalid(ds) => if diagnostics_fit(old(self).ed().bytes(), old(self).ed().cap() as int, ds@) {
                    r matches Ok((o, _)) && o == AnalysisOutcome::Applied
                } else {
                    r == Err::<(AnalysisOutcome, Effects), ValidationError>(ValidationError::Edit(EditError::InvalidRange))
                        && *final(self) == *old(self)
                },
            },
    {
        if result.revision() != self.editor.revision() {
            return Ok((AnalysisOutcome::Stale, Effects::none()));
        }
        if self.surface.is_none() {
            return Err(ValidationError::Interaction(Error::State));
        }
        let pending = match &self.validation {
            Some(v) => v.pending,
            None => None,
        };
        if pending != Some(result.revision()) {
            return Err(ValidationError::NoRequest);
        }
        if let ValidationDisposition::Invalid(ds) = result.disposition() {
            match ranges_fit(&self.editor, ds) {
                Ok(()) => {},
                Err(e) => return Err(ValidationError::Edit(e)),
            }
        }
        let fx = match result.into_disposition() {
            ValidationDisposition::Complete => {
                let text = self.editor.text().to_owned();
                self.finish(Event::Submitted(text))
            },
            ValidationDisposition::Incomplete => {
                match self.editor.insert_transaction("\n") {
                    Ok(()) => {},
                    Err(e) => return Err(ValidationError::Edit(e)),
                }
                self.invalidate_validation();
                self.remove_suggestion();
                self.remove_completion();
                self.invalidate();
                self.flush()
            },
            ValidationDisposition::Invalid(ds) => {
                self.remove_completion();
                if let Some(mut v) = self.validation.take() {
                    v.pending = None;
                    v.diagnostics = Some(ds);
                    self.validation = Some(v);
                }
                self.invalidate();
                self.flush()
            },
        };
        Ok((AnalysisOutcome::Applied, fx))
    }

    /// Print a document above the surface, then draw the surface again below it.
    pub fn output_document(&mut self, document: &Document) -> (r: Result<Effects, Error>)
        requires
            old(self).wf(),
            document.wf(),
        ensures
            old(self).open_spec() ==> (r is Ok) == (document.laid_out(old(self).size_spec().0 as int) is Ok),
            r matches Ok(fx) ==> fx.event is None && exists|lines: Seq<crate::presentation::Line>|
                document.laid_out(old(self).size_spec().0 as int) == Ok::<Seq<Seq<Piece>>, EditError>(rows_view(lines))
                && #[trigger] Engine::output_effect(old(self), final(self), crate::document::document_mutations(lines),
                fx.mutations@),
            final(self).wf(),
            keeps_coherence(old(self), final(self)),
            final(self).ed() == old(self).ed(),
            !old(self).open_spec() ==> (r matches Err(e) && e is State) && *final(self) == *old(self),
            r is Err ==> *final(self) == *old(self),
            final(self).selection_spec() == old(self).selection_spec(),
            final(self).analysis_spec() == old(self).analysis_spec(),
            final(self).diagnostics_spec() == old(self).diagnostics_spec(),
            final(self).pending_spec() == old(self).pending_spec(),
            final(self).suggestion_spec() == old(self).suggestion_spec(),
    {
        let size = match &self.surface {
            Some(s) => s.size,
            None => return Err(Error::State),
        };
        let content = match document.mutations(size.0) {
            Ok(m) => m,
            Err(e) => return Err(Error::Edit(e)),
        };
        let ghost c = content@;
        let fx = self.output_mutations(content);
        assert(Engine::output_effect(old(self), self, c, fx.mutations@));
        Ok(fx)
    }

    /// Erase the surface, print `content` with bracketed paste off, and redraw.
    fn output_mutations(&mut self, content: Vec<Mutation>) -> (fx: Effects)
        requires
            old(self).wf(),
        ensures
            Engine::output_effect(old(self), final(self), content@, fx.mutations@),
            final(self).wf(),
            keeps_coherence(old(self), final(self)),
            final(self).ed() == old(self).ed(),
            final(self).open_spec() == old(self).open_spec(),
            final(self).size_spec() == old(self).size_spec(),
            final(self).selection_spec() == old(self).selection_spec(),
            final(self).analysis_spec() == old(self).analysis_spec(),
            final(self).suggestion_spec() == old(self).suggestion_spec(),
            final(self).validation == old(self).validation,
            final(self).history_search == old(self).history_search,
            fx.event is None,
    {
        let ghost old0 = *self;
        let mut mutations = Vec::new();
        mutations.push(Mutation::Paste(false));
        let ghost mut er: Seq<Mutation> = Seq::empty();
        if let Some(mut s) = self.surface.take() {
            let ghost s_before = s;
            let mut erased = s.renderer.erase();
            proof {
                er = erased@;
            }
            mutations.append(&mut erased);
            self.surface = Some(s);
            proof {
                assert(s.size == s_before.size && s.prompt == s_before.prompt && s.completion == s_before.completion
                    && s.analysis == s_before.analysis && s.suggestion == s_before.suggestion && s.dirty == s_before.dirty
                    && s.damage == s_before.damage);
            }
        }
        let ghost c = content@;
        let mut content = content;
        mutations.append(&mut content);
        mutations.push(Mutation::Paste(true));
        let ghost head = mutations@;
        let ghost mid = *self;
        let mut drawn = self.redraw();
        let ghost d = drawn@;
        mutations.append(&mut drawn);
        proof {
            assert(mutations@.take(head.len() as int) =~= head);
            assert(mutations@.skip(head.len() as int) =~= d);
            assert(head =~= seq![Mutation::Paste(false)] + er + c + seq![Mutation::Paste(true)]);
            if old0.surface is Some {
                assert(Engine::redraw_from(&mid, None, self, d));
                assert(Engine::redraw_from(&old0, None, self, d));
            } else {
                assert(mutations@ =~= seq![Mutation::Paste(false)] + c + seq![Mutation::Paste(true)]);
            }
        }
        Effects { mutations, event: None }
    }

    /// Print host text above the surface in `role`, then redraw.
    pub fn external_output(&mut self, role: Role, text: &str) -> (r: Result<Effects, Error>)
        requires
            old(self).wf(),
        ensures
            final(self).wf(),
            keeps_coherence(old(self), final(self)),
            final(self).ed() == old(self).ed(),
            !old(self).open_spec() ==> (r matches Err(e) && e is State) && *final(self) == *old(self),
            r is Err ==> *final(self) == *old(self),
            final(self).selection_spec() == old(self).selection_spec(),
            final(self).analysis_spec() == old(self).analysis_spec(),
            final(self).diagnostics_spec() == old(self).diagnostics_spec(),
            final(self).pending_spec() == old(self).pending_spec(),
            final(self).suggestion_spec() == old(self).suggestion_spec(),
            old(self).open_spec() ==> (r is Err) == !crate::text::spec_valid_text(crate::document::lf_normalized(text@)),
            old(self).open_spec() && r is Err ==> r == Err::<Effects, Error>(Error::Edit(EditError::InvalidText)),
            r matches Ok(fx) ==> fx.event is None && exists|content: Seq<Mutation>|
                content.map_values(|m: Mutation| crate::document::note_of(m)) == crate::document::plain_notes(role,
                crate::document::lf_normalized(text@)) && #[trigger] Engine::output_effect(old(self), final(self), content,
                fx.mutations@),
    {
        if self.surface.is_none() {
            return Err(Error::State);
        }
        let content = match plain_mutations(role, text) {
            Ok(m) => m,
            Err(e) => return Err(Error::Edit(e)),
        };
        Ok(self.output_mutations(content))
    }
}

/// Whether every entry fits an editor of capacity `cap`.
fn entries_fit(entries: &[String], cap: usize) -> (r: bool) {
    let mut i: usize = 0;
    while i < entries.len()
        invariant
            i <= entries@.len(),
        decreases entries@.len() - i,
    {
        if byte_len(entries[i].as_str()) > cap {
            return false;
        }
        i += 1;
    }
    true
}

/// Check every diagnostic range against the draft's grapheme boundaries.
fn ranges_fit(editor: &Editor, ds: &Vec<Diagnostic>) -> (r: Result<(), EditError>)
    requires
        editor.wf(),
    ensures
        r is Ok <==> diagnostics_fit(editor.bytes(), editor.cap() as int, ds@),
        r matches Err(e) ==> e == EditError::InvalidRange,
{
    proof {
        reveal_strlit("");
        editor.lemma_wf();
    }
    let mut i: usize = 0;
    while i < ds.len()
        invariant
            i <= ds@.len(),
            editor.wf(),
            forall|j: int| 0 <= j < i ==> range_fits(editor.bytes(), editor.cap() as int, #[trigger] ds@[j]),
        decreases ds@.len() - i,
    {
        proof {
            reveal_strlit("");
            assert(""@ =~= Seq::<char>::empty());
        }
        if let Some(range) = ds[i].range() {
            match editor.validate_replacement(&range, "") {
                Ok(()) => {},
                Err(e) => {
                    assert(!range_fits(editor.bytes(), editor.cap() as int, ds@[i as int]));
                    proof {
                        assert(crate::text::bytes_of(""@) =~= Seq::<u8>::empty());
                        assert(crate::text::spec_valid_text(""@));
                        assert(blen(""@) == 0);
                        editor.lemma_wf();
                        assert(e == EditError::InvalidRange);
                    }
                    return Err(e);
                },
            }
        }
        i += 1;
    }
    Ok(())
}

/// A diagnostic's range, if any, is a grapheme range of the draft `b`.
pub open spec fn range_fits(b: Seq<u8>, cap: int, d: Diagnostic) -> bool {
    match d.spec_range() {
        Some((s, e)) => crate::editor::replace_error(b, cap, s as int, e as int, Seq::<char>::empty()) is None,
        None => true,
    }
}

/// Every diagnostic range is a grapheme range of the draft `b`.
pub open spec fn diagnostics_fit(b: Seq<u8>, cap: int, ds: Seq<Diagnostic>) -> bool {
    forall|i: int| 0 <= i < ds.len() ==> range_fits(b, cap, #[trigger] ds[i])
}

/// Whether every byte is a space or visible ASCII.
fn printable(s: &str) -> (r: bool) {
    let b = s.as_bytes();
    let mut i: usize = 0;
    while i < b.len()
        invariant
            i <= b@.len(),
        decreases b@.len() - i,
    {
        if b[i] < 0x20 || b[i] > 0x7e {
            return false;
        }
        i += 1;
    }
    true
}

} // verus!
