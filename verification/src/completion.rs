//! Bounded host completion data and its temporary selection; no discovery or scheduling.
use crate::analysis::DraftRevision;
use crate::analysis_presentation::AnalysisPresentation;
use crate::editor::{replace_error, EditError, Editor};
use crate::event::Error;
use crate::document::{pieces, rows_view, sat, Piece};
use crate::presentation::{analysis_spans, clip, clipped, draft_rows, frame_geometry, frame_rows, Frame, Line, Point, Prompt, Role, Run};
use crate::segment::{display_width, display_width_of};
use crate::text::{blen, byte_len, decimal, hidden_control, push_char, push_decimal, safe_display, spec_hidden_control,
    spec_safe_display, spec_valid_text, valid_text};
use std::ops::Range;
use vstd::prelude::*;
use vstd::string::*;

verus! {

/// Maximum candidates admitted in one result. Order and duplicates are retained.
pub const MAX_COMPLETION_CANDIDATES: usize = 4096;
/// Maximum UTF-8 bytes in any replacement, label or annotation.
pub const MAX_COMPLETION_FIELD_BYTES: usize = 65536;
/// Maximum combined UTF-8 payload, excluding bounded candidate metadata.
pub const MAX_COMPLETION_BYTES: usize = 4194304;

/// Invalid candidate data or a failure of the active terminal interaction.
#[derive(Debug)]
pub enum CompletionError {
    /// Candidate count, individual field or aggregate payload exceeds its limit.
    Limit,
    /// A label/annotation is empty where required or contains unsafe controls.
    InvalidDisplay,
    /// Replacement text, grapheme range or editor capacity is invalid.
    Edit(EditError),
    /// Lifecycle or terminal failure, with the ordinary cleanup contract.
    Interaction(Error),
}

impl CompletionError {
    /// Human-readable description of the failure.
    pub fn message(&self) -> (r: String)
        ensures
            match self {
                CompletionError::Limit => r@ == "completion payload limit exceeded"@,
                CompletionError::InvalidDisplay => r@ == "invalid completion display text"@,
                CompletionError::Edit(e) => r@ == crate::editor::edit_error_text(*e),
                CompletionError::Interaction(_) => true,
            },
    {
        match self {
            CompletionError::Limit => "completion payload limit exceeded".to_owned(),
            CompletionError::InvalidDisplay => "invalid completion display text".to_owned(),
            CompletionError::Edit(e) => e.message().to_owned(),
            CompletionError::Interaction(e) => e.message(),
        }
    }
}

/// No character of `s` is a hidden formatting control.
pub open spec fn no_hidden(s: Seq<char>) -> bool {
    forall|i: int| 0 <= i < s.len() ==> !spec_hidden_control(#[trigger] s[i])
}

fn lacks_hidden(text: &str) -> (r: bool)
    ensures
        r == no_hidden(text@),
{
    for c in it: text.chars()
        invariant
            it.seq() == text@,
            forall|j: int| 0 <= j < it.index() ==> !spec_hidden_control(#[trigger] text@[j]),
    {
        if hidden_control(c) {
            return false;
        }
    }
    true
}

/// Why a field is refused: oversized, or unsafe as display text (`display`)
/// or as editor text.
pub open spec fn field_error(text: Seq<char>, display: bool) -> Option<CompletionError> {
    if blen(text) > MAX_COMPLETION_FIELD_BYTES {
        Some(CompletionError::Limit)
    } else if display {
        if !spec_safe_display(text) { Some(CompletionError::InvalidDisplay) } else { None }
    } else {
        if !no_hidden(text) || !spec_valid_text(text) { Some(CompletionError::Edit(EditError::InvalidText)) } else { None }
    }
}

fn field(text: &str, display: bool) -> (r: Result<(), CompletionError>)
    ensures
        match r {
            Ok(()) => field_error(text@, display) is None,
            Err(e) => field_error(text@, display) == Some(e),
        },
{
    if byte_len(text) > MAX_COMPLETION_FIELD_BYTES {
        return Err(CompletionError::Limit);
    }
    if display {
        if !safe_display(text) {
            return Err(CompletionError::InvalidDisplay);
        }
    } else if !lacks_hidden(text) || !valid_text(text) {
        return Err(CompletionError::Edit(EditError::InvalidText));
    }
    Ok(())
}

/// Why a candidate is refused, checking the replacement, then the label, then the range.
pub open spec fn candidate_error(start: usize, end: usize, replacement: Seq<char>, label: Seq<char>) -> Option<CompletionError> {
    if field_error(replacement, false) is Some {
        field_error(replacement, false)
    } else if field_error(label, true) is Some {
        field_error(label, true)
    } else if label.len() == 0 {
        Some(CompletionError::InvalidDisplay)
    } else if start > end {
        Some(CompletionError::Edit(EditError::InvalidRange))
    } else {
        None
    }
}

/// One host-ordered alternative. Display and insertion are deliberately distinct.
/// Ranges are UTF-8 byte offsets in the originating snapshot, at grapheme boundaries.
/// Replacement admits LF/TAB as editor text; display fields are single-line.
#[derive(Clone, Debug, PartialEq, Eq)]
pub struct CompletionCandidate {
    start: usize,
    end: usize,
    replacement: String,
    label: String,
    annotation: Option<String>,
}

impl CompletionCandidate {
    /// Start of the replaced range.
    pub closed spec fn spec_start(&self) -> usize {
        self.start
    }

    /// End of the replaced range.
    pub closed spec fn spec_end(&self) -> usize {
        self.end
    }

    /// Inserted text.
    pub closed spec fn spec_replacement(&self) -> Seq<char> {
        self.replacement@
    }

    /// Display label.
    pub closed spec fn spec_label(&self) -> Seq<char> {
        self.label@
    }

    /// Optional explanation.
    pub closed spec fn spec_annotation(&self) -> Option<Seq<char>> {
        match self.annotation {
            Some(a) => Some(a@),
            None => None,
        }
    }

    /// Payload bytes counted against the set's aggregate bound.
    pub open spec fn payload(&self) -> int {
        blen(self.spec_replacement()) + blen(self.spec_label()) + match self.spec_annotation() {
            Some(a) => blen(a),
            None => 0,
        }
    }

    /// Validate safe text before copying. Draft-dependent range/capacity validation
    /// occurs atomically when the entire set is installed, and again on acceptance.
    pub fn new(range: Range<usize>, replacement: &str, label: &str) -> (r: Result<Self, CompletionError>)
        ensures
            match r {
                Ok(c) => candidate_error(range.start, range.end, replacement@, label@) is None && c.spec_start() == range.start
                    && c.spec_end() == range.end && c.spec_replacement() == replacement@ && c.spec_label() == label@
                    && c.spec_annotation() is None,
                Err(e) => candidate_error(range.start, range.end, replacement@, label@) == Some(e),
            },
    {
        match field(replacement, false) {
            Ok(()) => {},
            Err(e) => return Err(e),
        }
        match field(label, true) {
            Ok(()) => {},
            Err(e) => return Err(e),
        }
        if byte_len(label) == 0 {
            return Err(CompletionError::InvalidDisplay);
        }
        if range.start > range.end {
            return Err(CompletionError::Edit(EditError::InvalidRange));
        }
        Ok(CompletionCandidate {
            start: range.start,
            end: range.end,
            replacement: replacement.to_owned(),
            label: label.to_owned(),
            annotation: None,
        })
    }

    /// Add safe optional explanation. Narrow presentation may omit or ellipsize it.
    pub fn with_annotation(self, annotation: &str) -> (r: Result<Self, CompletionError>)
        ensures
            match r {
                Ok(c) => field_error(annotation@, true) is None && c.spec_start() == self.spec_start()
                    && c.spec_end() == self.spec_end() && c.spec_replacement() == self.spec_replacement()
                    && c.spec_label() == self.spec_label() && c.spec_annotation() == Some(annotation@),
                Err(e) => field_error(annotation@, true) == Some(e),
            },
    {
        match field(annotation, true) {
            Ok(()) => {},
            Err(e) => return Err(e),
        }
        let mut c = self;
        c.annotation = Some(annotation.to_owned());
        Ok(c)
    }

    /// Replacement range in the originating snapshot.
    pub fn range(&self) -> (r: Range<usize>)
        ensures
            r.start == self.spec_start(),
            r.end == self.spec_end(),
    {
        Range { start: self.start, end: self.end }
    }

    /// Exact insertion, never shortened by presentation.
    pub fn replacement(&self) -> (r: &str)
        ensures
            r@ == self.spec_replacement(),
    {
        self.replacement.as_str()
    }

    /// Safe display label, independent of insertion.
    pub fn label(&self) -> (r: &str)
        ensures
            r@ == self.spec_label(),
    {
        self.label.as_str()
    }

    /// Optional safe explanation.
    pub fn annotation(&self) -> (r: Option<&str>)
        ensures
            match r {
                Some(a) => self.spec_annotation() == Some(a@),
                None => self.spec_annotation() is None,
            },
    {
        match &self.annotation {
            Some(a) => Some(a.as_str()),
            None => None,
        }
    }

    /// Payload bytes, saturating at the largest `usize`.
    fn bytes(&self) -> (r: usize)
        ensures
            r == if self.payload() > usize::MAX { usize::MAX as int } else { self.payload() },
    {
        let a = match &self.annotation {
            Some(s) => byte_len(s.as_str()),
            None => 0,
        };
        byte_len(self.replacement.as_str()).saturating_add(byte_len(self.label.as_str())).saturating_add(a)
    }
}

/// Total payload of the first `k` candidates.
pub open spec fn payload_total(cs: Seq<CompletionCandidate>) -> int
    decreases cs.len(),
{
    if cs.len() == 0 {
        0
    } else {
        payload_total(cs.drop_last()) + cs.last().payload()
    }
}

proof fn lemma_payload_nonneg(cs: Seq<CompletionCandidate>)
    ensures
        payload_total(cs) >= 0,
    decreases cs.len(),
{
    if cs.len() > 0 {
        lemma_payload_nonneg(cs.drop_last());
    }
}

/// An immutable bounded result for one retained editor's draft revision.
/// No request ordering is inferred: explicit deliveries at the same revision replace
/// the previous presentation in delivery order. The host filters superseded jobs.
#[derive(Clone, Debug)]
pub struct CompletionSet {
    revision: DraftRevision,
    candidates: Vec<CompletionCandidate>,
}

impl CompletionSet {
    /// Originating draft identity.
    pub closed spec fn spec_revision(&self) -> DraftRevision {
        self.revision
    }

    /// Candidates in host order.
    pub closed spec fn spec_candidates(&self) -> Seq<CompletionCandidate> {
        self.candidates@
    }

    /// Whether the candidate count fits its bound.
    pub open spec fn bounded(&self) -> bool {
        self.spec_candidates().len() <= MAX_COMPLETION_CANDIDATES
    }

    /// Every candidate is a valid replacement in a draft with bytes `b` and capacity `cap`.
    pub open spec fn fits(&self, b: Seq<u8>, cap: int) -> bool {
        forall|i: int| 0 <= i < self.spec_candidates().len() ==> replace_error(b, cap,
            (#[trigger] self.spec_candidates()[i]).spec_start() as int, self.spec_candidates()[i].spec_end() as int,
            self.spec_candidates()[i].spec_replacement()) is None
    }

    /// Admit bounded data without sorting, deduplicating or inspecting meaning.
    /// Empty sets silently dismiss; every nonempty set requires explicit acceptance.
    pub fn new(revision: DraftRevision, candidates: Vec<CompletionCandidate>) -> (r: Result<Self, CompletionError>)
        ensures
            match r {
                Ok(s) => candidates@.len() <= MAX_COMPLETION_CANDIDATES && payload_total(candidates@) <= MAX_COMPLETION_BYTES
                    && s.spec_revision() == revision && s.spec_candidates() == candidates@,
                Err(e) => e is Limit && (candidates@.len() > MAX_COMPLETION_CANDIDATES
                    || payload_total(candidates@) > MAX_COMPLETION_BYTES),
            },
    {
        if candidates.len() > MAX_COMPLETION_CANDIDATES {
            return Err(CompletionError::Limit);
        }
        let mut total: usize = 0;
        let mut i: usize = 0;
        while i < candidates.len()
            invariant
                i <= candidates@.len(),
                total == if payload_total(candidates@.take(i as int)) > usize::MAX { usize::MAX as int } else {
                    payload_total(candidates@.take(i as int))
                },
            decreases candidates@.len() - i,
        {
            proof {
                assert(candidates@.take(i + 1).drop_last() =~= candidates@.take(i as int));
                lemma_payload_nonneg(candidates@.take(i as int));
            }
            total = total.saturating_add(candidates[i].bytes());
            i += 1;
        }
        assert(candidates@.take(i as int) =~= candidates@);
        if total > MAX_COMPLETION_BYTES {
            return Err(CompletionError::Limit);
        }
        Ok(CompletionSet { revision, candidates })
    }

    /// Originating draft identity, not host-context or discovery-job identity.
    pub fn revision(&self) -> (r: DraftRevision)
        ensures
            r == self.spec_revision(),
    {
        self.revision
    }

    /// Host order, including duplicates.
    pub fn candidates(&self) -> (r: &[CompletionCandidate])
        ensures
            r@ == self.spec_candidates(),
    {
        self.candidates.as_slice()
    }

    /// Check every candidate against the editor, reporting the first failure.
    pub fn validate(&self, editor: &Editor) -> (r: Result<(), CompletionError>)
        requires
            editor.wf(),
        ensures
            r is Ok <==> self.fits(editor.bytes(), editor.cap() as int),
            r matches Err(e) ==> e matches CompletionError::Edit(x) && exists|i: int| 0 <= i < self.spec_candidates().len()
                && replace_error(editor.bytes(), editor.cap() as int, (#[trigger] self.spec_candidates()[i]).spec_start() as int,
                    self.spec_candidates()[i].spec_end() as int, self.spec_candidates()[i].spec_replacement()) == Some(x),
    {
        let mut i: usize = 0;
        while i < self.candidates.len()
            invariant
                editor.wf(),
                i <= self.candidates@.len(),
                forall|j: int| 0 <= j < i ==> replace_error(editor.bytes(), editor.cap() as int,
                    (#[trigger] self.candidates@[j]).spec_start() as int, self.candidates@[j].spec_end() as int,
                    self.candidates@[j].spec_replacement()) is None,
            decreases self.candidates@.len() - i,
        {
            let c = &self.candidates[i];
            match editor.validate_replacement(&c.range(), c.replacement()) {
                Ok(()) => {},
                Err(e) => {
                    assert(self.spec_candidates()[i as int] == *c);
                    return Err(CompletionError::Edit(e));
                },
            }
            i += 1;
        }
        assert(self.candidates@ == self.spec_candidates());
        Ok(())
    }
}

/// A serialized host selection operation. These never perform candidate discovery.
#[derive(Clone, Copy, Debug, PartialEq, Eq, Structural)]
pub enum CompletionAction {
    /// Next candidate, wrapping in host order. Draft unchanged.
    Next,
    /// Previous candidate, wrapping in host order. Draft unchanged.
    Previous,
    /// Forward one visible page, stopping at the last candidate.
    PageNext,
    /// Back one visible page, stopping at the first candidate.
    PagePrevious,
    /// The first candidate.
    First,
    /// The last candidate.
    Last,
    /// Atomically apply the selected candidate if its draft is still current.
    Accept,
    /// Remove temporary presentation; draft unchanged.
    Dismiss,
}

/// Inspectable selection, with no renderer or terminal ownership.
#[derive(Clone, Copy, Debug, PartialEq, Eq, Structural)]
pub struct CompletionSelection {
    /// Originating draft revision.
    pub revision: DraftRevision,
    /// Zero-based selected candidate in the original host order.
    pub index: usize,
    /// Number of candidates, including structural duplicates.
    pub count: usize,
}

/// Rows of the completion menu (header included) on a surface of `rows` rows.
pub open spec fn menu_height(rows: usize, count: int) -> int {
    let h = if rows < 3 { 1 } else if rows - 2 > 8 { 8 } else { rows - 2 };
    if h < count + 1 { h } else { count + 1 }
}

/// Candidate rows visible at once on a surface of `rows` rows.
pub open spec fn page_rows(rows: usize, count: int) -> int {
    let h = menu_height(rows, count);
    if h > 1 { h - 1 } else { h }
}

/// The selection after `action` on `count` candidates with pages of `page` rows.
pub open spec fn navigated(selected: int, count: int, action: CompletionAction, page: int) -> int {
    match action {
        CompletionAction::Next => (selected + 1) % count,
        CompletionAction::Previous => (selected + count - 1) % count,
        CompletionAction::PageNext => if selected + page < count - 1 { selected + page } else { count - 1 },
        CompletionAction::PagePrevious => if selected > page { selected - page } else { 0 },
        CompletionAction::First => 0,
        CompletionAction::Last => count - 1,
        _ => selected,
    }
}

/// The header text of a menu: position, count and the key summary, clipped to
/// the surface less one column.
pub open spec fn menu_header(selected: int, count: int, columns: usize) -> Seq<char> {
    clipped(decimal((selected + 1) as nat) + " / "@ + decimal(count as nat) + "  Tab next \u{b7} Enter accept \u{b7} Esc dismiss"@,
        if columns > 0 { columns - 1 } else { 0 })
}

/// A menu header shows the selection's one-based position and the candidate
/// count as decimal numerals, `position / count`, before the key summary,
/// clipped to the surface less one column: the first candidate reads as 1 and
/// the last as the count.
pub proof fn law_menu_header_position(selected: int, count: int, columns: usize)
    requires
        0 <= selected < count,
    ensures
        exists|a: Seq<char>, b: Seq<char>|
            #![trigger crate::text::is_numeral(a), crate::text::is_numeral(b)]
            crate::text::is_numeral(a) && crate::text::is_numeral(b)
            && crate::text::numeral_value(a) == selected + 1 && crate::text::numeral_value(b) == count
            && 1 <= crate::text::numeral_value(a) <= crate::text::numeral_value(b)
            && menu_header(selected, count, columns) == clipped(a + " / "@ + b
                + "  Tab next \u{b7} Enter accept \u{b7} Esc dismiss"@, if columns > 0 { columns - 1 } else { 0 }),
{
    crate::text::lemma_decimal_reads_back((selected + 1) as nat);
    crate::text::lemma_decimal_reads_back(count as nat);
    let a = decimal((selected + 1) as nat);
    let b = decimal(count as nat);
    assert(crate::text::is_numeral(a) && crate::text::is_numeral(b));
}

/// Index of the first candidate on the page holding `selected`.
pub open spec fn page_first(selected: int, visible: int) -> int {
    (selected / visible) * visible
}

/// The widest label among candidates `first..k`.
pub open spec fn widest_label(cands: Seq<CompletionCandidate>, first: int, k: int) -> int
    decreases k - first,
{
    if k <= first {
        0
    } else {
        let w = display_width_of(cands[k - 1].spec_label()) as int;
        let prev = widest_label(cands, first, k - 1);
        if w > prev { w } else { prev }
    }
}

/// The annotation a candidate shows: a nonempty one on a surface of at least 40 columns.
pub open spec fn shown_annotation(c: CompletionCandidate, columns: usize) -> Option<Seq<char>> {
    match c.spec_annotation() {
        Some(a) => if blen(a) > 0 && columns >= 40 { Some(a) } else { None },
        None => None,
    }
}

/// The row of candidate `c` and its width: a marker for the selection, the
/// label clipped to its room, and an aligned, clipped annotation when shown.
pub open spec fn candidate_row(c: CompletionCandidate, chosen: bool, widest: int, columns: usize) -> (Seq<Piece>, int) {
    let room: int = if columns > 3 { columns - 3 } else { 0 };
    let ann = shown_annotation(c, columns);
    let label_room: int = if ann is Some { if widest < room / 2 { widest } else { room / 2 } } else { room };
    let label = clipped(c.spec_label(), label_room);
    let label_width = display_width_of(label) as int;
    let head = seq![Piece::Style(if chosen { Role::Accent } else { Role::Default }),
        Piece::Text((if chosen { "> "@ } else { "  "@ }) + label)];
    match ann {
        Some(a) => {
            let gap = (if label_room > label_width { label_room - label_width } else { 0 }) + 2;
            let rest: int = if room > label_room + 2 { room - (label_room + 2) } else { 0 };
            let text = clipped(a, rest);
            (head + seq![Piece::Style(Role::Dim), Piece::Text(Seq::new(gap as nat, |_i: int| ' ') + text),
                Piece::Style(Role::Default)],
                sat(sat(sat(label_width + 2) + gap) + display_width_of(text)))
        },
        None => (head + seq![Piece::Style(Role::Default)], sat(label_width + 2)),
    }
}

/// Menu rows below the draft: the header when there is room for one, then
/// the candidates of the selected page, with their widths.
#[verifier::opaque]
pub open spec fn menu_rows(cands: Seq<CompletionCandidate>, selected: int, size: (usize, usize)) -> (Seq<Seq<Piece>>, Seq<usize>) {
    let count = cands.len() as int;
    let height = menu_height(size.1, count);
    let header = height > 1;
    let visible = if header { height - 1 } else { height };
    let first = page_first(selected, visible);
    let end = if first + visible < count { first + visible } else { count };
    let widest = widest_label(cands, first, end);
    let head_text = menu_header(selected, count, size.0);
    let head_rows: Seq<Seq<Piece>> = if header {
        seq![seq![Piece::Style(Role::Dim), Piece::Text(head_text), Piece::Style(Role::Default)]]
    } else {
        Seq::empty()
    };
    let head_widths: Seq<usize> = if header { seq![display_width_of(head_text)] } else { Seq::empty() };
    let body = Seq::new((end - first) as nat, |i: int| candidate_row(cands[first + i], first + i == selected, widest, size.0));
    (head_rows + body.map_values(|r: (Seq<Piece>, int)| r.0), head_widths + body.map_values(|r: (Seq<Piece>, int)| r.1 as usize))
}

/// Rows of the surface left to the draft below a menu of `actual` rows.
pub open spec fn draft_surface(rows: usize, actual: int) -> usize {
    if rows > actual && rows - actual > 2 { (rows - actual) as usize } else { 2 }
}

/// One candidate's menu row and its width.
fn candidate_line(c: &CompletionCandidate, chosen: bool, widest: usize, columns: usize) -> (r: (Line, usize))
    ensures
        pieces(r.0) == candidate_row(*c, chosen, widest as int, columns).0,
        r.1 as int == candidate_row(*c, chosen, widest as int, columns).1,
{
    let room = if columns > 3 { columns - 3 } else { 0 };
    let annotation: Option<&str> = match &c.annotation {
        Some(a) => if byte_len(a.as_str()) > 0 && columns >= 40 { Some(a.as_str()) } else { None },
        None => None,
    };
    assert(shown_annotation(*c, columns) == match annotation { Some(a) => Some(a@), None => None::<Seq<char>> });
    let label_room = if annotation.is_some() {
        if widest < room / 2 { widest } else { room / 2 }
    } else {
        room
    };
    let label = clip(c.label.as_str(), label_room);
    let label_width = display_width(label.as_str());
    let mut shown = String::new();
    proof {
        reveal_strlit("> ");
        reveal_strlit("  ");
    }
    shown.append(if chosen { "> " } else { "  " });
    shown.append(label.as_str());
    let mut runs = Vec::new();
    runs.push(Run::Style(if chosen { Role::Accent } else { Role::Default }));
    runs.push(Run::Text(shown));
    let mut width = label_width.saturating_add(2);
    if let Some(a) = annotation {
        let gap = (if label_room > label_width { label_room - label_width } else { 0 }) + 2;
        let rest = if room > label_room + 2 { room - (label_room + 2) } else { 0 };
        let text = clip(a, rest);
        width = width.saturating_add(gap).saturating_add(display_width(text.as_str()));
        let mut note = String::new();
        push_spaces(&mut note, gap);
        note.append(text.as_str());
        runs.push(Run::Style(Role::Dim));
        runs.push(Run::Text(note));
    }
    runs.push(Run::Style(Role::Default));
    let line = Line(runs);
    assert(pieces(line) =~= candidate_row(*c, chosen, widest as int, columns).0);
    (line, width)
}

/// The `i`th candidate row of a menu page.
proof fn lemma_menu_row(cands: Seq<CompletionCandidate>, selected: int, size: (usize, usize), i: int)
    requires
        cands.len() > 0,
        0 <= selected < cands.len(),
        0 <= i,
        ({
            let count = cands.len() as int;
            let height = menu_height(size.1, count);
            let visible = if height > 1 { height - 1 } else { height };
            let first = page_first(selected, visible);
            let end = if first + visible < count { first + visible } else { count };
            first + i < end
        }),
    ensures
        ({
            let count = cands.len() as int;
            let height = menu_height(size.1, count);
            let h: int = if height > 1 { 1 } else { 0 };
            let visible = if height > 1 { height - 1 } else { height };
            let first = page_first(selected, visible);
            let end = if first + visible < count { first + visible } else { count };
            let m = menu_rows(cands, selected, size);
            let cr = candidate_row(cands[first + i], first + i == selected, widest_label(cands, first, end), size.0);
            &&& m.0[h + i] == cr.0
            &&& m.1[h + i] == cr.1 as usize
            &&& m.0.len() == h + (end - first)
            &&& m.1.len() == h + (end - first)
        }),
{
    reveal(menu_rows);
}

/// The shape of a menu: its row count, and its header row when there is one.
proof fn lemma_menu_head(cands: Seq<CompletionCandidate>, selected: int, size: (usize, usize))
    requires
        cands.len() > 0,
        0 <= selected < cands.len(),
    ensures
        ({
            let count = cands.len() as int;
            let height = menu_height(size.1, count);
            let h: int = if height > 1 { 1 } else { 0 };
            let visible = if height > 1 { height - 1 } else { height };
            let first = page_first(selected, visible);
            let end = if first + visible < count { first + visible } else { count };
            let m = menu_rows(cands, selected, size);
            let text = menu_header(selected, count, size.0);
            &&& m.0.len() == h + (end - first)
            &&& m.1.len() == h + (end - first)
            &&& h == 1 ==> m.0[0] == seq![Piece::Style(Role::Dim), Piece::Text(text), Piece::Style(Role::Default)]
                && m.1[0] == display_width_of(text)
        }),
{
    reveal(menu_rows);
    let count = cands.len() as int;
    let height = menu_height(size.1, count);
    let visible = if height > 1 { height - 1 } else { height };
    assert(visible >= 1);
    assert(page_first(selected, visible) <= selected) by (nonlinear_arith)
        requires visible >= 1, selected >= 0, page_first(selected, visible) == (selected / visible) * visible;
}

/// Moving to the next candidate and then to the previous one returns to the
/// same selection, and so does the reverse.
pub proof fn law_next_previous_inverse(selected: int, count: int, page: int)
    requires
        0 <= selected < count,
    ensures
        navigated(navigated(selected, count, CompletionAction::Next, page), count, CompletionAction::Previous, page) == selected,
        navigated(navigated(selected, count, CompletionAction::Previous, page), count, CompletionAction::Next, page) == selected,
{
    let n1 = (selected + 1) % count;
    if selected + 1 < count {
        assert(n1 == selected + 1) by (nonlinear_arith)
            requires n1 == (selected + 1) % count, 0 <= selected + 1 < count;
        assert((n1 + count - 1) % count == selected) by (nonlinear_arith)
            requires n1 == selected + 1, 0 <= selected < count;
    } else {
        assert(n1 == 0) by (nonlinear_arith)
            requires n1 == (selected + 1) % count, selected + 1 == count, count > 0;
        assert((n1 + count - 1) % count == selected) by (nonlinear_arith)
            requires n1 == 0, selected == count - 1, count > 0;
    }
    let p1 = (selected + count - 1) % count;
    if selected > 0 {
        assert(p1 == selected - 1) by (nonlinear_arith)
            requires p1 == (selected + count - 1) % count, 0 < selected < count;
        assert((p1 + 1) % count == selected) by (nonlinear_arith)
            requires p1 == selected - 1, 0 < selected < count;
    } else {
        assert(p1 == count - 1) by (nonlinear_arith)
            requires p1 == (selected + count - 1) % count, selected == 0, count > 0;
        assert((p1 + 1) % count == selected) by (nonlinear_arith)
            requires p1 == count - 1, selected == 0, count > 0;
    }
}

/// A nonempty installed set and its selected candidate.
pub struct ActiveCompletion {
    /// The installed set.
    pub set: CompletionSet,
    /// Selected index in host order.
    pub selected: usize,
}

fn push_spaces(s: &mut String, n: usize)
    ensures
        final(s)@ == old(s)@ + Seq::new(n as nat, |_i: int| ' '),
{
    let mut i: usize = 0;
    while i < n
        invariant
            i <= n,
            s@ == old(s)@ + Seq::new(i as nat, |_i: int| ' '),
        decreases n - i,
    {
        push_char(s, ' ');
        i += 1;
        assert(s@ =~= old(s)@ + Seq::new(i as nat, |_i: int| ' '));
    }
}

impl ActiveCompletion {
    /// The selection lies within a nonempty set of bounded size.
    pub open spec fn wf(&self) -> bool {
        &&& self.set.spec_candidates().len() > 0
        &&& self.set.bounded()
        &&& self.selected < self.set.spec_candidates().len()
    }

    /// Inspectable selection state.
    pub fn selection(&self) -> (r: CompletionSelection)
        ensures
            r.revision == self.set.spec_revision(),
            r.index == self.selected,
            r.count == self.set.spec_candidates().len(),
    {
        CompletionSelection { revision: self.set.revision, index: self.selected, count: self.set.candidates.len() }
    }

    /// The selected candidate.
    pub fn candidate(&self) -> (r: &CompletionCandidate)
        requires
            self.wf(),
        ensures
            *r == self.set.spec_candidates()[self.selected as int],
    {
        &self.set.candidates[self.selected]
    }

    /// Candidate rows shown at once on a surface of `rows` rows.
    pub fn page_size(&self, rows: usize) -> (r: usize)
        requires
            self.wf(),
        ensures
            r == page_rows(rows, self.set.spec_candidates().len() as int),
            r >= 1,
    {
        let count = self.set.candidates.len();
        let h = if rows < 3 { 1 } else if rows - 2 > 8 { 8 } else { rows - 2 };
        let height = if h < count + 1 { h } else { count + 1 };
        if height > 1 { height - 1 } else { height }
    }

    /// Move the selection; wrapping for next/previous, clamped for pages.
    pub fn navigate(&mut self, action: CompletionAction, page: usize)
        requires
            old(self).wf(),
        ensures
            final(self).wf(),
            final(self).set == old(self).set,
            final(self).selected == navigated(old(self).selected as int, old(self).set.spec_candidates().len() as int,
                action, page as int),
    {
        let count = self.set.candidates.len();
        let s = self.selected;
        self.selected = match action {
            CompletionAction::Next => (s + 1) % count,
            CompletionAction::Previous => (s + count - 1) % count,
            CompletionAction::PageNext => if page < count - 1 - s { s + page } else { count - 1 },
            CompletionAction::PagePrevious => if s > page { s - page } else { 0 },
            CompletionAction::First => 0,
            CompletionAction::Last => count - 1,
            _ => s,
        };
    }

    /// The header row: position and the key summary.
    fn header(&self, columns: usize) -> (r: String)
        requires
            self.wf(),
        ensures
            r@ == menu_header(self.selected as int, self.set.spec_candidates().len() as int, columns),
    {
        proof {
            reveal_strlit(" / ");
            reveal_strlit("  Tab next \u{b7} Enter accept \u{b7} Esc dismiss");
        }
        let mut text = String::new();
        push_decimal(&mut text, self.selected + 1);
        text.append(" / ");
        push_decimal(&mut text, self.set.candidates.len());
        text.append("  Tab next \u{b7} Enter accept \u{b7} Esc dismiss");
        clip(text.as_str(), if columns > 0 { columns - 1 } else { 0 })
    }

    /// The draft frame with the menu rows below it, paged so the selection is visible.
    #[verifier::rlimit(40)]
    #[verifier::spinoff_prover]
    pub fn frame(&self, editor: &Editor, prompt: &Prompt, size: (usize, usize), analysis: Option<&AnalysisPresentation>) -> (f: Frame)
        requires
            self.wf(),
            editor.wf(),
        ensures
            f.wf(),
            f.columns == size.0,
            f.rows == size.1,
            f.source_len == editor.bytes().len(),
            f.source_cursor == editor.pos(),
            size.1 >= 2 ==> f.lines@.len() <= size.1,
            ({
                let m = menu_rows(self.set.spec_candidates(), self.selected as int, size);
                let g = frame_geometry(editor.chars(), editor.pos() as int, prompt.spec_first(), prompt.spec_continuation(),
                    size.0, draft_surface(size.1, m.0.len() as int));
                &&& f.widths@ == g.0 + m.1
                &&& f.cursor == g.1
                &&& rows_view(f.lines@).subrange(g.0.len() as int, f.lines@.len() as int) == m.0
                &&& rows_view(f.lines@).take(g.0.len() as int) == frame_rows(editor.chars(), editor.pos() as int,
                    prompt.spec_first(), prompt.spec_continuation(), prompt.spec_role(), analysis_spans(analysis), size.0,
                    draft_surface(size.1, m.0.len() as int))
            }),
            f.end == (Point { row: (f.widths@.len() - 1) as usize, col: f.widths@.last() }),
    {
        let ghost cands = self.set.spec_candidates();
        let ghost m = menu_rows(cands, self.selected as int, size);
        let count = self.set.candidates.len();
        let h = if size.1 < 3 { 1 } else if size.1 - 2 > 8 { 8 } else { size.1 - 2 };
        let height = if h < count + 1 { h } else { count + 1 };
        let header: usize = if height > 1 { 1 } else { 0 };
        let visible = height - header;
        let q = self.selected / visible;
        proof {
            assert(q * visible <= self.selected) by (nonlinear_arith)
                requires visible >= 1, q == self.selected / visible;
        }
        let first = q * visible;
        let end = if first + visible < count { first + visible } else { count };
        let actual = end - first + header;
        proof {
            lemma_menu_head(cands, self.selected as int, size);
        }
        assert(actual as int == m.0.len());
        let draft = if size.1 > actual && size.1 - actual > 2 { size.1 - actual } else { 2 };
        let mut frame = Frame::analyzed(editor, prompt, size.0, draft, analysis);
        let ghost base = frame.lines@.len();
        let ghost base_rows = rows_view(frame.lines@);
        let ghost g = frame_geometry(editor.chars(), editor.pos() as int, prompt.spec_first(), prompt.spec_continuation(),
            size.0, draft);
        let ghost hcount: int = header as int;
        if header != 0 {
            let text = self.header(size.0);
            let width = display_width(text.as_str());
            let mut runs = Vec::new();
            runs.push(Run::Style(Role::Dim));
            runs.push(Run::Text(text));
            runs.push(Run::Style(Role::Default));
            let line = Line(runs);
            assert(pieces(line) =~= seq![Piece::Style(Role::Dim), Piece::Text(menu_header(self.selected as int, count as int, size.0)),
                Piece::Style(Role::Default)]);
            frame.lines.push(line);
            frame.widths.push(width);
        }
        assert(rows_view(frame.lines@) =~= base_rows + m.0.take(hcount));
        assert(frame.widths@ =~= g.0 + m.1.take(hcount));
        let mut widest: usize = 0;
        let mut k = first;
        while k < end
            invariant
                first <= k <= end <= count,
                count == self.set.candidates@.len(),
                cands == self.set.spec_candidates(),
                widest as int == widest_label(cands, first as int, k as int),
            decreases end - k,
        {
            let w = display_width(self.set.candidates[k].label.as_str());
            if w > widest {
                widest = w;
            }
            k += 1;
        }
        let room = if size.0 > 3 { size.0 - 3 } else { 0 };
        let mut index = first;
        while index < end
            invariant
                first <= index <= end <= count,
                count == self.set.candidates@.len(),
                cands == self.set.spec_candidates(),
                self.wf(),
                frame.lines@.len() == frame.widths@.len(),
                frame.lines@.len() == base + header + (index - first),
                frame.cursor.row < base,
                frame.cursor == g.1,
                frame.columns == size.0,
                frame.source_len == editor.bytes().len(),
                frame.source_cursor == editor.pos(),
                base <= draft_rows(draft),
                base >= 1,
                base == g.0.len(),
                hcount == header as int,
                widest as int == widest_label(cands, first as int, end as int),
                room as int == (if size.0 > 3 { size.0 - 3 } else { 0 }),
                m == menu_rows(cands, self.selected as int, size),
                first as int == page_first(self.selected as int, visible as int),
                end as int == (if first + visible < count { first + visible } else { count as int }),
                visible as int == (if menu_height(size.1, count as int) > 1 { menu_height(size.1, count as int) - 1 }
                    else { menu_height(size.1, count as int) }),
                header == (if menu_height(size.1, count as int) > 1 { 1usize } else { 0usize }),
                rows_view(frame.lines@) == base_rows + m.0.take(hcount + (index - first)),
                frame.widths@ == g.0 + m.1.take(hcount + (index - first)),
            decreases end - index,
        {
            let (line, width) = candidate_line(&self.set.candidates[index], index == self.selected, widest, size.0);
            proof {
                lemma_menu_row(cands, self.selected as int, size, index - first);
            }
            let ghost before_rows = rows_view(frame.lines@);
            let ghost before_widths = frame.widths@;
            frame.lines.push(line);
            frame.widths.push(width);
            index += 1;
            proof {
                assert(rows_view(frame.lines@) =~= before_rows.push(pieces(line)));
                assert(m.0.take(hcount + (index - first)) =~= m.0.take(hcount + (index - 1 - first)).push(m.0[hcount + (index - 1 - first)]));
                assert(m.1.take(hcount + (index - first)) =~= m.1.take(hcount + (index - 1 - first)).push(m.1[hcount + (index - 1 - first)]));
                assert(frame.widths@ =~= before_widths.push(width));
            }
        }
        frame.rows = size.1;
        let last = frame.lines.len() - 1;
        frame.end = Point { row: last, col: frame.widths[last] };
        proof {
            if size.1 >= 2 {
                assert(base <= draft_rows(draft));
            }
            assert(m.0.take(hcount + (end - first)) =~= m.0);
            assert(m.1.take(hcount + (end - first)) =~= m.1);
            assert(rows_view(frame.lines@).subrange(base as int, frame.lines@.len() as int) =~= m.0);
            assert(rows_view(frame.lines@).take(base as int) =~= base_rows);
        }
        frame
    }
}

} // verus!
