//! Host-owned submission meaning, with bounded revision-bound presentation.
use crate::analysis::{AnalysisOutcome, DraftRevision};
use crate::analysis_presentation::AnalysisPresentation;
use crate::editor::{EditError, Editor};
use crate::event::{Error, Event};
use crate::document::{pieces, rows_view, sat, Piece};
use crate::presentation::{analysis_spans, clip, clipped, draft_rows, frame_geometry, frame_rows, Frame, Line, Point, Prompt, Role, Run};
use crate::segment::{display_width, display_width_of};
use crate::text::{blen, byte_len, decimal, push_decimal, safe_display, spec_safe_display};
use std::ops::Range;
use vstd::prelude::*;
use vstd::string::*;
use vstd::utf8::*;

verus! {

broadcast use {encode_utf8_decode_utf8, encode_utf8_valid_utf8, decode_utf8_encode_utf8};

/// Maximum diagnostics retained for one invalid submission.
pub const MAX_DIAGNOSTICS: usize = 32;
/// Maximum UTF-8 bytes per safe single-line diagnostic message.
pub const MAX_DIAGNOSTIC_BYTES: usize = 4096;
/// Maximum aggregate diagnostic message bytes, excluding bounded metadata.
pub const MAX_VALIDATION_BYTES: usize = 65536;

/// Submission and multiline key policy. Configure while the interaction is closed.
#[derive(Clone, Copy, Debug, PartialEq, Eq, Structural)]
pub enum SubmissionPolicy {
    /// Enter submits directly; Up/Down retain the existing history bindings.
    Direct,
    /// Enter asks the host; Up/Down move between logical lines, then history at edges.
    /// On continuation lines, Tab in the leading ASCII space/tab prefix inserts
    /// spaces to the next four-cell stop relative to the logical line. Elsewhere
    /// Tab requests completion; an active completion menu always takes precedence.
    Validated,
}

/// Malformed host data or lifecycle/I/O failure, distinct from semantic Invalid.
#[derive(Debug)]
pub enum ValidationError {
    /// Count, message or total payload exceeds the documented limit.
    Limit,
    /// Empty or unsafe diagnostic text.
    InvalidMessage,
    /// No pending Enter request at this revision (including a consumed response).
    NoRequest,
    /// Invalid range or insufficient capacity for continued input; unchanged draft.
    Edit(EditError),
    /// Terminal/lifecycle failure, including cleanup context.
    Interaction(Error),
}

impl ValidationError {
    /// Human-readable description of the failure.
    pub fn message(&self) -> (r: String)
        ensures
            match self {
                ValidationError::Limit => r@ == "validation payload limit exceeded"@,
                ValidationError::InvalidMessage => r@ == "invalid diagnostic message"@,
                ValidationError::NoRequest => r@ == "no pending submission request at this revision"@,
                ValidationError::Edit(e) => r@ == crate::editor::edit_error_text(*e),
                ValidationError::Interaction(_) => true,
            },
    {
        match self {
            ValidationError::Limit => "validation payload limit exceeded".to_owned(),
            ValidationError::InvalidMessage => "invalid diagnostic message".to_owned(),
            ValidationError::NoRequest => "no pending submission request at this revision".to_owned(),
            ValidationError::Edit(e) => e.message().to_owned(),
            ValidationError::Interaction(e) => e.message(),
        }
    }
}

/// Why a diagnostic is refused.
pub open spec fn diagnostic_error(message: Seq<char>, range: Option<(usize, usize)>) -> Option<ValidationError> {
    if blen(message) > MAX_DIAGNOSTIC_BYTES {
        Some(ValidationError::Limit)
    } else if message.len() == 0 || !spec_safe_display(message) {
        Some(ValidationError::InvalidMessage)
    } else if range matches Some((s, e)) && s > e {
        Some(ValidationError::Edit(EditError::InvalidRange))
    } else {
        None
    }
}

/// Safe host explanation of invalid input. No parser, fix-it or highlighting semantics.
#[derive(Clone, Debug, PartialEq, Eq)]
pub struct Diagnostic {
    message: String,
    range: Option<(usize, usize)>,
}

impl Diagnostic {
    /// Message text.
    pub closed spec fn spec_message(&self) -> Seq<char> {
        self.message@
    }

    /// Optional byte range.
    pub closed spec fn spec_range(&self) -> Option<(usize, usize)> {
        self.range
    }

    /// Validate before copying. Messages are nonempty single-line safe text;
    /// draft-dependent grapheme ranges are checked atomically on result delivery.
    pub fn new(message: &str, range: Option<Range<usize>>) -> (r: Result<Self, ValidationError>)
        ensures
            ({
                let rg = match range {
                    Some(x) => Some((x.start, x.end)),
                    None => None,
                };
                match r {
                    Ok(d) => diagnostic_error(message@, rg) is None && d.spec_message() == message@ && d.spec_range() == rg,
                    Err(e) => diagnostic_error(message@, rg) == Some(e),
                }
            }),
    {
        if byte_len(message) > MAX_DIAGNOSTIC_BYTES {
            return Err(ValidationError::Limit);
        }
        if byte_len(message) == 0 || !safe_display(message) {
            return Err(ValidationError::InvalidMessage);
        }
        let rg = match range {
            Some(x) => Some((x.start, x.end)),
            None => None,
        };
        if let Some((s, e)) = rg {
            if s > e {
                return Err(ValidationError::Edit(EditError::InvalidRange));
            }
        }
        Ok(Diagnostic { message: message.to_owned(), range: rg })
    }

    /// Complete message, even when its temporary display is ellipsized.
    pub fn message(&self) -> (r: &str)
        ensures
            r@ == self.spec_message(),
    {
        self.message.as_str()
    }

    /// Optional byte range in the originating snapshot, never terminal coordinates.
    pub fn range(&self) -> (r: Option<Range<usize>>)
        ensures
            match r {
                Some(x) => self.spec_range() == Some((x.start, x.end)),
                None => self.spec_range() is None,
            },
    {
        match self.range {
            Some((s, e)) => Some(Range { start: s, end: e }),
            None => None,
        }
    }

    /// The displayed row: `! [start..end] message` or `! message`.
    pub open spec fn spec_row_text(&self) -> Seq<char> {
        "! "@ + match self.spec_range() {
            Some(r) => "["@ + decimal(r.0 as nat) + ".."@ + decimal(r.1 as nat) + "] "@,
            None => Seq::empty(),
        } + self.spec_message()
    }

    /// A diagnostic's row reads `! `, then its own range as two decimal
    /// numerals (start, then end) between `[`, `..` and `] `, then its message;
    /// without a range, `! ` and the message.
    pub proof fn law_row_shows_range(&self)
        ensures
            self.spec_range() is None ==> self.spec_row_text() == "! "@ + self.spec_message(),
            self.spec_range() matches Some((start, end)) ==> exists|a: Seq<char>, b: Seq<char>|
                #![trigger crate::text::is_numeral(a), crate::text::is_numeral(b)]
                crate::text::is_numeral(a) && crate::text::is_numeral(b)
                && crate::text::numeral_value(a) == start && crate::text::numeral_value(b) == end
                && self.spec_row_text() == "! "@ + ("["@ + a + ".."@ + b + "] "@) + self.spec_message(),
    {
        match self.spec_range() {
            Some((start, end)) => {
                crate::text::lemma_decimal_reads_back(start as nat);
                crate::text::lemma_decimal_reads_back(end as nat);
                let a = decimal(start as nat);
                let b = decimal(end as nat);
                assert(crate::text::is_numeral(a) && crate::text::is_numeral(b));
            },
            None => {
                assert("! "@ + Seq::<char>::empty() =~= "! "@);
            },
        }
    }

    /// The displayed row: `! [start..end] message` or `! message`.
    fn row_text(&self) -> (r: String)
        ensures
            r@ == self.spec_row_text(),
    {
        proof {
            reveal_strlit("! ");
            reveal_strlit("[");
            reveal_strlit("..");
            reveal_strlit("] ");
        }
        let mut t = String::new();
        t.append("! ");
        if let Some((s, e)) = self.range {
            t.append("[");
            push_decimal(&mut t, s);
            t.append("..");
            push_decimal(&mut t, e);
            t.append("] ");
        }
        t.append(self.message.as_str());
        t
    }
}

/// A host semantic decision, not an editor error or a terminal capability.
#[derive(Clone, Debug)]
pub enum ValidationDisposition {
    /// Submit exactly the requested current draft once and restore the terminal.
    Complete,
    /// Insert LF at the current cursor atomically and continue editing.
    Incomplete,
    /// Preserve the draft and present bounded explanations. Empty explanations are valid.
    Invalid(Vec<Diagnostic>),
}

/// Total message bytes of diagnostics.
pub open spec fn messages_bytes(ds: Seq<Diagnostic>) -> int
    decreases ds.len(),
{
    if ds.len() == 0 {
        0
    } else {
        messages_bytes(ds.drop_last()) + blen(ds.last().spec_message())
    }
}

proof fn lemma_messages_prefix(ds: Seq<Diagnostic>, k: int)
    requires
        0 <= k <= ds.len(),
    ensures
        0 <= messages_bytes(ds.take(k)) <= messages_bytes(ds),
    decreases ds.len(),
{
    if k < ds.len() {
        assert(ds.drop_last().take(k) =~= ds.take(k));
        lemma_messages_prefix(ds.drop_last(), k);
    } else {
        assert(ds.take(k) =~= ds);
        if ds.len() > 0 {
            lemma_messages_prefix(ds.drop_last(), k - 1);
        }
    }
}

/// A disposition whose diagnostics fit the count and byte bounds.
pub open spec fn disposition_bounded(d: ValidationDisposition) -> bool {
    d matches ValidationDisposition::Invalid(ds) ==> ds@.len() <= MAX_DIAGNOSTICS && messages_bytes(ds@) <= MAX_VALIDATION_BYTES
}

/// An immutable bounded decision for the originating retained editor's revision.
#[derive(Clone, Debug)]
pub struct ValidationResult {
    revision: DraftRevision,
    disposition: ValidationDisposition,
}

impl ValidationResult {
    /// Originating revision.
    pub closed spec fn spec_revision(&self) -> DraftRevision {
        self.revision
    }

    /// The decision.
    pub closed spec fn spec_disposition(&self) -> ValidationDisposition {
        self.disposition
    }

    /// Check resource bounds before admission. Delivery also requires a pending
    /// Enter request at this revision; this value cannot force unsolicited submission.
    pub fn new(revision: DraftRevision, disposition: ValidationDisposition) -> (r: Result<Self, ValidationError>)
        ensures
            match r {
                Ok(v) => disposition_bounded(disposition) && v.spec_revision() == revision && v.spec_disposition() == disposition,
                Err(e) => !disposition_bounded(disposition) && e is Limit,
            },
    {
        if let ValidationDisposition::Invalid(ds) = &disposition {
            if ds.len() > MAX_DIAGNOSTICS {
                return Err(ValidationError::Limit);
            }
            let mut total: usize = 0;
            let mut i: usize = 0;
            while i < ds.len()
                invariant
                    i <= ds@.len(),
                    ds@.len() <= MAX_DIAGNOSTICS,
                    disposition == ValidationDisposition::Invalid(*ds),
                    total == messages_bytes(ds@.take(i as int)),
                    total <= MAX_VALIDATION_BYTES,
                decreases ds@.len() - i,
            {
                proof {
                    assert(ds@.take(i + 1).drop_last() =~= ds@.take(i as int));
                    assert(ds@.take(i + 1).last() == ds@[i as int]);
                    lemma_messages_prefix(ds@, i + 1);
                }
                let n = byte_len(ds[i].message.as_str());
                assert(n == blen(ds@[i as int].spec_message()));
                assert(messages_bytes(ds@.take(i + 1)) == total + n);
                if n > MAX_VALIDATION_BYTES - total {
                    return Err(ValidationError::Limit);
                }
                total = total + n;
                i += 1;
            }
            assert(ds@.take(i as int) =~= ds@);
        }
        Ok(ValidationResult { revision, disposition })
    }

    /// Exact draft provenance; not an application context or job identity.
    pub fn revision(&self) -> (r: DraftRevision)
        ensures
            r == self.spec_revision(),
    {
        self.revision
    }

    /// Host classification and bounded explanation.
    pub fn disposition(&self) -> (r: &ValidationDisposition)
        ensures
            *r == self.spec_disposition(),
    {
        &self.disposition
    }

    /// Take the decision.
    pub fn into_disposition(self) -> (r: ValidationDisposition)
        ensures
            r == self.spec_disposition(),
    {
        self.disposition
    }
}

/// Result of serialized delivery. Submission carries the ordinary restored-terminal event.
#[derive(Debug, PartialEq)]
pub struct ValidationOutcome {
    /// Applied or stale. Stale delivery emits no terminal mutations or event.
    pub analysis: AnalysisOutcome,
    /// Submitted after Complete, otherwise None. Never submit a second time by polling.
    pub event: Option<Event>,
}

/// The pending request and the diagnostics shown for the current revision.
pub struct ValidationState {
    /// Revision of the Enter request awaiting a host decision.
    pub pending: Option<DraftRevision>,
    /// Diagnostics of an invalid submission at the current revision.
    pub diagnostics: Option<Vec<Diagnostic>>,
}

/// Row `i` of the diagnostic block: the header, then one row per diagnostic,
/// each clipped to the surface less one column and drawn as an error.
pub open spec fn diagnostic_row(ds: Seq<Diagnostic>, i: int, columns: usize) -> (Seq<Piece>, usize) {
    let text = if i == 0 {
        "! Invalid input \u{b7} "@ + decimal(ds.len()) + " diagnostics"@
    } else {
        ds[i - 1].spec_row_text()
    };
    let shown = clipped(text, if columns > 0 { columns - 1 } else { 0 });
    (seq![Piece::Style(Role::Error), Piece::Text(shown), Piece::Style(Role::Default)], display_width_of(shown))
}

/// Widths of the draft rows after an analysis hint, if one is drawn, joins the last row.
pub open spec fn hinted_widths(ws: Seq<usize>, analysis: Option<&AnalysisPresentation>, at_end: bool, columns: usize) -> Seq<usize> {
    let room: int = if !at_end || ws.last() >= columns { 0 } else { columns - ws.last() - 1 };
    match analysis {
        Some(p) => match p.spec_hint() {
            Some(h) => if room >= 5 {
                ws.update(ws.len() - 1, sat(ws.last() + display_width_of(" [~"@ + clipped(h.spec_text(), room - 4) + "]"@))
                    as usize)
            } else {
                ws
            },
            None => ws,
        },
        None => ws,
    }
}

/// Draft rows after an analysis hint, if one is drawn, joins the last row; `ws`
/// are the rows' widths before.
pub open spec fn hinted_rows(rows: Seq<Seq<Piece>>, ws: Seq<usize>, analysis: Option<&AnalysisPresentation>, at_end: bool,
    columns: usize) -> Seq<Seq<Piece>>
{
    let room: int = if !at_end || ws.last() >= columns { 0 } else { columns - ws.last() - 1 };
    match analysis {
        Some(p) => match p.spec_hint() {
            Some(h) => if room >= 5 {
                rows.update(rows.len() - 1, rows.last() + seq![Piece::Style(h.spec_role()),
                    Piece::Text(" [~"@ + clipped(h.spec_text(), room - 4) + "]"@), Piece::Style(Role::Default)])
            } else {
                rows
            },
            None => rows,
        },
        None => rows,
    }
}

/// Row `i` of the diagnostic block and its width.
fn diagnostic_line(ds: &Vec<Diagnostic>, i: usize, size0: usize) -> (r: (Line, usize))
    requires
        i <= ds@.len(),
    ensures
        pieces(r.0) == diagnostic_row(ds@, i as int, size0).0,
        r.1 == diagnostic_row(ds@, i as int, size0).1,
{
    proof {
        reveal_strlit("! Invalid input \u{b7} ");
        reveal_strlit(" diagnostics");
    }
    let columns = if size0 > 0 { size0 - 1 } else { 0 };
    let text = if i == 0 {
        let mut t = String::new();
        t.append("! Invalid input \u{b7} ");
        push_decimal(&mut t, ds.len());
        t.append(" diagnostics");
        t
    } else {
        ds[i - 1].row_text()
    };
    let text = clip(text.as_str(), columns);
    let width = display_width(text.as_str());
    let mut runs = Vec::new();
    runs.push(Run::Style(Role::Error));
    runs.push(Run::Text(text));
    runs.push(Run::Style(Role::Default));
    let line = Line(runs);
    assert(pieces(line) =~= diagnostic_row(ds@, i as int, size0).0);
    (line, width)
}

/// Diagnostic rows (header included) on a surface of `rows` rows.
pub open spec fn diagnostic_height(count: int, rows: usize) -> int {
    let a = if count + 1 < 5 { count + 1 } else { 5 };
    let b = if rows > 3 { rows - 2 } else { 1 };
    if a < b { a } else { b }
}

/// The diagnostics frame of `v`: the draft rows with any analysis hint, then
/// the diagnostic rows.
pub open spec fn diagnostics_frame(v: ValidationState, f: Frame, editor: &Editor, prompt: &Prompt, size: (usize, usize),
    analysis: Option<&AnalysisPresentation>) -> bool
{
    let ds = match v.diagnostics {
        Some(d) => d@,
        None => Seq::<Diagnostic>::empty(),
    };
    let height = diagnostic_height(ds.len() as int, size.1);
    let draft: usize = if size.1 > height && size.1 - height > 2 { (size.1 - height) as usize } else { 2 };
    let g = frame_geometry(editor.chars(), editor.pos() as int, prompt.spec_first(), prompt.spec_continuation(),
        size.0, draft);
    let base = g.0.len() as int;
    &&& f.cursor == g.1
    &&& f.widths@.len() == base + height
    &&& f.widths@.take(base) == hinted_widths(g.0, analysis, editor.pos() == editor.bytes().len(), size.0)
    &&& rows_view(f.lines@).take(base) == hinted_rows(frame_rows(editor.chars(), editor.pos() as int,
        prompt.spec_first(), prompt.spec_continuation(), prompt.spec_role(), analysis_spans(analysis), size.0,
        draft), g.0, analysis, editor.pos() == editor.bytes().len(), size.0)
    &&& forall|i: int| 0 <= i < height ==> #[trigger] rows_view(f.lines@)[base + i] == diagnostic_row(ds, i, size.0).0
        && f.widths@[base + i] == diagnostic_row(ds, i, size.0).1
}

impl ValidationState {
    /// Nothing pending and nothing shown.
    pub fn new() -> (r: Self)
        ensures
            r.pending is None,
            r.diagnostics is None,
    {
        ValidationState { pending: None, diagnostics: None }
    }

    /// The draft frame followed by bounded diagnostic rows, styled as errors.
    #[verifier::rlimit(40)]
    #[verifier::spinoff_prover]
    pub fn frame(&self, editor: &Editor, prompt: &Prompt, size: (usize, usize), analysis: Option<&AnalysisPresentation>) -> (f: Frame)
        requires
            editor.wf(),
        ensures
            f.wf(),
            f.columns == size.0,
            f.rows == size.1,
            f.source_len == editor.bytes().len(),
            f.source_cursor == editor.pos(),
            size.1 >= 2 ==> f.lines@.len() <= size.1,
            diagnostics_frame(*self, f, editor, prompt, size, analysis),
            f.end == (Point { row: (f.widths@.len() - 1) as usize, col: f.widths@.last() }),
    {
        let empty: Vec<Diagnostic> = Vec::new();
        let ds = match &self.diagnostics {
            Some(d) => d,
            None => &empty,
        };
        let count = ds.len();
        let a = if count < 4 { count + 1 } else { 5 };
        let b = if size.1 > 3 { size.1 - 2 } else { 1 };
        let height = if a < b { a } else { b };
        let draft = if size.1 > height && size.1 - height > 2 { size.1 - height } else { 2 };
        let mut frame = Frame::analyzed(editor, prompt, size.0, draft, analysis);
        let ghost g = frame_geometry(editor.chars(), editor.pos() as int, prompt.spec_first(), prompt.spec_continuation(),
            size.0, draft);
        assert(Frame::suffix_cells(frame) as int == if !(editor.pos() == editor.bytes().len()) || g.0.last() >= size.0 { 0 }
            else { size.0 - g.0.last() - 1 });
        if let Some(p) = analysis {
            p.append_hint(&mut frame);
        }
        let ghost base = frame.lines@.len();
        let ghost hinted = frame.widths@;
        let ghost hinted_rv = rows_view(frame.lines@);
        assert(hinted == hinted_widths(g.0, analysis, editor.pos() == editor.bytes().len(), size.0));
        assert(hinted_rv == hinted_rows(frame_rows(editor.chars(), editor.pos() as int, prompt.spec_first(),
            prompt.spec_continuation(), prompt.spec_role(), analysis_spans(analysis), size.0, draft), g.0, analysis,
            editor.pos() == editor.bytes().len(), size.0));
        let ghost dv = ds@;
        proof {
            if size.1 >= 2 {
                assert(height <= b);
                if size.1 > height && size.1 - height > 2 {
                    assert(base <= size.1 - height - 1);
                } else {
                    assert(base <= 1);
                    assert(b <= size.1 - 1);
                }
            }
        }
        let mut i: usize = 0;
        while i < height
            invariant
                i <= height,
                height <= count + 1,
                count == ds@.len(),
                frame.lines@.len() == frame.widths@.len(),
                frame.lines@.len() == base + i,
                frame.cursor.row < base,
                frame.columns == size.0,
                frame.source_len == editor.bytes().len(),
                frame.source_cursor == editor.pos(),
                base >= 1,
                size.1 >= 2 ==> base + height <= size.1,
                dv == ds@,
                frame.cursor == g.1,
                frame.widths@.take(base as int) == hinted,
                rows_view(frame.lines@).take(base as int) == hinted_rv,
                hinted_rv.len() == base,
                forall|j: int| 0 <= j < i ==> rows_view(frame.lines@)[base + j] == (#[trigger] diagnostic_row(dv, j, size.0)).0
                    && frame.widths@[base + j] == diagnostic_row(dv, j, size.0).1,
            decreases height - i,
        {
            let (line, width) = diagnostic_line(ds, i, size.0);
            let ghost before_rows = rows_view(frame.lines@);
            let ghost before_widths = frame.widths@;
            frame.lines.push(line);
            frame.widths.push(width);
            proof {
                assert(rows_view(frame.lines@) =~= before_rows.push(pieces(line)));
                assert(frame.widths@.take(base as int) =~= before_widths.take(base as int));
                assert(rows_view(frame.lines@).take(base as int) =~= before_rows.take(base as int));
                assert forall|j: int| 0 <= j < i + 1 implies rows_view(frame.lines@)[base + j]
                    == (#[trigger] diagnostic_row(dv, j, size.0)).0 && frame.widths@[base + j] == diagnostic_row(dv, j, size.0).1 by {
                    if j < i {
                        assert(rows_view(frame.lines@)[base + j] == before_rows[base + j]);
                        assert(frame.widths@[base + j] == before_widths[base + j]);
                    }
                }
            }
            i += 1;
        }
        let ghost ws = frame.widths@;
        let ghost rv = rows_view(frame.lines@);
        frame.rows = size.1;
        let last = frame.lines.len() - 1;
        frame.end = Point { row: last, col: frame.widths[last] };
        proof {
            assert(frame.widths@ == ws && rows_view(frame.lines@) == rv);
            assert(dv == match self.diagnostics {
                Some(d) => d@,
                None => Seq::<Diagnostic>::empty(),
            });
            assert(height as int == diagnostic_height(dv.len() as int, size.1));
        }
        frame
    }
}

} // verus!
