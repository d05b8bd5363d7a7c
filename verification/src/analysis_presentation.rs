//! Revision-bound derived display, separate from canonical editor storage.
use crate::analysis::DraftRevision;
use crate::editor::{EditError, Editor};
use crate::event::Error;
use crate::presentation::{clip, clipped, Frame, Role};
use crate::segment::is_boundary;
use crate::text::{byte_len, safe_display, spec_safe_display};
use std::ops::Range;
use vstd::prelude::*;
use vstd::string::*;

verus! {

/// Maximum ordered spans in one presentation result.
pub const MAX_ANALYSIS_SPANS: usize = 4096;

/// Maximum safe single-line hint payload in UTF-8 bytes.
pub const MAX_HINT_BYTES: usize = 4096;

/// A nonempty UTF-8 byte range styled with a generic role, never a token class.
#[derive(Debug, PartialEq, Eq)]
pub struct AnalysisSpan {
    start: usize,
    end: usize,
    role: Role,
}

impl Clone for AnalysisSpan {
    fn clone(&self) -> (r: Self)
        ensures
            r == *self,
    {
        proof {
            use_type_invariant(self);
        }
        AnalysisSpan { start: self.start, end: self.end, role: self.role }
    }
}

impl AnalysisSpan {
    /// A span covers at least one byte.
    #[verifier::type_invariant]
    spec fn nonempty(self) -> bool {
        self.start < self.end
    }

    pub closed spec fn spec_start(&self) -> usize {
        self.start
    }

    pub closed spec fn spec_end(&self) -> usize {
        self.end
    }

    pub closed spec fn spec_role(&self) -> Role {
        self.role
    }

    /// Construct a nonempty range. Delivery validates snapshot grapheme boundaries.
    pub fn new(range: Range<usize>, role: Role) -> (r: Result<Self, AnalysisPresentationError>)
        ensures
            match r {
                Ok(s) => range.start < range.end && s.spec_start() == range.start && s.spec_end() == range.end
                    && s.spec_role() == role,
                Err(e) => range.start >= range.end && e is InvalidSpans,
            },
    {
        if range.start >= range.end {
            return Err(AnalysisPresentationError::InvalidSpans);
        }
        Ok(AnalysisSpan { start: range.start, end: range.end, role })
    }

    /// Byte range in the originating snapshot.
    pub fn range(&self) -> (r: Range<usize>)
        ensures
            r.start == self.spec_start() && r.end == self.spec_end(),
    {
        self.start..self.end
    }

    /// Generic host-selected appearance.
    pub fn role(&self) -> (r: Role)
        ensures
            r == self.spec_role(),
    {
        self.role
    }
}

/// Safe non-canonical suffix. It has no acceptance or submission semantics.
#[derive(Debug, PartialEq, Eq)]
pub struct Hint {
    text: String,
    role: Role,
}

impl Hint {
    pub closed spec fn spec_text(&self) -> Seq<char> {
        self.text@
    }

    pub closed spec fn spec_role(&self) -> Role {
        self.role
    }

    /// Nonempty, at most 4096 bytes; no controls, line breaks or hidden controls.
    pub fn new(text: &str, role: Role) -> (r: Result<Self, AnalysisPresentationError>)
        ensures
            match r {
                Ok(h) => text.spec_bytes().len() <= MAX_HINT_BYTES && text@.len() > 0 && spec_safe_display(text@)
                    && h.spec_text() == text@ && h.spec_role() == role,
                Err(e) => (text.spec_bytes().len() > MAX_HINT_BYTES && e is Limit)
                    || (text.spec_bytes().len() <= MAX_HINT_BYTES && (text@.len() == 0 || !spec_safe_display(text@))
                    && e is InvalidHint),
            },
    {
        if byte_len(text) > MAX_HINT_BYTES {
            return Err(AnalysisPresentationError::Limit);
        }
        if text.is_empty() || !safe_display(text) {
            return Err(AnalysisPresentationError::InvalidHint);
        }
        Ok(Hint { text: text.to_owned(), role })
    }

    /// Complete hint, including any portion clipped from the visible suffix.
    pub fn text(&self) -> (r: &str)
        ensures
            r@ == self.spec_text(),
    {
        self.text.as_str()
    }

    /// Generic host-selected appearance.
    pub fn role(&self) -> (r: Role)
        ensures
            r == self.spec_role(),
    {
        self.role
    }
}

/// Spans are ordered and pairwise disjoint: each ends no later than the next starts.
pub open spec fn spans_ordered(spans: Seq<AnalysisSpan>) -> bool {
    forall|i: int| 0 <= i < spans.len() - 1 ==> (#[trigger] spans[i]).spec_end() <= spans[i + 1].spec_start()
}

/// Every span covers at least one byte.
pub open spec fn spans_nonempty(spans: Seq<AnalysisSpan>) -> bool {
    forall|i: int| 0 <= i < spans.len() ==> (#[trigger] spans[i]).spec_start() < spans[i].spec_end()
}

/// One whole immutable presentation for one retained editor's revision domain.
#[derive(Debug, PartialEq, Eq)]
pub struct AnalysisPresentation {
    revision: DraftRevision,
    spans: Vec<AnalysisSpan>,
    hint: Option<Hint>,
}

impl Clone for Hint {
    fn clone(&self) -> (r: Self)
        ensures
            r.spec_text() == self.spec_text(),
            r.spec_role() == self.spec_role(),
    {
        Hint { text: self.text.clone(), role: self.role }
    }
}

impl Clone for AnalysisPresentation {
    fn clone(&self) -> (r: Self)
        ensures
            r.spec_revision() == self.spec_revision(),
            r.spec_spans() == self.spec_spans(),
            match (r.spec_hint(), self.spec_hint()) {
                (Some(a), Some(b)) => a.spec_text() == b.spec_text() && a.spec_role() == b.spec_role(),
                (None, None) => true,
                _ => false,
            },
    {
        proof {
            use_type_invariant(self);
        }
        let mut spans: Vec<AnalysisSpan> = Vec::new();
        let mut i: usize = 0;
        while i < self.spans.len()
            invariant
                i <= self.spans@.len(),
                spans@ == self.spans@.take(i as int),
            decreases self.spans@.len() - i,
        {
            spans.push(self.spans[i].clone());
            i += 1;
            assert(spans@ =~= self.spans@.take(i as int));
        }
        assert(self.spans@.take(i as int) =~= self.spans@);
        let hint = match &self.hint {
            Some(h) => Some(h.clone()),
            None => None,
        };
        AnalysisPresentation { revision: self.revision, spans, hint }
    }
}

impl AnalysisPresentation {
    /// Spans are bounded in number, nonempty, and ordered without overlap.
    #[verifier::type_invariant]
    spec fn ordered(self) -> bool {
        &&& self.spans@.len() <= MAX_ANALYSIS_SPANS
        &&& spans_ordered(self.spans@)
        &&& spans_nonempty(self.spans@)
    }

    pub closed spec fn spec_revision(&self) -> DraftRevision {
        self.revision
    }

    pub closed spec fn spec_spans(&self) -> Seq<AnalysisSpan> {
        self.spans@
    }

    pub closed spec fn spec_hint(&self) -> Option<Hint> {
        self.hint
    }

    /// Every span endpoint is a grapheme boundary of the draft bytes `b`.
    pub open spec fn fits(&self, b: Seq<u8>) -> bool {
        forall|i: int| 0 <= i < self.spec_spans().len() ==> is_boundary(b, (#[trigger] self.spec_spans()[i]).spec_start() as int)
            && is_boundary(b, self.spec_spans()[i].spec_end() as int)
    }

    /// Validate count and ordering before retaining payload. Adjacent ranges are
    /// allowed; overlap, empty and reversed ranges are rejected. No sorting/merging.
    pub fn new(revision: DraftRevision, spans: Vec<AnalysisSpan>, hint: Option<Hint>) -> (r: Result<Self, AnalysisPresentationError>)
        ensures
            match r {
                Ok(p) => spans@.len() <= MAX_ANALYSIS_SPANS && spans_ordered(spans@) && p.spec_revision() == revision
                    && p.spec_spans() == spans@ && p.spec_hint() == hint,
                Err(e) => (spans@.len() > MAX_ANALYSIS_SPANS && e is Limit)
                    || (spans@.len() <= MAX_ANALYSIS_SPANS && !spans_ordered(spans@) && e is InvalidSpans),
            },
    {
        if spans.len() > MAX_ANALYSIS_SPANS {
            return Err(AnalysisPresentationError::Limit);
        }
        let mut i: usize = 0;
        while i < spans.len()
            invariant
                i <= spans@.len(),
                spans@.len() <= MAX_ANALYSIS_SPANS,
                forall|j: int| 0 <= j < i && j < spans@.len() - 1 ==> (#[trigger] spans@[j]).spec_end() <= spans@[j + 1].spec_start(),
                forall|j: int| 0 <= j < i ==> (#[trigger] spans@[j]).spec_start() < spans@[j].spec_end(),
            decreases spans@.len() - i,
        {
            let sp = &spans[i];
            proof {
                use_type_invariant(sp);
            }
            if i + 1 < spans.len() && sp.end > spans[i + 1].start {
                return Err(AnalysisPresentationError::InvalidSpans);
            }
            i += 1;
        }
        Ok(AnalysisPresentation { revision, spans, hint })
    }

    /// Exact draft provenance, not host context or analysis-job priority.
    pub fn revision(&self) -> (r: DraftRevision)
        ensures
            r == self.spec_revision(),
    {
        self.revision
    }

    /// Ordered nonoverlapping generic styles over canonical text.
    pub fn spans(&self) -> (r: &[AnalysisSpan])
        ensures
            r@ == self.spec_spans(),
            r@.len() <= MAX_ANALYSIS_SPANS,
            spans_ordered(r@),
            spans_nonempty(r@),
    {
        proof {
            use_type_invariant(self);
        }
        self.spans.as_slice()
    }

    /// Optional non-canonical suffix.
    pub fn hint(&self) -> (r: Option<&Hint>)
        ensures
            r == match self.spec_hint() {
                Some(h) => Some(&h),
                None => None::<&Hint>,
            },
    {
        match &self.hint {
            Some(h) => Some(h),
            None => None,
        }
    }

    /// Whether the presentation carries neither spans nor a hint.
    pub fn is_empty(&self) -> (r: bool)
        ensures
            r == (self.spec_spans().len() == 0 && self.spec_hint() is None),
    {
        self.spans.len() == 0 && self.hint.is_none()
    }

    /// Show the hint as ` [~hint]` after the draft when the cursor is at its end
    /// and at least five cells remain; it never wraps or becomes draft text.
    pub fn append_hint(&self, frame: &mut Frame)
        requires
            old(frame).wf(),
        ensures
            final(frame).wf(),
            final(frame).lines@.len() == old(frame).lines@.len(),
            (self.spec_hint() is None || Frame::suffix_cells(*old(frame)) < 5) ==> *final(frame) == *old(frame),
            (self.spec_hint() is Some && Frame::suffix_cells(*old(frame)) >= 5) ==> Frame::suffix_added(*old(frame),
                *final(frame), self.spec_hint()->0.spec_role(), " [~"@ + clipped(self.spec_hint()->0.spec_text(),
                Frame::suffix_cells(*old(frame)) - 4) + "]"@),
    {
        proof {
            reveal_strlit(" [~");
            reveal_strlit("]");
        }
        let hint = match &self.hint {
            Some(h) => h,
            None => return,
        };
        let available = frame.suffix_room();
        if available < 5 {
            return;
        }
        let clipped = clip(hint.text.as_str(), available - 4);
        let mut text = String::new();
        text.append(" [~");
        text.append(clipped.as_str());
        text.append("]");
        frame.append_suffix(hint.role, text);
    }

    /// Check every span endpoint against the draft's grapheme boundaries.
    pub fn validate(&self, editor: &Editor) -> (r: Result<(), AnalysisPresentationError>)
        requires
            editor.wf(),
        ensures
            r is Ok <==> self.fits(editor.bytes()),
            r matches Err(e) ==> e == AnalysisPresentationError::Edit(EditError::InvalidRange),
    {
        let mut i: usize = 0;
        while i < self.spans.len()
            invariant
                editor.wf(),
                forall|j: int| 0 <= j < i ==> is_boundary(editor.bytes(), (#[trigger] self.spans@[j]).spec_start() as int)
                    && is_boundary(editor.bytes(), self.spans@[j].spec_end() as int),
            decreases self.spans@.len() - i,
        {
            let s = &self.spans[i];
            if !editor.is_boundary(s.start) || !editor.is_boundary(s.end) {
                assert(self.spec_spans()[i as int] == *s);
                return Err(AnalysisPresentationError::Edit(EditError::InvalidRange));
            }
            i += 1;
        }
        assert(self.spans@ == self.spec_spans());
        Ok(())
    }
}

/// Malformed presentation and terminal errors; staleness uses AnalysisOutcome.
#[derive(Debug)]
pub enum AnalysisPresentationError {
    /// Span count or hint size exceeds the public bound.
    Limit,
    /// Empty/reversed/overlapping or unordered spans.
    InvalidSpans,
    /// Empty hint or unsafe visible text.
    InvalidHint,
    /// Snapshot-dependent range is out of bounds or splits a grapheme.
    Edit(EditError),
    /// Invalid terminal lifecycle or I/O failure with existing cleanup context.
    Interaction(Error),
}

impl AnalysisPresentationError {
    /// Human-readable description of the failure.
    pub fn message(&self) -> (r: String)
        ensures
            match self {
                AnalysisPresentationError::Limit => r@ == "analysis presentation payload limit exceeded"@,
                AnalysisPresentationError::InvalidSpans => r@ == "analysis spans must be nonempty, ordered and disjoint"@,
                AnalysisPresentationError::InvalidHint => r@ == "invalid hint text"@,
                AnalysisPresentationError::Edit(e) => r@ == crate::editor::edit_error_text(*e),
                AnalysisPresentationError::Interaction(_) => true,
            },
    {
        match self {
            AnalysisPresentationError::Limit => "analysis presentation payload limit exceeded".to_owned(),
            AnalysisPresentationError::InvalidSpans => "analysis spans must be nonempty, ordered and disjoint".to_owned(),
            AnalysisPresentationError::InvalidHint => "invalid hint text".to_owned(),
            AnalysisPresentationError::Edit(e) => e.message().to_owned(),
            AnalysisPresentationError::Interaction(e) => e.message(),
        }
    }
}

} // verus!
