//! Revision-bound acceptable ghost text, separate from informational analysis hints.
use crate::analysis::{AnalysisSnapshot, DraftRevision};
use crate::editor::{EditError, Editor};
use crate::event::Error;
use crate::presentation::{clip, clipped, Frame, Role};
use crate::text::{blen, byte_len, bytes_of, spec_valid_text, substring, valid_text, visible_breaks, visible_char};
use vstd::prelude::*;
use vstd::string::*;
use vstd::utf8::*;

verus! {

broadcast use {encode_utf8_decode_utf8, encode_utf8_valid_utf8, decode_utf8_encode_utf8};

/// Maximum bytes in the single active suggestion.
pub const MAX_SUGGESTION_BYTES: usize = 4096;
/// Maximum source values inspected by a generic suggestion helper.
pub const MAX_SUGGESTION_SOURCE_ITEMS: usize = 4096;
/// Maximum total source bytes inspected by a generic suggestion helper.
pub const MAX_SUGGESTION_SOURCE_BYTES: usize = 4194304;

/// Explicit operation over the one active suggestion.
#[derive(Clone, Copy, Debug, Eq, PartialEq, Structural)]
pub enum SuggestionAction {
    /// Insert the suffix as one canonical undoable edit.
    Accept,
    /// Remove the suffix without changing draft or revision.
    Dismiss,
}

/// Invalid suggestion data, placement, or active interaction failure.
#[derive(Debug)]
pub enum SuggestionError {
    /// Empty, oversized, or over-budget helper input.
    Limit,
    /// Suggestions are suffixes and therefore require an end-of-draft cursor.
    NotAtEnd,
    /// Suggestion insertion text is invalid or exceeds editor capacity.
    Edit(EditError),
    /// Lifecycle or terminal failure under the normal cleanup contract.
    Interaction(Error),
}

impl SuggestionError {
    /// Human-readable description of the failure.
    pub fn message(&self) -> (r: String)
        ensures
            match self {
                SuggestionError::Limit => r@ == "suggestion limit exceeded"@,
                SuggestionError::NotAtEnd => r@ == "suggestion requires an end-of-draft cursor"@,
                SuggestionError::Edit(e) => r@ == crate::editor::edit_error_text(*e),
                SuggestionError::Interaction(_) => true,
            },
    {
        match self {
            SuggestionError::Limit => "suggestion limit exceeded".to_owned(),
            SuggestionError::NotAtEnd => "suggestion requires an end-of-draft cursor".to_owned(),
            SuggestionError::Edit(e) => e.message().to_owned(),
            SuggestionError::Interaction(e) => e.message(),
        }
    }
}

/// Why suggestion text is refused.
pub open spec fn suggestion_error(text: Seq<char>) -> Option<SuggestionError> {
    if text.len() == 0 || blen(text) > MAX_SUGGESTION_BYTES {
        Some(SuggestionError::Limit)
    } else if !spec_valid_text(text) {
        Some(SuggestionError::Edit(EditError::InvalidText))
    } else {
        None
    }
}

/// One immutable suffix for an exact draft-and-cursor revision.
#[derive(Clone, Debug, Eq, PartialEq)]
pub struct Suggestion {
    revision: DraftRevision,
    text: String,
}

impl Suggestion {
    /// Originating revision.
    pub closed spec fn spec_revision(&self) -> DraftRevision {
        self.revision
    }

    /// Suffix text.
    pub closed spec fn spec_text(&self) -> Seq<char> {
        self.text@
    }

    /// Construct nonempty bounded editor text. Delivery additionally requires an
    /// end-of-draft cursor and enough remaining editor capacity.
    pub fn new(revision: DraftRevision, text: &str) -> (r: Result<Self, SuggestionError>)
        ensures
            match r {
                Ok(s) => suggestion_error(text@) is None && s.spec_revision() == revision && s.spec_text() == text@,
                Err(e) => suggestion_error(text@) == Some(e),
            },
    {
        let n = byte_len(text);
        if n == 0 || n > MAX_SUGGESTION_BYTES {
            return Err(SuggestionError::Limit);
        }
        if !valid_text(text) {
            return Err(SuggestionError::Edit(EditError::InvalidText));
        }
        Ok(Suggestion { revision, text: text.to_owned() })
    }

    /// Originating canonical draft-and-cursor identity.
    pub fn revision(&self) -> (r: DraftRevision)
        ensures
            r == self.spec_revision(),
    {
        self.revision
    }

    /// Exact suffix inserted only by explicit acceptance.
    pub fn text(&self) -> (r: &str)
        ensures
            r@ == self.spec_text(),
    {
        self.text.as_str()
    }

    /// Check placement: the cursor is at the end and the suffix fits the capacity.
    pub fn validate(&self, editor: &Editor) -> (r: Result<(), SuggestionError>)
        requires
            editor.wf(),
        ensures
            match r {
                Ok(()) => editor.pos() == editor.bytes().len() && blen(self.spec_text()) <= editor.cap() - editor.bytes().len(),
                Err(e) => (editor.pos() != editor.bytes().len() && e is NotAtEnd) || (editor.pos() == editor.bytes().len()
                    && blen(self.spec_text()) > editor.cap() - editor.bytes().len() && e == SuggestionError::Edit(EditError::Capacity)),
            },
    {
        let n = editor.len();
        proof { editor.lemma_wf_facts(); }
        if editor.cursor() != n {
            return Err(SuggestionError::NotAtEnd);
        }
        let room = editor.capacity() - n;
        if byte_len(self.text.as_str()) > room {
            return Err(SuggestionError::Edit(EditError::Capacity));
        }
        Ok(())
    }

    /// Show the suffix as ` [→suffix]` after the draft, with line feeds and tabs
    /// made visible, when the cursor is at the end and five cells remain.
    pub fn append(&self, frame: &mut Frame)
        requires
            old(frame).wf(),
        ensures
            final(frame).wf(),
            final(frame).lines@.len() == old(frame).lines@.len(),
            Frame::suffix_cells(*old(frame)) < 5 ==> *final(frame) == *old(frame),
            Frame::suffix_cells(*old(frame)) >= 5 ==> Frame::suffix_added(*old(frame), *final(frame), Role::Dim,
                " [\u{2192}"@ + clipped(self.spec_text().map_values(|c: char| visible_char(c)),
                Frame::suffix_cells(*old(frame)) - 4) + "]"@),
    {
        proof {
            reveal_strlit(" [\u{2192}");
            reveal_strlit("]");
        }
        let available = frame.suffix_room();
        if available < 5 {
            return;
        }
        let visible = visible_breaks(self.text.as_str());
        let clipped = clip(visible.as_str(), available - 4);
        let mut text = String::new();
        text.append(" [\u{2192}");
        text.append(clipped.as_str());
        text.append("]");
        frame.append_suffix(Role::Dim, text);
    }
}

/// Total bytes of the sources.
pub open spec fn sources_bytes(sources: Seq<&str>) -> int
    decreases sources.len(),
{
    if sources.len() == 0 {
        0
    } else {
        sources_bytes(sources.drop_last()) + sources.last().spec_bytes().len()
    }
}

/// `source` is `prefix` followed by at least one more character.
pub open spec fn extends(source: Seq<u8>, prefix: Seq<u8>) -> bool {
    &&& prefix.len() < source.len()
    &&& source.subrange(0, prefix.len() as int) == prefix
    &&& is_char_boundary(source, prefix.len() as int)
}

fn extends_exec(source: &str, prefix: &str) -> (r: bool)
    ensures
        r == extends(source.spec_bytes(), prefix.spec_bytes()),
{
    let s = source.as_bytes();
    let p = prefix.as_bytes();
    if p.len() >= s.len() {
        return false;
    }
    let mut i: usize = 0;
    while i < p.len()
        invariant
            p@ == prefix.spec_bytes(),
            s@ == source.spec_bytes(),
            p@.len() < s@.len(),
            i <= p@.len(),
            forall|j: int| 0 <= j < i ==> s@[j] == p@[j],
        decreases p@.len() - i,
    {
        if s[i] != p[i] {
            assert(s@.subrange(0, p@.len() as int)[i as int] != p@[i as int]);
            return false;
        }
        i += 1;
    }
    assert(s@.subrange(0, p@.len() as int) =~= p@);
    source.is_char_boundary(p.len())
}

/// The first source that extends the draft, if any.
pub open spec fn first_extending(sources: Seq<&str>, prefix: Seq<u8>) -> Option<int> {
    if exists|i: int| 0 <= i < sources.len() && extends((#[trigger] sources[i]).spec_bytes(), prefix) {
        let i = choose|i: int| 0 <= i < sources.len() && extends((#[trigger] sources[i]).spec_bytes(), prefix)
            && forall|j: int| 0 <= j < i ==> !extends((#[trigger] sources[j]).spec_bytes(), prefix);
        Some(i)
    } else {
        None
    }
}

/// What a helper returns for `sources` and a snapshot with bytes `draft` and cursor `cursor`.
pub open spec fn helper_result(sources: Seq<&str>, draft: Seq<u8>, cursor: int, rev: DraftRevision, r: Result<Option<Suggestion>, SuggestionError>) -> bool {
    if sources.len() > MAX_SUGGESTION_SOURCE_ITEMS || sources_bytes(sources) > MAX_SUGGESTION_SOURCE_BYTES {
        r matches Err(e) && e is Limit
    } else if cursor != draft.len() {
        r matches Err(e) && e is NotAtEnd
    } else {
        match first_extending(sources, draft) {
            None => r == Ok::<Option<Suggestion>, SuggestionError>(None),
            Some(i) => {
                let suffix = sources[i].spec_bytes().subrange(draft.len() as int, sources[i].spec_bytes().len() as int);
                match r {
                    Ok(Some(s)) => suggestion_error(decode_utf8(suffix)) is None && s.spec_revision() == rev
                        && bytes_of(s.spec_text()) == suffix,
                    Ok(None) => false,
                    Err(e) => suggestion_error(decode_utf8(suffix)) == Some(e),
                }
            },
        }
    }
}

proof fn lemma_sources_bytes_nonneg(s: Seq<&str>)
    ensures
        sources_bytes(s) >= 0,
    decreases s.len(),
{
    if s.len() > 0 {
        lemma_sources_bytes_nonneg(s.drop_last());
    }
}

fn from_sources(snapshot: &AnalysisSnapshot, sources: &[&str]) -> (r: Result<Option<Suggestion>, SuggestionError>)
    ensures
        helper_result(sources@, bytes_of(snapshot.spec_text()), snapshot.spec_cursor() as int, snapshot.spec_revision(), r),
{
    if sources.len() > MAX_SUGGESTION_SOURCE_ITEMS {
        return Err(SuggestionError::Limit);
    }
    let mut total: usize = 0;
    let mut k: usize = 0;
    while k < sources.len()
        invariant
            k <= sources@.len(),
            total == sources_bytes(sources@.take(k as int)),
            total <= MAX_SUGGESTION_SOURCE_BYTES,
        decreases sources@.len() - k,
    {
        proof {
            assert(sources@.take(k + 1).drop_last() =~= sources@.take(k as int));
            lemma_sources_bytes_nonneg(sources@.take(k + 1));
        }
        let n = byte_len(sources[k]);
        if n > MAX_SUGGESTION_SOURCE_BYTES - total {
            proof {
                assert(sources_bytes(sources@.take(k + 1)) > MAX_SUGGESTION_SOURCE_BYTES);
                lemma_prefix_bytes_le(sources@, k + 1);
            }
            return Err(SuggestionError::Limit);
        }
        total = total + n;
        k += 1;
    }
    assert(sources@.take(k as int) =~= sources@);
    assert(sources_bytes(sources@) <= MAX_SUGGESTION_SOURCE_BYTES);
    let text = snapshot.text();
    let len = byte_len(text);
    assert(!(sources@.len() > MAX_SUGGESTION_SOURCE_ITEMS || sources_bytes(sources@) > MAX_SUGGESTION_SOURCE_BYTES));
    if snapshot.cursor() != len {
        return Err(SuggestionError::NotAtEnd);
    }
    let mut i: usize = 0;
    while i < sources.len()
        invariant
            i <= sources@.len(),
            text.spec_bytes() == bytes_of(snapshot.spec_text()),
            len == text.spec_bytes().len(),
            sources@.len() <= MAX_SUGGESTION_SOURCE_ITEMS,
            sources_bytes(sources@) <= MAX_SUGGESTION_SOURCE_BYTES,
            snapshot.spec_cursor() == len,
            forall|j: int| 0 <= j < i ==> !extends((#[trigger] sources@[j]).spec_bytes(), text.spec_bytes()),
        decreases sources@.len() - i,
    {
        let source = sources[i];
        if extends_exec(source, text) {
            proof {
                assert(extends(sources@[i as int].spec_bytes(), text.spec_bytes()));
                let w = first_extending(sources@, text.spec_bytes());
                assert(w == Some(i as int)) by {
                    let c = choose|c: int| 0 <= c < sources@.len() && extends((#[trigger] sources@[c]).spec_bytes(), text.spec_bytes())
                        && forall|j: int| 0 <= j < c ==> !extends((#[trigger] sources@[j]).spec_bytes(), text.spec_bytes());
                    assert(0 <= i < sources@.len() && extends(sources@[i as int].spec_bytes(), text.spec_bytes())
                        && forall|j: int| 0 <= j < i ==> !extends((#[trigger] sources@[j]).spec_bytes(), text.spec_bytes()));
                    if c < i {
                    } else if c > i {
                        assert(!extends(sources@[i as int].spec_bytes(), text.spec_bytes()));
                    }
                };
                is_char_boundary_start_end_of_seq(source.spec_bytes());
            }
            let suffix = substring(source, len, byte_len(source));
            return match Suggestion::new(snapshot.revision(), suffix.as_str()) {
                Ok(s) => Ok(Some(s)),
                Err(e) => Err(e),
            };
        }
        i += 1;
    }
    Ok(None)
}

proof fn lemma_prefix_bytes_le(s: Seq<&str>, k: int)
    requires
        0 <= k <= s.len(),
    ensures
        sources_bytes(s.take(k)) <= sources_bytes(s),
    decreases s.len(),
{
    if k < s.len() {
        assert(s.drop_last().take(k) =~= s.take(k));
        lemma_prefix_bytes_le(s.drop_last(), k);
    } else {
        assert(s.take(k) =~= s);
    }
}

/// Select the first caller-ordered value extending the current whole-draft prefix.
pub fn suggest_from_static(snapshot: &AnalysisSnapshot, values: &[&str]) -> (r: Result<Option<Suggestion>, SuggestionError>)
    ensures
        helper_result(values@, bytes_of(snapshot.spec_text()), snapshot.spec_cursor() as int, snapshot.spec_revision(), r),
{
    from_sources(snapshot, values)
}

/// Select the newest first history value extending the current whole-draft prefix.
/// Durable history storage, ordering, privacy, and retention remain host-owned.
pub fn suggest_from_history(snapshot: &AnalysisSnapshot, newest_first: &[&str]) -> (r: Result<Option<Suggestion>, SuggestionError>)
    ensures
        helper_result(newest_first@, bytes_of(snapshot.spec_text()), snapshot.spec_cursor() as int, snapshot.spec_revision(), r),
{
    from_sources(snapshot, newest_first)
}

} // verus!
