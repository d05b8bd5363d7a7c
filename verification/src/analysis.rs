//! Draft provenance shared by all host analyses, independent of terminals.
use std::sync::Arc;
use vstd::prelude::*;
use vstd::string::*;

verus! {

/// Identity of one analysis-visible state within its originating retained editor.
///
/// Equality is meaningful only within that editor's lifetime. No ordering,
/// arithmetic, clock or global uniqueness is promised.
#[derive(Clone, Copy, Debug, PartialEq, Eq, Structural)]
pub struct DraftRevision(u128);

impl DraftRevision {
    /// The numeric identity, strictly increasing within one editor.
    pub closed spec fn id(self) -> u128 {
        self.0
    }

    /// The identity of a new editor.
    pub fn initial() -> (r: Self)
        ensures
            r.id() == 0,
    {
        DraftRevision(0)
    }

    /// Move to the next identity. Exhaustion of the 128-bit domain is excluded.
    pub fn advance(&mut self)
        requires
            old(self).id() < u128::MAX,
        ensures
            final(self).id() == old(self).id() + 1,
    {
        self.0 = self.0 + 1;
    }
}

/// An immutable, coherent draft view which may outlive subsequent live editing.
///
/// Creation copies the draft once. Cloning shares its immutable text allocation;
/// the host can parse once and distribute derived results under the same revision.
#[derive(Clone, Debug, PartialEq)]
pub struct AnalysisSnapshot {
    revision: DraftRevision,
    text: Arc<String>,
    cursor: usize,
}

impl AnalysisSnapshot {
    /// Originating revision of the snapshot.
    pub closed spec fn spec_revision(&self) -> DraftRevision {
        self.revision
    }

    /// Draft characters captured by the snapshot.
    pub closed spec fn spec_text(&self) -> Seq<char> {
        self.text@
    }

    /// Byte cursor captured by the snapshot.
    pub closed spec fn spec_cursor(&self) -> usize {
        self.cursor
    }

    /// Capture one coherent view.
    pub fn new(revision: DraftRevision, text: &str, cursor: usize) -> (r: Self)
        ensures
            r.spec_revision() == revision,
            r.spec_text() == text@,
            r.spec_cursor() == cursor,
    {
        AnalysisSnapshot { revision, text: Arc::new(text.to_owned()), cursor }
    }

    /// Originating draft identity, scoped to its retained editor.
    pub fn revision(&self) -> (r: DraftRevision)
        ensures
            r == self.spec_revision(),
    {
        self.revision
    }

    /// Exact unmodified draft text, without host semantic context.
    pub fn text(&self) -> (r: &str)
        ensures
            r@ == self.spec_text(),
    {
        (*self.text).as_str()
    }

    /// UTF-8 byte offset at an extended-grapheme boundary in this snapshot.
    pub fn cursor(&self) -> (r: usize)
        ensures
            r == self.spec_cursor(),
    {
        self.cursor
    }
}

/// Revision-bound replacement outcome; malformed current edits remain edit errors.
#[derive(Clone, Copy, Debug, PartialEq, Eq, Structural)]
pub enum AnalysisOutcome {
    /// The originating revision was current and the replacement was admitted.
    Applied,
    /// The originating revision is no longer current. Nothing was changed.
    Stale,
}

} // verus!
