//! Bounded host-fed history views for deterministic in-editor search.
use crate::analysis::DraftRevision;
use crate::analysis_presentation::AnalysisPresentation;
use crate::editor::{EditError, Editor};
use crate::document::{pieces, rows_view, Piece};
use crate::presentation::{analysis_spans, clip, clipped, draft_rows, frame_geometry, frame_rows, Frame, Line, Point, Prompt, Role, Run};
use crate::segment::{contains_word, display_width, display_width_of, grapheme_starts, partition_offsets, word_starts};
use crate::text::{blen, byte_len, bytes_of, spec_valid_text, substring, valid_text, visible_breaks, visible_char};
use vstd::prelude::*;
use vstd::string::*;
use vstd::utf8::*;

verus! {

broadcast use {encode_utf8_decode_utf8, encode_utf8_valid_utf8, decode_utf8_encode_utf8};

/// Default maximum history entries retained in one external search view.
pub const DEFAULT_HISTORY_SEARCH_ENTRIES: usize = 1024;
/// Default maximum UTF-8 bytes retained in one external search view.
pub const DEFAULT_HISTORY_SEARCH_BYTES: usize = 1048576;
/// Default maximum UTF-8 bytes in a reverse-search query.
pub const DEFAULT_HISTORY_QUERY_BYTES: usize = 4096;

/// Failure to construct or install a bounded history-search view.
#[derive(Clone, Copy, Debug, Eq, PartialEq, Structural)]
pub enum HistoryError {
    /// A configured bound was zero.
    InvalidLimits,
    /// A provider entry contains a disallowed control character.
    InvalidText,
    /// One entry exceeds the retained-byte bound.
    EntryTooLarge,
    /// The provider reported a failure.
    Provider,
    /// The view cannot be installed while search is active.
    SearchActive,
}

impl HistoryError {
    /// Human-readable description of the failure.
    pub fn message(&self) -> (r: &'static str)
        ensures
            match self {
                HistoryError::InvalidLimits => r@ == "history search limits must be non-zero"@,
                HistoryError::InvalidText => r@ == "history entry contains unsupported control text"@,
                HistoryError::EntryTooLarge => r@ == "history entry exceeds the retained search bound"@,
                HistoryError::Provider => r@ == "history provider failed"@,
                HistoryError::SearchActive => r@ == "history search is active"@,
            },
    {
        match self {
            HistoryError::InvalidLimits => "history search limits must be non-zero",
            HistoryError::InvalidText => "history entry contains unsupported control text",
            HistoryError::EntryTooLarge => "history entry exceeds the retained search bound",
            HistoryError::Provider => "history provider failed",
            HistoryError::SearchActive => "history search is active",
        }
    }
}

/// Explicit bounds for one host-provided history-search view.
#[derive(Clone, Copy, Debug, Eq, PartialEq, Structural)]
pub struct HistorySearchLimits {
    entries: usize,
    bytes: usize,
    query_bytes: usize,
}

impl HistorySearchLimits {
    /// Entry bound.
    pub closed spec fn spec_entries(self) -> usize {
        self.entries
    }

    /// Retained-byte bound.
    pub closed spec fn spec_bytes(self) -> usize {
        self.bytes
    }

    /// Query-byte bound.
    pub closed spec fn spec_query_bytes(self) -> usize {
        self.query_bytes
    }

    /// Construct non-zero entry, retained-byte and query-byte bounds.
    pub fn new(entries: usize, bytes: usize, query_bytes: usize) -> (r: Result<Self, HistoryError>)
        ensures
            match r {
                Ok(l) => entries > 0 && bytes > 0 && query_bytes > 0 && l.spec_entries() == entries
                    && l.spec_bytes() == bytes && l.spec_query_bytes() == query_bytes,
                Err(e) => (entries == 0 || bytes == 0 || query_bytes == 0) && e == HistoryError::InvalidLimits,
            },
    {
        if entries == 0 || bytes == 0 || query_bytes == 0 {
            return Err(HistoryError::InvalidLimits);
        }
        Ok(HistorySearchLimits { entries, bytes, query_bytes })
    }

    /// Maximum entries inspected by one search action.
    pub fn entries(self) -> (r: usize)
        ensures
            r == self.spec_entries(),
    {
        self.entries
    }

    /// Maximum total UTF-8 bytes retained from the provider.
    pub fn bytes(self) -> (r: usize)
        ensures
            r == self.spec_bytes(),
    {
        self.bytes
    }

    /// Maximum UTF-8 bytes in a search query.
    pub fn query_bytes(self) -> (r: usize)
        ensures
            r == self.spec_query_bytes(),
    {
        self.query_bytes
    }
}

impl Default for HistorySearchLimits {
    fn default() -> (r: Self)
        ensures
            r.spec_entries() == DEFAULT_HISTORY_SEARCH_ENTRIES,
            r.spec_bytes() == DEFAULT_HISTORY_SEARCH_BYTES,
            r.spec_query_bytes() == DEFAULT_HISTORY_QUERY_BYTES,
    {
        HistorySearchLimits {
            entries: DEFAULT_HISTORY_SEARCH_ENTRIES,
            bytes: DEFAULT_HISTORY_SEARCH_BYTES,
            query_bytes: DEFAULT_HISTORY_QUERY_BYTES,
        }
    }
}

/// Opaque provider failure. Host error text is deliberately not presented.
#[derive(Clone, Copy, Debug, Eq, PartialEq, Structural)]
pub struct HistoryProviderError;

/// Host-owned source queried synchronously while constructing a bounded view.
///
/// Index zero is the newest entry. The host maps its own storage errors to
/// [`HistoryProviderError`]. The provider is never retained or called from the
/// terminal input path; database/network scheduling remains host-owned.
pub trait HistoryProvider {
    /// Return one newest-first entry, or `None` after the oldest available entry.
    fn entry(&mut self, newest_index: usize) -> Result<Option<String>, HistoryProviderError>;
}

/// Total bytes of a sequence of texts.
pub open spec fn total_bytes(es: Seq<Seq<char>>) -> int
    decreases es.len(),
{
    if es.len() == 0 {
        0
    } else {
        total_bytes(es.drop_last()) + blen(es.last())
    }
}

/// The newest-first view kept from `items[k..]`, given the texts `acc` already kept
/// holding `bytes` bytes: entries are taken up to the entry limit and while they fit
/// the byte bound; an entry with a disallowed control, or larger than the whole
/// bound, fails the view.
pub open spec fn view_from(items: Seq<Seq<char>>, limits: HistorySearchLimits, k: int, acc: Seq<Seq<char>>, bytes: int)
    -> Result<Seq<Seq<char>>, HistoryError>
    decreases items.len() - k,
{
    if k >= items.len() || k >= limits.spec_entries() {
        Ok(acc)
    } else if !spec_valid_text(items[k]) {
        Err(HistoryError::InvalidText)
    } else if blen(items[k]) > limits.spec_bytes() {
        Err(HistoryError::EntryTooLarge)
    } else if bytes + blen(items[k]) > limits.spec_bytes() {
        Ok(acc)
    } else {
        view_from(items, limits, k + 1, acc.push(items[k]), bytes + blen(items[k]))
    }
}

/// The bounded view of a newest-first list.
pub open spec fn bounded_view(items: Seq<Seq<char>>, limits: HistorySearchLimits) -> Result<Seq<Seq<char>>, HistoryError> {
    view_from(items, limits, 0, Seq::empty(), 0)
}

/// Immutable bounded copy used by search mechanics.
///
/// Construction is atomic: failure returns no view, and hitting the aggregate
/// entry/byte bound truncates at the oldest edge rather than retaining partially
/// validated data.
#[derive(Clone, Debug)]
pub struct HistorySearchSource {
    entries: Vec<String>,
    bytes: usize,
    limits: HistorySearchLimits,
}

impl HistorySearchSource {
    /// Retained entries, newest first.
    pub closed spec fn spec_entries(&self) -> Seq<Seq<char>> {
        self.entries@.map_values(|s: String| s@)
    }

    /// Retained bytes.
    pub closed spec fn spec_bytes(&self) -> usize {
        self.bytes
    }

    /// Governing limits.
    pub closed spec fn spec_limits(&self) -> HistorySearchLimits {
        self.limits
    }

    /// The view respects its limits and holds editor text only.
    pub open spec fn wf(&self) -> bool {
        &&& self.spec_entries().len() <= self.spec_limits().spec_entries()
        &&& self.spec_bytes() == total_bytes(self.spec_entries())
        &&& self.spec_bytes() <= self.spec_limits().spec_bytes()
        &&& forall|i: int| 0 <= i < self.spec_entries().len() ==> spec_valid_text(#[trigger] self.spec_entries()[i])
    }

    /// Materialize a newest-first bounded view from host-owned storage. The
    /// provider is asked for entries 0, 1, 2, ... in order, one per call, for as
    /// long as a [`HistoryCollector`] wants more answers; the view is what the
    /// collector makes of the answers.
    pub fn from_provider<P: HistoryProvider>(provider: &mut P, limits: HistorySearchLimits) -> (r: Result<Self, HistoryError>)
        ensures
            limits.spec_entries() == 0 ==> (r matches Ok(s) && s.spec_entries().len() == 0),
            r matches Ok(s) ==> s.wf() && s.spec_limits() == limits && exists|answers: Seq<Answer>|
                #[trigger] answered_view(answers, limits) == Some(Ok::<Seq<Seq<char>>, HistoryError>(s.spec_entries())),
            r matches Err(e) ==> exists|answers: Seq<Answer>|
                #[trigger] answered_view(answers, limits) == Some(Err::<Seq<Seq<char>>, HistoryError>(e)),
    {
        let mut collector = HistoryCollector::new(limits);
        while collector.wants_more()
            invariant
                collector.wf(),
                collector.spec_limits() == limits,
            decreases limits.spec_entries() - collector.spec_answers().len(),
        {
            let index = collector.next_index();
            let answer = provider.entry(index);
            collector.offer(answer);
        }
        proof {
            if limits.spec_entries() == 0 {
                assert(collector.spec_answers().len() == 0);
            }
        }
        let ghost answers = collector.spec_answers();
        let r = collector.finish();
        assert(answered_view(answers, limits) is Some);
        r
    }

    /// Build from a newest-first list using the same provider contract.
    pub fn from_entries(entries: &[&str], limits: HistorySearchLimits) -> (r: Result<Self, HistoryError>)
        ensures
            match r {
                Ok(s) => s.wf() && s.spec_limits() == limits
                    && bounded_view(entries@.map_values(|e: &str| e@), limits) == Ok::<Seq<Seq<char>>, HistoryError>(s.spec_entries()),
                Err(e) => bounded_view(entries@.map_values(|e: &str| e@), limits) == Err::<Seq<Seq<char>>, HistoryError>(e),
            },
    {
        let ghost items = entries@.map_values(|e: &str| e@);
        let mut kept: Vec<String> = Vec::new();
        let mut bytes: usize = 0;
        let mut index: usize = 0;
        assert(kept@.map_values(|s: String| s@) =~= Seq::<Seq<char>>::empty());
        while index < limits.entries && index < entries.len()
            invariant
                items == entries@.map_values(|e: &str| e@),
                index <= entries@.len(),
                index <= limits.spec_entries(),
                kept@.len() == index,
                forall|i: int| 0 <= i < index ==> (#[trigger] kept@[i])@ == items[i],
                bytes == total_bytes(kept@.map_values(|s: String| s@)),
                bytes <= limits.spec_bytes(),
                forall|i: int| 0 <= i < kept@.len() ==> spec_valid_text(#[trigger] kept@[i]@),
                bounded_view(items, limits) == view_from(items, limits, index as int,
                    kept@.map_values(|s: String| s@), bytes as int),
            decreases entries@.len() - index,
        {
            let entry = entries[index].to_owned();
            if !valid_text(entry.as_str()) {
                return Err(HistoryError::InvalidText);
            }
            let n = byte_len(entry.as_str());
            if n > limits.bytes {
                return Err(HistoryError::EntryTooLarge);
            }
            if n > limits.bytes - bytes {
                let r = HistorySearchSource { entries: kept, bytes, limits };
                proof {
                    assert(r.spec_entries() == kept@.map_values(|s: String| s@));
                }
                return Ok(r);
            }
            let ghost before = kept@;
            kept.push(entry);
            bytes = bytes + n;
            index += 1;
            proof {
                assert(kept@.map_values(|s: String| s@).drop_last() =~= before.map_values(|s: String| s@));
                assert(kept@.map_values(|s: String| s@) =~= before.map_values(|s: String| s@).push(items[index - 1]));
            }
        }
        let r = HistorySearchSource { entries: kept, bytes, limits };
        proof {
            assert(r.spec_entries() == kept@.map_values(|s: String| s@));
        }
        Ok(r)
    }

    /// Number of retained entries.
    pub fn len(&self) -> (r: usize)
        ensures
            r == self.spec_entries().len(),
    {
        self.entries.len()
    }

    /// Whether no entries were retained.
    pub fn is_empty(&self) -> (r: bool)
        ensures
            r == (self.spec_entries().len() == 0),
    {
        self.entries.len() == 0
    }

    /// Retained provider payload bytes.
    pub fn retained_bytes(&self) -> (r: usize)
        ensures
            r == self.spec_bytes(),
    {
        self.bytes
    }

    /// Limits governing this view and its search query.
    pub fn limits(&self) -> (r: HistorySearchLimits)
        ensures
            r == self.spec_limits(),
    {
        self.limits
    }

    /// Retained entries, newest first.
    pub fn entries(&self) -> (r: &[String])
        ensures
            r@.map_values(|s: String| s@) == self.spec_entries(),
    {
        self.entries.as_slice()
    }
}

/// One provider answer: a failure (`None`), no further entry (`Some(None)`),
/// or an entry's text.
pub type Answer = Option<Option<Seq<char>>>;

/// What the answers `a[k..]` decide, given the texts `acc` kept so far
/// holding `bytes` bytes: `None` while another answer is wanted. The view
/// ends at the entry limit, at the end of the provider's entries, or at the
/// first entry that no longer fits the byte bound; a provider failure, an
/// entry with a disallowed control, or one larger than the whole bound fails it.
pub open spec fn answered_from(a: Seq<Answer>, limits: HistorySearchLimits, k: int, acc: Seq<Seq<char>>, bytes: int)
    -> Option<Result<Seq<Seq<char>>, HistoryError>>
    decreases a.len() - k,
{
    if k >= limits.spec_entries() {
        Some(Ok(acc))
    } else if k >= a.len() || k < 0 {
        None
    } else {
        match a[k] {
            None => Some(Err(HistoryError::Provider)),
            Some(None) => Some(Ok(acc)),
            Some(Some(t)) => if !spec_valid_text(t) {
                Some(Err(HistoryError::InvalidText))
            } else if blen(t) > limits.spec_bytes() {
                Some(Err(HistoryError::EntryTooLarge))
            } else if bytes + blen(t) > limits.spec_bytes() {
                Some(Ok(acc))
            } else {
                answered_from(a, limits, k + 1, acc.push(t), bytes + blen(t))
            },
        }
    }
}

/// What a sequence of answers to the queries 0, 1, 2, ... decides.
pub open spec fn answered_view(a: Seq<Answer>, limits: HistorySearchLimits) -> Option<Result<Seq<Seq<char>>, HistoryError>> {
    answered_from(a, limits, 0, Seq::empty(), 0)
}

/// The view of one answer from a provider.
pub open spec fn answer_view(r: Result<Option<String>, HistoryProviderError>) -> Answer {
    match r {
        Ok(Some(t)) => Some(Some(t@)),
        Ok(None) => Some(None),
        Err(_) => None,
    }
}

/// Step-by-step construction of a bounded view from provider answers, given
/// in order for the indices 0, 1, 2, ...
pub struct HistoryCollector {
    entries: Vec<String>,
    bytes: usize,
    limits: HistorySearchLimits,
    outcome: Option<Result<(), HistoryError>>,
    answers: Ghost<Seq<Answer>>,
}

impl HistoryCollector {
    /// The answers offered so far.
    pub closed spec fn spec_answers(&self) -> Seq<Answer> {
        self.answers@
    }

    /// The governing limits.
    pub closed spec fn spec_limits(&self) -> HistorySearchLimits {
        self.limits
    }

    /// The kept texts.
    closed spec fn kept(&self) -> Seq<Seq<char>> {
        self.entries@.map_values(|s: String| s@)
    }

    /// Internal consistency: the kept texts are what the answers decided so far.
    pub closed spec fn wf(&self) -> bool {
        let acc = self.kept();
        let k = acc.len() as int;
        &&& self.bytes == total_bytes(acc)
        &&& self.bytes <= self.limits.spec_bytes()
        &&& forall|i: int| 0 <= i < acc.len() ==> spec_valid_text(#[trigger] acc[i])
        &&& acc.len() <= self.limits.spec_entries()
        &&& self.answers@.len() <= self.limits.spec_entries()
        &&& match self.outcome {
            None => self.answers@.len() == k && k < self.limits.spec_entries()
                && forall|tail: Seq<Answer>| #[trigger] answered_from(self.answers@ + tail, self.limits, 0, Seq::empty(), 0)
                    == answered_from(self.answers@ + tail, self.limits, k, acc, self.bytes as int),
            Some(Ok(())) => answered_view(self.answers@, self.limits) == Some(Ok::<Seq<Seq<char>>, HistoryError>(acc)),
            Some(Err(e)) => answered_view(self.answers@, self.limits) == Some(Err::<Seq<Seq<char>>, HistoryError>(e)),
        }
        &&& (self.outcome is None <==> answered_view(self.answers@, self.limits) is None)
    }

    /// A collector that has been given no answer.
    pub fn new(limits: HistorySearchLimits) -> (r: Self)
        ensures
            r.wf(),
            r.spec_limits() == limits,
            r.spec_answers().len() == 0,
    {
        let ghost e: Seq<Answer> = Seq::empty();
        let r = HistoryCollector {
            entries: Vec::new(),
            bytes: 0,
            limits,
            outcome: if limits.entries == 0 { Some(Ok(())) } else { None },
            answers: Ghost(e),
        };
        proof {
            assert(r.kept() =~= Seq::<Seq<char>>::empty());
            assert forall|tail: Seq<Answer>| #[trigger] answered_from(e + tail, limits, 0, Seq::empty(), 0)
                == answered_from(e + tail, limits, 0, r.kept(), 0) by {}
            assert(e + Seq::<Answer>::empty() =~= e);
        }
        r
    }

    /// Whether another answer is wanted.
    pub fn wants_more(&self) -> (r: bool)
        requires
            self.wf(),
        ensures
            r == (answered_view(self.spec_answers(), self.spec_limits()) is None),
            r ==> self.spec_answers().len() < self.spec_limits().spec_entries(),
    {
        self.outcome.is_none()
    }

    /// The index the next answer is for: the number of answers given so far.
    pub fn next_index(&self) -> (r: usize)
        requires
            self.wf(),
            answered_view(self.spec_answers(), self.spec_limits()) is None,
        ensures
            r == self.spec_answers().len(),
    {
        self.entries.len()
    }

    /// Take the answer for the next index.
    pub fn offer(&mut self, answer: Result<Option<String>, HistoryProviderError>)
        requires
            old(self).wf(),
            answered_view(old(self).spec_answers(), old(self).spec_limits()) is None,
        ensures
            final(self).wf(),
            final(self).spec_limits() == old(self).spec_limits(),
            final(self).spec_answers() == old(self).spec_answers().push(answer_view(answer)),
    {
        let ghost a0 = self.answers@;
        let ghost x = answer_view(answer);
        let ghost a1 = a0.push(x);
        let ghost acc = self.kept();
        let ghost k = acc.len() as int;
        proof {
            assert(a0 + seq![x] =~= a1);
            assert(answered_view(a1, self.limits) == answered_from(a0 + seq![x], self.limits, k, acc, self.bytes as int));
            assert(a1[k] == x);
        }
        self.answers = Ghost(a1);
        match answer {
            Err(_) => {
                self.outcome = Some(Err(HistoryError::Provider));
            },
            Ok(None) => {
                self.outcome = Some(Ok(()));
            },
            Ok(Some(entry)) => {
                if !valid_text(entry.as_str()) {
                    self.outcome = Some(Err(HistoryError::InvalidText));
                    return;
                }
                let n = byte_len(entry.as_str());
                if n > self.limits.bytes {
                    self.outcome = Some(Err(HistoryError::EntryTooLarge));
                    return;
                }
                if n > self.limits.bytes - self.bytes {
                    self.outcome = Some(Ok(()));
                    return;
                }
                let ghost before = self.entries@;
                self.entries.push(entry);
                self.bytes = self.bytes + n;
                proof {
                    assert(self.kept().drop_last() =~= before.map_values(|s: String| s@));
                    assert(self.kept() =~= acc.push(self.entries@.last()@));
                    assert forall|tail: Seq<Answer>| #[trigger] answered_from(a1 + tail, self.limits, 0, Seq::empty(), 0)
                        == answered_from(a1 + tail, self.limits, k + 1, self.kept(), self.bytes as int) by {
                        let t2 = seq![x] + tail;
                        assert(a0 + t2 =~= a1 + tail);
                        assert((a1 + tail)[k] == x);
                    }
                }
                if self.entries.len() == self.limits.entries {
                    self.outcome = Some(Ok(()));
                    proof {
                        assert(a1 + Seq::<Answer>::empty() =~= a1);
                        assert(answered_view(a1, self.limits) == answered_from(a1 + Seq::<Answer>::empty(), self.limits, k + 1,
                            self.kept(), self.bytes as int));
                    }
                } else {
                    proof {
                        assert(a1 + Seq::<Answer>::empty() =~= a1);
                        assert(answered_view(a1, self.limits) == answered_from(a1 + Seq::<Answer>::empty(), self.limits, k + 1,
                            self.kept(), self.bytes as int));
                    }
                }
            },
        }
    }

    /// The view the answers decided.
    pub fn finish(self) -> (r: Result<HistorySearchSource, HistoryError>)
        requires
            self.wf(),
            answered_view(self.spec_answers(), self.spec_limits()) is Some,
        ensures
            match r {
                Ok(s) => s.wf() && s.spec_limits() == self.spec_limits() && answered_view(self.spec_answers(),
                    self.spec_limits()) == Some(Ok::<Seq<Seq<char>>, HistoryError>(s.spec_entries())),
                Err(e) => answered_view(self.spec_answers(), self.spec_limits()) == Some(Err::<Seq<Seq<char>>, HistoryError>(e)),
            },
    {
        match self.outcome {
            Some(Err(e)) => Err(e),
            _ => {
                let r = HistorySearchSource { entries: self.entries, bytes: self.bytes, limits: self.limits };
                proof {
                    assert(r.spec_entries() == self.kept());
                }
                Ok(r)
            },
        }
    }
}

/// Whether `needle` occurs in `hay` as consecutive bytes.
pub open spec fn contains_bytes(hay: Seq<u8>, needle: Seq<u8>) -> bool {
    exists|i: int| 0 <= i <= hay.len() - needle.len() && #[trigger] hay.subrange(i, i + needle.len()) == needle
}

/// Whether `needle` occurs in `hay`.
pub fn str_contains(hay: &str, needle: &str) -> (r: bool)
    ensures
        r == contains_bytes(hay.spec_bytes(), needle.spec_bytes()),
{
    let h = hay.as_bytes();
    let n = needle.as_bytes();
    if n.len() > h.len() {
        return false;
    }
    let hl = h.len();
    let last = hl - n.len();
    let mut i: usize = 0;
    while i <= last
        invariant
            hl == h@.len(),
            h@ == hay.spec_bytes(),
            n@ == needle.spec_bytes(),
            last == h@.len() - n@.len(),
            i <= last + 1,
            forall|k: int| 0 <= k < i ==> #[trigger] h@.subrange(k, k + n@.len()) != n@,
        decreases last + 1 - i,
    {
        let mut j: usize = 0;
        while j < n.len()
            invariant
                hl == h@.len(),
                h@ == hay.spec_bytes(),
                n@ == needle.spec_bytes(),
                i <= last,
                last == h@.len() - n@.len(),
                i + n@.len() <= h@.len(),
                j <= n@.len(),
                forall|t: int| 0 <= t < j ==> h@[i + t] == n@[t],
            ensures
                j <= n@.len(),
                forall|t: int| 0 <= t < j ==> h@[i + t] == n@[t],
                j < n@.len() ==> h@[i + j] != n@[j as int],
            decreases n@.len() - j,
        {
            if h[i + j] != n[j] {
                break;
            }
            j += 1;
        }
        if j == n.len() {
            assert(h@.subrange(i as int, i + n@.len()) =~= n@);
            return true;
        }
        assert(h@.subrange(i as int, i + n@.len())[j as int] != n@[j as int]);
        i += 1;
    }
    proof {
        assert forall|k: int| 0 <= k <= h@.len() - n@.len() implies #[trigger] h@.subrange(k, k + n@.len()) != n@ by {
            assert(k < i);
        }
    }
    false
}

/// Whether history entry `e` contains the query bytes `q`.
pub open spec fn entry_matches(e: String, q: Seq<u8>) -> bool {
    contains_bytes(bytes_of(e@), q)
}

/// Whether the `i`th UAX #29 word-bound segment of `q` holds a word.
pub open spec fn segment_has_word(q: Seq<char>, i: int) -> bool {
    let b = bytes_of(q);
    let ws = crate::segment::word_starts_of(q);
    crate::segment::contains_word_of(decode_utf8(b.subrange(ws[i] as int, crate::presentation::segment_end(b, ws, i))))
}

/// `r` is the query `q` with its last word deleted: cut at the start of the
/// last word-bound segment of `q` that holds a word, or emptied when no
/// segment holds one.
pub open spec fn query_word_deleted(q: Seq<char>, r: Seq<char>) -> bool {
    let ws = crate::segment::word_starts_of(q);
    ||| (forall|i: int| 0 <= i < ws.len() ==> !#[trigger] segment_has_word(q, i)) && bytes_of(r).len() == 0
    ||| exists|i: int| 0 <= i < ws.len() && #[trigger] segment_has_word(q, i)
        && (forall|j: int| i < j < ws.len() ==> !#[trigger] segment_has_word(q, j))
        && bytes_of(r) == bytes_of(q).subrange(0, ws[i] as int)
}

/// Deleting the last word of a query keeps a prefix of it: everything before
/// the start of its last segment that holds a word. What was removed starts
/// with that segment, and nothing removed after it holds a word; an empty
/// result means the query held no word, or its only word segment came first.
pub proof fn law_query_word_deletion(q: Seq<char>, r: Seq<char>)
    requires
        query_word_deleted(q, r),
        partition_offsets(bytes_of(q), crate::segment::word_starts_of(q)),
    ensures
        bytes_of(q).subrange(0, bytes_of(r).len() as int) == bytes_of(r),
        bytes_of(r).len() <= bytes_of(q).len(),
        (exists|i: int| 0 <= i < crate::segment::word_starts_of(q).len() && #[trigger] segment_has_word(q, i))
            ==> bytes_of(r).len() < bytes_of(q).len() && (exists|i: int| 0 <= i < crate::segment::word_starts_of(q).len()
                && #[trigger] segment_has_word(q, i) && crate::segment::word_starts_of(q)[i] == bytes_of(r).len()),
{
    let ws = crate::segment::word_starts_of(q);
    let b = bytes_of(q);
    if forall|i: int| 0 <= i < ws.len() ==> !#[trigger] segment_has_word(q, i) {
        assert(b.subrange(0, 0) =~= bytes_of(r));
    } else {
        let i = choose|i: int| 0 <= i < ws.len() && #[trigger] segment_has_word(q, i)
            && (forall|j: int| i < j < ws.len() ==> !#[trigger] segment_has_word(q, j))
            && bytes_of(r) == b.subrange(0, ws[i] as int);
        assert(ws[i] < b.len());
        assert(b.subrange(0, bytes_of(r).len() as int) =~= bytes_of(r));
    }
}

/// Offset of the last word-bound segment of `q` that holds a word, else zero.
fn last_word_start(q: &str) -> (r: usize)
    ensures
        r <= q.spec_bytes().len(),
        is_char_boundary(q.spec_bytes(), r as int),
        ({
            let ws = crate::segment::word_starts_of(q@);
            ||| (forall|i: int| 0 <= i < ws.len() ==> !#[trigger] segment_has_word(q@, i)) && r == 0
            ||| exists|i: int| 0 <= i < ws.len() && #[trigger] segment_has_word(q@, i)
                && (forall|j: int| i < j < ws.len() ==> !#[trigger] segment_has_word(q@, j)) && r == ws[i]
        }),
{
    let n = byte_len(q);
    let segs = word_starts(q);
    proof {
        is_char_boundary_start_end_of_seq(q.spec_bytes());
    }
    let mut k = segs.len();
    while k > 0
        invariant
            k <= segs@.len(),
            partition_offsets(q.spec_bytes(), segs@),
            n == q.spec_bytes().len(),
            is_char_boundary(q.spec_bytes(), n as int),
            is_char_boundary(q.spec_bytes(), 0),
            segs@ == crate::segment::word_starts_of(q@),
            forall|j: int| k <= j < segs@.len() ==> !#[trigger] segment_has_word(q@, j),
        decreases k,
    {
        let s = segs[k - 1];
        let e = if k < segs.len() { segs[k] } else { n };
        proof {
            if k < segs@.len() {
                assert(segs@[k - 1] < segs@[k as int]);
            }
        }
        let seg = substring(q, s, e);
        proof {
            assert(e as int == crate::presentation::segment_end(bytes_of(q@), segs@, k - 1));
            assert(seg@ == decode_utf8(bytes_of(q@).subrange(s as int, e as int)));
        }
        if contains_word(seg.as_str()) {
            assert(segment_has_word(q@, k - 1));
            return s;
        }
        assert(!segment_has_word(q@, k - 1));
        k -= 1;
    }
    0
}

/// The first entry at or after `start` that contains `q`.
fn first_match(entries: &Vec<String>, q: &str, start: usize) -> (r: Option<usize>)
    ensures
        match r {
            Some(i) => start <= i < entries@.len() && entry_matches(entries@[i as int], q.spec_bytes())
                && forall|j: int| start <= j < i ==> !entry_matches(#[trigger] entries@[j], q.spec_bytes()),
            None => forall|j: int| start <= j < entries@.len() ==> !entry_matches(#[trigger] entries@[j], q.spec_bytes()),
        },
{
    let mut i = start;
    while i < entries.len()
        invariant
            start <= i,
            forall|j: int| start <= j < i && j < entries@.len() ==> !entry_matches(#[trigger] entries@[j], q.spec_bytes()),
        decreases entries@.len() - i,
    {
        if str_contains(entries[i].as_str(), q) {
            return Some(i);
        }
        i += 1;
    }
    None
}

/// The last entry before `end` that contains `q`.
fn last_match_before(entries: &Vec<String>, q: &str, end: usize) -> (r: Option<usize>)
    requires
        end <= entries@.len(),
    ensures
        match r {
            Some(i) => i < end && entry_matches(entries@[i as int], q.spec_bytes())
                && forall|j: int| i < j < end ==> !entry_matches(#[trigger] entries@[j], q.spec_bytes()),
            None => forall|j: int| 0 <= j < end ==> !entry_matches(#[trigger] entries@[j], q.spec_bytes()),
        },
{
    let mut i = end;
    while i > 0
        invariant
            i <= end <= entries@.len(),
            forall|j: int| i <= j < end ==> !entry_matches(#[trigger] entries@[j], q.spec_bytes()),
        decreases i,
    {
        if str_contains(entries[i - 1].as_str(), q) {
            return Some(i - 1);
        }
        i -= 1;
    }
    None
}

/// The search row: the query and the selected entry (line breaks made visible)
/// or "no match", clipped to the surface less one column.
pub open spec fn search_row(state: HistorySearchState, columns: usize) -> (Seq<Piece>, usize) {
    let shown = match state.selected {
        Some(i) => if i < state.entries@.len() { state.entries@[i as int]@.map_values(|c: char| visible_char(c)) } else { "no match"@ },
        None => "no match"@,
    };
    let text = clipped("? '"@ + state.query@ + "' > "@ + shown, if columns > 0 { columns - 1 } else { 0 });
    (seq![Piece::Style(Role::Dim), Piece::Text(text), Piece::Style(Role::Default)], display_width_of(text))
}

/// Temporary reverse-search state: a query over a snapshot of history.
#[derive(Debug)]
pub struct HistorySearchState {
    /// Draft revision when the search began.
    pub revision: DraftRevision,
    /// Current query.
    pub query: String,
    /// Searched entries, newest first.
    pub entries: Vec<String>,
    /// Selected match, if any.
    pub selected: Option<usize>,
    /// Query byte bound.
    pub query_limit: usize,
}

impl HistorySearchState {
    /// `selected` is the first match at or after `start`.
    pub open spec fn first_match_from(&self, start: int) -> bool {
        let q = bytes_of(self.query@);
        match self.selected {
            Some(i) => start <= i < self.entries@.len() && entry_matches(self.entries@[i as int], q)
                && forall|j: int| start <= j < i ==> !entry_matches(#[trigger] self.entries@[j], q),
            None => forall|j: int| start <= j < self.entries@.len() ==> !entry_matches(#[trigger] self.entries@[j], q),
        }
    }

    /// Search `entries`, selecting the newest match of the empty query.
    pub fn new(revision: DraftRevision, entries: Vec<String>, query_limit: usize) -> (r: Self)
        ensures
            r.revision == revision,
            r.entries@ == entries@,
            r.query@ == Seq::<char>::empty(),
            r.query_limit == query_limit,
            r.first_match_from(0),
    {
        let mut state = HistorySearchState { revision, query: String::new(), entries, selected: None, query_limit };
        state.select_from(0);
        state
    }

    fn select_from(&mut self, start: usize)
        ensures
            final(self).first_match_from(start as int),
            final(self).revision == old(self).revision,
            final(self).query == old(self).query,
            final(self).entries == old(self).entries,
            final(self).query_limit == old(self).query_limit,
    {
        self.selected = first_match(&self.entries, self.query.as_str(), start);
    }

    /// Select the next older match.
    pub fn older(&mut self)
        ensures
            final(self).first_match_from(match old(self).selected {
                Some(i) => i + 1,
                None => 0,
            }),
            final(self).query == old(self).query,
            final(self).entries == old(self).entries,
    {
        let start = match self.selected {
            Some(i) => if i < usize::MAX { i + 1 } else { i },
            None => 0,
        };
        if let Some(i) = self.selected {
            if i == usize::MAX {
                let n = self.entries.len();
                self.selected = None;
                return;
            }
        }
        self.select_from(start);
    }

    /// Select the next newer match before the current one.
    pub fn newer(&mut self)
        ensures
            final(self).query == old(self).query,
            final(self).entries == old(self).entries,
            ({
                let end = match old(self).selected {
                    Some(i) => if i < old(self).entries@.len() { i as int } else { old(self).entries@.len() as int },
                    None => old(self).entries@.len() as int,
                };
                let q = bytes_of(old(self).query@);
                match final(self).selected {
                    Some(i) => i < end && entry_matches(old(self).entries@[i as int], q)
                        && forall|j: int| i < j < end ==> !entry_matches(#[trigger] old(self).entries@[j], q),
                    None => forall|j: int| 0 <= j < end ==> !entry_matches(#[trigger] old(self).entries@[j], q),
                }
            }),
    {
        let end = match self.selected {
            Some(i) => if i < self.entries.len() { i } else { self.entries.len() },
            None => self.entries.len(),
        };
        self.selected = last_match_before(&self.entries, self.query.as_str(), end);
    }

    /// Append text to the query and search again from the newest entry.
    pub fn insert_query(&mut self, text: &str) -> (r: Result<(), EditError>)
        ensures
            final(self).entries == old(self).entries,
            match r {
                Ok(()) => final(self).query@ == old(self).query@ + text@ && final(self).first_match_from(0),
                Err(e) => final(self).query == old(self).query && final(self).selected == old(self).selected,
            },
    {
        if !valid_text(text) || crate::render::has_break(text) {
            return Err(EditError::InvalidText);
        }
        let used = byte_len(self.query.as_str());
        let room = if self.query_limit > used { self.query_limit - used } else { 0 };
        if byte_len(text) > room {
            return Err(EditError::Capacity);
        }
        self.query.append(text);
        self.select_from(0);
        Ok(())
    }

    /// Remove the query's last grapheme, if any, and search again.
    pub fn backspace(&mut self)
        ensures
            final(self).entries == old(self).entries,
            old(self).query@.len() > 0 ==> final(self).first_match_from(0),
    {
        let q = self.query.as_str();
        let starts = grapheme_starts(q);
        if starts.len() == 0 {
            return;
        }
        let k = starts[starts.len() - 1];
        proof {
            is_char_boundary_start_end_of_seq(q.spec_bytes());
        }
        let kept = substring(q, 0, k);
        self.query = kept;
        self.select_from(0);
    }

    /// Empty the query and search again.
    pub fn clear_query(&mut self)
        ensures
            final(self).entries == old(self).entries,
            final(self).query@ == Seq::<char>::empty(),
            final(self).first_match_from(0),
    {
        self.query = String::new();
        self.select_from(0);
    }

    /// The selected entry.
    pub fn selected_text(&self) -> (r: Option<&str>)
        ensures
            match self.selected {
                Some(i) => if i < self.entries@.len() { r matches Some(t) && t@ == self.entries@[i as int]@ } else { r is None },
                None => r is None,
            },
    {
        match self.selected {
            Some(i) => if i < self.entries.len() { Some(self.entries[i].as_str()) } else { None },
            None => None,
        }
    }

    /// Remove the query's last word and whatever follows it, and search again.
    pub fn delete_query_word(&mut self)
        ensures
            final(self).entries == old(self).entries,
            final(self).first_match_from(0),
            query_word_deleted(old(self).query@, final(self).query@),
    {
        let q = self.query.as_str();
        let start = last_word_start(q);
        let kept = substring(q, 0, start);
        self.query = kept;
        self.select_from(0);
    }

    /// The draft frame followed by one row showing the query and its match.
    pub fn frame(&self, editor: &Editor, prompt: &Prompt, size: (usize, usize), analysis: Option<&AnalysisPresentation>) -> (f: Frame)
        requires
            editor.wf(),
        ensures
            f.wf(),
            f.columns == size.0,
            f.rows == size.1,
            f.source_len == editor.bytes().len(),
            f.source_cursor == editor.pos(),
            size.1 >= 2 ==> f.lines@.len() <= size.1,
            ({
                let g = frame_geometry(editor.chars(), editor.pos() as int, prompt.spec_first(), prompt.spec_continuation(),
                    size.0, if size.1 > 3 { (size.1 - 1) as usize } else { 2 });
                let row = search_row(*self, size.0);
                &&& f.cursor == g.1
                &&& f.widths@ == g.0.push(row.1)
                &&& rows_view(f.lines@) == frame_rows(editor.chars(), editor.pos() as int, prompt.spec_first(),
                    prompt.spec_continuation(), prompt.spec_role(), analysis_spans(analysis), size.0,
                    if size.1 > 3 { (size.1 - 1) as usize } else { 2 }).push(row.0)
            }),
            f.end == (Point { row: (f.widths@.len() - 1) as usize, col: f.widths@.last() }),
    {
        proof {
            reveal_strlit("no match");
            reveal_strlit("? '");
            reveal_strlit("' > ");
        }
        let draft = if size.1 > 3 { size.1 - 1 } else { 2 };
        let mut frame = Frame::analyzed(editor, prompt, size.0, draft, analysis);
        let shown = match self.selected_text() {
            Some(t) => visible_breaks(t),
            None => "no match".to_owned(),
        };
        let mut text = String::new();
        text.append("? '");
        text.append(self.query.as_str());
        text.append("' > ");
        text.append(shown.as_str());
        let text = clip(text.as_str(), if size.0 > 0 { size.0 - 1 } else { 0 });
        let width = display_width(text.as_str());
        let mut runs = Vec::new();
        runs.push(Run::Style(Role::Dim));
        runs.push(Run::Text(text));
        runs.push(Run::Style(Role::Default));
        let line = Line(runs);
        assert(pieces(line) =~= search_row(*self, size.0).0);
        let ghost before_rows = rows_view(frame.lines@);
        frame.lines.push(line);
        frame.widths.push(width);
        assert(rows_view(frame.lines@) =~= before_rows.push(pieces(line)));
        frame.rows = size.1;
        let last = frame.lines.len() - 1;
        frame.end = Point { row: last, col: width };
        frame
    }
}

} // verus!
