//! Optional bounded producers for the low-level completion protocol.
use crate::analysis::AnalysisSnapshot;
use crate::completion::{candidate_error, field_error, payload_total, CompletionCandidate, CompletionError, CompletionSet, MAX_COMPLETION_BYTES,
    MAX_COMPLETION_CANDIDATES};
use crate::segment::{grapheme_starts, is_boundary, partition_offsets, grapheme_starts_of, contains_offset};
use crate::text::{blen, byte_len, bytes_of, push_char, substring};
use std::ops::Range;
use std::path::PathBuf;
use vstd::prelude::*;
use vstd::string::*;
use vstd::utf8::*;

verus! {

broadcast use {encode_utf8_decode_utf8, encode_utf8_valid_utf8, decode_utf8_encode_utf8};

/// The standard library's owned path, carried through unchanged.
#[verifier::external_type_specification]
#[verifier::external_body]
pub struct ExPathBuf(PathBuf);

/// Maximum query bytes accepted by generic completion helpers.
pub const MAX_COMPLETION_QUERY_BYTES: usize = 4096;

/// Case policy for generic prefix and subsequence matching.
#[derive(Clone, Copy, Debug, Eq, PartialEq, Structural)]
pub enum MatchCase {
    /// Match Unicode scalar values exactly.
    Sensitive,
    /// Fold ASCII letters only; all other Unicode scalar values remain exact.
    AsciiInsensitive,
}

/// A generic helper rejected its query/source, completion payload, or filesystem access.
#[derive(Debug)]
pub enum CompletionHelperError {
    /// Query, source count, or configured output count exceeded a bound.
    Limit,
    /// The host range is outside the snapshot or splits an extended grapheme.
    InvalidRange,
    /// Filesystem traversal failed before a complete result could be produced.
    Io(std::io::Error),
    /// A generated low-level candidate or set was invalid.
    Completion(CompletionError),
}

impl CompletionHelperError {
    /// Human-readable description of the failure.
    pub fn message(&self) -> (r: String)
        ensures
            match self {
                CompletionHelperError::Limit => r@ == "completion helper limit exceeded"@,
                CompletionHelperError::InvalidRange => r@ == "completion range is not a snapshot grapheme range"@,
                _ => true,
            },
    {
        match self {
            CompletionHelperError::Limit => "completion helper limit exceeded".to_owned(),
            CompletionHelperError::InvalidRange => "completion range is not a snapshot grapheme range".to_owned(),
            CompletionHelperError::Io(e) => crate::event::io_message(e),
            CompletionHelperError::Completion(e) => e.message(),
        }
    }
}

/// One reusable list item. Its insertion and presentation remain separate.
#[derive(Debug)]
pub struct CompletionItem {
    value: String,
    label: String,
    annotation: Option<String>,
}

impl Clone for CompletionItem {
    fn clone(&self) -> (r: Self)
        ensures
            r.spec_value() == self.spec_value(),
            r.spec_label() == self.spec_label(),
            r.spec_annotation() == self.spec_annotation(),
    {
        proof {
            use_type_invariant(self);
        }
        let annotation = match &self.annotation {
            Some(a) => Some(a.clone()),
            None => None,
        };
        CompletionItem { value: self.value.clone(), label: self.label.clone(), annotation }
    }
}

impl CompletionItem {
    /// Every item can be offered as a candidate: safe insertion text, a
    /// nonempty safe label and a safe annotation.
    #[verifier::type_invariant]
    spec fn offerable(self) -> bool {
        &&& candidate_error(0, 0, self.value@, self.label@) is None
        &&& match self.annotation {
            Some(a) => field_error(a@, true) is None,
            None => true,
        }
    }

    /// Insertion text.
    pub closed spec fn spec_value(&self) -> Seq<char> {
        self.value@
    }

    /// Display label.
    pub closed spec fn spec_label(&self) -> Seq<char> {
        self.label@
    }

    /// Optional annotation.
    pub closed spec fn spec_annotation(&self) -> Option<Seq<char>> {
        match self.annotation {
            Some(a) => Some(a@),
            None => None,
        }
    }

    /// Use the same safe text for insertion and display.
    pub fn new(value: &str) -> (r: Result<Self, CompletionHelperError>)
        ensures
            match r {
                Ok(i) => candidate_error(0, 0, value@, value@) is None && i.spec_value() == value@ && i.spec_label() == value@
                    && i.spec_annotation() is None,
                Err(e) => e matches CompletionHelperError::Completion(x) && candidate_error(0, 0, value@, value@) == Some(x),
            },
    {
        Self::labeled(value, value)
    }

    /// Supply distinct insertion and display text.
    pub fn labeled(value: &str, label: &str) -> (r: Result<Self, CompletionHelperError>)
        ensures
            match r {
                Ok(i) => candidate_error(0, 0, value@, label@) is None && i.spec_value() == value@ && i.spec_label() == label@
                    && i.spec_annotation() is None,
                Err(e) => e matches CompletionHelperError::Completion(x) && candidate_error(0, 0, value@, label@) == Some(x),
            },
    {
        match CompletionCandidate::new(Range { start: 0, end: 0 }, value, label) {
            Ok(_) => {},
            Err(e) => return Err(CompletionHelperError::Completion(e)),
        }
        Ok(CompletionItem { value: value.to_owned(), label: label.to_owned(), annotation: None })
    }

    /// Add a safe single-line annotation.
    pub fn with_annotation(self, annotation: &str) -> (r: Result<Self, CompletionHelperError>)
        ensures
            match r {
                Ok(i) => field_error(annotation@, true) is None && i.spec_value() == self.spec_value()
                    && i.spec_label() == self.spec_label() && i.spec_annotation() == Some(annotation@),
                Err(e) => e matches CompletionHelperError::Completion(x) && field_error(annotation@, true) == Some(x),
            },
    {
        proof {
            use_type_invariant(&self);
        }
        let c = match CompletionCandidate::new(Range { start: 0, end: 0 }, self.value.as_str(), self.label.as_str()) {
            Ok(c) => c,
            Err(e) => return Err(CompletionHelperError::Completion(e)),
        };
        match c.with_annotation(annotation) {
            Ok(_) => {},
            Err(e) => return Err(CompletionHelperError::Completion(e)),
        }
        Ok(CompletionItem { value: self.value, label: self.label, annotation: Some(annotation.to_owned()) })
    }

    /// Exact insertion text.
    pub fn value(&self) -> (r: &str)
        ensures
            r@ == self.spec_value(),
    {
        self.value.as_str()
    }

    /// Display label.
    pub fn label(&self) -> (r: &str)
        ensures
            r@ == self.spec_label(),
    {
        self.label.as_str()
    }

    /// Optional display annotation.
    pub fn annotation(&self) -> (r: Option<&str>)
        ensures
            match r {
                Some(a) => self.spec_annotation() == Some(a@),
                None => self.spec_annotation() is None,
            },
    {
        match &self.annotation {
            Some(a) => Some(a.as_str()),
            None => None,
        }
    }
}

/// Why a helper request is refused before matching.
pub open spec fn request_error(text: Seq<char>, start: usize, end: usize, query: Seq<char>, count: int) -> Option<CompletionHelperError> {
    if bytes_of(query).len() > MAX_COMPLETION_QUERY_BYTES || count > MAX_COMPLETION_CANDIDATES {
        Some(CompletionHelperError::Limit)
    } else if !(start <= end && is_boundary(bytes_of(text), start as int) && is_boundary(bytes_of(text), end as int)) {
        Some(CompletionHelperError::InvalidRange)
    } else {
        None
    }
}

/// Check a helper request: bounded query and count, and a grapheme range of the snapshot.
pub fn validate_request(snapshot: &AnalysisSnapshot, range: &Range<usize>, query: &str, count: usize) -> (r: Result<(), CompletionHelperError>)
    ensures
        match request_error(snapshot.spec_text(), range.start, range.end, query@, count as int) {
            None => r is Ok,
            Some(CompletionHelperError::Limit) => r matches Err(e) && e is Limit,
            Some(_) => r matches Err(e) && e is InvalidRange,
        },
{
    if byte_len(query) > MAX_COMPLETION_QUERY_BYTES || count > MAX_COMPLETION_CANDIDATES {
        return Err(CompletionHelperError::Limit);
    }
    let text = snapshot.text();
    let starts = grapheme_starts(text);
    let n = byte_len(text);
    if range.start > range.end || !boundary(text, &starts, range.start) || !boundary(text, &starts, range.end) {
        return Err(CompletionHelperError::InvalidRange);
    }
    Ok(())
}

fn boundary(text: &str, starts: &Vec<usize>, i: usize) -> (r: bool)
    requires
        starts@ == grapheme_starts_of(text@),
    ensures
        r == is_boundary(text.spec_bytes(), i as int),
{
    let n = byte_len(text);
    if i == 0 || i == n {
        return true;
    }
    if i > n {
        return false;
    }
    contains_offset(starts, i)
}

/// ASCII letters lowered; every other byte unchanged.
pub open spec fn fold_byte(b: u8) -> u8 {
    if 0x41 <= b <= 0x5a { (b + 32) as u8 } else { b }
}

/// Whether `value` begins with `query` under `case`; folding requires the
/// query's length to end a character of the value.
pub open spec fn prefix_match(value: Seq<u8>, query: Seq<u8>, case: MatchCase) -> bool {
    &&& query.len() <= value.len()
    &&& match case {
        MatchCase::Sensitive => value.subrange(0, query.len() as int) == query,
        MatchCase::AsciiInsensitive => is_char_boundary(value, query.len() as int) && forall|i: int|
            0 <= i < query.len() ==> fold_byte(#[trigger] value[i]) == fold_byte(query[i]),
    }
}

fn fold_u8(b: u8) -> (r: u8)
    ensures
        r == fold_byte(b),
{
    if b >= 0x41 && b <= 0x5a { b + 32 } else { b }
}

fn matches_prefix(value: &str, query: &str, case: MatchCase) -> (r: bool)
    ensures
        r == prefix_match(value.spec_bytes(), query.spec_bytes(), case),
{
    let v = value.as_bytes();
    let q = query.as_bytes();
    if q.len() > v.len() {
        return false;
    }
    let mut i: usize = 0;
    while i < q.len()
        invariant
            v@ == value.spec_bytes(),
            q@ == query.spec_bytes(),
            q@.len() <= v@.len(),
            i <= q@.len(),
            case == MatchCase::Sensitive ==> forall|j: int| 0 <= j < i ==> v@[j] == q@[j],
            case == MatchCase::AsciiInsensitive ==> forall|j: int| 0 <= j < i ==> fold_byte(#[trigger] v@[j]) == fold_byte(q@[j]),
        decreases q@.len() - i,
    {
        let same = match case {
            MatchCase::Sensitive => v[i] == q[i],
            MatchCase::AsciiInsensitive => fold_u8(v[i]) == fold_u8(q[i]),
        };
        if !same {
            proof {
                if case == MatchCase::Sensitive {
                    assert(v@.subrange(0, q@.len() as int)[i as int] != q@[i as int]);
                }
            }
            return false;
        }
        i += 1;
    }
    match case {
        MatchCase::Sensitive => {
            assert(v@.subrange(0, q@.len() as int) =~= q@);
            true
        },
        MatchCase::AsciiInsensitive => value.is_char_boundary(q.len()),
    }
}

/// The candidate offering `item` for `range`.
pub open spec fn offers(c: CompletionCandidate, item: CompletionItem, range: Range<usize>) -> bool {
    &&& c.spec_start() == range.start
    &&& c.spec_end() == range.end
    &&& c.spec_replacement() == item.spec_value()
    &&& c.spec_label() == item.spec_label()
    &&& c.spec_annotation() == item.spec_annotation()
}

fn candidate(range: &Range<usize>, item: &CompletionItem) -> (r: Result<CompletionCandidate, CompletionError>)
    requires
        range.start <= range.end,
    ensures
        r matches Ok(c) && offers(c, *item, *range),
{
    proof {
        use_type_invariant(item);
    }
    let c = match CompletionCandidate::new(Range { start: range.start, end: range.end }, item.value.as_str(), item.label.as_str()) {
        Ok(c) => c,
        Err(e) => return Err(e),
    };
    match &item.annotation {
        Some(a) => c.with_annotation(a.as_str()),
        None => Ok(c),
    }
}

/// Bytes an item adds to a candidate payload.
pub open spec fn item_payload(it: CompletionItem) -> int {
    blen(it.spec_value()) + blen(it.spec_label()) + match it.spec_annotation() {
        Some(a) => blen(a),
        None => 0,
    }
}

/// Payload bytes of the candidates offering `its`.
pub open spec fn items_payload(its: Seq<CompletionItem>) -> int
    decreases its.len(),
{
    if its.len() == 0 {
        0
    } else {
        items_payload(its.drop_last()) + item_payload(its.last())
    }
}

proof fn lemma_offered_payload(cands: Seq<CompletionCandidate>, its: Seq<CompletionItem>, range: Range<usize>)
    requires
        cands.len() == its.len(),
        forall|j: int| 0 <= j < cands.len() ==> offers(#[trigger] cands[j], its[j], range),
    ensures
        payload_total(cands) == items_payload(its),
    decreases cands.len(),
{
    if cands.len() > 0 {
        let n = cands.len() - 1;
        assert(offers(cands[n], its[n], range));
        lemma_offered_payload(cands.drop_last(), its.drop_last(), range);
    }
}

/// The items whose values begin with `query` under `case`, in caller order.
pub open spec fn prefix_items(items: Seq<CompletionItem>, query: Seq<u8>, case: MatchCase) -> Seq<CompletionItem> {
    items.filter(|it: CompletionItem| prefix_match(bytes_of(it.spec_value()), query, case))
}

/// Produce prefix matches in caller order, retaining duplicates.
pub fn complete_prefix(snapshot: &AnalysisSnapshot, range: Range<usize>, query: &str, items: &[CompletionItem], case: MatchCase) -> (r: Result<CompletionSet, CompletionHelperError>)
    ensures
        ({
            let hits = prefix_items(items@, query.spec_bytes(), case);
            match r {
                Ok(s) => request_error(snapshot.spec_text(), range.start, range.end, query@, items@.len() as int) is None
                    && items_payload(hits) <= MAX_COMPLETION_BYTES && s.spec_revision() == snapshot.spec_revision()
                    && s.spec_candidates().len() == hits.len()
                    && forall|j: int| 0 <= j < hits.len() ==> offers(#[trigger] s.spec_candidates()[j], hits[j], range),
                Err(e) => match request_error(snapshot.spec_text(), range.start, range.end, query@, items@.len() as int) {
                    Some(CompletionHelperError::Limit) => e is Limit,
                    Some(_) => e is InvalidRange,
                    None => e matches CompletionHelperError::Completion(x) && x is Limit && items_payload(hits) > MAX_COMPLETION_BYTES,
                },
            }
        }),
{
    match validate_request(snapshot, &range, query, items.len()) {
        Ok(()) => {},
        Err(e) => return Err(e),
    }
    let ghost pred = |it: CompletionItem| prefix_match(bytes_of(it.spec_value()), query.spec_bytes(), case);
    let mut out: Vec<CompletionCandidate> = Vec::new();
    let mut i: usize = 0;
    while i < items.len()
        invariant
            i <= items@.len(),
            range.start <= range.end,
            pred == (|it: CompletionItem| prefix_match(bytes_of(it.spec_value()), query.spec_bytes(), case)),
            out@.len() == items@.take(i as int).filter(pred).len(),
            forall|j: int| 0 <= j < out@.len() ==> offers(#[trigger] out@[j], items@.take(i as int).filter(pred)[j], range),
        decreases items@.len() - i,
    {
        let item = &items[i];
        proof {
            assert(items@.take(i + 1) =~= items@.take(i as int).push(items@[i as int]));
            items@.take(i as int).lemma_filter_push(items@[i as int], pred);
        }
        if matches_prefix(item.value.as_str(), query, case) {
            match candidate(&range, item) {
                Ok(c) => out.push(c),
                Err(e) => return Err(CompletionHelperError::Completion(e)),
            }
        }
        i += 1;
    }
    assert(items@.take(i as int) =~= items@);
    proof {
        lemma_offered_payload(out@, items@.filter(pred), range);
        broadcast use vstd::seq_lib::group_filter_ensures;
    }
    match CompletionSet::new(snapshot.revision(), out) {
        Ok(s) => Ok(s),
        Err(e) => Err(CompletionHelperError::Completion(e)),
    }
}

/// Number of leading bytes `a` and `b` share.
fn shared_bytes(a: &str, b: &str) -> (r: usize)
    ensures
        r <= a.spec_bytes().len(),
        r <= b.spec_bytes().len(),
        a.spec_bytes().subrange(0, r as int) == b.spec_bytes().subrange(0, r as int),
        r < a.spec_bytes().len() && r < b.spec_bytes().len() ==> a.spec_bytes()[r as int] != b.spec_bytes()[r as int],
{
    let x = a.as_bytes();
    let y = b.as_bytes();
    let mut i: usize = 0;
    assert(x@.skip(0) =~= x@ && y@.skip(0) =~= y@);
    while i < x.len() && i < y.len() && x[i] == y[i]
        invariant
            x@ == a.spec_bytes(),
            y@ == b.spec_bytes(),
            i <= x@.len(),
            i <= y@.len(),
            x@.subrange(0, i as int) == y@.subrange(0, i as int),
        decreases x@.len() - i,
    {
        assert(x@.subrange(0, i + 1) =~= x@.subrange(0, i as int).push(x@[i as int]));
        assert(y@.subrange(0, i + 1) =~= y@.subrange(0, i as int).push(y@[i as int]));
        i += 1;
    }
    i
}

/// Whether `v` begins with the first `b` bytes of `first`.
pub open spec fn shares_prefix(v: Seq<u8>, first: Seq<u8>, b: int) -> bool {
    b <= v.len() && v.subrange(0, b) == first.subrange(0, b)
}

/// Whether every value begins with the first `b` bytes of the first value and
/// has an extended-grapheme boundary at `b`.
pub open spec fn common_at(values: Seq<&str>, b: int) -> bool {
    forall|k: int| 0 <= k < values.len() ==> shares_prefix((#[trigger] values[k]).spec_bytes(), values[0].spec_bytes(), b)
        && is_boundary(values[k].spec_bytes(), b)
}

/// Some value among the first `k` does not begin with the first `c` bytes of the first value.
pub open spec fn some_lacks_prefix(values: Seq<&str>, k: int, c: int) -> bool {
    exists|j: int| 0 <= j < k && !shares_prefix((#[trigger] values[j]).spec_bytes(), values[0].spec_bytes(), c)
}

/// Some value has no extended-grapheme boundary at `c`.
pub open spec fn some_lacks_boundary(values: Seq<&str>, c: int) -> bool {
    exists|j: int| 0 <= j < values.len() && !is_boundary((#[trigger] values[j]).spec_bytes(), c)
}

/// Whether byte `b` is an extended-grapheme boundary of every value.
fn boundary_of_all(values: &[&str], b: usize) -> (r: bool)
    ensures
        r == forall|k: int| 0 <= k < values@.len() ==> is_boundary((#[trigger] values@[k]).spec_bytes(), b as int),
{
    let mut k: usize = 0;
    while k < values.len()
        invariant
            k <= values@.len(),
            forall|j: int| 0 <= j < k ==> is_boundary((#[trigger] values@[j]).spec_bytes(), b as int),
        decreases values@.len() - k,
    {
        let starts = grapheme_starts(values[k]);
        if !boundary(values[k], &starts, b) {
            return false;
        }
        k += 1;
    }
    true
}

/// Longest shared prefix ending at an extended-grapheme boundary of every value.
pub fn common_grapheme_prefix(values: &[&str]) -> (r: String)
    ensures
        values@.len() == 0 ==> r@.len() == 0,
        values@.len() > 0 ==> bytes_of(r@) == values@[0].spec_bytes().subrange(0, bytes_of(r@).len() as int)
            && forall|k: int| 0 <= k < values@.len() ==> shares_prefix((#[trigger] values@[k]).spec_bytes(),
                values@[0].spec_bytes(), bytes_of(r@).len() as int)
                && is_boundary(values@[k].spec_bytes(), bytes_of(r@).len() as int),
        values@.len() > 0 ==> forall|b: int| bytes_of(r@).len() < b <= values@[0].spec_bytes().len()
            ==> !#[trigger] common_at(values@, b),
{
    if values.len() == 0 {
        return String::new();
    }
    let first = values[0];
    let n = byte_len(first);
    let first_starts = grapheme_starts(first);
    let ghost fb = first.spec_bytes();
    proof {
        is_char_boundary_start_end_of_seq(fb);
        assert(fb.subrange(0, n as int) =~= fb);
    }
    let mut common = n;
    let mut k: usize = 1;
    while k < values.len()
        invariant
            1 <= k <= values@.len(),
            first == values@[0],
            fb == first.spec_bytes(),
            n == fb.len(),
            common <= n,
            forall|j: int| 0 <= j < k ==> shares_prefix((#[trigger] values@[j]).spec_bytes(), fb, common as int),
            forall|c: int| common < c <= n ==> #[trigger] some_lacks_prefix(values@, k as int, c),
        decreases values@.len() - k,
    {
        let shared = shared_bytes(first, values[k]);
        let ghost old_common = common;
        if shared < common {
            common = shared;
        }
        proof {
            let vb = values@[k as int].spec_bytes();
            assert forall|c: int| common < c <= n implies #[trigger] some_lacks_prefix(values@, k + 1, c) by {
                if c > old_common {
                    assert(some_lacks_prefix(values@, k as int, c));
                    let j = choose|j: int| 0 <= j < k && !shares_prefix((#[trigger] values@[j]).spec_bytes(), fb, c);
                    assert(!shares_prefix(values@[j].spec_bytes(), fb, c));
                } else {
                    assert(c > shared);
                    if shares_prefix(vb, fb, c) {
                        assert(vb[shared as int] == vb.subrange(0, c)[shared as int]);
                        assert(fb[shared as int] == fb.subrange(0, c)[shared as int]);
                    }
                    assert(!shares_prefix(values@[k as int].spec_bytes(), fb, c));
                }
            }
            assert forall|j: int| 0 <= j < k + 1 implies shares_prefix((#[trigger] values@[j]).spec_bytes(), fb, common as int) by {
                let jb = values@[j].spec_bytes();
                if j < k {
                    assert(jb.subrange(0, common as int) =~= jb.subrange(0, old_common as int).subrange(0, common as int));
                    assert(fb.subrange(0, common as int) =~= fb.subrange(0, old_common as int).subrange(0, common as int));
                } else {
                    assert(jb.subrange(0, common as int) =~= jb.subrange(0, shared as int).subrange(0, common as int));
                    assert(fb.subrange(0, common as int) =~= fb.subrange(0, shared as int).subrange(0, common as int));
                }
            }
        }
        k += 1;
    }
    let mut end = common;
    while !boundary_of_all(values, end)
        invariant
            end <= common,
            forall|c: int| end < c <= common ==> #[trigger] some_lacks_boundary(values@, c),
            forall|j: int| 0 <= j < values@.len() ==> is_boundary((#[trigger] values@[j]).spec_bytes(), 0),
        decreases end,
    {
        proof {
            let j = choose|j: int| 0 <= j < values@.len() && !is_boundary((#[trigger] values@[j]).spec_bytes(), end as int);
            assert(end != 0);
            assert(some_lacks_boundary(values@, end as int));
        }
        end = end - 1;
    }
    proof {
        assert(is_boundary(fb, end as int));
        if end != 0 && end != n {
            assert(first_starts@.contains(end));
            let i = choose|i: int| 0 <= i < first_starts@.len() && first_starts@[i] == end;
        }
        assert forall|j: int| 0 <= j < values@.len() implies shares_prefix((#[trigger] values@[j]).spec_bytes(), fb, end as int) by {
            let jb = values@[j].spec_bytes();
            assert(shares_prefix(jb, fb, common as int));
            assert(jb.subrange(0, end as int) =~= jb.subrange(0, common as int).subrange(0, end as int));
            assert(fb.subrange(0, end as int) =~= fb.subrange(0, common as int).subrange(0, end as int));
        }
        assert forall|c: int| end < c <= n implies !#[trigger] common_at(values@, c) by {
            if c > common {
                assert(some_lacks_prefix(values@, values@.len() as int, c));
                let j = choose|j: int| 0 <= j < values@.len() && !shares_prefix((#[trigger] values@[j]).spec_bytes(), fb, c);
                assert(!shares_prefix(values@[j].spec_bytes(), fb, c));
            } else {
                assert(some_lacks_boundary(values@, c));
                let j = choose|j: int| 0 <= j < values@.len() && !is_boundary((#[trigger] values@[j]).spec_bytes(), c);
                assert(!is_boundary(values@[j].spec_bytes(), c));
            }
        }
    }
    substring(first, 0, end)
}

/// The code a character is compared by: ASCII capitals are lowered when
/// matching ignores ASCII case; every other scalar is its own code.
pub open spec fn fold_code(c: char, case: MatchCase) -> u32 {
    if case is AsciiInsensitive && 65 <= (c as u32) <= 90 {
        ((c as u32) + 32) as u32
    } else {
        c as u32
    }
}

fn fold(c: char, case: MatchCase) -> (r: u32)
    ensures
        r == fold_code(c, case),
{
    let v = c as u32;
    if case == MatchCase::AsciiInsensitive && v >= 65 && v <= 90 {
        v + 32
    } else {
        v
    }
}

/// UTF-8 length of a character.
fn utf8_len(c: char) -> (r: usize)
    ensures
        r == encode_scalar(c as u32).len(),
        1 <= r <= 4,
{
    proof {
        char_is_scalar(c);
    }
    let v = c as u32;
    if v < 0x80 {
        1
    } else if v < 0x800 {
        2
    } else if v < 0x10000 {
        3
    } else {
        4
    }
}

/// Byte offsets grow by each character's encoding and stay within the text.
proof fn lemma_offset_step(s: Seq<char>, p: int)
    requires
        0 <= p < s.len(),
    ensures
        blen(s.take(p + 1)) == blen(s.take(p)) + encode_scalar(s[p] as u32).len(),
        blen(s.take(p + 1)) <= blen(s),
{
    let one = seq![s[p]];
    assert(s.take(p + 1) =~= s.take(p) + one);
    crate::text::lemma_encode_concat(s.take(p), one);
    assert(one.drop_first() =~= Seq::<char>::empty());
    assert(encode_utf8(one) == encode_scalar(s[p] as u32) + encode_utf8(one.drop_first()));
    assert(encode_utf8(one) =~= encode_scalar(s[p] as u32));
    assert(s =~= s.take(p + 1) + s.skip(p + 1));
    crate::text::lemma_encode_concat(s.take(p + 1), s.skip(p + 1));
}

/// The byte offset of character `a` is at most that of character `b`.
proof fn lemma_offset_mono(s: Seq<char>, a: int, b: int)
    requires
        0 <= a <= b <= s.len(),
    ensures
        blen(s.take(a)) <= blen(s.take(b)),
{
    assert(s.take(b) =~= s.take(a) + s.subrange(a, b));
    crate::text::lemma_encode_concat(s.take(a), s.subrange(a, b));
}

/// Characters of `s` with their byte offsets.
fn indexed_chars(s: &str) -> (r: Vec<(usize, char)>)
    ensures
        r@.len() == s@.len(),
        forall|p: int| 0 <= p < s@.len() ==> (#[trigger] r@[p]).1 == s@[p] && r@[p].0 == blen(s@.take(p))
            && blen(s@.take(p)) < blen(s@),
{
    let n = byte_len(s);
    let mut out: Vec<(usize, char)> = Vec::new();
    let mut offset: usize = 0;
    for c in it: s.chars()
        invariant
            it.seq() == s@,
            n == blen(s@),
            out@.len() == it.index(),
            offset == blen(s@.take(it.index() as int)),
            forall|p: int| 0 <= p < out@.len() ==> (#[trigger] out@[p]).1 == s@[p] && out@[p].0 == blen(s@.take(p))
                && blen(s@.take(p)) < blen(s@),
    {
        let ghost p = it.index() as int;
        proof {
            assert(s@.take(p + 1) =~= s@.take(p).push(c));
            assert(s@[p] == c);
            lemma_offset_step(s@, p);
        }
        let ghost before = out@;
        out.push((offset, c));
        proof {
            assert forall|q: int| 0 <= q < out@.len() implies (#[trigger] out@[q]).1 == s@[q] && out@[q].0 == blen(s@.take(q))
                && blen(s@.take(q)) < blen(s@) by {
                if q < p {
                    assert(out@[q] == before[q]);
                }
            }
        }
        offset = offset + utf8_len(c);
    }
    out
}

/// The first character position at or after `pos` whose code is `target`,
/// or the length of `s` when there is none.
pub open spec fn next_match(s: Seq<char>, target: u32, case: MatchCase, pos: int) -> int
    decreases s.len() - pos,
{
    if pos >= s.len() {
        s.len() as int
    } else if fold_code(s[pos], case) == target {
        pos
    } else {
        next_match(s, target, case, pos + 1)
    }
}

proof fn lemma_next_match(s: Seq<char>, target: u32, case: MatchCase, pos: int)
    requires
        0 <= pos <= s.len(),
    ensures
        pos <= next_match(s, target, case, pos) <= s.len(),
        next_match(s, target, case, pos) < s.len() ==> fold_code(s[next_match(s, target, case, pos)], case) == target,
    decreases s.len() - pos,
{
    if pos < s.len() && fold_code(s[pos], case) != target {
        lemma_next_match(s, target, case, pos + 1);
    }
}

/// Character position of the `w`th query character in the greedy leftmost
/// match of `query` in `value`: the first position after that of the previous
/// one whose code is its code; the length of `value` once none remains.
pub open spec fn greedy_pos(value: Seq<char>, query: Seq<char>, case: MatchCase, w: nat) -> int
    decreases w,
{
    let from: int = if w == 0 { 0 } else { greedy_pos(value, query, case, (w - 1) as nat) + 1 };
    next_match(value, fold_code(query[w as int], case), case, from)
}

/// Subsequence score of `query` in `value`: the byte offset of the first
/// character of the greedy leftmost match and the bytes skipped between the
/// first bytes of consecutive matched characters; `None` when the query is not
/// a subsequence.
pub open spec fn fuzzy_score_of(value: Seq<char>, query: Seq<char>, case: MatchCase) -> Option<(int, int)> {
    let n = query.len();
    if n == 0 {
        Some((0, 0))
    } else if greedy_pos(value, query, case, (n - 1) as nat) >= value.len() {
        None
    } else {
        let first = blen(value.take(greedy_pos(value, query, case, 0)));
        let last = blen(value.take(greedy_pos(value, query, case, (n - 1) as nat)));
        Some((first, last - first - (n - 1)))
    }
}

/// Once a query character finds no match, no later one does.
proof fn lemma_greedy_stuck(value: Seq<char>, query: Seq<char>, case: MatchCase, w: nat, k: nat)
    requires
        w <= k,
        greedy_pos(value, query, case, w) >= value.len(),
    ensures
        greedy_pos(value, query, case, k) >= value.len(),
    decreases k - w,
{
    if k > w {
        lemma_greedy_stuck(value, query, case, w, (k - 1) as nat);
    }
}

fn fuzzy_score(value: &str, query: &str, case: MatchCase) -> (r: Option<(usize, usize)>)
    ensures
        match r {
            Some(sc) => fuzzy_score_of(value@, query@, case) == Some((sc.0 as int, sc.1 as int)),
            None => fuzzy_score_of(value@, query@, case) is None,
        },
{
    let n = byte_len(value);
    let source = indexed_chars(value);
    let wanted = indexed_chars(query);
    let mut pos: usize = 0;
    let mut previous: usize = 0;
    let mut start: usize = 0;
    let mut gaps: usize = 0;
    let mut w: usize = 0;
    assert(forall|p: int| 0 <= p < value@.len() ==> (#[trigger] source@[p]).1 == value@[p] && source@[p].0 == blen(value@.take(p))
        && blen(value@.take(p)) < blen(value@));
    while w < wanted.len()
        invariant
            n == blen(value@),
            source@.len() == value@.len(),
            forall|p: int| 0 <= p < value@.len() ==> (#[trigger] source@[p]).1 == value@[p] && source@[p].0 == blen(value@.take(p))
                && blen(value@.take(p)) < blen(value@),
            wanted@.len() == query@.len(),
            forall|p: int| 0 <= p < query@.len() ==> (#[trigger] wanted@[p]).1 == query@[p],
            w <= wanted@.len(),
            pos <= source@.len(),
            w == 0 ==> pos == 0 && start == 0 && gaps == 0,
            w > 0 ==> {
                let g = greedy_pos(value@, query@, case, (w - 1) as nat);
                &&& g < value@.len()
                &&& pos == g + 1
                &&& previous == blen(value@.take(g))
                &&& start == blen(value@.take(greedy_pos(value@, query@, case, 0)))
                &&& gaps == previous - start - (w - 1)
                &&& previous < blen(value@.take(pos as int))
            },
        decreases wanted@.len() - w,
    {
        let target = fold(wanted[w].1, case);
        let mut p: usize = pos;
        proof {
            lemma_next_match(value@, target, case, pos as int);
        }
        while p < source.len() && fold(source[p].1, case) != target
            invariant
                source@.len() == value@.len(),
                forall|q: int| 0 <= q < value@.len() ==> (#[trigger] source@[q]).1 == value@[q],
                pos <= p <= source@.len(),
                next_match(value@, target, case, pos as int) == next_match(value@, target, case, p as int),
            decreases source@.len() - p,
        {
            p += 1;
        }
        proof {
            assert(greedy_pos(value@, query@, case, w as nat) == p);
        }
        if p == source.len() {
            proof {
                lemma_greedy_stuck(value@, query@, case, w as nat, (query@.len() - 1) as nat);
            }
            return None;
        }
        let index = source[p].0;
        proof {
            lemma_offset_step(value@, p as int);
            lemma_offset_mono(value@, pos as int, p as int);
            char_is_scalar(value@[p as int]);
            assert(encode_scalar(value@[p as int] as u32).len() >= 1);
        }
        if w == 0 {
            start = index;
        } else {
            gaps = gaps + (index - (previous + 1));
        }
        previous = index;
        pos = p + 1;
        w += 1;
    }
    Some((start, gaps))
}

/// Whether key `a` orders strictly before key `b`.
pub open spec fn key_less(a: (int, int, int), b: (int, int, int)) -> bool {
    a.0 < b.0 || (a.0 == b.0 && (a.1 < b.1 || (a.1 == b.1 && a.2 < b.2)))
}

/// A stored ranking key read as integers.
pub open spec fn key_of(k: (usize, usize, usize)) -> (int, int, int) {
    (k.0 as int, k.1 as int, k.2 as int)
}

fn key_less_exec(a: (usize, usize, usize), b: (usize, usize, usize)) -> (r: bool)
    ensures
        r == key_less(key_of(a), key_of(b)),
{
    a.0 < b.0 || (a.0 == b.0 && (a.1 < b.1 || (a.1 == b.1 && a.2 < b.2)))
}

/// Whether item `i` is a subsequence match.
pub open spec fn fuzzy_hit(items: Seq<CompletionItem>, query: Seq<char>, case: MatchCase, i: int) -> bool {
    fuzzy_score_of(items[i].spec_value(), query, case) is Some
}

/// Ranking key of item `i`: its score, then its position.
pub open spec fn fuzzy_key(items: Seq<CompletionItem>, query: Seq<char>, case: MatchCase, i: int) -> (int, int, int) {
    let sc = fuzzy_score_of(items[i].spec_value(), query, case)->0;
    (sc.0, sc.1, i)
}

/// `order` lists every matching item exactly once, by ascending key:
/// lower start offset, then fewer skipped bytes, then caller order.
pub open spec fn fuzzy_ranked(items: Seq<CompletionItem>, query: Seq<char>, case: MatchCase, order: Seq<int>) -> bool {
    &&& forall|j: int| 0 <= j < order.len() ==> 0 <= #[trigger] order[j] < items.len() && fuzzy_hit(items, query, case, order[j])
    &&& forall|i: int| 0 <= i < items.len() && fuzzy_hit(items, query, case, i) ==> #[trigger] order.contains(i)
    &&& forall|j: int, k: int| 0 <= j < k < order.len() ==> key_less(
        fuzzy_key(items, query, case, #[trigger] order[j]), fuzzy_key(items, query, case, #[trigger] order[k]))
}

/// The items listed by `order`.
pub open spec fn ranked_items(items: Seq<CompletionItem>, order: Seq<int>) -> Seq<CompletionItem> {
    order.map_values(|i: int| items[i])
}

/// Produce deterministic Unicode-scalar subsequence matches.
/// Lower start offset wins, then fewer byte gaps; ties preserve caller order.
pub fn complete_fuzzy(snapshot: &AnalysisSnapshot, range: Range<usize>, query: &str, items: &[CompletionItem], case: MatchCase) -> (r: Result<CompletionSet, CompletionHelperError>)
    ensures
        match r {
            Ok(s) => request_error(snapshot.spec_text(), range.start, range.end, query@, items@.len() as int) is None
                && s.spec_revision() == snapshot.spec_revision()
                && exists|order: Seq<int>| #[trigger] fuzzy_ranked(items@, query@, case, order)
                    && items_payload(ranked_items(items@, order)) <= MAX_COMPLETION_BYTES
                    && s.spec_candidates().len() == order.len()
                    && forall|j: int| 0 <= j < order.len() ==> offers(#[trigger] s.spec_candidates()[j], items@[order[j]], range),
            Err(e) => match request_error(snapshot.spec_text(), range.start, range.end, query@, items@.len() as int) {
                Some(CompletionHelperError::Limit) => e is Limit,
                Some(_) => e is InvalidRange,
                None => e matches CompletionHelperError::Completion(x) && x is Limit
                    && exists|order: Seq<int>| #[trigger] fuzzy_ranked(items@, query@, case, order)
                        && items_payload(ranked_items(items@, order)) > MAX_COMPLETION_BYTES,
            },
        },
{
    match validate_request(snapshot, &range, query, items.len()) {
        Ok(()) => {},
        Err(e) => return Err(e),
    }
    let ghost its = items@;
    let ghost q = query@;
    let mut keys: Vec<(usize, usize, usize)> = Vec::new();
    let mut i: usize = 0;
    while i < items.len()
        invariant
            its == items@,
            q == query@,
            i <= items@.len(),
            keys@.len() <= i,
            forall|j: int| 0 <= j < keys@.len() ==> (#[trigger] keys@[j]).2 < i && fuzzy_hit(its, q, case, keys@[j].2 as int)
                && key_of(keys@[j]) == fuzzy_key(its, q, case, keys@[j].2 as int),
            forall|m: int| 0 <= m < i && fuzzy_hit(its, q, case, m) ==> exists|j: int| 0 <= j < keys@.len() && (#[trigger] keys@[j]).2 == m,
            forall|j: int, k: int| 0 <= j < k < keys@.len() ==> key_less(key_of(#[trigger] keys@[j]), key_of(#[trigger] keys@[k])),
        decreases items@.len() - i,
    {
        match fuzzy_score(items[i].value.as_str(), query, case) {
            Some((start, gaps)) => {
                let key = (start, gaps, i);
                let mut at: usize = 0;
                while at < keys.len() && !key_less_exec(key, keys[at])
                    invariant
                        at <= keys@.len(),
                        forall|m: int| 0 <= m < at ==> !key_less(key_of(key), key_of(#[trigger] keys@[m])),
                    decreases keys@.len() - at,
                {
                    at += 1;
                }
                let ghost before = keys@;
                keys.insert(at, key);
                proof {
                    assert(keys@ == before.insert(at as int, key));
                    assert forall|j: int, k: int| 0 <= j < k < keys@.len() implies key_less(key_of(#[trigger] keys@[j]), key_of(#[trigger] keys@[k])) by {
                        if j < at && k < at {
                            assert(keys@[j] == before[j] && keys@[k] == before[k]);
                        } else if j < at && k == at {
                            assert(before[j].2 < i);
                        } else if j < at {
                            assert(before[j].2 < i);
                            assert(key_less(key_of(before[j]), key_of(key)));
                            assert(keys@[k] == before[k - 1]);
                            if k - 1 > at {
                                assert(key_less(key_of(before[at as int]), key_of(before[k - 1])));
                            }
                        } else if j == at {
                            assert(keys@[k] == before[k - 1]);
                            if k - 1 > at {
                                assert(key_less(key_of(before[at as int]), key_of(before[k - 1])));
                            }
                        } else {
                            assert(keys@[j] == before[j - 1] && keys@[k] == before[k - 1]);
                        }
                    }
                    assert forall|m: int| 0 <= m < i + 1 && fuzzy_hit(its, q, case, m) implies exists|j: int| 0 <= j < keys@.len() && (#[trigger] keys@[j]).2 == m by {
                        if m == i {
                            assert(keys@[at as int].2 == m);
                        } else {
                            let j0 = choose|j: int| 0 <= j < before.len() && (#[trigger] before[j]).2 == m;
                            if j0 < at {
                                assert(keys@[j0].2 == m);
                            } else {
                                assert(keys@[j0 + 1].2 == m);
                            }
                        }
                    }
                }
            },
            None => {
                proof {
                    assert forall|m: int| 0 <= m < i + 1 && fuzzy_hit(its, q, case, m) implies exists|j: int| 0 <= j < keys@.len() && (#[trigger] keys@[j]).2 == m by {
                        assert(m != i);
                    }
                }
            },
        }
        i += 1;
    }
    let ghost order = keys@.map_values(|k: (usize, usize, usize)| k.2 as int);
    proof {
        assert forall|m: int| 0 <= m < its.len() && fuzzy_hit(its, q, case, m) implies #[trigger] order.contains(m) by {
            let j = choose|j: int| 0 <= j < keys@.len() && (#[trigger] keys@[j]).2 == m;
            assert(order[j] == m);
        }
        assert forall|j: int, k: int| 0 <= j < k < order.len() implies key_less(
            fuzzy_key(its, q, case, #[trigger] order[j]), fuzzy_key(its, q, case, #[trigger] order[k])) by {
            assert(key_of(keys@[j]) == fuzzy_key(its, q, case, order[j]));
            assert(key_of(keys@[k]) == fuzzy_key(its, q, case, order[k]));
        }
        assert(fuzzy_ranked(its, q, case, order));
    }
    let mut out: Vec<CompletionCandidate> = Vec::new();
    let mut k: usize = 0;
    while k < keys.len()
        invariant
            its == items@,
            range.start <= range.end,
            k <= keys@.len(),
            out@.len() == k,
            order == keys@.map_values(|k: (usize, usize, usize)| k.2 as int),
            forall|j: int| 0 <= j < keys@.len() ==> (#[trigger] keys@[j]).2 < items@.len(),
            forall|j: int| 0 <= j < out@.len() ==> offers(#[trigger] out@[j], its[order[j]], range),
        decreases keys@.len() - k,
    {
        let index = keys[k].2;
        match candidate(&range, &items[index]) {
            Ok(c) => out.push(c),
            Err(e) => return Err(CompletionHelperError::Completion(e)),
        }
        k += 1;
    }
    proof {
        lemma_offered_payload(out@, ranked_items(its, order), range);
    }
    match CompletionSet::new(snapshot.revision(), out) {
        Ok(s) => Ok(s),
        Err(e) => Err(CompletionHelperError::Completion(e)),
    }
}

/// Bounds and policy for one-level path completion.
#[derive(Debug)]
pub struct PathCompletionOptions {
    base: PathBuf,
    include_hidden: bool,
    max_candidates: usize,
}

impl PathCompletionOptions {
    /// Whether hidden names are offered.
    pub closed spec fn spec_hidden(&self) -> bool {
        self.include_hidden
    }

    /// Result bound.
    pub closed spec fn spec_max(&self) -> usize {
        self.max_candidates
    }

    /// Base directory for relative input.
    pub closed spec fn spec_base(&self) -> PathBuf {
        self.base
    }

    /// Resolve relative input below `base`; absolute input ignores it.
    pub fn new(base: PathBuf) -> (r: Self)
        ensures
            !r.spec_hidden(),
            r.spec_max() == MAX_COMPLETION_CANDIDATES,
            r.spec_base() == base,
    {
        PathCompletionOptions { base, include_hidden: false, max_candidates: MAX_COMPLETION_CANDIDATES }
    }

    /// Include names whose first scalar is `.`.
    pub fn include_hidden(self, shown: bool) -> (r: Self)
        ensures
            r.spec_hidden() == shown,
            r.spec_max() == self.spec_max(),
            r.spec_base() == self.spec_base(),
    {
        let mut o = self;
        o.include_hidden = shown;
        o
    }

    /// Set a non-zero result bound no larger than the protocol candidate limit.
    pub fn max_candidates(self, maximum: usize) -> (r: Result<Self, CompletionHelperError>)
        ensures
            match r {
                Ok(o) => 0 < maximum <= MAX_COMPLETION_CANDIDATES && o.spec_max() == maximum && o.spec_hidden() == self.spec_hidden()
                    && o.spec_base() == self.spec_base(),
                Err(e) => (maximum == 0 || maximum > MAX_COMPLETION_CANDIDATES) && e is Limit,
            },
    {
        if maximum == 0 || maximum > MAX_COMPLETION_CANDIDATES {
            return Err(CompletionHelperError::Limit);
        }
        let mut o = self;
        o.max_candidates = maximum;
        Ok(o)
    }

    /// The base directory.
    pub fn base(&self) -> (r: &PathBuf)
        ensures
            *r == self.spec_base(),
    {
        &self.base
    }

    /// Whether hidden names are offered.
    pub fn hidden(&self) -> (r: bool)
        ensures
            r == self.spec_hidden(),
    {
        self.include_hidden
    }

    /// The result bound.
    pub fn limit(&self) -> (r: usize)
        ensures
            r == self.spec_max(),
    {
        self.max_candidates
    }
}

/// Strict bytewise order: the smaller byte at the first difference, or a proper prefix first.
pub open spec fn bytes_lt(a: Seq<u8>, b: Seq<u8>) -> bool
    decreases a.len(),
{
    if b.len() == 0 {
        false
    } else if a.len() == 0 {
        true
    } else if a[0] != b[0] {
        a[0] < b[0]
    } else {
        bytes_lt(a.drop_first(), b.drop_first())
    }
}

/// Bytewise order never puts a sequence before itself or before one it follows.
proof fn lemma_bytes_lt_asym(a: Seq<u8>, b: Seq<u8>)
    ensures
        bytes_lt(a, b) ==> !bytes_lt(b, a),
        !bytes_lt(a, a),
    decreases a.len(),
{
    if a.len() > 0 && b.len() > 0 && a[0] == b[0] {
        lemma_bytes_lt_asym(a.drop_first(), b.drop_first());
    }
    if a.len() > 0 {
        lemma_bytes_lt_asym(a.drop_first(), a.drop_first());
    }
}

/// Distinct sequences are ordered one way or the other.
proof fn lemma_bytes_lt_total(a: Seq<u8>, b: Seq<u8>)
    ensures
        a != b ==> bytes_lt(a, b) || bytes_lt(b, a),
    decreases a.len(),
{
    if a.len() > 0 && b.len() > 0 && a[0] == b[0] {
        lemma_bytes_lt_total(a.drop_first(), b.drop_first());
        if a.drop_first() == b.drop_first() {
            assert(a =~= b) by {
                assert forall|i: int| 0 <= i < a.len() implies a[i] == b[i] by {
                    if i > 0 {
                        assert(a[i] == a.drop_first()[i - 1]);
                        assert(b[i] == b.drop_first()[i - 1]);
                    }
                }
            }
        }
    } else if a.len() == 0 && b.len() == 0 {
        assert(a =~= b);
    }
}

/// Bytewise order is transitive.
proof fn lemma_bytes_lt_trans(a: Seq<u8>, b: Seq<u8>, c: Seq<u8>)
    requires
        bytes_lt(a, b),
        bytes_lt(b, c),
    ensures
        bytes_lt(a, c),
    decreases a.len(),
{
    if a.len() > 0 && a[0] == b[0] && b[0] == c[0] {
        lemma_bytes_lt_trans(a.drop_first(), b.drop_first(), c.drop_first());
    }
}

/// Whether `a` orders before `b` bytewise.
fn bytes_before(a: &str, b: &str) -> (r: bool)
    ensures
        r == bytes_lt(a.spec_bytes(), b.spec_bytes()),
{
    let x = a.as_bytes();
    let y = b.as_bytes();
    let mut i: usize = 0;
    assert(x@.skip(0) =~= x@ && y@.skip(0) =~= y@);
    while i < x.len() && i < y.len() && x[i] == y[i]
        invariant
            x@ == a.spec_bytes(),
            y@ == b.spec_bytes(),
            i <= x@.len(),
            i <= y@.len(),
            bytes_lt(x@, y@) == bytes_lt(x@.skip(i as int), y@.skip(i as int)),
        decreases x@.len() - i,
    {
        assert(x@.skip(i as int).drop_first() =~= x@.skip(i + 1));
        assert(y@.skip(i as int).drop_first() =~= y@.skip(i + 1));
        i += 1;
    }
    if i < x.len() && i < y.len() {
        x[i] < y[i]
    } else {
        x.len() < y.len()
    }
}

/// One directory entry found by path completion: insertion text, entry name,
/// and whether it is a directory, a symlink or a file.
pub struct PathEntry {
    /// Insertion text: the typed parent joined with the name, plus a separator for directories.
    pub insertion: String,
    /// The entry's name.
    pub name: String,
    /// `directory`, `symlink` or `file`.
    pub kind: &'static str,
}

/// The kind annotation of a directory entry.
pub open spec fn kind_text(is_dir: bool, is_symlink: bool) -> Seq<char> {
    if is_dir {
        "directory"@
    } else if is_symlink {
        "symlink"@
    } else {
        "file"@
    }
}

/// A found directory entry: `joined` is the typed parent joined with `name`;
/// a directory's insertion ends with `separator`, and the kind annotation is
/// `directory`, `symlink` or `file`.
pub fn path_entry(joined: &str, name: &str, is_dir: bool, is_symlink: bool, separator: char) -> (e: PathEntry)
    ensures
        e.insertion@ == (if is_dir { joined@.push(separator) } else { joined@ }),
        e.name@ == name@,
        e.kind@ == kind_text(is_dir, is_symlink),
{
    let mut insertion = joined.to_owned();
    if is_dir {
        push_char(&mut insertion, separator);
    }
    let kind: &'static str = if is_dir {
        "directory"
    } else if is_symlink {
        "symlink"
    } else {
        "file"
    };
    proof {
        reveal_strlit("directory");
        reveal_strlit("symlink");
        reveal_strlit("file");
    }
    PathEntry { insertion, name: name.to_owned(), kind }
}

/// Whether a directory entry is offered for the typed name prefix.
pub fn path_entry_offered(name: &str, prefix: &str, options: &PathCompletionOptions) -> (r: bool)
    ensures
        r == ((options.spec_hidden() || !(name.spec_bytes().len() > 0 && name.spec_bytes()[0] == 0x2e))
            && prefix_match(name.spec_bytes(), prefix.spec_bytes(), MatchCase::Sensitive)),
{
    let b = name.as_bytes();
    let hidden = b.len() > 0 && b[0] == 0x2e;
    (options.include_hidden || !hidden) && matches_prefix(name, prefix, MatchCase::Sensitive)
}

/// Whether entry `i` of `found` sorts before entry `k`: by insertion bytes,
/// equal insertions keeping their found order.
pub open spec fn entry_before(found: Seq<PathEntry>, i: int, k: int) -> bool {
    let x = bytes_of(found[i].insertion@);
    let y = bytes_of(found[k].insertion@);
    bytes_lt(x, y) || (x == y && i < k)
}

/// `order` lists every found entry exactly once, in sorted order.
pub open spec fn path_ranked(found: Seq<PathEntry>, order: Seq<int>) -> bool {
    &&& order.len() == found.len()
    &&& forall|j: int| 0 <= j < order.len() ==> 0 <= #[trigger] order[j] < found.len()
    &&& forall|j: int, k: int| 0 <= j < k < order.len() ==> entry_before(found, #[trigger] order[j], #[trigger] order[k])
}

/// Why an entry cannot be offered: unsafe insertion text or name, or an unsafe kind.
pub open spec fn entry_error(e: PathEntry) -> Option<CompletionError> {
    if candidate_error(0, 0, e.insertion@, e.name@) is Some {
        candidate_error(0, 0, e.insertion@, e.name@)
    } else {
        field_error(e.kind@, true)
    }
}

/// The candidate offering entry `e` for `range`: its insertion, its name, its kind.
pub open spec fn offers_entry(c: CompletionCandidate, e: PathEntry, range: Range<usize>) -> bool {
    &&& c.spec_start() == range.start
    &&& c.spec_end() == range.end
    &&& c.spec_replacement() == e.insertion@
    &&& c.spec_label() == e.name@
    &&& c.spec_annotation() == Some(e.kind@)
}

/// Payload bytes of the candidates offering `es`.
pub open spec fn entries_payload(es: Seq<PathEntry>) -> int
    decreases es.len(),
{
    if es.len() == 0 {
        0
    } else {
        let e = es.last();
        entries_payload(es.drop_last()) + blen(e.insertion@) + blen(e.name@) + blen(e.kind@)
    }
}

/// The entries listed by `order`.
pub open spec fn ranked_entries(found: Seq<PathEntry>, order: Seq<int>) -> Seq<PathEntry> {
    order.map_values(|i: int| found[i])
}

proof fn lemma_entries_payload(cands: Seq<CompletionCandidate>, es: Seq<PathEntry>, range: Range<usize>)
    requires
        cands.len() == es.len(),
        forall|j: int| 0 <= j < cands.len() ==> offers_entry(#[trigger] cands[j], es[j], range),
    ensures
        payload_total(cands) == entries_payload(es),
    decreases cands.len(),
{
    if cands.len() > 0 {
        let n = cands.len() - 1;
        assert(offers_entry(cands[n], es[n], range));
        lemma_entries_payload(cands.drop_last(), es.drop_last(), range);
    }
}

proof fn lemma_entry_before_trans(found: Seq<PathEntry>, a: int, b: int, c: int)
    requires
        entry_before(found, a, b),
        entry_before(found, b, c),
    ensures
        entry_before(found, a, c),
{
    let x = bytes_of(found[a].insertion@);
    let y = bytes_of(found[b].insertion@);
    let z = bytes_of(found[c].insertion@);
    if bytes_lt(x, y) && bytes_lt(y, z) {
        lemma_bytes_lt_trans(x, y, z);
    }
}

/// The outcome of offering the entries in `order` once the request and count are accepted.
pub open spec fn ranked_outcome(found: Seq<PathEntry>, order: Seq<int>, range: Range<usize>, r: Result<CompletionSet, CompletionHelperError>) -> bool {
    match r {
        Ok(s) => (forall|j: int| 0 <= j < order.len() ==> entry_error(found[#[trigger] order[j]]) is None)
            && entries_payload(ranked_entries(found, order)) <= MAX_COMPLETION_BYTES
            && s.spec_candidates().len() == order.len()
            && forall|j: int| 0 <= j < order.len() ==> offers_entry(#[trigger] s.spec_candidates()[j], found[order[j]], range),
        Err(CompletionHelperError::Completion(x)) => {
            ||| exists|j: int| 0 <= j < order.len() && entry_error(found[#[trigger] order[j]]) == Some(x)
                && forall|m: int| 0 <= m < j ==> entry_error(found[#[trigger] order[m]]) is None
            ||| (forall|j: int| 0 <= j < order.len() ==> entry_error(found[#[trigger] order[j]]) is None)
                && x is Limit && entries_payload(ranked_entries(found, order)) > MAX_COMPLETION_BYTES
        },
        Err(_) => false,
    }
}

/// Order found entries by insertion text and offer each with its kind as annotation.
pub fn path_candidates(snapshot: &AnalysisSnapshot, range: Range<usize>, found: Vec<PathEntry>, options: &PathCompletionOptions) -> (r: Result<CompletionSet, CompletionHelperError>)
    ensures
        match request_error(snapshot.spec_text(), range.start, range.end, Seq::<char>::empty(), options.spec_max() as int) {
            Some(CompletionHelperError::Limit) => r matches Err(e) && e is Limit,
            Some(_) => r matches Err(e) && e is InvalidRange,
            None => if found@.len() > options.spec_max() {
                r matches Err(e) && e is Limit
            } else {
                (r matches Ok(s) ==> s.spec_revision() == snapshot.spec_revision())
                    && exists|order: Seq<int>| #[trigger] path_ranked(found@, order) && ranked_outcome(found@, order, range, r)
            },
        },
{
    proof {
        reveal_strlit("");
    }
    match validate_request(snapshot, &range, "", options.max_candidates) {
        Ok(()) => {},
        Err(e) => return Err(e),
    }
    if found.len() > options.max_candidates {
        return Err(CompletionHelperError::Limit);
    }
    let ghost fs = found@;
    let mut sorted: Vec<usize> = Vec::new();
    let mut i: usize = 0;
    while i < found.len()
        invariant
            fs == found@,
            i <= found@.len(),
            sorted@.len() == i,
            forall|j: int| 0 <= j < sorted@.len() ==> (#[trigger] sorted@[j]) < i,
            forall|j: int, k: int| 0 <= j < k < sorted@.len() ==> entry_before(fs, #[trigger] sorted@[j] as int, #[trigger] sorted@[k] as int),
        decreases found@.len() - i,
    {
        let mut at: usize = 0;
        while at < sorted.len() && !bytes_before(found[i].insertion.as_str(), found[sorted[at]].insertion.as_str())
            invariant
                fs == found@,
                i < found@.len(),
                at <= sorted@.len(),
                forall|j: int| 0 <= j < sorted@.len() ==> (#[trigger] sorted@[j]) < i,
                forall|m: int| 0 <= m < at ==> entry_before(fs, #[trigger] sorted@[m] as int, i as int),
            decreases sorted@.len() - at,
        {
            proof {
                let x = bytes_of(fs[sorted@[at as int] as int].insertion@);
                let y = bytes_of(fs[i as int].insertion@);
                lemma_bytes_lt_total(x, y);
            }
            at += 1;
        }
        let ghost before = sorted@;
        proof {
            if at < before.len() {
                let y = bytes_of(fs[i as int].insertion@);
                let x = bytes_of(fs[before[at as int] as int].insertion@);
                lemma_bytes_lt_asym(y, x);
                assert(entry_before(fs, i as int, before[at as int] as int));
            }
        }
        sorted.insert(at, i);
        proof {
            assert(sorted@ == before.insert(at as int, i));
            assert forall|j: int, k: int| 0 <= j < k < sorted@.len() implies entry_before(fs, #[trigger] sorted@[j] as int, #[trigger] sorted@[k] as int) by {
                if j < at && k < at {
                    assert(sorted@[j] == before[j] && sorted@[k] == before[k]);
                } else if j < at && k == at {
                    assert(sorted@[j] == before[j]);
                } else if j < at {
                    assert(sorted@[j] == before[j] && sorted@[k] == before[k - 1]);
                } else if j == at {
                    assert(sorted@[k] == before[k - 1]);
                    if k - 1 > at {
                        assert(entry_before(fs, before[at as int] as int, before[k - 1] as int));
                        lemma_entry_before_trans(fs, i as int, before[at as int] as int, before[k - 1] as int);
                    }
                } else {
                    assert(sorted@[j] == before[j - 1] && sorted@[k] == before[k - 1]);
                }
            }
        }
        i += 1;
    }
    let ghost order = sorted@.map_values(|k: usize| k as int);
    proof {
        assert forall|j: int, k: int| 0 <= j < k < order.len() implies entry_before(fs, #[trigger] order[j], #[trigger] order[k]) by {
            assert(entry_before(fs, sorted@[j] as int, sorted@[k] as int));
        }
        assert(path_ranked(fs, order));
    }
    let mut out: Vec<CompletionCandidate> = Vec::new();
    let mut k: usize = 0;
    while k < sorted.len()
        invariant
            fs == found@,
            range.start <= range.end,
            k <= sorted@.len(),
            out@.len() == k,
            order == sorted@.map_values(|k: usize| k as int),
            path_ranked(fs, order),
            found@.len() <= options.spec_max(),
            request_error(snapshot.spec_text(), range.start, range.end, Seq::<char>::empty(), options.spec_max() as int) is None,
            forall|j: int| 0 <= j < k ==> entry_error(fs[#[trigger] order[j]]) is None,
            forall|j: int| 0 <= j < out@.len() ==> offers_entry(#[trigger] out@[j], fs[order[j]], range),
        decreases sorted@.len() - k,
    {
        proof {
            assert(order[k as int] == sorted@[k as int] as int);
        }
        let e = &found[sorted[k]];
        proof {
            assert(fs[order[k as int]] == *e);
        }
        let item = match CompletionItem::labeled(e.insertion.as_str(), e.name.as_str()) {
            Ok(it) => it,
            Err(err) => {
                proof {
                    let x = err->Completion_0;
                    assert(entry_error(fs[order[k as int]]) == Some(x));
                    assert(ranked_outcome(fs, order, range, Err(err)));
                }
                return Err(err);
            },
        };
        let item = match item.with_annotation(e.kind) {
            Ok(it) => it,
            Err(err) => {
                proof {
                    let x = err->Completion_0;
                    assert(entry_error(fs[order[k as int]]) == Some(x));
                    assert(ranked_outcome(fs, order, range, Err(err)));
                }
                return Err(err);
            },
        };
        match candidate(&range, &item) {
            Ok(c) => out.push(c),
            Err(err) => return Err(CompletionHelperError::Completion(err)),
        }
        k += 1;
    }
    proof {
        lemma_entries_payload(out@, ranked_entries(fs, order), range);
    }
    let r = match CompletionSet::new(snapshot.revision(), out) {
        Ok(s) => Ok(s),
        Err(e) => Err(CompletionHelperError::Completion(e)),
    };
    assert(ranked_outcome(fs, order, range, r));
    r
}

} // verus!
