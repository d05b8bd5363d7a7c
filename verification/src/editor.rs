//! Bounded, reversible, grapheme-aware text editing.
use crate::analysis::{AnalysisOutcome, AnalysisSnapshot, DraftRevision};
use crate::segment::{
    ceil_in, ceil_offset, contains_offset, contains_word, contains_word_of, floor_below, word_starts, word_starts_of, display_width, display_width_of, floor_offset, grapheme_starts,
    grapheme_starts_of, is_boundary, lemma_ceil_in_range, lemma_floor_below_range,
    offsets_below, partition_offsets,
};
use crate::text::{
    blen, byte_len, bytes_equal, bytes_of, lemma_encode_concat, lemma_splice_cb,
    lemma_splice_cb_prefix, splice, splice_str, spec_valid_text,
    str_equal, substring, valid_text,
};
use std::ops::Range;
use vstd::prelude::*;
use vstd::string::*;
use vstd::utf8::*;

verus! {

broadcast use {encode_utf8_decode_utf8, encode_utf8_valid_utf8, decode_utf8_encode_utf8};

/// Default number of logical edits retained for undo and redo.
pub const DEFAULT_UNDO_ENTRIES: usize = 256;

/// Maximum payload combined into one contiguous typing/deletion undo group.
pub const MAX_UNDO_GROUP_BYTES: usize = 4096;

/// Default bound of the kill register.
pub const DEFAULT_KILL_BYTES: usize = 65536;

/// A rejected edit. Rejection leaves the text and cursor unchanged.
#[derive(Clone, Copy, Debug, PartialEq, Eq, Structural)]
pub enum EditError {
    /// The configured UTF-8 byte capacity would be exceeded.
    Capacity,
    /// Text contains a control character other than LF or TAB.
    InvalidText,
    /// A replacement range is reversed, outside the buffer, or splits a grapheme.
    InvalidRange,
    /// The host configured zero history entries.
    HistoryDisabled,
    /// Input was not valid, complete UTF-8.
    InvalidUtf8,
    /// An unknown or incomplete terminal sequence was rejected.
    InvalidSequence,
}

/// The human-readable description of an edit rejection.
pub open spec fn edit_error_text(e: EditError) -> Seq<char> {
    match e {
        EditError::Capacity => "input capacity exceeded"@,
        EditError::InvalidText => "unsupported control character"@,
        EditError::InvalidRange => "replacement must use ordered grapheme boundaries"@,
        EditError::HistoryDisabled => "history is disabled"@,
        EditError::InvalidUtf8 => "invalid or incomplete UTF-8"@,
        EditError::InvalidSequence => "unknown or incomplete terminal sequence"@,
    }
}

impl EditError {
    /// Human-readable description of the rejection.
    pub fn message(&self) -> (r: &'static str)
        ensures
            r@ == edit_error_text(*self),
    {
        match self {
            EditError::Capacity => "input capacity exceeded",
            EditError::InvalidText => "unsupported control character",
            EditError::InvalidRange => "replacement must use ordered grapheme boundaries",
            EditError::HistoryDisabled => "history is disabled",
            EditError::InvalidUtf8 => "invalid or incomplete UTF-8",
            EditError::InvalidSequence => "unknown or incomplete terminal sequence",
        }
    }
}

/// Editing bounds that are internally inconsistent.
#[derive(Clone, Copy, Debug, PartialEq, Eq, Structural)]
pub struct EditorLimitsError;

impl EditorLimitsError {
    /// Human-readable description of the rejection.
    pub fn message(&self) -> (r: &'static str)
        ensures
            r@ == "invalid editor limits"@,
    {
        "invalid editor limits"
    }
}

/// `max_bytes * 2`, saturating at `usize::MAX`.
pub open spec fn double_sat(n: usize) -> int {
    if n > usize::MAX / 2 {
        usize::MAX as int
    } else {
        2 * n
    }
}

fn double_saturating(n: usize) -> (r: usize)
    ensures
        r == double_sat(n),
{
    if n > usize::MAX / 2 {
        usize::MAX
    } else {
        n * 2
    }
}

/// Low-level bounds for reversible editing and the private kill register.
#[derive(Clone, Copy, Debug, PartialEq, Eq, Structural)]
pub struct EditorLimits {
    undo_entries: usize,
    undo_bytes: usize,
    kill_bytes: usize,
}

/// Whether the bounds are coherent for an editor of `max_bytes` capacity:
/// at least one undo entry, room for one worst-case replacement, and a kill
/// register no larger than the editor.
pub open spec fn limits_valid(max_bytes: usize, undo_entries: usize, undo_bytes: usize, kill_bytes: usize) -> bool {
    undo_entries > 0 && undo_bytes >= double_sat(max_bytes) && kill_bytes <= max_bytes
}

impl EditorLimits {
    pub closed spec fn spec_undo_entries(self) -> usize {
        self.undo_entries
    }

    pub closed spec fn spec_undo_bytes(self) -> usize {
        self.undo_bytes
    }

    pub closed spec fn spec_kill_bytes(self) -> usize {
        self.kill_bytes
    }

    /// Whether these bounds suit an editor of `max_bytes` capacity.
    pub open spec fn valid_for(self, max_bytes: usize) -> bool {
        limits_valid(max_bytes, self.spec_undo_entries(), self.spec_undo_bytes(), self.spec_kill_bytes())
    }

    /// Construct bounds. `undo_bytes` must hold one worst-case replacement.
    pub fn new(max_bytes: usize, undo_entries: usize, undo_bytes: usize, kill_bytes: usize) -> (r:
        Result<Self, EditorLimitsError>)
        ensures
            match r {
                Ok(l) => limits_valid(max_bytes, undo_entries, undo_bytes, kill_bytes)
                    && l.spec_undo_entries() == undo_entries && l.spec_undo_bytes() == undo_bytes
                    && l.spec_kill_bytes() == kill_bytes,
                Err(_) => !limits_valid(max_bytes, undo_entries, undo_bytes, kill_bytes),
            },
    {
        if undo_entries == 0 || undo_bytes < double_saturating(max_bytes) || kill_bytes > max_bytes {
            return Err(EditorLimitsError);
        }
        Ok(EditorLimits { undo_entries, undo_bytes, kill_bytes })
    }

    /// Maximum logical records retained independently by undo and redo.
    pub fn undo_entries(self) -> (r: usize)
        ensures
            r == self.spec_undo_entries(),
    {
        self.undo_entries
    }

    /// Maximum replacement payload retained independently by undo and redo.
    pub fn undo_bytes(self) -> (r: usize)
        ensures
            r == self.spec_undo_bytes(),
    {
        self.undo_bytes
    }

    /// Maximum UTF-8 bytes retained in the editor-owned kill register.
    pub fn kill_bytes(self) -> (r: usize)
        ensures
            r == self.spec_kill_bytes(),
    {
        self.kill_bytes
    }

    /// Default bounds for an editor of `max_bytes` capacity.
    pub closed spec fn spec_for_capacity(max_bytes: usize) -> Self {
        EditorLimits {
            undo_entries: DEFAULT_UNDO_ENTRIES,
            undo_bytes: double_sat(max_bytes) as usize,
            kill_bytes: if max_bytes < DEFAULT_KILL_BYTES { max_bytes } else { DEFAULT_KILL_BYTES },
        }
    }

    /// The default bounds: the default number of records, twice the capacity
    /// of undo payload (saturating), and a kill register of at most the smaller
    /// of the capacity and the default.
    pub proof fn lemma_for_capacity(max_bytes: usize)
        ensures
            Self::spec_for_capacity(max_bytes).spec_undo_entries() == DEFAULT_UNDO_ENTRIES,
            Self::spec_for_capacity(max_bytes).spec_undo_bytes() == double_sat(max_bytes),
            Self::spec_for_capacity(max_bytes).spec_kill_bytes() == if max_bytes < DEFAULT_KILL_BYTES { max_bytes }
                else { DEFAULT_KILL_BYTES },
    {
    }

    /// Default bounds for an editor of `max_bytes` capacity.
    pub fn for_capacity(max_bytes: usize) -> (r: Self)
        ensures
            r.spec_undo_entries() == DEFAULT_UNDO_ENTRIES,
            r.spec_undo_bytes() == double_sat(max_bytes),
            r.spec_kill_bytes() == if max_bytes < DEFAULT_KILL_BYTES { max_bytes } else { DEFAULT_KILL_BYTES },
            r.valid_for(max_bytes),
            r == Self::spec_for_capacity(max_bytes),
    {
        EditorLimits {
            undo_entries: DEFAULT_UNDO_ENTRIES,
            undo_bytes: double_saturating(max_bytes),
            kill_bytes: if max_bytes < DEFAULT_KILL_BYTES { max_bytes } else { DEFAULT_KILL_BYTES },
        }
    }
}

#[derive(Clone, Copy, Debug, PartialEq, Eq, Structural)]
pub enum EditGroup {
    Insert,
    Backspace,
    Delete,
    Atomic,
}

/// The abstract content of one reversible edit.
pub struct RecView {
    pub start: int,
    pub removed: Seq<u8>,
    pub inserted: Seq<u8>,
    pub before: int,
    pub after: int,
}

#[derive(Debug)]
struct EditRecord {
    start: usize,
    removed: String,
    inserted: String,
    cursor_before: usize,
    cursor_after: usize,
    group: EditGroup,
}

impl EditRecord {
    spec fn view(&self) -> RecView {
        RecView {
            start: self.start as int,
            removed: bytes_of(self.removed@),
            inserted: bytes_of(self.inserted@),
            before: self.cursor_before as int,
            after: self.cursor_after as int,
        }
    }

    fn bytes(&self) -> (r: u128)
        ensures
            r == rec_bytes(self.view()),
    {
        let a = self.removed.as_str();
        let b = self.inserted.as_str();
        assert(a.spec_bytes() == bytes_of(self.removed@));
        assert(b.spec_bytes() == bytes_of(self.inserted@));
        byte_len(a) as u128 + byte_len(b) as u128
    }
}

/// Payload bytes retained by one record.
pub open spec fn rec_bytes(r: RecView) -> int {
    (r.removed.len() + r.inserted.len()) as int
}

/// Payload bytes retained by a sequence of records.
pub open spec fn total(recs: Seq<RecView>) -> int
    decreases recs.len(),
{
    if recs.len() == 0 {
        0
    } else {
        rec_bytes(recs[0]) + total(recs.drop_first())
    }
}

/// What typing `ins` at the cursor of `e0` does to its undo records: it
/// joins the open typing record when the group is open and stays within the
/// group bound, else it starts a new record; either way the typed bytes are
/// retained, provided the undo bounds hold them.
pub open spec fn typing_effect(e0: &Editor, e1: &Editor, ins: Seq<u8>) -> bool {
    let rec = RecView { start: e0.pos(), removed: Seq::empty(), inserted: ins, before: e0.pos(), after: e1.pos() };
    let lim = e0.limits_spec();
    if e0.typing_open() && e0.typing_bytes() + ins.len() <= MAX_UNDO_GROUP_BYTES {
        e0.undo_payload() + ins.len() <= lim.spec_undo_bytes() ==> e1.undo_count() == e0.undo_count()
            && e1.undo_payload() == e0.undo_payload() + ins.len() && e1.undo_top() == merge_insert(e0.undo_top(), rec)
    } else {
        e0.undo_count() + 1 <= lim.spec_undo_entries() && e0.undo_payload() + ins.len() <= lim.spec_undo_bytes()
            ==> e1.undo_count() == e0.undo_count() + 1 && e1.undo_payload() == e0.undo_payload() + ins.len()
            && e1.undo_top() == rec
    }
}

/// What erasing `b[s..e]` of `e0` (backward from the cursor, or forward from
/// it) does to its undo records: it joins the open run of the same direction
/// when the run stays within the group bound, else it starts a new record;
/// either way the erased bytes are retained, provided the undo bounds hold them.
pub open spec fn erase_effect(e0: &Editor, e1: &Editor, s: int, e: int, backward: bool) -> bool {
    let rec = RecView { start: s, removed: e0.bytes().subrange(s, e), inserted: Seq::empty(), before: e0.pos(), after: e1.pos() };
    let lim = e0.limits_spec();
    let open = if backward { e0.backspace_open() } else { e0.delete_open() };
    if open && e0.undo_top().removed.len() + (e - s) <= MAX_UNDO_GROUP_BYTES {
        e0.undo_payload() + (e - s) <= lim.spec_undo_bytes() ==> e1.undo_count() == e0.undo_count()
            && e1.undo_payload() == e0.undo_payload() + (e - s)
            && e1.undo_top() == (if backward { merge_backspace(e0.undo_top(), rec) } else { merge_delete(e0.undo_top(), rec) })
    } else {
        e0.undo_count() + 1 <= lim.spec_undo_entries() && e0.undo_payload() + (e - s) <= lim.spec_undo_bytes()
            ==> e1.undo_count() == e0.undo_count() + 1 && e1.undo_payload() == e0.undo_payload() + (e - s)
            && e1.undo_top() == rec
    }
}

/// Text that fits the editor: valid UTF-8 within the byte capacity, holding
/// no control character but line feed and tab.
pub open spec fn text_ok(b: Seq<u8>, limit: int) -> bool {
    valid_utf8(b) && b.len() <= limit && spec_valid_text(decode_utf8(b))
}

/// The text before `r` was applied, given the text after it.
pub open spec fn unapply(b: Seq<u8>, r: RecView) -> Seq<u8> {
    splice(b, r.start, r.start + r.inserted.len(), r.removed)
}

/// The text after `r` is applied to the text before it.
pub open spec fn apply(b: Seq<u8>, r: RecView) -> Seq<u8> {
    splice(b, r.start, r.start + r.removed.len(), r.inserted)
}

/// `recs` (oldest first) undo successively from the text `b`, through texts
/// that fit the editor and at cursors that are grapheme boundaries.
pub open spec fn undo_chain(b: Seq<u8>, recs: Seq<RecView>, limit: int) -> bool
    decreases recs.len(),
{
    if recs.len() == 0 {
        true
    } else {
        let r = recs.last();
        let p = unapply(b, r);
        &&& 0 <= r.start && r.start + r.inserted.len() <= b.len()
        &&& b.subrange(r.start, r.start + r.inserted.len()) == r.inserted
        &&& is_char_boundary(b, r.start)
        &&& is_char_boundary(b, r.start + r.inserted.len())
        &&& is_boundary(b, r.after)
        &&& text_ok(p, limit)
        &&& is_boundary(p, r.before)
        &&& undo_chain(p, recs.drop_last(), limit)
    }
}

/// `recs` (oldest first) redo successively from the text `b`.
pub open spec fn redo_chain(b: Seq<u8>, recs: Seq<RecView>, limit: int) -> bool
    decreases recs.len(),
{
    if recs.len() == 0 {
        true
    } else {
        let r = recs.last();
        let n = apply(b, r);
        &&& 0 <= r.start && r.start + r.removed.len() <= b.len()
        &&& b.subrange(r.start, r.start + r.removed.len()) == r.removed
        &&& is_char_boundary(b, r.start)
        &&& is_char_boundary(b, r.start + r.removed.len())
        &&& is_boundary(b, r.before)
        &&& text_ok(n, limit)
        &&& is_boundary(n, r.after)
        &&& redo_chain(n, recs.drop_last(), limit)
    }
}

proof fn lemma_total_push(recs: Seq<RecView>, r: RecView)
    ensures
        total(recs.push(r)) == total(recs) + rec_bytes(r),
    decreases recs.len(),
{
    if recs.len() == 0 {
        assert(recs.push(r).drop_first() =~= Seq::<RecView>::empty());
        assert(recs.push(r)[0] == r);
        assert(total(recs.push(r).drop_first()) == 0);
    } else {
        assert(recs.push(r).drop_first() =~= recs.drop_first().push(r));
        assert(recs.push(r)[0] == recs[0]);
        lemma_total_push(recs.drop_first(), r);
        assert(total(recs) == rec_bytes(recs[0]) + total(recs.drop_first()));
    }
}

proof fn lemma_total_drop_last(recs: Seq<RecView>)
    requires
        recs.len() > 0,
    ensures
        total(recs) == total(recs.drop_last()) + rec_bytes(recs.last()),
{
    assert(recs.drop_last().push(recs.last()) =~= recs);
    lemma_total_push(recs.drop_last(), recs.last());
}

proof fn lemma_total_nonneg(recs: Seq<RecView>)
    ensures
        total(recs) >= 0,
    decreases recs.len(),
{
    if recs.len() > 0 {
        lemma_total_nonneg(recs.drop_first());
    }
}

proof fn lemma_undo_chain_drop_first(b: Seq<u8>, recs: Seq<RecView>, limit: int)
    requires
        recs.len() > 0,
        undo_chain(b, recs, limit),
    ensures
        undo_chain(b, recs.drop_first(), limit),
    decreases recs.len(),
{
    if recs.len() > 1 {
        let r = recs.last();
        let p = unapply(b, r);
        assert(recs.drop_first().last() == r);
        assert(recs.drop_first().drop_last() =~= recs.drop_last().drop_first());
        lemma_undo_chain_drop_first(p, recs.drop_last(), limit);
    }
}

proof fn lemma_redo_chain_drop_first(b: Seq<u8>, recs: Seq<RecView>, limit: int)
    requires
        recs.len() > 0,
        redo_chain(b, recs, limit),
    ensures
        redo_chain(b, recs.drop_first(), limit),
    decreases recs.len(),
{
    if recs.len() > 1 {
        let r = recs.last();
        let n = apply(b, r);
        assert(recs.drop_first().last() == r);
        assert(recs.drop_first().drop_last() =~= recs.drop_last().drop_first());
        lemma_redo_chain_drop_first(n, recs.drop_last(), limit);
    }
}

/// Re-applying a replacement after undoing it gives back the text.
proof fn lemma_unapply_apply(b: Seq<u8>, r: RecView)
    requires
        0 <= r.start && r.start + r.inserted.len() <= b.len(),
        b.subrange(r.start, r.start + r.inserted.len()) == r.inserted,
    ensures
        unapply(b, r).subrange(r.start, r.start + r.removed.len()) == r.removed,
        r.start + r.removed.len() <= unapply(b, r).len(),
        apply(unapply(b, r), r) == b,
{
    let p = unapply(b, r);
    assert(p.subrange(r.start, r.start + r.removed.len()) =~= r.removed);
    assert(apply(p, r) =~= b);
}

/// Undoing a replacement after applying it gives back the text.
proof fn lemma_apply_unapply(b: Seq<u8>, r: RecView)
    requires
        0 <= r.start && r.start + r.removed.len() <= b.len(),
        b.subrange(r.start, r.start + r.removed.len()) == r.removed,
    ensures
        apply(b, r).subrange(r.start, r.start + r.inserted.len()) == r.inserted,
        r.start + r.inserted.len() <= apply(b, r).len(),
        unapply(apply(b, r), r) == b,
{
    let n = apply(b, r);
    assert(n.subrange(r.start, r.start + r.inserted.len()) =~= r.inserted);
    assert(unapply(n, r) =~= b);
}

} // verus!

verus! {

spec fn views(v: Seq<EditRecord>) -> Seq<RecView> {
    v.map_values(|r: EditRecord| r.view())
}

proof fn lemma_views_push(v: Seq<EditRecord>, r: EditRecord)
    ensures
        views(v.push(r)) == views(v).push(r.view()),
{
    assert(views(v.push(r)) =~= views(v).push(r.view()));
}

proof fn lemma_views_drop_last(v: Seq<EditRecord>)
    requires
        v.len() > 0,
    ensures
        views(v.drop_last()) == views(v).drop_last(),
        views(v).last() == v.last().view(),
{
    assert(views(v.drop_last()) =~= views(v).drop_last());
}

proof fn lemma_views_drop_first(v: Seq<EditRecord>)
    requires
        v.len() > 0,
    ensures
        views(v.remove(0)) == views(v).drop_first(),
        views(v)[0] == v[0].view(),
{
    assert(views(v.remove(0)) =~= views(v).drop_first());
}

#[derive(Debug)]
struct UndoState {
    undo: Vec<EditRecord>,
    redo: Vec<EditRecord>,
    undo_bytes: usize,
    redo_bytes: usize,
    limits: EditorLimits,
    group_open: bool,
}

/// A stack of records consistent with text `b` as an undo (or redo) history.
pub open spec fn stack_ok(b: Seq<u8>, recs: Seq<RecView>, limit: int, undo: bool) -> bool {
    if undo {
        undo_chain(b, recs, limit)
    } else {
        redo_chain(b, recs, limit)
    }
}

impl UndoState {
    spec fn inv(&self, b: Seq<u8>, limit: int) -> bool {
        &&& undo_chain(b, views(self.undo@), limit)
        &&& redo_chain(b, views(self.redo@), limit)
        &&& self.undo_bytes == total(views(self.undo@))
        &&& self.redo_bytes == total(views(self.redo@))
        &&& self.undo@.len() <= self.limits.spec_undo_entries()
        &&& self.redo@.len() <= self.limits.spec_undo_entries()
        &&& self.undo_bytes <= self.limits.spec_undo_bytes()
        &&& self.redo_bytes <= self.limits.spec_undo_bytes()
        &&& self.limits.spec_undo_entries() > 0
    }

    fn new(limits: EditorLimits) -> (r: Self)
        requires
            limits.spec_undo_entries() > 0,
        ensures
            r.undo@.len() == 0,
            r.redo@.len() == 0,
            r.limits == limits,
            forall|b: Seq<u8>, limit: int| r.inv(b, limit),
    {
        let r = UndoState {
            undo: Vec::new(),
            redo: Vec::new(),
            undo_bytes: 0,
            redo_bytes: 0,
            limits,
            group_open: false,
        };
        assert(views(r.undo@) =~= Seq::<RecView>::empty());
        assert(views(r.redo@) =~= Seq::<RecView>::empty());
        r
    }

    fn clear(&mut self)
        requires
            old(self).limits.spec_undo_entries() > 0,
        ensures
            final(self).undo@.len() == 0,
            final(self).redo@.len() == 0,
            final(self).limits == old(self).limits,
            !final(self).group_open,
            forall|b: Seq<u8>, limit: int| final(self).inv(b, limit),
    {
        self.undo.clear();
        self.redo.clear();
        self.undo_bytes = 0;
        self.redo_bytes = 0;
        self.group_open = false;
        assert(views(self.undo@) =~= Seq::<RecView>::empty());
        assert(views(self.redo@) =~= Seq::<RecView>::empty());
    }

    fn clear_redo(&mut self, Ghost(b): Ghost<Seq<u8>>, Ghost(limit): Ghost<int>)
        requires
            old(self).inv(b, limit),
        ensures
            final(self).inv(b, limit),
            final(self).undo == old(self).undo,
            final(self).redo@.len() == 0,
            final(self).limits == old(self).limits,
            final(self).group_open == old(self).group_open,
    {
        self.redo.clear();
        self.redo_bytes = 0;
        assert(views(self.redo@) =~= Seq::<RecView>::empty());
    }

    /// Drop the oldest records until the stack fits its entry and byte bounds.
    fn trim(stack: &mut Vec<EditRecord>, bytes: u128, limits: EditorLimits, Ghost(b): Ghost<Seq<u8>>, Ghost(limit): Ghost<int>, Ghost(undo): Ghost<bool>) -> (r: usize)
        requires
            bytes == total(views(old(stack)@)),
            stack_ok(b, views(old(stack)@), limit, undo),
            limits.spec_undo_entries() > 0,
        ensures
            r == total(views(final(stack)@)),
            r <= limits.spec_undo_bytes(),
            final(stack)@.len() <= limits.spec_undo_entries(),
            stack_ok(b, views(final(stack)@), limit, undo),
            exists|k: int| 0 <= k <= old(stack)@.len() && final(stack)@ == old(stack)@.subrange(k, old(stack)@.len() as int),
            old(stack)@.len() > 0 && rec_bytes(old(stack)@.last().view()) <= limits.spec_undo_bytes()
                ==> final(stack)@.len() > 0 && final(stack)@.last() == old(stack)@.last(),
            old(stack)@.len() <= limits.spec_undo_entries() && bytes <= limits.spec_undo_bytes()
                ==> final(stack)@ == old(stack)@,
    {
        let ghost orig = stack@;
        let ghost n = orig.len() as int;
        let mut total_bytes = bytes;
        let ghost mut k: int = 0;
        assert(orig.subrange(0, n) =~= orig);
        while stack.len() > limits.undo_entries() || total_bytes > limits.undo_bytes() as u128
            invariant
                0 <= k <= n,
                n == orig.len(),
                stack@.len() == n - k,
                stack@ == orig.subrange(k, n),
                total_bytes == total(views(stack@)),
                stack_ok(b, views(stack@), limit, undo),
                limits.spec_undo_entries() > 0,
                n > 0 && rec_bytes(orig.last().view()) <= limits.spec_undo_bytes() ==> k < n,
                n <= limits.spec_undo_entries() && bytes <= limits.spec_undo_bytes() ==> k == 0,
                bytes == total(views(orig)),
            decreases stack@.len(),
        {
            proof {
                if n <= limits.spec_undo_entries() && bytes <= limits.spec_undo_bytes() {
                    assert(orig.subrange(0, n) =~= orig);
                    assert(false);
                }
                lemma_total_nonneg(views(stack@));
                if stack@.len() == 0 {
                    assert(views(stack@).len() == 0);
                }
            }
            assert(stack@.len() > 0);
            proof {
                lemma_views_drop_first(stack@);
                let vs = views(stack@);
                lemma_total_nonneg(vs.drop_first());
                assert(total(vs) == rec_bytes(vs[0]) + total(vs.drop_first()));
                if undo {
                    lemma_undo_chain_drop_first(b, vs, limit);
                } else {
                    lemma_redo_chain_drop_first(b, vs, limit);
                }
                if stack@.len() == 1 {
                    assert(vs.drop_first().len() == 0);
                    assert(total(vs.drop_first()) == 0);
                    assert(stack@[0] == orig[n - 1]);
                    assert(vs[0] == orig.last().view());
                }
            }
            let old_rec = stack.remove(0);
            total_bytes = total_bytes - old_rec.bytes();
            proof {
                k = k + 1;
                assert(stack@ =~= orig.subrange(k, n));
            }
        }
        proof {
            if n > 0 && rec_bytes(orig.last().view()) <= limits.spec_undo_bytes() {
                assert(stack@.last() == orig.last());
            }
        }
        total_bytes as usize
    }
}

} // verus!

verus! {

/// Combining a typing record with the following contiguous typing record.
pub open spec fn merge_insert(p: RecView, r: RecView) -> RecView {
    RecView { start: p.start, removed: Seq::empty(), inserted: p.inserted + r.inserted, before: p.before, after: r.after }
}

/// Combining a backspace record with the following contiguous backspace record.
pub open spec fn merge_backspace(p: RecView, r: RecView) -> RecView {
    RecView { start: r.start, removed: r.removed + p.removed, inserted: Seq::empty(), before: p.before, after: r.after }
}

/// Combining a forward-delete record with the following delete at the same offset.
pub open spec fn merge_delete(p: RecView, r: RecView) -> RecView {
    RecView { start: p.start, removed: p.removed + r.removed, inserted: Seq::empty(), before: p.before, after: r.after }
}

proof fn lemma_merge_insert(b0: Seq<u8>, p: RecView, r: RecView)
    requires
        p.removed.len() == 0,
        r.removed.len() == 0,
        0 <= p.start,
        p.start + p.inserted.len() == r.start,
        r.start <= b0.len(),
        b0.subrange(p.start, p.start + p.inserted.len()) == p.inserted,
    ensures
        ({
            let m = merge_insert(p, r);
            let b1 = apply(b0, r);
            &&& m.start + m.inserted.len() <= b1.len()
            &&& b1.subrange(m.start, m.start + m.inserted.len()) == m.inserted
            &&& unapply(b1, m) == unapply(b0, p)
        }),
{
    let m = merge_insert(p, r);
    let b1 = apply(b0, r);
    assert(b1 =~= b0.subrange(0, r.start) + r.inserted + b0.subrange(r.start, b0.len() as int));
    assert(b1.subrange(m.start, m.start + m.inserted.len()) =~= m.inserted);
    assert(unapply(b1, m) =~= unapply(b0, p));
}

proof fn lemma_merge_backspace(b0: Seq<u8>, p: RecView, r: RecView)
    requires
        p.inserted.len() == 0,
        r.inserted.len() == 0,
        0 <= r.start,
        r.start + r.removed.len() == p.start,
        p.start <= b0.len(),
        b0.subrange(r.start, r.start + r.removed.len()) == r.removed,
    ensures
        ({
            let m = merge_backspace(p, r);
            let b1 = apply(b0, r);
            &&& m.start + m.inserted.len() <= b1.len()
            &&& b1.subrange(m.start, m.start + m.inserted.len()) == m.inserted
            &&& unapply(b1, m) == unapply(b0, p)
        }),
{
    let m = merge_backspace(p, r);
    let b1 = apply(b0, r);
    assert(b1.subrange(m.start, m.start + m.inserted.len()) =~= m.inserted);
    assert(b0.subrange(0, p.start) =~= b0.subrange(0, r.start) + r.removed);
    assert(unapply(b1, m) =~= unapply(b0, p));
}

proof fn lemma_merge_delete(b0: Seq<u8>, p: RecView, r: RecView)
    requires
        p.inserted.len() == 0,
        r.inserted.len() == 0,
        0 <= r.start,
        p.start == r.start,
        r.start + r.removed.len() <= b0.len(),
        b0.subrange(r.start, r.start + r.removed.len()) == r.removed,
    ensures
        ({
            let m = merge_delete(p, r);
            let b1 = apply(b0, r);
            &&& m.start + m.inserted.len() <= b1.len()
            &&& b1.subrange(m.start, m.start + m.inserted.len()) == m.inserted
            &&& unapply(b1, m) == unapply(b0, p)
        }),
{
    let m = merge_delete(p, r);
    let b1 = apply(b0, r);
    assert(b1.subrange(m.start, m.start + m.inserted.len()) =~= m.inserted);
    assert(b0.subrange(r.start, b0.len() as int) =~= r.removed + b0.subrange(r.start + r.removed.len(), b0.len() as int));
    assert(unapply(b1, m) =~= unapply(b0, p));
}

fn str_is_empty(s: &String) -> (r: bool)
    ensures
        r == (bytes_of(s@).len() == 0),
{
    let t = s.as_str();
    assert(t.spec_bytes() == bytes_of(s@));
    byte_len(t) == 0
}

fn str_bytes(s: &String) -> (r: usize)
    ensures
        r as int == bytes_of(s@).len(),
{
    let t = s.as_str();
    assert(t.spec_bytes() == bytes_of(s@));
    byte_len(t)
}

fn concat(a: &String, b: &String) -> (r: String)
    ensures
        r@ == a@ + b@,
        bytes_of(r@) == bytes_of(a@) + bytes_of(b@),
{
    let mut r = a.clone();
    r.append(b.as_str());
    proof { lemma_encode_concat(a@, b@); }
    r
}


/// Merging the open group `p` with the contiguous record `r` keeps the undo chain.
proof fn lemma_chain_merge(b0: Seq<u8>, u0: Seq<RecView>, r: RecView, m: RecView, limit: int)
    requires
        u0.len() > 0,
        undo_chain(b0, u0, limit),
        m.start + m.inserted.len() <= apply(b0, r).len(),
        0 <= m.start,
        apply(b0, r).subrange(m.start, m.start + m.inserted.len()) == m.inserted,
        unapply(apply(b0, r), m) == unapply(b0, u0.last()),
        m.before == u0.last().before,
        is_boundary(apply(b0, r), m.after),
        is_char_boundary(apply(b0, r), m.start),
        is_char_boundary(apply(b0, r), m.start + m.inserted.len()),
    ensures
        undo_chain(apply(b0, r), u0.drop_last().push(m), limit),
{
    let s = u0.drop_last().push(m);
    assert(s.last() == m);
    assert(s.drop_last() =~= u0.drop_last());
}

/// Pushing a fresh record on top of a consistent history keeps the undo chain.
proof fn lemma_chain_push(b0: Seq<u8>, u0: Seq<RecView>, r: RecView, limit: int)
    requires
        undo_chain(b0, u0, limit),
        0 <= r.start,
        r.start + r.removed.len() <= b0.len(),
        b0.subrange(r.start, r.start + r.removed.len()) == r.removed,
        text_ok(b0, limit),
        is_boundary(b0, r.before),
        is_boundary(apply(b0, r), r.after),
        is_char_boundary(b0, r.start),
        is_char_boundary(b0, r.start + r.removed.len()),
        valid_utf8(r.inserted),
    ensures
        undo_chain(apply(b0, r), u0.push(r), limit),
{
    lemma_apply_unapply(b0, r);
    lemma_splice_cb(b0, r.start, r.start + r.removed.len(), r.inserted);
    let s = u0.push(r);
    assert(s.last() == r);
    assert(s.drop_last() =~= u0);
}

fn merge_records(previous: EditRecord, record: EditRecord) -> (m: EditRecord)
    ensures
        record.group != EditGroup::Atomic ==> m.group == record.group,
        record.group == EditGroup::Insert ==> m.view() == merge_insert(previous.view(), record.view()),
        record.group == EditGroup::Backspace ==> m.view() == merge_backspace(previous.view(), record.view()),
        record.group != EditGroup::Insert && record.group != EditGroup::Backspace ==> m.view()
            == merge_delete(previous.view(), record.view()),
{
    let m = match record.group {
        EditGroup::Insert => EditRecord {
            start: previous.start,
            removed: String::new(),
            inserted: concat(&previous.inserted, &record.inserted),
            cursor_before: previous.cursor_before,
            cursor_after: record.cursor_after,
            group: EditGroup::Insert,
        },
        EditGroup::Backspace => EditRecord {
            start: record.start,
            removed: concat(&record.removed, &previous.removed),
            inserted: String::new(),
            cursor_before: previous.cursor_before,
            cursor_after: record.cursor_after,
            group: EditGroup::Backspace,
        },
        _ => EditRecord {
            start: previous.start,
            removed: concat(&previous.removed, &record.removed),
            inserted: String::new(),
            cursor_before: previous.cursor_before,
            cursor_after: record.cursor_after,
            group: EditGroup::Delete,
        },
    };
    proof {
        assert(bytes_of(Seq::<char>::empty()) =~= Seq::<u8>::empty());
        let mv = m.view();
        if record.group == EditGroup::Insert {
            assert(mv =~= merge_insert(previous.view(), record.view()));
        } else if record.group == EditGroup::Backspace {
            assert(mv =~= merge_backspace(previous.view(), record.view()));
        } else {
            assert(mv =~= merge_delete(previous.view(), record.view()));
        }
    }
    m
}

/// Whether grouping combines `record` into the open record `p`: typing that
/// continues at the end of an insertion, backspacing that continues before a
/// deletion, or deleting forward at the same place, while the group stays
/// within its byte bound.
spec fn merges(p: EditRecord, r: EditRecord) -> bool {
    let pv = p.view();
    let rv = r.view();
    &&& p.cursor_after == r.cursor_before
    &&& match (p.group, r.group) {
        (EditGroup::Insert, EditGroup::Insert) => pv.removed.len() == 0 && rv.removed.len() == 0
            && pv.start + pv.inserted.len() == rv.start && pv.inserted.len() + rv.inserted.len() <= MAX_UNDO_GROUP_BYTES,
        (EditGroup::Backspace, EditGroup::Backspace) => pv.inserted.len() == 0 && rv.inserted.len() == 0
            && rv.start + rv.removed.len() == pv.start && pv.removed.len() + rv.removed.len() <= MAX_UNDO_GROUP_BYTES,
        (EditGroup::Delete, EditGroup::Delete) => pv.inserted.len() == 0 && rv.inserted.len() == 0
            && pv.start == rv.start && pv.removed.len() + rv.removed.len() <= MAX_UNDO_GROUP_BYTES,
        _ => false,
    }
}

/// The record combining `p` with the following `r` of the same group.
spec fn merged_view(p: RecView, r: EditRecord) -> RecView {
    match r.group {
        EditGroup::Insert => merge_insert(p, r.view()),
        EditGroup::Backspace => merge_backspace(p, r.view()),
        _ => merge_delete(p, r.view()),
    }
}

impl UndoState {
    /// The pair of records that typing/backspace/delete grouping would combine.
    fn mergeable(&self, previous: &EditRecord, record: &EditRecord) -> (r: bool)
        ensures
            r == merges(*previous, *record),
            r ==> match (previous.group, record.group) {
                (EditGroup::Insert, EditGroup::Insert) => previous.view().removed.len() == 0
                    && record.view().removed.len() == 0 && previous.view().start
                    + previous.view().inserted.len() == record.view().start,
                (EditGroup::Backspace, EditGroup::Backspace) => previous.view().inserted.len() == 0
                    && record.view().inserted.len() == 0 && record.view().start
                    + record.view().removed.len() == previous.view().start,
                (EditGroup::Delete, EditGroup::Delete) => previous.view().inserted.len() == 0
                    && record.view().inserted.len() == 0 && previous.view().start
                    == record.view().start,
                _ => false,
            },
            r ==> previous.cursor_after == record.cursor_before,
    {
        if previous.cursor_after != record.cursor_before {
            return false;
        }
        match (previous.group, record.group) {
            (EditGroup::Insert, EditGroup::Insert) => {
                str_is_empty(&previous.removed) && str_is_empty(&record.removed)
                    && (previous.start as u128 + str_bytes(&previous.inserted) as u128 == record.start as u128)
                    && str_bytes(&previous.inserted).saturating_add(str_bytes(&record.inserted)) <= MAX_UNDO_GROUP_BYTES
            },
            (EditGroup::Backspace, EditGroup::Backspace) => {
                str_is_empty(&previous.inserted) && str_is_empty(&record.inserted)
                    && (record.start as u128 + str_bytes(&record.removed) as u128 == previous.start as u128)
                    && str_bytes(&previous.removed).saturating_add(str_bytes(&record.removed)) <= MAX_UNDO_GROUP_BYTES
            },
            (EditGroup::Delete, EditGroup::Delete) => {
                str_is_empty(&previous.inserted) && str_is_empty(&record.inserted)
                    && previous.start == record.start
                    && str_bytes(&previous.removed).saturating_add(str_bytes(&record.removed)) <= MAX_UNDO_GROUP_BYTES
            },
            _ => false,
        }
    }

    /// Record one applied replacement taking text `b0` to `b1`, combining it with
    /// the open group when contiguous, and trimming to the bounds.
    fn record(&mut self, record: EditRecord, Ghost(b0): Ghost<Seq<u8>>, Ghost(b1): Ghost<Seq<u8>>, Ghost(limit): Ghost<int>)
        requires
            old(self).inv(b0, limit),
            0 <= record.view().start,
            record.view().start + record.view().removed.len() <= b0.len(),
            b0.subrange(record.view().start, record.view().start + record.view().removed.len()) == record.view().removed,
            b1 == apply(b0, record.view()),
            text_ok(b0, limit),
            text_ok(b1, limit),
            is_boundary(b0, record.view().before),
            is_boundary(b1, record.view().after),
            is_char_boundary(b0, record.view().start),
            is_char_boundary(b0, record.view().start + record.view().removed.len()),
            limit <= usize::MAX,
        ensures
            final(self).inv(b1, limit),
            final(self).limits == old(self).limits,
            final(self).redo@.len() == 0,
            record.group == EditGroup::Atomic && rec_bytes(record.view()) <= old(self).limits.spec_undo_bytes()
                ==> final(self).undo@.len() > 0 && final(self).undo@.last().view() == record.view(),
            ({
                let top = old(self).undo@.last();
                let joined = old(self).group_open && old(self).undo@.len() > 0 && merges(top, record);
                &&& joined ==> final(self).undo@.len() <= old(self).undo@.len() && final(self).group_open
                    && (rec_bytes(merged_view(top.view(), record)) <= old(self).limits.spec_undo_bytes()
                    ==> final(self).undo@.len() > 0 && final(self).undo@.last().view() == merged_view(top.view(), record)
                    && final(self).undo@.last().group == record.group)
                &&& joined && total(views(old(self).undo@)) - rec_bytes(top.view()) + rec_bytes(merged_view(top.view(),
                    record)) <= old(self).limits.spec_undo_bytes() ==> views(final(self).undo@) == views(old(self).undo@).drop_last().push(
                    merged_view(top.view(), record))
                &&& !joined && old(self).undo@.len() + 1 <= old(self).limits.spec_undo_entries() && total(views(old(self).undo@))
                    + rec_bytes(record.view()) <= old(self).limits.spec_undo_bytes() ==> views(final(self).undo@) == views(old(self).undo@).push(
                    record.view())
                &&& !joined ==> final(self).undo@.len() <= old(self).undo@.len() + 1
                    && final(self).group_open == (record.group != EditGroup::Atomic)
                    && (rec_bytes(record.view()) <= old(self).limits.spec_undo_bytes()
                    ==> final(self).undo@.len() > 0 && final(self).undo@.last().view() == record.view()
                    && final(self).undo@.last().group == record.group)
            }),
    {
        self.clear_redo(Ghost(b0), Ghost(limit));
        if self.group_open && self.undo.len() > 0 {
            let n = self.undo.len();
            let ok = self.mergeable(&self.undo[n - 1], &record);
            if ok {
                self.record_merged(record, Ghost(b0), Ghost(b1), Ghost(limit));
                return;
            }
        }
        let ghost u0 = self.undo@;
        let rb = record.bytes();
        self.group_open = record.group != EditGroup::Atomic;
        proof {
            lemma_views_push(u0, record);
            lemma_total_push(views(u0), record.view());
            lemma_chain_push(b0, views(u0), record.view(), limit);
        }
        self.undo.push(record);
        assert(record.view().inserted.len() <= b1.len()) by {
            assert(b1.subrange(record.view().start, record.view().start + record.view().inserted.len()) == record.view().inserted);
        }
        let bytes: u128 = self.undo_bytes as u128 + rb;
        self.undo_bytes = Self::trim(&mut self.undo, bytes, self.limits, Ghost(b1), Ghost(limit), Ghost(true));
    }

    fn record_merged(&mut self, record: EditRecord, Ghost(b0): Ghost<Seq<u8>>, Ghost(b1): Ghost<Seq<u8>>, Ghost(limit): Ghost<int>)
        requires
            old(self).inv(b0, limit),
            old(self).redo@.len() == 0,
            old(self).undo@.len() > 0,
            match (old(self).undo@.last().group, record.group) {
                (EditGroup::Insert, EditGroup::Insert) => old(self).undo@.last().view().removed.len() == 0
                    && record.view().removed.len() == 0 && old(self).undo@.last().view().start
                    + old(self).undo@.last().view().inserted.len() == record.view().start,
                (EditGroup::Backspace, EditGroup::Backspace) => old(self).undo@.last().view().inserted.len() == 0
                    && record.view().inserted.len() == 0 && record.view().start
                    + record.view().removed.len() == old(self).undo@.last().view().start,
                (EditGroup::Delete, EditGroup::Delete) => old(self).undo@.last().view().inserted.len() == 0
                    && record.view().inserted.len() == 0 && old(self).undo@.last().view().start
                    == record.view().start,
                _ => false,
            },
            0 <= record.view().start,
            record.view().start + record.view().removed.len() <= b0.len(),
            b0.subrange(record.view().start, record.view().start + record.view().removed.len()) == record.view().removed,
            b1 == apply(b0, record.view()),
            text_ok(b0, limit),
            text_ok(b1, limit),
            is_boundary(b1, record.view().after),
            is_char_boundary(b0, record.view().start),
            is_char_boundary(b0, record.view().start + record.view().removed.len()),
            limit <= usize::MAX,
        ensures
            final(self).inv(b1, limit),
            final(self).limits == old(self).limits,
            final(self).redo@.len() == 0,
            final(self).group_open == old(self).group_open,
            final(self).undo@.len() <= old(self).undo@.len(),
            rec_bytes(merged_view(old(self).undo@.last().view(), record)) <= old(self).limits.spec_undo_bytes()
                ==> final(self).undo@.len() > 0 && final(self).undo@.last().view() == merged_view(old(self).undo@.last().view(), record)
                && final(self).undo@.last().group == record.group,
            total(views(old(self).undo@)) - rec_bytes(old(self).undo@.last().view()) + rec_bytes(merged_view(
                old(self).undo@.last().view(), record)) <= old(self).limits.spec_undo_bytes() ==> views(final(self).undo@)
                == views(old(self).undo@).drop_last().push(merged_view(old(self).undo@.last().view(), record)),
    {
        let ghost u0 = self.undo@;
        proof {
            lemma_views_drop_last(u0);
            lemma_total_drop_last(views(u0));
        }
        let previous = self.undo.pop().unwrap();
        let ghost p = previous.view();
        let ghost r = record.view();
        let pb = previous.bytes();
        let merged = merge_records(previous, record);
        proof {
            let m = merged.view();
            lemma_splice_cb(b0, r.start, r.start + r.removed.len(), r.inserted);
            if record.group == EditGroup::Insert {
                lemma_merge_insert(b0, p, r);
                lemma_splice_cb_prefix(b0, r.start, r.start + r.removed.len(), r.inserted, p.start);
            } else if record.group == EditGroup::Backspace {
                lemma_merge_backspace(b0, p, r);
            } else {
                lemma_merge_delete(b0, p, r);
            }
            lemma_chain_merge(b0, views(u0), r, m, limit);
            lemma_views_push(self.undo@, merged);
            lemma_total_push(views(self.undo@), m);
            lemma_total_nonneg(views(self.undo@));
        }
        assert(r.inserted.len() <= b1.len()) by {
            lemma_apply_unapply(b0, r);
        }
        assert(rec_bytes(merged.view()) <= pb + rec_bytes(r));
        let bytes: u128 = self.undo_bytes as u128 - pb + merged.bytes();
        self.undo.push(merged);
        self.undo_bytes = Self::trim(&mut self.undo, bytes, self.limits, Ghost(b1), Ghost(limit), Ghost(true));
    }
}
} // verus!

verus! {

/// Cursor position after an edit that wants `w`: `w` itself when it is a
/// grapheme boundary of `b`, otherwise the next boundary.
pub open spec fn snap(b: Seq<u8>, w: int) -> int {
    ceil_in(grapheme_starts_of(decode_utf8(b)), w, b.len() as int)
}

/// The extended-grapheme boundary before `c` (or 0 at the start).
pub open spec fn prev_boundary(b: Seq<u8>, c: int) -> int {
    if c <= 0 {
        0
    } else {
        floor_below(grapheme_starts_of(decode_utf8(b)), c)
    }
}

/// The extended-grapheme boundary after `c` (or the end).
pub open spec fn next_boundary(b: Seq<u8>, c: int) -> int {
    if c >= b.len() {
        b.len() as int
    } else {
        ceil_in(grapheme_starts_of(decode_utf8(b)), c + 1, b.len() as int)
    }
}

/// Why a replacement of `b[start..end]` by `ins` is rejected, if it is.
pub open spec fn replace_error(b: Seq<u8>, limit: int, start: int, end: int, ins: Seq<char>) -> Option<EditError> {
    if !(start <= end && end <= b.len() && is_boundary(b, start) && is_boundary(b, end)) {
        Some(EditError::InvalidRange)
    } else if !spec_valid_text(ins) {
        Some(EditError::InvalidText)
    } else if blen(ins) > limit - (b.len() - (end - start)) {
        Some(EditError::Capacity)
    } else {
        None
    }
}

/// Deterministic bounded text editing, with extended-grapheme cursor movement.
///
/// Offsets are UTF-8 byte offsets at extended grapheme boundaries. Home and End
/// refer to the entire input, including multiline input. History admission is
/// explicit; navigating an edited recalled entry never changes stored history.
/// No-op and rejected edits retain their revision.
#[derive(Debug)]
pub struct Editor {
    revision: DraftRevision,
    text: String,
    cursor: usize,
    limit: usize,
    history: Vec<String>,
    history_limit: usize,
    selected: Option<usize>,
    draft: Option<(String, usize)>,
    undo: UndoState,
    kill: String,
}

spec fn history_view(h: Seq<String>) -> Seq<Seq<char>> {
    h.map_values(|s: String| s@)
}

impl Editor {
    /// Characters of the current draft.
    pub closed spec fn chars(&self) -> Seq<char> {
        self.text@
    }

    /// UTF-8 bytes of the current draft.
    pub open spec fn bytes(&self) -> Seq<u8> {
        bytes_of(self.chars())
    }

    /// Byte offset of the cursor.
    pub closed spec fn pos(&self) -> int {
        self.cursor as int
    }

    /// Current draft identity.
    pub closed spec fn revision_spec(&self) -> DraftRevision {
        self.revision
    }

    /// Numeric draft identity.
    pub open spec fn rev(&self) -> u128 {
        self.revision_spec().id()
    }

    /// Configured byte capacity.
    pub closed spec fn cap(&self) -> usize {
        self.limit
    }

    /// Admitted history, oldest first.
    pub closed spec fn history_spec(&self) -> Seq<Seq<char>> {
        history_view(self.history@)
    }

    /// Configured history entry bound.
    pub closed spec fn history_cap(&self) -> usize {
        self.history_limit
    }

    /// Recalled history entry, if navigating.
    pub closed spec fn selected_spec(&self) -> Option<usize> {
        self.selected
    }

    /// Draft and cursor retained while navigating history.
    pub closed spec fn draft_spec(&self) -> Option<(Seq<char>, usize)> {
        match self.draft {
            Some((t, c)) => Some((t@, c)),
            None => None,
        }
    }

    /// Kill-register contents.
    pub closed spec fn kill_spec(&self) -> Seq<char> {
        self.kill@
    }

    /// Reversible-editing bounds.
    pub closed spec fn limits_spec(&self) -> EditorLimits {
        self.undo.limits
    }

    /// Number of retained undo records.
    pub closed spec fn undo_count(&self) -> nat {
        self.undo.undo@.len()
    }

    /// Number of retained redo records.
    pub closed spec fn redo_count(&self) -> nat {
        self.undo.redo@.len()
    }

    /// The retained undo records, oldest first.
    pub closed spec fn undo_records(&self) -> Seq<RecView> {
        views(self.undo.undo@)
    }

    /// The retained redo records, oldest first.
    pub closed spec fn redo_records(&self) -> Seq<RecView> {
        views(self.undo.redo@)
    }

    /// The undo and redo tops are the last of their records.
    pub proof fn lemma_records(&self)
        ensures
            self.undo_records().len() == self.undo_count(),
            self.redo_records().len() == self.redo_count(),
            self.undo_count() > 0 ==> self.undo_top() == self.undo_records().last(),
            self.redo_count() > 0 ==> self.redo_top() == self.redo_records().last(),
    {
    }

    /// The edit that `undo` would reverse.
    pub closed spec fn undo_top(&self) -> RecView {
        self.undo.undo@.last().view()
    }

    /// The edit that `redo` would reapply.
    pub closed spec fn redo_top(&self) -> RecView {
        self.undo.redo@.last().view()
    }

    /// Internal consistency of the editor.
    pub closed spec fn wf(&self) -> bool {
        &&& text_ok(self.bytes(), self.limit as int)
        &&& is_boundary(self.bytes(), self.cursor as int)
        &&& self.undo.inv(self.bytes(), self.limit as int)
        &&& self.undo.limits.valid_for(self.limit)
        &&& bytes_of(self.kill@).len() <= self.undo.limits.spec_kill_bytes()
        &&& self.history@.len() <= self.history_limit
        &&& forall|i: int| 0 <= i < self.history@.len() ==> bytes_of(#[trigger] self.history@[i]@).len() <= self.limit
            && spec_valid_text(self.history@[i]@)
        &&& (self.selected is Some <==> self.draft is Some)
        &&& (self.selected matches Some(i) ==> i < self.history@.len())
        &&& (self.draft matches Some((t, c)) ==> text_ok(bytes_of(t@), self.limit as int) && is_boundary(bytes_of(t@), c as int))
    }

    /// A well-formed editor's draft fits its capacity, its cursor is an
    /// extended-grapheme boundary of it, the kill register fits its bound,
    /// every history entry fits the capacity, and neither the draft nor any
    /// history entry holds a control character other than line feed and tab.
    pub proof fn lemma_wf(&self)
        requires
            self.wf(),
        ensures
            0 <= self.pos() <= self.bytes().len() <= self.cap(),
            is_boundary(self.bytes(), self.pos()),
            self.limits_spec().valid_for(self.cap()),
            bytes_of(self.kill_spec()).len() <= self.limits_spec().spec_kill_bytes(),
            self.history_spec().len() <= self.history_cap(),
            forall|i: int| 0 <= i < self.history_spec().len() ==> bytes_of(#[trigger] self.history_spec()[i]).len() <= self.cap(),
            spec_valid_text(self.chars()),
            forall|i: int| 0 <= i < self.history_spec().len() ==> spec_valid_text(#[trigger] self.history_spec()[i]),
    {
        assert forall|i: int| 0 <= i < self.history_spec().len() implies bytes_of(#[trigger] self.history_spec()[i]).len()
            <= self.cap() by {
            assert(self.history_spec()[i] == self.history@[i]@);
        }
        assert forall|i: int| 0 <= i < self.history_spec().len() implies spec_valid_text(#[trigger] self.history_spec()[i]) by {
            assert(self.history_spec()[i] == self.history@[i]@);
        }
    }

    /// The open undo group is typing that ended at the cursor: contiguous text
    /// inserted at the cursor joins it.
    pub closed spec fn typing_open(&self) -> bool {
        let u = self.undo.undo@;
        &&& self.undo.group_open
        &&& u.len() > 0
        &&& u.last().group == EditGroup::Insert
        &&& u.last().view().removed.len() == 0
        &&& u.last().view().after == self.cursor
        &&& u.last().view().start + u.last().view().inserted.len() == self.cursor
    }

    /// The last edit was a backspace run that is still open at the cursor.
    pub closed spec fn backspace_open(&self) -> bool {
        let u = self.undo.undo@;
        &&& self.undo.group_open
        &&& u.len() > 0
        &&& u.last().group == EditGroup::Backspace
        &&& u.last().view().inserted.len() == 0
        &&& u.last().view().after == self.cursor
        &&& u.last().view().start == self.cursor
    }

    /// The last edit was a forward-delete run that is still open at the cursor.
    pub closed spec fn delete_open(&self) -> bool {
        let u = self.undo.undo@;
        &&& self.undo.group_open
        &&& u.len() > 0
        &&& u.last().group == EditGroup::Delete
        &&& u.last().view().inserted.len() == 0
        &&& u.last().view().after == self.cursor
        &&& u.last().view().start == self.cursor
    }

    /// Bytes of the open typing group.
    pub closed spec fn typing_bytes(&self) -> int {
        self.undo.undo@.last().view().inserted.len() as int
    }

    /// Replacement payload bytes retained by the undo records.
    pub closed spec fn undo_payload(&self) -> int {
        total(views(self.undo.undo@))
    }

    /// Replacement payload bytes retained by the redo records.
    pub closed spec fn redo_payload(&self) -> int {
        total(views(self.undo.redo@))
    }

    /// History navigation, history, kill register and bounds are unchanged.
    pub open spec fn keeps(&self, post: &Editor) -> bool {
        &&& post.history_spec() == self.history_spec()
        &&& post.history_cap() == self.history_cap()
        &&& post.selected_spec() == self.selected_spec()
        &&& post.draft_spec() == self.draft_spec()
        &&& post.kill_spec() == self.kill_spec()
        &&& post.cap() == self.cap()
        &&& post.limits_spec() == self.limits_spec()
    }

    /// Text, cursor and revision are unchanged.
    pub open spec fn same_draft(&self, post: &Editor) -> bool {
        &&& post.chars() == self.chars()
        &&& post.pos() == self.pos()
        &&& post.revision_spec() == self.revision_spec()
    }

    /// Cursor-only change: the revision advances exactly when the cursor
    /// moves, and the undo and redo records are kept.
    pub open spec fn moved_to(&self, post: &Editor, c: int) -> bool {
        &&& post.chars() == self.chars()
        &&& post.pos() == c
        &&& (c == self.pos() ==> post.revision_spec() == self.revision_spec())
        &&& (c != self.pos() ==> post.rev() == self.rev() + 1)
        &&& self.keeps(post)
        &&& post.undo_count() == self.undo_count()
        &&& post.redo_count() == self.redo_count()
        &&& post.undo_records() == self.undo_records()
        &&& post.redo_records() == self.redo_records()
    }

    /// Effect of an admitted replacement of `b[start..end]` by `ins`.
    pub open spec fn replaced(&self, post: &Editor, start: int, end: int, ins: Seq<char>) -> bool {
        let b = self.bytes();
        let tb = bytes_of(ins);
        let wanted = start + tb.len();
        if b.subrange(start, end) == tb && wanted == self.pos() {
            self.same_draft(post) && post.undo_count() == self.undo_count()
                && post.redo_count() == self.redo_count()
        } else {
            &&& post.bytes() == splice(b, start, end, tb)
            &&& post.pos() == snap(post.bytes(), wanted)
            &&& post.rev() == self.rev() + 1
            &&& post.redo_count() == 0
        }
    }

    pub proof fn lemma_wf_facts(&self)
        requires
            self.wf(),
        ensures
            0 <= self.pos() <= self.bytes().len() <= self.cap(),
            valid_utf8(self.bytes()),
    {
    }
}

} // verus!

verus! {

/// Whether `i` is a grapheme boundary of `text`, given its cluster offsets.
fn boundary_at(text: &str, starts: &Vec<usize>, i: usize) -> (r: bool)
    requires
        starts@ == grapheme_starts_of(text@),
        partition_offsets(text.spec_bytes(), starts@),
    ensures
        r == is_boundary(text.spec_bytes(), i as int),
        r ==> is_char_boundary(text.spec_bytes(), i as int),
{
    let n = byte_len(text);
    proof { is_char_boundary_start_end_of_seq(text.spec_bytes()); }
    if i == 0 || i == n {
        return true;
    }
    if i > n {
        return false;
    }
    let r = contains_offset(starts, i);
    proof {
        if r {
            let k = choose|k: int| 0 <= k < starts@.len() && starts@[k] == i;
            assert(is_char_boundary(text.spec_bytes(), starts@[k] as int));
        }
    }
    r
}

/// Grapheme offsets of `text`, with the partition facts.
fn starts_of(text: &str) -> (r: Vec<usize>)
    ensures
        r@ == grapheme_starts_of(text@),
        partition_offsets(text.spec_bytes(), r@),
        offsets_below(r@, text.spec_bytes().len() as int),
{
    grapheme_starts(text)
}

/// `text` with `start..end` replaced by `ins`, and the snapped cursor after the insertion.
fn spliced(text: &str, start: usize, end: usize, ins: &str) -> (r: (String, usize))
    requires
        start <= end <= text.spec_bytes().len(),
        is_char_boundary(text.spec_bytes(), start as int),
        is_char_boundary(text.spec_bytes(), end as int),
    ensures
        bytes_of(r.0@) == splice(text.spec_bytes(), start as int, end as int, ins.spec_bytes()),
        r.1 == snap(bytes_of(r.0@), start + ins.spec_bytes().len()),
        is_boundary(bytes_of(r.0@), r.1 as int),
        start + ins.spec_bytes().len() <= r.1 <= bytes_of(r.0@).len(),
        spec_valid_text(text@) && spec_valid_text(ins@) ==> spec_valid_text(r.0@),
{
    let new_text = splice_str(text, start, end, ins);
    let ghost b1 = bytes_of(new_text@);
    let t = new_text.as_str();
    let new_len = byte_len(t);
    let starts = starts_of(t);
    let wanted = start + byte_len(ins);
    proof {
        assert(b1 =~= text.spec_bytes().subrange(0, start as int) + ins.spec_bytes() + text.spec_bytes().subrange(end as int, text.spec_bytes().len() as int));
        assert(wanted <= b1.len());
        lemma_ceil_in_range(starts@, wanted as int, new_len as int);
    }
    let new_cursor = ceil_offset(&starts, wanted, new_len);
    (new_text, new_cursor)
}

impl Editor {
    fn text_str(&self) -> (r: &str)
        ensures
            r@ == self.chars(),
            r.spec_bytes() == self.bytes(),
    {
        self.text.as_str()
    }

    /// Check a grapheme-aligned byte range and replacement text against the draft.
    fn check_replacement(&self, start: usize, end: usize, text: &str) -> (r: Result<(), EditError>)
        requires
            self.wf(),
        ensures
            match r {
                Ok(()) => replace_error(self.bytes(), self.cap() as int, start as int, end as int, text@) is None,
                Err(e) => replace_error(self.bytes(), self.cap() as int, start as int, end as int, text@) == Some(e),
            },
            r is Ok ==> is_char_boundary(self.bytes(), start as int) && is_char_boundary(self.bytes(), end as int),
    {
        let cur = self.text_str();
        let n = byte_len(cur);
        if start > end || end > n {
            return Err(EditError::InvalidRange);
        }
        let starts = starts_of(cur);
        if !boundary_at(cur, &starts, start) || !boundary_at(cur, &starts, end) {
            return Err(EditError::InvalidRange);
        }
        if !valid_text(text) {
            return Err(EditError::InvalidText);
        }
        let remaining = n - (end - start);
        if byte_len(text) > self.limit - remaining {
            return Err(EditError::Capacity);
        }
        Ok(())
    }

    #[verifier::rlimit(60)]
    #[verifier::spinoff_prover]
    fn replace_group(&mut self, start: usize, end: usize, text: &str, group: EditGroup) -> (r: Result<(), EditError>)
        requires
            old(self).wf(),
            old(self).rev() < u128::MAX,
        ensures
            final(self).wf(),
            old(self).keeps(final(self)),
            match r {
                Ok(()) => replace_error(old(self).bytes(), old(self).cap() as int, start as int, end as int, text@) is None
                    && old(self).replaced(final(self), start as int, end as int, text@),
                Err(e) => replace_error(old(self).bytes(), old(self).cap() as int, start as int, end as int, text@) == Some(e)
                    && old(self).same_draft(final(self)) && final(self).undo_count() == old(self).undo_count()
                    && final(self).redo_count() == old(self).redo_count(),
            },
            r is Ok && group == EditGroup::Atomic && !(old(self).bytes().subrange(start as int, end as int) == bytes_of(text@)
                && start + bytes_of(text@).len() == old(self).pos()) && 2 * old(self).cap() <= usize::MAX
                ==> final(self).undo_count() > 0 && final(self).undo_top() == (RecView {
                    start: start as int,
                    removed: old(self).bytes().subrange(start as int, end as int),
                    inserted: bytes_of(text@),
                    before: old(self).pos(),
                    after: final(self).pos(),
                }),
            r is Ok && group == EditGroup::Insert && start == end && start == old(self).pos() && bytes_of(text@).len() > 0
                && 2 * old(self).cap() <= usize::MAX && final(self).pos() == start + bytes_of(text@).len()
                ==> final(self).typing_open() && final(self).undo_count() > 0
                && (if old(self).typing_open() && old(self).typing_bytes() + bytes_of(text@).len() <= MAX_UNDO_GROUP_BYTES {
                    final(self).undo_count() <= old(self).undo_count()
                } else {
                    final(self).undo_count() <= old(self).undo_count() + 1
                }),
            r is Ok && group == EditGroup::Insert && start == end && start == old(self).pos() && bytes_of(text@).len() > 0
                && final(self).pos() == start + bytes_of(text@).len() ==> typing_effect(old(self), final(self), bytes_of(text@)),
            r is Ok && bytes_of(text@).len() == 0 && start < end && ((group == EditGroup::Backspace && end == old(self).pos())
                || (group == EditGroup::Delete && start == old(self).pos())) ==> erase_effect(old(self), final(self), start as int,
                end as int, group == EditGroup::Backspace),
    {
        match self.check_replacement(start, end, text) {
            Ok(()) => {},
            Err(e) => return Err(e),
        }
        let ghost b0 = self.bytes();
        let ghost limit = self.limit as int;
        let cur = self.text_str();
        let wanted = start + byte_len(text);
        let removed = substring(cur, start, end);
        if str_equal(removed.as_str(), text) && wanted == self.cursor {
            proof {
                if start == end {
                    assert(bytes_of(removed@) =~= Seq::<u8>::empty());
                }
            }
            return Ok(());
        }
        proof {
            if b0.subrange(start as int, end as int) == bytes_of(text@) {
                assert(decode_utf8(bytes_of(removed@)) == decode_utf8(bytes_of(text@)));
                assert(removed@ == text@);
            }
        }
        let (new_text, new_cursor) = spliced(cur, start, end, text);
        let ghost b1 = bytes_of(new_text@);
        let record = EditRecord {
            start,
            removed,
            inserted: text.to_owned(),
            cursor_before: self.cursor,
            cursor_after: new_cursor,
            group,
        };
        proof {
            assert(record.view().removed == b0.subrange(start as int, end as int));
            assert(b1 =~= apply(b0, record.view()));
        }
        self.commit(new_text, new_cursor, record);
        Ok(())
    }

    /// Install an applied replacement and its undo record.
    fn commit(&mut self, new_text: String, new_cursor: usize, record: EditRecord)
        requires
            old(self).wf(),
            old(self).rev() < u128::MAX,
            0 <= record.view().start,
            record.view().start + record.view().removed.len() <= old(self).bytes().len(),
            old(self).bytes().subrange(record.view().start, record.view().start + record.view().removed.len())
                == record.view().removed,
            bytes_of(new_text@) == apply(old(self).bytes(), record.view()),
            bytes_of(new_text@).len() <= old(self).cap(),
            record.cursor_before == old(self).pos(),
            record.cursor_after == new_cursor,
            is_char_boundary(old(self).bytes(), record.view().start),
            is_char_boundary(old(self).bytes(), record.view().start + record.view().removed.len()),
            is_boundary(bytes_of(new_text@), new_cursor as int),
            spec_valid_text(new_text@),
        ensures
            final(self).wf(),
            old(self).keeps(final(self)),
            final(self).chars() == new_text@,
            final(self).pos() == new_cursor,
            final(self).rev() == old(self).rev() + 1,
            final(self).redo_count() == 0,
            record.group == EditGroup::Atomic && rec_bytes(record.view()) <= old(self).limits_spec().spec_undo_bytes()
                ==> final(self).undo_count() > 0 && final(self).undo_top() == record.view(),
            record.group == EditGroup::Insert && record.view().removed.len() == 0 && record.view().start
                + record.view().inserted.len() == new_cursor && record.view().inserted.len() > 0 && 2 * old(self).cap() <= usize::MAX
                ==> final(self).typing_open() && final(self).undo_count() > 0 && (if old(self).typing_open()
                && record.view().start == old(self).pos()
                && old(self).typing_bytes() + record.view().inserted.len() <= MAX_UNDO_GROUP_BYTES {
                final(self).undo_count() <= old(self).undo_count()
            } else {
                final(self).undo_count() <= old(self).undo_count() + 1
            }),
            ({
                let joined = old(self).undo.group_open && old(self).undo_count() > 0 && merges(old(self).undo.undo@.last(), record);
                let m = merged_view(old(self).undo_top(), record);
                &&& joined && old(self).undo_payload() - rec_bytes(old(self).undo_top()) + rec_bytes(m)
                    <= old(self).limits_spec().spec_undo_bytes() ==> final(self).undo_count() == old(self).undo_count()
                    && final(self).undo_payload() == old(self).undo_payload() - rec_bytes(old(self).undo_top()) + rec_bytes(m)
                    && final(self).undo_top() == m
                &&& !joined && old(self).undo_count() + 1 <= old(self).limits_spec().spec_undo_entries()
                    && old(self).undo_payload() + rec_bytes(record.view()) <= old(self).limits_spec().spec_undo_bytes()
                    ==> final(self).undo_count() == old(self).undo_count() + 1
                    && final(self).undo_payload() == old(self).undo_payload() + rec_bytes(record.view())
                    && final(self).undo_top() == record.view()
            }),
    {
        let ghost b0 = self.bytes();
        let ghost b1 = bytes_of(new_text@);
        let ghost limit = self.limit as int;
        self.revision.advance();
        self.text = new_text;
        self.cursor = new_cursor;
        let ghost u0 = self.undo.undo@;
        self.undo.record(record, Ghost(b0), Ghost(b1), Ghost(limit));
        proof {
            let u1 = self.undo.undo@;
            if u0.len() > 0 {
                lemma_views_drop_last(u0);
                lemma_total_drop_last(views(u0));
                lemma_total_push(views(u0).drop_last(), merged_view(u0.last().view(), record));
                if views(u1) == views(u0).drop_last().push(merged_view(u0.last().view(), record)) {
                    assert(u1.len() == views(u1).len());
                    assert(views(u1).last() == u1.last().view());
                }
            }
            lemma_total_push(views(u0), record.view());
            if views(u1) == views(u0).push(record.view()) {
                assert(u1.len() == views(u1).len());
                assert(views(u1).last() == u1.last().view());
            }
        }
    }

    /// Replace a grapheme-aligned byte range atomically. Cursor follows replacement.
    fn replace_span(&mut self, start: usize, end: usize, text: &str) -> (r: Result<(), EditError>)
        requires
            old(self).wf(),
            old(self).rev() < u128::MAX,
        ensures
            final(self).wf(),
            old(self).keeps(final(self)),
            match r {
                Ok(()) => replace_error(old(self).bytes(), old(self).cap() as int, start as int, end as int, text@) is None
                    && old(self).replaced(final(self), start as int, end as int, text@),
                Err(e) => replace_error(old(self).bytes(), old(self).cap() as int, start as int, end as int, text@) == Some(e)
                    && old(self).same_draft(final(self)),
            },
            r is Ok && !(old(self).bytes().subrange(start as int, end as int) == bytes_of(text@)
                && start + bytes_of(text@).len() == old(self).pos()) && 2 * old(self).cap() <= usize::MAX
                ==> final(self).undo_count() > 0 && final(self).undo_top() == (RecView {
                    start: start as int,
                    removed: old(self).bytes().subrange(start as int, end as int),
                    inserted: bytes_of(text@),
                    before: old(self).pos(),
                    after: final(self).pos(),
                }),
    {
        self.replace_group(start, end, text, EditGroup::Atomic)
    }

    /// Check a grapheme-aligned byte range and replacement text against the draft.
    pub fn validate_replacement(&self, range: &Range<usize>, text: &str) -> (r: Result<(), EditError>)
        requires
            self.wf(),
        ensures
            match r {
                Ok(()) => replace_error(self.bytes(), self.cap() as int, range.start as int, range.end as int, text@) is None,
                Err(e) => replace_error(self.bytes(), self.cap() as int, range.start as int, range.end as int, text@) == Some(e),
            },
    {
        self.check_replacement(range.start, range.end, text)
    }

    /// Replace a grapheme-aligned byte range atomically. Cursor follows replacement.
    pub fn replace(&mut self, range: Range<usize>, text: &str) -> (r: Result<(), EditError>)
        requires
            old(self).wf(),
            old(self).rev() < u128::MAX,
        ensures
            final(self).wf(),
            old(self).keeps(final(self)),
            match r {
                Ok(()) => replace_error(old(self).bytes(), old(self).cap() as int, range.start as int, range.end as int, text@) is None
                    && old(self).replaced(final(self), range.start as int, range.end as int, text@),
                Err(e) => replace_error(old(self).bytes(), old(self).cap() as int, range.start as int, range.end as int, text@) == Some(e)
                    && old(self).same_draft(final(self)),
            },
            r is Ok && !(old(self).bytes().subrange(range.start as int, range.end as int) == bytes_of(text@)
                && range.start + bytes_of(text@).len() == old(self).pos()) && 2 * old(self).cap() <= usize::MAX
                ==> final(self).undo_count() > 0 && final(self).undo_top() == (RecView {
                    start: range.start as int,
                    removed: old(self).bytes().subrange(range.start as int, range.end as int),
                    inserted: bytes_of(text@),
                    before: old(self).pos(),
                    after: final(self).pos(),
                }),
    {
        self.replace_span(range.start, range.end, text)
    }
}

} // verus!

verus! {

impl Editor {
    /// Create an empty editor with byte and history-entry limits. Zero is allowed.
    pub fn new(max_bytes: usize, history_entries: usize) -> (r: Self)
        ensures
            r.wf(),
            r.chars().len() == 0,
            r.pos() == 0,
            r.rev() == 0,
            r.cap() == max_bytes,
            r.history_spec().len() == 0,
            r.history_cap() == history_entries,
            r.selected_spec() is None,
            r.kill_spec().len() == 0,
            r.limits_spec() == EditorLimits::spec_for_capacity(max_bytes),
            r.undo_count() == 0,
            r.redo_count() == 0,
            r.undo_payload() == 0,
            r.redo_payload() == 0,
    {
        let limits = EditorLimits::for_capacity(max_bytes);
        Self::build(max_bytes, history_entries, limits)
    }

    fn build(max_bytes: usize, history_entries: usize, limits: EditorLimits) -> (r: Self)
        requires
            limits.valid_for(max_bytes),
        ensures
            r.wf(),
            r.chars().len() == 0,
            r.pos() == 0,
            r.rev() == 0,
            r.cap() == max_bytes,
            r.history_spec().len() == 0,
            r.history_cap() == history_entries,
            r.selected_spec() is None,
            r.kill_spec().len() == 0,
            r.limits_spec() == limits,
            r.undo_count() == 0,
            r.redo_count() == 0,
            r.undo_payload() == 0,
            r.redo_payload() == 0,
    {
        let r = Editor {
            revision: DraftRevision::initial(),
            text: String::new(),
            cursor: 0,
            limit: max_bytes,
            history: Vec::new(),
            history_limit: history_entries,
            selected: None,
            draft: None,
            undo: UndoState::new(limits),
            kill: String::new(),
        };
        proof {
            assert(r.bytes() =~= Seq::<u8>::empty());
            assert(bytes_of(r.kill@) =~= Seq::<u8>::empty());
            assert(r.history_spec() =~= Seq::<Seq<char>>::empty());
        }
        r
    }

    /// Create an editor with explicit reversible-editing and kill-register bounds.
    pub fn with_limits(max_bytes: usize, history_entries: usize, limits: EditorLimits) -> (r: Result<Self, EditorLimitsError>)
        ensures
            match r {
                Ok(e) => limits.valid_for(max_bytes) && e.wf() && e.chars().len() == 0 && e.pos() == 0
                    && e.rev() == 0 && e.cap() == max_bytes && e.history_spec().len() == 0
                    && e.history_cap() == history_entries && e.selected_spec() is None
                    && e.kill_spec().len() == 0 && e.limits_spec() == limits && e.undo_count() == 0
                    && e.redo_count() == 0 && e.undo_payload() == 0 && e.redo_payload() == 0,
                Err(_) => !limits.valid_for(max_bytes),
            },
    {
        match EditorLimits::new(max_bytes, limits.undo_entries(), limits.undo_bytes(), limits.kill_bytes()) {
            Ok(_) => Ok(Self::build(max_bytes, history_entries, limits)),
            Err(e) => Err(e),
        }
    }

    /// Active reversible-editing and kill-register bounds.
    pub fn limits(&self) -> (r: EditorLimits)
        ensures
            r == self.limits_spec(),
    {
        self.undo.limits
    }

    /// Number of retained undo records and their replacement payload bytes.
    pub fn undo_usage(&self) -> (r: (usize, usize))
        requires
            self.wf(),
        ensures
            r.0 == self.undo_count(),
            r.1 == self.undo_payload(),
    {
        (self.undo.undo.len(), self.undo.undo_bytes)
    }

    /// Number of retained redo records and their replacement payload bytes.
    pub fn redo_usage(&self) -> (r: (usize, usize))
        requires
            self.wf(),
        ensures
            r.0 == self.redo_count(),
            r.1 == self.redo_payload(),
    {
        (self.undo.redo.len(), self.undo.redo_bytes)
    }

    /// Current kill-register text. It is editor state, not a system clipboard.
    pub fn kill_register(&self) -> (r: &str)
        ensures
            r@ == self.kill_spec(),
    {
        self.kill.as_str()
    }

    /// Erase the private kill register without changing draft identity.
    pub fn clear_kill_register(&mut self)
        requires
            old(self).wf(),
        ensures
            final(self).wf(),
            old(self).same_draft(final(self)),
            final(self).kill_spec().len() == 0,
            final(self).history_spec() == old(self).history_spec(),
            final(self).selected_spec() == old(self).selected_spec(),
            final(self).cap() == old(self).cap(),
            final(self).undo_count() == old(self).undo_count(),
            final(self).redo_count() == old(self).redo_count(),
    {
        self.kill = String::new();
        assert(bytes_of(self.kill@) =~= Seq::<u8>::empty());
    }

    /// Current analysis identity, scoped to this retained editor.
    pub fn revision(&self) -> (r: DraftRevision)
        ensures
            r == self.revision_spec(),
    {
        self.revision
    }

    /// Copy one coherent view for retained host analysis.
    pub fn analysis_snapshot(&self) -> (r: AnalysisSnapshot)
        ensures
            r.spec_revision() == self.revision_spec(),
            r.spec_text() == self.chars(),
            r.spec_cursor() == self.pos(),
    {
        AnalysisSnapshot::new(self.revision, self.text.as_str(), self.cursor)
    }

    /// Current input, without application interpretation.
    pub fn text(&self) -> (r: &str)
        ensures
            r@ == self.chars(),
            r.spec_bytes() == self.bytes(),
    {
        self.text.as_str()
    }

    /// Cursor as a UTF-8 byte offset at an extended grapheme boundary.
    pub fn cursor(&self) -> (r: usize)
        ensures
            r == self.pos(),
    {
        self.cursor
    }

    /// Configured maximum input size in UTF-8 bytes.
    pub fn capacity(&self) -> (r: usize)
        ensures
            r == self.cap(),
    {
        self.limit
    }

    /// Draft length in UTF-8 bytes.
    pub fn len(&self) -> (r: usize)
        requires
            self.wf(),
        ensures
            r == self.bytes().len(),
    {
        byte_len(self.text.as_str())
    }

    /// Replace only if the originating revision is still current.
    ///
    /// Staleness is checked before validation; stale input cannot change text,
    /// cursor or history navigation, even if its range or text is invalid.
    pub fn replace_at(&mut self, revision: DraftRevision, range: Range<usize>, text: &str) -> (r: Result<AnalysisOutcome, EditError>)
        requires
            old(self).wf(),
            old(self).rev() < u128::MAX,
        ensures
            final(self).wf(),
            old(self).keeps(final(self)),
            revision != old(self).revision_spec() ==> r == Ok::<AnalysisOutcome, EditError>(AnalysisOutcome::Stale)
                && old(self).same_draft(final(self)) && final(self).undo_count() == old(self).undo_count()
                && final(self).redo_count() == old(self).redo_count(),
            revision == old(self).revision_spec() ==> match r {
                Ok(o) => o == AnalysisOutcome::Applied && replace_error(old(self).bytes(), old(self).cap() as int, range.start as int, range.end as int, text@) is None
                    && old(self).replaced(final(self), range.start as int, range.end as int, text@),
                Err(e) => replace_error(old(self).bytes(), old(self).cap() as int, range.start as int, range.end as int, text@) == Some(e)
                    && old(self).same_draft(final(self)),
            },
            revision == old(self).revision_spec() && r is Ok && !(old(self).bytes().subrange(range.start as int, range.end as int)
                == bytes_of(text@) && range.start + bytes_of(text@).len() == old(self).pos()) && 2 * old(self).cap() <= usize::MAX
                ==> final(self).undo_count() > 0 && final(self).undo_top() == (RecView {
                    start: range.start as int,
                    removed: old(self).bytes().subrange(range.start as int, range.end as int),
                    inserted: bytes_of(text@),
                    before: old(self).pos(),
                    after: final(self).pos(),
                }),
    {
        if revision != self.revision {
            return Ok(AnalysisOutcome::Stale);
        }
        match self.replace_span(range.start, range.end, text) {
            Ok(()) => Ok(AnalysisOutcome::Applied),
            Err(e) => Err(e),
        }
    }

    /// Insert text at the cursor without interpreting commands or trimming it.
    pub fn insert(&mut self, text: &str) -> (r: Result<(), EditError>)
        requires
            old(self).wf(),
            old(self).rev() < u128::MAX,
        ensures
            final(self).wf(),
            old(self).keeps(final(self)),
            match r {
                Ok(()) => replace_error(old(self).bytes(), old(self).cap() as int, old(self).pos(), old(self).pos(), text@) is None
                    && old(self).replaced(final(self), old(self).pos(), old(self).pos(), text@),
                Err(e) => replace_error(old(self).bytes(), old(self).cap() as int, old(self).pos(), old(self).pos(), text@) == Some(e)
                    && old(self).same_draft(final(self)),
            },
            r is Ok && bytes_of(text@).len() > 0 && 2 * old(self).cap() <= usize::MAX
                && final(self).pos() == old(self).pos() + bytes_of(text@).len() ==> final(self).typing_open()
                && final(self).undo_count() > 0 && (if old(self).typing_open()
                && old(self).typing_bytes() + bytes_of(text@).len() <= MAX_UNDO_GROUP_BYTES {
                final(self).undo_count() <= old(self).undo_count()
            } else {
                final(self).undo_count() <= old(self).undo_count() + 1
            }),
            r is Ok && bytes_of(text@).len() > 0 && final(self).pos() == old(self).pos() + bytes_of(text@).len()
                ==> typing_effect(old(self), final(self), bytes_of(text@)),
    {
        let c = self.cursor;
        self.replace_group(c, c, text, EditGroup::Insert)
    }

    /// Insert text at the cursor as one atomic undo record (a paste transaction).
    pub fn insert_transaction(&mut self, text: &str) -> (r: Result<(), EditError>)
        requires
            old(self).wf(),
            old(self).rev() < u128::MAX,
        ensures
            final(self).wf(),
            old(self).keeps(final(self)),
            match r {
                Ok(()) => replace_error(old(self).bytes(), old(self).cap() as int, old(self).pos(), old(self).pos(), text@) is None
                    && old(self).replaced(final(self), old(self).pos(), old(self).pos(), text@),
                Err(e) => replace_error(old(self).bytes(), old(self).cap() as int, old(self).pos(), old(self).pos(), text@) == Some(e)
                    && old(self).same_draft(final(self)),
            },
            r is Ok && bytes_of(text@).len() > 0 && 2 * old(self).cap() <= usize::MAX ==> final(self).undo_count() > 0
                && final(self).undo_top() == (RecView {
                    start: old(self).pos(),
                    removed: Seq::empty(),
                    inserted: bytes_of(text@),
                    before: old(self).pos(),
                    after: final(self).pos(),
                }),
    {
        let c = self.cursor;
        proof {
            assert(old(self).bytes().subrange(c as int, c as int) =~= Seq::<u8>::empty());
        }
        self.replace_group(c, c, text, EditGroup::Atomic)
    }

    /// Close the current typing group so the next edit starts a new undo record.
    pub fn break_undo_group(&mut self)
        requires
            old(self).wf(),
        ensures
            final(self).wf(),
            old(self).same_draft(final(self)),
            old(self).keeps(final(self)),
            final(self).undo_count() == old(self).undo_count(),
            final(self).redo_count() == old(self).redo_count(),
    {
        self.undo.group_open = false;
    }

    /// Clear the active input and navigation draft; retain admitted history.
    pub fn clear(&mut self)
        requires
            old(self).wf(),
            old(self).rev() < u128::MAX,
        ensures
            final(self).wf(),
            final(self).chars().len() == 0,
            final(self).pos() == 0,
            old(self).chars().len() > 0 ==> final(self).rev() == old(self).rev() + 1,
            old(self).chars().len() == 0 ==> final(self).revision_spec() == old(self).revision_spec(),
            final(self).selected_spec() is None,
            final(self).history_spec() == old(self).history_spec(),
            final(self).history_cap() == old(self).history_cap(),
            final(self).kill_spec() == old(self).kill_spec(),
            final(self).cap() == old(self).cap(),
            final(self).limits_spec() == old(self).limits_spec(),
            final(self).undo_count() == 0,
            final(self).redo_count() == 0,
            final(self).undo_payload() == 0,
            final(self).redo_payload() == 0,
    {
        if byte_len(self.text.as_str()) != 0 {
            self.revision.advance();
        }
        self.text = String::new();
        self.cursor = 0;
        self.selected = None;
        self.draft = None;
        self.undo.clear();
        assert(self.bytes() =~= Seq::<u8>::empty());
    }

    /// End the current draft's identity: a fresh revision, no undo history and
    /// no history navigation. Text and cursor are retained.
    pub fn end_draft(&mut self)
        requires
            old(self).wf(),
            old(self).rev() < u128::MAX,
        ensures
            final(self).wf(),
            final(self).chars() == old(self).chars(),
            final(self).pos() == old(self).pos(),
            final(self).rev() == old(self).rev() + 1,
            final(self).selected_spec() is None,
            final(self).history_spec() == old(self).history_spec(),
            final(self).history_cap() == old(self).history_cap(),
            final(self).kill_spec() == old(self).kill_spec(),
            final(self).cap() == old(self).cap(),
            final(self).limits_spec() == old(self).limits_spec(),
            final(self).undo_count() == 0,
            final(self).redo_count() == 0,
    {
        self.revision.advance();
        self.undo.clear();
        self.selected = None;
        self.draft = None;
    }

    fn move_cursor(&mut self, cursor: usize)
        requires
            old(self).wf(),
            old(self).rev() < u128::MAX,
            is_boundary(old(self).bytes(), cursor as int),
        ensures
            final(self).wf(),
            old(self).moved_to(final(self), cursor as int),
    {
        if cursor != self.cursor {
            self.revision.advance();
            self.cursor = cursor;
            self.undo.group_open = false;
        }
    }

    /// The grapheme boundary before the cursor.
    fn prev_cursor(&self) -> (r: usize)
        requires
            self.wf(),
        ensures
            r == prev_boundary(self.bytes(), self.pos()),
            is_boundary(self.bytes(), r as int),
            self.pos() > 0 ==> r < self.pos(),
    {
        if self.cursor == 0 {
            return 0;
        }
        let starts = starts_of(self.text_str());
        proof { lemma_floor_below_range(starts@, self.pos()); }
        floor_offset(&starts, self.cursor)
    }

    /// The grapheme boundary after the cursor.
    fn next_cursor(&self) -> (r: usize)
        requires
            self.wf(),
        ensures
            r == next_boundary(self.bytes(), self.pos()),
            is_boundary(self.bytes(), r as int),
            self.pos() < self.bytes().len() ==> r > self.pos(),
            r <= self.bytes().len(),
    {
        let n = byte_len(self.text_str());
        if self.cursor >= n {
            return n;
        }
        let starts = starts_of(self.text_str());
        proof { lemma_ceil_in_range(starts@, self.pos() + 1, n as int); }
        ceil_offset(&starts, self.cursor + 1, n)
    }

    /// Move left one extended grapheme, stopping at the beginning.
    pub fn left(&mut self)
        requires
            old(self).wf(),
            old(self).rev() < u128::MAX,
        ensures
            final(self).rev() >= old(self).rev(),
            final(self).wf(),
            old(self).moved_to(final(self), prev_boundary(old(self).bytes(), old(self).pos())),
    {
        let c = self.prev_cursor();
        self.move_cursor(c);
    }

    /// Move right one extended grapheme, stopping at the end.
    pub fn right(&mut self)
        requires
            old(self).wf(),
            old(self).rev() < u128::MAX,
        ensures
            final(self).rev() >= old(self).rev(),
            final(self).wf(),
            old(self).moved_to(final(self), next_boundary(old(self).bytes(), old(self).pos())),
    {
        let c = self.next_cursor();
        self.move_cursor(c);
    }

    /// Move to the beginning of the entire input.
    pub fn home(&mut self)
        requires
            old(self).wf(),
            old(self).rev() < u128::MAX,
        ensures
            final(self).rev() >= old(self).rev(),
            final(self).wf(),
            old(self).moved_to(final(self), 0),
    {
        self.move_cursor(0);
    }

    /// Move to the end of the entire input.
    pub fn end(&mut self)
        requires
            old(self).wf(),
            old(self).rev() < u128::MAX,
        ensures
            final(self).rev() >= old(self).rev(),
            final(self).wf(),
            old(self).moved_to(final(self), old(self).bytes().len() as int),
    {
        let n = byte_len(self.text_str());
        self.move_cursor(n);
    }

    /// Remove the preceding extended grapheme, or do nothing at the beginning.
    pub fn backspace(&mut self)
        requires
            old(self).wf(),
            old(self).rev() < u128::MAX,
        ensures
            final(self).rev() >= old(self).rev(),
            final(self).wf(),
            old(self).keeps(final(self)),
            old(self).pos() == 0 ==> old(self).same_draft(final(self)),
            old(self).pos() > 0 ==> old(self).replaced(final(self), prev_boundary(old(self).bytes(), old(self).pos()), old(self).pos(), Seq::empty()),
            old(self).pos() > 0 ==> erase_effect(old(self), final(self), prev_boundary(old(self).bytes(), old(self).pos()),
                old(self).pos(), true),
    {
        let end = self.cursor;
        if end == 0 {
            return;
        }
        let start = self.prev_cursor();
        let r = self.replace_group(start, end, "", EditGroup::Backspace);
        proof {
            reveal_strlit("");
            assert(bytes_of(""@) =~= Seq::<u8>::empty());
            assert(r is Ok);
        }
    }

    /// Remove the following extended grapheme, or do nothing at the end.
    pub fn delete(&mut self)
        requires
            old(self).wf(),
            old(self).rev() < u128::MAX,
        ensures
            final(self).rev() >= old(self).rev(),
            final(self).wf(),
            old(self).keeps(final(self)),
            old(self).pos() == old(self).bytes().len() ==> old(self).same_draft(final(self)),
            old(self).pos() < old(self).bytes().len() ==> old(self).replaced(final(self), old(self).pos(), next_boundary(old(self).bytes(), old(self).pos()), Seq::empty()),
            old(self).pos() < old(self).bytes().len() ==> erase_effect(old(self), final(self), old(self).pos(),
                next_boundary(old(self).bytes(), old(self).pos()), false),
    {
        let start = self.cursor;
        let end = self.next_cursor();
        if end == start {
            return;
        }
        let r = self.replace_group(start, end, "", EditGroup::Delete);
        proof {
            reveal_strlit("");
            assert(bytes_of(""@) =~= Seq::<u8>::empty());
            assert(r is Ok);
        }
    }
}

} // verus!

verus! {

proof fn lemma_last_within_total(recs: Seq<RecView>)
    requires
        recs.len() > 0,
    ensures
        rec_bytes(recs.last()) <= total(recs),
        total(recs.drop_last()) == total(recs) - rec_bytes(recs.last()),
{
    lemma_total_drop_last(recs);
    lemma_total_nonneg(recs.drop_last());
}

impl Editor {
    /// Effect of a successful `undo`: the top record reversed.
    pub open spec fn undo_step(&self, post: &Editor) -> bool {
        &&& self.undo_count() > 0
        &&& post.bytes() == unapply(self.bytes(), self.undo_top())
        &&& post.pos() == self.undo_top().before
        &&& post.rev() == self.rev() + 1
        &&& post.undo_count() == self.undo_count() - 1
        &&& post.redo_count() > 0
        &&& post.redo_top() == self.undo_top()
    }

    /// Effect of a successful `redo`: the top record reapplied.
    pub open spec fn redo_step(&self, post: &Editor) -> bool {
        &&& self.redo_count() > 0
        &&& post.bytes() == apply(self.bytes(), self.redo_top())
        &&& post.pos() == self.redo_top().after
        &&& post.rev() == self.rev() + 1
        &&& post.redo_count() == self.redo_count() - 1
        &&& post.undo_count() > 0
        &&& post.undo_top() == self.redo_top()
    }

    /// Undo one grouped canonical edit. Content and cursor return with a fresh revision.
    pub fn undo(&mut self) -> (r: bool)
        requires
            old(self).wf(),
            old(self).rev() < u128::MAX,
        ensures
            final(self).rev() >= old(self).rev(),
            final(self).wf(),
            old(self).keeps(final(self)),
            r == (old(self).undo_count() > 0),
            r ==> old(self).undo_step(final(self)),
            !r ==> old(self).same_draft(final(self)) && final(self).redo_count() == old(self).redo_count()
                && final(self).undo_count() == 0,
    {
        if self.undo.undo.len() == 0 {
            self.undo.group_open = false;
            return false;
        }
        let ghost b = self.bytes();
        let ghost limit = self.limit as int;
        let ghost u0 = self.undo.undo@;
        let ghost r0 = self.undo.redo@;
        proof {
            lemma_views_drop_last(u0);
            lemma_last_within_total(views(u0));
        }
        let record = self.undo.undo.pop().unwrap();
        let ghost rv = record.view();
        let rb = record.bytes();
        self.undo.undo_bytes = self.undo.undo_bytes - rb as usize;
        let end = record.start + str_bytes(&record.inserted);
        let new_text = splice_str(self.text_str(), record.start, end, record.removed.as_str());
        let ghost p = bytes_of(new_text@);
        proof {
            assert(p == unapply(b, rv));
            lemma_unapply_apply(b, rv);
            lemma_splice_cb(b, rv.start, rv.start + rv.inserted.len(), rv.removed);
            lemma_views_push(r0, record);
            lemma_total_push(views(r0), rv);
            let s = views(r0).push(rv);
            assert(s.last() == rv);
            assert(s.drop_last() =~= views(r0));
            assert(redo_chain(p, s, limit));
        }
        self.revision.advance();
        self.text = new_text;
        self.cursor = record.cursor_before;
        let bytes: u128 = self.undo.redo_bytes as u128 + rb;
        self.undo.redo.push(record);
        let limits = self.undo.limits;
        self.undo.redo_bytes = UndoState::trim(&mut self.undo.redo, bytes, limits, Ghost(p), Ghost(limit), Ghost(false));
        self.undo.group_open = false;
        true
    }

    /// Redo one just-undone canonical edit with a fresh revision.
    pub fn redo(&mut self) -> (r: bool)
        requires
            old(self).wf(),
            old(self).rev() < u128::MAX,
        ensures
            final(self).rev() >= old(self).rev(),
            final(self).wf(),
            old(self).keeps(final(self)),
            r == (old(self).redo_count() > 0),
            r ==> old(self).redo_step(final(self)),
            !r ==> old(self).same_draft(final(self)) && final(self).undo_count() == old(self).undo_count()
                && final(self).redo_count() == 0,
    {
        if self.undo.redo.len() == 0 {
            self.undo.group_open = false;
            return false;
        }
        let ghost b = self.bytes();
        let ghost limit = self.limit as int;
        let ghost u0 = self.undo.undo@;
        let ghost r0 = self.undo.redo@;
        proof {
            lemma_views_drop_last(r0);
            lemma_last_within_total(views(r0));
        }
        let record = self.undo.redo.pop().unwrap();
        let ghost rv = record.view();
        let rb = record.bytes();
        self.undo.redo_bytes = self.undo.redo_bytes - rb as usize;
        let end = record.start + str_bytes(&record.removed);
        let new_text = splice_str(self.text_str(), record.start, end, record.inserted.as_str());
        let ghost n = bytes_of(new_text@);
        proof {
            assert(n == apply(b, rv));
            lemma_apply_unapply(b, rv);
            lemma_splice_cb(b, rv.start, rv.start + rv.removed.len(), rv.inserted);
            lemma_views_push(u0, record);
            lemma_total_push(views(u0), rv);
            let s = views(u0).push(rv);
            assert(s.last() == rv);
            assert(s.drop_last() =~= views(u0));
            assert(undo_chain(n, s, limit));
        }
        self.revision.advance();
        self.text = new_text;
        self.cursor = record.cursor_after;
        let bytes: u128 = self.undo.undo_bytes as u128 + rb;
        self.undo.undo.push(record);
        let limits = self.undo.limits;
        self.undo.undo_bytes = UndoState::trim(&mut self.undo.undo, bytes, limits, Ghost(n), Ghost(limit), Ghost(true));
        self.undo.group_open = false;
        true
    }
}

} // verus!

verus! {

/// Undoing an admitted replacement (one that changed the draft) restores the
/// text and cursor that preceded it.
pub proof fn law_undo_reverts_replace(e0: Editor, e1: Editor, e2: Editor, start: int, end: int, ins: Seq<char>)
    requires
        e0.wf(),
        replace_error(e0.bytes(), e0.cap() as int, start, end, ins) is None,
        !(e0.bytes().subrange(start, end) == bytes_of(ins) && start + bytes_of(ins).len() == e0.pos()),
        e0.replaced(&e1, start, end, ins),
        e1.undo_count() > 0,
        e1.undo_top() == (RecView {
            start,
            removed: e0.bytes().subrange(start, end),
            inserted: bytes_of(ins),
            before: e0.pos(),
            after: e1.pos(),
        }),
        e1.undo_step(&e2),
    ensures
        e2.bytes() == e0.bytes(),
        e2.pos() == e0.pos(),
{
    let b = e0.bytes();
    assert(e2.bytes() =~= b);
}

/// Redo after undo reapplies exactly the undone edit: the text returns to what
/// it was before the undo, and the same edit is again the one to undo.
pub proof fn law_redo_reverts_undo(e0: Editor, e1: Editor, e2: Editor)
    requires
        e0.wf(),
        e0.undo_step(&e1),
        e1.redo_step(&e2),
    ensures
        e2.bytes() == e0.bytes(),
        e2.pos() == e0.undo_top().after,
        e2.undo_top() == e0.undo_top(),
{
    let r = e0.undo_top();
    lemma_views_drop_last(e0.undo.undo@);
    lemma_unapply_apply(e0.bytes(), r);
}

/// Undo after redo reverses exactly the redone edit.
pub proof fn law_undo_reverts_redo(e0: Editor, e1: Editor, e2: Editor)
    requires
        e0.wf(),
        e0.redo_step(&e1),
        e1.undo_step(&e2),
    ensures
        e2.bytes() == e0.bytes(),
        e2.pos() == e0.redo_top().before,
        e2.redo_top() == e0.redo_top(),
{
    let r = e0.redo_top();
    lemma_views_drop_last(e0.undo.redo@);
    lemma_apply_unapply(e0.bytes(), r);
}

} // verus!

verus! {

/// End of the `k`-th segment of a partition with offsets `ws` of `n` bytes.
pub open spec fn seg_end(ws: Seq<usize>, k: int, n: int) -> int {
    if k + 1 < ws.len() {
        ws[k + 1] as int
    } else {
        n
    }
}

/// The `k`-th segment of the partition `ws` of `t`.
pub open spec fn segment(t: Seq<u8>, ws: Seq<usize>, k: int) -> Seq<u8> {
    t.subrange(ws[k] as int, seg_end(ws, k, t.len() as int))
}

/// Start of the last word segment among the first `k` segments, or 0.
pub open spec fn last_word_before(t: Seq<u8>, ws: Seq<usize>, k: int) -> int
    decreases k,
{
    if k <= 0 {
        0
    } else if contains_word_of(decode_utf8(segment(t, ws, k - 1))) {
        ws[k - 1] as int
    } else {
        last_word_before(t, ws, k - 1)
    }
}

/// End of the first word segment from segment `k` on, or the end of `t`.
pub open spec fn first_word_end(t: Seq<u8>, ws: Seq<usize>, k: int) -> int
    decreases ws.len() - k,
{
    if k >= ws.len() || k < 0 {
        t.len() as int
    } else if contains_word_of(decode_utf8(segment(t, ws, k))) {
        seg_end(ws, k, t.len() as int)
    } else {
        first_word_end(t, ws, k + 1)
    }
}

/// Nearest grapheme boundary at or below `i`.
pub open spec fn grapheme_floor(b: Seq<u8>, i: int) -> int {
    if i <= 0 || i >= b.len() {
        i
    } else {
        floor_below(grapheme_starts_of(decode_utf8(b)), i + 1)
    }
}

/// Nearest grapheme boundary at or above `i`.
pub open spec fn grapheme_ceil(b: Seq<u8>, i: int) -> int {
    if i <= 0 || i >= b.len() {
        i
    } else {
        ceil_in(grapheme_starts_of(decode_utf8(b)), i, b.len() as int)
    }
}

/// Start of the preceding/current UAX #29 word, aligned down to a grapheme boundary.
pub open spec fn word_left_target(b: Seq<u8>, c: int) -> int {
    let p = b.subrange(0, c);
    let ws = word_starts_of(decode_utf8(p));
    grapheme_floor(b, last_word_before(p, ws, ws.len() as int))
}

/// End of the following/current UAX #29 word, aligned up to a grapheme boundary.
pub open spec fn word_right_target(b: Seq<u8>, c: int) -> int {
    let s = b.subrange(c, b.len() as int);
    let ws = word_starts_of(decode_utf8(s));
    grapheme_ceil(b, c + first_word_end(s, ws, 0))
}

proof fn lemma_last_word_before_range(t: Seq<u8>, ws: Seq<usize>, k: int)
    requires
        offsets_below(ws, t.len() as int),
        k <= ws.len(),
    ensures
        0 <= last_word_before(t, ws, k),
        t.len() > 0 ==> last_word_before(t, ws, k) < t.len(),
        last_word_before(t, ws, k) == 0 || exists|j: int| 0 <= j < k && ws[j] == last_word_before(t, ws, k),
    decreases k,
{
    if k > 0 {
        lemma_last_word_before_range(t, ws, k - 1);
    }
}

proof fn lemma_first_word_end_range(t: Seq<u8>, ws: Seq<usize>, k: int)
    requires
        partition_offsets(t, ws),
        0 <= k,
    ensures
        0 <= first_word_end(t, ws, k) <= t.len(),
        first_word_end(t, ws, k) == t.len() || exists|j: int| 0 < j < ws.len() && ws[j] == first_word_end(t, ws, k),
    decreases ws.len() - k,
{
    if k < ws.len() {
        lemma_first_word_end_range(t, ws, k + 1);
    }
}

/// The `k`-th segment of `text` as an owned string.
fn segment_str(text: &str, ws: &Vec<usize>, k: usize) -> (r: String)
    requires
        partition_offsets(text.spec_bytes(), ws@),
        k < ws@.len(),
    ensures
        bytes_of(r@) == segment(text.spec_bytes(), ws@, k as int),
{
    let n = byte_len(text);
    let end = if k < ws.len() - 1 { ws[k + 1] } else { n };
    proof {
        is_char_boundary_start_end_of_seq(text.spec_bytes());
        if k + 1 < ws@.len() {
            assert(ws@[k as int] < ws@[k + 1]);
        }
    }
    substring(text, ws[k], end)
}

impl Editor {
    /// The cursor is a character boundary of the draft.
    fn cursor_char_boundary(&self) -> (starts: Vec<usize>)
        requires
            self.wf(),
        ensures
            is_char_boundary(self.bytes(), self.pos()),
            starts@ == grapheme_starts_of(self.chars()),
            partition_offsets(self.bytes(), starts@),
            offsets_below(starts@, self.bytes().len() as int),
    {
        let starts = starts_of(self.text_str());
        proof {
            is_char_boundary_start_end_of_seq(self.bytes());
            if self.pos() != 0 && self.pos() != self.bytes().len() {
                let k = choose|k: int| 0 <= k < starts@.len() && starts@[k] == self.cursor;
                assert(is_char_boundary(self.bytes(), starts@[k] as int));
            }
        }
        starts
    }

    fn floor_grapheme(&self, starts: &Vec<usize>, i: usize) -> (r: usize)
        requires
            self.wf(),
            starts@ == grapheme_starts_of(self.chars()),
            partition_offsets(self.bytes(), starts@),
            i <= self.bytes().len(),
        ensures
            r == grapheme_floor(self.bytes(), i as int),
            is_boundary(self.bytes(), r as int),
            r <= i,
    {
        let n = byte_len(self.text_str());
        if i == 0 || i >= n {
            return i;
        }
        proof { lemma_floor_below_range(starts@, i + 1); }
        floor_offset(starts, i + 1)
    }

    fn ceil_grapheme(&self, starts: &Vec<usize>, i: usize) -> (r: usize)
        requires
            self.wf(),
            starts@ == grapheme_starts_of(self.chars()),
            partition_offsets(self.bytes(), starts@),
            i <= self.bytes().len(),
        ensures
            r == grapheme_ceil(self.bytes(), i as int),
            is_boundary(self.bytes(), r as int),
            i <= r <= self.bytes().len(),
    {
        let n = byte_len(self.text_str());
        if i == 0 || i >= n {
            return i;
        }
        proof { lemma_ceil_in_range(starts@, i as int, n as int); }
        ceil_offset(starts, i, n)
    }

    fn word_left_boundary(&self) -> (r: usize)
        requires
            self.wf(),
        ensures
            r == word_left_target(self.bytes(), self.pos()),
            is_boundary(self.bytes(), r as int),
            r <= self.pos(),
    {
        let starts = self.cursor_char_boundary();
        let prefix = substring(self.text_str(), 0, self.cursor);
        let p = prefix.as_str();
        let ghost pb = p.spec_bytes();
        let ws = word_starts(p);
        let mut k = ws.len();
        let mut semantic: usize = 0;
        let mut found = false;
        let ghost whole = last_word_before(pb, ws@, ws@.len() as int);
        while k > 0
            invariant
                k <= ws@.len(),
                pb == p.spec_bytes(),
                partition_offsets(pb, ws@),
                found ==> semantic == whole && k == 0,
                !found ==> whole == last_word_before(pb, ws@, k as int) && semantic == 0,
            decreases k,
        {
            let segment = segment_str(p, &ws, k - 1);
            if contains_word(segment.as_str()) {
                semantic = ws[k - 1];
                found = true;
                k = 0;
            } else {
                k -= 1;
            }
        }
        proof {
            lemma_last_word_before_range(pb, ws@, ws@.len() as int);
            assert(pb == self.bytes().subrange(0, self.pos()));
        }
        self.floor_grapheme(&starts, semantic)
    }
}

} // verus!

verus! {

/// First index at or after `c` holding an LF byte, or the end.
pub open spec fn line_end(b: Seq<u8>, c: int) -> int
    decreases b.len() - c,
{
    if c >= b.len() || c < 0 {
        b.len() as int
    } else if b[c] == 10 {
        c
    } else {
        line_end(b, c + 1)
    }
}

/// Start of the logical line containing offset `c`: just after the last LF before `c`.
pub open spec fn line_start(b: Seq<u8>, c: int) -> int
    decreases c,
{
    if c <= 0 {
        0
    } else if b[c - 1] == 10 {
        c
    } else {
        line_start(b, c - 1)
    }
}

proof fn lemma_line_end(b: Seq<u8>, c: int)
    requires
        0 <= c <= b.len(),
    ensures
        c <= line_end(b, c) <= b.len(),
    decreases b.len() - c,
{
    if c < b.len() && b[c] != 10 {
        lemma_line_end(b, c + 1);
    }
}

proof fn lemma_line_start(b: Seq<u8>, c: int)
    requires
        0 <= c <= b.len(),
    ensures
        0 <= line_start(b, c) <= c,
    decreases c,
{
    if c > 0 && b[c - 1] != 10 {
        lemma_line_start(b, c - 1);
    }
}

fn find_line_end(text: &str, c: usize) -> (r: usize)
    requires
        c <= text.spec_bytes().len(),
    ensures
        r == line_end(text.spec_bytes(), c as int),
{
    let bytes = text.as_bytes();
    let mut i = c;
    while i < bytes.len()
        invariant
            c <= i <= bytes@.len(),
            bytes@ == text.spec_bytes(),
            line_end(bytes@, c as int) == line_end(bytes@, i as int),
        decreases bytes@.len() - i,
    {
        if bytes[i] == 10 {
            return i;
        }
        i += 1;
    }
    i
}

fn find_line_start(text: &str, c: usize) -> (r: usize)
    requires
        c <= text.spec_bytes().len(),
    ensures
        r == line_start(text.spec_bytes(), c as int),
{
    let bytes = text.as_bytes();
    let mut i = c;
    while i > 0
        invariant
            i <= c <= bytes@.len(),
            bytes@ == text.spec_bytes(),
            line_start(bytes@, c as int) == line_start(bytes@, i as int),
        decreases i,
    {
        if bytes[i - 1] == 10 {
            return i;
        }
        i -= 1;
    }
    0
}

} // verus!

verus! {

impl Editor {
    /// History, navigation and bounds are unchanged (the kill register may change).
    pub open spec fn keeps_but_kill(&self, post: &Editor) -> bool {
        &&& post.history_spec() == self.history_spec()
        &&& post.history_cap() == self.history_cap()
        &&& post.selected_spec() == self.selected_spec()
        &&& post.draft_spec() == self.draft_spec()
        &&& post.cap() == self.cap()
        &&& post.limits_spec() == self.limits_spec()
    }

    /// Effect of killing `b[s..e]` into the register.
    pub open spec fn killed(&self, post: &Editor, s: int, e: int, r: Result<(), EditError>) -> bool {
        if s == e {
            r is Ok && self.same_draft(post) && post.kill_spec() == self.kill_spec()
        } else if e - s > self.limits_spec().spec_kill_bytes() {
            r == Err::<(), EditError>(EditError::Capacity) && self.same_draft(post) && post.kill_spec() == self.kill_spec()
        } else {
            match replace_error(self.bytes(), self.cap() as int, s, e, Seq::empty()) {
                Some(err) => r == Err::<(), EditError>(err) && self.same_draft(post) && post.kill_spec() == self.kill_spec(),
                None => r is Ok && self.replaced(post, s, e, Seq::empty())
                    && post.kill_spec() == decode_utf8(self.bytes().subrange(s, e)),
            }
        }
    }

    fn word_right_boundary(&self) -> (r: usize)
        requires
            self.wf(),
        ensures
            r == word_right_target(self.bytes(), self.pos()),
            is_boundary(self.bytes(), r as int),
            self.pos() <= r <= self.bytes().len(),
    {
        let starts = self.cursor_char_boundary();
        let n = byte_len(self.text_str());
        proof { is_char_boundary_start_end_of_seq(self.bytes()); }
        let suffix = substring(self.text_str(), self.cursor, n);
        let sfx = suffix.as_str();
        let ghost sb = sfx.spec_bytes();
        let ws = word_starts(sfx);
        let sn = byte_len(sfx);
        let mut k: usize = 0;
        let mut semantic: usize = sn;
        let mut found = false;
        let ghost whole = first_word_end(sb, ws@, 0);
        while k < ws.len()
            invariant
                k <= ws@.len(),
                sb == sfx.spec_bytes(),
                sn == sb.len(),
                partition_offsets(sb, ws@),
                found ==> semantic == whole && k == ws@.len(),
                !found ==> whole == first_word_end(sb, ws@, k as int) && semantic == sn,
            decreases ws@.len() - k,
        {
            let segment = segment_str(sfx, &ws, k);
            if contains_word(segment.as_str()) {
                semantic = if k < ws.len() - 1 { ws[k + 1] } else { sn };
                found = true;
                k = ws.len();
            } else {
                k += 1;
            }
        }
        proof {
            lemma_first_word_end_range(sb, ws@, 0);
            assert(sb == self.bytes().subrange(self.pos(), self.bytes().len() as int));
        }
        self.ceil_grapheme(&starts, self.cursor + semantic)
    }

    /// Move to the beginning of the preceding/current UAX #29 word.
    pub fn word_left(&mut self)
        requires
            old(self).wf(),
            old(self).rev() < u128::MAX,
        ensures
            final(self).rev() >= old(self).rev(),
            final(self).wf(),
            old(self).moved_to(final(self), word_left_target(old(self).bytes(), old(self).pos())),
    {
        let c = self.word_left_boundary();
        self.move_cursor(c);
    }

    /// Move to the end of the following/current UAX #29 word.
    pub fn word_right(&mut self)
        requires
            old(self).wf(),
            old(self).rev() < u128::MAX,
        ensures
            final(self).rev() >= old(self).rev(),
            final(self).wf(),
            old(self).moved_to(final(self), word_right_target(old(self).bytes(), old(self).pos())),
    {
        let c = self.word_right_boundary();
        self.move_cursor(c);
    }

    /// Delete backward through one Unicode word and intervening separators.
    pub fn delete_word_backward(&mut self)
        requires
            old(self).wf(),
            old(self).rev() < u128::MAX,
        ensures
            final(self).rev() >= old(self).rev(),
            final(self).wf(),
            old(self).keeps(final(self)),
            ({
                let s = word_left_target(old(self).bytes(), old(self).pos());
                if s == old(self).pos() {
                    old(self).same_draft(final(self))
                } else {
                    old(self).replaced(final(self), s, old(self).pos(), Seq::empty())
                }
            }),
    {
        let start = self.word_left_boundary();
        if start != self.cursor {
            let c = self.cursor;
            let r = self.replace_group(start, c, "", EditGroup::Atomic);
            proof {
                reveal_strlit("");
                assert(bytes_of(""@) =~= Seq::<u8>::empty());
                assert(r is Ok);
            }
        }
    }

    /// Delete forward through one Unicode word and intervening separators.
    pub fn delete_word_forward(&mut self)
        requires
            old(self).wf(),
            old(self).rev() < u128::MAX,
        ensures
            final(self).rev() >= old(self).rev(),
            final(self).wf(),
            old(self).keeps(final(self)),
            ({
                let e = word_right_target(old(self).bytes(), old(self).pos());
                if e == old(self).pos() {
                    old(self).same_draft(final(self))
                } else {
                    old(self).replaced(final(self), old(self).pos(), e, Seq::empty())
                }
            }),
    {
        let end = self.word_right_boundary();
        if end != self.cursor {
            let c = self.cursor;
            let r = self.replace_group(c, end, "", EditGroup::Atomic);
            proof {
                reveal_strlit("");
                assert(bytes_of(""@) =~= Seq::<u8>::empty());
                assert(r is Ok);
            }
        }
    }

    fn kill_range(&mut self, start: usize, end: usize) -> (r: Result<(), EditError>)
        requires
            old(self).wf(),
            old(self).rev() < u128::MAX,
            start <= end <= old(self).bytes().len(),
        ensures
            final(self).wf(),
            old(self).keeps_but_kill(final(self)),
            old(self).killed(final(self), start as int, end as int, r),
    {
        proof {
            reveal_strlit("");
            assert(bytes_of(""@) =~= Seq::<u8>::empty());
            assert(""@ =~= Seq::<char>::empty());
        }
        if start == end {
            self.undo.group_open = false;
            return Ok(());
        }
        if end - start > self.undo.limits.kill_bytes {
            return Err(EditError::Capacity);
        }
        match self.check_replacement(start, end, "") {
            Ok(()) => {},
            Err(e) => return Err(e),
        }
        let killed = substring(self.text_str(), start, end);
        let r = self.replace_group(start, end, "", EditGroup::Atomic);
        assert(r is Ok);
        self.kill = killed;
        Ok(())
    }

    /// Kill one Unicode word backward into the bounded private register.
    pub fn kill_word_backward(&mut self) -> (r: Result<(), EditError>)
        requires
            old(self).wf(),
            old(self).rev() < u128::MAX,
        ensures
            final(self).rev() >= old(self).rev(),
            final(self).wf(),
            old(self).keeps_but_kill(final(self)),
            old(self).killed(final(self), word_left_target(old(self).bytes(), old(self).pos()), old(self).pos(), r),
    {
        let s = self.word_left_boundary();
        let c = self.cursor;
        self.kill_range(s, c)
    }

    /// Kill one Unicode word forward into the bounded private register.
    pub fn kill_word_forward(&mut self) -> (r: Result<(), EditError>)
        requires
            old(self).wf(),
            old(self).rev() < u128::MAX,
        ensures
            final(self).rev() >= old(self).rev(),
            final(self).wf(),
            old(self).keeps_but_kill(final(self)),
            old(self).killed(final(self), old(self).pos(), word_right_target(old(self).bytes(), old(self).pos()), r),
    {
        let e = self.word_right_boundary();
        let c = self.cursor;
        self.kill_range(c, e)
    }

    /// Kill from the cursor to the end of the current logical line.
    pub fn kill_line_end(&mut self) -> (r: Result<(), EditError>)
        requires
            old(self).wf(),
            old(self).rev() < u128::MAX,
        ensures
            final(self).rev() >= old(self).rev(),
            final(self).wf(),
            old(self).keeps_but_kill(final(self)),
            old(self).killed(final(self), old(self).pos(), line_end(old(self).bytes(), old(self).pos()), r),
    {
        let c = self.cursor;
        let e = find_line_end(self.text_str(), c);
        proof { lemma_line_end(self.bytes(), self.pos()); }
        self.kill_range(c, e)
    }

    /// Kill from the cursor to the beginning of the current logical line.
    pub fn kill_line_start(&mut self) -> (r: Result<(), EditError>)
        requires
            old(self).wf(),
            old(self).rev() < u128::MAX,
        ensures
            final(self).rev() >= old(self).rev(),
            final(self).wf(),
            old(self).keeps_but_kill(final(self)),
            old(self).killed(final(self), line_start(old(self).bytes(), old(self).pos()), old(self).pos(), r),
    {
        let c = self.cursor;
        let s = find_line_start(self.text_str(), c);
        proof { lemma_line_start(self.bytes(), self.pos()); }
        self.kill_range(s, c)
    }

    /// Insert the private kill register atomically. An empty register is a no-op.
    pub fn yank(&mut self) -> (r: Result<(), EditError>)
        requires
            old(self).wf(),
            old(self).rev() < u128::MAX,
        ensures
            final(self).rev() >= old(self).rev(),
            final(self).wf(),
            old(self).keeps(final(self)),
            old(self).kill_spec().len() == 0 ==> r is Ok && old(self).same_draft(final(self)),
            old(self).kill_spec().len() > 0 ==> match r {
                Ok(()) => replace_error(old(self).bytes(), old(self).cap() as int, old(self).pos(), old(self).pos(), old(self).kill_spec()) is None
                    && old(self).replaced(final(self), old(self).pos(), old(self).pos(), old(self).kill_spec()),
                Err(e) => replace_error(old(self).bytes(), old(self).cap() as int, old(self).pos(), old(self).pos(), old(self).kill_spec()) == Some(e)
                    && old(self).same_draft(final(self)),
            },
    {
        if str_is_empty(&self.kill) {
            self.undo.group_open = false;
            return Ok(());
        }
        let text = self.kill.clone();
        let c = self.cursor;
        self.replace_group(c, c, text.as_str(), EditGroup::Atomic)
    }
}

} // verus!

verus! {

/// History after admitting `t`, evicting the oldest entry at capacity.
pub open spec fn admitted(h: Seq<Seq<char>>, cap: int, t: Seq<char>) -> Seq<Seq<char>> {
    if h.len() == cap {
        h.drop_first().push(t)
    } else {
        h.push(t)
    }
}

impl Editor {
    /// Recalling `t` (cursor at its end) from the current draft: the revision
    /// advances exactly when text or cursor changes.
    pub open spec fn recalled(&self, post: &Editor, t: Seq<char>, c: int) -> bool {
        &&& post.chars() == t
        &&& post.pos() == c
        &&& (self.chars() != t || self.pos() != c) ==> post.rev() == self.rev() + 1
        &&& (self.chars() == t && self.pos() == c) ==> post.rev() == self.rev()
        &&& post.undo_count() == 0
        &&& post.redo_count() == 0
        &&& post.history_spec() == self.history_spec()
        &&& post.history_cap() == self.history_cap()
        &&& post.kill_spec() == self.kill_spec()
        &&& post.cap() == self.cap()
        &&& post.limits_spec() == self.limits_spec()
    }

    /// Admit one host-selected history entry; evict the oldest at capacity.
    ///
    /// No deduplication, trimming, persistence or automatic admission occurs.
    pub fn admit_history(&mut self, text: &str) -> (r: Result<(), EditError>)
        requires
            old(self).wf(),
        ensures
            final(self).wf(),
            old(self).same_draft(final(self)),
            final(self).kill_spec() == old(self).kill_spec(),
            final(self).cap() == old(self).cap(),
            final(self).history_cap() == old(self).history_cap(),
            final(self).limits_spec() == old(self).limits_spec(),
            final(self).undo_count() == old(self).undo_count(),
            final(self).redo_count() == old(self).redo_count(),
            !spec_valid_text(text@) ==> r == Err::<(), EditError>(EditError::InvalidText),
            spec_valid_text(text@) && blen(text@) > old(self).cap() ==> r == Err::<(), EditError>(EditError::Capacity),
            spec_valid_text(text@) && blen(text@) <= old(self).cap() && old(self).history_cap() == 0
                ==> r == Err::<(), EditError>(EditError::HistoryDisabled),
            r is Err ==> final(self).history_spec() == old(self).history_spec()
                && final(self).selected_spec() == old(self).selected_spec(),
            (r is Ok) == (spec_valid_text(text@) && blen(text@) <= old(self).cap() && old(self).history_cap() > 0),
            r is Ok ==> final(self).history_spec() == admitted(old(self).history_spec(), old(self).history_cap() as int, text@)
                && final(self).selected_spec() is None,
    {
        if !valid_text(text) {
            return Err(EditError::InvalidText);
        }
        if byte_len(text) > self.limit {
            return Err(EditError::Capacity);
        }
        if self.history_limit == 0 {
            return Err(EditError::HistoryDisabled);
        }
        self.selected = None;
        self.draft = None;
        self.undo.group_open = false;
        let ghost h0 = self.history@;
        if self.history.len() == self.history_limit {
            self.history.remove(0);
            proof { assert(history_view(self.history@) =~= history_view(h0).drop_first()); }
        }
        let ghost h1 = self.history@;
        self.history.push(text.to_owned());
        proof {
            assert(history_view(self.history@) =~= history_view(h1).push(text@));
            assert forall|i: int| 0 <= i < self.history@.len() implies bytes_of(#[trigger] self.history@[i]@).len() <= self.limit by {
                if i < h1.len() {
                    if h1.len() < h0.len() {
                        assert(self.history@[i] == h0[i + 1]);
                    } else {
                        assert(self.history@[i] == h0[i]);
                    }
                }
            }
        }
        Ok(())
    }

    /// Effect of `history_up`.
    pub open spec fn history_up_post(&self, post: &Editor) -> bool {
        if self.history_spec().len() == 0 || self.selected_spec() == Some(0usize) {
            self.same_draft(post) && self.keeps(post) && post.undo_count() == self.undo_count()
                && post.redo_count() == self.redo_count()
        } else {
            let i = match self.selected_spec() {
                Some(j) => j - 1,
                None => self.history_spec().len() - 1,
            };
            &&& post.selected_spec() == Some(i as usize)
            &&& self.recalled(post, self.history_spec()[i], blen(self.history_spec()[i]))
            &&& self.selected_spec() is None ==> post.draft_spec() == Some((self.chars(), self.pos() as usize))
            &&& self.selected_spec() is Some ==> post.draft_spec() == self.draft_spec()
        }
    }

    /// Effect of `history_down`.
    pub open spec fn history_down_post(&self, post: &Editor) -> bool {
        match self.selected_spec() {
            None => self.same_draft(post) && self.keeps(post) && post.undo_count() == self.undo_count()
                && post.redo_count() == self.redo_count(),
            Some(i) => if i + 1 < self.history_spec().len() {
                &&& post.selected_spec() == Some((i + 1) as usize)
                &&& post.draft_spec() == self.draft_spec()
                &&& self.recalled(post, self.history_spec()[i + 1], blen(self.history_spec()[i + 1]))
            } else {
                &&& post.selected_spec() is None
                &&& match self.draft_spec() {
                    Some((t, c)) => self.recalled(post, t, c as int),
                    None => false,
                }
            },
        }
    }

    /// Recall the previous entry, preserving the current draft and its cursor.
    pub fn history_up(&mut self)
        requires
            old(self).wf(),
            old(self).rev() < u128::MAX,
        ensures
            final(self).rev() >= old(self).rev(),
            final(self).wf(),
            old(self).history_up_post(final(self)),
    {
        let n = self.history.len();
        if n == 0 || self.selected == Some(0usize) {
            self.undo.group_open = false;
            return;
        }
        let index = match self.selected {
            Some(i) => i - 1,
            None => n - 1,
        };
        proof { assert(history_view(self.history@)[index as int] == self.history@[index as int]@); }
        self.recall(index);
    }

    /// Move the draft to history entry `index`, remembering the draft the first time.
    fn recall(&mut self, index: usize)
        requires
            old(self).wf(),
            old(self).rev() < u128::MAX,
            index < old(self).history@.len(),
        ensures
            final(self).wf(),
            final(self).selected_spec() == Some(index),
            old(self).recalled(final(self), old(self).history@[index as int]@, blen(old(self).history@[index as int]@)),
            old(self).selected is None ==> final(self).draft_spec() == Some((old(self).chars(), old(self).pos() as usize)),
            old(self).selected is Some ==> final(self).draft_spec() == old(self).draft_spec(),
    {
        let entry = self.history[index].clone();
        let len = str_bytes(&entry);
        if !str_equal(self.text.as_str(), entry.as_str()) || self.cursor != len {
            self.revision.advance();
        }
        self.undo.clear();
        if self.selected.is_none() {
            self.draft = Some((self.text.clone(), self.cursor));
        }
        self.selected = Some(index);
        self.text = entry;
        self.cursor = len;
        proof {
            assert(bytes_of(self.history@[index as int]@).len() <= self.limit);
            assert(is_boundary(self.bytes(), self.pos()));
        }
    }

    /// Recall the next entry, or return to the original draft and cursor.
    pub fn history_down(&mut self)
        requires
            old(self).wf(),
            old(self).rev() < u128::MAX,
        ensures
            final(self).rev() >= old(self).rev(),
            final(self).wf(),
            old(self).history_down_post(final(self)),
    {
        let index = match self.selected {
            None => {
                self.undo.group_open = false;
                return;
            },
            Some(i) => i,
        };
        if index + 1 < self.history.len() {
            proof { assert(history_view(self.history@)[index + 1] == self.history@[index + 1]@); }
            self.recall(index + 1);
        } else {
            let (text, cursor) = self.draft.take().unwrap();
            if !str_equal(self.text.as_str(), text.as_str()) || self.cursor != cursor {
                self.revision.advance();
            }
            self.undo.clear();
            self.text = text;
            self.cursor = cursor;
            self.selected = None;
        }
    }

    /// Admitted history, newest first.
    pub fn history_newest(&self) -> (r: Vec<String>)
        ensures
            r@.len() == self.history_spec().len(),
            forall|i: int| 0 <= i < r@.len() ==> #[trigger] r@[i]@ == self.history_spec()[self.history_spec().len() - 1 - i],
    {
        let mut r: Vec<String> = Vec::new();
        let n = self.history.len();
        let mut k = n;
        while k > 0
            invariant
                k <= n,
                n == self.history@.len(),
                r@.len() == n - k,
                forall|i: int| 0 <= i < r@.len() ==> #[trigger] r@[i]@ == self.history@[n - 1 - i]@,
            decreases k,
        {
            r.push(self.history[k - 1].clone());
            k -= 1;
        }
        proof {
            assert forall|i: int| 0 <= i < r@.len() implies #[trigger] r@[i]@ == self.history_spec()[self.history_spec().len() - 1 - i] by {
                assert(history_view(self.history@)[n - 1 - i] == self.history@[n - 1 - i]@);
            }
        }
        r
    }

    /// Replace the whole draft with an accepted search result as one atomic edit,
    /// leaving history navigation. Identical text still yields a fresh identity.
    pub fn replace_search_result(&mut self, text: &str) -> (r: Result<(), EditError>)
        requires
            old(self).wf(),
            old(self).rev() < u128::MAX,
        ensures
            final(self).wf(),
            match r {
                Ok(()) => replace_error(old(self).bytes(), old(self).cap() as int, 0, old(self).bytes().len() as int, text@) is None
                    && final(self).chars() == text@ && final(self).rev() == old(self).rev() + 1
                    && final(self).selected_spec() is None
                    && final(self).pos() == (if old(self).chars() == text@ && old(self).pos() == blen(text@) { blen(text@) } else { snap(final(self).bytes(), blen(text@)) }),
                Err(e) => replace_error(old(self).bytes(), old(self).cap() as int, 0, old(self).bytes().len() as int, text@) == Some(e)
                    && old(self).same_draft(final(self)) && final(self).selected_spec() == old(self).selected_spec(),
            },
            final(self).history_spec() == old(self).history_spec(),
            final(self).kill_spec() == old(self).kill_spec(),
            final(self).cap() == old(self).cap(),
            r is Ok && !(old(self).chars() == text@ && old(self).pos() == blen(text@)) && 2 * old(self).cap() <= usize::MAX
                ==> final(self).undo_count() > 0 && final(self).undo_top() == (RecView {
                    start: 0,
                    removed: old(self).bytes(),
                    inserted: bytes_of(text@),
                    before: old(self).pos(),
                    after: final(self).pos(),
                }),
    {
        let n = byte_len(self.text_str());
        match self.check_replacement(0, n, text) {
            Ok(()) => {},
            Err(e) => return Err(e),
        }
        if str_equal(self.text.as_str(), text) && self.cursor == byte_len(text) {
            self.revision.advance();
            self.undo.group_open = false;
        } else {
            let r = self.replace_group(0, n, text, EditGroup::Atomic);
            proof {
                assert(r is Ok);
                let b = old(self).bytes();
                assert(b.subrange(0, n as int) =~= b);
                if b == bytes_of(text@) {
                    assert(decode_utf8(b) == decode_utf8(bytes_of(text@)));
                }
                assert(splice(b, 0, n as int, bytes_of(text@)) =~= bytes_of(text@));
            }
        }
        self.selected = None;
        self.draft = None;
        Ok(())
    }
}

/// Recalling the newest entry and then moving back down restores the draft and
/// cursor that were being edited.
pub proof fn law_history_round_trip(e0: Editor, e1: Editor, e2: Editor)
    requires
        e0.wf(),
        e0.selected_spec() is None,
        e0.history_spec().len() > 0,
        e0.history_up_post(&e1),
        e1.history_down_post(&e2),
    ensures
        e2.chars() == e0.chars(),
        e2.pos() == e0.pos(),
        e2.history_spec() == e0.history_spec(),
        e2.selected_spec() is None,
{
}

} // verus!

verus! {

/// Saturating addition in `usize`.
pub open spec fn sat_add(a: int, b: int) -> int {
    if a + b > usize::MAX {
        usize::MAX as int
    } else {
        a + b
    }
}

/// Display cells of grapheme `g` at column `col`: tabs advance to the next
/// four-cell stop, other graphemes take their display width.
pub open spec fn gwidth(g: Seq<u8>, col: int) -> int {
    if g == seq![9u8] {
        4 - col % 4
    } else {
        display_width_of(decode_utf8(g)) as int
    }
}

/// Index of the first offset at or above `i`, scanning from `k`.
pub open spec fn ceil_index(starts: Seq<usize>, i: int, k: int) -> int
    decreases starts.len() - k,
{
    if k >= starts.len() || k < 0 {
        starts.len() as int
    } else if starts[k] as int >= i {
        k
    } else {
        ceil_index(starts, i, k + 1)
    }
}

/// Column reached after the graphemes from index `k` that start below `stop`.
pub open spec fn cols_upto(b: Seq<u8>, starts: Seq<usize>, k: int, stop: int, col: int) -> int
    decreases starts.len() - k,
{
    if k >= starts.len() || k < 0 || starts[k] as int >= stop {
        col
    } else {
        cols_upto(b, starts, k + 1, stop, sat_add(col, gwidth(segment(b, starts, k), col)))
    }
}

/// Offset reached by walking graphemes from index `k` (at offset `pos`) while
/// they stay on the line and within `desired` columns.
pub open spec fn walk(b: Seq<u8>, starts: Seq<usize>, k: int, desired: int, col: int, pos: int) -> int
    decreases starts.len() - k,
{
    if k >= starts.len() || k < 0 {
        pos
    } else {
        let g = segment(b, starts, k);
        if g == seq![10u8] || sat_add(col, gwidth(g, col)) > desired {
            pos
        } else {
            walk(b, starts, k + 1, desired, sat_add(col, gwidth(g, col)), seg_end(starts, k, b.len() as int))
        }
    }
}

/// Cursor after moving to the previous (`down == false`) or next logical line at
/// the current display column, or `None` at the first/last line.
pub open spec fn vertical_target(b: Seq<u8>, c: int, down: bool) -> Option<int> {
    let starts = grapheme_starts_of(decode_utf8(b));
    let start = line_start(b, c);
    let e = line_end(b, c);
    let target = if down { e + 1 } else { line_start(b, start - 1) };
    if (down && e >= b.len()) || (!down && start == 0) {
        None
    } else {
        let desired = cols_upto(b, starts, ceil_index(starts, start, 0), c, 0);
        let k = ceil_index(starts, target, 0);
        let pos = if k < starts.len() { starts[k] as int } else { b.len() as int };
        Some(walk(b, starts, k, desired, 0, pos))
    }
}

fn is_single_byte(g: &str, byte: u8) -> (r: bool)
    ensures
        r == (g.spec_bytes() == seq![byte]),
{
    let b = g.as_bytes();
    let r = b.len() == 1 && b[0] == byte;
    proof {
        if r {
            assert(b@ =~= seq![byte]);
        }
    }
    r
}

fn grapheme_width(g: &str, col: usize) -> (r: usize)
    ensures
        r == gwidth(g.spec_bytes(), col as int),
{
    if is_single_byte(g, 9) {
        4 - col % 4
    } else {
        display_width(g)
    }
}

fn ceil_index_exec(starts: &Vec<usize>, i: usize) -> (r: usize)
    ensures
        r == ceil_index(starts@, i as int, 0),
        r <= starts@.len(),
{
    let mut k: usize = 0;
    while k < starts.len()
        invariant
            k <= starts@.len(),
            ceil_index(starts@, i as int, 0) == ceil_index(starts@, i as int, k as int),
        decreases starts@.len() - k,
    {
        if starts[k] >= i {
            return k;
        }
        k += 1;
    }
    k
}

proof fn lemma_ceil_index_range(starts: Seq<usize>, i: int, k: int)
    requires
        0 <= k,
    ensures
        k <= ceil_index(starts, i, k) <= starts.len() || k > starts.len(),
    decreases starts.len() - k,
{
    if k < starts.len() && starts[k] < i {
        lemma_ceil_index_range(starts, i, k + 1);
    }
}

proof fn lemma_walk_boundary(b: Seq<u8>, starts: Seq<usize>, k: int, desired: int, col: int, pos: int)
    requires
        valid_utf8(b),
        starts == grapheme_starts_of(decode_utf8(b)),
        partition_offsets(b, starts),
        is_boundary(b, pos),
    ensures
        is_boundary(b, walk(b, starts, k, desired, col, pos)),
    decreases starts.len() - k,
{
    if 0 <= k < starts.len() {
        let g = segment(b, starts, k);
        if !(g == seq![10u8] || sat_add(col, gwidth(g, col)) > desired) {
            let e = seg_end(starts, k, b.len() as int);
            assert(is_boundary(b, e)) by {
                if k + 1 < starts.len() {
                    assert(starts.contains(starts[k + 1]));
                }
            }
            lemma_walk_boundary(b, starts, k + 1, desired, sat_add(col, gwidth(g, col)), e);
        }
    }
}

impl Editor {
    fn vertical(&mut self, down: bool) -> (r: bool)
        requires
            old(self).wf(),
            old(self).rev() < u128::MAX,
        ensures
            final(self).wf(),
            r == vertical_target(old(self).bytes(), old(self).pos(), down) is Some,
            match vertical_target(old(self).bytes(), old(self).pos(), down) {
                Some(t) => old(self).moved_to(final(self), t),
                None => old(self).same_draft(final(self)) && old(self).keeps(final(self))
                    && final(self).undo_count() == old(self).undo_count()
                    && final(self).redo_count() == old(self).redo_count(),
            },
    {
        let starts = self.cursor_char_boundary();
        let text = self.text_str();
        let n = byte_len(text);
        let c = self.cursor;
        let start = find_line_start(text, c);
        let e = find_line_end(text, c);
        proof {
            lemma_line_start(self.bytes(), c as int);
            lemma_line_end(self.bytes(), c as int);
        }
        if (down && e >= n) || (!down && start == 0) {
            return false;
        }
        let target = if down { e + 1 } else { find_line_start(text, start - 1) };
        let mut desired: usize = 0;
        let mut k = ceil_index_exec(&starts, start);
        proof { is_char_boundary_start_end_of_seq(self.bytes()); }
        while k < starts.len() && starts[k] < c
            invariant
                k <= starts@.len(),
                partition_offsets(text.spec_bytes(), starts@),
                text.spec_bytes() == self.bytes(),
                cols_upto(self.bytes(), starts@, ceil_index(starts@, start as int, 0), c as int, 0)
                    == cols_upto(self.bytes(), starts@, k as int, c as int, desired as int),
            decreases starts@.len() - k,
        {
            let g = segment_str(text, &starts, k);
            let w = grapheme_width(g.as_str(), desired);
            desired = desired.saturating_add(w);
            k += 1;
        }
        let mut k = ceil_index_exec(&starts, target);
        let mut pos = if k < starts.len() { starts[k] } else { n };
        let mut col: usize = 0;
        let ghost k0 = k as int;
        let ghost pos0 = pos as int;
        let mut done = false;
        while k < starts.len() && !done
            invariant
                k <= starts@.len(),
                partition_offsets(text.spec_bytes(), starts@),
                text.spec_bytes() == self.bytes(),
                n == self.bytes().len(),
                !done ==> walk(self.bytes(), starts@, k0, desired as int, 0, pos0)
                    == walk(self.bytes(), starts@, k as int, desired as int, col as int, pos as int),
                done ==> walk(self.bytes(), starts@, k0, desired as int, 0, pos0) == pos,
            decreases starts@.len() - k,
        {
            let g = segment_str(text, &starts, k);
            let w = grapheme_width(g.as_str(), col);
            if is_single_byte(g.as_str(), 10) || col.saturating_add(w) > desired {
                done = true;
                k = starts.len();
            } else {
                proof {
                    let b = self.bytes();
                    assert(bytes_of(g@) == segment(b, starts@, k as int));
                    assert(walk(b, starts@, k as int, desired as int, col as int, pos as int) == walk(b, starts@, k + 1, desired as int, sat_add(col as int, w as int), seg_end(starts@, k as int, b.len() as int)));
                }
                col = col.saturating_add(w);
                pos = if k < starts.len() - 1 { starts[k + 1] } else { n };
                k += 1;
            }
        }
        proof {
            assert(is_boundary(self.bytes(), pos0)) by {
                if k0 < starts@.len() {
                    assert(starts@.contains(starts@[k0]));
                }
            }
            lemma_walk_boundary(self.bytes(), starts@, k0, desired as int, 0, pos0);
        }
        self.move_cursor(pos);
        true
    }

    /// Move to the previous logical LF-delimited line at the current display column.
    /// Returns false only at the first logical line. Short lines clamp to their end;
    /// tabs use four-cell stops relative to the logical line.
    pub fn line_up(&mut self) -> (r: bool)
        requires
            old(self).wf(),
            old(self).rev() < u128::MAX,
        ensures
            final(self).rev() >= old(self).rev(),
            final(self).wf(),
            r == vertical_target(old(self).bytes(), old(self).pos(), false) is Some,
            match vertical_target(old(self).bytes(), old(self).pos(), false) {
                Some(t) => old(self).moved_to(final(self), t),
                None => old(self).same_draft(final(self)) && old(self).keeps(final(self))
                    && final(self).undo_count() == old(self).undo_count()
                    && final(self).redo_count() == old(self).redo_count(),
            },
    {
        self.undo.group_open = false;
        self.vertical(false)
    }

    /// Move to the next logical line using the same geometry as [`Self::line_up`].
    pub fn line_down(&mut self) -> (r: bool)
        requires
            old(self).wf(),
            old(self).rev() < u128::MAX,
        ensures
            final(self).rev() >= old(self).rev(),
            final(self).wf(),
            r == vertical_target(old(self).bytes(), old(self).pos(), true) is Some,
            match vertical_target(old(self).bytes(), old(self).pos(), true) {
                Some(t) => old(self).moved_to(final(self), t),
                None => old(self).same_draft(final(self)) && old(self).keeps(final(self))
                    && final(self).undo_count() == old(self).undo_count()
                    && final(self).redo_count() == old(self).redo_count(),
            },
    {
        self.undo.group_open = false;
        self.vertical(true)
    }
}

} // verus!

verus! {

impl Editor {
    /// Whether `i` is an extended-grapheme boundary of the draft.
    pub fn is_boundary(&self, i: usize) -> (r: bool)
        requires
            self.wf(),
        ensures
            r == is_boundary(self.bytes(), i as int),
    {
        let t = self.text_str();
        let starts = starts_of(t);
        boundary_at(t, &starts, i)
    }
}

} // verus!

verus! {

/// Whether `g` is exactly the one byte `byte`.
pub fn is_single_byte_str(g: &str, byte: u8) -> (r: bool)
    ensures
        r == (g.spec_bytes() == seq![byte]),
{
    is_single_byte(g, byte)
}

} // verus!
