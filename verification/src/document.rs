//! Bounded semantic documents; no terminal resources or application schemas.
use crate::editor::EditError;
use crate::presentation::{segment_end, Line, Role, Run, Theme};
use crate::render::Mutation;
use crate::segment::{display_width, display_width_of, grapheme_starts, grapheme_starts_of, partition_offsets};
use crate::text::{blen, byte_len, bytes_of, decimal, push_char, push_decimal, spec_valid_text, substring, valid_text};
use vstd::prelude::*;
use vstd::string::*;
use vstd::utf8::*;

verus! {

broadcast use {encode_utf8_decode_utf8, encode_utf8_valid_utf8, decode_utf8_encode_utf8};

/// Maximum UTF-8 bytes of one span or one text.
pub const FIELD: usize = 16384;
/// Maximum UTF-8 bytes of all texts of a document.
pub const BUDGET: usize = 1048576;
/// Maximum rendered rows of a document.
pub const ROWS: usize = 65536;

/// `s` with each CR LF pair replaced by LF.
pub open spec fn lf_normalized(s: Seq<char>) -> Seq<char>
    decreases s.len(),
{
    if s.len() == 0 {
        Seq::empty()
    } else if s.len() >= 2 && s.last() == '\n' && s[s.len() - 2] == '\r' {
        lf_normalized(s.take(s.len() - 2)).push('\n')
    } else {
        lf_normalized(s.drop_last()).push(s.last())
    }
}

/// Replace each CR LF pair by LF.
fn normalize_crlf(text: &str) -> (r: String)
    ensures
        r@ == lf_normalized(text@),
{
    let mut out = String::new();
    let mut pending_cr = false;
    for c in it: text.chars()
        invariant
            it.seq() == text@,
            it.index() <= text@.len(),
            pending_cr ==> it.index() > 0 && text@[it.index() - 1] == '\r'
                && out@ == lf_normalized(text@.take(it.index() - 1)),
            !pending_cr ==> out@ == lf_normalized(text@.take(it.index() as int)),
            !pending_cr && it.index() > 0 ==> text@[it.index() - 1] != '\r',
    {
        let ghost i = it.index();
        let ghost p = text@.take(i as int);
        let ghost q = text@.take(i + 1);
        assert(q.drop_last() =~= p);
        assert(q.last() == c);
        if pending_cr {
            assert(p.drop_last() =~= text@.take(i - 1));
            assert(p.last() == '\r');
            if c != '\n' {
                push_char(&mut out, '\r');
                assert(out@ == lf_normalized(p));
            } else {
                assert(q.take(q.len() - 2) =~= text@.take(i - 1));
                assert(q[q.len() - 2] == '\r');
            }
            pending_cr = false;
        }
        if c == '\r' {
            pending_cr = true;
        } else {
            push_char(&mut out, c);
        }
    }
    if pending_cr {
        proof {
            let p = text@.take(text@.len() as int);
            assert(p.drop_last() =~= text@.take(text@.len() - 1));
        }
        push_char(&mut out, '\r');
    }
    assert(text@.take(text@.len() as int) =~= text@);
    out
}

/// What a span made from `text` holds, or why it is refused: oversized input is a
/// capacity error; otherwise CRLF becomes LF and any other control is refused.
pub open spec fn span_outcome(text: Seq<char>) -> Result<Seq<char>, EditError> {
    if blen(text) > FIELD {
        Err(EditError::Capacity)
    } else if !spec_valid_text(lf_normalized(text)) {
        Err(EditError::InvalidText)
    } else if blen(lf_normalized(text)) > FIELD {
        Err(EditError::Capacity)
    } else {
        Ok(lf_normalized(text))
    }
}

/// A validated UTF-8 span carrying generic emphasis, never terminal commands.
#[derive(Debug)]
pub struct Span {
    role: Option<Role>,
    text: String,
}

impl Span {
    /// Span text.
    pub closed spec fn spec_text(&self) -> Seq<char> {
        self.text@
    }

    /// Span emphasis; `None` takes the block's default.
    pub closed spec fn spec_role(&self) -> Option<Role> {
        self.role
    }

    /// Normalize CRLF; admit LF and TAB, reject every other control. Maximum 16 KiB.
    pub fn new(role: Role, text: &str) -> (r: Result<Self, EditError>)
        ensures
            match r {
                Ok(sp) => span_outcome(text@) == Ok::<Seq<char>, EditError>(sp.spec_text()) && sp.spec_role() == Some(role),
                Err(e) => span_outcome(text@) == Err::<Seq<char>, EditError>(e),
            },
    {
        if byte_len(text) > FIELD {
            return Err(EditError::Capacity);
        }
        let normalized = normalize_crlf(text);
        if !valid_text(normalized.as_str()) {
            return Err(EditError::InvalidText);
        }
        if byte_len(normalized.as_str()) > FIELD {
            return Err(EditError::Capacity);
        }
        Ok(Span { role: Some(role), text: normalized })
    }
}

/// A span as a value: its emphasis and text.
pub open spec fn span_view(s: Span) -> (Option<Role>, Seq<char>) {
    (s.spec_role(), s.spec_text())
}

/// Spans as values.
pub open spec fn span_views(spans: Seq<Span>) -> Seq<(Option<Role>, Seq<char>)> {
    spans.map_values(|s: Span| span_view(s))
}

/// Total bytes of span texts.
pub open spec fn spans_bytes(spans: Seq<(Option<Role>, Seq<char>)>) -> int
    decreases spans.len(),
{
    if spans.len() == 0 {
        0
    } else {
        spans_bytes(spans.drop_last()) + blen(spans.last().1)
    }
}

proof fn lemma_spans_bytes_prefix(spans: Seq<(Option<Role>, Seq<char>)>, k: int)
    requires
        0 <= k <= spans.len(),
    ensures
        0 <= spans_bytes(spans.take(k)) <= spans_bytes(spans),
    decreases spans.len(),
{
    if k < spans.len() {
        assert(spans.drop_last().take(k) =~= spans.take(k));
        lemma_spans_bytes_prefix(spans.drop_last(), k);
    } else {
        assert(spans.take(k) =~= spans);
        if spans.len() > 0 {
            lemma_spans_bytes_prefix(spans.drop_last(), k - 1);
        }
    }
}

/// The span texts concatenated.
pub open spec fn spans_text(spans: Seq<(Option<Role>, Seq<char>)>) -> Seq<char>
    decreases spans.len(),
{
    if spans.len() == 0 {
        Seq::empty()
    } else {
        spans_text(spans.drop_last()) + spans.last().1
    }
}

/// Index of the span holding byte `offset` of the concatenated text, searching
/// from span `s`: a span is passed once the offset reaches its end, and the last
/// span is never passed.
pub open spec fn span_at(spans: Seq<(Option<Role>, Seq<char>)>, s: int, offset: int) -> int
    decreases spans.len() - s,
{
    if 0 <= s && s + 1 < spans.len() && offset >= spans_bytes(spans.take(s + 1)) {
        span_at(spans, s + 1, offset)
    } else {
        s
    }
}

/// The role that a grapheme starting at byte `offset` takes: that of the span
/// holding the offset, else the block's default.
pub open spec fn role_at_offset(spans: Seq<(Option<Role>, Seq<char>)>, offset: int, default: Role) -> Role {
    if spans.len() == 0 {
        default
    } else {
        match spans[span_at(spans, 0, offset)].0 {
            Some(r) => r,
            None => default,
        }
    }
}

/// Byte totals of span prefixes grow with the prefix.
proof fn lemma_spans_bytes_mono(spans: Seq<(Option<Role>, Seq<char>)>, j: int, k: int)
    requires
        0 <= j <= k <= spans.len(),
    ensures
        spans_bytes(spans.take(j)) <= spans_bytes(spans.take(k)),
{
    assert(spans.take(k).take(j) =~= spans.take(j));
    lemma_spans_bytes_prefix(spans.take(k), j);
}

/// The search ends where it started, or past every span end before it.
proof fn lemma_span_at_arrival(spans: Seq<(Option<Role>, Seq<char>)>, s: int, offset: int)
    requires
        0 <= s < spans.len(),
    ensures
        s <= span_at(spans, s, offset) < spans.len(),
        span_at(spans, s, offset) == s || offset >= spans_bytes(spans.take(span_at(spans, s, offset))),
    decreases spans.len() - s,
{
    if s + 1 < spans.len() && offset >= spans_bytes(spans.take(s + 1)) {
        lemma_span_at_arrival(spans, s + 1, offset);
        if span_at(spans, s + 1, offset) != s + 1 {
        }
    }
}

/// Resuming the search at a span already passed gives the search from the start.
proof fn lemma_span_at_resume(spans: Seq<(Option<Role>, Seq<char>)>, s: int, offset: int)
    requires
        0 <= s < spans.len(),
        s == 0 || offset >= spans_bytes(spans.take(s)),
    ensures
        span_at(spans, 0, offset) == span_at(spans, s, offset),
    decreases s,
{
    if s > 0 {
        lemma_spans_bytes_mono(spans, s - 1, s);
        lemma_span_at_resume(spans, s - 1, offset);
    }
}

impl Clone for Span {
    fn clone(&self) -> (r: Self)
        ensures
            r.spec_text() == self.spec_text(),
            r.spec_role() == self.spec_role(),
    {
        Span { role: self.role, text: self.text.clone() }
    }
}

/// Inline semantic text. At most 1024 spans and 16 KiB combined UTF-8.
/// A grapheme crossing a span boundary takes the role of its first scalar.
#[derive(Debug)]
pub struct Text {
    spans: Vec<Span>,
}

impl Text {
    /// The spans, as values.
    pub closed spec fn spec_spans(&self) -> Seq<(Option<Role>, Seq<char>)> {
        span_views(self.spans@)
    }

    /// Span count and total size fit their bounds.
    pub open spec fn wf(&self) -> bool {
        self.spec_spans().len() <= 1024 && spans_bytes(self.spec_spans()) <= FIELD
    }

    /// Every text keeps its bounds.
    #[verifier::type_invariant]
    spec fn bounded(self) -> bool {
        self.wf()
    }

    /// Text using its block's default emphasis (terminal-default in paragraphs
    /// and composed prompts). Use `styled` to override, including Role::Default.
    pub fn new(text: &str) -> (r: Result<Self, EditError>)
        ensures
            match r {
                Ok(t) => t.wf() && t.spec_spans().len() == 1 && t.spec_spans()[0].0 is None
                    && span_outcome(text@) == Ok::<Seq<char>, EditError>(t.spec_spans()[0].1),
                Err(e) => span_outcome(text@) == Err::<Seq<char>, EditError>(e),
            },
    {
        let mut span = match Span::new(Role::Default, text) {
            Ok(s) => s,
            Err(e) => return Err(e),
        };
        span.role = None;
        let mut spans = Vec::new();
        spans.push(span);
        proof {
            let v = span_views(spans@);
            assert(v.drop_last() =~= Seq::<(Option<Role>, Seq<char>)>::empty());
            assert(spans_bytes(v.drop_last()) == 0);
            assert(v.last() == v[0]);
            assert(spans_bytes(v) == blen(v[0].1));
        }
        Self::from_spans(spans)
    }

    /// One styled span.
    pub fn styled(role: Role, text: &str) -> (r: Result<Self, EditError>)
        ensures
            match r {
                Ok(t) => t.wf() && t.spec_spans().len() == 1 && t.spec_spans()[0].0 == Some(role)
                    && span_outcome(text@) == Ok::<Seq<char>, EditError>(t.spec_spans()[0].1),
                Err(e) => span_outcome(text@) == Err::<Seq<char>, EditError>(e),
            },
    {
        let span = match Span::new(role, text) {
            Ok(s) => s,
            Err(e) => return Err(e),
        };
        let mut spans = Vec::new();
        spans.push(span);
        proof {
            let v = span_views(spans@);
            assert(v.drop_last() =~= Seq::<(Option<Role>, Seq<char>)>::empty());
            assert(spans_bytes(v.drop_last()) == 0);
            assert(v.last() == v[0]);
            assert(spans_bytes(v) == blen(v[0].1));
        }
        Self::from_spans(spans)
    }

    /// Compose validated inline spans, preserving their text and order.
    pub fn from_spans(spans: Vec<Span>) -> (r: Result<Self, EditError>)
        ensures
            match r {
                Ok(t) => t.wf() && t.spec_spans() == span_views(spans@),
                Err(e) => e == EditError::Capacity && (spans@.len() > 1024 || spans_bytes(span_views(spans@)) > FIELD),
            },
    {
        if spans.len() > 1024 {
            return Err(EditError::Capacity);
        }
        let mut total: usize = 0;
        let mut i: usize = 0;
        while i < spans.len()
            invariant
                i <= spans@.len(),
                total == spans_bytes(span_views(spans@).take(i as int)),
                total <= FIELD,
            decreases spans@.len() - i,
        {
            proof {
                let v = span_views(spans@);
                assert(v.take(i + 1).drop_last() =~= v.take(i as int));
                assert(v.take(i + 1).last() == v[i as int]);
                lemma_spans_bytes_prefix(v, i + 1);
            }
            let n = byte_len(spans[i].text.as_str());
            if n > FIELD - total {
                return Err(EditError::Capacity);
            }
            total = total + n;
            i += 1;
        }
        assert(span_views(spans@).take(i as int) =~= span_views(spans@));
        Ok(Text { spans })
    }

    /// All span texts concatenated.
    fn plain(&self) -> (r: String)
        ensures
            r@ == spans_text(self.spec_spans()),
    {
        let mut out = String::new();
        let mut i: usize = 0;
        while i < self.spans.len()
            invariant
                i <= self.spans@.len(),
                out@ == spans_text(self.spec_spans().take(i as int)),
            decreases self.spans@.len() - i,
        {
            proof {
                assert(self.spec_spans().take(i + 1).drop_last() =~= self.spec_spans().take(i as int));
            }
            out.append(self.spans[i].text.as_str());
            i += 1;
        }
        assert(self.spec_spans().take(i as int) =~= self.spec_spans());
        out
    }

    /// Total bytes.
    fn bytes(&self) -> (r: usize)
        ensures
            r == spans_bytes(self.spec_spans()),
    {
        proof {
            use_type_invariant(self);
        }
        let mut total: usize = 0;
        let mut i: usize = 0;
        while i < self.spans.len()
            invariant
                i <= self.spans@.len(),
                self.wf(),
                total == spans_bytes(self.spec_spans().take(i as int)),
            decreases self.spans@.len() - i,
        {
            proof {
                assert(self.spec_spans().take(i + 1).drop_last() =~= self.spec_spans().take(i as int));
                lemma_spans_bytes_prefix(self.spec_spans(), i + 1);
            }
            total = total + byte_len(self.spans[i].text.as_str());
            i += 1;
        }
        assert(self.spec_spans().take(i as int) =~= self.spec_spans());
        total
    }
}

impl Clone for Text {
    fn clone(&self) -> (r: Self)
        ensures
            r.spec_spans() == self.spec_spans(),
    {
        proof {
            use_type_invariant(self);
        }
        let mut spans: Vec<Span> = Vec::new();
        let mut i: usize = 0;
        while i < self.spans.len()
            invariant
                i <= self.spans@.len(),
                spans@.len() == i,
                span_views(spans@) == self.spec_spans().take(i as int),
            decreases self.spans@.len() - i,
        {
            spans.push(self.spans[i].clone());
            i += 1;
            assert(span_views(spans@) =~= self.spec_spans().take(i as int));
        }
        assert(self.spec_spans().take(i as int) =~= self.spec_spans());
        Text { spans }
    }
}

/// Cell alignment within a table column.
#[derive(Clone, Copy, Debug, PartialEq, Eq, Structural)]
pub enum Alignment {
    /// Start alignment.
    Left,
    /// End alignment, useful for quantities.
    Right,
}

/// Table metadata supplied by the host.
#[derive(Clone, Debug)]
pub struct Column {
    /// Safe column heading.
    pub heading: Text,
    /// Alignment of values (headings remain start-aligned).
    pub alignment: Alignment,
}

/// One list entry with explicit, nonrecursive indentation.
#[derive(Clone, Debug)]
pub struct ListItem {
    /// Zero-based indentation depth, at most eight.
    pub depth: u8,
    /// Safe entry text.
    pub text: Text,
}

/// Generic notice classification. Each has a textual marker even without color.
#[derive(Clone, Copy, Debug, PartialEq, Eq, Structural)]
pub enum Severity {
    /// Informational notice (`[i]`).
    Info,
    /// Positive notice (`[ok]`).
    Success,
    /// Caution (`[!]`).
    Warning,
    /// Failure (`[error]`).
    Error,
}

/// A line-oriented semantic block, never a product-specific record or recursive DOM.
#[derive(Clone, Debug)]
pub enum Block {
    /// Wrapped text; embedded LF is preserved. Wrapping is at grapheme boundaries.
    Paragraph(Text),
    /// Levels 1–3, represented by one to three `#` markers and strong default text.
    Heading {
        /// Hierarchy level.
        level: u8,
        /// Safe heading text.
        text: Text,
    },
    /// An aligned group of label/value facts, stacked on narrow surfaces.
    KeyValue(Vec<(Text, Text)>),
    /// Ordered or unordered entries; depth is explicit and bounded.
    List {
        /// Use numeric markers instead of `-`.
        ordered: bool,
        /// Entries in presentation order.
        items: Vec<ListItem>,
    },
    /// Responsive table; cells may contain LF/TAB and are never silently truncated.
    Table {
        /// Between one and 32 columns.
        columns: Vec<Column>,
        /// At most 4096 rows, each matching the column count.
        rows: Vec<Vec<Text>>,
    },
    /// Safe literal data, preserving spaces and line breaks; wraps with a `| ` gutter.
    Literal(Text),
    /// Notice with a severity-specific textual marker and role.
    Status {
        /// Generic classification, chosen by the host.
        severity: Severity,
        /// Notice content.
        text: Text,
    },
    /// One explicit blank line.
    Spacer,
}

/// The structural rules of one block: heading levels 1–3, bounded lists and
/// fields, list depth at most eight, and tables of 1–32 columns whose rows match.
pub open spec fn block_ok(b: Block) -> bool {
    match b {
        Block::Heading { level, .. } => 1 <= level <= 3,
        Block::KeyValue(fields) => fields@.len() <= 4096,
        Block::List { items, .. } => items@.len() <= 4096 && forall|i: int| 0 <= i < items@.len() ==> (#[trigger] items@[i]).depth <= 8,
        Block::Table { columns, rows } => 1 <= columns@.len() <= 32 && rows@.len() <= 4096
            && forall|i: int| 0 <= i < rows@.len() ==> (#[trigger] rows@[i])@.len() == columns@.len(),
        _ => true,
    }
}

/// Immutable validated document, at most 4096 blocks and 1 MiB of text.
/// Rendering additionally bounds width (2–4096), rows (65,536), and encoded
/// bytes (8 MiB). Excess work returns Capacity before any writer is touched.
#[derive(Clone, Debug)]
pub struct Document {
    blocks: Vec<Block>,
}

/// Budget totals after one more text: its bytes, and its span count (at least one).
pub open spec fn cost_step(st: (int, int), t: Seq<(Option<Role>, Seq<char>)>) -> (int, int) {
    (sat(st.0 + spans_bytes(t)), sat(st.1 + if t.len() > 1 { t.len() as int } else { 1 }))
}

/// Budget totals after texts.
pub open spec fn texts_cost(st: (int, int), ts: Seq<Seq<(Option<Role>, Seq<char>)>>) -> (int, int)
    decreases ts.len(),
{
    if ts.len() == 0 {
        st
    } else {
        cost_step(texts_cost(st, ts.drop_last()), ts.last())
    }
}

/// Cells of table rows, row by row.
pub open spec fn flat_cells(rows: Seq<Vec<Text>>) -> Seq<Seq<(Option<Role>, Seq<char>)>>
    decreases rows.len(),
{
    if rows.len() == 0 {
        Seq::empty()
    } else {
        flat_cells(rows.drop_last()) + cell_views(rows.last()@)
    }
}

/// Labels and values of facts, each label before its value.
pub open spec fn fact_texts(fields: Seq<(Text, Text)>) -> Seq<Seq<(Option<Role>, Seq<char>)>>
    decreases fields.len(),
{
    if fields.len() == 0 {
        Seq::empty()
    } else {
        fact_texts(fields.drop_last()) + seq![fields.last().0.spec_spans(), fields.last().1.spec_spans()]
    }
}

/// The texts of a block in budget order.
pub open spec fn block_texts(b: Block) -> Seq<Seq<(Option<Role>, Seq<char>)>> {
    match b {
        Block::Paragraph(t) => seq![t.spec_spans()],
        Block::Literal(t) => seq![t.spec_spans()],
        Block::Status { text, .. } => seq![text.spec_spans()],
        Block::Heading { text, .. } => seq![text.spec_spans()],
        Block::KeyValue(fields) => fact_texts(fields@),
        Block::List { items, .. } => items@.map_values(|it: ListItem| it.text.spec_spans()),
        Block::Table { columns, rows } => heading_views(columns@) + flat_cells(rows@),
        Block::Spacer => Seq::empty(),
    }
}

/// The structural refusal of a block, if any.
pub open spec fn block_error(b: Block) -> Option<EditError> {
    match b {
        Block::Heading { level, .. } => if 1 <= level <= 3 { None } else { Some(EditError::InvalidRange) },
        Block::KeyValue(fields) => if fields@.len() > 4096 { Some(EditError::Capacity) } else { None },
        Block::List { items, .. } => if items@.len() > 4096 {
            Some(EditError::Capacity)
        } else if exists|i: int| 0 <= i < items@.len() && (#[trigger] items@[i]).depth > 8 {
            Some(EditError::InvalidRange)
        } else {
            None
        },
        Block::Table { columns, rows } => if columns@.len() == 0 {
            Some(EditError::InvalidRange)
        } else if columns@.len() > 32 || rows@.len() > 4096 {
            Some(EditError::Capacity)
        } else if exists|i: int| 0 <= i < rows@.len() && (#[trigger] rows@[i])@.len() != columns@.len() {
            Some(EditError::InvalidRange)
        } else {
            None
        },
        _ => None,
    }
}

/// Whether blocks from the `i`th on pass, given the budget totals so far: each
/// must be well structured, and after each the totals stay within 1 MiB of text
/// and 16384 span units.
pub open spec fn blocks_check(blocks: Seq<Block>, i: int, st: (int, int)) -> Result<(), EditError>
    decreases blocks.len() - i,
{
    if i < 0 || i >= blocks.len() {
        Ok(())
    } else {
        match block_error(blocks[i]) {
            Some(e) => Err(e),
            None => {
                let next = texts_cost(st, block_texts(blocks[i]));
                if next.0 > BUDGET || next.1 > 16384 {
                    Err(EditError::Capacity)
                } else {
                    blocks_check(blocks, i + 1, next)
                }
            },
        }
    }
}

/// Whether blocks make a document, or why not.
pub open spec fn document_check(blocks: Seq<Block>) -> Result<(), EditError> {
    if blocks.len() > 4096 {
        Err(EditError::Capacity)
    } else {
        blocks_check(blocks, 0, (0, 0))
    }
}

/// Bytes and span units that a text contributes to a document's budget.
fn cost(t: &Text, bytes: &mut usize, spans: &mut usize)
    ensures
        (*final(bytes) as int, *final(spans) as int) == cost_step((*old(bytes) as int, *old(spans) as int), t.spec_spans()),
{
    *bytes = bytes.saturating_add(t.bytes());
    let n = if t.spans.len() > 1 { t.spans.len() } else { 1 };
    *spans = spans.saturating_add(n);
}

/// Structural check of one block, then its text cost.
fn block_cost(b: &Block, bytes: &mut usize, spans: &mut usize) -> (r: Result<(), EditError>)
    ensures
        r is Ok <==> block_ok(*b),
        match r {
            Ok(()) => block_error(*b) is None && (*final(bytes) as int, *final(spans) as int)
                == texts_cost((*old(bytes) as int, *old(spans) as int), block_texts(*b)),
            Err(e) => block_error(*b) == Some(e),
        },
{
    let ghost st0 = (*bytes as int, *spans as int);
    match b {
        Block::Paragraph(t) => {
            cost(t, bytes, spans);
            proof {
                let ts = seq![t.spec_spans()];
                assert(ts.drop_last() =~= Seq::<Seq<(Option<Role>, Seq<char>)>>::empty());
                assert(texts_cost(st0, ts.drop_last()) == st0);
                assert(ts.last() == t.spec_spans());
            }

        },
        Block::Literal(t) => {
            cost(t, bytes, spans);
            proof {
                let ts = seq![t.spec_spans()];
                assert(ts.drop_last() =~= Seq::<Seq<(Option<Role>, Seq<char>)>>::empty());
                assert(texts_cost(st0, ts.drop_last()) == st0);
                assert(ts.last() == t.spec_spans());
            }

        },
        Block::Status { text, .. } => {
            cost(text, bytes, spans);
            proof {
                let ts = seq![text.spec_spans()];
                assert(ts.drop_last() =~= Seq::<Seq<(Option<Role>, Seq<char>)>>::empty());
                assert(texts_cost(st0, ts.drop_last()) == st0);
                assert(ts.last() == text.spec_spans());
            }

        },
        Block::Heading { level, text } => {
            if *level < 1 || *level > 3 {
                return Err(EditError::InvalidRange);
            }
            cost(text, bytes, spans);
            proof {
                let ts = seq![text.spec_spans()];
                assert(ts.drop_last() =~= Seq::<Seq<(Option<Role>, Seq<char>)>>::empty());
                assert(texts_cost(st0, ts.drop_last()) == st0);
                assert(ts.last() == text.spec_spans());
            }

        },
        Block::KeyValue(fields) => {
            if fields.len() > 4096 {
                return Err(EditError::Capacity);
            }
            let mut i: usize = 0;
            while i < fields.len()
                invariant
                    i <= fields@.len(),
                    fields@.len() <= 4096,
                    *b == Block::KeyValue(*fields),
                    (*bytes as int, *spans as int) == texts_cost(st0, fact_texts(fields@.take(i as int))),
                decreases fields@.len() - i,
            {
                let ghost pre = fact_texts(fields@.take(i as int));
                let ghost k = fields@[i as int].0.spec_spans();
                let ghost v = fields@[i as int].1.spec_spans();
                cost(&fields[i].0, bytes, spans);
                cost(&fields[i].1, bytes, spans);
                proof {
                    assert(fields@.take(i + 1).drop_last() =~= fields@.take(i as int));
                    let next = fact_texts(fields@.take(i + 1));
                    assert(next =~= pre + seq![k, v]);
                    assert(next.drop_last() =~= pre.push(k));
                    assert(pre.push(k).drop_last() =~= pre);
                    assert(texts_cost(st0, pre.push(k)) == cost_step(texts_cost(st0, pre), k));
                    assert(texts_cost(st0, next) == cost_step(texts_cost(st0, pre.push(k)), v));
                }
                i += 1;
            }
            assert(fields@.take(i as int) =~= fields@);

        },
        Block::List { items, .. } => {
            if items.len() > 4096 {
                return Err(EditError::Capacity);
            }
            let mut i: usize = 0;
            while i < items.len()
                invariant
                    i <= items@.len(),
                    items@.len() <= 4096,
                    (*b matches Block::List { items: it, .. } && it@ == items@),
                    forall|j: int| 0 <= j < i ==> (#[trigger] items@[j]).depth <= 8,
                decreases items@.len() - i,
            {
                if items[i].depth > 8 {
                    return Err(EditError::InvalidRange);
                }
                i += 1;
            }
            let ghost ts = items@.map_values(|it: ListItem| it.text.spec_spans());
            let mut i: usize = 0;
            while i < items.len()
                invariant
                    i <= items@.len(),
                    items@.len() <= 4096,
                    (*b matches Block::List { items: it, .. } && it@ == items@),
                    forall|j: int| 0 <= j < items@.len() ==> (#[trigger] items@[j]).depth <= 8,
                    ts == items@.map_values(|it: ListItem| it.text.spec_spans()),
                    (*bytes as int, *spans as int) == texts_cost(st0, ts.take(i as int)),
                decreases items@.len() - i,
            {
                cost(&items[i].text, bytes, spans);
                proof {
                    assert(ts.take(i + 1).drop_last() =~= ts.take(i as int));
                }
                i += 1;
            }
            assert(ts.take(i as int) =~= ts);

        },
        Block::Table { columns, rows } => {
            if columns.len() == 0 {
                return Err(EditError::InvalidRange);
            }
            if columns.len() > 32 || rows.len() > 4096 {
                return Err(EditError::Capacity);
            }
            let mut i: usize = 0;
            while i < rows.len()
                invariant
                    i <= rows@.len(),
                    1 <= columns@.len() <= 32,
                    rows@.len() <= 4096,
                    *b == (Block::Table { columns: *columns, rows: *rows }),
                    forall|j: int| 0 <= j < i ==> (#[trigger] rows@[j])@.len() == columns@.len(),
                decreases rows@.len() - i,
            {
                if rows[i].len() != columns.len() {
                    return Err(EditError::InvalidRange);
                }
                i += 1;
            }
            let ghost hs = heading_views(columns@);
            let mut i: usize = 0;
            while i < columns.len()
                invariant
                    i <= columns@.len(),
                    1 <= columns@.len() <= 32,
                    rows@.len() <= 4096,
                    *b == (Block::Table { columns: *columns, rows: *rows }),
                    forall|j: int| 0 <= j < rows@.len() ==> (#[trigger] rows@[j])@.len() == columns@.len(),
                    hs == heading_views(columns@),
                    (*bytes as int, *spans as int) == texts_cost(st0, hs.take(i as int)),
                decreases columns@.len() - i,
            {
                cost(&columns[i].heading, bytes, spans);
                proof {
                    assert(hs.take(i + 1).drop_last() =~= hs.take(i as int));
                }
                i += 1;
            }
            assert(hs.take(i as int) =~= hs);
            let mut i: usize = 0;
            assert(hs + flat_cells(rows@.take(0)) =~= hs);
            while i < rows.len()
                invariant
                    i <= rows@.len(),
                    1 <= columns@.len() <= 32,
                    rows@.len() <= 4096,
                    *b == (Block::Table { columns: *columns, rows: *rows }),
                    forall|j: int| 0 <= j < rows@.len() ==> (#[trigger] rows@[j])@.len() == columns@.len(),
                    (*bytes as int, *spans as int) == texts_cost(st0, hs + flat_cells(rows@.take(i as int))),
                decreases rows@.len() - i,
            {
                let ghost before = hs + flat_cells(rows@.take(i as int));
                let ghost row = cell_views(rows@[i as int]@);
                let mut j: usize = 0;
                assert(before + row.take(0) =~= before);
                while j < rows[i].len()
                    invariant
                        i < rows@.len(),
                        j <= rows@[i as int]@.len(),
                        row == cell_views(rows@[i as int]@),
                        (*bytes as int, *spans as int) == texts_cost(st0, before + row.take(j as int)),
                    decreases rows@[i as int]@.len() - j,
                {
                    cost(&rows[i][j], bytes, spans);
                    proof {
                        assert((before + row.take(j + 1)).drop_last() =~= before + row.take(j as int));
                        assert((before + row.take(j + 1)).last() == row[j as int]);
                    }
                    j += 1;
                }
                proof {
                    assert(row.take(j as int) =~= row);
                    assert(rows@.take(i + 1).drop_last() =~= rows@.take(i as int));
                    assert(hs + flat_cells(rows@.take(i + 1)) =~= before + row);
                }
                i += 1;
            }
            assert(rows@.take(i as int) =~= rows@);

        },
        Block::Spacer => {},
    }
    Ok(())
}

/// Rendered rows plus the work they represent.
struct Output {
    lines: Vec<Line>,
    work: usize,
}

/// A run of a laid-out row as a value.
pub enum Piece {
    /// Display text.
    Text(Seq<char>),
    /// A role switch.
    Style(Role),
}

/// The value of one run.
pub open spec fn piece(r: Run) -> Piece {
    match r {
        Run::Text(t) => Piece::Text(t@),
        Run::Style(x) => Piece::Style(x),
    }
}

/// The runs of a row as values.
pub open spec fn pieces(l: Line) -> Seq<Piece> {
    l.0@.map_values(|r: Run| piece(r))
}

/// Rows as values.
pub open spec fn rows_view(ls: Seq<Line>) -> Seq<Seq<Piece>> {
    ls.map_values(|l: Line| pieces(l))
}

/// A row after `put`: unless it already ends with text in `role`, the row gains
/// a reset, the role and an empty text run; then `text` extends the last text run.
pub open spec fn put_row(line: Seq<Piece>, role: Role, text: Seq<char>) -> Seq<Piece> {
    let n = line.len();
    let same = n >= 2 && line[n - 1] is Text && line[n - 2] == Piece::Style(role);
    let base = if same {
        line
    } else {
        line + seq![Piece::Style(Role::Default), Piece::Style(role), Piece::Text(Seq::empty())]
    };
    base.drop_last().push(Piece::Text(base.last()->Text_0 + text))
}

/// `x`, saturated at `usize::MAX`.
pub open spec fn sat(x: int) -> int {
    if x > usize::MAX { usize::MAX as int } else { x }
}

/// Encoded cost of one run: its bytes, or a fixed cost for a role switch.
pub open spec fn piece_cost(p: Piece) -> int {
    match p {
        Piece::Text(t) => blen(t),
        Piece::Style(_) => 32,
    }
}

/// Encoded work of one row: its runs' costs and a row end, saturating.
pub open spec fn row_work(row: Seq<Piece>) -> int
    decreases row.len(),
{
    if row.len() == 0 {
        2
    } else {
        sat(row_work(row.drop_last()) + piece_cost(row.last()))
    }
}

/// Encoded work of rows, saturating.
pub open spec fn rows_work(rows: Seq<Seq<Piece>>) -> int
    decreases rows.len(),
{
    if rows.len() == 0 {
        0
    } else {
        sat(rows_work(rows.drop_last()) + row_work(rows.last()))
    }
}

/// Laid-out rows so far and the work they represent.
pub type Laid = (Seq<Seq<Piece>>, int);

/// `o` with `rows` appended, unless the document would exceed `ROWS` rows or 8 MiB of work.
pub open spec fn appended(o: Laid, rows: Seq<Seq<Piece>>) -> Result<Laid, EditError> {
    if rows.len() > ROWS || o.0.len() > ROWS - rows.len() || sat(o.1 + rows_work(rows)) > 8 * BUDGET {
        Err(EditError::Capacity)
    } else {
        Ok((o.0 + rows, o.1 + rows_work(rows)))
    }
}

/// The laid-out state of an output.
spec fn laid(out: Output) -> Laid {
    (rows_view(out.lines@), out.work as int)
}

/// Encoded work of one row: text bytes, a fixed cost per style, and a row end.
fn line_work(l: &Line) -> (r: usize)
    ensures
        r == row_work(pieces(*l)),
{
    let mut w: usize = 2;
    let mut i: usize = 0;
    while i < l.0.len()
        invariant
            i <= l.0@.len(),
            w == row_work(pieces(*l).take(i as int)),
        decreases l.0@.len() - i,
    {
        let add = match &l.0[i] {
            Run::Text(t) => byte_len(t.as_str()),
            Run::Style(_) => 32,
        };
        proof {
            assert(pieces(*l).take(i + 1).drop_last() =~= pieces(*l).take(i as int));
        }
        w = w.saturating_add(add);
        i += 1;
    }
    assert(pieces(*l).take(i as int) =~= pieces(*l));
    w
}

/// Append rows, refusing more than `ROWS` rows or 8 MiB of work.
fn append(out: &mut Output, rows: Vec<Line>) -> (r: Result<(), EditError>)
    ensures
        match r {
            Ok(()) => appended(laid(*old(out)), rows_view(rows@)) == Ok::<Laid, EditError>(laid(*final(out))),
            Err(e) => appended(laid(*old(out)), rows_view(rows@)) == Err::<Laid, EditError>(e) && *final(out) == *old(out),
        },
{
    let mut work: usize = 0;
    let mut i: usize = 0;
    while i < rows.len()
        invariant
            i <= rows@.len(),
            work == rows_work(rows_view(rows@).take(i as int)),
        decreases rows@.len() - i,
    {
        proof {
            assert(rows_view(rows@).take(i + 1).drop_last() =~= rows_view(rows@).take(i as int));
        }
        work = work.saturating_add(line_work(&rows[i]));
        i += 1;
    }
    assert(rows_view(rows@).take(i as int) =~= rows_view(rows@));
    if rows.len() > ROWS || out.lines.len() > ROWS - rows.len() || out.work.saturating_add(work) > 8 * BUDGET {
        return Err(EditError::Capacity);
    }
    let ghost before = rows_view(out.lines@);
    out.work = out.work + work;
    let mut rows = rows;
    let ghost added = rows_view(rows@);
    out.lines.append(&mut rows);
    assert(rows_view(out.lines@) =~= before + added);
    Ok(())
}

/// A copy of a row.
fn copy_row(l: &Line) -> (r: Line)
    ensures
        pieces(r) == pieces(*l),
{
    let mut runs: Vec<Run> = Vec::new();
    let mut i: usize = 0;
    while i < l.0.len()
        invariant
            i <= l.0@.len(),
            runs@.map_values(|r: Run| piece(r)) == pieces(*l).take(i as int),
        decreases l.0@.len() - i,
    {
        let run = match &l.0[i] {
            Run::Text(t) => Run::Text(t.clone()),
            Run::Style(x) => Run::Style(*x),
        };
        assert(piece(run) == piece(l.0@[i as int]));
        let ghost prev = runs@;
        runs.push(run);
        proof {
            assert(runs@.map_values(|r: Run| piece(r)) =~= prev.map_values(|r: Run| piece(r)).push(piece(run)));
            assert(pieces(*l).take(i + 1) =~= pieces(*l).take(i as int).push(pieces(*l)[i as int]));
        }
        i += 1;
    }
    assert(pieces(*l).take(i as int) =~= pieces(*l));
    Line(runs)
}

/// Append `text` to `line` in `role`, opening a new styled run unless the last
/// run already is text in that role. Emphasis always resets first.
fn put(line: &mut Line, role: Role, text: &str)
    ensures
        pieces(*final(line)) == put_row(pieces(*old(line)), role, text@),
{
    let ghost before = pieces(*line);
    let n = line.0.len();
    let same = n >= 2 && match (&line.0[n - 1], &line.0[n - 2]) {
        (Run::Text(_), Run::Style(r)) => *r == role,
        _ => false,
    };
    if !same {
        line.0.push(Run::Style(Role::Default));
        line.0.push(Run::Style(role));
        line.0.push(Run::Text(String::new()));
        proof {
            assert(pieces(*line) =~= before + seq![Piece::Style(Role::Default), Piece::Style(role), Piece::Text(Seq::empty())]);
        }
    } else {
        proof {
            assert(pieces(*line) =~= before);
        }
    }
    let ghost base = pieces(*line);
    let last = line.0.pop().unwrap();
    let grown = match last {
        Run::Text(mut t) => {
            t.append(text);
            t
        },
        Run::Style(_) => text.to_owned(),
    };
    line.0.push(Run::Text(grown));
    proof {
        assert(pieces(*line) =~= base.drop_last().push(Piece::Text(base.last()->Text_0 + text@)));
    }
}

/// Display cells of a row's text runs, saturating.
pub open spec fn row_cells(row: Seq<Piece>) -> int
    decreases row.len(),
{
    if row.len() == 0 {
        0
    } else {
        sat(row_cells(row.drop_last()) + match row.last() {
            Piece::Text(t) => display_width_of(t) as int,
            Piece::Style(_) => 0,
        })
    }
}

/// Display cells of a row's text runs.
fn width(line: &Line) -> (r: usize)
    ensures
        r == row_cells(pieces(*line)),
{
    let mut w: usize = 0;
    let mut i: usize = 0;
    while i < line.0.len()
        invariant
            i <= line.0@.len(),
            w == row_cells(pieces(*line).take(i as int)),
        decreases line.0@.len() - i,
    {
        proof {
            assert(pieces(*line).take(i + 1).drop_last() =~= pieces(*line).take(i as int));
        }
        if let Run::Text(t) = &line.0[i] {
            w = w.saturating_add(display_width(t.as_str()));
        }
        i += 1;
    }
    assert(pieces(*line).take(i as int) =~= pieces(*line));
    w
}

/// `n` spaces.
pub open spec fn blanks(n: int) -> Seq<char> {
    Seq::new(n as nat, |_i: int| ' ')
}

/// `n` spaces.
fn spaces(n: usize) -> (r: String)
    ensures
        r@ == blanks(n as int),
{
    let mut s = String::new();
    let mut i: usize = 0;
    while i < n
        invariant
            i <= n,
            s@ == blanks(i as int),
        decreases n - i,
    {
        push_char(&mut s, ' ');
        i += 1;
        assert(s@ =~= blanks(i as int));
    }
    s
}

/// Index of the span covering byte `offset` of the concatenated text,
/// advancing `span`/`end` monotonically.
fn advance_span(t: &Text, offset: usize, span: &mut usize, end: &mut usize)
    requires
        t.wf(),
        t.spec_spans().len() > 0,
        *old(span) < t.spec_spans().len(),
        *old(end) == spans_bytes(t.spec_spans().take(*old(span) + 1)),
    ensures
        *final(span) == span_at(t.spec_spans(), *old(span) as int, offset as int),
        *final(end) == spans_bytes(t.spec_spans().take(*final(span) + 1)),
{
    let n = t.spans.len();
    let ghost start = *span;
    while *span < n - 1 && offset >= *end
        invariant
            n == t.spans@.len(),
            n > 0,
            t.wf(),
            *span < n,
            *end == spans_bytes(t.spec_spans().take(*span + 1)),
            span_at(t.spec_spans(), start as int, offset as int) == span_at(t.spec_spans(), *span as int, offset as int),
        decreases t.spans@.len() - *span,
    {
        proof {
            assert(t.spec_spans().take(*span + 2).drop_last() =~= t.spec_spans().take(*span + 1));
            lemma_spans_bytes_prefix(t.spec_spans(), *span + 2);
        }
        *span = *span + 1;
        *end = *end + byte_len(t.spans[*span].text.as_str());
    }
}

/// Rows after placing `part`, `w` cells wide, in `role` at column `col` of the
/// last row: a part wider than the whole row is refused, and a part that does
/// not fit the rest of the row starts a new one.
pub open spec fn place(rows: Seq<Seq<Piece>>, col: int, role: Role, part: Seq<char>, w: int, columns: int)
    -> Result<(Seq<Seq<Piece>>, int), EditError>
{
    if w > columns {
        Err(EditError::InvalidRange)
    } else if w > columns - col {
        Ok((rows.push(put_row(Seq::empty(), role, part)), w))
    } else {
        Ok((rows.update(rows.len() - 1, put_row(rows.last(), role, part)), col + w))
    }
}

/// Rows after placing `reps` single spaces one by one.
pub open spec fn place_spaces(rows: Seq<Seq<Piece>>, col: int, role: Role, reps: nat, columns: int)
    -> Result<(Seq<Seq<Piece>>, int), EditError>
    decreases reps,
{
    if reps == 0 {
        Ok((rows, col))
    } else {
        match place(rows, col, role, seq![' '], 1, columns) {
            Err(e) => Err(e),
            Ok(next) => place_spaces(next.0, next.1, role, (reps - 1) as nat, columns),
        }
    }
}

/// Rows after one grapheme cluster with UTF-8 bytes `cb`: LF opens a row, TAB
/// advances to the next four-cell stop with spaces, anything else is placed whole.
pub open spec fn wrap_cluster(rows: Seq<Seq<Piece>>, col: int, cb: Seq<u8>, role: Role, columns: int)
    -> Result<(Seq<Seq<Piece>>, int), EditError>
{
    if cb == seq![10u8] {
        Ok((rows.push(Seq::empty()), 0))
    } else if cb == seq![9u8] {
        place_spaces(rows, col, role, (4 - col % 4) as nat, columns)
    } else {
        place(rows, col, role, decode_utf8(cb), display_width_of(decode_utf8(cb)) as int, columns)
    }
}

/// Rows after the clusters from the `k`th on of the text with bytes `b` and
/// cluster offsets `starts`; more than `ROWS` rows is a capacity error.
pub open spec fn wrap_from(b: Seq<u8>, starts: Seq<usize>, spans: Seq<(Option<Role>, Seq<char>)>, k: int, rows: Seq<Seq<Piece>>,
    col: int, columns: int, default: Role) -> Result<Seq<Seq<Piece>>, EditError>
    decreases starts.len() - k,
{
    if k < 0 || k >= starts.len() {
        Ok(rows)
    } else {
        let cb = b.subrange(starts[k] as int, segment_end(b, starts, k));
        match wrap_cluster(rows, col, cb, role_at_offset(spans, starts[k] as int, default), columns) {
            Err(e) => Err(e),
            Ok(next) => if next.0.len() > ROWS {
                Err(EditError::Capacity)
            } else {
                wrap_from(b, starts, spans, k + 1, next.0, next.1, columns, default)
            },
        }
    }
}

/// Each row closed by a return to the default role.
pub open spec fn closed_rows(rows: Seq<Seq<Piece>>) -> Seq<Seq<Piece>> {
    rows.map_values(|r: Seq<Piece>| r.push(Piece::Style(Role::Default)))
}

/// Wrapped rows, each closed by a return to the default role.
pub open spec fn close_result(r: Result<Seq<Seq<Piece>>, EditError>) -> Result<Seq<Seq<Piece>>, EditError> {
    match r {
        Ok(rows) => Ok(closed_rows(rows)),
        Err(e) => Err(e),
    }
}

/// The rows of `spans` wrapped at `columns` cells, unstyled text taking `default`.
pub open spec fn wrapped(spans: Seq<(Option<Role>, Seq<char>)>, columns: int, default: Role) -> Result<Seq<Seq<Piece>>, EditError> {
    let flat = spans_text(spans);
    close_result(wrap_from(bytes_of(flat), grapheme_starts_of(flat), spans, 0, seq![Seq::empty()], 0, columns, default))
}

/// Place `part`, `w` cells wide, on the last row.
fn place_part(rows: &mut Vec<Line>, col: &mut usize, role: Role, part: &str, w: usize, columns: usize)
    -> (r: Result<(), EditError>)
    requires
        old(rows)@.len() >= 1,
        *old(col) <= columns,
    ensures
        final(rows)@.len() >= 1,
        *final(col) <= columns,
        match r {
            Ok(()) => place(rows_view(old(rows)@), *old(col) as int, role, part@, w as int, columns as int)
                == Ok::<(Seq<Seq<Piece>>, int), EditError>((rows_view(final(rows)@), *final(col) as int)),
            Err(e) => place(rows_view(old(rows)@), *old(col) as int, role, part@, w as int, columns as int)
                == Err::<(Seq<Seq<Piece>>, int), EditError>(e) && e == EditError::InvalidRange,
        },
{
    if w > columns {
        return Err(EditError::InvalidRange);
    }
    let ghost before = rows_view(rows@);
    if w > columns - *col {
        rows.push(Line(Vec::new()));
        *col = 0;
    }
    let mut last = rows.pop().unwrap();
    put(&mut last, role, part);
    rows.push(last);
    *col = *col + w;
    proof {
        if w > columns - *old(col) {
            assert(rows_view(rows@) =~= before.push(put_row(Seq::empty(), role, part@)));
        } else {
            assert(rows_view(rows@) =~= before.update(before.len() - 1, put_row(before.last(), role, part@)));
        }
    }
    Ok(())
}

/// Place one grapheme cluster on the rows.
fn wrap_step(rows: &mut Vec<Line>, col: &mut usize, gs: &str, role: Role, columns: usize) -> (r: Result<(), EditError>)
    requires
        old(rows)@.len() >= 1,
        *old(col) <= columns,
    ensures
        final(rows)@.len() >= 1,
        *final(col) <= columns,
        match r {
            Ok(()) => wrap_cluster(rows_view(old(rows)@), *old(col) as int, gs.spec_bytes(), role, columns as int)
                == Ok::<(Seq<Seq<Piece>>, int), EditError>((rows_view(final(rows)@), *final(col) as int)),
            Err(e) => wrap_cluster(rows_view(old(rows)@), *old(col) as int, gs.spec_bytes(), role, columns as int)
                == Err::<(Seq<Seq<Piece>>, int), EditError>(e) && e == EditError::InvalidRange,
        },
{
    let ghost before = rows_view(rows@);
    let ghost goal = wrap_cluster(before, *col as int, gs.spec_bytes(), role, columns as int);
    if crate::editor::is_single_byte_str(gs, 10) {
        rows.push(Line(Vec::new()));
        *col = 0;
        proof {
            assert(rows_view(rows@) =~~= before.push(Seq::empty()));
        }
        return Ok(());
    }
    if crate::editor::is_single_byte_str(gs, 9) {
        let reps: usize = 4 - *col % 4;
        let mut r: usize = 0;
        while r < reps
            invariant
                rows@.len() >= 1,
                *col <= columns,
                r <= reps,
                goal == place_spaces(rows_view(rows@), *col as int, role, (reps - r) as nat, columns as int),
                goal == wrap_cluster(rows_view(old(rows)@), *old(col) as int, gs.spec_bytes(), role, columns as int),
            decreases reps - r,
        {
            proof {
                reveal_strlit(" ");
                assert(" "@ =~= seq![' ']);
            }
            match place_part(rows, col, role, " ", 1, columns) {
                Ok(()) => {},
                Err(e) => return Err(e),
            }
            r += 1;
        }
        return Ok(());
    }
    let w = display_width(gs);
    place_part(rows, col, role, gs, w, columns)
}

/// Wrap text into rows of at most `columns` cells at grapheme boundaries.
/// Tabs expand to four-cell stops, LF starts a row, and a grapheme wider than
/// the row is refused.
fn wrap(text: &Text, columns: usize, default: Role) -> (r: Result<Vec<Line>, EditError>)
    requires
        columns <= 4096,
    ensures
        match r {
            Ok(rows) => wrapped(text.spec_spans(), columns as int, default) == Ok::<Seq<Seq<Piece>>, EditError>(rows_view(rows@)),
            Err(e) => wrapped(text.spec_spans(), columns as int, default) == Err::<Seq<Seq<Piece>>, EditError>(e)
                && (e == EditError::Capacity || e == EditError::InvalidRange),
        },
{
    proof {
        use_type_invariant(text);
    }
    let flat = text.plain();
    let f = flat.as_str();
    let starts = grapheme_starts(f);
    let n = byte_len(f);
    let ghost b = f.spec_bytes();
    let ghost spans = text.spec_spans();
    assert(b == bytes_of(spans_text(spans)));
    proof {
        reveal_strlit(" ");
    }
    let mut rows: Vec<Line> = Vec::new();
    rows.push(Line(Vec::new()));
    let mut col: usize = 0;
    let mut span: usize = 0;
    let mut end: usize = if text.spans.len() > 0 { byte_len(text.spans[0].text.as_str()) } else { 0 };
    proof {
        if spans.len() > 0 {
            assert(spans.take(1).drop_last() =~= Seq::<(Option<Role>, Seq<char>)>::empty());
            assert(spans_bytes(spans.take(1).drop_last()) == 0);
            assert(spans.take(1).last() == spans[0]);
        }
        assert(rows_view(rows@) =~~= seq![Seq::<Piece>::empty()]);
    }
    let ghost goal = wrap_from(b, starts@, spans, 0, seq![Seq::<Piece>::empty()], 0, columns as int, default);
    let mut k: usize = 0;
    while k < starts.len()
        invariant
            text.wf(),
            spans == text.spec_spans(),
            b == f.spec_bytes(),
            b == bytes_of(spans_text(spans)),
            f@ == spans_text(spans),
            wrapped(spans, columns as int, default) == close_result(goal),
            starts@ == grapheme_starts_of(f@),
            rows@.len() >= 1,
            col <= columns,
            columns <= 4096,
            k <= starts@.len(),
            partition_offsets(b, starts@),
            n == b.len(),
            spans.len() > 0 ==> span < spans.len() && end == spans_bytes(spans.take(span + 1))
                && (span == 0 || (k > 0 && starts@[k - 1] as int >= spans_bytes(spans.take(span as int)))),
            goal == wrap_from(b, starts@, spans, k as int, rows_view(rows@), col as int, columns as int, default),
        decreases starts@.len() - k,
    {
        let offset = starts[k];
        let e = if k < starts.len() - 1 { starts[k + 1] } else { n };
        proof {
            is_char_boundary_start_end_of_seq(b);
            if k < starts@.len() - 1 {
                assert(starts@[k as int] < starts@[k + 1]);
            }
            if k > 0 {
                assert(starts@[k - 1] < starts@[k as int]);
            }
        }
        let role = if text.spans.len() > 0 {
            proof {
                lemma_span_at_resume(spans, span as int, offset as int);
            }
            let ghost prev = span;
            advance_span(text, offset, &mut span, &mut end);
            proof {
                lemma_span_at_arrival(spans, prev as int, offset as int);
            }
            match text.spans[span].role {
                Some(r) => r,
                None => default,
            }
        } else {
            default
        };
        assert(role == role_at_offset(spans, offset as int, default));
        let g = substring(f, offset, e);
        let gs = g.as_str();
        let ghost cb = b.subrange(offset as int, segment_end(b, starts@, k as int));
        assert(cb == gs.spec_bytes());
        let ghost before = rows_view(rows@);
        let ghost before_col = col as int;
        assert(goal == wrap_from(b, starts@, spans, k as int, before, before_col, columns as int, default));
        match wrap_step(&mut rows, &mut col, gs, role, columns) {
            Ok(()) => {},
            Err(e) => return Err(e),
        }

        if rows.len() > ROWS {
            return Err(EditError::Capacity);
        }
        k += 1;
    }
    Ok(close_rows(rows))
}

/// Close every row with a return to the default role.
fn close_rows(rows: Vec<Line>) -> (r: Vec<Line>)
    ensures
        rows_view(r@) == closed_rows(rows_view(rows@)),
{
    let ghost orig = rows_view(rows@);
    let ghost all = closed_rows(orig);
    let ghost total = rows@.len();
    assert forall|j: int| 0 <= j < rows@.len() implies #[trigger] pieces(rows@[j]) == all[j].drop_last() by {
        assert(all[j].drop_last() =~= pieces(rows@[j]));
    }
    let mut rows = rows;
    let mut rev: Vec<Line> = Vec::new();
    while rows.len() > 0
        invariant
            rows@.len() + rev@.len() == total,
            all.len() == total,
            forall|j: int| 0 <= j < rows@.len() ==> #[trigger] pieces(rows@[j]) == all[j].drop_last(),
            forall|j: int| 0 <= j < rev@.len() ==> #[trigger] pieces(rev@[j]) == all[total - 1 - j],
            all == closed_rows(orig),
            orig.len() == total,
        decreases rows@.len(),
    {
        let mut line = rows.pop().unwrap();
        let ghost before = pieces(line);
        line.0.push(Run::Style(Role::Default));
        proof {
            assert(pieces(line) =~= before.push(Piece::Style(Role::Default)));
            assert(all[rows@.len() as int] == orig[rows@.len() as int].push(Piece::Style(Role::Default)));
            assert(all[rows@.len() as int].drop_last().push(Piece::Style(Role::Default)) =~= all[rows@.len() as int]);
        }
        rev.push(line);
    }
    let mut done: Vec<Line> = Vec::new();
    while rev.len() > 0
        invariant
            done@.len() + rev@.len() == total,
            all.len() == total,
            forall|j: int| 0 <= j < rev@.len() ==> #[trigger] pieces(rev@[j]) == all[total - 1 - j],
            forall|j: int| 0 <= j < done@.len() ==> #[trigger] pieces(done@[j]) == all[j],
        decreases rev@.len(),
    {
        let line = rev.pop().unwrap();
        done.push(line);
    }
    assert(rows_view(done@) =~= all);
    done
}

/// Rows of a marked entry: the marker before the first row, and as many blank
/// cells as the marker is wide before each later row.
pub open spec fn marked_rows(rows: Seq<Seq<Piece>>, prefix: Seq<char>, indent: int, role: Role) -> Seq<Seq<Piece>> {
    Seq::new(
        rows.len(),
        |i: int|
            if i == 0 {
                put_row(Seq::empty(), role, prefix) + rows[i]
            } else {
                put_row(put_row(Seq::empty(), role, Seq::empty()), Role::Default, blanks(indent)) + rows[i]
            },
    )
}

/// `o` after a marked entry: `text` wrapped beside `prefix` in `role`, or, when
/// the marker leaves under two cells, the trimmed marker and then the text on
/// rows of their own.
#[verifier::opaque]
pub open spec fn prefixed_out(o: Laid, text: Seq<(Option<Role>, Seq<char>)>, prefix: Seq<char>, columns: int, role: Role)
    -> Result<Laid, EditError>
{
    let indent = display_width_of(prefix) as int;
    if indent >= columns || columns - indent < 2 {
        match span_outcome(trimmed_spaces(prefix)) {
            Err(e) => Err(e),
            Ok(m) => match wrapped(seq![(Some(role), m)], columns, role) {
                Err(e) => Err(e),
                Ok(rows) => match appended(o, rows) {
                    Err(e) => Err(e),
                    Ok(o2) => match wrapped(text, columns, Role::Default) {
                        Err(e) => Err(e),
                        Ok(rows2) => appended(o2, rows2),
                    },
                },
            },
        }
    } else {
        match wrapped(text, columns - indent, role) {
            Err(e) => Err(e),
            Ok(rows) => appended(o, marked_rows(rows, prefix, indent, role)),
        }
    }
}

/// Wrap `text` after a marker, indenting continuation rows by the marker's
/// width; when the marker leaves under two cells, the marker takes a row of its own.
fn prefixed(out: &mut Output, text: &Text, prefix: &str, columns: usize, role: Role) -> (r: Result<(), EditError>)
    requires
        columns <= 4096,
    ensures
        match r {
            Ok(()) => prefixed_out(laid(*old(out)), text.spec_spans(), prefix@, columns as int, role)
                == Ok::<Laid, EditError>(laid(*final(out))),
            Err(e) => prefixed_out(laid(*old(out)), text.spec_spans(), prefix@, columns as int, role)
                == Err::<Laid, EditError>(e),
        },
{
    proof {
        reveal(prefixed_out);
    }
    let indent = display_width(prefix);
    if indent >= columns || columns - indent < 2 {
        let marker = match Text::styled(role, trim_end_spaces(prefix).as_str()) {
            Ok(t) => t,
            Err(e) => return Err(e),
        };
        proof {
            assert(marker.spec_spans() =~= seq![(Some(role), marker.spec_spans()[0].1)]);
        }
        let rows = match wrap(&marker, columns, role) {
            Ok(r) => r,
            Err(e) => return Err(e),
        };
        match append(out, rows) {
            Ok(()) => {},
            Err(e) => return Err(e),
        }
        let rows = match wrap(text, columns, Role::Default) {
            Ok(r) => r,
            Err(e) => return Err(e),
        };
        return append(out, rows);
    }
    let rows = match wrap(text, columns - indent, role) {
        Ok(r) => r,
        Err(e) => return Err(e),
    };
    let ghost wrapped_rows = rows_view(rows@);
    let pad = spaces(indent);
    let mut result: Vec<Line> = Vec::new();
    let mut i: usize = 0;
    proof {
        reveal_strlit("");
        assert(""@ =~= Seq::<char>::empty());
    }
    while i < rows.len()
        invariant
            i <= rows@.len(),
            wrapped_rows == rows_view(rows@),
            pad@ == blanks(indent as int),
            ""@ == Seq::<char>::empty(),
            rows_view(result@) == marked_rows(wrapped_rows, prefix@, indent as int, role).take(i as int),
        decreases rows@.len() - i,
    {
        let mut line = Line(Vec::new());
        assert(pieces(line) =~= Seq::<Piece>::empty());
        put(&mut line, role, if i == 0 { prefix } else { "" });
        if i > 0 {
            put(&mut line, Role::Default, pad.as_str());
        }
        let ghost head = pieces(line);
        let mut body = copy_row(&rows[i]).0;
        line.0.append(&mut body);
        proof {
            assert(pieces(line) =~= head + wrapped_rows[i as int]);
            assert(pieces(line) == marked_rows(wrapped_rows, prefix@, indent as int, role)[i as int]);
        }
        let ghost prev = rows_view(result@);
        result.push(line);
        i += 1;
        assert(rows_view(result@) =~= prev.push(pieces(line)));
        assert(rows_view(result@) =~= marked_rows(wrapped_rows, prefix@, indent as int, role).take(i as int));
    }
    assert(rows_view(result@) =~= marked_rows(wrapped_rows, prefix@, indent as int, role));
    append(out, result)
}

/// `s` without trailing spaces.
pub open spec fn trimmed_spaces(s: Seq<char>) -> Seq<char>
    decreases s.len(),
{
    if s.len() > 0 && s.last() == ' ' {
        trimmed_spaces(s.drop_last())
    } else {
        s
    }
}

/// `s` without trailing spaces.
fn trim_end_spaces(s: &str) -> (r: String)
    ensures
        r@ == trimmed_spaces(s@),
{
    let n = s.unicode_len();
    let mut k: usize = n;
    assert(s@.take(n as int) =~= s@);
    while k > 0 && s.get_char(k - 1) == ' '
        invariant
            k <= s@.len(),
            n == s@.len(),
            trimmed_spaces(s@) == trimmed_spaces(s@.take(k as int)),
        decreases k,
    {
        assert(s@.take(k as int).drop_last() =~= s@.take(k - 1));
        k -= 1;
    }
    proof {
        if k > 0 {
            assert(s@.take(k as int).last() == s@[k - 1]);
        }
    }
    let mut out = String::new();
    let mut i: usize = 0;
    while i < k
        invariant
            i <= k,
            k <= s@.len(),
            out@ == s@.take(i as int),
        decreases k - i,
    {
        push_char(&mut out, s.get_char(i));
        i += 1;
        assert(out@ =~= s@.take(i as int));
    }
    proof {
        assert(s@.take(n as int) =~= s@);
    }
    out
}

/// The widest finished logical line of `p` and the line in progress, tabs
/// counted as four spaces.
pub open spec fn natural_state(p: Seq<char>) -> (int, Seq<char>)
    decreases p.len(),
{
    if p.len() == 0 {
        (0, Seq::empty())
    } else {
        let prev = natural_state(p.drop_last());
        let c = p.last();
        if c == '\n' {
            (if display_width_of(prev.1) > prev.0 { display_width_of(prev.1) as int } else { prev.0 }, Seq::empty())
        } else if c == '\t' {
            (prev.0, prev.1 + blanks(4))
        } else {
            (prev.0, prev.1.push(c))
        }
    }
}

/// Cells of the widest logical line of `text`, tabs counted as four cells.
pub open spec fn natural_width(text: Seq<char>) -> int {
    let st = natural_state(text);
    if display_width_of(st.1) > st.0 { display_width_of(st.1) as int } else { st.0 }
}

/// Widest logical line of a text, with tabs counted as four cells.
fn natural(text: &Text) -> (r: usize)
    ensures
        r == natural_width(spans_text(text.spec_spans())),
{
    let flat = text.plain();
    let f = flat.as_str();
    let mut widest: usize = 0;
    let mut segment = String::new();
    proof {
        reveal_strlit("    ");
        assert("    "@ =~= blanks(4));
    }
    for c in it: f.chars()
        invariant
            it.seq() == f@,
            it.index() <= f@.len(),
            "    "@ == blanks(4),
            natural_state(f@.take(it.index() as int)) == (widest as int, segment@),
    {
        let ghost i = it.index();
        proof {
            assert(f@.take(i + 1).drop_last() =~= f@.take(i as int));
            assert(f@.take(i + 1).last() == c);
        }
        if c == '\n' {
            let w = display_width(segment.as_str());
            if w > widest {
                widest = w;
            }
            segment = String::new();
        } else if c == '\t' {
            segment.append("    ");
        } else {
            push_char(&mut segment, c);
        }
    }
    assert(f@.take(f@.len() as int) =~= f@);
    let w = display_width(segment.as_str());
    if w > widest {
        widest = w;
    }
    widest
}

/// Texts as span values.
pub open spec fn text_views(ts: Seq<&Text>) -> Seq<Seq<(Option<Role>, Seq<char>)>> {
    ts.map_values(|t: &Text| t.spec_spans())
}

/// The widest natural width of a list of texts.
pub open spec fn widest(texts: Seq<Seq<(Option<Role>, Seq<char>)>>) -> int
    decreases texts.len(),
{
    if texts.len() == 0 {
        0
    } else {
        let w = natural_width(spans_text(texts.last()));
        if w > widest(texts.drop_last()) { w } else { widest(texts.drop_last()) }
    }
}

/// `o` after stacked facts from the `i`th on: each label on rows of its own,
/// its value indented under it.
pub open spec fn stacked_from(o: Laid, keys: Seq<Seq<(Option<Role>, Seq<char>)>>, values: Seq<Seq<(Option<Role>, Seq<char>)>>,
    i: int, columns: int) -> Result<Laid, EditError>
    decreases keys.len() - i,
{
    if i < 0 || i >= keys.len() {
        Ok(o)
    } else {
        match wrapped(keys[i], columns, Role::Strong) {
            Err(e) => Err(e),
            Ok(rows) => match appended(o, rows) {
                Err(e) => Err(e),
                Ok(o2) => match prefixed_out(o2, values[i], "  "@, columns, Role::Default) {
                    Err(e) => Err(e),
                    Ok(o3) => stacked_from(o3, keys, values, i + 1, columns),
                },
            },
        }
    }
}

/// Row `r` of an aligned fact: the label row padded to `label` plus two cells,
/// then the value row.
pub open spec fn fact_row(left: Seq<Seq<Piece>>, right: Seq<Seq<Piece>>, r: int, label: int) -> Seq<Piece> {
    let l = if r < left.len() { left[r] } else { Seq::empty() };
    let used = row_cells(l);
    let pad = if label + 2 > used { label + 2 - used } else { 0 };
    put_row(l, Role::Default, blanks(pad)) + if r < right.len() { right[r] } else { Seq::empty() }
}

/// `o` after the rows of one aligned fact from row `r` on.
pub open spec fn fact_rows_from(o: Laid, left: Seq<Seq<Piece>>, right: Seq<Seq<Piece>>, r: int, count: int, label: int)
    -> Result<Laid, EditError>
    decreases count - r,
{
    if r >= count {
        Ok(o)
    } else {
        match appended(o, seq![fact_row(left, right, r, label)]) {
            Err(e) => Err(e),
            Ok(o2) => fact_rows_from(o2, left, right, r + 1, count, label),
        }
    }
}

/// `o` after aligned facts from the `i`th on, labels `label` cells wide.
pub open spec fn aligned_from(o: Laid, keys: Seq<Seq<(Option<Role>, Seq<char>)>>, values: Seq<Seq<(Option<Role>, Seq<char>)>>,
    i: int, label: int, columns: int) -> Result<Laid, EditError>
    decreases keys.len() - i,
{
    if i < 0 || i >= keys.len() {
        Ok(o)
    } else {
        match wrapped(keys[i], if label > 2 { label } else { 2 }, Role::Strong) {
            Err(e) => Err(e),
            Ok(left) => match wrapped(values[i], columns - label - 2, Role::Default) {
                Err(e) => Err(e),
                Ok(right) => match fact_rows_from(o, left, right, 0,
                    if left.len() > right.len() { left.len() as int } else { right.len() as int }, label) {
                    Err(e) => Err(e),
                    Ok(o2) => aligned_from(o2, keys, values, i + 1, label, columns),
                },
            },
        }
    }
}

/// `o` after label/value facts: aligned when the widest label leaves room, else stacked.
pub open spec fn facts_out(o: Laid, keys: Seq<Seq<(Option<Role>, Seq<char>)>>, values: Seq<Seq<(Option<Role>, Seq<char>)>>,
    columns: int) -> Result<Laid, EditError>
{
    let label = widest(keys);
    if label > columns || columns - label < 6 || label > columns / 2 {
        stacked_from(o, keys, values, 0, columns)
    } else {
        aligned_from(o, keys, values, 0, label, columns)
    }
}

/// Append the rows of one aligned fact.
fn fact_rows(out: &mut Output, left: &Vec<Line>, right: &Vec<Line>, label: usize) -> (r: Result<(), EditError>)
    requires
        label <= 4096,
    ensures
        match r {
            Ok(()) => fact_rows_from(laid(*old(out)), rows_view(left@), rows_view(right@), 0,
                if left@.len() > right@.len() { left@.len() as int } else { right@.len() as int }, label as int)
                == Ok::<Laid, EditError>(laid(*final(out))),
            Err(e) => fact_rows_from(laid(*old(out)), rows_view(left@), rows_view(right@), 0,
                if left@.len() > right@.len() { left@.len() as int } else { right@.len() as int }, label as int)
                == Err::<Laid, EditError>(e),
        },
{
    let count = if left.len() > right.len() { left.len() } else { right.len() };
    let ghost lv = rows_view(left@);
    let ghost rv = rows_view(right@);
    let ghost goal = fact_rows_from(laid(*out), lv, rv, 0, count as int, label as int);
    let mut r: usize = 0;
    while r < count
        invariant
            r <= count,
            label <= 4096,
            lv == rows_view(left@),
            rv == rows_view(right@),
            goal == fact_rows_from(laid(*out), lv, rv, r as int, count as int, label as int),
            goal == fact_rows_from(laid(*old(out)), rows_view(left@), rows_view(right@), 0,
                if left@.len() > right@.len() { left@.len() as int } else { right@.len() as int }, label as int),
        decreases count - r,
    {
        let mut line = Line(Vec::new());
        if r < left.len() {
            line = copy_row(&left[r]);
        }
        assert(pieces(line) =~= if (r as int) < lv.len() { lv[r as int] } else { Seq::<Piece>::empty() });
        let ghost l = pieces(line);
        let used = width(&line);
        let pad = if label + 2 > used { label + 2 - used } else { 0 };
        put(&mut line, Role::Default, spaces(pad).as_str());
        if r < right.len() {
            let mut runs = copy_row(&right[r]).0;
            let ghost head = pieces(line);
            line.0.append(&mut runs);
            assert(pieces(line) =~= head + rv[r as int]);
        } else {
            assert(pieces(line) =~= pieces(line) + Seq::<Piece>::empty());
        }
        assert(pieces(line) == fact_row(lv, rv, r as int, label as int));
        let mut one = Vec::new();
        one.push(line);
        assert(rows_view(one@) =~= seq![fact_row(lv, rv, r as int, label as int)]);
        match append(out, one) {
            Ok(()) => {},
            Err(e) => return Err(e),
        }
        r += 1;
    }
    Ok(())
}

/// Label/value facts: aligned in two columns when the widest label leaves room,
/// otherwise stacked with values indented under labels.
fn facts(out: &mut Output, keys: &[&Text], values: &[&Text], columns: usize) -> (r: Result<(), EditError>)
    requires
        keys@.len() == values@.len(),
        columns <= 4096,
    ensures
        match r {
            Ok(()) => facts_out(laid(*old(out)), text_views(keys@), text_views(values@), columns as int)
                == Ok::<Laid, EditError>(laid(*final(out))),
            Err(e) => facts_out(laid(*old(out)), text_views(keys@), text_views(values@), columns as int)
                == Err::<Laid, EditError>(e),
        },
{
    let ghost ks = text_views(keys@);
    let ghost vs = text_views(values@);
    let mut label: usize = 0;
    let mut i: usize = 0;
    while i < keys.len()
        invariant
            i <= keys@.len(),
            ks == text_views(keys@),
            label == widest(ks.take(i as int)),
        decreases keys@.len() - i,
    {
        proof {
            assert(ks.take(i + 1).drop_last() =~= ks.take(i as int));
        }
        let w = natural(keys[i]);
        if w > label {
            label = w;
        }
        i += 1;
    }
    assert(ks.take(i as int) =~= ks);
    let ghost goal = facts_out(laid(*out), ks, vs, columns as int);
    proof {
        reveal_strlit("  ");
    }
    if label > columns || columns - label < 6 || label > columns / 2 {
        let mut i: usize = 0;
        while i < keys.len()
            invariant
                i <= keys@.len(),
                keys@.len() == values@.len(),
                columns <= 4096,
                ks == text_views(keys@),
                vs == text_views(values@),
                "  "@ == seq![' ', ' '],
                goal == stacked_from(laid(*out), ks, vs, i as int, columns as int),
                goal == facts_out(laid(*old(out)), ks, vs, columns as int),
            decreases keys@.len() - i,
        {
            let rows = match wrap(keys[i], columns, Role::Strong) {
                Ok(r) => r,
                Err(e) => return Err(e),
            };
            match append(out, rows) {
                Ok(()) => {},
                Err(e) => return Err(e),
            }
            match prefixed(out, values[i], "  ", columns, Role::Default) {
                Ok(()) => {},
                Err(e) => return Err(e),
            }
            i += 1;
        }
        return Ok(());
    }
    let left_width = if label > 2 { label } else { 2 };
    let mut i: usize = 0;
    while i < keys.len()
        invariant
            i <= keys@.len(),
            keys@.len() == values@.len(),
            columns <= 4096,
            label + 6 <= columns,
            left_width == if label > 2 { label } else { 2 },
            ks == text_views(keys@),
            vs == text_views(values@),
            goal == aligned_from(laid(*out), ks, vs, i as int, label as int, columns as int),
            goal == facts_out(laid(*old(out)), ks, vs, columns as int),
        decreases keys@.len() - i,
    {
        let left = match wrap(keys[i], left_width, Role::Strong) {
            Ok(r) => r,
            Err(e) => return Err(e),
        };
        let right = match wrap(values[i], columns - label - 2, Role::Default) {
            Ok(r) => r,
            Err(e) => return Err(e),
        };
        match fact_rows(out, &left, &right, label) {
            Ok(()) => {},
            Err(e) => return Err(e),
        }
        i += 1;
    }
    Ok(())
}

/// Sum of column widths, saturating.
pub open spec fn widths_total(ws: Seq<usize>) -> int
    decreases ws.len(),
{
    if ws.len() == 0 {
        0
    } else {
        sat(widths_total(ws.drop_last()) + ws.last())
    }
}

/// Sum of column widths.
fn width_sum(widths: &Vec<usize>) -> (r: usize)
    ensures
        r == widths_total(widths@),
{
    let mut s: usize = 0;
    let mut i: usize = 0;
    while i < widths.len()
        invariant
            i <= widths@.len(),
            s == widths_total(widths@.take(i as int)),
        decreases widths@.len() - i,
    {
        proof {
            assert(widths@.take(i + 1).drop_last() =~= widths@.take(i as int));
        }
        s = s.saturating_add(widths[i]);
        i += 1;
    }
    assert(widths@.take(i as int) =~= widths@);
    s
}

/// Headings as span values.
pub open spec fn heading_views(cols: Seq<Column>) -> Seq<Seq<(Option<Role>, Seq<char>)>> {
    cols.map_values(|c: Column| c.heading.spec_spans())
}

/// Cells of a row as span values.
pub open spec fn cell_views(row: Seq<Text>) -> Seq<Seq<(Option<Role>, Seq<char>)>> {
    row.map_values(|t: Text| t.spec_spans())
}

/// `a` capped at `b`.
pub open spec fn capped(a: int, b: int) -> int {
    if a < b { a } else { b }
}

/// Width of column `c` over the heading and the first `r` rows: each at least
/// four cells for the heading, at most `columns`, and the widest value.
pub open spec fn column_width(cols: Seq<Column>, rows: Seq<Vec<Text>>, c: int, r: int, columns: int) -> int
    decreases r,
{
    if r <= 0 {
        let h = natural_width(spans_text(cols[c].heading.spec_spans()));
        capped(if h > 4 { h } else { 4 }, columns)
    } else {
        let prev = column_width(cols, rows, c, r - 1, columns);
        let w = capped(natural_width(spans_text(rows[r - 1]@[c].spec_spans())), columns);
        if w > prev { w } else { prev }
    }
}

/// Index of a widest column among the first `k`, the last one on ties.
pub open spec fn widest_column(ws: Seq<usize>, k: int) -> int
    decreases k,
{
    if k <= 1 {
        0
    } else {
        let b = widest_column(ws, k - 1);
        if ws[k - 1] >= ws[b] { k - 1 } else { b }
    }
}

/// Column widths after narrowing a widest column by one cell at a time, at most
/// `budget` times, until they fit `room`.
pub open spec fn shrunk(ws: Seq<usize>, room: int, budget: nat) -> Seq<usize>
    decreases budget,
{
    if budget == 0 || widths_total(ws) <= room {
        ws
    } else {
        let b = widest_column(ws, ws.len() as int);
        if ws[b] == 0 {
            ws
        } else {
            shrunk(ws.update(b, (ws[b] - 1) as usize), room, (budget - 1) as nat)
        }
    }
}

/// The cells of one table row wrapped to their column widths, from cell `c` on;
/// the first refusal wins.
pub open spec fn wrap_cells(texts: Seq<Seq<(Option<Role>, Seq<char>)>>, ws: Seq<usize>, role: Role, c: int)
    -> Result<Seq<Seq<Seq<Piece>>>, EditError>
    decreases texts.len() - c,
{
    if c < 0 || c >= texts.len() {
        Ok(Seq::empty())
    } else {
        match wrapped(texts[c], ws[c] as int, role) {
            Err(e) => Err(e),
            Ok(rows) => match wrap_cells(texts, ws, role, c + 1) {
                Err(e) => Err(e),
                Ok(rest) => Ok(seq![rows] + rest),
            },
        }
    }
}

/// Rows needed by the tallest cell among the first `c`.
pub open spec fn cells_height(cells: Seq<Seq<Seq<Piece>>>, c: int) -> int
    decreases c,
{
    if c <= 0 {
        0
    } else {
        let h = cells_height(cells, c - 1);
        if cells[c - 1].len() > h { cells[c - 1].len() as int } else { h }
    }
}

/// Row `r` of a table row from cell `c` on, appended to `line`: each value
/// padded to its column (right-aligned values padded first), columns two cells apart.
pub open spec fn table_line(cols: Seq<Column>, cells: Seq<Seq<Seq<Piece>>>, ws: Seq<usize>, index: int, r: int, c: int,
    line: Seq<Piece>) -> Seq<Piece>
    decreases cols.len() - c,
{
    if c < 0 || c >= cols.len() {
        line
    } else {
        let n = cols.len();
        let has = r < cells[c].len();
        let used = if has { row_cells(cells[c][r]) } else { 0 };
        let padding = if ws[c] > used { ws[c] - used } else { 0 };
        let right = index > 0 && cols[c].alignment == Alignment::Right;
        let l1 = if right { put_row(line, Role::Default, blanks(padding)) } else { line };
        let l2 = if has { l1 + cells[c][r] } else { l1 };
        let l3 = if !right && c + 1 < n { put_row(l2, Role::Default, blanks(padding)) } else { l2 };
        let l4 = if c + 1 < n { put_row(l3, Role::Default, seq![' ', ' ']) } else { l3 };
        table_line(cols, cells, ws, index, r, c + 1, l4)
    }
}

/// `o` after the rows of one table row from row `r` on.
pub open spec fn table_lines_from(o: Laid, cols: Seq<Column>, cells: Seq<Seq<Seq<Piece>>>, ws: Seq<usize>, index: int,
    r: int, height: int) -> Result<Laid, EditError>
    decreases height - r,
{
    if r >= height {
        Ok(o)
    } else {
        match appended(o, seq![table_line(cols, cells, ws, index, r, 0, Seq::empty())]) {
            Err(e) => Err(e),
            Ok(o2) => table_lines_from(o2, cols, cells, ws, index, r + 1, height),
        }
    }
}

/// The heading rule: dashes as wide as each column, two spaces apart.
pub open spec fn rule_text(ws: Seq<usize>) -> Seq<char>
    decreases ws.len(),
{
    if ws.len() == 0 {
        Seq::empty()
    } else {
        rule_text(ws.drop_last()) + (if ws.len() > 1 { seq![' ', ' '] } else { Seq::empty() })
            + Seq::new(ws.last() as nat, |_i: int| '-')
    }
}

/// `o` after aligned table rows from `index` on: index zero is the heading row,
/// followed by its rule.
pub open spec fn table_rows_from(o: Laid, cols: Seq<Column>, rows: Seq<Vec<Text>>, ws: Seq<usize>, index: int)
    -> Result<Laid, EditError>
    decreases rows.len() + 1 - index,
{
    if index < 0 || index > rows.len() {
        Ok(o)
    } else {
        let texts = if index == 0 { heading_views(cols) } else { cell_views(rows[index - 1]@) };
        let role = if index == 0 { Role::Strong } else { Role::Default };
        match wrap_cells(texts, ws, role, 0) {
            Err(e) => Err(e),
            Ok(cells) => match table_lines_from(o, cols, cells, ws, index, 0, cells_height(cells, cols.len() as int)) {
                Err(e) => Err(e),
                Ok(o2) => {
                    let o3 = if index == 0 {
                        appended(o2, seq![put_row(Seq::empty(), Role::Dim, rule_text(ws))])
                    } else {
                        Ok(o2)
                    };
                    match o3 {
                        Err(e) => Err(e),
                        Ok(o3) => table_rows_from(o3, cols, rows, ws, index + 1),
                    }
                },
            },
        }
    }
}

/// `o` after headings on rows of their own, from the `i`th on.
pub open spec fn headings_from(o: Laid, cols: Seq<Column>, i: int, columns: int) -> Result<Laid, EditError>
    decreases cols.len() - i,
{
    if i < 0 || i >= cols.len() {
        Ok(o)
    } else {
        match wrapped(cols[i].heading.spec_spans(), columns, Role::Strong) {
            Err(e) => Err(e),
            Ok(rows) => match appended(o, rows) {
                Err(e) => Err(e),
                Ok(o2) => headings_from(o2, cols, i + 1, columns),
            },
        }
    }
}

/// `o` after each table row as facts under the headings, from the `i`th on,
/// rows separated by a blank row.
pub open spec fn table_facts_from(o: Laid, cols: Seq<Column>, rows: Seq<Vec<Text>>, i: int, columns: int)
    -> Result<Laid, EditError>
    decreases rows.len() - i,
{
    if i < 0 || i >= rows.len() {
        Ok(o)
    } else {
        let o1 = if i > 0 { appended(o, seq![Seq::empty()]) } else { Ok(o) };
        match o1 {
            Err(e) => Err(e),
            Ok(o1) => match facts_out(o1, heading_views(cols), cell_views(rows[i]@), columns) {
                Err(e) => Err(e),
                Ok(o2) => table_facts_from(o2, cols, rows, i + 1, columns),
            },
        }
    }
}

/// `o` after a table: aligned columns when each can have four cells, otherwise
/// each row as facts under the headings (the headings alone when there is no row).
pub open spec fn table_out(o: Laid, cols: Seq<Column>, rows: Seq<Vec<Text>>, columns: int) -> Result<Laid, EditError> {
    let n = cols.len() as int;
    let gap = (n - 1) * 2;
    if n * 4 + gap > columns {
        let o1 = if rows.len() == 0 { headings_from(o, cols, 0, columns) } else { Ok(o) };
        match o1 {
            Err(e) => Err(e),
            Ok(o1) => table_facts_from(o1, cols, rows, 0, columns),
        }
    } else {
        let ws = shrunk(Seq::new(n as nat, |c: int| column_width(cols, rows, c, rows.len() as int, columns) as usize),
            columns - gap, (32 * 4096 + 1) as nat);
        table_rows_from(o, cols, rows, ws, 0)
    }
}

/// Wrapped cells as values.
pub open spec fn cells_view(cells: Seq<Vec<Line>>) -> Seq<Seq<Seq<Piece>>> {
    cells.map_values(|v: Vec<Line>| rows_view(v@))
}

/// `acc` before the cells of `r`, or its refusal.
pub open spec fn prepend(acc: Seq<Seq<Seq<Piece>>>, r: Result<Seq<Seq<Seq<Piece>>>, EditError>)
    -> Result<Seq<Seq<Seq<Piece>>>, EditError>
{
    match r {
        Ok(rest) => Ok(acc + rest),
        Err(e) => Err(e),
    }
}

/// Initial column widths: the heading (at least four cells) and the widest value, capped at `columns`.
fn column_widths(cols: &Vec<Column>, rows: &Vec<Vec<Text>>, columns: usize) -> (ws: Vec<usize>)
    requires
        forall|i: int| 0 <= i < rows@.len() ==> (#[trigger] rows@[i])@.len() == cols@.len(),
    ensures
        ws@.len() == cols@.len(),
        forall|c: int| 0 <= c < cols@.len() ==> #[trigger] ws@[c] as int == column_width(cols@, rows@, c, rows@.len() as int, columns as int),
        forall|c: int| 0 <= c < cols@.len() ==> #[trigger] ws@[c] <= columns,
{
    let n = cols.len();
    let mut widths: Vec<usize> = Vec::new();
    let mut i: usize = 0;
    while i < n
        invariant
            i <= n,
            n == cols@.len(),
            widths@.len() == i,
            forall|k: int| 0 <= k < i ==> #[trigger] widths@[k] as int == column_width(cols@, rows@, k, 0, columns as int),
            forall|k: int| 0 <= k < i ==> #[trigger] widths@[k] <= columns,
        decreases n - i,
    {
        let w = natural(&cols[i].heading);
        let w = if w > 4 { w } else { 4 };
        let w = if w < columns { w } else { columns };
        widths.push(w);
        i += 1;
    }
    let mut r: usize = 0;
    while r < rows.len()
        invariant
            r <= rows@.len(),
            n == cols@.len(),
            widths@.len() == n,
            forall|k: int| 0 <= k < n ==> #[trigger] widths@[k] as int == column_width(cols@, rows@, k, r as int, columns as int),
            forall|k: int| 0 <= k < n ==> #[trigger] widths@[k] <= columns,
            forall|k: int| 0 <= k < rows@.len() ==> (#[trigger] rows@[k])@.len() == cols@.len(),
        decreases rows@.len() - r,
    {
        let mut c: usize = 0;
        while c < n
            invariant
                c <= n,
                r < rows@.len(),
                n == rows@[r as int]@.len(),
                n == cols@.len(),
                widths@.len() == n,
                forall|k: int| 0 <= k < c ==> #[trigger] widths@[k] as int == column_width(cols@, rows@, k, r + 1, columns as int),
                forall|k: int| c <= k < n ==> #[trigger] widths@[k] as int == column_width(cols@, rows@, k, r as int, columns as int),
                forall|k: int| 0 <= k < n ==> #[trigger] widths@[k] <= columns,
            decreases n - c,
        {
            let w = natural(&rows[r][c]);
            let w = if w < columns { w } else { columns };
            if w > widths[c] {
                widths.set(c, w);
            }
            assert(widths@[c as int] as int == column_width(cols@, rows@, c as int, r + 1, columns as int));
            c += 1;
        }
        r += 1;
    }
    widths
}

/// Index of a widest column, the last one on ties.
fn widest_index(ws: &Vec<usize>) -> (b: usize)
    requires
        ws@.len() >= 1,
    ensures
        b == widest_column(ws@, ws@.len() as int),
        b < ws@.len(),
{
    let mut best: usize = 0;
    let mut k: usize = 1;
    while k < ws.len()
        invariant
            1 <= k <= ws@.len(),
            best < k,
            best == widest_column(ws@, k as int),
        decreases ws@.len() - k,
    {
        if ws[k] >= ws[best] {
            best = k;
        }
        k += 1;
    }
    best
}

/// Narrow a widest column one cell at a time until the widths fit `room`.
fn shrink(widths: &mut Vec<usize>, room: usize)
    requires
        old(widths)@.len() >= 1,
    ensures
        final(widths)@ == shrunk(old(widths)@, room as int, (32 * 4096 + 1) as nat),
        final(widths)@.len() == old(widths)@.len(),
        forall|c: int| 0 <= c < old(widths)@.len() ==> #[trigger] final(widths)@[c] <= old(widths)@[c],
{
    let mut total = width_sum(widths);
    let mut budget: usize = 32 * 4096 + 1;
    let ghost goal = shrunk(widths@, room as int, budget as nat);
    loop
        invariant
            widths@.len() == old(widths)@.len(),
            widths@.len() >= 1,
            total == widths_total(widths@),
            goal == shrunk(widths@, room as int, budget as nat),
            goal == shrunk(old(widths)@, room as int, (32 * 4096 + 1) as nat),
            forall|c: int| 0 <= c < old(widths)@.len() ==> #[trigger] widths@[c] <= old(widths)@[c],
        decreases budget,
    {
        if budget == 0 || total <= room {
            return;
        }
        let best = widest_index(widths);
        if widths[best] == 0 {
            return;
        }
        let w = widths[best] - 1;
        widths.set(best, w);
        total = width_sum(widths);
        budget -= 1;
    }
}

/// Wrap each cell of a table row to its column width.
fn wrap_row(texts: &Vec<&Text>, ws: &Vec<usize>, role: Role) -> (r: Result<Vec<Vec<Line>>, EditError>)
    requires
        texts@.len() == ws@.len(),
        forall|c: int| 0 <= c < ws@.len() ==> #[trigger] ws@[c] <= 4096,
    ensures
        match r {
            Ok(cells) => wrap_cells(text_views(texts@), ws@, role, 0) == Ok::<Seq<Seq<Seq<Piece>>>, EditError>(cells_view(cells@))
                && cells@.len() == texts@.len(),
            Err(e) => wrap_cells(text_views(texts@), ws@, role, 0) == Err::<Seq<Seq<Seq<Piece>>>, EditError>(e),
        },
{
    let ghost ts = text_views(texts@);
    let mut cells: Vec<Vec<Line>> = Vec::new();
    let mut c: usize = 0;
    assert(cells_view(cells@) + Seq::<Seq<Seq<Piece>>>::empty() =~= cells_view(cells@));
    assert(prepend(cells_view(cells@), wrap_cells(ts, ws@, role, 0)) == wrap_cells(ts, ws@, role, 0)) by {
        match wrap_cells(ts, ws@, role, 0) {
            Ok(rest) => {
                assert(cells_view(cells@) + rest =~= rest);
            },
            Err(e) => {},
        }
    }
    while c < texts.len()
        invariant
            c <= texts@.len(),
            texts@.len() == ws@.len(),
            ts == text_views(texts@),
            forall|k: int| 0 <= k < ws@.len() ==> #[trigger] ws@[k] <= 4096,
            cells@.len() == c,
            wrap_cells(ts, ws@, role, 0) == prepend(cells_view(cells@), wrap_cells(ts, ws@, role, c as int)),
        decreases texts@.len() - c,
    {
        let rows = match wrap(texts[c], ws[c], role) {
            Ok(r) => r,
            Err(e) => return Err(e),
        };
        let ghost acc = cells_view(cells@);
        let ghost here = rows_view(rows@);
        cells.push(rows);
        assert(cells_view(cells@) =~= acc.push(here));
        proof {
            match wrap_cells(ts, ws@, role, c + 1) {
                Ok(rest) => {
                    assert(acc + (seq![here] + rest) =~= acc.push(here) + rest);
                },
                Err(e) => {},
            }
        }
        c += 1;
    }
    proof {
        assert(wrap_cells(ts, ws@, role, c as int) == Ok::<Seq<Seq<Seq<Piece>>>, EditError>(Seq::empty()));
        assert(cells_view(cells@) + Seq::<Seq<Seq<Piece>>>::empty() =~= cells_view(cells@));
    }
    Ok(cells)
}

/// Rows needed by the tallest cell.
fn height_of(cells: &Vec<Vec<Line>>) -> (h: usize)
    ensures
        h == cells_height(cells_view(cells@), cells@.len() as int),
{
    let mut h: usize = 0;
    let mut c: usize = 0;
    while c < cells.len()
        invariant
            c <= cells@.len(),
            h == cells_height(cells_view(cells@), c as int),
        decreases cells@.len() - c,
    {
        if cells[c].len() > h {
            h = cells[c].len();
        }
        c += 1;
    }
    h
}

/// Row `r` of a table row.
fn table_row_line(cols: &Vec<Column>, cells: &Vec<Vec<Line>>, ws: &Vec<usize>, index: usize, r: usize) -> (line: Line)
    requires
        cells@.len() == cols@.len(),
        ws@.len() == cols@.len(),
    ensures
        pieces(line) == table_line(cols@, cells_view(cells@), ws@, index as int, r as int, 0, Seq::empty()),
{
    let n = cols.len();
    let ghost cv = cells_view(cells@);
    let mut line = Line(Vec::new());
    assert(pieces(line) =~= Seq::<Piece>::empty());
    let mut c: usize = 0;
    while c < n
        invariant
            c <= n,
            n == cols@.len(),
            cells@.len() == n,
            ws@.len() == n,
            cv == cells_view(cells@),
            table_line(cols@, cv, ws@, index as int, r as int, 0, Seq::empty())
                == table_line(cols@, cv, ws@, index as int, r as int, c as int, pieces(line)),
        decreases n - c,
    {
        proof {
            reveal_strlit("  ");
            assert("  "@ =~= seq![' ', ' ']);
        }
        let has = r < cells[c].len();
        let used = if has { width(&cells[c][r]) } else { 0 };
        let padding = if ws[c] > used { ws[c] - used } else { 0 };
        let right = index > 0 && cols[c].alignment == Alignment::Right;
        if right {
            put(&mut line, Role::Default, spaces(padding).as_str());
        }
        if has {
            let ghost head = pieces(line);
            let mut runs = copy_row(&cells[c][r]).0;
            line.0.append(&mut runs);
            assert(pieces(line) =~= head + cv[c as int][r as int]);
        }
        if !right && c + 1 < n {
            put(&mut line, Role::Default, spaces(padding).as_str());
        }
        if c + 1 < n {
            put(&mut line, Role::Default, "  ");
        }
        c += 1;
    }
    line
}

/// The heading rule row.
fn rule_line(ws: &Vec<usize>) -> (line: Line)
    ensures
        pieces(line) == put_row(Seq::empty(), Role::Dim, rule_text(ws@)),
{
    let mut rule = String::new();
    let mut c: usize = 0;
    while c < ws.len()
        invariant
            c <= ws@.len(),
            rule@ == rule_text(ws@.take(c as int)),
        decreases ws@.len() - c,
    {
        proof {
            reveal_strlit("  ");
            assert("  "@ =~= seq![' ', ' ']);
            assert(ws@.take(c + 1).drop_last() =~= ws@.take(c as int));
        }
        let ghost before = rule@;
        if c > 0 {
            rule.append("  ");
        }
        let ghost mid = rule@;
        let mut d: usize = 0;
        while d < ws[c]
            invariant
                d <= ws@[c as int],
                c < ws@.len(),
                rule@ == mid + Seq::new(d as nat, |_i: int| '-'),
            decreases ws@[c as int] - d,
        {
            push_char(&mut rule, '-');
            d += 1;
            assert(rule@ =~= mid + Seq::new(d as nat, |_i: int| '-'));
        }
        c += 1;
        assert(rule@ =~= rule_text(ws@.take(c as int)));
    }
    assert(ws@.take(c as int) =~= ws@);
    let mut line = Line(Vec::new());
    assert(pieces(line) =~= Seq::<Piece>::empty());
    put(&mut line, Role::Dim, rule.as_str());
    line
}

/// Append one aligned table row (the headings when `index` is zero).
fn table_block(out: &mut Output, cols: &Vec<Column>, texts: &Vec<&Text>, ws: &Vec<usize>, index: usize, role: Role)
    -> (r: Result<(), EditError>)
    requires
        texts@.len() == cols@.len(),
        ws@.len() == cols@.len(),
        forall|c: int| 0 <= c < ws@.len() ==> #[trigger] ws@[c] <= 4096,
    ensures
        match r {
            Ok(()) => match wrap_cells(text_views(texts@), ws@, role, 0) {
                Err(e) => false,
                Ok(cells) => match table_lines_from(laid(*old(out)), cols@, cells, ws@, index as int, 0,
                    cells_height(cells, cols@.len() as int)) {
                    Err(e) => false,
                    Ok(o2) => (if index == 0 {
                        appended(o2, seq![put_row(Seq::empty(), Role::Dim, rule_text(ws@))])
                    } else {
                        Ok(o2)
                    }) == Ok::<Laid, EditError>(laid(*final(out))),
                },
            },
            Err(e) => match wrap_cells(text_views(texts@), ws@, role, 0) {
                Err(e2) => e2 == e,
                Ok(cells) => match table_lines_from(laid(*old(out)), cols@, cells, ws@, index as int, 0,
                    cells_height(cells, cols@.len() as int)) {
                    Err(e2) => e2 == e,
                    Ok(o2) => index == 0 && appended(o2, seq![put_row(Seq::empty(), Role::Dim, rule_text(ws@))])
                        == Err::<Laid, EditError>(e),
                },
            },
        },
{
    let cells = match wrap_row(texts, ws, role) {
        Ok(c) => c,
        Err(e) => return Err(e),
    };
    let ghost cv = cells_view(cells@);
    let height = height_of(&cells);
    let ghost goal = table_lines_from(laid(*out), cols@, cv, ws@, index as int, 0, height as int);
    let mut r: usize = 0;
    while r < height
        invariant
            r <= height,
            cells@.len() == cols@.len(),
            ws@.len() == cols@.len(),
            cv == cells_view(cells@),
            goal == table_lines_from(laid(*out), cols@, cv, ws@, index as int, r as int, height as int),
            goal == table_lines_from(laid(*old(out)), cols@, cv, ws@, index as int, 0, height as int),
            wrap_cells(text_views(texts@), ws@, role, 0) == Ok::<Seq<Seq<Seq<Piece>>>, EditError>(cv),
            height == cells_height(cv, cols@.len() as int),
        decreases height - r,
    {
        let line = table_row_line(cols, &cells, ws, index, r);
        let mut one = Vec::new();
        one.push(line);
        assert(rows_view(one@) =~= seq![table_line(cols@, cv, ws@, index as int, r as int, 0, Seq::empty())]);
        match append(out, one) {
            Ok(()) => {},
            Err(e) => return Err(e),
        }
        r += 1;
    }
    if index == 0 {
        let line = rule_line(ws);
        let mut one = Vec::new();
        one.push(line);
        assert(rows_view(one@) =~= seq![put_row(Seq::empty(), Role::Dim, rule_text(ws@))]);
        return append(out, one);
    }
    Ok(())
}

/// A table: aligned columns when each can have four cells, otherwise each row
/// as facts under the headings. Columns shrink, widest first, until they fit.
fn table(out: &mut Output, cols: &Vec<Column>, rows: &Vec<Vec<Text>>, columns: usize) -> (r: Result<(), EditError>)
    requires
        1 <= cols@.len() <= 32,
        rows@.len() <= 4096,
        forall|i: int| 0 <= i < rows@.len() ==> (#[trigger] rows@[i])@.len() == cols@.len(),
        columns <= 4096,
    ensures
        match r {
            Ok(()) => table_out(laid(*old(out)), cols@, rows@, columns as int) == Ok::<Laid, EditError>(laid(*final(out))),
            Err(e) => table_out(laid(*old(out)), cols@, rows@, columns as int) == Err::<Laid, EditError>(e),
        },
{
    let n = cols.len();
    let gap = (n - 1) * 2;
    let mut headings: Vec<&Text> = Vec::new();
    let mut i: usize = 0;
    while i < n
        invariant
            i <= n,
            n == cols@.len(),
            headings@.len() == i,
            forall|k: int| 0 <= k < i ==> #[trigger] headings@[k] == &cols@[k].heading,
        decreases n - i,
    {
        headings.push(&cols[i].heading);
        i += 1;
    }
    assert(text_views(headings@) =~= heading_views(cols@));
    let ghost goal = table_out(laid(*out), cols@, rows@, columns as int);
    if n * 4 + gap > columns {
        if rows.len() == 0 {
            let mut i: usize = 0;
            while i < n
                invariant
                    i <= n,
                    n == cols@.len(),
                    columns <= 4096,
                    rows@.len() == 0,
                    n * 4 + gap > columns,
                    gap == (n - 1) * 2,
                    goal == table_out(laid(*old(out)), cols@, rows@, columns as int),
                    goal == match headings_from(laid(*out), cols@, i as int, columns as int) {
                        Err(e) => Err(e),
                        Ok(o1) => table_facts_from(o1, cols@, rows@, 0, columns as int),
                    },
                decreases n - i,
            {
                let wrapped_rows = match wrap(&cols[i].heading, columns, Role::Strong) {
                    Ok(r) => r,
                    Err(e) => return Err(e),
                };
                match append(out, wrapped_rows) {
                    Ok(()) => {},
                    Err(e) => return Err(e),
                }
                i += 1;
            }
        }
        let mut i: usize = 0;
        while i < rows.len()
            invariant
                i <= rows@.len(),
                n == cols@.len(),
                headings@.len() == n,
                text_views(headings@) == heading_views(cols@),
                forall|k: int| 0 <= k < rows@.len() ==> (#[trigger] rows@[k])@.len() == cols@.len(),
                columns <= 4096,
                goal == table_out(laid(*old(out)), cols@, rows@, columns as int),
                goal == table_facts_from(laid(*out), cols@, rows@, i as int, columns as int),
            decreases rows@.len() - i,
        {
            if i > 0 {
                let mut blank = Vec::new();
                blank.push(Line(Vec::new()));
                assert(rows_view(blank@) =~~= seq![Seq::<Piece>::empty()]);
                match append(out, blank) {
                    Ok(()) => {},
                    Err(e) => return Err(e),
                }
            }
            let mut values: Vec<&Text> = Vec::new();
            let mut j: usize = 0;
            while j < n
                invariant
                    j <= n,
                    i < rows@.len(),
                    n == rows@[i as int]@.len(),
                    values@.len() == j,
                    forall|k: int| 0 <= k < j ==> #[trigger] values@[k] == &rows@[i as int]@[k],
                decreases n - j,
            {
                values.push(&rows[i][j]);
                j += 1;
            }
            assert(text_views(values@) =~= cell_views(rows@[i as int]@));
            match facts(out, headings.as_slice(), values.as_slice(), columns) {
                Ok(()) => {},
                Err(e) => return Err(e),
            }
            i += 1;
        }
        return Ok(());
    }
    let mut widths = column_widths(cols, rows, columns);
    assert(widths@ =~= Seq::new(n as nat, |c: int| column_width(cols@, rows@, c, rows@.len() as int, columns as int) as usize));
    shrink(&mut widths, columns - gap);
    let mut index: usize = 0;
    while index <= rows.len()
        invariant
            index <= rows@.len() + 1,
            rows@.len() <= 4096,
            n == cols@.len(),
            widths@.len() == n,
            headings@.len() == n,
            text_views(headings@) == heading_views(cols@),
            forall|k: int| 0 <= k < n ==> #[trigger] widths@[k] <= columns,
            forall|k: int| 0 <= k < rows@.len() ==> (#[trigger] rows@[k])@.len() == cols@.len(),
            columns <= 4096,
            goal == table_out(laid(*old(out)), cols@, rows@, columns as int),
            goal == table_rows_from(laid(*out), cols@, rows@, widths@, index as int),
        decreases rows@.len() + 1 - index,
    {
        let mut texts: Vec<&Text> = Vec::new();
        let mut c: usize = 0;
        while c < n
            invariant
                c <= n,
                texts@.len() == c,
                n == cols@.len(),
                headings@.len() == n,
                index <= rows@.len(),
                index > 0 ==> rows@[index - 1]@.len() == n,
                forall|k: int| 0 <= k < c ==> #[trigger] texts@[k] == if index == 0 { headings@[k] } else { &rows@[index - 1]@[k] },
            decreases n - c,
        {
            let t: &Text = if index == 0 { headings[c] } else { &rows[index - 1][c] };
            texts.push(t);
            c += 1;
        }
        proof {
            if index == 0 {
                assert(text_views(texts@) =~= heading_views(cols@));
            } else {
                assert(text_views(texts@) =~= cell_views(rows@[index - 1]@));
            }
        }
        let role = if index == 0 { Role::Strong } else { Role::Default };
        match table_block(out, cols, &texts, &widths, index, role) {
            Ok(()) => {},
            Err(e) => return Err(e),
        }
        index += 1;
    }
    Ok(())
}

/// Each row's runs as mutations, each row followed by a newline.
pub open spec fn document_mutations(lines: Seq<Line>) -> Seq<Mutation>
    decreases lines.len(),
{
    if lines.len() == 0 {
        seq![]
    } else {
        document_mutations(lines.drop_last()) + crate::render::line_mutations(lines.last()) + seq![Mutation::Newline]
    }
}

/// Rows as mutations, each followed by a newline.
fn line_mutations(lines: Vec<Line>) -> (r: Vec<Mutation>)
    ensures
        r@ == document_mutations(lines@),
{
    let mut out = Vec::new();
    let mut i: usize = 0;
    while i < lines.len()
        invariant
            i <= lines@.len(),
            out@ == document_mutations(lines@.take(i as int)),
        decreases lines@.len() - i,
    {
        let ghost before = out@;
        let line = &lines[i];
        let mut k: usize = 0;
        while k < line.0.len()
            invariant
                k <= line.0@.len(),
                out@ == before + line.0@.take(k as int).map_values(|r: Run| crate::render::run_mutation_spec(r)),
            decreases line.0@.len() - k,
        {
            let m = match &line.0[k] {
                Run::Text(t) => Mutation::Text(t.clone()),
                Run::Style(r) => Mutation::Style(*r),
            };
            out.push(m);
            k += 1;
            assert(line.0@.take(k as int).map_values(|r: Run| crate::render::run_mutation_spec(r)) =~= line.0@.take(
                k - 1,
            ).map_values(|r: Run| crate::render::run_mutation_spec(r)).push(crate::render::run_mutation_spec(line.0@[k - 1])));
        }
        assert(line.0@.take(k as int) =~= line.0@);
        out.push(Mutation::Newline);
        i += 1;
        assert(lines@.take(i as int).drop_last() =~= lines@.take(i - 1));
    }
    assert(lines@.take(i as int) =~= lines@);
    out
}

/// The text of one run: its characters, or the theme's sequence for a role.
pub open spec fn piece_text(p: Piece, color: bool) -> Seq<char> {
    match p {
        Piece::Text(t) => t,
        Piece::Style(r) => crate::protocol::style_view(color, r),
    }
}

/// The text of one row's runs.
pub open spec fn row_text(row: Seq<Piece>, color: bool) -> Seq<char>
    decreases row.len(),
{
    if row.len() == 0 {
        Seq::empty()
    } else {
        row_text(row.drop_last(), color) + piece_text(row.last(), color)
    }
}

/// The text of rows, each ending in LF.
pub open spec fn rows_text(rows: Seq<Seq<Piece>>, color: bool) -> Seq<char>
    decreases rows.len(),
{
    if rows.len() == 0 {
        Seq::empty()
    } else {
        rows_text(rows.drop_last(), color) + row_text(rows.last(), color) + seq!['\n']
    }
}

/// The text pieces of rows, each row ending in LF.
pub open spec fn rows_plain(rows: Seq<Seq<Piece>>) -> Seq<char>
    decreases rows.len(),
{
    if rows.len() == 0 {
        Seq::empty()
    } else {
        rows_plain(rows.drop_last()) + row_plain(rows.last()) + seq!['\n']
    }
}

/// The text pieces of a row.
pub open spec fn row_plain(row: Seq<Piece>) -> Seq<char>
    decreases row.len(),
{
    if row.len() == 0 {
        Seq::empty()
    } else {
        row_plain(row.drop_last()) + match row.last() {
            Piece::Text(t) => t,
            Piece::Style(_) => Seq::empty(),
        }
    }
}

/// Without color, rendered rows are exactly their text: roles contribute nothing.
pub proof fn law_plain_render_is_text(rows: Seq<Seq<Piece>>)
    ensures
        rows_text(rows, false) == rows_plain(rows),
    decreases rows.len(),
{
    if rows.len() > 0 {
        law_plain_render_is_text(rows.drop_last());
        lemma_plain_row(rows.last());
    }
}

proof fn lemma_plain_row(row: Seq<Piece>)
    ensures
        row_text(row, false) == row_plain(row),
    decreases row.len(),
{
    if row.len() > 0 {
        lemma_plain_row(row.drop_last());
        match row.last() {
            Piece::Style(r) => {
                reveal_strlit("");
                assert(crate::protocol::style_view(false, r) =~= Seq::<char>::empty());
                assert(row_text(row.drop_last(), false) + Seq::<char>::empty() =~= row_text(row.drop_last(), false));
                assert(row_plain(row.drop_last()) + Seq::<char>::empty() =~= row_plain(row.drop_last()));
            },
            Piece::Text(_) => {},
        }
    }
}

/// The marker of a heading level.
pub open spec fn heading_marker(level: u8) -> Seq<char> {
    if level == 1 { "# "@ } else if level == 2 { "## "@ } else { "### "@ }
}

/// The marker and role of a notice.
pub open spec fn status_style(severity: Severity) -> (Seq<char>, Role) {
    match severity {
        Severity::Info => ("[i] "@, Role::Accent),
        Severity::Success => ("[ok] "@, Role::Success),
        Severity::Warning => ("[!] "@, Role::Warning),
        Severity::Error => ("[error] "@, Role::Error),
    }
}

/// `o` after one block.
pub open spec fn block_out(o: Laid, b: Block, columns: int) -> Result<Laid, EditError> {
    match b {
        Block::Paragraph(t) => match wrapped(t.spec_spans(), columns, Role::Default) {
            Err(e) => Err(e),
            Ok(rows) => appended(o, rows),
        },
        Block::Heading { level, text } => prefixed_out(o, text.spec_spans(), heading_marker(level), columns, Role::Strong),
        Block::Literal(t) => prefixed_out(o, t.spec_spans(), "| "@, columns, Role::Dim),
        Block::Spacer => appended(o, seq![Seq::empty()]),
        Block::Status { severity, text } => prefixed_out(o, text.spec_spans(), status_style(severity).0, columns,
            status_style(severity).1),
        Block::List { ordered, items } => list_from(o, ordered, items@, 0, columns),
        Block::KeyValue(fields) => facts_out(o, fields@.map_values(|f: (Text, Text)| f.0.spec_spans()),
            fields@.map_values(|f: (Text, Text)| f.1.spec_spans()), columns),
        Block::Table { columns: cols, rows } => table_out(o, cols@, rows@, columns),
    }
}

/// `o` after the blocks from the `b`th on.
pub open spec fn blocks_from(o: Laid, blocks: Seq<Block>, b: int, columns: int) -> Result<Laid, EditError>
    decreases blocks.len() - b,
{
    if b < 0 || b >= blocks.len() {
        Ok(o)
    } else {
        match block_out(o, blocks[b], columns) {
            Err(e) => Err(e),
            Ok(o2) => blocks_from(o2, blocks, b + 1, columns),
        }
    }
}

/// Lay out one block.
fn lay_block(out: &mut Output, block: &Block, columns: usize) -> (r: Result<(), EditError>)
    requires
        block_ok(*block),
        2 <= columns <= 4096,
    ensures
        match r {
            Ok(()) => block_out(laid(*old(out)), *block, columns as int) == Ok::<Laid, EditError>(laid(*final(out))),
            Err(e) => block_out(laid(*old(out)), *block, columns as int) == Err::<Laid, EditError>(e),
        },
{
    proof {
        reveal_strlit("# ");
        reveal_strlit("## ");
        reveal_strlit("### ");
        reveal_strlit("| ");
        reveal_strlit("[i] ");
        reveal_strlit("[ok] ");
        reveal_strlit("[!] ");
        reveal_strlit("[error] ");
    }
    match block {
        Block::Paragraph(t) => match wrap(t, columns, Role::Default) {
            Ok(rows) => append(out, rows),
            Err(e) => Err(e),
        },
        Block::Heading { level, text } => {
            let marker = if *level == 1 { "# " } else if *level == 2 { "## " } else { "### " };
            assert(marker@ == heading_marker(*level));
            prefixed(out, text, marker, columns, Role::Strong)
        },
        Block::Literal(t) => prefixed(out, t, "| ", columns, Role::Dim),
        Block::Spacer => {
            let mut one = Vec::new();
            one.push(Line(Vec::new()));
            assert(rows_view(one@) =~~= seq![Seq::<Piece>::empty()]);
            append(out, one)
        },
        Block::Status { severity, text } => {
            let (prefix, role) = match severity {
                Severity::Info => ("[i] ", Role::Accent),
                Severity::Success => ("[ok] ", Role::Success),
                Severity::Warning => ("[!] ", Role::Warning),
                Severity::Error => ("[error] ", Role::Error),
            };
            assert(prefix@ == status_style(*severity).0 && role == status_style(*severity).1);
            prefixed(out, text, prefix, columns, role)
        },
        Block::List { ordered, items } => list(out, *ordered, items, columns),
        Block::KeyValue(fields) => {
            let mut keys: Vec<&Text> = Vec::new();
            let mut values: Vec<&Text> = Vec::new();
            let mut k: usize = 0;
            while k < fields.len()
                invariant
                    k <= fields@.len(),
                    keys@.len() == k,
                    values@.len() == k,
                    forall|j: int| 0 <= j < k ==> #[trigger] keys@[j] == &fields@[j].0,
                    forall|j: int| 0 <= j < k ==> #[trigger] values@[j] == &fields@[j].1,
                decreases fields@.len() - k,
            {
                keys.push(&fields[k].0);
                values.push(&fields[k].1);
                k += 1;
            }
            assert(text_views(keys@) =~= fields@.map_values(|f: (Text, Text)| f.0.spec_spans()));
            assert(text_views(values@) =~= fields@.map_values(|f: (Text, Text)| f.1.spec_spans()));
            facts(out, keys.as_slice(), values.as_slice(), columns)
        },
        Block::Table { columns: cols, rows } => table(out, cols, rows, columns),
    }
}

impl Document {
    /// The blocks.
    pub closed spec fn spec_blocks(&self) -> Seq<Block> {
        self.blocks@
    }

    /// Every block satisfies the structural rules.
    pub open spec fn wf(&self) -> bool {
        self.spec_blocks().len() <= 4096 && forall|i: int| 0 <= i < self.spec_blocks().len() ==> block_ok(#[trigger] self.spec_blocks()[i])
    }

    /// Validate structure and aggregate resource bounds without recursive traversal.
    pub fn new(blocks: Vec<Block>) -> (r: Result<Self, EditError>)
        ensures
            match r {
                Ok(d) => d.wf() && d.spec_blocks() == blocks@ && document_check(blocks@) is Ok,
                Err(e) => document_check(blocks@) == Err::<(), EditError>(e),
            },
    {
        if blocks.len() > 4096 {
            return Err(EditError::Capacity);
        }
        let mut bytes: usize = 0;
        let mut spans: usize = 0;
        let mut i: usize = 0;
        while i < blocks.len()
            invariant
                i <= blocks@.len(),
                blocks@.len() <= 4096,
                forall|j: int| 0 <= j < i ==> block_ok(#[trigger] blocks@[j]),
                document_check(blocks@) == blocks_check(blocks@, i as int, (bytes as int, spans as int)),
            decreases blocks@.len() - i,
        {
            match block_cost(&blocks[i], &mut bytes, &mut spans) {
                Ok(()) => {},
                Err(e) => return Err(e),
            }
            if bytes > BUDGET || spans > 16384 {
                return Err(EditError::Capacity);
            }
            i += 1;
        }
        Ok(Document { blocks })
    }

    /// The rows of the document at `columns` cells, or why it cannot be laid out.
    pub open spec fn laid_out(&self, columns: int) -> Result<Seq<Seq<Piece>>, EditError> {
        if columns < 2 || columns > 4096 {
            Err(EditError::InvalidRange)
        } else {
            match blocks_from((Seq::empty(), 0), self.spec_blocks(), 0, columns) {
                Ok(o) => Ok(o.0),
                Err(e) => Err(e),
            }
        }
    }

    /// Lay out every block at `columns` cells.
    fn layout(&self, columns: usize) -> (r: Result<Vec<Line>, EditError>)
        requires
            self.wf(),
        ensures
            match r {
                Ok(lines) => self.laid_out(columns as int) == Ok::<Seq<Seq<Piece>>, EditError>(rows_view(lines@)),
                Err(e) => self.laid_out(columns as int) == Err::<Seq<Seq<Piece>>, EditError>(e),
            },
    {
        if columns < 2 || columns > 4096 {
            return Err(EditError::InvalidRange);
        }
        let mut out = Output { lines: Vec::new(), work: 0 };
        assert(laid(out) =~~= (Seq::<Seq<Piece>>::empty(), 0int));
        let ghost goal = blocks_from(laid(out), self.spec_blocks(), 0, columns as int);
        let mut b: usize = 0;
        while b < self.blocks.len()
            invariant
                b <= self.blocks@.len(),
                self.wf(),
                2 <= columns <= 4096,
                goal == blocks_from(laid(out), self.spec_blocks(), b as int, columns as int),
                goal == blocks_from((Seq::empty(), 0), self.spec_blocks(), 0, columns as int),
            decreases self.blocks@.len() - b,
        {
            assert(block_ok(self.spec_blocks()[b as int]));
            match lay_block(&mut out, &self.blocks[b], columns) {
                Ok(()) => {},
                Err(e) => return Err(e),
            }
            b += 1;
        }
        Ok(out.lines)
    }

    /// The document as mutations at `columns` cells, each row ending in a newline.
    pub fn mutations(&self, columns: usize) -> (r: Result<Vec<Mutation>, EditError>)
        requires
            self.wf(),
        ensures
            match r {
                Ok(ms) => exists|lines: Seq<Line>| self.laid_out(columns as int) == Ok::<Seq<Seq<Piece>>, EditError>(rows_view(lines))
                    && ms@ == document_mutations(lines),
                Err(e) => self.laid_out(columns as int) == Err::<Seq<Seq<Piece>>, EditError>(e),
            },
    {
        match self.layout(columns) {
            Ok(lines) => {
                let ghost ls = lines@;
                let ms = line_mutations(lines);
                assert(ms@ == document_mutations(ls));
                Ok(ms)
            },
            Err(e) => Err(e),
        }
    }

    /// Render without acquiring a terminal. Explicit width makes captured output
    /// deterministic; Theme resolves styling independently of document structure.
    /// Output uses LF line endings, including a final LF for every rendered row.
    pub fn render(&self, columns: usize, theme: Theme) -> (r: Result<String, EditError>)
        requires
            self.wf(),
        ensures
            match r {
                Ok(s) => self.laid_out(columns as int) matches Ok(rows) && s@ == rows_text(rows, theme.color)
                    && blen(s@) <= 8 * BUDGET,
                Err(e) => match self.laid_out(columns as int) {
                    Ok(rows) => e == EditError::Capacity && blen(rows_text(rows, theme.color)) > 8 * BUDGET,
                    Err(e2) => e == e2,
                },
            },
    {
        let lines = match self.layout(columns) {
            Ok(l) => l,
            Err(e) => return Err(e),
        };
        let ghost rows = rows_view(lines@);
        let mut out = String::new();
        let mut size: usize = 0;
        let mut i: usize = 0;
        proof {
            reveal_strlit("");
        }
        while i < lines.len()
            invariant
                i <= lines@.len(),
                rows == rows_view(lines@),
                out@ == rows_text(rows.take(i as int), theme.color),
                size as int == sat(blen(out@)),
            decreases lines@.len() - i,
        {
            let line = &lines[i];
            let ghost before = out@;
            let mut k: usize = 0;
            while k < line.0.len()
                invariant
                    k <= line.0@.len(),
                    out@ == before + row_text(pieces(*line).take(k as int), theme.color),
                    size as int == sat(blen(out@)),
                decreases line.0@.len() - k,
            {
                let piece: &str = match &line.0[k] {
                    Run::Text(t) => t.as_str(),
                    Run::Style(r) => theme.sequence(*r),
                };
                assert(piece@ == piece_text(pieces(*line)[k as int], theme.color));
                let ghost prev = out@;
                proof {
                    crate::text::lemma_encode_concat(prev, piece@);
                    assert(pieces(*line).take(k + 1).drop_last() =~= pieces(*line).take(k as int));
                }
                size = size.saturating_add(byte_len(piece));
                out.append(piece);
                k += 1;
                assert(out@ =~= before + row_text(pieces(*line).take(k as int), theme.color));
            }
            assert(pieces(*line).take(k as int) =~= pieces(*line));
            let ghost prev = out@;
            proof {
                crate::text::lemma_encode_concat(prev, seq!['\n']);
                assert(blen(seq!['\n']) == 1) by {
                    let nl = seq!['\n'];
                    assert(nl.drop_first() =~= Seq::<char>::empty());
                    assert(has_width_1_encoding(nl[0] as u32));
                    assert(encode_scalar(nl[0] as u32).len() == 1);
                    assert(encode_utf8(nl.drop_first()).len() == 0);
                }
                assert(rows.take(i + 1).drop_last() =~= rows.take(i as int));
                assert(rows.take(i + 1).last() == pieces(lines@[i as int]));
            }
            push_char(&mut out, '\n');
            size = size.saturating_add(1);
            i += 1;
            assert(out@ =~= rows_text(rows.take(i as int), theme.color));
        }
        assert(rows.take(i as int) =~= rows);
        if size > 8 * BUDGET {
            return Err(EditError::Capacity);
        }
        Ok(out)
    }
}

/// Per-depth numbering after an entry at depth `d` numbered `c`: deeper
/// counters restart.
pub open spec fn renumbered(counts: Seq<int>, d: int, c: int) -> Seq<int> {
    Seq::new(9, |j: int| if j == d { c } else if j > d { 0 } else { counts[j] })
}

/// The marker of a list entry at depth `d` numbered `c`.
pub open spec fn list_marker(ordered: bool, d: int, c: int) -> Seq<char> {
    blanks(2 * d) + if ordered { decimal(c as nat) + ". "@ } else { "- "@ }
}

/// Entries at depth `d` among `items[..j]`, counted backward from `j` and
/// stopping at the nearest entry shallower than `d`.
pub open spec fn peers(items: Seq<ListItem>, d: int, j: int) -> int
    decreases j,
{
    if j <= 0 || j > items.len() {
        0
    } else if (items[j - 1].depth as int) < d {
        0
    } else if items[j - 1].depth as int == d {
        1 + peers(items, d, j - 1)
    } else {
        peers(items, d, j - 1)
    }
}

/// The number of entry `i` of an ordered list: one more than the earlier
/// entries at its depth since the nearest earlier entry shallower than it.
pub open spec fn entry_number(items: Seq<ListItem>, i: int) -> int {
    1 + peers(items, items[i].depth as int, i)
}

/// `o` after list entries from the `i`th on.
pub open spec fn list_from(o: Laid, ordered: bool, items: Seq<ListItem>, i: int, columns: int)
    -> Result<Laid, EditError>
    decreases items.len() - i,
{
    if i < 0 || i >= items.len() {
        Ok(o)
    } else {
        let d = items[i].depth as int;
        match prefixed_out(o, items[i].text.spec_spans(), list_marker(ordered, d, entry_number(items, i)), columns, Role::Default) {
            Err(e) => Err(e),
            Ok(o2) => list_from(o2, ordered, items, i + 1, columns),
        }
    }
}

/// Ordered-list numbering: an entry right after a shallower one (or first)
/// is numbered one; an entry is numbered one more than the previous entry at
/// its depth when every entry in between is deeper; and an entry that follows
/// a shallower entry restarts, whatever deeper numbering came before.
pub proof fn law_list_numbering(items: Seq<ListItem>, i: int, k: int)
    requires
        0 <= i < k < items.len(),
    ensures
        items[k - 1].depth < items[k].depth ==> entry_number(items, k) == 1,
        entry_number(items, 0) == 1,
        items[i].depth == items[k].depth && (forall|j: int| i < j < k ==> #[trigger] items[j].depth > items[k].depth)
            ==> entry_number(items, k) == entry_number(items, i) + 1,
        (exists|j: int| i < j < k && #[trigger] items[j].depth < items[k].depth) && items[i].depth == items[k].depth
            ==> entry_number(items, k) <= k - i,
    decreases k - i,
{
    let d = items[k].depth as int;
    if items[i].depth == items[k].depth && (forall|j: int| i < j < k ==> #[trigger] items[j].depth > items[k].depth) {
        lemma_peers_skip(items, d, i + 1, k);
    }
    if (exists|j: int| i < j < k && #[trigger] items[j].depth < items[k].depth) && items[i].depth == items[k].depth {
        let j = choose|j: int| i < j < k && #[trigger] items[j].depth < items[k].depth;
        lemma_peers_bounded(items, d, j + 1, k);
    }
}

/// Deeper entries do not count.
proof fn lemma_peers_skip(items: Seq<ListItem>, d: int, from: int, j: int)
    requires
        0 < from <= j <= items.len(),
        forall|m: int| from <= m < j ==> #[trigger] items[m].depth > d,
    ensures
        peers(items, d, j) == peers(items, d, from),
    decreases j - from,
{
    if j > from {
        lemma_peers_skip(items, d, from, j - 1);
    }
}

/// After a shallower entry at `from - 1`, at most `j - from` peers are counted.
proof fn lemma_peers_bounded(items: Seq<ListItem>, d: int, from: int, j: int)
    requires
        0 < from <= j <= items.len(),
        (items[from - 1].depth as int) < d,
    ensures
        peers(items, d, j) <= j - from,
    decreases j - from,
{
    if j > from {
        lemma_peers_bounded(items, d, from, j - 1);
    }
}

/// List entries with depth indentation and per-depth numbering.
fn list(out: &mut Output, ordered: bool, items: &Vec<ListItem>, columns: usize) -> (r: Result<(), EditError>)
    requires
        forall|i: int| 0 <= i < items@.len() ==> (#[trigger] items@[i]).depth <= 8,
        columns <= 4096,
    ensures
        match r {
            Ok(()) => list_from(laid(*old(out)), ordered, items@, 0, columns as int) == Ok::<Laid, EditError>(laid(*final(out))),
            Err(e) => list_from(laid(*old(out)), ordered, items@, 0, columns as int) == Err::<Laid, EditError>(e),
        },
{
    let ghost goal = list_from(laid(*out), ordered, items@, 0, columns as int);
    let mut counts: Vec<usize> = Vec::new();
    let mut d: usize = 0;
    while d < 9
        invariant
            d <= 9,
            counts@.len() == d,
            forall|j: int| 0 <= j < d ==> #[trigger] counts@[j] == 0,
        decreases 9 - d,
    {
        counts.push(0);
        d += 1;
    }
    let ghost cs: Seq<int> = Seq::new(9, |_j: int| 0int);
    let mut i: usize = 0;
    while i < items.len()
        invariant
            i <= items@.len(),
            counts@.len() == 9,
            cs.len() == 9,
            forall|j: int| 0 <= j < 9 ==> #[trigger] counts@[j] <= i,
            forall|j: int| 0 <= j < 9 ==> #[trigger] counts@[j] as int == cs[j],
            forall|k: int| 0 <= k < items@.len() ==> (#[trigger] items@[k]).depth <= 8,
            columns <= 4096,
            forall|j: int| 0 <= j < 9 ==> #[trigger] cs[j] == peers(items@, j, i as int),
            goal == list_from(laid(*out), ordered, items@, i as int, columns as int),
            goal == list_from(laid(*old(out)), ordered, items@, 0, columns as int),
        decreases items@.len() - i,
    {
        let depth = items[i].depth as usize;
        let c = counts[depth] + 1;
        assert(c as int == cs[depth as int] + 1);
        let ghost step = prefixed_out(laid(*out), items@[i as int].text.spec_spans(),
            list_marker(ordered, depth as int, c as int), columns as int, Role::Default);
        assert(c as int == entry_number(items@, i as int));
        assert(goal == match step {
            Err(e) => Err(e),
            Ok(o2) => list_from(o2, ordered, items@, i + 1, columns as int),
        });
        renumber(&mut counts, depth, c, Ghost(cs), Ghost(i));
        let prefix = marker(ordered, depth, c);
        let ghost before = laid(*out);
        match prefixed(out, &items[i].text, prefix.as_str(), columns, Role::Default) {
            Ok(()) => {},
            Err(e) => return Err(e),
        }
        proof {
            cs = renumbered(cs, depth as int, c as int);
            assert forall|j: int| 0 <= j < 9 implies #[trigger] cs[j] == peers(items@, j, i + 1) by {
                assert(items@[i as int].depth as int == depth as int);
            }
        }
        i += 1;
    }
    Ok(())
}

/// Number an entry at `depth` as `c`, restarting deeper counters.
fn renumber(counts: &mut Vec<usize>, depth: usize, c: usize, Ghost(cs): Ghost<Seq<int>>, Ghost(i): Ghost<usize>)
    requires
        old(counts)@.len() == 9,
        cs.len() == 9,
        depth <= 8,
        c <= i + 1,
        forall|j: int| 0 <= j < 9 ==> #[trigger] old(counts)@[j] <= i,
        forall|j: int| 0 <= j < 9 ==> #[trigger] old(counts)@[j] as int == cs[j],
    ensures
        final(counts)@.len() == 9,
        forall|j: int| 0 <= j < 9 ==> #[trigger] final(counts)@[j] <= i + 1,
        forall|j: int| 0 <= j < 9 ==> #[trigger] final(counts)@[j] as int == renumbered(cs, depth as int, c as int)[j],
{
    let ghost next = renumbered(cs, depth as int, c as int);
    counts.set(depth, c);
    let mut k = depth + 1;
    while k < 9
        invariant
            depth < k <= 9,
            counts@.len() == 9,
            next == renumbered(cs, depth as int, c as int),
            forall|j: int| 0 <= j < 9 ==> #[trigger] counts@[j] <= i + 1,
            forall|j: int| 0 <= j < k ==> #[trigger] counts@[j] as int == next[j],
            forall|j: int| k <= j < 9 ==> #[trigger] counts@[j] as int == cs[j] && counts@[j] <= i,
        decreases 9 - k,
    {
        counts.set(k, 0);
        k += 1;
    }
}

/// The marker text of a list entry.
fn marker(ordered: bool, depth: usize, c: usize) -> (r: String)
    requires
        depth <= 8,
    ensures
        r@ == list_marker(ordered, depth as int, c as int),
{
    let mut prefix = spaces(depth * 2);
    proof {
        reveal_strlit(". ");
        reveal_strlit("- ");
    }
    if ordered {
        push_decimal(&mut prefix, c);
        prefix.append(". ");
    } else {
        prefix.append("- ");
    }
    prefix
}

/// The value of a text, style or newline mutation.
pub enum Note {
    /// Display text.
    Text(Seq<char>),
    /// A role switch.
    Style(Role),
    /// A newline.
    Newline,
    /// Any other mutation.
    Other,
}

/// The value of a mutation.
pub open spec fn note_of(m: Mutation) -> Note {
    match m {
        Mutation::Text(t) => Note::Text(t@),
        Mutation::Style(r) => Note::Style(r),
        Mutation::Newline => Note::Newline,
        _ => Note::Other,
    }
}

/// Notes for the finished lines of `p` (each nonempty line's text, then a
/// newline) and the line in progress.
pub open spec fn plain_state(p: Seq<char>) -> (Seq<Note>, Seq<char>)
    decreases p.len(),
{
    if p.len() == 0 {
        (Seq::empty(), Seq::empty())
    } else {
        let prev = plain_state(p.drop_last());
        if p.last() == '\n' {
            ((if prev.1.len() > 0 { prev.0.push(Note::Text(prev.1)) } else { prev.0 }).push(Note::Newline), Seq::empty())
        } else {
            (prev.0, prev.1.push(p.last()))
        }
    }
}

/// A notice drawn in `role`: its lines, a return to the default role, and a final
/// newline unless the text ends with one.
pub open spec fn plain_notes(role: Role, n: Seq<char>) -> Seq<Note> {
    let st = plain_state(n);
    seq![Note::Style(role)] + st.0 + (if st.1.len() > 0 { seq![Note::Text(st.1)] } else { Seq::empty() })
        + seq![Note::Style(Role::Default)] + (if n.len() > 0 && n.last() == '\n' { Seq::empty() } else { seq![Note::Newline] })
}

/// A host notice as one unwrapped literal: CRLF normalized to LF, each line
/// drawn in `role`, and a final newline unless the text already ends with one.
pub fn plain_mutations(role: Role, text: &str) -> (r: Result<Vec<Mutation>, EditError>)
    ensures
        match r {
            Ok(ms) => spec_valid_text(lf_normalized(text@))
                && ms@.map_values(|m: Mutation| note_of(m)) == plain_notes(role, lf_normalized(text@)),
            Err(e) => e == EditError::InvalidText && !spec_valid_text(lf_normalized(text@)),
        },
{
    let normalized = normalize_crlf(text);
    let t = normalized.as_str();
    if !valid_text(t) {
        return Err(EditError::InvalidText);
    }
    let mut out = Vec::new();
    out.push(Mutation::Style(role));
    let mut line = String::new();
    let mut last_was_break = false;
    for c in it: t.chars()
        invariant
            it.seq() == t@,
            it.index() <= t@.len(),
            out@.map_values(|m: Mutation| note_of(m)) == seq![Note::Style(role)] + plain_state(t@.take(it.index() as int)).0,
            line@ == plain_state(t@.take(it.index() as int)).1,
            last_was_break == (it.index() > 0 && t@[it.index() - 1] == '\n'),
    {
        let ghost i = it.index();
        let ghost before = out@.map_values(|m: Mutation| note_of(m));
        proof {
            assert(t@.take(i + 1).drop_last() =~= t@.take(i as int));
            assert(t@.take(i + 1).last() == c);
        }
        if c == '\n' {
            if !line.as_str().is_empty() {
                let ghost l = line@;
                out.push(Mutation::Text(line));
                assert(out@.map_values(|m: Mutation| note_of(m)) =~= before.push(Note::Text(l)));
            }
            let ghost mid = out@.map_values(|m: Mutation| note_of(m));
            out.push(Mutation::Newline);
            assert(out@.map_values(|m: Mutation| note_of(m)) =~= mid.push(Note::Newline));
            line = String::new();
            last_was_break = true;
        } else {
            push_char(&mut line, c);
            last_was_break = false;
        }
    }
    assert(t@.take(t@.len() as int) =~= t@);
    let ghost st = plain_state(t@);
    let ghost before = out@.map_values(|m: Mutation| note_of(m));
    if !line.as_str().is_empty() {
        let ghost l = line@;
        out.push(Mutation::Text(line));
        assert(out@.map_values(|m: Mutation| note_of(m)) =~= before.push(Note::Text(l)));
    }
    let ghost mid = out@.map_values(|m: Mutation| note_of(m));
    out.push(Mutation::Style(Role::Default));
    assert(out@.map_values(|m: Mutation| note_of(m)) =~= mid.push(Note::Style(Role::Default)));
    let ghost mid2 = out@.map_values(|m: Mutation| note_of(m));
    if !last_was_break {
        out.push(Mutation::Newline);
        assert(out@.map_values(|m: Mutation| note_of(m)) =~= mid2.push(Note::Newline));
    }
    assert(out@.map_values(|m: Mutation| note_of(m)) =~= plain_notes(role, t@));
    Ok(out)
}

} // verus!
