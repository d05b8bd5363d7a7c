//! Semantic roles, themes, prompts and the logical frame of an editing surface.
//! Layout is pure geometry; terminal protocols are encoded elsewhere.
use crate::analysis_presentation::{spans_nonempty, spans_ordered, AnalysisSpan};
use crate::document::{pieces, rows_view, Piece};
use crate::editor::{EditError, Editor};
use crate::segment::{display_width, display_width_of, grapheme_starts, grapheme_starts_of, partition_offsets, offsets_below};
use crate::text::{byte_len, bytes_of, lemma_encode_concat, safe_display, spec_safe_display, substring};
use vstd::prelude::*;
use vstd::string::*;
use vstd::utf8::*;

verus! {

broadcast use {encode_utf8_decode_utf8, encode_utf8_valid_utf8, decode_utf8_encode_utf8};

/// Generic appearance selected by the host, never a token class.
#[derive(Clone, Copy, Debug, PartialEq, Eq, Structural)]
pub enum Role {
    /// Terminal default appearance.
    Default,
    /// Emphasis.
    Strong,
    /// Highlight.
    Accent,
    /// De-emphasis.
    Dim,
    /// Positive outcome.
    Success,
    /// Caution.
    Warning,
    /// Failure.
    Error,
}

/// Resolved styling policy: whether semantic roles produce color sequences.
#[derive(Clone, Copy, Debug, PartialEq, Eq, Structural)]
pub struct Theme {
    /// Styling is enabled.
    pub color: bool,
}

/// Whether a theme with these environment facts styles its output.
pub open spec fn theme_colors(output_is_tty: bool, no_color: bool, dumb: bool) -> bool {
    output_is_tty && !no_color && !dumb
}

impl Theme {
    /// Resolve styling from explicit facts: a terminal output, no NO_COLOR
    /// request and a TERM other than `dumb`.
    pub fn new(output_is_tty: bool, no_color: bool, term: Option<&str>) -> (r: Self)
        ensures
            r.color == theme_colors(output_is_tty, no_color, match term {
                Some(t) => t@ == "dumb"@,
                None => false,
            }),
    {
        let dumb = match term {
            Some(t) => crate::text::str_equal(t, "dumb"),
            None => false,
        };
        Theme { color: output_is_tty && !no_color && !dumb }
    }

    /// An explicitly plain theme.
    pub fn plain() -> (r: Self)
        ensures
            !r.color,
    {
        Theme { color: false }
    }

    /// The terminal sequence selecting `role`, or nothing when plain.
    pub fn sequence(self, role: Role) -> (r: &'static str)
        ensures
            r@ == crate::protocol::style_view(self.color, role),
    {
        crate::protocol::style(self.color, role)
    }
}

/// One styled or textual element of a frame line.
#[derive(Clone, Debug, PartialEq)]
pub enum Run {
    /// Display text with no control characters.
    Text(String),
    /// Switch to a role.
    Style(Role),
}

/// One row of a frame.
#[derive(Clone, Debug, PartialEq, Default)]
pub struct Line(pub Vec<Run>);

/// A row/column position on the surface.
#[derive(Clone, Copy, Debug, PartialEq, Eq, Structural)]
pub struct Point {
    /// Zero-based row.
    pub row: usize,
    /// Zero-based display column.
    pub col: usize,
}

/// The prompt drawn before the first logical line and before continuation lines.
#[derive(Clone, Debug, PartialEq)]
pub struct Prompt {
    first: String,
    continuation: String,
    role: Role,
}

/// Maximum UTF-8 bytes of a prompt label.
pub const MAX_PROMPT_BYTES: usize = 3072;

impl Prompt {
    /// First-line prompt text.
    pub closed spec fn spec_first(&self) -> Seq<char> {
        self.first@
    }

    /// Continuation-line prompt text.
    pub closed spec fn spec_continuation(&self) -> Seq<char> {
        self.continuation@
    }

    /// Role the prompt is drawn in.
    pub closed spec fn spec_role(&self) -> Role {
        self.role
    }

    /// A `label> ` prompt with `... ` continuation lines. The label must be safe
    /// single-line display text of at most 3072 bytes.
    pub fn new(label: &str) -> (r: Result<Self, EditError>)
        ensures
            match r {
                Ok(p) => spec_safe_display(label@) && label.spec_bytes().len() <= MAX_PROMPT_BYTES
                    && p.spec_first() == label@ + "> "@ && p.spec_continuation() == "... "@
                    && p.spec_role() == Role::Accent,
                Err(e) => (e == EditError::Capacity && label.spec_bytes().len() > MAX_PROMPT_BYTES)
                    || (e == EditError::InvalidText && !spec_safe_display(label@)
                    && label.spec_bytes().len() <= MAX_PROMPT_BYTES),
            },
    {
        if byte_len(label) > MAX_PROMPT_BYTES {
            return Err(EditError::Capacity);
        }
        if !safe_display(label) {
            return Err(EditError::InvalidText);
        }
        let mut first = label.to_owned();
        first.append("> ");
        let continuation = "... ".to_owned();
        Ok(Prompt { first, continuation, role: Role::Accent })
    }

    /// The first-line prompt text.
    pub fn first(&self) -> (r: &str)
        ensures
            r@ == self.spec_first(),
    {
        self.first.as_str()
    }

    /// The continuation prompt text.
    pub fn continuation(&self) -> (r: &str)
        ensures
            r@ == self.spec_continuation(),
    {
        self.continuation.as_str()
    }

    /// The prompt's role.
    pub fn role(&self) -> (r: Role)
        ensures
            r == self.spec_role(),
    {
        self.role
    }
}

} // verus!

verus! {

/// One laid-out surface: rows of runs, their display widths, and the cursor.
#[derive(Clone, Debug)]
pub struct Frame {
    /// Visible rows.
    pub lines: Vec<Line>,
    /// Display width of each visible row.
    pub widths: Vec<usize>,
    /// Cursor position.
    pub cursor: Point,
    /// Position after the last drawn cell.
    pub end: Point,
    /// Surface columns.
    pub columns: usize,
    /// Surface rows.
    pub rows: usize,
    /// Draft byte length this frame shows.
    pub source_len: usize,
    /// Draft cursor this frame shows.
    pub source_cursor: usize,
}

impl Frame {
    /// Rows and widths correspond, there is a row, and the cursor and end lie on rows.
    pub open spec fn wf(&self) -> bool {
        &&& self.lines@.len() == self.widths@.len()
        &&& self.lines@.len() >= 1
        &&& self.cursor.row < self.lines@.len()
        &&& self.end.row == self.lines@.len() - 1
    }
}

/// Rows available to the editable draft on a surface of `rows` rows.
pub open spec fn draft_rows(rows: usize) -> int {
    if rows > 2 { rows - 1 } else { 1 }
}

/// Layout geometry so far: finished row widths, the current column, the
/// logical column that tab stops count from, and where the cursor was placed.
pub struct Geometry {
    /// Widths of finished rows.
    pub widths: Seq<usize>,
    /// Cells used on the current row.
    pub col: usize,
    /// Cells since the last line break of the draft.
    pub lcol: usize,
    /// Where the cursor was placed, once it has been.
    pub cursor: Option<Point>,
    /// Text of finished rows.
    pub texts: Seq<Seq<char>>,
    /// Text of the current row.
    pub cur: Seq<char>,
}

/// Geometry after the `k`th grapheme cluster, with bytes `cb` at byte `off`: LF
/// ends the row and the continuation prompt `cont` (`cont_w` cells) opens the next;
/// a TAB advances to the next four-cell stop, shown as spaces; anything else takes
/// its display width, wrapping first when the row would pass `limit`.
pub open spec fn geo_step(g: Geometry, k: int, off: int, cb: Seq<u8>, cursor: int, limit: int, cont_w: usize,
    cont: Seq<char>) -> Geometry
{
    if cb == seq![10u8] {
        Geometry {
            widths: g.widths.push(g.col),
            col: cont_w,
            lcol: 0,
            cursor: if off == cursor { Some(Point { row: g.widths.len() as usize, col: g.col }) } else { g.cursor },
            texts: g.texts.push(g.cur),
            cur: cont,
        }
    } else {
        let tab = cb == seq![9u8];
        let w: int = if tab { 4 - g.lcol % 4 } else { display_width_of(decode_utf8(cb)) as int };
        let wrap = g.col > 0 && crate::document::sat(g.col + w) > limit && g.widths.len() < k;
        let widths = if wrap { g.widths.push(g.col) } else { g.widths };
        let col: usize = if wrap { 0 } else { g.col };
        let row: Seq<char> = if wrap { Seq::empty() } else { g.cur };
        let shown: Seq<char> = if tab { Seq::new(w as nat, |_i: int| ' ') } else { decode_utf8(cb) };
        Geometry {
            widths,
            col: crate::document::sat(col + w) as usize,
            lcol: crate::document::sat(g.lcol + w) as usize,
            cursor: if off == cursor { Some(Point { row: widths.len() as usize, col }) } else { g.cursor },
            texts: if wrap { g.texts.push(g.cur) } else { g.texts },
            cur: row + shown,
        }
    }
}

/// Geometry after the clusters from the `k`th on.
pub open spec fn geo_from(b: Seq<u8>, starts: Seq<usize>, k: int, g: Geometry, cursor: int, limit: int, cont_w: usize,
    cont: Seq<char>) -> Geometry
    decreases starts.len() - k,
{
    if k < 0 || k >= starts.len() {
        g
    } else {
        geo_from(b, starts, k + 1, geo_step(g, k, starts[k] as int, b.subrange(starts[k] as int, segment_end(b, starts, k)),
            cursor, limit, cont_w, cont), cursor, limit, cont_w, cont)
    }
}

/// The rows shown of `widths` on a surface of `rows` rows, scrolled so that the
/// cursor row is visible, and the cursor within them.
pub open spec fn scrolled(widths: Seq<usize>, cursor: Point, rows: usize) -> (Seq<usize>, Point) {
    let visible = draft_rows(rows);
    if widths.len() > visible {
        let first: int = if cursor.row + 1 > visible { cursor.row + 1 - visible } else { 0 };
        (widths.subrange(first, first + visible), Point { row: (cursor.row - first) as usize, col: cursor.col })
    } else {
        (widths, cursor)
    }
}

/// Row widths and cursor of the frame of a draft with characters `text` and byte
/// cursor `cursor`, after prompts `first` and `cont`, on a `columns` by `rows`
/// surface. Styling never enters it.
pub open spec fn frame_geometry(text: Seq<char>, cursor: int, first: Seq<char>, cont: Seq<char>, columns: usize, rows: usize)
    -> (Seq<usize>, Point)
{
    let g = frame_layout(text, cursor, first, cont, columns);
    let cp0 = match g.cursor {
        Some(p) => p,
        None => Point { row: g.widths.len() as usize, col: g.col },
    };
    let ws = if g.widths.len() < usize::MAX { g.widths.push(g.col) } else { g.widths };
    let cp = if (cp0.row as int) < ws.len() { cp0 } else { Point { row: (ws.len() - 1) as usize, col: cp0.col } };
    scrolled(ws, cp, rows)
}

/// Layout of every row of a draft before the last row is closed and before scrolling.
pub open spec fn frame_layout(text: Seq<char>, cursor: int, first: Seq<char>, cont: Seq<char>, columns: usize) -> Geometry {
    let limit: int = (if columns < 2 { 2 } else { columns }) - 1;
    let shown_first = clipped(first, limit - 1);
    let shown_cont = clipped(cont, limit - 1);
    geo_from(bytes_of(text), grapheme_starts_of(text), 0,
        Geometry { widths: Seq::empty(), col: display_width_of(shown_first), lcol: 0, cursor: None, texts: Seq::empty(),
            cur: shown_first }, cursor, limit, display_width_of(shown_cont), shown_cont)
}

/// The rows of `texts` kept when the frame is scrolled to show `cursor`.
pub open spec fn scrolled_rows<T>(texts: Seq<T>, cursor: Point, rows: usize) -> Seq<T> {
    let visible = draft_rows(rows);
    if texts.len() > visible {
        let first: int = if cursor.row + 1 > visible { cursor.row + 1 - visible } else { 0 };
        texts.subrange(first, first + visible)
    } else {
        texts
    }
}

/// Text of each shown row of the frame of a draft: the clipped prompt, then the
/// draft's clusters as they wrap, TABs as spaces, a continuation prompt after each
/// line break; scrolled like the row widths of [`frame_geometry`].
pub open spec fn frame_texts(text: Seq<char>, cursor: int, first: Seq<char>, cont: Seq<char>, columns: usize, rows: usize)
    -> Seq<Seq<char>>
{
    let g = frame_layout(text, cursor, first, cont, columns);
    let cp0 = match g.cursor {
        Some(p) => p,
        None => Point { row: g.widths.len() as usize, col: g.col },
    };
    let closed = g.widths.len() < usize::MAX;
    let ws_len: int = if closed { g.widths.len() + 1int } else { g.widths.len() as int };
    let ts = if closed { g.texts.push(g.cur) } else { g.texts };
    let cp = if (cp0.row as int) < ws_len { cp0 } else { Point { row: (ws_len - 1) as usize, col: cp0.col } };
    scrolled_rows(ts, cp, rows)
}

/// The text pieces of each row of `lines`.
pub open spec fn frame_plain(lines: Seq<Line>) -> Seq<Seq<char>> {
    lines.map_values(|l: Line| crate::document::row_plain(pieces(l)))
}

/// A row after `text` is written in `role` while `current` is the row's role:
/// a style switch opens a new text run, the same role extends the last run.
pub open spec fn pushed(row: Seq<Piece>, current: Role, role: Role, text: Seq<char>) -> Seq<Piece> {
    if row.len() == 0 || role != current {
        row + seq![Piece::Style(role), Piece::Text(text)]
    } else {
        row.drop_last().push(Piece::Text(row.last()->Text_0 + text))
    }
}

/// Styled rows so far: finished rows, the current row and its role.
pub struct Rows {
    /// Finished rows, each ending in the default role.
    pub done: Seq<Seq<Piece>>,
    /// The current row.
    pub row: Seq<Piece>,
    /// The role the current row is in.
    pub role: Role,
}

/// A finished row: the current row, then the default role.
pub open spec fn closed_row(row: Seq<Piece>) -> Seq<Piece> {
    row.push(Piece::Style(Role::Default))
}

/// Styled rows after the `k`th cluster, laid out from geometry `g` (see
/// [`geo_step`]): a line break closes the row and opens the next with the
/// continuation prompt in the dim role; other clusters, wrapped like their
/// cells, are written in `role`.
pub open spec fn rows_step(g: Geometry, r: Rows, k: int, cb: Seq<u8>, limit: int, cont: Seq<char>, role: Role) -> Rows {
    if cb == seq![10u8] {
        Rows { done: r.done.push(closed_row(r.row)), row: seq![Piece::Style(Role::Dim), Piece::Text(cont)], role: Role::Dim }
    } else {
        let tab = cb == seq![9u8];
        let w: int = if tab { 4 - g.lcol % 4 } else { display_width_of(decode_utf8(cb)) as int };
        let wrap = g.col > 0 && crate::document::sat(g.col + w) > limit && g.widths.len() < k;
        let shown: Seq<char> = if tab { Seq::new(w as nat, |_i: int| ' ') } else { decode_utf8(cb) };
        let done = if wrap { r.done.push(closed_row(r.row)) } else { r.done };
        let row = if wrap { Seq::<Piece>::empty() } else { r.row };
        let current = if wrap { Role::Default } else { r.role };
        Rows { done, row: pushed(row, current, role, shown), role }
    }
}

/// Styled rows after the clusters from the `k`th on, each cluster in the role
/// of the span covering its first byte.
pub open spec fn rows_from(b: Seq<u8>, starts: Seq<usize>, k: int, g: Geometry, r: Rows, cursor: int, limit: int,
    cont_w: usize, cont: Seq<char>, spans: Seq<AnalysisSpan>) -> Rows
    decreases starts.len() - k,
{
    if k < 0 || k >= starts.len() {
        r
    } else {
        let cb = b.subrange(starts[k] as int, segment_end(b, starts, k));
        rows_from(b, starts, k + 1, geo_step(g, k, starts[k] as int, cb, cursor, limit, cont_w, cont),
            rows_step(g, r, k, cb, limit, cont, role_of(spans, starts[k] as int)), cursor, limit, cont_w, cont, spans)
    }
}

/// Styled rows of the frame of a draft: the clipped first prompt in `prompt_role`,
/// then the draft's clusters in the roles of `spans`; scrolled like the row widths
/// of [`frame_geometry`].
pub open spec fn frame_rows(text: Seq<char>, cursor: int, first: Seq<char>, cont: Seq<char>, prompt_role: Role,
    spans: Seq<AnalysisSpan>, columns: usize, rows: usize) -> Seq<Seq<Piece>>
{
    let limit: int = (if columns < 2 { 2 } else { columns }) - 1;
    let shown_first = clipped(first, limit - 1);
    let shown_cont = clipped(cont, limit - 1);
    let g0 = Geometry { widths: Seq::empty(), col: display_width_of(shown_first), lcol: 0, cursor: None,
        texts: Seq::empty(), cur: shown_first };
    let r0 = Rows { done: Seq::empty(), row: seq![Piece::Style(prompt_role), Piece::Text(shown_first)], role: prompt_role };
    let r = rows_from(bytes_of(text), grapheme_starts_of(text), 0, g0, r0, cursor, limit, display_width_of(shown_cont),
        shown_cont, spans);
    let g = frame_layout(text, cursor, first, cont, columns);
    let cp0 = match g.cursor {
        Some(p) => p,
        None => Point { row: g.widths.len() as usize, col: g.col },
    };
    let closed = g.widths.len() < usize::MAX;
    let ws_len: int = if closed { g.widths.len() + 1int } else { g.widths.len() as int };
    let all = if closed { r.done.push(closed_row(r.row)) } else { r.done };
    let cp = if (cp0.row as int) < ws_len { cp0 } else { Point { row: (ws_len - 1) as usize, col: cp0.col } };
    scrolled_rows(all, cp, rows)
}

/// The spans of an optional presentation.
pub open spec fn analysis_spans(analysis: Option<&crate::analysis_presentation::AnalysisPresentation>) -> Seq<AnalysisSpan> {
    match analysis {
        Some(a) => a.spec_spans(),
        None => Seq::empty(),
    }
}

struct Builder {
    lines: Vec<Line>,
    widths: Vec<usize>,
    line: Vec<Run>,
    col: usize,
    role: Role,
}

impl Builder {
    spec fn wf(&self) -> bool {
        &&& self.lines@.len() == self.widths@.len()
        &&& self.row().len() > 0 ==> self.row().last() is Text
    }

    /// The current row as pieces.
    spec fn row(&self) -> Seq<Piece> {
        self.line@.map_values(|r: Run| crate::document::piece(r))
    }

    /// Text of the finished rows.
    spec fn texts(&self) -> Seq<Seq<char>> {
        frame_plain(self.lines@)
    }

    /// Text of the current row.
    spec fn cur(&self) -> Seq<char> {
        crate::document::row_plain(self.line@.map_values(|r: Run| crate::document::piece(r)))
    }

    fn push(&mut self, role: Role, text: &str, width: usize)
        requires
            old(self).wf(),
        ensures
            final(self).wf(),
            final(self).lines@.len() == old(self).lines@.len(),
            final(self).widths@ == old(self).widths@,
            final(self).col as int == crate::document::sat(old(self).col + width),
            final(self).texts() == old(self).texts(),
            final(self).cur() == old(self).cur() + text@,
            rows_view(final(self).lines@) == rows_view(old(self).lines@),
            final(self).row() == pushed(old(self).row(), old(self).role, role, text@),
            final(self).role == role,
    {
        let ghost before = self.line@;
        if self.line.len() == 0 || role != self.role {
            self.line.push(Run::Style(role));
            self.role = role;
            self.line.push(Run::Text(text.to_owned()));
            proof {
                lemma_plain_push(before, Run::Style(role));
                lemma_plain_push(before.push(Run::Style(role)), self.line@.last());
                assert(self.line@ =~= before.push(Run::Style(role)).push(self.line@.last()));
            }
        } else {
            let last = self.line.pop().unwrap();
            proof {
                assert(before =~= self.line@.push(last));
                lemma_plain_push(self.line@, last);
            }
            let ghost init = self.line@;
            match last {
                Run::Text(mut t) => {
                    t.append(text);
                    self.line.push(Run::Text(t));
                    proof {
                        lemma_plain_push(init, self.line@.last());
                    }
                },
                other => {
                    self.line.push(other);
                    self.line.push(Run::Text(text.to_owned()));
                    proof {
                        lemma_plain_push(init, self.line@[init.len() as int]);
                        assert(self.line@ =~= init.push(self.line@[init.len() as int]).push(self.line@.last()));
                        lemma_plain_push(init.push(self.line@[init.len() as int]), self.line@.last());
                    }
                },
            }
        }
        self.col = self.col.saturating_add(width);
    }

    fn newline(&mut self)
        requires
            old(self).wf(),
            old(self).lines@.len() < usize::MAX,
        ensures
            final(self).wf(),
            final(self).lines@.len() == old(self).lines@.len() + 1,
            final(self).col == 0,
            final(self).widths@ == old(self).widths@.push(old(self).col),
            final(self).texts() == old(self).texts().push(old(self).cur()),
            final(self).cur() == Seq::<char>::empty(),
            rows_view(final(self).lines@) == rows_view(old(self).lines@).push(closed_row(old(self).row())),
            final(self).row() == Seq::<Piece>::empty(),
            final(self).role == Role::Default,
    {
        let ghost before = self.line@;
        let ghost lines0 = self.lines@;
        let mut runs = Vec::new();
        std::mem::swap(&mut runs, &mut self.line);
        runs.push(Run::Style(Role::Default));
        proof {
            lemma_plain_push(before, Run::Style(Role::Default));
        }
        self.lines.push(Line(runs));
        self.widths.push(self.col);
        self.col = 0;
        self.role = Role::Default;
        proof {
            assert(self.lines@ =~= lines0.push(self.lines@.last()));
            assert(frame_plain(self.lines@) =~= frame_plain(lines0).push(crate::document::row_plain(pieces(self.lines@.last()))));
            assert(self.line@.map_values(|r: Run| crate::document::piece(r)) =~= Seq::<Piece>::empty());
            assert(pieces(self.lines@.last()) =~= closed_row(before.map_values(|r: Run| crate::document::piece(r))));
            assert(rows_view(self.lines@) =~= rows_view(lines0).push(pieces(self.lines@.last())));
        }
    }
}

/// A run's text joins its row's text; a style adds none.
proof fn lemma_plain_push(runs: Seq<Run>, r: Run)
    ensures
        crate::document::row_plain(runs.push(r).map_values(|x: Run| crate::document::piece(x)))
            == crate::document::row_plain(runs.map_values(|x: Run| crate::document::piece(x))) + match r {
                Run::Text(t) => t@,
                Run::Style(_) => Seq::<char>::empty(),
            },
{
    let a = runs.push(r).map_values(|x: Run| crate::document::piece(x));
    let b = runs.map_values(|x: Run| crate::document::piece(x));
    assert(a.drop_last() =~= b);
}

/// Byte end of the `k`th segment of a partition of `b`.
pub open spec fn segment_end(b: Seq<u8>, starts: Seq<usize>, k: int) -> int {
    if k + 1 < starts.len() { starts[k + 1] as int } else { b.len() as int }
}

/// Byte start of the `k`th segment of a partition of `b`, or its length past the last.
pub open spec fn segment_start(b: Seq<u8>, starts: Seq<usize>, k: int) -> int {
    if k < starts.len() { starts[k] as int } else { b.len() as int }
}

/// Number of leading grapheme clusters that `clip` keeps, counting from cluster `k`
/// with `width` cells already used: a cluster is kept while the cells used with it
/// stay below `columns`, leaving the last cell for the ellipsis.
pub open spec fn kept_clusters(b: Seq<u8>, starts: Seq<usize>, k: int, width: int, columns: int) -> int
    decreases starts.len() - k,
{
    if k >= starts.len() {
        k
    } else {
        let cells = display_width_of(
            decode_utf8(b.subrange(starts[k] as int, segment_end(b, starts, k))),
        );
        if width + cells >= columns {
            k
        } else {
            kept_clusters(b, starts, k + 1, width + cells, columns)
        }
    }
}

/// What `clip` shows of `text` in `columns` cells.
pub open spec fn clipped(text: Seq<char>, columns: int) -> Seq<char> {
    if display_width_of(text) <= columns {
        text
    } else if columns == 0 {
        Seq::empty()
    } else {
        let b = bytes_of(text);
        let starts = grapheme_starts_of(text);
        let k = kept_clusters(b, starts, 0, 0, columns);
        decode_utf8(b.subrange(0, segment_start(b, starts, k))) + seq!['\u{2026}']
    }
}

/// Keep `text` within `columns` cells, ending with an ellipsis when shortened.
pub fn clip(text: &str, columns: usize) -> (r: String)
    ensures
        r@ == clipped(text@, columns as int),
{
    if display_width(text) <= columns {
        return text.to_owned();
    }
    if columns == 0 {
        return String::new();
    }
    let mut result = String::new();
    let mut width: usize = 0;
    let starts = grapheme_starts(text);
    let n = byte_len(text);
    let ghost b = text.spec_bytes();
    let mut k: usize = 0;
    proof {
        assert(bytes_of(result@) =~= b.subrange(0, 0));
    }
    let ghost total = kept_clusters(b, starts@, 0, 0, columns as int);
    while k < starts.len()
        invariant
            partition_offsets(b, starts@),
            b == text.spec_bytes(),
            n == b.len(),
            k <= starts@.len(),
            width < columns,
            bytes_of(result@) == b.subrange(0, segment_start(b, starts@, k as int)),
            total == kept_clusters(b, starts@, k as int, width as int, columns as int),
        ensures
            total == k,
            bytes_of(result@) == b.subrange(0, segment_start(b, starts@, k as int)),
        decreases starts@.len() - k,
    {
        let e = if k < starts.len() - 1 { starts[k + 1] } else { n };
        proof {
            vstd::utf8::is_char_boundary_start_end_of_seq(b);
            if k < starts@.len() - 1 {
                assert(starts@[k as int] < starts@[k + 1]);
            }
            if k == 0 {
                assert(starts@[0] == 0);
            }
        }
        let g = substring(text, starts[k], e);
        let cells = display_width(g.as_str());
        proof {
            assert(g@ == decode_utf8(b.subrange(starts@[k as int] as int, segment_end(b, starts@, k as int))));
        }
        if width.saturating_add(cells) >= columns {
            break;
        }
        let ghost before = result@;
        result.append(g.as_str());
        width = width + cells;
        k += 1;
        proof {
            lemma_encode_concat(before, g@);
            assert(bytes_of(result@) =~= b.subrange(0, segment_start(b, starts@, k as int)));
        }
    }
    let ghost kept = result@;
    push_str(&mut result, "\u{2026}");
    proof {
        reveal_strlit("\u{2026}");
        assert(kept == decode_utf8(bytes_of(kept)));
        assert(result@ =~= decode_utf8(b.subrange(0, segment_start(b, starts@, k as int))) + seq!['\u{2026}']);
    }
    result
}

fn push_str(s: &mut String, t: &str)
    ensures
        final(s)@ == old(s)@ + t@,
{
    s.append(t);
}

/// The role of the span covering byte `off`, or the default role when none does.
pub open spec fn role_of(spans: Seq<AnalysisSpan>, off: int) -> Role {
    if exists|i: int| 0 <= i < spans.len() && (#[trigger] spans[i]).spec_start() <= off < spans[i].spec_end() {
        spans[choose|i: int| 0 <= i < spans.len() && (#[trigger] spans[i]).spec_start() <= off < spans[i].spec_end()].spec_role()
    } else {
        Role::Default
    }
}

/// In ordered nonempty spans, an earlier span ends before a later one starts.
proof fn lemma_spans_apart(spans: Seq<AnalysisSpan>, i: int, j: int)
    requires
        spans_ordered(spans),
        spans_nonempty(spans),
        0 <= i < j < spans.len(),
    ensures
        spans[i].spec_end() <= spans[j].spec_start(),
    decreases j - i,
{
    if j > i + 1 {
        lemma_spans_apart(spans, i, j - 1);
        assert(spans[j - 1].spec_end() <= spans[j].spec_start());
        assert(spans[j - 1].spec_start() < spans[j - 1].spec_end());
    }
}

/// Role of the span covering byte `off`, scanning forward from span `si`, which
/// every earlier span ends at or before.
fn role_at(spans: &[AnalysisSpan], si: &mut usize, off: usize) -> (r: Role)
    requires
        *old(si) <= spans@.len(),
        spans_ordered(spans@),
        spans_nonempty(spans@),
        forall|j: int| 0 <= j < *old(si) ==> (#[trigger] spans@[j]).spec_end() <= off,
    ensures
        *final(si) <= spans@.len(),
        forall|j: int| 0 <= j < *final(si) ==> (#[trigger] spans@[j]).spec_end() <= off,
        r == role_of(spans@, off as int),
{
    while *si < spans.len() && spans[*si].range().end <= off
        invariant
            *si <= spans@.len(),
            forall|j: int| 0 <= j < *si ==> (#[trigger] spans@[j]).spec_end() <= off,
        decreases spans@.len() - *si,
    {
        *si = *si + 1;
    }
    let k = *si;
    let covered = k < spans.len() && spans[k].range().start <= off;
    proof {
        let sv = spans@;
        if covered {
            assert(sv[k as int].spec_start() <= off < sv[k as int].spec_end());
            assert forall|i: int| 0 <= i < sv.len() && (#[trigger] sv[i]).spec_start() <= off < sv[i].spec_end() implies i == k by {
                if i > k {
                    lemma_spans_apart(sv, k as int, i);
                } else if i < k {
                    assert(sv[i].spec_end() <= off);
                }
            }
        } else {
            assert forall|i: int| 0 <= i < sv.len() implies !((#[trigger] sv[i]).spec_start() <= off < sv[i].spec_end()) by {
                if i > k {
                    lemma_spans_apart(sv, k as int, i);
                    assert(sv[k as int].spec_start() < sv[k as int].spec_end());
                } else if i < k {
                    assert(sv[i].spec_end() <= off);
                }
            }
        }
    }
    if covered {
        spans[k].role()
    } else {
        Role::Default
    }
}

impl Frame {
    /// Lay out the prompt and draft at the surface size.
    pub fn new(editor: &Editor, prompt: &Prompt, columns: usize, rows: usize) -> (f: Frame)
        requires
            editor.wf(),
        ensures
            f.wf(),
            f.lines@.len() <= draft_rows(rows),
            f.columns == columns,
            f.rows == rows,
            f.source_len == editor.bytes().len(),
            f.source_cursor == editor.pos(),
            (f.widths@, f.cursor) == frame_geometry(editor.chars(), editor.pos() as int, prompt.spec_first(),
                prompt.spec_continuation(), columns, rows),
            frame_plain(f.lines@) == frame_texts(editor.chars(), editor.pos() as int, prompt.spec_first(),
                prompt.spec_continuation(), columns, rows),
            rows_view(f.lines@) == frame_rows(editor.chars(), editor.pos() as int, prompt.spec_first(),
                prompt.spec_continuation(), prompt.spec_role(), Seq::empty(), columns, rows),
            f.end == (Point { row: (f.widths@.len() - 1) as usize, col: f.widths@.last() }),
    {
        Self::analyzed(editor, prompt, columns, rows, None)
    }

    /// Lay out the prompt and draft, styling the draft with host analysis spans.
    /// Spans change only roles: geometry and cursor equal those of [`Frame::new`].
    pub fn analyzed(editor: &Editor, prompt: &Prompt, columns: usize, rows: usize,
        analysis: Option<&crate::analysis_presentation::AnalysisPresentation>) -> (f: Frame)
        requires
            editor.wf(),
        ensures
            f.wf(),
            f.lines@.len() <= draft_rows(rows),
            f.columns == columns,
            f.rows == rows,
            f.source_len == editor.bytes().len(),
            f.source_cursor == editor.pos(),
            (f.widths@, f.cursor) == frame_geometry(editor.chars(), editor.pos() as int, prompt.spec_first(),
                prompt.spec_continuation(), columns, rows),
            frame_plain(f.lines@) == frame_texts(editor.chars(), editor.pos() as int, prompt.spec_first(),
                prompt.spec_continuation(), columns, rows),
            rows_view(f.lines@) == frame_rows(editor.chars(), editor.pos() as int, prompt.spec_first(),
                prompt.spec_continuation(), prompt.spec_role(), analysis_spans(analysis), columns, rows),
            f.end == (Point { row: (f.widths@.len() - 1) as usize, col: f.widths@.last() }),
    {
        let cols = if columns < 2 { 2 } else { columns };
        let limit = cols - 1;
        let text = editor.text();
        let n = byte_len(text);
        let cursor = editor.cursor();
        let starts = grapheme_starts(text);
        let empty: Vec<crate::analysis_presentation::AnalysisSpan> = Vec::new();
        let spans = match analysis {
            Some(a) => a.spans(),
            None => empty.as_slice(),
        };
        assert(spans@ =~= analysis_spans(analysis));
        let mut si: usize = 0;
        let mut b = Builder { lines: Vec::new(), widths: Vec::new(), line: Vec::new(), col: 0, role: Role::Default };
        let first = clip(prompt.first(), limit - 1);
        let w = display_width(first.as_str());
        assert(b.widths@ =~= Seq::<usize>::empty());
        assert(b.line@.map_values(|r: Run| crate::document::piece(r)) =~= Seq::<Piece>::empty());
        assert(frame_plain(b.lines@) =~= Seq::<Seq<char>>::empty());
        b.push(prompt.role(), first.as_str(), w);
        let mut lcol: usize = 0;
        let mut cursor_point: Option<Point> = None;
        let ghost bt = text.spec_bytes();
        let ghost ct = clipped(prompt.spec_continuation(), limit - 1);
        let ghost cw = display_width_of(ct);
        proof {
            assert(b.texts() =~= Seq::<Seq<char>>::empty());
            assert(b.cur() == first@);
        }
        let ghost goal = geo_from(bt, starts@, 0, Geometry { widths: b.widths@, col: b.col, lcol: 0, cursor: None,
            texts: b.texts(), cur: b.cur() }, cursor as int, limit as int, cw, ct);
        proof {
            assert(rows_view(b.lines@) =~= Seq::<Seq<Piece>>::empty());
            assert(b.row() =~= seq![Piece::Style(prompt.spec_role()), Piece::Text(first@)]);
        }
        let ghost rgoal = rows_from(bt, starts@, 0, Geometry { widths: b.widths@, col: b.col, lcol: 0, cursor: None,
            texts: b.texts(), cur: b.cur() }, Rows { done: rows_view(b.lines@), row: b.row(), role: b.role },
            cursor as int, limit as int, cw, ct, spans@);
        let mut k: usize = 0;
        while k < starts.len()
            invariant
                b.wf(),
                b.lines@.len() <= k,
                k <= starts@.len(),
                limit >= 1,
                si <= spans@.len(),
                bt == text.spec_bytes(),
                partition_offsets(bt, starts@),
                n == bt.len(),
                cursor_point matches Some(p) ==> p.row <= b.lines@.len(),
                ct == clipped(prompt.spec_continuation(), limit - 1),
                cw == display_width_of(ct),
                goal == geo_from(bt, starts@, k as int, (Geometry { widths: b.widths@, col: b.col, lcol, cursor: cursor_point,
                    texts: b.texts(), cur: b.cur() }), cursor as int, limit as int, cw, ct),
                rgoal == rows_from(bt, starts@, k as int, (Geometry { widths: b.widths@, col: b.col, lcol, cursor: cursor_point,
                    texts: b.texts(), cur: b.cur() }), (Rows { done: rows_view(b.lines@), row: b.row(), role: b.role }),
                    cursor as int, limit as int, cw, ct, spans@),
                spans_ordered(spans@),
                spans_nonempty(spans@),
                k < starts@.len() ==> forall|j: int| 0 <= j < si ==> (#[trigger] spans@[j]).spec_end() <= starts@[k as int],
            decreases starts@.len() - k,
        {
            let off = starts[k];
            let e = if k < starts.len() - 1 { starts[k + 1] } else { n };
            proof {
                vstd::utf8::is_char_boundary_start_end_of_seq(text.spec_bytes());
                if k < starts@.len() - 1 {
                    assert(starts@[k as int] < starts@[k + 1]);
                }
            }
            let g = substring(text, off, e);
            let role = role_at(spans, &mut si, off);
            proof {
                if k + 1 < starts@.len() {
                    assert forall|j: int| 0 <= j < si implies (#[trigger] spans@[j]).spec_end() <= starts@[k + 1] by {
                        assert(spans@[j].spec_end() <= off);
                    }
                }
            }
            if crate::editor::is_single_byte_str(g.as_str(), 10) {
                if off == cursor {
                    cursor_point = Some(Point { row: b.lines.len(), col: b.col });
                }
                b.newline();
                let cont = clip(prompt.continuation(), limit - 1);
                let cw = display_width(cont.as_str());
                b.push(Role::Dim, cont.as_str(), cw);
                lcol = 0;
            } else {
                let tab = crate::editor::is_single_byte_str(g.as_str(), 9);
                let w = if tab { 4 - lcol % 4 } else { display_width(g.as_str()) };
                if b.col > 0 && b.col.saturating_add(w) > limit && b.lines.len() < k {
                    b.newline();
                }
                if off == cursor {
                    cursor_point = Some(Point { row: b.lines.len(), col: b.col });
                }
                if tab {
                    let spaces = if w == 1 { " " } else if w == 2 { "  " } else if w == 3 { "   " } else { "    " };
                    proof {
                        reveal_strlit(" ");
                        reveal_strlit("  ");
                        reveal_strlit("   ");
                        reveal_strlit("    ");
                        assert(spaces@ =~= Seq::new(w as nat, |_i: int| ' '));
                    }
                    b.push(role, spaces, w);
                } else {
                    b.push(role, g.as_str(), w);
                }
                lcol = lcol.saturating_add(w);
            }
            k += 1;
        }
        let cp = match cursor_point {
            Some(p) => p,
            None => Point { row: b.lines.len(), col: b.col },
        };
        if b.lines.len() < usize::MAX {
            b.newline();
        }
        let cp = if cp.row < b.lines.len() { cp } else { Point { row: b.lines.len() - 1, col: cp.col } };
        assert(text@ == editor.chars());
        Self::viewport(b.lines, b.widths, cp, columns, rows, n, cursor)
    }

    /// Keep at most `draft_rows(rows)` rows, scrolled so the cursor row is visible.
    fn viewport(lines: Vec<Line>, widths: Vec<usize>, cursor: Point, columns: usize, rows: usize, n: usize, c: usize) -> (f: Frame)
        requires
            lines@.len() == widths@.len(),
            cursor.row < lines@.len(),
        ensures
            f.wf(),
            f.lines@.len() <= draft_rows(rows),
            f.columns == columns,
            f.rows == rows,
            f.source_len == n,
            f.source_cursor == c,
            (f.widths@, f.cursor) == scrolled(widths@, cursor, rows),
            frame_plain(f.lines@) == scrolled_rows(frame_plain(lines@), cursor, rows),
            rows_view(f.lines@) == scrolled_rows(rows_view(lines@), cursor, rows),
            f.end == (Point { row: (f.widths@.len() - 1) as usize, col: f.widths@.last() }),
    {
        let ghost plain0 = frame_plain(lines@);
        let ghost view0 = rows_view(lines@);
        let visible: usize = if rows > 2 { rows - 1 } else { 1 };
        let mut lines = lines;
        let mut widths = widths;
        let mut cursor = cursor;
        if lines.len() > visible {
            let first = if cursor.row + 1 > visible { cursor.row + 1 - visible } else { 0 };
            lines.truncate(first + visible);
            widths.truncate(first + visible);
            let lines2 = lines.split_off(first);
            let widths2 = widths.split_off(first);
            lines = lines2;
            widths = widths2;
            proof {
                assert(frame_plain(lines@) =~= plain0.subrange(first as int, first + visible));
                assert(rows_view(lines@) =~= view0.subrange(first as int, first + visible));
            }
            cursor = Point { row: cursor.row - first, col: cursor.col };
        }
        let last = lines.len() - 1;
        let end = Point { row: last, col: widths[last] };
        Frame { lines, widths, cursor, end, columns, rows, source_len: n, source_cursor: c }
    }
}

} // verus!

verus! {

impl Frame {
    /// Append a styled, non-canonical suffix to the last row, after which the
    /// style returns to the default; the cursor and row count are unchanged.
    pub fn append_suffix(&mut self, role: Role, text: String)
        requires
            old(self).wf(),
        ensures
            final(self).wf(),
            Frame::suffix_added(*old(self), *final(self), role, text@),
            final(self).lines@.len() == old(self).lines@.len(),
            final(self).cursor == old(self).cursor,
            final(self).columns == old(self).columns,
            final(self).rows == old(self).rows,
            final(self).source_len == old(self).source_len,
            final(self).source_cursor == old(self).source_cursor,
    {
        let width = display_width(text.as_str());
        let last = self.lines.len() - 1;
        let ghost before = rows_view(self.lines@);
        let ghost t = text@;
        let mut line = self.lines.pop().unwrap();
        let ghost head = pieces(line);
        line.0.push(Run::Style(role));
        line.0.push(Run::Text(text));
        line.0.push(Run::Style(Role::Default));
        assert(pieces(line) =~= head + seq![Piece::Style(role), Piece::Text(t), Piece::Style(Role::Default)]);
        self.lines.push(line);
        assert(rows_view(self.lines@) =~= before.update(last as int, before.last()
            + seq![Piece::Style(role), Piece::Text(t), Piece::Style(Role::Default)]));
        let w = self.widths[last].saturating_add(width);
        self.widths.set(last, w);
        self.end.col = self.end.col.saturating_add(width);
    }

    /// `new` is `old` with `text` in `role` after its last row, then the default
    /// role; the row's width and the end position grow by the text's cells.
    pub open spec fn suffix_added(old: Frame, new: Frame, role: Role, text: Seq<char>) -> bool {
        &&& rows_view(new.lines@) == rows_view(old.lines@).update(old.lines@.len() - 1,
            rows_view(old.lines@).last() + seq![Piece::Style(role), Piece::Text(text), Piece::Style(Role::Default)])
        &&& new.widths@ == old.widths@.update(old.widths@.len() - 1,
            crate::document::sat(old.widths@.last() + display_width_of(text)) as usize)
        &&& new.end == (Point { row: old.end.row, col: crate::document::sat(old.end.col + display_width_of(text)) as usize })
        &&& new.cursor == old.cursor
        &&& new.columns == old.columns
        &&& new.rows == old.rows
        &&& new.source_len == old.source_len
        &&& new.source_cursor == old.source_cursor
    }

    /// Cells available after the last drawn cell, keeping the terminal's last
    /// column free; zero unless the cursor is at the end of the draft.
    pub open spec fn suffix_cells(f: Frame) -> usize {
        if f.source_cursor != f.source_len || f.end.col >= f.columns { 0 } else { (f.columns - f.end.col - 1) as usize }
    }

    /// Cells available after the last drawn cell, keeping the terminal's last
    /// column free; zero unless the cursor is at the end of the draft.
    pub fn suffix_room(&self) -> (r: usize)
        ensures
            r == Frame::suffix_cells(*self),
    {
        if self.source_cursor != self.source_len {
            return 0;
        }
        if self.end.col >= self.columns {
            0
        } else {
            self.columns - self.end.col - 1
        }
    }
}

} // verus!
