//! Logical surface transitions: frames become cursor-relative mutations.
//! No terminal protocol and no system resources.
use crate::editor::Editor;
use crate::presentation::{segment_end, Frame, Line, Point, Prompt, Role, Run};
use crate::segment::{display_width, display_width_of, grapheme_starts, grapheme_starts_of, partition_offsets};
use crate::document::{pieces, rows_view, sat, Piece};
use crate::text::{blen, byte_len, bytes_of, substring};
use vstd::prelude::*;
use vstd::string::*;
use vstd::utf8::*;

verus! {

broadcast use {encode_utf8_decode_utf8, encode_utf8_valid_utf8, decode_utf8_encode_utf8};

/// One abstract terminal operation, relative to the current cursor.
#[derive(Clone, Debug, PartialEq)]
pub enum Mutation {
    /// Display text without control characters.
    Text(String),
    /// Select a role's appearance.
    Style(Role),
    /// Return to column zero.
    CarriageReturn,
    /// Move to the start of the next row.
    Newline,
    /// Move up rows.
    Up(usize),
    /// Move down rows.
    Down(usize),
    /// Move right columns.
    Right(usize),
    /// Move left columns.
    Left(usize),
    /// Clear the whole current row.
    ClearLine,
    /// Clear from the cursor to the end of the row.
    ClearToEnd,
    /// Clear the screen and home the cursor.
    ClearScreen,
    /// Enable or disable bracketed paste.
    Paste(bool),
}

/// What changed since the retained frame was laid out.
#[derive(Clone, Copy, Debug, PartialEq, Eq, Structural)]
pub enum Damage {
    /// Anything; lay out again.
    Rebuild,
    /// Only the cursor moved.
    Cursor,
    /// Printable ASCII was appended at the end.
    AppendAscii,
    /// Printable ASCII was removed from the end.
    BackspaceAscii,
}

/// The mutation that draws one run.
pub open spec fn run_mutation_spec(r: Run) -> Mutation {
    match r {
        Run::Text(t) => Mutation::Text(t),
        Run::Style(x) => Mutation::Style(x),
    }
}

/// The mutations that draw one row's runs.
pub open spec fn line_mutations(l: Line) -> Seq<Mutation> {
    l.0@.map_values(|r: Run| run_mutation_spec(r))
}

/// The mutations that draw rows top to bottom, separated by newlines.
pub open spec fn lines_mutations(ls: Seq<Line>) -> Seq<Mutation>
    decreases ls.len(),
{
    if ls.len() == 0 {
        seq![]
    } else if ls.len() == 1 {
        line_mutations(ls[0])
    } else {
        lines_mutations(ls.drop_last()) + seq![Mutation::Newline] + line_mutations(ls.last())
    }
}

/// After drawing, the moves from the end of the last row back to the cursor.
pub open spec fn cursor_return(f: Frame) -> Seq<Mutation> {
    let up = f.lines@.len() - 1 - f.cursor.row;
    if f.cursor == f.end {
        seq![]
    } else if f.cursor.row == f.end.row && f.cursor.col < f.end.col {
        seq![Mutation::Left((f.end.col - f.cursor.col) as usize)]
    } else {
        seq![Mutation::CarriageReturn]
            + (if up > 0 { seq![Mutation::Up(up as usize)] } else { seq![] })
            + (if f.cursor.col > 0 { seq![Mutation::Right(f.cursor.col)] } else { seq![] })
    }
}

/// Everything that draws a frame from its top-left cell.
pub open spec fn draw_spec(f: Frame) -> Seq<Mutation> {
    lines_mutations(f.lines@) + cursor_return(f)
}

/// `k` repetitions of clearing a row and stepping down to the next.
pub open spec fn clear_steps(k: nat) -> Seq<Mutation>
    decreases k,
{
    if k == 0 {
        seq![]
    } else {
        clear_steps((k - 1) as nat) + seq![Mutation::ClearLine, Mutation::Down(1), Mutation::CarriageReturn]
    }
}

/// Everything that blanks a drawn frame and returns to its first row.
pub open spec fn erase_spec(f: Frame) -> Seq<Mutation> {
    let n = f.lines@.len();
    seq![Mutation::CarriageReturn]
        + (if f.cursor.row > 0 { seq![Mutation::Up(f.cursor.row)] } else { seq![] })
        + clear_steps((n - 1) as nat) + seq![Mutation::ClearLine]
        + (if n > 1 { seq![Mutation::Up((n - 1) as usize)] } else { seq![] })
        + seq![Mutation::CarriageReturn]
}

/// Moves from `from` to `to`; a row change starts with a carriage return,
/// which also cancels a pending wrap after a full-width row.
pub open spec fn goto_moves(from: Point, to: Point, columns: usize) -> Seq<Mutation> {
    if from == to {
        seq![]
    } else if from.row == to.row && from.col < columns {
        if to.col < from.col {
            seq![Mutation::Left((from.col - to.col) as usize)]
        } else if to.col > from.col {
            seq![Mutation::Right((to.col - from.col) as usize)]
        } else {
            seq![]
        }
    } else {
        seq![Mutation::CarriageReturn]
            + (if from.row > to.row {
                seq![Mutation::Up((from.row - to.row) as usize)]
            } else if from.row < to.row {
                seq![Mutation::Down((to.row - from.row) as usize)]
            } else {
                seq![]
            })
            + (if to.col > 0 { seq![Mutation::Right(to.col)] } else { seq![] })
    }
}

/// Whether two runs draw the same thing.
pub open spec fn same_run(a: Run, b: Run) -> bool {
    match (a, b) {
        (Run::Text(x), Run::Text(y)) => x@ == y@,
        (Run::Style(x), Run::Style(y)) => x == y,
        _ => false,
    }
}

/// Whether two rows draw the same runs.
pub open spec fn same_line(a: Line, b: Line) -> bool {
    a.0@.len() == b.0@.len() && forall|i: int| 0 <= i < a.0@.len() ==> same_run(#[trigger] a.0@[i], b.0@[i])
}

fn run_mutation(run: &Run) -> (m: Mutation)
    ensures
        m == run_mutation_spec(*run),
{
    match run {
        Run::Text(text) => Mutation::Text(text.clone()),
        Run::Style(role) => Mutation::Style(*role),
    }
}

/// Append the mutations that draw `line`.
fn push_line(out: &mut Vec<Mutation>, line: &Line)
    ensures
        final(out)@ == old(out)@ + line_mutations(*line),
{
    let mut i: usize = 0;
    while i < line.0.len()
        invariant
            i <= line.0@.len(),
            out@ == old(out)@ + line.0@.take(i as int).map_values(|r: Run| run_mutation_spec(r)),
        decreases line.0@.len() - i,
    {
        let m = run_mutation(&line.0[i]);
        out.push(m);
        i += 1;
        assert(line.0@.take(i as int).map_values(|r: Run| run_mutation_spec(r)) =~= line.0@.take(i - 1).map_values(
            |r: Run| run_mutation_spec(r),
        ).push(run_mutation_spec(line.0@[i - 1])));
    }
    assert(line.0@.take(i as int) =~= line.0@);
}

fn same_line_exec(a: &Line, b: &Line) -> (r: bool)
    ensures
        r == same_line(*a, *b),
{
    if a.0.len() != b.0.len() {
        return false;
    }
    let mut i: usize = 0;
    while i < a.0.len()
        invariant
            a.0@.len() == b.0@.len(),
            i <= a.0@.len(),
            forall|j: int| 0 <= j < i ==> same_run(#[trigger] a.0@[j], b.0@[j]),
        decreases a.0@.len() - i,
    {
        let same = match (&a.0[i], &b.0[i]) {
            (Run::Text(x), Run::Text(y)) => *x == *y,
            (Run::Style(x), Run::Style(y)) => *x == *y,
            _ => false,
        };
        if !same {
            assert(!same_run(a.0@[i as int], b.0@[i as int]));
            return false;
        }
        i += 1;
    }
    true
}

/// Append the moves from `from` to `to`, and record that the cursor is at `to`.
fn goto(out: &mut Vec<Mutation>, from: &mut Point, to: Point, columns: usize)
    ensures
        final(out)@ == old(out)@ + goto_moves(*old(from), to, columns),
        *final(from) == to,
{
    let f = *from;
    if f == to {
        return;
    }
    if f.row == to.row && f.col < columns {
        if to.col < f.col {
            out.push(Mutation::Left(f.col - to.col));
        } else if to.col > f.col {
            out.push(Mutation::Right(to.col - f.col));
        }
    } else {
        out.push(Mutation::CarriageReturn);
        if f.row > to.row {
            out.push(Mutation::Up(f.row - to.row));
        } else if f.row < to.row {
            out.push(Mutation::Down(to.row - f.row));
        }
        if to.col > 0 {
            out.push(Mutation::Right(to.col));
        }
    }
    *from = to;
}

impl Frame {
    /// Blank every row of this frame, from any cursor row, ending at its first row.
    pub fn erase(&self) -> (out: Vec<Mutation>)
        requires
            self.wf(),
        ensures
            out@ == erase_spec(*self),
    {
        let n = self.lines.len();
        let mut out = Vec::new();
        out.push(Mutation::CarriageReturn);
        if self.cursor.row > 0 {
            out.push(Mutation::Up(self.cursor.row));
        }
        let ghost head = out@;
        let mut row: usize = 0;
        while row < n - 1
            invariant
                n == self.lines@.len(),
                n >= 1,
                row <= n - 1,
                out@ == head + clear_steps(row as nat),
            decreases n - 1 - row,
        {
            out.push(Mutation::ClearLine);
            out.push(Mutation::Down(1));
            out.push(Mutation::CarriageReturn);
            row += 1;
            assert(clear_steps(row as nat) == clear_steps((row - 1) as nat) + seq![Mutation::ClearLine, Mutation::Down(1), Mutation::CarriageReturn]);
            assert(out@ =~= head + clear_steps(row as nat));
        }
        out.push(Mutation::ClearLine);
        if n > 1 {
            out.push(Mutation::Up(n - 1));
        }
        out.push(Mutation::CarriageReturn);
        assert(out@ =~= erase_spec(*self));
        out
    }

    /// Draw every row from the top-left cell and put the cursor in place.
    pub fn draw(&self) -> (out: Vec<Mutation>)
        requires
            self.wf(),
        ensures
            out@ == draw_spec(*self),
    {
        let n = self.lines.len();
        let mut out = Vec::new();
        let mut i: usize = 0;
        while i < n
            invariant
                n == self.lines@.len(),
                i <= n,
                out@ == lines_mutations(self.lines@.take(i as int)),
            decreases n - i,
        {
            if i > 0 {
                out.push(Mutation::Newline);
            }
            push_line(&mut out, &self.lines[i]);
            i += 1;
            assert(self.lines@.take(i as int).drop_last() =~= self.lines@.take(i - 1));
            assert(self.lines@.take(i as int).last() == self.lines@[i - 1]);
            if i == 1 {
                assert(self.lines@.take(0) =~= Seq::<Line>::empty());
            }
        }
        assert(self.lines@.take(n as int) =~= self.lines@);
        if self.cursor == self.end {
            assert(out@ =~= draw_spec(*self));
            return out;
        }
        if self.cursor.row == self.end.row && self.cursor.col < self.end.col {
            out.push(Mutation::Left(self.end.col - self.cursor.col));
            assert(out@ =~= draw_spec(*self));
            return out;
        }
        out.push(Mutation::CarriageReturn);
        let up = n - 1 - self.cursor.row;
        if up > 0 {
            out.push(Mutation::Up(up));
        }
        if self.cursor.col > 0 {
            out.push(Mutation::Right(self.cursor.col));
        }
        assert(out@ =~= draw_spec(*self));
        out
    }
}

/// Whether every byte is a space or visible ASCII.
fn printable_ascii(s: &str) -> (r: bool)
    ensures
        r == forall|i: int| 0 <= i < s.spec_bytes().len() ==> 0x20 <= #[trigger] s.spec_bytes()[i] <= 0x7e,
{
    let b = s.as_bytes();
    let mut i: usize = 0;
    while i < b.len()
        invariant
            b@ == s.spec_bytes(),
            i <= b@.len(),
            forall|j: int| 0 <= j < i ==> 0x20 <= #[trigger] b@[j] <= 0x7e,
        decreases b@.len() - i,
    {
        if b[i] < 0x20 || b[i] > 0x7e {
            return false;
        }
        i += 1;
    }
    true
}

/// Whether the text holds a line feed or a tab.
pub(crate) fn has_break(s: &str) -> (r: bool)
    ensures
        r == exists|i: int| 0 <= i < s.spec_bytes().len() && (#[trigger] s.spec_bytes()[i] == 10 || s.spec_bytes()[i] == 9),
{
    let b = s.as_bytes();
    let mut i: usize = 0;
    while i < b.len()
        invariant
            b@ == s.spec_bytes(),
            i <= b@.len(),
            forall|j: int| 0 <= j < i ==> !(#[trigger] b@[j] == 10 || b@[j] == 9),
        decreases b@.len() - i,
    {
        if b[i] == 10 || b[i] == 9 {
            assert(s.spec_bytes()[i as int] == 10 || s.spec_bytes()[i as int] == 9);
            return true;
        }
        i += 1;
    }
    false
}

/// Display cells of `s` summed grapheme by grapheme; `None` when one grapheme
/// is wider than `columns`.
/// Cells of the clusters of `b` from the `k`th on, added to `acc`; `None` when
/// one of them is wider than `columns` or the sum leaves `usize`.
pub open spec fn cells_from(b: Seq<u8>, starts: Seq<usize>, k: int, acc: int, columns: usize) -> Option<int>
    decreases starts.len() - k,
{
    if k < 0 || k >= starts.len() {
        Some(acc)
    } else {
        let w = display_width_of(decode_utf8(b.subrange(starts[k] as int, segment_end(b, starts, k)))) as int;
        if w > columns || acc + w > usize::MAX {
            None
        } else {
            cells_from(b, starts, k + 1, acc + w, columns)
        }
    }
}

/// Cells of the grapheme clusters of `s`, each at most `columns` wide.
pub open spec fn span_cells(s: Seq<char>, columns: usize) -> Option<int> {
    cells_from(bytes_of(s), grapheme_starts_of(s), 0, 0, columns)
}

fn grapheme_cells(s: &str, columns: usize) -> (r: Option<usize>)
    ensures
        match r {
            Some(w) => span_cells(s@, columns) == Some(w as int),
            None => span_cells(s@, columns) is None,
        },
{
    let starts = grapheme_starts(s);
    let n = byte_len(s);
    let ghost b = s.spec_bytes();
    let mut width: usize = 0;
    let mut k: usize = 0;
    while k < starts.len()
        invariant
            b == s.spec_bytes(),
            starts@ == grapheme_starts_of(s@),
            partition_offsets(b, starts@),
            n == b.len(),
            k <= starts@.len(),
            span_cells(s@, columns) == cells_from(b, starts@, k as int, width as int, columns),
        decreases starts@.len() - k,
    {
        let e = if k < starts.len() - 1 { starts[k + 1] } else { n };
        proof {
            is_char_boundary_start_end_of_seq(s.spec_bytes());
            if k < starts@.len() - 1 {
                assert(starts@[k as int] < starts@[k + 1]);
            }
        }
        let g = substring(s, starts[k], e);
        proof {
            assert(g@ == decode_utf8(b.subrange(starts@[k as int] as int, segment_end(b, starts@, k as int))));
        }
        let w = display_width(g.as_str());
        if w > columns {
            return None;
        }
        width = match width.checked_add(w) {
            Some(v) => v,
            None => return None,
        };
        k += 1;
    }
    Some(width)
}

/// The first grapheme of `s`, if any.
fn first_grapheme(s: &str) -> (r: Option<String>)
    ensures
        s.spec_bytes().len() == 0 ==> r is None,
{
    let starts = grapheme_starts(s);
    let n = byte_len(s);
    if starts.len() == 0 {
        return None;
    }
    let e = if starts.len() > 1 { starts[1] } else { n };
    proof {
        is_char_boundary_start_end_of_seq(s.spec_bytes());
        if starts@.len() > 1 {
            assert(starts@[0] < starts@[1]);
        }
    }
    Some(substring(s, 0, e))
}

/// The frame's draft and cursor fields describe `editor`, and its geometry is unchanged.
pub open spec fn reused(old: Frame, new: Frame, editor: &Editor) -> bool {
    &&& new.wf()
    &&& new.columns == old.columns
    &&& new.rows == old.rows
    &&& new.lines@.len() == old.lines@.len()
    &&& new.source_len == editor.bytes().len()
    &&& new.source_cursor == editor.pos()
}

/// Rows, widths and end are unchanged.
pub open spec fn same_rows(a: Frame, b: Frame) -> bool {
    &&& rows_view(a.lines@) == rows_view(b.lines@)
    &&& a.widths@ == b.widths@
    &&& a.end == b.end
}

/// Only the cursor moved, along its row, by the cells of the clusters between
/// the old and the new draft cursor; `out` moves the terminal cursor there.
pub open spec fn cursor_moved(old: Frame, new: Frame, editor: &Editor, out: Seq<Mutation>) -> bool {
    let oc = old.source_cursor as int;
    let nc = editor.pos() as int;
    let lo = if oc < nc { oc } else { nc };
    let hi = if oc < nc { nc } else { oc };
    &&& same_rows(old, new)
    &&& old.source_len == editor.bytes().len()
    &&& new.cursor.row == old.cursor.row
    &&& (oc == nc ==> new.cursor == old.cursor)
    &&& (oc != nc ==> (span_cells(decode_utf8(editor.bytes().subrange(lo, hi)), old.columns) matches Some(w)
        && new.cursor.col == if nc < oc { old.cursor.col - w } else { old.cursor.col + w }))
    &&& out == goto_moves(old.cursor, new.cursor, old.columns)
}

/// Printable ASCII `added` was appended to the last text run of the last row,
/// which grows by its length; the cursor sits at the new end and `out` writes it.
pub open spec fn ascii_appended(old: Frame, new: Frame, editor: &Editor, out: Seq<Mutation>) -> bool {
    let added = editor.bytes().subrange(old.source_len as int, editor.bytes().len() as int);
    let rows = rows_view(old.lines@);
    let last = rows.last();
    &&& added.len() > 0
    &&& forall|i: int| 0 <= i < added.len() ==> 0x20 <= #[trigger] added[i] <= 0x7e
    &&& last.len() > 0 && last.last() is Text
    &&& rows_view(new.lines@) == rows.update(rows.len() - 1,
        last.drop_last().push(Piece::Text(last.last()->Text_0 + decode_utf8(added))))
    &&& new.end == (Point { row: old.end.row, col: (old.end.col + added.len()) as usize })
    &&& new.cursor == new.end
    &&& new.widths@ == old.widths@.update(old.widths@.len() - 1, new.end.col)
    &&& out.len() == 1
    &&& out[0] matches Mutation::Text(t) && t@ == decode_utf8(added)
}

/// The last `removed` bytes, printable ASCII ending the last text run of the
/// last row, were taken away (with the run when it empties); the cursor moves
/// to the new end and `out` clears what followed it.
pub open spec fn ascii_removed(old: Frame, new: Frame, editor: &Editor, out: Seq<Mutation>) -> bool {
    let removed = old.source_len - editor.bytes().len();
    let rows = rows_view(old.lines@);
    let last = rows.last();
    let run = bytes_of(last.last()->Text_0);
    let keep = run.len() - removed;
    &&& 0 < removed <= old.end.col
    &&& last.len() > 0 && last.last() is Text
    &&& 0 <= keep
    &&& forall|i: int| keep <= i < run.len() ==> 0x20 <= #[trigger] run[i] <= 0x7e
    &&& rows_view(new.lines@) == rows.update(rows.len() - 1, last.drop_last()
        + if keep > 0 { seq![Piece::Text(decode_utf8(run.subrange(0, keep)))] } else { Seq::<Piece>::empty() })
    &&& new.end == (Point { row: old.end.row, col: (old.end.col - removed) as usize })
    &&& new.cursor == new.end
    &&& new.widths@ == old.widths@.update(old.widths@.len() - 1, new.end.col)
    &&& out == goto_moves(old.cursor, new.end, old.columns).push(Mutation::ClearToEnd)
}

/// `f` is the fresh layout of `editor` after `prompt` at `size`.
pub open spec fn laid_out(f: Frame, editor: &Editor, prompt: &Prompt, size: (usize, usize)) -> bool {
    &&& (f.widths@, f.cursor) == crate::presentation::frame_geometry(editor.chars(), editor.pos() as int,
        prompt.spec_first(), prompt.spec_continuation(), size.0, size.1)
    &&& crate::presentation::frame_plain(f.lines@) == crate::presentation::frame_texts(editor.chars(),
        editor.pos() as int, prompt.spec_first(), prompt.spec_continuation(), size.0, size.1)
}

/// What a reuse for `damage` did to the frame and emitted.
pub open spec fn reused_for(old: Frame, new: Frame, editor: &Editor, damage: Damage, out: Seq<Mutation>) -> bool {
    &&& reused(old, new, editor)
    &&& match damage {
        Damage::Cursor => cursor_moved(old, new, editor, out),
        Damage::AppendAscii => old.source_cursor == old.source_len && old.cursor == old.end
            && editor.pos() == editor.bytes().len() && ascii_appended(old, new, editor, out),
        Damage::BackspaceAscii => old.source_cursor == old.source_len && old.cursor == old.end
            && editor.pos() == editor.bytes().len() && ascii_removed(old, new, editor, out),
        Damage::Rebuild => false,
    }
}

/// When a reuse for `damage` is owed: a cursor damage over an unchanged draft
/// length that keeps the cursor where it was, or moves it along its row (not
/// from the first column) to the end of the draft across at most 4096 bytes
/// without a line break or tab, staying inside the width; a printable-ASCII
/// append at the end of the draft that stays inside the width; or the removal
/// of printable-ASCII bytes at the end of the draft that ends the last text
/// run, when both the old and the new cursor sit at the end.
pub open spec fn reuse_owed(old: Frame, editor: &Editor, damage: Damage) -> bool {
    let b = editor.bytes();
    let n = b.len() as int;
    let last = rows_view(old.lines@).last();
    match damage {
        Damage::Cursor => old.source_len == n && (old.source_cursor == editor.pos() || {
            let oc = old.source_cursor as int;
            let span = b.subrange(oc, n);
            &&& editor.pos() == n
            &&& oc < n
            &&& is_char_boundary(b, oc)
            &&& n - oc <= 4096
            &&& forall|i: int| 0 <= i < span.len() ==> #[trigger] span[i] != 10 && span[i] != 9
            &&& old.cursor.col != 0
            &&& span_cells(decode_utf8(span), old.columns) matches Some(w) && old.cursor.col + w < old.columns
        }),
        Damage::AppendAscii => {
            let added = b.subrange(old.source_len as int, n);
            &&& old.source_cursor == old.source_len
            &&& old.cursor == old.end
            &&& editor.pos() == n
            &&& old.source_len <= n
            &&& is_char_boundary(b, old.source_len as int)
            &&& added.len() > 0
            &&& forall|i: int| 0 <= i < added.len() ==> 0x20 <= #[trigger] added[i] <= 0x7e
            &&& old.end.col < old.columns
            &&& added.len() < old.columns - old.end.col
            &&& last.len() > 0 && last.last() is Text
        },
        Damage::BackspaceAscii => {
            let removed = old.source_len - n;
            let run = bytes_of(last.last()->Text_0);
            let keep = run.len() - removed;
            &&& old.source_cursor == old.source_len
            &&& old.cursor == old.end
            &&& editor.pos() == n
            &&& 0 < removed <= old.end.col
            &&& last.len() > 0 && last.last() is Text
            &&& 0 <= keep
            &&& is_char_boundary(run, keep)
            &&& forall|i: int| keep <= i < run.len() ==> 0x20 <= #[trigger] run[i] <= 0x7e
        },
        Damage::Rebuild => false,
    }
}

impl Frame {
    /// Update this frame in place for a change of kind `damage`, returning the
    /// mutations that bring a drawn copy up to date, or `None` when the change
    /// needs a fresh layout. Reuse is deliberately limited to printable ASCII
    /// and to cursor moves within one row.
    fn reuse(&mut self, editor: &Editor, damage: Damage) -> (r: Option<Vec<Mutation>>)
        requires
            old(self).wf(),
            editor.wf(),
        ensures
            r matches Some(out) ==> reused_for(*old(self), *final(self), editor, damage, out@),
            r is None ==> *final(self) == *old(self),
            reuse_owed(*old(self), editor, damage) ==> r is Some,
    {
        let text = editor.text();
        let n = byte_len(text);
        proof { is_char_boundary_start_end_of_seq(text.spec_bytes()); }
        let ghost before = *self;
        let mut out = Vec::new();
        match damage {
            Damage::Cursor => {
                if self.source_len != n {
                    return None;
                }
                let old_c = self.source_cursor;
                let new_c = editor.cursor();
                if old_c == new_c {
                    return Some(out);
                }
                if old_c > n || new_c > n || !text.is_char_boundary(old_c) || !text.is_char_boundary(new_c) {
                    return None;
                }
                let (lo, hi) = if old_c < new_c { (old_c, new_c) } else { (new_c, old_c) };
                if hi - lo > 4096 {
                    return None;
                }
                let span = substring(text, lo, hi);
                proof {
                    assert(bytes_of(span@) == editor.bytes().subrange(lo as int, hi as int));
                    assert(span@ == decode_utf8(editor.bytes().subrange(lo as int, hi as int)));
                }
                let ss = span.as_str();
                if has_break(ss) {
                    proof {
                        let i = choose|i: int| 0 <= i < ss.spec_bytes().len() && (#[trigger] ss.spec_bytes()[i] == 10
                            || ss.spec_bytes()[i] == 9);
                        assert(ss.spec_bytes() == bytes_of(span@));
                        assert(editor.bytes().subrange(lo as int, hi as int)[i] == ss.spec_bytes()[i]);
                        if reuse_owed(before, editor, damage) {
                            assert(editor.bytes().subrange(lo as int, hi as int)[i] != 10);
                            assert(false);
                        }
                    }
                    return None;
                }
                let width = match grapheme_cells(span.as_str(), self.columns) {
                    Some(w) => w,
                    None => return None,
                };
                let col = if new_c < old_c {
                    if self.cursor.col < width {
                        return None;
                    }
                    self.cursor.col - width
                } else {
                    match self.cursor.col.checked_add(width) {
                        Some(c) => c,
                        None => return None,
                    }
                };
                if col >= self.columns {
                    return None;
                }
                if self.cursor.col == 0 {
                    return None;
                }
                let rest = substring(text, new_c, n);
                assert(new_c == n ==> bytes_of(rest@).len() == 0);
                if let Some(g) = first_grapheme(rest.as_str()) {
                    let gs = g.as_str();
                    if !crate::editor::is_single_byte_str(gs, 10) && !crate::editor::is_single_byte_str(gs, 9) {
                        let w = display_width(gs);
                        let w = if w < self.columns { w } else { self.columns };
                        if w > self.columns - col {
                            return None;
                        }
                    }
                }
                let target = Point { row: self.cursor.row, col };
                let mut at = self.cursor;
                goto(&mut out, &mut at, target, self.columns);
                self.cursor = at;
                proof {
                    assert(span@ == decode_utf8(editor.bytes().subrange(lo as int, hi as int)));
                }
            },
            Damage::AppendAscii => {
                if !(self.source_cursor == self.source_len && self.cursor == self.end && editor.cursor() == n) {
                    return None;
                }
                if self.source_len > n || !text.is_char_boundary(self.source_len) {
                    return None;
                }
                let suffix = substring(text, self.source_len, n);
                let s = suffix.as_str();
                let len = byte_len(s);
                if len == 0 || !printable_ascii(s) || self.end.col >= self.columns || len >= self.columns - self.end.col {
                    return None;
                }
                let last_row = self.lines.len() - 1;
                let runs = &self.lines[last_row].0;
                if runs.len() == 0 {
                    return None;
                }
                let mut grown = match &runs[runs.len() - 1] {
                    Run::Text(t) => t.clone(),
                    Run::Style(_) => return None,
                };
                let ghost t0 = grown@;
                grown.append(s);
                let ghost rows = rows_view(self.lines@);
                let mut line = self.lines.pop().unwrap();
                let ghost lp = pieces(line);
                line.0.pop();
                line.0.push(Run::Text(grown));
                proof {
                    assert(pieces(line) =~= lp.drop_last().push(Piece::Text(t0 + s@)));
                }
                self.lines.push(line);
                proof {
                    assert(rows_view(self.lines@) =~= rows.update(rows.len() - 1, pieces(line)));
                    assert(s@ == decode_utf8(editor.bytes().subrange(before.source_len as int, n as int)));
                }
                self.end.col = self.end.col + len;
                self.cursor = self.end;
                self.widths.set(last_row, self.end.col);
                out.push(Mutation::Text(suffix));
            },
            Damage::BackspaceAscii => {
                if !(self.source_cursor == self.source_len && self.cursor == self.end && editor.cursor() == n) {
                    return None;
                }
                if n > self.source_len {
                    return None;
                }
                let removed = self.source_len - n;
                if removed == 0 || removed > self.end.col {
                    return None;
                }
                let last_row = self.lines.len() - 1;
                let runs = &self.lines[last_row].0;
                if runs.len() == 0 {
                    return None;
                }
                let last = match &runs[runs.len() - 1] {
                    Run::Text(t) => t.as_str(),
                    Run::Style(_) => return None,
                };
                let last_len = byte_len(last);
                if last_len < removed {
                    return None;
                }
                let keep = last_len - removed;
                if !last.is_char_boundary(keep) {
                    return None;
                }
                proof { is_char_boundary_start_end_of_seq(last.spec_bytes()); }
                let tail = substring(last, keep, last_len);
                let ts = tail.as_str();
                if !printable_ascii(ts) {
                    return None;
                }
                proof {
                    let b = last.spec_bytes();
                    assert(ts.spec_bytes() == b.subrange(keep as int, last_len as int));
                    assert forall|i: int| keep <= i < b.len() implies 0x20 <= #[trigger] b[i] <= 0x7e by {
                        assert(ts.spec_bytes()[i - keep] == b[i]);
                    }
                }
                let kept = substring(last, 0, keep);
                let ghost rows = rows_view(self.lines@);
                let ghost run = last.spec_bytes();
                let mut line = self.lines.pop().unwrap();
                let ghost lp = pieces(line);
                line.0.pop();
                if keep > 0 {
                    line.0.push(Run::Text(kept));
                }
                proof {
                    assert(kept@ == decode_utf8(run.subrange(0, keep as int)));
                    assert(pieces(line) =~= lp.drop_last() + if keep > 0 {
                        seq![Piece::Text(decode_utf8(run.subrange(0, keep as int)))]
                    } else {
                        Seq::<Piece>::empty()
                    });
                }
                self.lines.push(line);
                proof {
                    assert(rows_view(self.lines@) =~= rows.update(rows.len() - 1, pieces(line)));
                }
                self.end.col = self.end.col - removed;
                let target = self.end;
                let mut at = self.cursor;
                goto(&mut out, &mut at, target, self.columns);
                self.cursor = at;
                self.widths.set(last_row, self.end.col);
                out.push(Mutation::ClearToEnd);
            },
            Damage::Rebuild => {
                return None;
            },
        }
        self.source_len = n;
        self.source_cursor = editor.cursor();
        proof {
            assert(reused(before, *self, editor));
            match damage {
                Damage::Cursor => assert(cursor_moved(before, *self, editor, out@)),
                Damage::AppendAscii => assert(ascii_appended(before, *self, editor, out@)),
                Damage::BackspaceAscii => assert(ascii_removed(before, *self, editor, out@)),
                Damage::Rebuild => {},
            }
        }
        Some(out)
    }
}

/// Retains the last drawn frame so later frames can be drawn as differences.
pub struct Renderer {
    frame: Option<Frame>,
}

/// The moves from a drawn frame's cursor to just after its last cell.
pub open spec fn leave_head(f: Option<Frame>) -> Seq<Mutation> {
    match f {
        Some(f) => {
            let down = f.lines@.len() - 1 - f.cursor.row;
            (if down > 0 { seq![Mutation::Down(down as usize)] } else { seq![] })
                + seq![Mutation::CarriageReturn]
                + (if f.end.col > 0 { seq![Mutation::Right(f.end.col)] } else { seq![] })
        },
        None => seq![],
    }
}

/// What `leave` emits: move below the frame's last cell, mark an interruption,
/// and start a fresh row.
pub open spec fn leave_spec(f: Option<Frame>, interrupted: bool, out: Seq<Mutation>) -> bool {
    let head = leave_head(f);
    if interrupted {
        &&& out.len() == head.len() + 2
        &&& out.subrange(0, head.len() as int) == head
        &&& out[head.len() as int] matches Mutation::Text(t) && t@ == "^C"@
        &&& out.last() == Mutation::Newline
    } else {
        out == head + seq![Mutation::Newline]
    }
}

impl Renderer {
    /// The retained frame.
    pub closed spec fn spec_frame(&self) -> Option<Frame> {
        self.frame
    }

    /// A retained frame is well formed.
    pub open spec fn wf(&self) -> bool {
        self.spec_frame() matches Some(f) ==> f.wf()
    }

    /// A renderer that has drawn nothing.
    pub fn new() -> (r: Self)
        ensures
            r.spec_frame() is None,
    {
        Renderer { frame: None }
    }

    /// The retained frame.
    pub fn frame(&self) -> (r: Option<&Frame>)
        ensures
            r == match self.spec_frame() {
                Some(f) => Some(&f),
                None => None::<&Frame>,
            },
    {
        match &self.frame {
            Some(f) => Some(f),
            None => None,
        }
    }

    /// Blank the retained frame (or the current row) and forget it.
    pub fn erase(&mut self) -> (out: Vec<Mutation>)
        requires
            old(self).wf(),
        ensures
            final(self).spec_frame() is None,
            out@ == match old(self).spec_frame() {
                Some(f) => erase_spec(f),
                None => seq![Mutation::CarriageReturn, Mutation::ClearLine],
            },
    {
        match self.frame.take() {
            Some(f) => f.erase(),
            None => {
                let mut out = Vec::new();
                out.push(Mutation::CarriageReturn);
                out.push(Mutation::ClearLine);
                out
            },
        }
    }

    /// Clear the screen and forget the retained frame.
    pub fn clear(&mut self) -> (out: Vec<Mutation>)
        ensures
            final(self).spec_frame() is None,
            out@ == seq![Mutation::ClearScreen],
    {
        self.frame = None;
        let mut out = Vec::new();
        out.push(Mutation::ClearScreen);
        out
    }

    /// Move below the retained frame and start a fresh row, leaving the
    /// frame's text in the scrollback.
    pub fn leave(&mut self, interrupted: bool) -> (out: Vec<Mutation>)
        requires
            old(self).wf(),
        ensures
            final(self).spec_frame() is None,
            leave_spec(old(self).spec_frame(), interrupted, out@),
    {
        let mut out = Vec::new();
        if let Some(frame) = self.frame.take() {
            let down = frame.lines.len() - 1 - frame.cursor.row;
            if down > 0 {
                out.push(Mutation::Down(down));
            }
            out.push(Mutation::CarriageReturn);
            if frame.end.col > 0 {
                out.push(Mutation::Right(frame.end.col));
            }
        }
        let ghost head = out@;
        assert(head =~= leave_head(old(self).spec_frame()));
        if interrupted {
            let s = "^C".to_owned();
            out.push(Mutation::Text(s));
        }
        out.push(Mutation::Newline);
        proof {
            if interrupted {
                assert(out@.subrange(0, head.len() as int) =~= head);
            } else {
                assert(out@ =~= head + seq![Mutation::Newline]);
            }
        }
        out
    }

    /// Lay out the editor afresh and draw it as a transition.
    pub fn redraw(&mut self, editor: &Editor, prompt: &Prompt, size: (usize, usize)) -> (out: Vec<Mutation>)
        requires
            old(self).wf(),
            editor.wf(),
        ensures
            final(self).wf(),
            final(self).spec_frame() matches Some(f) && f.columns == size.0 && f.rows == size.1
                && f.source_len == editor.bytes().len() && f.source_cursor == editor.pos()
                && laid_out(f, editor, prompt, size)
                && moves(out@) == transition_moves(old(self).spec_frame(), f),
    {
        let f = Frame::new(editor, prompt, size.0, size.1);
        self.transition(f)
    }

    /// Reuse the retained frame's geometry for a change of kind `damage` when
    /// the size is unchanged and the change allows it; otherwise redraw.
    pub fn redraw_changed(&mut self, editor: &Editor, prompt: &Prompt, size: (usize, usize), damage: Damage) -> (out: Vec<Mutation>)
        requires
            old(self).wf(),
            editor.wf(),
        ensures
            final(self).wf(),
            final(self).spec_frame() matches Some(f) && f.columns == size.0 && f.rows == size.1
                && f.source_len == editor.bytes().len() && f.source_cursor == editor.pos()
                && ((old(self).spec_frame() matches Some(o) && o.columns == size.0 && o.rows == size.1
                    && reused_for(o, f, editor, damage, out@))
                || (laid_out(f, editor, prompt, size) && moves(out@) == transition_moves(old(self).spec_frame(), f))),
    {
        if let Some(mut frame) = self.frame.take() {
            if frame.columns == size.0 && frame.rows == size.1 {
                match frame.reuse(editor, damage) {
                    Some(out) => {
                        self.frame = Some(frame);
                        return out;
                    },
                    None => {
                        self.frame = Some(frame);
                        return self.redraw(editor, prompt, size);
                    },
                }
            }
            self.frame = Some(frame);
        }
        self.redraw(editor, prompt, size)
    }

    /// Make `frame` current, emitting changed rows only when the geometry and
    /// row count are unchanged, and otherwise erasing and drawing it whole.
    pub fn transition(&mut self, frame: Frame) -> (out: Vec<Mutation>)
        requires
            old(self).wf(),
            frame.wf(),
        ensures
            final(self).spec_frame() == Some(frame),
            final(self).wf(),
            old(self).spec_frame() is None ==> out@ == seq![Mutation::CarriageReturn, Mutation::ClearLine] + draw_spec(frame),
            moves(out@) == transition_moves(old(self).spec_frame(), frame),
    {
        match self.frame.take() {
            Some(old) => {
                if old.columns == frame.columns && old.rows == frame.rows && old.lines.len() == frame.lines.len() {
                    let out = changed_rows(&old, &frame);
                    self.frame = Some(frame);
                    out
                } else {
                    let mut out = old.erase();
                    let mut drawn = frame.draw();
                    out.append(&mut drawn);
                    self.frame = Some(frame);
                    out
                }
            },
            None => {
                let mut out = Vec::new();
                out.push(Mutation::CarriageReturn);
                out.push(Mutation::ClearLine);
                let mut drawn = frame.draw();
                out.append(&mut drawn);
                self.frame = Some(frame);
                out
            },
        }
    }
}

/// Whether every byte is ASCII.
fn is_ascii_text(s: &str) -> (r: bool)
    ensures
        r == forall|i: int| 0 <= i < s.spec_bytes().len() ==> #[trigger] s.spec_bytes()[i] < 0x80,
{
    let b = s.as_bytes();
    let mut i: usize = 0;
    while i < b.len()
        invariant
            b@ == s.spec_bytes(),
            i <= b@.len(),
            forall|j: int| 0 <= j < i ==> #[trigger] b@[j] < 0x80,
        decreases b@.len() - i,
    {
        if b[i] >= 0x80 {
            return false;
        }
        i += 1;
    }
    true
}

/// Whether every UTF-8 byte of a text is ASCII.
pub open spec fn ascii_text(t: Seq<char>) -> bool {
    forall|i: int| 0 <= i < bytes_of(t).len() ==> #[trigger] bytes_of(t)[i] < 0x80
}

/// Whether the first `k` runs of two rows agree and the text among them is ASCII.
pub open spec fn shared_prefix(old: Seq<Piece>, new: Seq<Piece>, k: int) -> bool {
    forall|i: int| 0 <= i < k ==> #[trigger] old[i] == new[i] && (new[i] is Text ==> ascii_text(new[i]->Text_0))
}

/// Cells (ASCII bytes) of the text among the first `k` runs, saturating.
pub open spec fn prefix_cols(new: Seq<Piece>, k: int) -> int
    decreases k,
{
    if k <= 0 {
        0
    } else {
        sat(prefix_cols(new, k - 1) + match new[k - 1] {
            Piece::Text(t) => blen(t),
            Piece::Style(_) => 0,
        })
    }
}

/// The role in effect after the first `k` runs.
pub open spec fn prefix_role(new: Seq<Piece>, k: int) -> Role
    decreases k,
{
    if k <= 0 {
        Role::Default
    } else {
        match new[k - 1] {
            Piece::Style(r) => r,
            Piece::Text(_) => prefix_role(new, k - 1),
        }
    }
}

/// Length of the common prefix of two byte strings, from `k` on.
pub open spec fn common_from(x: Seq<u8>, y: Seq<u8>, k: int) -> int
    decreases x.len() - k,
{
    if 0 <= k < x.len() && k < y.len() && x[k] == y[k] {
        common_from(x, y, k + 1)
    } else {
        k
    }
}

/// When two rows differ only in an ASCII tail of their last text run: the
/// column where they diverge, the new tail's bytes, and the role in effect there.
pub open spec fn ascii_tail(old: Seq<Piece>, new: Seq<Piece>) -> Option<(int, Seq<u8>, Role)> {
    let n = new.len();
    if old.len() != n || n == 0 || !shared_prefix(old, new, n - 1) {
        None
    } else {
        match (old[n - 1], new[n - 1]) {
            (Piece::Text(b), Piece::Text(a)) => if !ascii_text(b) || !ascii_text(a) {
                None
            } else {
                let shared = common_from(bytes_of(b), bytes_of(a), 0);
                Some((sat(prefix_cols(new, n - 1) + shared), bytes_of(a).subrange(shared, bytes_of(a).len() as int),
                    prefix_role(new, n - 1)))
            },
            _ => None,
        }
    }
}

/// When two rows differ only in an ASCII tail of their last text run, the
/// column where they diverge, the new tail, and the role in effect there.
/// Prefix reuse is deliberately restricted to ASCII so that combining and
/// joining context is never reinterpreted by a second width policy.
fn ascii_suffix(old: &Line, new: &Line) -> (r: Option<(usize, String, Role)>)
    ensures
        match r {
            None => ascii_tail(pieces(*old), pieces(*new)) is None,
            Some(t) => ascii_tail(pieces(*old), pieces(*new)) == Some((t.0 as int, bytes_of(t.1@), t.2)),
        },
{
    let ghost po = pieces(*old);
    let ghost pn = pieces(*new);
    let n = new.0.len();
    if old.0.len() != n || n == 0 {
        return None;
    }
    let last = n - 1;
    let mut col: usize = 0;
    let mut role = Role::Default;
    let mut i: usize = 0;
    while i < last
        invariant
            i <= last,
            last + 1 == n,
            n == new.0@.len(),
            n == old.0@.len(),
            po == pieces(*old),
            pn == pieces(*new),
            shared_prefix(po, pn, i as int),
            col as int == prefix_cols(pn, i as int),
            role == prefix_role(pn, i as int),
        decreases last - i,
    {
        let same = match (&old.0[i], &new.0[i]) {
            (Run::Text(x), Run::Text(y)) => *x == *y,
            (Run::Style(x), Run::Style(y)) => *x == *y,
            _ => false,
        };
        if !same {
            assert(po[i as int] != pn[i as int]);
            return None;
        }
        assert(po[i as int] == pn[i as int]);
        match &new.0[i] {
            Run::Text(t) => {
                let ts = t.as_str();
                if !is_ascii_text(ts) {
                    assert(ts.spec_bytes() == bytes_of(ts@));
                    assert(!ascii_text(pn[i as int]->Text_0));
                    assert(!shared_prefix(po, pn, last as int));
                    return None;
                }
                assert(ts.spec_bytes() == bytes_of(ts@));
                assert(pn[i as int]->Text_0 == ts@);
                assert(ascii_text(pn[i as int]->Text_0));
                col = col.saturating_add(byte_len(ts));
            },
            Run::Style(r) => {
                role = *r;
            },
        }
        assert(pn[i as int] is Text ==> ascii_text(pn[i as int]->Text_0));
        let ghost k = i as int;
        assert(po[k] == pn[k] && (pn[k] is Text ==> ascii_text(pn[k]->Text_0)));
        i += 1;
        assert(shared_prefix(po, pn, i as int)) by {
            assert forall|j: int| 0 <= j < i implies #[trigger] po[j] == pn[j] && (pn[j] is Text ==> ascii_text(pn[j]->Text_0)) by {
                if j < k {
                    assert(shared_prefix(po, pn, k));
                } else {
                    assert(j == k);
                }
            }
        }
    }
    let (before, after) = match (&old.0[last], &new.0[last]) {
        (Run::Text(b), Run::Text(a)) => (b.as_str(), a.as_str()),
        _ => return None,
    };
    if !is_ascii_text(before) || !is_ascii_text(after) {
        return None;
    }
    let x = before.as_bytes();
    let y = after.as_bytes();
    let mut shared: usize = 0;
    while shared < x.len() && shared < y.len() && x[shared] == y[shared]
        invariant
            shared <= x@.len(),
            shared <= y@.len(),
            x@ == before.spec_bytes(),
            y@ == after.spec_bytes(),
            common_from(x@, y@, 0) == common_from(x@, y@, shared as int),
        decreases x@.len() - shared,
    {
        shared += 1;
    }
    proof {
        is_char_boundary_start_end_of_seq(after.spec_bytes());
        if shared < y@.len() {
            is_char_boundary_iff_not_is_continuation_byte(after.spec_bytes(), shared as int);
            assert(y@[shared as int] < 0x80);
        }
    }
    if !after.is_char_boundary(shared) {
        return None;
    }
    let tail = substring(after, shared, byte_len(after));
    Some((col.saturating_add(shared), tail, role))
}

/// A mutation as a value.
pub enum Move {
    /// Display text.
    Text(Seq<char>),
    /// Select a role.
    Style(Role),
    /// Column zero.
    CarriageReturn,
    /// Next row.
    Newline,
    /// Up rows.
    Up(usize),
    /// Down rows.
    Down(usize),
    /// Right columns.
    Right(usize),
    /// Left columns.
    Left(usize),
    /// Clear the row.
    ClearLine,
    /// Clear to the end of the row.
    ClearToEnd,
    /// Clear the screen.
    ClearScreen,
    /// Bracketed paste.
    Paste(bool),
}

/// The value of a mutation.
pub open spec fn move_of(m: Mutation) -> Move {
    match m {
        Mutation::Text(t) => Move::Text(t@),
        Mutation::Style(r) => Move::Style(r),
        Mutation::CarriageReturn => Move::CarriageReturn,
        Mutation::Newline => Move::Newline,
        Mutation::Up(n) => Move::Up(n),
        Mutation::Down(n) => Move::Down(n),
        Mutation::Right(n) => Move::Right(n),
        Mutation::Left(n) => Move::Left(n),
        Mutation::ClearLine => Move::ClearLine,
        Mutation::ClearToEnd => Move::ClearToEnd,
        Mutation::ClearScreen => Move::ClearScreen,
        Mutation::Paste(b) => Move::Paste(b),
    }
}

/// Mutations as values.
pub open spec fn moves(ms: Seq<Mutation>) -> Seq<Move> {
    ms.map_values(|m: Mutation| move_of(m))
}

/// Patch one changed row, starting from cursor `at`: an ASCII tail is written
/// from the divergence column (clearing what is left of a shorter row); any other
/// row is cleared and drawn whole from column zero. The cursor ends after the row.
pub open spec fn row_patch(old: Frame, new: Frame, row: int, at: Point) -> (Seq<Move>, Point) {
    let end = Point { row: row as usize, col: new.widths@[row] };
    match ascii_tail(pieces(old.lines@[row]), pieces(new.lines@[row])) {
        Some(t) => (moves(goto_moves(at, Point { row: row as usize, col: t.0 as usize }, new.columns))
            + seq![Move::Style(t.2)]
            + (if t.1.len() > 0 { seq![Move::Text(decode_utf8(t.1))] } else { Seq::empty() })
            + (if new.widths@[row] < old.widths@[row] { seq![Move::ClearToEnd] } else { Seq::empty() }), end),
        None => (seq![Move::CarriageReturn]
            + moves(goto_moves(Point { row: at.row, col: 0 }, Point { row: row as usize, col: 0 }, new.columns))
            + seq![Move::ClearLine] + moves(line_mutations(new.lines@[row])), end),
    }
}

/// Mutations from row `row` on that bring `old` to `new`, the cursor at `at`:
/// changed rows are patched, then the cursor moves to its place.
pub open spec fn changed_from(old: Frame, new: Frame, row: int, at: Point) -> Seq<Move>
    decreases new.lines@.len() - row,
{
    if row < 0 || row >= new.lines@.len() {
        moves(goto_moves(at, new.cursor, new.columns))
    } else if same_line(old.lines@[row], new.lines@[row]) {
        changed_from(old, new, row + 1, at)
    } else {
        let p = row_patch(old, new, row, at);
        p.0 + changed_from(old, new, row + 1, p.1)
    }
}

/// What making `frame` current emits after the retained frame `old`: a whole
/// drawing when there was none, changed rows when the geometry and row count are
/// unchanged, and otherwise an erase and a whole drawing.
pub open spec fn transition_moves(old: Option<Frame>, frame: Frame) -> Seq<Move> {
    match old {
        None => moves(seq![Mutation::CarriageReturn, Mutation::ClearLine] + draw_spec(frame)),
        Some(o) => if o.columns == frame.columns && o.rows == frame.rows && o.lines@.len() == frame.lines@.len() {
            changed_from(o, frame, 0, o.cursor)
        } else {
            moves(erase_spec(o) + draw_spec(frame))
        },
    }
}

/// Patch one changed row.
fn patch_row(out: &mut Vec<Mutation>, at: &mut Point, prev: &Frame, new: &Frame, row: usize)
    requires
        row < new.lines@.len(),
        new.lines@.len() == prev.lines@.len(),
        new.lines@.len() == new.widths@.len(),
        prev.lines@.len() == prev.widths@.len(),
    ensures
        moves(final(out)@) == moves(old(out)@) + row_patch(*prev, *new, row as int, *old(at)).0,
        *final(at) == row_patch(*prev, *new, row as int, *old(at)).1,
{
    let ghost from = *at;
    let ghost start = out@;
    match ascii_suffix(&prev.lines[row], &new.lines[row]) {
        Some((col, suffix, role)) => {
            goto(out, at, Point { row, col }, new.columns);
            let ghost g = out@;
            out.push(Mutation::Style(role));
            let ghost h = out@;
            if byte_len(suffix.as_str()) > 0 {
                out.push(Mutation::Text(suffix));
            }
            let ghost k = out@;
            if new.widths[row] < prev.widths[row] {
                out.push(Mutation::ClearToEnd);
            }
            proof {
                let p = row_patch(*prev, *new, row as int, from);
                assert(moves(g) =~= moves(start) + moves(goto_moves(from, Point { row: row, col: col }, new.columns)));
                assert(moves(h) =~= moves(g) + seq![Move::Style(role)]);
                assert(moves(out@) =~= moves(start) + p.0);
            }
        },
        None => {
            out.push(Mutation::CarriageReturn);
            *at = Point { row: at.row, col: 0 };
            let ghost c = out@;
            goto(out, at, Point { row, col: 0 }, new.columns);
            let ghost g = out@;
            out.push(Mutation::ClearLine);
            let ghost h = out@;
            push_line(out, &new.lines[row]);
            proof {
                let p = row_patch(*prev, *new, row as int, from);
                assert(moves(c) =~= moves(start) + seq![Move::CarriageReturn]);
                assert(moves(g) =~= moves(c) + moves(goto_moves(Point { row: from.row, col: 0 }, Point { row: row, col: 0 }, new.columns)));
                assert(moves(h) =~= moves(g) + seq![Move::ClearLine]);
                assert(moves(out@) =~= moves(h) + moves(line_mutations(new.lines@[row as int])));
                assert(moves(out@) =~= moves(start) + p.0);
            }
        },
    }
    *at = Point { row, col: new.widths[row] };
}

/// Redraw each row of `new` that differs from `old`, then place the cursor.
/// A row whose change is an ASCII tail is patched from the divergence column;
/// any other changed row is cleared and drawn whole from column zero.
fn changed_rows(old: &Frame, new: &Frame) -> (out: Vec<Mutation>)
    requires
        old.wf(),
        new.wf(),
        old.lines@.len() == new.lines@.len(),
    ensures
        moves(out@) == changed_from(*old, *new, 0, old.cursor),
{
    let mut out = Vec::new();
    let mut at = old.cursor;
    let n = new.lines.len();
    let mut row: usize = 0;
    let ghost goal = changed_from(*old, *new, 0, old.cursor);
    assert(moves(out@) =~= Seq::<Move>::empty());
    while row < n
        invariant
            n == new.lines@.len(),
            n == old.lines@.len(),
            n == new.widths@.len(),
            n == old.widths@.len(),
            row <= n,
            goal == changed_from(*old, *new, 0, old.cursor),
            goal == moves(out@) + changed_from(*old, *new, row as int, at),
        decreases n - row,
    {
        if !same_line_exec(&old.lines[row], &new.lines[row]) {
            patch_row(&mut out, &mut at, old, new, row);
        }
        row += 1;
    }
    let ghost before = moves(out@);
    let ghost at_end = at;
    let ghost raw = out@;
    goto(&mut out, &mut at, new.cursor, new.columns);
    assert(moves(out@) =~= moves(raw) + moves(goto_moves(at_end, new.cursor, new.columns)));
    out
}

} // verus!
