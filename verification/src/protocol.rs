//! VT mutation encoding over any byte transport; no system resources.
use crate::presentation::{Role, Theme};
use crate::render::Mutation;
use crate::text::{decimal, push_decimal};
use vstd::prelude::*;
use vstd::string::*;

verus! {

/// The select-graphic-rendition text of `role`, or nothing without color.
pub open spec fn style_view(color: bool, role: Role) -> Seq<char> {
    if !color {
        ""@
    } else {
        match role {
            Role::Default => "\x1b[0m"@,
            Role::Strong => "\x1b[1;38;5;250m"@,
            Role::Accent => "\x1b[38;5;81m"@,
            Role::Dim => "\x1b[38;5;245m"@,
            Role::Success => "\x1b[38;5;114m"@,
            Role::Warning => "\x1b[38;5;179m"@,
            Role::Error => "\x1b[38;5;203m"@,
        }
    }
}

/// The select-graphic-rendition sequence of `role`, or nothing without color.
pub fn style(color: bool, role: Role) -> (r: &'static str)
    ensures
        r@ == style_view(color, role),
{
    if !color {
        return "";
    }
    match role {
        Role::Default => "\x1b[0m",
        Role::Strong => "\x1b[1;38;5;250m",
        Role::Accent => "\x1b[38;5;81m",
        Role::Dim => "\x1b[38;5;245m",
        Role::Success => "\x1b[38;5;114m",
        Role::Warning => "\x1b[38;5;179m",
        Role::Error => "\x1b[38;5;203m",
    }
}

/// A control sequence introducer, a count and a final character.
pub open spec fn csi(n: usize, fin: Seq<char>) -> Seq<char> {
    "\x1b["@ + decimal(n as nat) + fin
}

/// The VT text of one mutation.
pub open spec fn encode_one(m: Mutation, color: bool) -> Seq<char> {
    match m {
        Mutation::Text(t) => t@,
        Mutation::Style(r) => style_view(color, r),
        Mutation::CarriageReturn => "\r"@,
        Mutation::Newline => "\r\n"@,
        Mutation::Up(n) => csi(n, "A"@),
        Mutation::Down(n) => csi(n, "B"@),
        Mutation::Right(n) => csi(n, "C"@),
        Mutation::Left(n) => csi(n, "D"@),
        Mutation::ClearLine => "\x1b[2K"@,
        Mutation::ClearToEnd => "\x1b[K"@,
        Mutation::ClearScreen => "\x1b[2J\x1b[H"@,
        Mutation::Paste(on) => if on { "\x1b[?2004h"@ } else { "\x1b[?2004l"@ },
    }
}

/// The VT text of a sequence of mutations, in order.
pub open spec fn encode_all(ms: Seq<Mutation>, color: bool) -> Seq<char>
    decreases ms.len(),
{
    if ms.len() == 0 {
        seq![]
    } else {
        encode_all(ms.drop_last(), color) + encode_one(ms.last(), color)
    }
}

/// Where a VT terminal's cursor at (`row`, `col`) goes on reading `s`, when
/// `s` is one ECMA-48 cursor-movement sequence: CSI, a decimal count, and the
/// final character `A` (up), `B` (down), `C` (forward) or `D` (backward),
/// stopping at the first row and column; any other text leaves it in place.
pub open spec fn vt_cursor(s: Seq<char>, row: int, col: int) -> (int, int) {
    if s.len() >= 4 && s[0] == '\x1b' && s[1] == '[' && crate::text::is_numeral(s.subrange(2, s.len() - 1)) {
        let n = crate::text::numeral_value(s.subrange(2, s.len() - 1));
        let f = s.last();
        if f == 'A' {
            (if row > n { row - n } else { 0 }, col)
        } else if f == 'B' {
            (row + n, col)
        } else if f == 'C' {
            (row, col + n)
        } else if f == 'D' {
            (row, if col > n { col - n } else { 0 })
        } else {
            (row, col)
        }
    } else {
        (row, col)
    }
}

/// Cursor mutations encode as the VT sequences that move a terminal's cursor
/// by their count in their direction: `Up` toward the first row, `Down` away
/// from it, `Right` away from the first column and `Left` toward it.
pub proof fn law_cursor_encoding(n: usize, row: int, col: int, color: bool)
    requires
        row >= 0,
        col >= 0,
    ensures
        vt_cursor(encode_one(Mutation::Up(n), color), row, col) == (if row > n { row - n } else { 0 }, col),
        vt_cursor(encode_one(Mutation::Down(n), color), row, col) == (row + n, col),
        vt_cursor(encode_one(Mutation::Right(n), color), row, col) == (row, col + n),
        vt_cursor(encode_one(Mutation::Left(n), color), row, col) == (row, if col > n { col - n } else { 0 }),
{
    reveal_strlit("\x1b[");
    reveal_strlit("A");
    reveal_strlit("B");
    reveal_strlit("C");
    reveal_strlit("D");
    crate::text::lemma_decimal_reads_back(n as nat);
    let d = decimal(n as nat);
    let fins = seq!["A"@, "B"@, "C"@, "D"@];
    assert forall|k: int| 0 <= k < 4 implies ({
        let s = csi(n, #[trigger] fins[k]);
        &&& s.len() >= 4
        &&& s[0] == '\x1b' && s[1] == '['
        &&& s.subrange(2, s.len() - 1) == d
        &&& s.last() == fins[k][0]
    }) by {
        let s = csi(n, fins[k]);
        assert(s.subrange(2, s.len() - 1) =~= d);
    }
    assert(fins[0] == "A"@ && fins[1] == "B"@ && fins[2] == "C"@ && fins[3] == "D"@);
}

fn push_csi(out: &mut String, n: usize, fin: &str)
    ensures
        final(out)@ == old(out)@ + csi(n, fin@),
{
    out.append("\x1b[");
    push_decimal(out, n);
    out.append(fin);
    assert(final(out)@ =~= old(out)@ + csi(n, fin@));
}

fn encode_into(out: &mut String, m: &Mutation, theme: Theme)
    ensures
        final(out)@ == old(out)@ + encode_one(*m, theme.color),
{
    match m {
        Mutation::Text(text) => out.append(text.as_str()),
        Mutation::Style(role) => out.append(theme.sequence(*role)),
        Mutation::CarriageReturn => out.append("\r"),
        Mutation::Newline => out.append("\r\n"),
        Mutation::Up(n) => push_csi(out, *n, "A"),
        Mutation::Down(n) => push_csi(out, *n, "B"),
        Mutation::Right(n) => push_csi(out, *n, "C"),
        Mutation::Left(n) => push_csi(out, *n, "D"),
        Mutation::ClearLine => out.append("\x1b[2K"),
        Mutation::ClearToEnd => out.append("\x1b[K"),
        Mutation::ClearScreen => out.append("\x1b[2J\x1b[H"),
        Mutation::Paste(on) => {
            if *on {
                out.append("\x1b[?2004h");
            } else {
                out.append("\x1b[?2004l");
            }
        },
    }
}

/// Encode mutations as VT text, styling roles only when the theme has color.
pub fn encode(mutations: &[Mutation], theme: Theme) -> (r: String)
    ensures
        r@ == encode_all(mutations@, theme.color),
{
    let mut out = String::new();
    let mut i: usize = 0;
    while i < mutations.len()
        invariant
            i <= mutations@.len(),
            out@ == encode_all(mutations@.take(i as int), theme.color),
        decreases mutations@.len() - i,
    {
        encode_into(&mut out, &mutations[i], theme);
        i += 1;
        assert(mutations@.take(i as int).drop_last() =~= mutations@.take(i - 1));
    }
    assert(mutations@.take(i as int) =~= mutations@);
    out
}

} // verus!
