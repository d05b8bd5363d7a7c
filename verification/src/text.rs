//! Character classes, safe-text predicates and UTF-8 byte-splicing shared by every module.
use vstd::prelude::*;
use vstd::string::*;
use vstd::utf8::*;

verus! {

broadcast use {encode_utf8_decode_utf8, encode_utf8_valid_utf8, decode_utf8_encode_utf8};

/// Unicode general category Cc: C0 controls, DEL and C1 controls.
pub open spec fn spec_is_control(c: char) -> bool {
    (c as u32) <= 0x1f || (0x7f <= (c as u32) && (c as u32) <= 0x9f)
}

/// Editor text admits LF and TAB but no other control character.
pub open spec fn allowed_char(c: char) -> bool {
    !spec_is_control(c) || c == '\n' || c == '\t'
}

/// Every character of `s` is admissible editor text.
pub open spec fn spec_valid_text(s: Seq<char>) -> bool {
    forall|i: int| 0 <= i < s.len() ==> allowed_char(#[trigger] s[i])
}

/// Invisible bidirectional, zero-width and byte-order controls that could
/// disguise display text.
pub open spec fn spec_hidden_control(c: char) -> bool {
    let v = c as u32;
    v == 0x061c || v == 0x200b || v == 0x200e || v == 0x200f || (0x202a <= v && v <= 0x202e)
        || v == 0x2060 || (0x2066 <= v && v <= 0x2069) || v == 0xfeff
}

/// Safe single-line display text: no control and no hidden control.
pub open spec fn spec_safe_display(s: Seq<char>) -> bool {
    forall|i: int|
        0 <= i < s.len() ==> !spec_is_control(#[trigger] s[i]) && !spec_hidden_control(s[i])
}

/// Whether `c` is a control character (general category Cc).
pub fn is_control(c: char) -> (r: bool)
    ensures
        r == spec_is_control(c),
{
    let v = c as u32;
    v <= 0x1f || (0x7f <= v && v <= 0x9f)
}

/// Whether `c` is an invisible formatting control rejected from display text.
pub fn hidden_control(c: char) -> (r: bool)
    ensures
        r == spec_hidden_control(c),
{
    let v = c as u32;
    v == 0x061c || v == 0x200b || v == 0x200e || v == 0x200f || (0x202a <= v && v <= 0x202e)
        || v == 0x2060 || (0x2066 <= v && v <= 0x2069) || v == 0xfeff
}

/// Whether `text` contains only admissible editor characters.
pub fn valid_text(text: &str) -> (r: bool)
    ensures
        r == spec_valid_text(text@),
{
    for c in it: text.chars()
        invariant
            it.seq() == text@,
            forall|j: int| 0 <= j < it.index() ==> allowed_char(#[trigger] text@[j]),
    {
        if is_control(c) && c != '\n' && c != '\t' {
            return false;
        }
    }
    true
}

/// Whether `text` is safe single-line display text.
pub fn safe_display(text: &str) -> (r: bool)
    ensures
        r == spec_safe_display(text@),
{
    for c in it: text.chars()
        invariant
            it.seq() == text@,
            forall|j: int|
                0 <= j < it.index() ==> !spec_is_control(#[trigger] text@[j])
                    && !spec_hidden_control(text@[j]),
    {
        if is_control(c) || hidden_control(c) {
            return false;
        }
    }
    true
}

/// UTF-8 bytes of a character sequence.
pub open spec fn bytes_of(s: Seq<char>) -> Seq<u8> {
    encode_utf8(s)
}

/// Byte length of a character sequence.
pub open spec fn blen(s: Seq<char>) -> int {
    encode_utf8(s).len() as int
}

/// Replace `b[start..end]` by `ins`.
pub open spec fn splice(b: Seq<u8>, start: int, end: int, ins: Seq<u8>) -> Seq<u8> {
    b.subrange(0, start) + ins + b.subrange(end, b.len() as int)
}

/// Encoding distributes over concatenation.
pub proof fn lemma_encode_concat(a: Seq<char>, b: Seq<char>)
    ensures
        encode_utf8(a + b) == encode_utf8(a) + encode_utf8(b),
    decreases a.len(),
{
    if a.len() == 0 {
        assert(a + b =~= b);
        assert(encode_utf8(a) =~= Seq::<u8>::empty());
        assert(encode_utf8(a) + encode_utf8(b) =~= encode_utf8(b));
    } else {
        assert((a + b).drop_first() =~= a.drop_first() + b);
        assert((a + b)[0] == a[0]);
        lemma_encode_concat(a.drop_first(), b);
        assert(encode_utf8(a + b) =~= encode_utf8(a) + encode_utf8(b));
    }
}

/// A char boundary of a valid sequence remains one in any suffix that starts at a boundary.
pub proof fn lemma_boundary_in_suffix(b: Seq<u8>, s: int, e: int)
    requires
        valid_utf8(b),
        0 <= s <= e <= b.len(),
        is_char_boundary(b, s),
        is_char_boundary(b, e),
    ensures
        valid_utf8(b.subrange(s, b.len() as int)),
        is_char_boundary(b.subrange(s, b.len() as int), e - s),
{
    valid_utf8_split(b, s);
    let t = b.subrange(s, b.len() as int);
    if e == b.len() {
        is_char_boundary_start_end_of_seq(t);
        assert(t.len() == e - s);
    } else {
        is_char_boundary_iff_not_is_continuation_byte(b, e);
        is_char_boundary_iff_not_is_continuation_byte(t, e - s);
        assert(t[e - s] == b[e]);
    }
}

/// The length of the string in UTF-8 bytes.
pub fn byte_len(s: &str) -> (r: usize)
    ensures
        r as int == s.spec_bytes().len(),
{
    s.as_bytes().len()
}

/// Equality of two byte slices.
pub fn bytes_equal(a: &[u8], b: &[u8]) -> (r: bool)
    ensures
        r == (a@ == b@),
{
    if a.len() != b.len() {
        return false;
    }
    let mut i: usize = 0;
    while i < a.len()
        invariant
            a@.len() == b@.len(),
            i <= a@.len(),
            forall|j: int| 0 <= j < i ==> a@[j] == b@[j],
        decreases a@.len() - i,
    {
        if a[i] != b[i] {
            return false;
        }
        i += 1;
    }
    assert(a@ =~= b@);
    true
}

/// Equality of two strings, decided on their UTF-8 bytes.
pub fn str_equal(a: &str, b: &str) -> (r: bool)
    ensures
        r == (a@ == b@),
{
    let r = bytes_equal(a.as_bytes(), b.as_bytes());
    proof {
        if a.spec_bytes() == b.spec_bytes() {
            assert(decode_utf8(encode_utf8(a@)) == decode_utf8(encode_utf8(b@)));
        }
    }
    r
}

/// The bytes `text[start..end]` as an owned string.
pub fn substring(text: &str, start: usize, end: usize) -> (r: String)
    requires
        start <= end <= text.spec_bytes().len(),
        is_char_boundary(text.spec_bytes(), start as int),
        is_char_boundary(text.spec_bytes(), end as int),
    ensures
        bytes_of(r@) == text.spec_bytes().subrange(start as int, end as int),
{
    let ghost b = text.spec_bytes();
    proof { lemma_boundary_in_suffix(b, start as int, end as int); }
    let (_head, rest) = text.split_at(start);
    assert(rest.spec_bytes() =~= b.subrange(start as int, b.len() as int));
    let (mid, _tail) = rest.split_at(end - start);
    assert(mid.spec_bytes() =~= b.subrange(start as int, end as int));
    mid.to_owned()
}

/// `text` with the bytes `start..end` replaced by `ins`.
pub fn splice_str(text: &str, start: usize, end: usize, ins: &str) -> (r: String)
    requires
        start <= end <= text.spec_bytes().len(),
        is_char_boundary(text.spec_bytes(), start as int),
        is_char_boundary(text.spec_bytes(), end as int),
    ensures
        bytes_of(r@) == splice(text.spec_bytes(), start as int, end as int, ins.spec_bytes()),
        spec_valid_text(text@) && spec_valid_text(ins@) ==> spec_valid_text(r@),
{
    let ghost b = text.spec_bytes();
    proof { lemma_boundary_in_suffix(b, start as int, end as int); }
    let (head, rest) = text.split_at(start);
    assert(rest.spec_bytes() =~= b.subrange(start as int, b.len() as int));
    let (mid, tail) = rest.split_at(end - start);
    assert(tail.spec_bytes() =~= b.subrange(end as int, b.len() as int));
    let mut r = head.to_owned();
    r.append(ins);
    r.append(tail);
    proof {
        lemma_encode_concat(head@, ins@);
        lemma_encode_concat(head@ + ins@, tail@);
        assert(bytes_of(r@) =~= splice(b, start as int, end as int, ins.spec_bytes()));
        lemma_encode_concat(head@, mid@);
        lemma_encode_concat(head@ + mid@, tail@);
        assert(encode_utf8(head@ + mid@ + tail@) =~= b);
        encode_utf8_decode_utf8(head@ + mid@ + tail@);
        encode_utf8_decode_utf8(text@);
        assert(head@ + mid@ + tail@ == text@);
        if spec_valid_text(text@) && spec_valid_text(ins@) {
            let whole = head@ + mid@ + tail@;
            assert forall|i: int| 0 <= i < r@.len() implies allowed_char(#[trigger] r@[i]) by {
                if i < head@.len() {
                    assert(r@[i] == whole[i]);
                } else if i < head@.len() + ins@.len() {
                    assert(r@[i] == ins@[i - head@.len()]);
                } else {
                    let k = i - head@.len() - ins@.len();
                    assert(r@[i] == tail@[k]);
                    assert(whole[head@.len() + mid@.len() + k] == tail@[k]);
                }
            }
        }
    }
    r
}

} // verus!

verus! {

/// Joining two valid sequences gives a valid sequence with a boundary at the seam.
pub proof fn lemma_cb_concat(a: Seq<u8>, c: Seq<u8>)
    requires
        valid_utf8(a),
        valid_utf8(c),
    ensures
        valid_utf8(a + c),
        is_char_boundary(a + c, a.len() as int),
{
    valid_utf8_concat(a, c);
    let x = a + c;
    if c.len() == 0 {
        assert(x =~= a);
        is_char_boundary_start_end_of_seq(a);
    } else {
        is_char_boundary_start_end_of_seq(c);
        is_char_boundary_iff_not_is_continuation_byte(c, 0);
        is_char_boundary_iff_not_is_continuation_byte(x, a.len() as int);
        assert(x[a.len() as int] == c[0]);
    }
}

/// A boundary carries over to an equal byte of another valid sequence.
pub proof fn lemma_cb_transfer(x: Seq<u8>, y: Seq<u8>, i: int, j: int)
    requires
        valid_utf8(x),
        valid_utf8(y),
        0 <= i < x.len(),
        0 <= j < y.len(),
        x[i] == y[j],
        is_char_boundary(x, i),
    ensures
        is_char_boundary(y, j),
{
    is_char_boundary_iff_not_is_continuation_byte(x, i);
    is_char_boundary_iff_not_is_continuation_byte(y, j);
}

/// Splicing valid text at character boundaries keeps it valid, with boundaries
/// on both sides of the inserted bytes.
pub proof fn lemma_splice_cb(b: Seq<u8>, s: int, e: int, ins: Seq<u8>)
    requires
        valid_utf8(b),
        valid_utf8(ins),
        0 <= s <= e <= b.len(),
        is_char_boundary(b, s),
        is_char_boundary(b, e),
    ensures
        valid_utf8(splice(b, s, e, ins)),
        is_char_boundary(splice(b, s, e, ins), s),
        is_char_boundary(splice(b, s, e, ins), s + ins.len()),
        splice(b, s, e, ins).len() == b.len() - (e - s) + ins.len(),
{
    valid_utf8_split(b, s);
    lemma_boundary_in_suffix(b, s, e);
    let t = b.subrange(s, b.len() as int);
    valid_utf8_split(t, e - s);
    let a = b.subrange(0, s);
    let c = b.subrange(e, b.len() as int);
    assert(t.subrange(e - s, t.len() as int) =~= c);
    lemma_cb_concat(ins, c);
    lemma_cb_concat(a, ins + c);
    lemma_cb_concat(a, ins);
    lemma_cb_concat(a + ins, c);
    assert(splice(b, s, e, ins) =~= a + (ins + c));
    assert(splice(b, s, e, ins) =~= (a + ins) + c);
}

/// Boundaries before the splice point survive the splice.
pub proof fn lemma_splice_cb_prefix(b: Seq<u8>, s: int, e: int, ins: Seq<u8>, i: int)
    requires
        valid_utf8(b),
        valid_utf8(ins),
        0 <= s <= e <= b.len(),
        is_char_boundary(b, s),
        is_char_boundary(b, e),
        0 <= i <= s,
        is_char_boundary(b, i),
    ensures
        is_char_boundary(splice(b, s, e, ins), i),
{
    lemma_splice_cb(b, s, e, ins);
    let x = splice(b, s, e, ins);
    if i < s {
        assert(x[i] == b[i]);
        lemma_cb_transfer(b, x, i, i);
    }
}

} // verus!

verus! {

/// `String::push`: append one character.
#[verifier::external_body]
pub fn push_char(s: &mut String, c: char)
    ensures
        final(s)@ == old(s)@.push(c),
{
    s.push(c);
}

/// The character of a decimal digit.
pub open spec fn digit_char(d: nat) -> char {
    if d == 0 { '0' } else if d == 1 { '1' } else if d == 2 { '2' } else if d == 3 { '3' } else if d == 4 { '4' }
    else if d == 5 { '5' } else if d == 6 { '6' } else if d == 7 { '7' } else if d == 8 { '8' } else { '9' }
}

/// Whether `c` is an ASCII decimal digit.
pub open spec fn is_digit(c: char) -> bool {
    c == '0' || c == '1' || c == '2' || c == '3' || c == '4' || c == '5' || c == '6' || c == '7' || c == '8' || c == '9'
}

/// The value of an ASCII decimal digit.
pub open spec fn digit_value(c: char) -> int {
    if c == '1' { 1 } else if c == '2' { 2 } else if c == '3' { 3 } else if c == '4' { 4 } else if c == '5' { 5 }
    else if c == '6' { 6 } else if c == '7' { 7 } else if c == '8' { 8 } else if c == '9' { 9 } else { 0 }
}

/// A nonempty run of ASCII decimal digits.
pub open spec fn is_numeral(s: Seq<char>) -> bool {
    s.len() > 0 && forall|i: int| 0 <= i < s.len() ==> is_digit(#[trigger] s[i])
}

/// The number a run of decimal digits reads as.
pub open spec fn numeral_value(s: Seq<char>) -> int
    decreases s.len(),
{
    if s.len() == 0 {
        0
    } else {
        numeral_value(s.drop_last()) * 10 + digit_value(s.last())
    }
}

/// A decimal numeral is a run of digits that reads back as its number.
pub proof fn lemma_decimal_reads_back(n: nat)
    ensures
        is_numeral(decimal(n)),
        numeral_value(decimal(n)) == n,
    decreases n,
{
    if n < 10 {
        assert(decimal(n).drop_last() =~= Seq::<char>::empty());
        assert(digit_value(digit_char(n)) == n);
        assert(numeral_value(decimal(n)) == numeral_value(decimal(n).drop_last()) * 10 + digit_value(digit_char(n)));
    } else {
        lemma_decimal_reads_back(n / 10);
        let d = decimal(n);
        assert(d.drop_last() =~= decimal(n / 10));
        assert(d.last() == digit_char(n % 10));
        assert(digit_value(digit_char(n % 10)) == n % 10);
        assert(numeral_value(d) == numeral_value(decimal(n / 10)) * 10 + digit_value(digit_char(n % 10)));
        assert(n == (n / 10) * 10 + n % 10) by (nonlinear_arith);
        assert forall|i: int| 0 <= i < d.len() implies is_digit(#[trigger] d[i]) by {
            if i < d.len() - 1 {
                assert(d[i] == decimal(n / 10)[i]);
            }
        }
    }
}

/// The decimal numeral of `n`, most significant digit first, without leading zeros.
pub open spec fn decimal(n: nat) -> Seq<char>
    decreases n,
{
    if n < 10 {
        seq![digit_char(n)]
    } else {
        decimal(n / 10) + seq![digit_char(n % 10)]
    }
}

/// Append the decimal numeral of `n`.
pub fn push_decimal(s: &mut String, n: usize)
    ensures
        final(s)@ == old(s)@ + decimal(n as nat),
    decreases n,
{
    if n >= 10 {
        push_decimal(s, n / 10);
    }
    let d = n % 10;
    let c = if d == 0 { '0' } else if d == 1 { '1' } else if d == 2 { '2' } else if d == 3 { '3' } else if d == 4 { '4' }
        else if d == 5 { '5' } else if d == 6 { '6' } else if d == 7 { '7' } else if d == 8 { '8' } else { '9' };
    push_char(s, c);
    assert(final(s)@ =~= old(s)@ + decimal(n as nat));
}

/// How a character is shown on a single display line: LF as `↵`, TAB as `⇥`.
pub open spec fn visible_char(c: char) -> char {
    if c == '\n' {
        '\u{21b5}'
    } else if c == '\t' {
        '\u{21e5}'
    } else {
        c
    }
}

/// `text` with LF shown as `↵` and TAB as `⇥`, for single-line display.
pub fn visible_breaks(text: &str) -> (r: String)
    ensures
        r@ == text@.map_values(|c: char| visible_char(c)),
{
    let mut r = String::new();
    for c in it: text.chars()
        invariant
            it.seq() == text@,
            r@ == text@.take(it.index() as int).map_values(|c: char| visible_char(c)),
    {
        let ghost before = r@;
        if c == '\n' {
            push_char(&mut r, '\u{21b5}');
        } else if c == '\t' {
            push_char(&mut r, '\u{21e5}');
        } else {
            push_char(&mut r, c);
        }
        proof {
            assert(text@.take(it.index() + 1) =~= text@.take(it.index() as int).push(c));
            assert(r@ =~= text@.take(it.index() + 1).map_values(|c: char| visible_char(c)));
        }
    }
    assert(text@.take(text@.len() as int) =~= text@);
    r
}

} // verus!
