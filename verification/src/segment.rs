//! Unicode segmentation and display width, obtained from the unicode-segmentation
//! and unicode-width crates, plus verified boundary arithmetic over their results.
use unicode_segmentation::UnicodeSegmentation;
use unicode_width::UnicodeWidthStr;
use vstd::prelude::*;
use vstd::string::*;
use vstd::utf8::*;

verus! {

/// Byte offsets of the extended grapheme clusters of a text, in order.
pub uninterp spec fn grapheme_starts_of(text: Seq<char>) -> Seq<usize>;

/// Byte offsets of the UAX #29 word-boundary segments of a text, in order.
pub uninterp spec fn word_starts_of(text: Seq<char>) -> Seq<usize>;

/// Whether a text contains a UAX #29 word (a segment with an alphanumeric character).
pub uninterp spec fn contains_word_of(text: Seq<char>) -> bool;

/// Terminal display cells of a text under the `unicode-width` non-CJK policy.
pub uninterp spec fn display_width_of(text: Seq<char>) -> usize;

/// Offsets of a partition of `bytes` into nonempty consecutive segments: the first
/// starts at zero, offsets strictly increase, and each is a character boundary.
pub open spec fn partition_offsets(bytes: Seq<u8>, starts: Seq<usize>) -> bool {
    &&& (bytes.len() > 0 <==> starts.len() > 0)
    &&& (starts.len() > 0 ==> starts[0] == 0)
    &&& forall|i: int|
        0 <= i < starts.len() ==> (#[trigger] starts[i] as int) < bytes.len()
            && is_char_boundary(bytes, starts[i] as int)
    &&& forall|i: int, j: int|
        0 <= i < j < starts.len() ==> (#[trigger] starts[i] as int) < (#[trigger] starts[j] as int)
}

/// `UnicodeSegmentation::grapheme_indices(text, true)`, keeping each cluster's
/// byte offset. The clusters are nonempty and concatenate to the text, so the
/// offsets partition it.
#[verifier::external_body]
pub fn grapheme_starts(text: &str) -> (r: Vec<usize>)
    ensures
        r@ == grapheme_starts_of(text@),
        partition_offsets(text.spec_bytes(), r@),
{
    text.grapheme_indices(true).map(|(offset, _)| offset).collect()
}

/// `UnicodeSegmentation::split_word_bound_indices(text)`, keeping each segment's
/// byte offset. The documented concatenation of the segments is the text.
#[verifier::external_body]
pub fn word_starts(text: &str) -> (r: Vec<usize>)
    ensures
        r@ == word_starts_of(text@),
        partition_offsets(text.spec_bytes(), r@),
{
    text.split_word_bound_indices().map(|(offset, _)| offset).collect()
}

/// Whether `UnicodeSegmentation::unicode_words(text)` yields at least one word.
#[verifier::external_body]
pub fn contains_word(text: &str) -> (r: bool)
    ensures
        r == contains_word_of(text@),
{
    text.unicode_words().next().is_some()
}

/// `UnicodeWidthStr::width(text)`: the display cells of the text.
#[verifier::external_body]
pub fn display_width(text: &str) -> (r: usize)
    ensures
        r == display_width_of(text@),
{
    text.width()
}

/// Whether `i` is an extended-grapheme boundary of the text with bytes `bytes`.
pub open spec fn is_boundary(bytes: Seq<u8>, i: int) -> bool {
    0 <= i <= bytes.len() && (i == 0 || i == bytes.len() || grapheme_starts_of(
        decode_utf8(bytes),
    ).contains(i as usize))
}

/// Smallest element of a sorted offset list that is at least `i`, else `end`.
pub open spec fn ceil_in(starts: Seq<usize>, i: int, end: int) -> int
    decreases starts.len(),
{
    if starts.len() == 0 {
        end
    } else if starts[0] as int >= i {
        starts[0] as int
    } else {
        ceil_in(starts.drop_first(), i, end)
    }
}

/// Largest element of an offset list that is below `i`, else 0.
pub open spec fn floor_below(starts: Seq<usize>, i: int) -> int
    decreases starts.len(),
{
    if starts.len() == 0 {
        0
    } else if (starts.last() as int) < i {
        starts.last() as int
    } else {
        floor_below(starts.drop_last(), i)
    }
}

} // verus!

verus! {

/// A partition's offsets lie within `end` when the partition covers `end` bytes.
pub open spec fn offsets_below(starts: Seq<usize>, end: int) -> bool {
    forall|k: int| 0 <= k < starts.len() ==> (#[trigger] starts[k] as int) < end
}

pub proof fn lemma_ceil_in_range(starts: Seq<usize>, i: int, end: int)
    requires
        offsets_below(starts, end),
        i <= end,
    ensures
        i <= ceil_in(starts, i, end) <= end,
        ceil_in(starts, i, end) == end || starts.contains(ceil_in(starts, i, end) as usize),
    decreases starts.len(),
{
    if starts.len() > 0 {
        if starts[0] as int >= i {
            assert(starts.contains(starts[0]));
        } else {
            let t = starts.drop_first();
            assert forall|k: int| 0 <= k < t.len() implies (#[trigger] t[k] as int) < end by {
                assert(t[k] == starts[k + 1]);
            }
            lemma_ceil_in_range(t, i, end);
            if ceil_in(t, i, end) != end {
                let x = ceil_in(t, i, end) as usize;
                let k = choose|k: int| 0 <= k < t.len() && t[k] == x;
                assert(starts[k + 1] == x);
            }
        }
    }
}

pub proof fn lemma_floor_below_range(starts: Seq<usize>, i: int)
    requires
        i > 0,
        starts.len() > 0,
        starts[0] == 0,
    ensures
        0 <= floor_below(starts, i) < i,
        starts.contains(floor_below(starts, i) as usize),
    decreases starts.len(),
{
    if (starts.last() as int) < i {
        assert(starts.contains(starts.last()));
    } else {
        let t = starts.drop_last();
        assert(starts.len() > 1) by {
            if starts.len() == 1 {
                assert(starts.last() == starts[0]);
            }
        }
        assert(t[0] == 0);
        lemma_floor_below_range(t, i);
        let x = floor_below(t, i) as usize;
        let k = choose|k: int| 0 <= k < t.len() && t[k] == x;
        assert(starts[k] == x);
    }
}

/// Smallest offset at least `i`, or `end` when there is none.
pub fn ceil_offset(starts: &Vec<usize>, i: usize, end: usize) -> (r: usize)
    ensures
        r as int == ceil_in(starts@, i as int, end as int),
{
    let mut k: usize = 0;
    assert(starts@.subrange(0, starts@.len() as int) =~= starts@);
    while k < starts.len()
        invariant
            k <= starts@.len(),
            ceil_in(starts@, i as int, end as int) == ceil_in(
                starts@.subrange(k as int, starts@.len() as int),
                i as int,
                end as int,
            ),
        decreases starts@.len() - k,
    {
        let ghost t = starts@.subrange(k as int, starts@.len() as int);
        assert(t[0] == starts@[k as int]);
        if starts[k] >= i {
            return starts[k];
        }
        assert(t.drop_first() =~= starts@.subrange(k + 1, starts@.len() as int));
        k += 1;
    }
    assert(starts@.subrange(k as int, starts@.len() as int).len() == 0);
    end
}

/// Largest offset below `i`, or 0 when there is none.
pub fn floor_offset(starts: &Vec<usize>, i: usize) -> (r: usize)
    ensures
        r as int == floor_below(starts@, i as int),
{
    let mut k: usize = starts.len();
    assert(starts@.subrange(0, k as int) =~= starts@);
    while k > 0
        invariant
            k <= starts@.len(),
            floor_below(starts@, i as int) == floor_below(starts@.subrange(0, k as int), i as int),
        decreases k,
    {
        let ghost t = starts@.subrange(0, k as int);
        assert(t.last() == starts@[k - 1]);
        if starts[k - 1] < i {
            return starts[k - 1];
        }
        assert(t.drop_last() =~= starts@.subrange(0, k - 1));
        k -= 1;
    }
    0
}

/// Whether `i` occurs among the offsets.
pub fn contains_offset(starts: &Vec<usize>, i: usize) -> (r: bool)
    ensures
        r == starts@.contains(i),
{
    let mut k: usize = 0;
    while k < starts.len()
        invariant
            k <= starts@.len(),
            forall|j: int| 0 <= j < k ==> starts@[j] != i,
        decreases starts@.len() - k,
    {
        if starts[k] == i {
            assert(starts@[k as int] == i);
            return true;
        }
        k += 1;
    }
    false
}

} // verus!
