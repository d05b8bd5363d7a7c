//! Display cells are a deterministic policy, independently of text segmentation.
use crate::editor::EditError;
use crate::segment::{display_width, display_width_of};
use crate::text::{is_control, spec_is_control};
use vstd::prelude::*;

verus! {

/// The display-cell model: an assumption about terminal geometry, not a claim
/// of universal emulator/font agreement or active width probing.
#[derive(Clone, Copy, Debug, PartialEq, Eq, Structural)]
pub enum WidthPolicy {
    /// `unicode-width` non-CJK policy: ambiguous East Asian characters are narrow;
    /// combining marks do not add cells, common emoji/ZWJ sequences use the
    /// dependency's sequence rules. Layout separately expands tabs and handles LF.
    UnicodeNarrow,
}

impl WidthPolicy {
    /// Measure safe single-line text in cells. Controls, tabs and newlines are
    /// refused because their geometry requires layout, not a string-width sum.
    pub fn measure(self, text: &str) -> (r: Result<usize, EditError>)
        ensures
            match r {
                Ok(n) => (forall|i: int| 0 <= i < text@.len() ==> !spec_is_control(#[trigger] text@[i]))
                    && n == display_width_of(text@),
                Err(e) => e == EditError::InvalidText && exists|i: int| 0 <= i < text@.len() && spec_is_control(
                    #[trigger] text@[i],
                ),
            },
    {
        for c in it: text.chars()
            invariant
                it.seq() == text@,
                forall|j: int| 0 <= j < it.index() ==> !spec_is_control(#[trigger] text@[j]),
        {
            if is_control(c) {
                proof {
                    assert(spec_is_control(text@[it.index() as int]));
                }
                return Err(EditError::InvalidText);
            }
        }
        Ok(display_width(text))
    }
}

} // verus!
