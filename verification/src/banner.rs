//! Layout of the branding banner: text centered in a box of fixed width.

use vstd::prelude::*;

use crate::text::chars_of;

verus! {

/// Inner width of the banner box, in characters between the side borders.
pub const BANNER_WIDTH: usize = 47;

/// Spaces before and after `text` to center it in the banner box: the text,
/// cut to the box's width, gets half of the room left (rounded down) on its
/// left and the rest on its right.
pub fn frame_padding(text: &str) -> (r: (usize, usize))
    ensures
        ({
            let visible = if text@.len() < BANNER_WIDTH {
                text@.len() as int
            } else {
                BANNER_WIDTH as int
            };
            &&& r.0 == (BANNER_WIDTH - visible) / 2
            &&& r.0 + r.1 + visible == BANNER_WIDTH
        }),
{
    let count = chars_of(text).len();
    let visible = if count < BANNER_WIDTH {
        count
    } else {
        BANNER_WIDTH
    };
    let pad = BANNER_WIDTH - visible;
    let left = pad / 2;
    (left, pad - left)
}

} // verus!
