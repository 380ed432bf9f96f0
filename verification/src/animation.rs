//! Sizes of the frames that sprite animations are drawn into.

use vstd::prelude::*;

verus! {

pub open spec fn abs(v: int) -> int {
    if v < 0 {
        -v
    } else {
        v
    }
}

/// The size of a frame that holds the parts reaching from `min_top` to
/// `max_bottom` and from `min_left` to `max_right`: as wide as twice the
/// farthest side reaches, plus the middle column, so that it is centered on
/// the vertical axis; as high as the parts reach, made odd.
pub open spec fn frame_size(min_top: int, max_bottom: int, min_left: int, max_right: int) -> (int, int) {
    let reach = if abs(min_left) >= abs(max_right) {
        abs(min_left)
    } else {
        abs(max_right)
    };
    let height = max_bottom - min_top;
    (2 * reach + 1, height + 1 + if height % 2 == 0 {
        0int
    } else {
        1int
    })
}

/// The size of the frame, as width and height.
pub fn calculate_new_size(min_top: i32, max_bottom: i32, min_left: i32, max_right: i32) -> (size: (i32, i32))
    requires
        2 * abs(min_left as int) + 1 <= i32::MAX,
        2 * abs(max_right as int) + 1 <= i32::MAX,
        i32::MIN <= max_bottom - min_top,
        max_bottom - min_top + 2 <= i32::MAX,
    ensures
        size.0 == frame_size(min_top as int, max_bottom as int, min_left as int, max_right as int).0,
        size.1 == frame_size(min_top as int, max_bottom as int, min_left as int, max_right as int).1,
{
    let left = if min_left < 0 {
        -min_left
    } else {
        min_left
    };
    let right = if max_right < 0 {
        -max_right
    } else {
        max_right
    };
    let reach = if left >= right {
        left
    } else {
        right
    };
    let size_x = 2 * reach + 1;
    let height = max_bottom - min_top;
    let even = height % 2 == 0;
    assert(even == ((height as int) % 2 == 0)) by (bit_vector)
        requires
            even == (height % 2 == 0),
    ;
    let padding = if even {
        0
    } else {
        1
    };
    let size_y = height + 1 + padding;
    (size_x, size_y)
}

/// The frame is always odd in both directions, so that it has a middle.
pub proof fn lemma_frame_size_is_odd(min_top: int, max_bottom: int, min_left: int, max_right: int)
    ensures
        frame_size(min_top, max_bottom, min_left, max_right).0 % 2 == 1,
        frame_size(min_top, max_bottom, min_left, max_right).1 % 2 == 1,
{
}

} // verus!
