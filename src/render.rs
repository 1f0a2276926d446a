//! Frame buffer helpers for the renderer.
use vstd::prelude::*;

use crate::config::QualityTier;

verus! {

/// Result of a render operation.
pub struct RenderResult {
    /// Quality of the image rendered (`None` if no image was available).
    pub quality: Option<QualityTier>,
}

/// Whether `color` is opaque black, the common background.
pub open spec fn is_black(color: [u8; 4]) -> bool {
    color@ == seq![0u8, 0u8, 0u8, 255u8]
}

/// Fills every whole RGBA pixel of `frame` with `color`. Bytes after the last
/// whole pixel are zeroed when `color` is opaque black, else left as they are.
pub fn clear_frame(frame: &mut [u8], color: [u8; 4])
    ensures
        final(frame)@.len() == old(frame)@.len(),
        forall|i: int|
            0 <= i < old(frame)@.len() / 4 * 4 ==> #[trigger] final(frame)@[i] == color@[i % 4],
        forall|i: int|
            old(frame)@.len() / 4 * 4 <= i < old(frame)@.len() ==> #[trigger] final(frame)@[i] == if is_black(
                color,
            ) {
                0u8
            } else {
                old(frame)@[i]
            },
{
    let len = frame.len();
    let whole = len / 4 * 4;
    let black = color[0] == 0 && color[1] == 0 && color[2] == 0 && color[3] == 255;
    assert(black == is_black(color)) by {
        if black {
            assert(color@ =~= seq![0u8, 0u8, 0u8, 255u8]);
        }
    }
    let mut i: usize = 0;
    while i < whole
        invariant
            i <= whole,
            whole == len / 4 * 4,
            whole <= len,
            len == frame@.len(),
            frame@.len() == old(frame)@.len(),
            forall|k: int| 0 <= k < i ==> #[trigger] frame@[k] == color@[k % 4],
            forall|k: int| i <= k < len ==> #[trigger] frame@[k] == old(frame)@[k],
        decreases whole - i,
    {
        frame[i] = color[i % 4];
        i = i + 1;
    }
    if black {
        while i < len
            invariant
                whole <= i <= len,
                whole == len / 4 * 4,
                len == frame@.len(),
                frame@.len() == old(frame)@.len(),
                forall|k: int| 0 <= k < whole ==> #[trigger] frame@[k] == color@[k % 4],
                forall|k: int| whole <= k < i ==> #[trigger] frame@[k] == 0u8,
            decreases len - i,
        {
            frame[i] = 0;
            i = i + 1;
        }
    }
}

} // verus!
