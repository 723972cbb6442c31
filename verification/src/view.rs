//! The zoom ladder.
use vstd::prelude::*;

verus! {

/// How many zoom levels there are, from 12.5 % to 800 %.
pub const ZOOM_LEVELS: usize = 11;

/// One step along the zoom ladder: up for a positive direction, down for a
/// negative one, nowhere for zero; the ends are kept.
pub fn zoom_step(index: usize, direction: i32) -> (i: usize)
    requires
        index < usize::MAX,
    ensures
        i == if direction > 0 {
            if index + 1 < ZOOM_LEVELS - 1 { index + 1 } else { ZOOM_LEVELS - 1 }
        } else if direction < 0 {
            if index >= 1 { index - 1 } else { 0 }
        } else {
            index as int
        },
{
    if direction > 0 {
        if index + 1 < ZOOM_LEVELS - 1 { index + 1 } else { ZOOM_LEVELS - 1 }
    } else if direction < 0 {
        index.saturating_sub(1)
    } else {
        index
    }
}

} // verus!
