//! The A4 sheet and its orientation.
use vstd::prelude::*;

verus! {

/// Width of an A4 sheet in portrait, in millimetres.
pub const A4_WIDTH_MM: u32 = 210;

/// Height of an A4 sheet in portrait, in millimetres.
pub const A4_HEIGHT_MM: u32 = 297;

/// Size of the sheet as (width, height) in millimetres.
pub fn page_size(landscape: bool) -> (s: (u32, u32))
    ensures
        s == (if landscape {
            (A4_HEIGHT_MM, A4_WIDTH_MM)
        } else {
            (A4_WIDTH_MM, A4_HEIGHT_MM)
        }),
{
    if landscape {
        (A4_HEIGHT_MM, A4_WIDTH_MM)
    } else {
        (A4_WIDTH_MM, A4_HEIGHT_MM)
    }
}

/// Turns the sheet to follow a file just added: landscape for a file wider
/// than tall (`wants_landscape`), portrait otherwise. Tells whether the
/// orientation changed.
pub fn auto_orient(landscape: &mut bool, wants_landscape: bool) -> (changed: bool)
    ensures
        *final(landscape) == wants_landscape,
        changed == (*old(landscape) != wants_landscape),
{
    if wants_landscape != *landscape {
        *landscape = wants_landscape;
        true
    } else {
        false
    }
}

} // verus!
