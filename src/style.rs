//! How each palette colour is drawn on an ANSI terminal.

use vstd::prelude::*;
use crate::grid::PALETTE_SIZE;

verus! {

/// The SGR attributes for colour `c`: the intensity (colours 3 and 4 are
/// drawn normal, the others bold, for contrast) and the foreground code
/// `31 + c`.
pub fn ansi_style(c: u8) -> (r: (u8, u8))
    requires
        c < PALETTE_SIZE,
    ensures
        r.0 == (if c == 3 || c == 4 {
            0u8
        } else {
            1u8
        }),
        r.1 == 31 + c,
{
    let bold: u8 = if c == 3 || c == 4 {
        0
    } else {
        1
    };
    (bold, 31 + c)
}

} // verus!
