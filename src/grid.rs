//! The grid model: dimensions, palette, neighbourhood, the origin's region,
//! generation and the win test.

use vstd::prelude::*;
use crate::rng::{Rng, state_after, range_output};

verus! {

/// Columns of the playing grid.
pub const WIDTH: usize = 18;

/// Rows of the playing grid.
pub const HEIGHT: usize = 18;

/// Number of distinct colours; a colour is an index in `[0, PALETTE_SIZE)`.
pub const PALETTE_SIZE: u8 = 6;

/// Moves allowed in one round.
pub const MOVE_BUDGET: u8 = 32;

/// A grid of `w` columns and `h` rows stored row-major in `g`.
pub open spec fn dims_ok(g: Seq<u8>, w: int, h: int) -> bool {
    0 < w && 0 < h && g.len() == w * h
}

/// Every cell holds a colour of the palette.
pub open spec fn in_palette(g: Seq<u8>) -> bool {
    forall|j: int| 0 <= j < g.len() ==> #[trigger] g[j] < PALETTE_SIZE
}

/// `k` is one of the up to four neighbours of cell `i` in a row-major grid of
/// `w` columns and `h` rows: left and right unless `i` is at the row's edge,
/// up and down unless `i` is in the first or last row.
pub open spec fn adjacent(w: int, h: int, i: int, k: int) -> bool {
    0 <= i < w * h && ((i % w != 0 && k == i - 1) || (i % w != w - 1 && k == i + 1) || (i / w
        != 0 && k == i - w) || (i / w != h - 1 && k == i + w))
}

/// `p` walks from the origin (cell 0) to neighbour after neighbour, through
/// cells that all have the origin's colour in `g`.
pub open spec fn is_origin_path(g: Seq<u8>, w: int, h: int, p: Seq<int>) -> bool {
    &&& p.len() > 0
    &&& p[0] == 0
    &&& forall|t: int| 0 <= t < p.len() ==> 0 <= #[trigger] p[t] < g.len() && g[p[t]] == g[0]
    &&& forall|t: int| 0 <= t < p.len() - 1 ==> #[trigger] adjacent(w, h, p[t], p[t + 1])
}

/// Cell `j` belongs to the connected region of the origin's colour that
/// contains the origin.
pub open spec fn in_region(g: Seq<u8>, w: int, h: int, j: int) -> bool {
    exists|p: Seq<int>| #[trigger] is_origin_path(g, w, h, p) && p.last() == j
}

/// The grid after the origin's region is recoloured to `c`; every other
/// cell keeps its colour.
pub open spec fn flooded(g: Seq<u8>, w: int, h: int, c: u8) -> Seq<u8> {
    Seq::new(g.len(), |j: int| if in_region(g, w, h, j) { c } else { g[j] })
}

/// All cells hold the same colour.
pub open spec fn all_same(g: Seq<u8>) -> bool {
    forall|i: int, j: int| 0 <= i < g.len() && 0 <= j < g.len() ==> g[i] == g[j]
}

/// The colours that `n` successive palette draws produce from state `s`.
pub open spec fn generated(s: u64, n: nat) -> Seq<u8> {
    Seq::new(n, |k: int| range_output(state_after(s, k as nat), 0, PALETTE_SIZE))
}

/// Fills a `width` by `height` grid, row-major, with one palette draw per cell.
/// The grid is a function of the generator's state alone.
pub fn generate(rng: &mut Rng, width: usize, height: usize) -> (grid: Vec<u8>)
    requires
        width * height <= usize::MAX,
    ensures
        grid@ == generated(old(rng).state, (width * height) as nat),
        final(rng).state == state_after(old(rng).state, (width * height) as nat),
        in_palette(grid@),
{
    let n: usize = width * height;
    let ghost s0 = rng.state;
    let mut grid: Vec<u8> = Vec::with_capacity(n);
    let mut i: usize = 0;
    while i < n
        invariant
            i <= n,
            n == width * height,
            rng.state == state_after(s0, i as nat),
            grid@ == generated(s0, i as nat),
        decreases n - i,
    {
        let c = rng.gen_range(0, PALETTE_SIZE);
        grid.push(c);
        i = i + 1;
        assert(grid@ =~= generated(s0, i as nat));
    }
    grid
}

/// Whether every cell has the colour of the origin cell.
pub fn is_solved(grid: &Vec<u8>) -> (r: bool)
    ensures
        r == all_same(grid@),
        grid@.len() > 0 ==> (r <==> forall|j: int| 0 <= j < grid@.len() ==> #[trigger] grid@[j] == grid@[0]),
{
    let n = grid.len();
    if n == 0 {
        return true;
    }
    let first = grid[0];
    let mut k: usize = 1;
    while k < n
        invariant
            1 <= k <= n,
            n == grid.len(),
            first == grid@[0],
            forall|j: int| 0 <= j < k ==> grid@[j] == first,
        decreases n - k,
    {
        if grid[k] != first {
            return false;
        }
        k = k + 1;
    }
    true
}

} // verus!
