//! The flood: recolours the origin's connected region in place.

use vstd::prelude::*;
use crate::grid::{adjacent, is_origin_path, in_region, flooded, dims_ok, in_palette, PALETTE_SIZE};

verus! {

/// Number of cells of `s` whose colour is not `c`.
pub open spec fn count_other(s: Seq<u8>, c: u8) -> nat
    decreases s.len(),
{
    if s.len() == 0 {
        0
    } else {
        count_other(s.drop_last(), c) + if s.last() != c {
            1nat
        } else {
            0nat
        }
    }
}

/// `k` occurs somewhere in the work-list `q`.
pub open spec fn queued(q: Seq<usize>, k: int) -> bool {
    exists|t: int| 0 <= t < q.len() && q[t] == k
}

proof fn lemma_count_update(s: Seq<u8>, i: int, c: u8)
    requires
        0 <= i < s.len(),
        s[i] != c,
    ensures
        count_other(s.update(i, c), c) + 1 == count_other(s, c),
    decreases s.len(),
{
    let u = s.update(i, c);
    if i == s.len() - 1 {
        assert(u.drop_last() =~= s.drop_last());
    } else {
        assert(u.drop_last() =~= s.drop_last().update(i, c));
        lemma_count_update(s.drop_last(), i, c);
    }
}

/// Every cell of the origin's region has the origin's colour.
proof fn lemma_region_colored(g: Seq<u8>, w: int, h: int, j: int)
    requires
        in_region(g, w, h, j),
    ensures
        0 <= j < g.len(),
        g[j] == g[0],
{
    let p = choose|p: Seq<int>| #[trigger] is_origin_path(g, w, h, p) && p.last() == j;
    assert(0 <= p[p.len() - 1] < g.len());
}

/// Flooding with the colour the origin already has leaves the grid as it is.
pub proof fn lemma_flood_own_color(g: Seq<u8>, w: int, h: int)
    requires
        g.len() > 0,
    ensures
        flooded(g, w, h, g[0]) == g,
{
    assert forall|j: int| 0 <= j < g.len() implies #[trigger] flooded(g, w, h, g[0])[j] == g[j] by {
        if in_region(g, w, h, j) {
            lemma_region_colored(g, w, h, j);
        }
    }
    assert(flooded(g, w, h, g[0]) =~= g);
}

/// After a flood with `c`, the old region of the origin and the whole new
/// region of the origin have colour `c`, and every cell outside the old
/// region keeps its colour.
pub proof fn lemma_flood_region(g: Seq<u8>, w: int, h: int, c: u8)
    requires
        dims_ok(g, w, h),
    ensures
        ({
            let f = flooded(g, w, h, c);
            &&& f.len() == g.len()
            &&& f[0] == c
            &&& forall|j: int| in_region(g, w, h, j) ==> #[trigger] f[j] == c
            &&& forall|j: int| #[trigger] in_region(f, w, h, j) ==> f[j] == c
            &&& forall|j: int| 0 <= j < g.len() && !in_region(g, w, h, j) ==> #[trigger] f[j] == g[j]
        }),
{
    let f = flooded(g, w, h, c);
    assert(g.len() > 0) by (nonlinear_arith)
        requires
            dims_ok(g, w, h),
    ;
    lemma_origin_in_region(g, w, h);
    assert forall|j: int| in_region(g, w, h, j) implies #[trigger] f[j] == c by {
        lemma_region_colored(g, w, h, j);
    }
    assert forall|j: int| #[trigger] in_region(f, w, h, j) implies f[j] == c by {
        lemma_region_colored(f, w, h, j);
    }
}

/// Flooding twice with the same colour changes nothing the second time.
pub proof fn lemma_flood_idempotent(g: Seq<u8>, w: int, h: int, c: u8)
    requires
        dims_ok(g, w, h),
    ensures
        flooded(flooded(g, w, h, c), w, h, c) == flooded(g, w, h, c),
{
    assert(g.len() > 0) by (nonlinear_arith)
        requires
            dims_ok(g, w, h),
    ;
    lemma_flood_region(g, w, h, c);
    lemma_flood_own_color(flooded(g, w, h, c), w, h);
}

/// A flood with a palette colour keeps every cell in the palette.
pub proof fn lemma_flood_in_palette(g: Seq<u8>, w: int, h: int, c: u8)
    requires
        in_palette(g),
        c < PALETTE_SIZE,
    ensures
        in_palette(flooded(g, w, h, c)),
{
    let f = flooded(g, w, h, c);
    assert forall|j: int| 0 <= j < f.len() implies #[trigger] f[j] < PALETTE_SIZE by {
        if !in_region(g, w, h, j) {
            assert(f[j] == g[j]);
        }
    }
}

/// The neighbour offsets used by the flood stay inside the grid.
proof fn lemma_neighbor_bounds(w: int, h: int, i: int)
    requires
        0 < w,
        0 < h,
        0 <= i < w * h,
    ensures
        i % w != 0 ==> 1 <= i,
        i % w != w - 1 ==> i + 1 < w * h,
        i / w != 0 ==> w <= i,
        i / w != h - 1 ==> i + w < w * h,
{
    let r = i / w;
    let m = i % w;
    assert(i == w * r + m && 0 <= m < w) by {
        vstd::arithmetic::div_mod::lemma_fundamental_div_mod(i, w);
    }
    assert(0 <= r < h) by (nonlinear_arith)
        requires
            i == w * r + m,
            0 <= m < w,
            0 <= i < w * h,
            0 < w,
    ;
    if m != w - 1 {
        assert(i + 1 < w * h) by (nonlinear_arith)
            requires
                i == w * r + m,
                0 <= m < w - 1,
                r < h,
        ;
    }
    if r != 0 {
        assert(w <= i) by (nonlinear_arith)
            requires
                i == w * r + m,
                0 <= m,
                r >= 1,
                0 < w,
        ;
    }
    if r != h - 1 {
        assert(i + w < w * h) by (nonlinear_arith)
            requires
                i == w * r + m,
                m < w,
                r <= h - 2,
                0 < w,
        ;
    }
}

/// The origin is in its own region.
pub proof fn lemma_origin_in_region(g: Seq<u8>, w: int, h: int)
    requires
        g.len() > 0,
    ensures
        in_region(g, w, h, 0),
{
    let p = seq![0int];
    assert(is_origin_path(g, w, h, p));
}

/// A neighbour of a region cell that has the origin's colour is in the region.
proof fn lemma_region_step(g: Seq<u8>, w: int, h: int, i: int, k: int)
    requires
        in_region(g, w, h, i),
        adjacent(w, h, i, k),
        0 <= k < g.len(),
        g[k] == g[0],
    ensures
        in_region(g, w, h, k),
{
    let p = choose|p: Seq<int>| #[trigger] is_origin_path(g, w, h, p) && p.last() == i;
    let q = p.push(k);
    assert forall|t: int| 0 <= t < q.len() - 1 implies #[trigger] adjacent(w, h, q[t], q[t + 1]) by {
        if t < p.len() - 1 {
            assert(adjacent(w, h, p[t], p[t + 1]));
        }
    }
    assert(is_origin_path(g, w, h, q));
    assert(q.last() == k);
}

/// Where the origin has changed and change spreads to every neighbour of the
/// origin's colour, every cell of an origin path has changed.
proof fn lemma_path_changed(g: Seq<u8>, m: Seq<u8>, w: int, h: int, p: Seq<int>)
    requires
        is_origin_path(g, w, h, p),
        m.len() == g.len(),
        m[0] != g[0],
        forall|j: int, k: int|
            0 <= j < g.len() && 0 <= k < g.len() && m[j] != g[j] && #[trigger] adjacent(w, h, j, k)
                && g[k] == g[0] ==> m[k] != g[k],
    ensures
        m[p.last()] != g[p.last()],
    decreases p.len(),
{
    if p.len() > 1 {
        let q = p.drop_last();
        assert forall|t: int| 0 <= t < q.len() - 1 implies #[trigger] adjacent(w, h, q[t], q[t + 1]) by {
            assert(adjacent(w, h, p[t], p[t + 1]));
        }
        assert(is_origin_path(g, w, h, q));
        lemma_path_changed(g, m, w, h, q);
        let t = p.len() - 2;
        assert(adjacent(w, h, p[t], p[t + 1]));
    }
}

/// Pushes `k`, a neighbour of the region cell `i`, when it still has the
/// old colour; every entry of the work-list stays in the original region.
fn push_if_old(
    map: &Vec<u8>,
    queue: &mut Vec<usize>,
    k: usize,
    old_c: u8,
    Ghost(g0): Ghost<Seq<u8>>,
    Ghost(w): Ghost<int>,
    Ghost(h): Ghost<int>,
    Ghost(i): Ghost<int>,
)
    requires
        k < map.len(),
        map@.len() == g0.len(),
        old_c == g0[0],
        in_region(g0, w, h, i),
        adjacent(w, h, i, k as int),
        map@[k as int] == old_c ==> g0[k as int] == old_c,
        forall|t: int| 0 <= t < old(queue)@.len() ==> #[trigger] old(queue)@[t] < g0.len() && in_region(g0, w, h, old(queue)@[t] as int),
    ensures
        final(queue)@.len() <= old(queue)@.len() + 1,
        forall|x: int| queued(old(queue)@, x) ==> #[trigger] queued(final(queue)@, x),
        map@[k as int] == old_c ==> queued(final(queue)@, k as int),
        forall|t: int| 0 <= t < final(queue)@.len() ==> #[trigger] final(queue)@[t] < g0.len() && in_region(g0, w, h, final(queue)@[t] as int),
{
    if map[k] == old_c {
        let ghost q0 = queue@;
        proof {
            lemma_region_step(g0, w, h, i, k as int);
        }
        queue.push(k);
        assert(queue@[q0.len() as int] == k);
        assert forall|x: int| queued(q0, x) implies #[trigger] queued(queue@, x) by {
            let t = choose|t: int| 0 <= t < q0.len() && q0[t] == x;
            assert(queue@[t] == x);
        }
    }
}

/// Recolours to `new` the connected region of same-coloured cells that
/// contains the origin; no other cell changes.
pub fn flood(map: &mut Vec<u8>, width: usize, height: usize, new: u8)
    requires
        dims_ok(old(map)@, width as int, height as int),
    ensures
        final(map)@ == flooded(old(map)@, width as int, height as int, new),
{
    let ghost g0 = map@;
    let ghost w = width as int;
    let ghost h = height as int;
    let ghost n = g0.len();
    assert(n > 0) by (nonlinear_arith)
        requires
            0 < w,
            0 < h,
            n == w * h,
    ;
    let old_c = map[0];
    if old_c == new {
        proof {
            lemma_flood_own_color(g0, w, h);
        }
        return;
    }
    assert(n == map.len());
    let mut queue: Vec<usize> = Vec::new();
    queue.push(0);
    proof {
        lemma_origin_in_region(g0, w, h);
        assert(queue@[0] == 0);
    }
    while queue.len() > 0
        invariant
            map@.len() == n,
            g0.len() == n,
            0 < n <= usize::MAX,
            n == width * height,
            w == width as int,
            h == height as int,
            0 < width,
            0 < height,
            old_c == g0[0],
            old_c != new,
            forall|j: int| 0 <= j < n && #[trigger] map@[j] != g0[j] ==> map@[j] == new && in_region(g0, w, h, j),
            forall|t: int| 0 <= t < queue@.len() ==> #[trigger] queue@[t] < n && in_region(g0, w, h, queue@[t] as int),
            map@[0] != g0[0] || queued(queue@, 0),
            forall|j: int, k: int|
                0 <= j < n && 0 <= k < n && map@[j] != g0[j] && #[trigger] adjacent(w, h, j, k) && g0[k] == old_c
                    ==> map@[k] != g0[k] || queued(queue@, k),
        decreases 5 * count_other(map@, new) + queue@.len(),
    {
        let ghost q_full = queue@;
        let i = queue.pop().unwrap();
        proof {
            assert(q_full[q_full.len() - 1] == i);
            assert forall|x: int| queued(q_full, x) implies x == i || #[trigger] queued(queue@, x) by {
                let t = choose|t: int| 0 <= t < q_full.len() && q_full[t] == x;
                if t < q_full.len() - 1 {
                    assert(queue@[t] == x);
                }
            }
        }
        if map[i] == new {
            continue;
        }
        let ghost m0 = map@;
        proof {
            lemma_region_colored(g0, w, h, i as int);
            lemma_count_update(m0, i as int, new);
            lemma_neighbor_bounds(w, h, i as int);
        }
        map.set(i, new);
        if i % width != 0 {
            push_if_old(map, &mut queue, i - 1, old_c, Ghost(g0), Ghost(w), Ghost(h), Ghost(i as int));
        }
        if i % width != width - 1 {
            push_if_old(map, &mut queue, i + 1, old_c, Ghost(g0), Ghost(w), Ghost(h), Ghost(i as int));
        }
        if i / width != 0 {
            push_if_old(map, &mut queue, i - width, old_c, Ghost(g0), Ghost(w), Ghost(h), Ghost(i as int));
        }
        if i / width != height - 1 {
            push_if_old(map, &mut queue, i + width, old_c, Ghost(g0), Ghost(w), Ghost(h), Ghost(i as int));
        }
    }
    proof {
        assert forall|j: int| 0 <= j < n implies map@[j] == #[trigger] flooded(g0, w, h, new)[j] by {
            if in_region(g0, w, h, j) {
                let p = choose|p: Seq<int>| #[trigger] is_origin_path(g0, w, h, p) && p.last() == j;
                lemma_path_changed(g0, map@, w, h, p);
            }
        }
        assert(map@ =~= flooded(g0, w, h, new));
    }
}

} // verus!
