use vstd::prelude::*;
use vstd::arithmetic::div_mod::lemma_mod_multiples_vanish;
use vstd::arithmetic::div_mod::lemma_small_mod;

use crate::cell::Cell;
use crate::universe::cell_at;
use crate::universe::neighbor_live;
use crate::universe::spec_live_neighbors;
use crate::universe::toggled;

verus! {

/// `x % m` when `x` is at most `2 m`: `x` itself below `m`, `x - m`
/// between `m` and `2 m`, and 0 at exactly `2 m`.
proof fn lemma_mod_in_small(x: int, m: int)
    requires
        0 < m,
        0 <= x,
        x <= 2 * m,
    ensures
        x % m == if x < m {
            x
        } else if x < 2 * m {
            x - m
        } else {
            0
        },
{
    if x < m {
        lemma_small_mod(x as nat, m as nat);
    } else if x < 2 * m {
        lemma_mod_multiples_vanish(1, x - m, m);
        assert(m * 1 + (x - m) == x);
        lemma_small_mod((x - m) as nat, m as nat);
    } else {
        lemma_mod_multiples_vanish(2, 0, m);
        assert(m * 2 + 0 == x);
        lemma_small_mod(0, m as nat);
    }
}

/// Toggling the same cell twice in succession returns the buffer to
/// its original state.
pub proof fn lemma_toggle_twice(s: Seq<Cell>, i: int)
    requires
        0 <= i < s.len(),
    ensures
        toggled(toggled(s, i), i) == s,
{
    assert(toggled(toggled(s, i), i) =~= s);
}

/// Toroidal wraparound, bottom to top: on a grid of at least 3 by 3
/// whose single live cell sits at row `h - 1`, column `c`, the cell at
/// row 0 of the same column counts it among its neighbors — its
/// live-neighbor count is exactly 1.
pub proof fn lemma_wraparound_bottom_to_top(s: Seq<Cell>, w: int, h: int, c: int)
    requires
        3 <= w,
        3 <= h,
        0 <= c < w,
        s.len() == w * h,
        cell_at(s, w, h - 1, c) is Alive,
        forall|r2: int, c2: int|
            0 <= r2 < h && 0 <= c2 < w && !(r2 == h - 1 && c2 == c) ==> !((#[trigger] cell_at(
                s,
                w,
                r2,
                c2,
            )) is Alive),
    ensures
        spec_live_neighbors(s, w, h, 0, c) == 1,
{
    lemma_mod_in_small(h - 1, h);
    lemma_mod_in_small(h, h);
    lemma_mod_in_small(h + 1, h);
    lemma_mod_in_small(c + w - 1, w);
    lemma_mod_in_small(c + w, w);
    lemma_mod_in_small(c + w + 1, w);
    assert((0 + h - 1 + 0) % h == h - 1);
    assert((0 + h - 1 + 1) % h == 0);
    assert((0 + h - 1 + 2) % h == 1);
    assert((c + w - 1 + 1) % w == c);
    let cl = (c + w - 1 + 0) % w;
    let cr = (c + w - 1 + 2) % w;
    assert(0 <= cl < w && cl != c);
    assert(0 <= cr < w && cr != c);
    assert(neighbor_live(s, w, h, 0, c, 0, 1) == 1);
    assert(neighbor_live(s, w, h, 0, c, 0, 0) == 0);
    assert(neighbor_live(s, w, h, 0, c, 0, 2) == 0);
    assert(neighbor_live(s, w, h, 0, c, 1, 0) == 0);
    assert(neighbor_live(s, w, h, 0, c, 1, 2) == 0);
    assert(neighbor_live(s, w, h, 0, c, 2, 0) == 0);
    assert(neighbor_live(s, w, h, 0, c, 2, 1) == 0);
    assert(neighbor_live(s, w, h, 0, c, 2, 2) == 0);
}

/// Toroidal wraparound, top to bottom: on a grid of at least 3 by 3
/// whose single live cell sits at row 0, column `c`, the cell at row
/// `h - 1` of the same column counts it among its neighbors — its
/// live-neighbor count is exactly 1.
pub proof fn lemma_wraparound_top_to_bottom(s: Seq<Cell>, w: int, h: int, c: int)
    requires
        3 <= w,
        3 <= h,
        0 <= c < w,
        s.len() == w * h,
        cell_at(s, w, 0, c) is Alive,
        forall|r2: int, c2: int|
            0 <= r2 < h && 0 <= c2 < w && !(r2 == 0 && c2 == c) ==> !((#[trigger] cell_at(
                s,
                w,
                r2,
                c2,
            )) is Alive),
    ensures
        spec_live_neighbors(s, w, h, h - 1, c) == 1,
{
    lemma_mod_in_small(2 * h - 2, h);
    lemma_mod_in_small(2 * h - 1, h);
    lemma_mod_in_small(2 * h, h);
    lemma_mod_in_small(c + w - 1, w);
    lemma_mod_in_small(c + w, w);
    lemma_mod_in_small(c + w + 1, w);
    assert((h - 1 + h - 1 + 0) % h == h - 2);
    assert((h - 1 + h - 1 + 1) % h == h - 1);
    assert((h - 1 + h - 1 + 2) % h == 0);
    assert((c + w - 1 + 1) % w == c);
    let cl = (c + w - 1 + 0) % w;
    let cr = (c + w - 1 + 2) % w;
    assert(0 <= cl < w && cl != c);
    assert(0 <= cr < w && cr != c);
    assert(neighbor_live(s, w, h, h - 1, c, 2, 1) == 1);
    assert(neighbor_live(s, w, h, h - 1, c, 0, 0) == 0);
    assert(neighbor_live(s, w, h, h - 1, c, 0, 1) == 0);
    assert(neighbor_live(s, w, h, h - 1, c, 0, 2) == 0);
    assert(neighbor_live(s, w, h, h - 1, c, 1, 0) == 0);
    assert(neighbor_live(s, w, h, h - 1, c, 1, 2) == 0);
    assert(neighbor_live(s, w, h, h - 1, c, 2, 0) == 0);
    assert(neighbor_live(s, w, h, h - 1, c, 2, 2) == 0);
}

} // verus!
