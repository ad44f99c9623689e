//! The mathematical model of the grid: coordinate geometry, row-major
//! indexing, adjacency, the mine-placement exclusion zone around the first
//! click, and counting over the tile sequence.

use vstd::prelude::*;

use crate::tile::{Tile, TileState, TileValue};

verus! {

// ---------------------------------------------------------------------------
// Geometry
// ---------------------------------------------------------------------------

/// Coordinate validity for a `w` by `h` grid.
pub open spec fn coords_in(w: int, h: int, x: int, y: int) -> bool {
    0 <= x < w && 0 <= y < h
}

/// Two distinct cells that touch orthogonally or diagonally.
pub open spec fn adjacent(x1: int, y1: int, x2: int, y2: int) -> bool {
    (x1 != x2 || y1 != y2) && -1 <= x1 - x2 <= 1 && -1 <= y1 - y2 <= 1
}

/// The mine-placement exclusion zone: the seed cell plus its 3x3
/// neighborhood (membership is clamped to the grid simply because callers
/// only ask about in-bounds cells).
pub open spec fn in_zone(seed_x: int, seed_y: int, x: int, y: int) -> bool {
    -1 <= x - seed_x <= 1 && -1 <= y - seed_y <= 1
}

/// Row-major index of cell `(x, y)`.
pub open spec fn row_major(w: int, x: int, y: int) -> int {
    y * w + x
}

/// For in-bounds coordinates, the row-major index is itself in bounds and the
/// division/remainder pair recovers the coordinates.
pub proof fn lemma_coord_index(w: int, h: int, x: int, y: int)
    requires
        1 <= w,
        1 <= h,
        coords_in(w, h, x, y),
    ensures
        0 <= row_major(w, x, y) < w * h,
        row_major(w, x, y) % w == x,
        row_major(w, x, y) / w == y,
{
    assert(0 <= y * w + x < w * h) by (nonlinear_arith)
        requires
            1 <= w,
            1 <= h,
            0 <= x < w,
            0 <= y < h,
    ;
    vstd::arithmetic::div_mod::lemma_fundamental_div_mod_converse(y * w + x, w, y, x);
}

/// Every index below `w * h` is the row-major index of a unique in-bounds
/// coordinate pair, namely `(i % w, i / w)`.
pub proof fn lemma_index_coord(w: int, h: int, i: int)
    requires
        1 <= w,
        1 <= h,
        0 <= i < w * h,
    ensures
        coords_in(w, h, i % w, i / w),
        row_major(w, i % w, i / w) == i,
{
    vstd::arithmetic::div_mod::lemma_fundamental_div_mod(i, w);
    vstd::arithmetic::div_mod::lemma_mod_bound(i, w);
    assert(i == w * (i / w) + i % w);
    assert(0 <= i / w) by (nonlinear_arith)
        requires
            1 <= w,
            0 <= i,
            i == w * (i / w) + i % w,
            0 <= i % w < w,
    ;
    assert(i / w < h) by (nonlinear_arith)
        requires
            1 <= w,
            i < w * h,
            i == w * (i / w) + i % w,
            0 <= i % w < w,
    ;
    assert((i / w) * w + i % w == i) by (nonlinear_arith)
        requires
            i == w * (i / w) + i % w,
    ;
}

/// Distinct in-bounds coordinates have distinct row-major indices.
pub proof fn lemma_row_major_injective(w: int, h: int, x1: int, y1: int, x2: int, y2: int)
    requires
        1 <= w,
        1 <= h,
        coords_in(w, h, x1, y1),
        coords_in(w, h, x2, y2),
        row_major(w, x1, y1) == row_major(w, x2, y2),
    ensures
        x1 == x2,
        y1 == y2,
{
    lemma_coord_index(w, h, x1, y1);
    lemma_coord_index(w, h, x2, y2);
}

// ---------------------------------------------------------------------------
// Counting tiles that match a predicate
// ---------------------------------------------------------------------------

/// How many tiles of `s` satisfy `p`.
pub open spec fn count_matching(s: Seq<Tile>, p: spec_fn(Tile) -> bool) -> int
    decreases s.len(),
{
    if s.len() == 0 {
        0
    } else {
        count_matching(s.drop_last(), p) + if p(s.last()) {
            1int
        } else {
            0int
        }
    }
}

pub proof fn lemma_count_bounds(s: Seq<Tile>, p: spec_fn(Tile) -> bool)
    ensures
        0 <= count_matching(s, p) <= s.len(),
    decreases s.len(),
{
    if s.len() > 0 {
        lemma_count_bounds(s.drop_last(), p);
    }
}

/// Replacing one element changes the count by the difference of the two
/// elements' memberships.
pub proof fn lemma_count_update(s: Seq<Tile>, p: spec_fn(Tile) -> bool, i: int, t: Tile)
    requires
        0 <= i < s.len(),
    ensures
        count_matching(s.update(i, t), p) == count_matching(s, p) - (if p(s[i]) {
            1int
        } else {
            0int
        }) + (if p(t) {
            1int
        } else {
            0int
        }),
    decreases s.len(),
{
    let su = s.update(i, t);
    if i == s.len() - 1 {
        assert(su.drop_last() =~= s.drop_last());
        assert(su.last() == t);
    } else {
        lemma_count_update(s.drop_last(), p, i, t);
        assert(su.drop_last() =~= s.drop_last().update(i, t));
        assert(su.last() == s.last());
    }
}

/// The count is zero exactly when no element matches.
pub proof fn lemma_count_zero(s: Seq<Tile>, p: spec_fn(Tile) -> bool)
    ensures
        (count_matching(s, p) == 0) <==> (forall|i: int| 0 <= i < s.len() ==> !p(s[i])),
    decreases s.len(),
{
    if s.len() > 0 {
        lemma_count_zero(s.drop_last(), p);
        lemma_count_bounds(s.drop_last(), p);
        assert(forall|i: int| 0 <= i < s.len() - 1 ==> s.drop_last()[i] == s[i]);
        assert(s.last() == s[s.len() - 1]);
    }
}

/// Two sequences that agree pointwise under the predicate have equal counts.
pub proof fn lemma_count_congruence(a: Seq<Tile>, b: Seq<Tile>, p: spec_fn(Tile) -> bool)
    requires
        a.len() == b.len(),
        forall|i: int| 0 <= i < a.len() ==> p(a[i]) == p(b[i]),
    ensures
        count_matching(a, p) == count_matching(b, p),
    decreases a.len(),
{
    if a.len() > 0 {
        assert(forall|i: int| 0 <= i < a.len() - 1 ==> a.drop_last()[i] == a[i]);
        assert(forall|i: int| 0 <= i < b.len() - 1 ==> b.drop_last()[i] == b[i]);
        lemma_count_congruence(a.drop_last(), b.drop_last(), p);
        assert(a.last() == a[a.len() - 1]);
        assert(b.last() == b[b.len() - 1]);
    }
}

/// If every `r` element is a `p` element or a `q` element, the `r` count is
/// at most the sum of the other two.
pub proof fn lemma_count_split(
    s: Seq<Tile>,
    r: spec_fn(Tile) -> bool,
    p: spec_fn(Tile) -> bool,
    q: spec_fn(Tile) -> bool,
)
    requires
        forall|t: Tile| #[trigger] r(t) ==> p(t) || q(t),
    ensures
        count_matching(s, r) <= count_matching(s, p) + count_matching(s, q),
    decreases s.len(),
{
    if s.len() > 0 {
        lemma_count_split(s.drop_last(), r, p, q);
    }
}

/// Complementary predicates split the length.
pub proof fn lemma_count_complement(s: Seq<Tile>, p: spec_fn(Tile) -> bool, q: spec_fn(Tile) -> bool)
    requires
        forall|t: Tile| #[trigger] q(t) == !(#[trigger] p(t)),
    ensures
        count_matching(s, p) + count_matching(s, q) == s.len(),
    decreases s.len(),
{
    if s.len() > 0 {
        lemma_count_complement(s.drop_last(), p, q);
    }
}

// ---------------------------------------------------------------------------
// The predicates the engine counts with
// ---------------------------------------------------------------------------

/// Tiles holding a mine.
pub open spec fn mine_pred() -> spec_fn(Tile) -> bool {
    |t: Tile| t.tile_value == TileValue::Bomb
}

/// Tiles currently flagged.
pub open spec fn flagged_pred() -> spec_fn(Tile) -> bool {
    |t: Tile| t.tile_state == TileState::Flagged
}

/// Tiles not yet revealed.
pub open spec fn unrevealed_pred() -> spec_fn(Tile) -> bool {
    |t: Tile| t.tile_state == TileState::Unrevealed
}

/// Tiles inside the exclusion zone of the given seed (judged by the
/// coordinates the tile carries).
pub open spec fn zone_pred(seed_x: int, seed_y: int) -> spec_fn(Tile) -> bool {
    |t: Tile| in_zone(seed_x, seed_y, t.x as int, t.y as int)
}

/// Tiles outside the exclusion zone of the given seed.
pub open spec fn nonzone_pred(seed_x: int, seed_y: int) -> spec_fn(Tile) -> bool {
    |t: Tile| !in_zone(seed_x, seed_y, t.x as int, t.y as int)
}

/// Tiles a new mine may land on: outside the exclusion zone and not already
/// a mine.
pub open spec fn free_pred(seed_x: int, seed_y: int) -> spec_fn(Tile) -> bool {
    |t: Tile|
        !in_zone(seed_x, seed_y, t.x as int, t.y as int) && t.tile_value != TileValue::Bomb
}

/// Total number of mines on the board.
pub open spec fn count_mines(s: Seq<Tile>) -> int {
    count_matching(s, mine_pred())
}

/// Total number of flags on the board.
pub open spec fn count_flagged(s: Seq<Tile>) -> int {
    count_matching(s, flagged_pred())
}

/// Number of in-bounds cells in the exclusion zone of the given seed
/// (assuming, as the grid invariant gives, that tile coordinates match their
/// indices).
pub open spec fn count_zone(s: Seq<Tile>, seed_x: int, seed_y: int) -> int {
    count_matching(s, zone_pred(seed_x, seed_y))
}

} // verus!
