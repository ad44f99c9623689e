//! Revealing tiles: the flood fill over zero regions, mine detonation with
//! the full-board finalization sweep, and the chorded reveal.
//!
//! The flood fill is an explicit worklist over the finite grid. Its
//! postcondition is exact: starting from a seed set, precisely the cells
//! reachable through connected zero tiles (plus the numbered border, which
//! the reachability relation includes as path endpoints) flip from hidden to
//! revealed, and nothing else changes.

use vstd::prelude::*;

use crate::board::{adjacent, count_matching, lemma_count_update, row_major, unrevealed_pred};
use crate::game::{
    adjacent_flags, elapsed, flag_ind, in_bounds, is_flagged_at, is_mine, lemma_tile_coords,
    tile_at, wf, Game, GameState,
};
use crate::tile::{Tile, TileState, TileValue};

verus! {

// ---------------------------------------------------------------------------
// Reachability: which cells one reveal may flip
// ---------------------------------------------------------------------------

/// The cell is in bounds and still hidden, so a reveal may flip it.
pub open spec fn revealable(g: Game, x: int, y: int) -> bool {
    in_bounds(g, x, y) && tile_at(g, x, y).tile_state == TileState::Unrevealed
}

/// The cell is in bounds and holds a zero: no mine and no adjacent mines.
pub open spec fn zero_at(g: Game, x: int, y: int) -> bool {
    in_bounds(g, x, y) && tile_at(g, x, y).tile_value == TileValue::Empty(0)
}

/// The same tile, shown.
pub open spec fn revealed_tile(t: Tile) -> Tile {
    Tile { tile_state: TileState::Revealed, ..t }
}

/// A flood path: every cell on it is hidden, every cell before the last is a
/// zero tile, consecutive cells touch, and it starts in the seed set. The
/// last cell may be any hidden tile, which makes the numbered border of a
/// zero region (and the seeds themselves) reachable endpoints.
pub open spec fn path_ok(g: Game, seeds: Set<(int, int)>, p: Seq<(int, int)>) -> bool {
    &&& p.len() >= 1
    &&& seeds.contains(p[0])
    &&& forall|i: int| 0 <= i < p.len() ==> revealable(g, (#[trigger] p[i]).0, p[i].1)
    &&& forall|i: int| 0 <= i < p.len() - 1 ==> zero_at(g, (#[trigger] p[i]).0, p[i].1)
    &&& forall|i: int|
        0 <= i < p.len() - 1 ==> adjacent((#[trigger] p[i]).0, p[i].1, p[i + 1].0, p[i + 1].1)
}

/// The reveal started at `seeds` (in the board `g`) flips cell `(x, y)`:
/// some flood path ends there.
pub open spec fn reach(g: Game, seeds: Set<(int, int)>, x: int, y: int) -> bool {
    exists|p: Seq<(int, int)>| #[trigger] path_ok(g, seeds, p) && p.last() == (x, y)
}

/// A hidden seed is reachable (by the one-cell path).
pub proof fn lemma_reach_seed(g: Game, seeds: Set<(int, int)>, x: int, y: int)
    requires
        seeds.contains((x, y)),
        revealable(g, x, y),
    ensures
        reach(g, seeds, x, y),
{
    let p: Seq<(int, int)> = seq![(x, y)];
    assert(path_ok(g, seeds, p) && p.last() == (x, y));
}

/// Reachability steps from a reachable zero cell to any hidden neighbor.
pub proof fn lemma_reach_step(
    g: Game,
    seeds: Set<(int, int)>,
    zx: int,
    zy: int,
    nx: int,
    ny: int,
)
    requires
        reach(g, seeds, zx, zy),
        zero_at(g, zx, zy),
        adjacent(zx, zy, nx, ny),
        revealable(g, nx, ny),
    ensures
        reach(g, seeds, nx, ny),
{
    let p = choose|p: Seq<(int, int)>| #[trigger] path_ok(g, seeds, p) && p.last() == (zx, zy);
    let q = p.push((nx, ny));
    assert(forall|i: int| 0 <= i < p.len() ==> q[i] == p[i]);
    assert(q[q.len() - 1] == (nx, ny));
    assert(q[q.len() - 2] == (zx, zy));
    assert(path_ok(g, seeds, q));
    assert(q.last() == (nx, ny));
}

/// A mine is never reachable from a non-mine seed on a correctly numbered
/// board: the cell before it on the path would be a zero tile adjacent to a
/// mine.
pub proof fn lemma_no_mine_reachable(g: Game, x: int, y: int, mx: int, my: int)
    requires
        wf(g),
        crate::game::numbers_ok(g),
        !is_mine(g, x, y),
        reach(g, single_seed(x, y), mx, my),
    ensures
        !is_mine(g, mx, my),
{
    if is_mine(g, mx, my) {
        let p = choose|p: Seq<(int, int)>|
            #[trigger] path_ok(g, single_seed(x, y), p) && p.last() == (mx, my);
        assert(p[0] == (x, y));
        if p.len() == 1 {
            assert(p.last() == p[0]);
        } else {
            let n = p.len() as int;
            let pen = p[n - 2];
            assert(zero_at(g, pen.0, pen.1));
            assert(adjacent(pen.0, pen.1, mx, my));
            // A zero tile stores count zero, so no neighbor holds a mine.
            assert(!is_mine(g, pen.0, pen.1));
            assert(tile_at(g, pen.0, pen.1).tile_value == TileValue::Empty(
                crate::game::adjacent_mines(g, pen.0, pen.1) as u8,
            ));
            lemma_adjacent_mines_bounds(g, pen.0, pen.1);
            assert(crate::game::adjacent_mines(g, pen.0, pen.1) == 0);
            lemma_adjacent_mine_counted(g, pen.0, pen.1, mx, my);
        }
    }
}

/// The neighbor-mine count is between 0 and 8.
pub proof fn lemma_adjacent_mines_bounds(g: Game, x: int, y: int)
    ensures
        0 <= crate::game::adjacent_mines(g, x, y) <= 8,
{
}

/// A mine adjacent to `(x, y)` contributes to that cell's neighbor count.
pub proof fn lemma_adjacent_mine_counted(g: Game, x: int, y: int, mx: int, my: int)
    requires
        adjacent(x, y, mx, my),
        is_mine(g, mx, my),
    ensures
        crate::game::adjacent_mines(g, x, y) >= 1,
{
    assert(mx == x - 1 || mx == x || mx == x + 1);
    assert(my == y - 1 || my == y || my == y + 1);
}

/// The seed set of a primary reveal: the clicked cell alone.
pub open spec fn single_seed(x: int, y: int) -> Set<(int, int)> {
    Set::new(|c: (int, int)| c == (x, y))
}

/// The seed set a worklist holds: the coordinates of its entries.
pub open spec fn stack_seeds(s: Seq<(usize, usize)>) -> Set<(int, int)> {
    Set::new(
        |c: (int, int)|
            exists|k: int|
                0 <= k < s.len() && (#[trigger] s[k]).0 as int == c.0 && s[k].1 as int == c.1,
    )
}

/// Coordinate `(x, y)` occurs in the worklist.
pub open spec fn in_stack(s: Seq<(usize, usize)>, x: int, y: int) -> bool {
    exists|k: int| 0 <= k < s.len() && (#[trigger] s[k]).0 as int == x && s[k].1 as int == y
}

/// Some reachable cell holds a mine, so a reveal from `seeds` detonates.
pub open spec fn mine_reachable(g: Game, seeds: Set<(int, int)>) -> bool {
    exists|x: int, y: int| #[trigger] reach(g, seeds, x, y) && is_mine(g, x, y)
}

// ---------------------------------------------------------------------------
// Result relations
// ---------------------------------------------------------------------------

/// Exact result of a completed (mine-free) flood reveal: precisely the
/// reachable cells flip to revealed; every other tile and the game state are
/// untouched.
pub open spec fn flood_result(pre: Game, post: Game, seeds: Set<(int, int)>) -> bool {
    &&& post.width == pre.width
    &&& post.height == pre.height
    &&& post.mine_count == pre.mine_count
    &&& post.state == pre.state
    &&& post.tiles@.len() == pre.tiles@.len()
    &&& forall|x: int, y: int|
        in_bounds(pre, x, y) ==> #[trigger] tile_at(post, x, y) == (if reach(pre, seeds, x, y) {
            revealed_tile(tile_at(pre, x, y))
        } else {
            tile_at(pre, x, y)
        })
}

/// What the loss finalization sweep does to one tile: mines that are neither
/// the exploded one nor flagged are shown; flags on non-mines are marked
/// wrong; everything else is untouched.
pub open spec fn swept_tile(t: Tile) -> Tile {
    match t.tile_value {
        TileValue::Bomb => if t.tile_state == TileState::Exploded || t.tile_state
            == TileState::Flagged {
            t
        } else {
            Tile { tile_state: TileState::Revealed, ..t }
        },
        TileValue::Empty(_) => if t.tile_state == TileState::Flagged {
            Tile { tile_state: TileState::WrongFlag, ..t }
        } else {
            t
        },
    }
}

/// A cut-short flood: a monotone reveal of some of the reachable non-mine
/// cells (what a flood had finished when it hit a mine).
pub open spec fn partial_flood(pre: Game, mid: Game, seeds: Set<(int, int)>) -> bool {
    &&& mid.width == pre.width
    &&& mid.height == pre.height
    &&& mid.mine_count == pre.mine_count
    &&& mid.state == pre.state
    &&& mid.tiles@.len() == pre.tiles@.len()
    &&& forall|x: int, y: int|
        in_bounds(pre, x, y) ==> #[trigger] tile_at(mid, x, y) == tile_at(pre, x, y) || (revealable(
            pre,
            x,
            y,
        ) && reach(pre, seeds, x, y) && !is_mine(pre, x, y) && tile_at(mid, x, y) == revealed_tile(
            tile_at(pre, x, y),
        ))
}

/// The board after the mine at `(mx, my)` blew up in board `mid`: that tile
/// is the exploded one, every other tile is swept, and a running game is
/// lost with the elapsed time recorded.
pub open spec fn detonated_from(mid: Game, post: Game, mx: int, my: int, now: u64) -> bool {
    &&& post.width == mid.width
    &&& post.height == mid.height
    &&& post.mine_count == mid.mine_count
    &&& post.tiles@.len() == mid.tiles@.len()
    &&& forall|i: int|
        0 <= i < mid.tiles@.len() && i != row_major(mid.width as int, mx, my)
            ==> #[trigger] post.tiles@[i] == swept_tile(mid.tiles@[i])
    &&& tile_at(post, mx, my) == (Tile { tile_state: TileState::Exploded, ..tile_at(mid, mx, my) })
    &&& post.state == (match mid.state {
        GameState::Playing(start) => GameState::Lost(elapsed(start, now)),
        _ => mid.state,
    })
}

/// A reveal from `seeds` that hit a mine: after some cut-short flood, one
/// reachable hidden mine exploded and the board was swept.
pub open spec fn flood_lost(pre: Game, post: Game, seeds: Set<(int, int)>, now: u64) -> bool {
    exists|mx: int, my: int, mid: Game|
        {
            &&& #[trigger] reach(pre, seeds, mx, my)
            &&& is_mine(pre, mx, my)
            &&& revealable(pre, mx, my)
            &&& #[trigger] partial_flood(pre, mid, seeds)
            &&& detonated_from(mid, post, mx, my, now)
        }
}

// ---------------------------------------------------------------------------
// Completeness of the worklist flood
// ---------------------------------------------------------------------------

/// If the seeds are all handled and every newly revealed zero cell has all
/// its neighbors handled, then every reachable cell has been revealed. This
/// is the induction over flood paths that turns the loop's closure
/// invariants into the exact flood result.
pub proof fn lemma_flood_complete(g0: Game, cur: Game, seeds: Set<(int, int)>, p: Seq<(int, int)>)
    requires
        cur.width == g0.width,
        cur.height == g0.height,
        cur.tiles@.len() == g0.tiles@.len(),
        path_ok(g0, seeds, p),
        forall|x: int, y: int|
            in_bounds(g0, x, y) ==> #[trigger] tile_at(cur, x, y) == tile_at(g0, x, y) || tile_at(
                cur,
                x,
                y,
            ) == revealed_tile(tile_at(g0, x, y)),
        forall|c: (int, int)|
            seeds.contains(c) && revealable(g0, c.0, c.1) ==> (#[trigger] tile_at(
                cur,
                c.0,
                c.1,
            )).tile_state != TileState::Unrevealed,
        forall|x: int, y: int, nx: int, ny: int|
            zero_at(g0, x, y) && revealable(g0, x, y) && (#[trigger] tile_at(
                cur,
                x,
                y,
            )).tile_state == TileState::Revealed && adjacent(x, y, nx, ny) && in_bounds(
                g0,
                nx,
                ny,
            ) ==> (#[trigger] tile_at(cur, nx, ny)).tile_state != TileState::Unrevealed,
    ensures
        tile_at(cur, p.last().0, p.last().1).tile_state == TileState::Revealed,
    decreases p.len(),
{
    let n = p.len() as int;
    let last = p[n - 1];
    assert(revealable(g0, last.0, last.1));
    if n == 1 {
        assert(seeds.contains(p[0]));
        assert(tile_at(cur, last.0, last.1).tile_state != TileState::Unrevealed);
    } else {
        let q = p.drop_last();
        assert(forall|i: int| 0 <= i < q.len() ==> q[i] == p[i]);
        assert(path_ok(g0, seeds, q));
        lemma_flood_complete(g0, cur, seeds, q);
        let pen = p[n - 2];
        assert(q.last() == pen);
        assert(tile_at(cur, pen.0, pen.1).tile_state == TileState::Revealed);
        assert(zero_at(g0, pen.0, pen.1));
        assert(revealable(g0, pen.0, pen.1));
        assert(adjacent(pen.0, pen.1, last.0, last.1));
        assert(tile_at(cur, last.0, last.1).tile_state != TileState::Unrevealed);
    }
}

// ---------------------------------------------------------------------------
// Worklist membership
// ---------------------------------------------------------------------------

/// Membership survives popping unless the popped entry was the last
/// occurrence of the coordinate.
pub proof fn lemma_pop_cases(prev: Seq<(usize, usize)>, x: int, y: int)
    requires
        prev.len() > 0,
        in_stack(prev, x, y),
    ensures
        in_stack(prev.drop_last(), x, y) || (prev.last().0 as int == x && prev.last().1 as int
            == y),
{
    let k = choose|k: int| 0 <= k < prev.len() && (#[trigger] prev[k]).0 as int == x && prev[k].1
        as int == y;
    if k < prev.len() - 1 {
        assert(prev.drop_last()[k] == prev[k]);
    }
}

/// Whatever is in the popped worklist was there before the pop.
pub proof fn lemma_pop_subset(prev: Seq<(usize, usize)>, x: int, y: int)
    requires
        prev.len() > 0,
        in_stack(prev.drop_last(), x, y),
    ensures
        in_stack(prev, x, y),
{
    let k = choose|k: int|
        0 <= k < prev.drop_last().len() && (#[trigger] prev.drop_last()[k]).0 as int == x
            && prev.drop_last()[k].1 as int == y;
    assert(prev[k] == prev.drop_last()[k]);
}

proof fn lemma_push_mono(s: Seq<(usize, usize)>, e: (usize, usize), x: int, y: int)
    requires
        in_stack(s, x, y),
    ensures
        in_stack(s.push(e), x, y),
{
    let k = choose|k: int| 0 <= k < s.len() && (#[trigger] s[k]).0 as int == x && s[k].1 as int
        == y;
    assert(s.push(e)[k] == s[k]);
}

proof fn lemma_push_cases(s: Seq<(usize, usize)>, e: (usize, usize), x: int, y: int)
    requires
        in_stack(s.push(e), x, y),
    ensures
        in_stack(s, x, y) || (e.0 as int == x && e.1 as int == y),
{
    let k = choose|k: int|
        0 <= k < s.push(e).len() && (#[trigger] s.push(e)[k]).0 as int == x && s.push(e)[k].1
            as int == y;
    if k < s.len() {
        assert(s.push(e)[k] == s[k]);
    } else {
        assert(s.push(e)[k] == e);
    }
}

/// Appends one coordinate to the worklist, tracking membership exactly.
fn push_one(work: &mut Vec<(usize, usize)>, e: (usize, usize))
    ensures
        forall|x: int, y: int| in_stack(old(work)@, x, y) ==> in_stack(final(work)@, x, y),
        in_stack(final(work)@, e.0 as int, e.1 as int),
        forall|x: int, y: int|
            in_stack(final(work)@, x, y) ==> in_stack(old(work)@, x, y) || (e.0 as int == x && e.1
                as int == y),
{
    let ghost s = work@;
    work.push(e);
    proof {
        assert forall|x: int, y: int| in_stack(s, x, y) implies in_stack(s.push(e), x, y) by {
            lemma_push_mono(s, e, x, y);
        }
        assert(s.push(e)[s.len() as int] == e);
        assert(in_stack(s.push(e), e.0 as int, e.1 as int));
        assert forall|x: int, y: int| in_stack(s.push(e), x, y) implies in_stack(s, x, y) || (e.0
            as int == x && e.1 as int == y) by {
            lemma_push_cases(s, e, x, y);
        }
    }
}

/// Pushes every in-bounds neighbor of `(cx, cy)` in a `w` by `h` grid onto
/// the worklist, and nothing else.
fn push_neighbors(work: &mut Vec<(usize, usize)>, cx: usize, cy: usize, w: usize, h: usize)
    requires
        cx < w,
        cy < h,
    ensures
        forall|x: int, y: int| in_stack(old(work)@, x, y) ==> in_stack(final(work)@, x, y),
        forall|x: int, y: int|
            adjacent(cx as int, cy as int, x, y) && crate::board::coords_in(
                w as int,
                h as int,
                x,
                y,
            ) ==> in_stack(final(work)@, x, y),
        forall|x: int, y: int|
            in_stack(final(work)@, x, y) ==> in_stack(old(work)@, x, y) || (adjacent(
                cx as int,
                cy as int,
                x,
                y,
            ) && crate::board::coords_in(w as int, h as int, x, y)),
{
    if cx >= 1 && cy >= 1 {
        push_one(work, (cx - 1, cy - 1));
    }
    if cy >= 1 {
        push_one(work, (cx, cy - 1));
    }
    if cx + 1 < w && cy >= 1 {
        push_one(work, (cx + 1, cy - 1));
    }
    if cx >= 1 {
        push_one(work, (cx - 1, cy));
    }
    if cx + 1 < w {
        push_one(work, (cx + 1, cy));
    }
    if cx >= 1 && cy + 1 < h {
        push_one(work, (cx - 1, cy + 1));
    }
    if cy + 1 < h {
        push_one(work, (cx, cy + 1));
    }
    if cx + 1 < w && cy + 1 < h {
        push_one(work, (cx + 1, cy + 1));
    }
    proof {
        assert forall|x: int, y: int|
            adjacent(cx as int, cy as int, x, y) && crate::board::coords_in(
                w as int,
                h as int,
                x,
                y,
            ) implies in_stack(work@, x, y) by {
            assert(x == cx as int - 1 || x == cx as int || x == cx as int + 1);
            assert(y == cy as int - 1 || y == cy as int || y == cy as int + 1);
        }
    }
}

/// Packaging of the loop argument for the detonation exit: the partial
/// flood done so far plus the explosion give the loss outcome.
proof fn lemma_flood_detonation(
    g0: Game,
    mid: Game,
    post: Game,
    seeds: Set<(int, int)>,
    mx: int,
    my: int,
    now: u64,
)
    requires
        mid.width == g0.width,
        mid.height == g0.height,
        mid.mine_count == g0.mine_count,
        mid.state == g0.state,
        mid.tiles@.len() == g0.tiles@.len(),
        forall|x: int, y: int|
            in_bounds(g0, x, y) ==> #[trigger] tile_at(mid, x, y) == tile_at(g0, x, y)
                || (revealable(g0, x, y) && reach(g0, seeds, x, y) && !is_mine(g0, x, y)
                && tile_at(mid, x, y) == revealed_tile(tile_at(g0, x, y))),
        reach(g0, seeds, mx, my),
        is_mine(g0, mx, my),
        revealable(g0, mx, my),
        detonated_from(mid, post, mx, my, now),
    ensures
        mine_reachable(g0, seeds),
        flood_lost(g0, post, seeds, now),
{
    assert(partial_flood(g0, mid, seeds));
}

/// Packaging of the loop invariants at exit: with the worklist drained, the
/// closure properties imply the exact flood result, and no reachable mine
/// can exist (a reachable mine would have been revealed, but the loop only
/// reveals non-mines).
proof fn lemma_flood_exit(g0: Game, cur: Game, seeds: Set<(int, int)>)
    requires
        cur.width == g0.width,
        cur.height == g0.height,
        cur.mine_count == g0.mine_count,
        cur.state == g0.state,
        cur.tiles@.len() == g0.tiles@.len(),
        forall|x: int, y: int|
            in_bounds(g0, x, y) ==> #[trigger] tile_at(cur, x, y) == tile_at(g0, x, y)
                || (revealable(g0, x, y) && reach(g0, seeds, x, y) && !is_mine(g0, x, y)
                && tile_at(cur, x, y) == revealed_tile(tile_at(g0, x, y))),
        forall|c: (int, int)|
            seeds.contains(c) && revealable(g0, c.0, c.1) ==> (#[trigger] tile_at(
                cur,
                c.0,
                c.1,
            )).tile_state != TileState::Unrevealed,
        forall|x: int, y: int, nx: int, ny: int|
            zero_at(g0, x, y) && revealable(g0, x, y) && (#[trigger] tile_at(
                cur,
                x,
                y,
            )).tile_state == TileState::Revealed && adjacent(x, y, nx, ny) && in_bounds(
                g0,
                nx,
                ny,
            ) ==> (#[trigger] tile_at(cur, nx, ny)).tile_state != TileState::Unrevealed,
    ensures
        !mine_reachable(g0, seeds),
        flood_result(g0, cur, seeds),
{
    assert forall|x: int, y: int| #[trigger] reach(g0, seeds, x, y) implies in_bounds(g0, x, y)
        && tile_at(cur, x, y).tile_state == TileState::Revealed && !is_mine(g0, x, y) by {
        let p = choose|p: Seq<(int, int)>| #[trigger] path_ok(g0, seeds, p) && p.last() == (x, y);
        assert(revealable(g0, x, y));
        lemma_flood_complete(g0, cur, seeds, p);
        assert(tile_at(cur, x, y).tile_state == TileState::Revealed);
        assert(tile_at(cur, x, y) == revealed_tile(tile_at(g0, x, y)));
    }
    assert(!mine_reachable(g0, seeds));
    assert forall|x: int, y: int| in_bounds(g0, x, y) implies #[trigger] tile_at(cur, x, y) == (
    if reach(g0, seeds, x, y) {
        revealed_tile(tile_at(g0, x, y))
    } else {
        tile_at(g0, x, y)
    }) by {}
}

impl Game {
    /// The loss finalization sweep, run once when a mine explodes: every
    /// mine that is neither the exploded one nor flagged becomes revealed,
    /// and every flag sitting on a non-mine becomes a wrong-flag marker.
    pub fn reveal_all(&mut self)
        requires
            wf(*old(self)),
        ensures
            wf(*final(self)),
            final(self).width == old(self).width,
            final(self).height == old(self).height,
            final(self).mine_count == old(self).mine_count,
            final(self).state == old(self).state,
            final(self).tiles@.len() == old(self).tiles@.len(),
            forall|i: int|
                0 <= i < old(self).tiles@.len() ==> #[trigger] final(self).tiles@[i] == swept_tile(
                    old(self).tiles@[i],
                ),
    {
        let ghost g0 = *old(self);
        let mut i: usize = 0;
        while i < self.tiles.len()
            invariant
                wf(*self),
                self.width == g0.width,
                self.height == g0.height,
                self.mine_count == g0.mine_count,
                self.state == g0.state,
                self.tiles@.len() == g0.tiles@.len(),
                i <= self.tiles@.len(),
                forall|j: int| 0 <= j < i ==> #[trigger] self.tiles@[j] == swept_tile(g0.tiles@[j]),
                forall|j: int| i <= j < g0.tiles@.len() ==> #[trigger] self.tiles@[j] == g0.tiles@[j],
            decreases self.tiles@.len() - i,
        {
            let t = self.tiles[i];
            match t.get_value() {
                TileValue::Bomb => {
                    if !t.is_exploded() && !t.is_flagged() {
                        let mut shown = t;
                        shown.set_state(TileState::Revealed);
                        self.tiles[i] = shown;
                    }
                },
                TileValue::Empty(_) => {
                    if t.is_flagged() {
                        let mut marked = t;
                        marked.set_state(TileState::WrongFlag);
                        self.tiles[i] = marked;
                    }
                },
            }
            i = i + 1;
        }
    }

    /// Explodes the tile at `(x, y)`: marks it, sweeps the whole board, and
    /// moves a running game to `Lost` with the elapsed time.
    pub(crate) fn detonate(&mut self, x: usize, y: usize, now: u64)
        requires
            wf(*old(self)),
            in_bounds(*old(self), x as int, y as int),
        ensures
            wf(*final(self)),
            detonated_from(*old(self), *final(self), x as int, y as int, now),
    {
        let ghost g0 = *old(self);
        let i = self.index_of(x, y);
        let mut t = self.tiles[i];
        t.set_state(TileState::Exploded);
        self.tiles[i] = t;
        self.reveal_all();
        proof {
            assert(tile_at(*self, x as int, y as int) == (Tile {
                tile_state: TileState::Exploded,
                ..tile_at(g0, x as int, y as int)
            }));
        }
        match self.state {
            GameState::Playing(start) => {
                let lost_after = if now >= start {
                    now - start
                } else {
                    0
                };
                self.state = GameState::Lost(lost_after);
            },
            _ => (),
        }
    }

    /// The worklist flood fill. Takes the initial worklist of in-bounds
    /// seed coordinates; reveals exactly the cells reachable from the seeds
    /// (hidden mines among them detonate instead, ending the game).
    #[verifier::loop_isolation(false)]
    #[verifier::rlimit(100)]
    fn flood(&mut self, stack: Vec<(usize, usize)>, now: u64)
        requires
            wf(*old(self)),
            old(self).state matches GameState::Playing(_),
            forall|x: int, y: int| in_stack(stack@, x, y) ==> in_bounds(*old(self), x, y),
        ensures
            wf(*final(self)),
            !mine_reachable(*old(self), stack_seeds(stack@)) ==> flood_result(
                *old(self),
                *final(self),
                stack_seeds(stack@),
            ),
            mine_reachable(*old(self), stack_seeds(stack@)) ==> flood_lost(
                *old(self),
                *final(self),
                stack_seeds(stack@),
                now,
            ),
    {
        let ghost g0 = *old(self);
        let ghost seeds = stack_seeds(stack@);
        let ghost w = g0.width as int;
        let ghost h = g0.height as int;
        let mut work = stack;
        proof {
            assert forall|x: int, y: int| in_stack(work@, x, y) && revealable(g0, x, y) implies
                reach(g0, seeds, x, y) by {
                assert(seeds.contains((x, y)));
                lemma_reach_seed(g0, seeds, x, y);
            }
        }
        while work.len() > 0
            invariant
                wf(*self),
                self.width == g0.width,
                self.height == g0.height,
                self.mine_count == g0.mine_count,
                self.state == g0.state,
                self.tiles@.len() == g0.tiles@.len(),
                forall|x: int, y: int|
                    #[trigger] in_stack(work@, x, y) ==> in_bounds(g0, x, y) && (revealable(
                        g0,
                        x,
                        y,
                    ) ==> reach(g0, seeds, x, y)),
                forall|x: int, y: int|
                    in_bounds(g0, x, y) ==> #[trigger] tile_at(*self, x, y) == tile_at(g0, x, y)
                        || (revealable(g0, x, y) && reach(g0, seeds, x, y) && !is_mine(g0, x, y)
                        && tile_at(*self, x, y) == revealed_tile(tile_at(g0, x, y))),
                forall|c: (int, int)|
                    seeds.contains(c) && revealable(g0, c.0, c.1) ==> (#[trigger] tile_at(
                        *self,
                        c.0,
                        c.1,
                    )).tile_state != TileState::Unrevealed || in_stack(work@, c.0, c.1),
                forall|x: int, y: int, nx: int, ny: int|
                    zero_at(g0, x, y) && revealable(g0, x, y) && (#[trigger] tile_at(
                        *self,
                        x,
                        y,
                    )).tile_state == TileState::Revealed && adjacent(x, y, nx, ny) && in_bounds(
                        g0,
                        nx,
                        ny,
                    ) ==> (#[trigger] tile_at(*self, nx, ny)).tile_state != TileState::Unrevealed
                        || in_stack(work@, nx, ny),
            decreases count_matching(self.tiles@, unrevealed_pred()), work@.len(),
        {
            let ghost entry = *self;
            let ghost prev_work = work@;
            let c = work.pop().unwrap();
            let (cx, cy) = c;
            proof {
                assert(work@ =~= prev_work.drop_last());
                assert(prev_work[prev_work.len() - 1] == c);
                assert(in_stack(prev_work, cx as int, cy as int));
                assert(in_bounds(g0, cx as int, cy as int));
                assert forall|x: int, y: int| #[trigger] in_stack(work@, x, y) implies in_stack(
                    prev_work,
                    x,
                    y,
                ) by {
                    lemma_pop_subset(prev_work, x, y);
                }
            }
            let i = self.index_of(cx, cy);
            let t = self.tiles[i];
            proof {
                lemma_tile_coords(*self, cx as int, cy as int);
                assert(t == tile_at(*self, cx as int, cy as int));
            }
            if t.is_hidden() {
                // Still hidden now, hence hidden when the flood began, so
                // this cell is genuinely reachable.
                proof {
                    assert(tile_at(*self, cx as int, cy as int) == tile_at(
                        g0,
                        cx as int,
                        cy as int,
                    ));
                    assert(revealable(g0, cx as int, cy as int));
                    assert(reach(g0, seeds, cx as int, cy as int));
                }
                if t.is_bomb() {
                    let ghost mid = *self;
                    self.detonate(cx, cy, now);
                    proof {
                        lemma_flood_detonation(
                            g0,
                            mid,
                            *self,
                            seeds,
                            cx as int,
                            cy as int,
                            now,
                        );
                    }
                    return ;
                }
                let mut shown = t;
                shown.set_state(TileState::Revealed);
                proof {
                    lemma_count_update(self.tiles@, unrevealed_pred(), i as int, shown);
                    crate::board::lemma_count_bounds(self.tiles@, unrevealed_pred());
                }
                self.tiles[i] = shown;
                proof {
                    // Only the popped cell changed, and it is now shown.
                    assert forall|x: int, y: int|
                        in_bounds(g0, x, y) && !(x == cx as int && y == cy as int) implies
                        #[trigger] tile_at(*self, x, y) == tile_at(entry, x, y) by {
                        crate::board::lemma_coord_index(w, h, x, y);
                        if row_major(w, x, y) == i as int {
                            crate::board::lemma_row_major_injective(
                                w,
                                h,
                                x,
                                y,
                                cx as int,
                                cy as int,
                            );
                        }
                    }
                    assert(tile_at(*self, cx as int, cy as int) == revealed_tile(
                        tile_at(g0, cx as int, cy as int),
                    ));
                }
                if t.is_empty() {
                    // A zero tile: spread to every in-bounds neighbor.
                    proof {
                        assert(zero_at(g0, cx as int, cy as int));
                    }
                    let width = self.width;
                    let height = self.height;
                    let ghost before_push = work@;
                    push_neighbors(&mut work, cx, cy, width, height);
                    proof {
                        assert forall|x: int, y: int| #[trigger] in_stack(work@, x, y) implies
                            in_bounds(g0, x, y) && (revealable(g0, x, y) ==> reach(
                            g0,
                            seeds,
                            x,
                            y,
                        )) by {
                            if !in_stack(before_push, x, y) {
                                assert(adjacent(cx as int, cy as int, x, y) && in_bounds(g0, x, y));
                                if revealable(g0, x, y) {
                                    lemma_reach_step(g0, seeds, cx as int, cy as int, x, y);
                                }
                            }
                        }
                    }
                } else {
                    proof {
                        // A numbered tile: no spreading, and the popped cell
                        // is no zero cell, so the closure invariant gains no
                        // new obligation.
                        assert(!zero_at(g0, cx as int, cy as int));
                    }
                }
            } else {
                // Already handled: anything in the worklist pointing at this
                // cell is satisfied by its shown state.
                proof {
                    assert(tile_at(*self, cx as int, cy as int).tile_state
                        != TileState::Unrevealed);
                    assert forall|x: int, y: int| in_bounds(g0, x, y) implies #[trigger] tile_at(
                        *self,
                        x,
                        y,
                    ) == tile_at(entry, x, y) by {}
                }
            }
            proof {
                // Restore the two closure invariants: every worklist escape
                // either survived the pop (possibly via the pushes) or
                // pointed at the popped cell, which is handled now.
                assert forall|x: int, y: int|
                    in_stack(prev_work, x, y) implies in_stack(work@, x, y) || (x == cx as int && y
                    == cy as int) by {
                    lemma_pop_cases(prev_work, x, y);
                }
                assert(tile_at(*self, cx as int, cy as int).tile_state != TileState::Unrevealed);
                assert forall|x: int, y: int|
                    in_bounds(g0, x, y) && (#[trigger] tile_at(entry, x, y)).tile_state
                        != TileState::Unrevealed implies tile_at(*self, x, y).tile_state
                    != TileState::Unrevealed by {
                    assert(tile_at(*self, x, y) == tile_at(entry, x, y) || tile_at(*self, x, y)
                        == revealed_tile(tile_at(g0, x, y)));
                }
                crate::board::lemma_count_bounds(self.tiles@, unrevealed_pred());
            }
        }
        // The worklist drained without touching a mine: every reachable cell
        // is revealed, and reachable mines cannot exist.
        proof {
            lemma_flood_exit(g0, *self, seeds);
        }
    }

    /// Reveals the tile at in-bounds cell `(x, y)`: a no-op unless the game
    /// is running and the tile is still hidden; a hidden mine detonates and
    /// ends the game; a hidden zero tile floods its whole region and the
    /// numbered border; any other hidden tile is simply shown.
    pub fn reveal_tile(&mut self, x: usize, y: usize, now: u64)
        requires
            wf(*old(self)),
            in_bounds(*old(self), x as int, y as int),
        ensures
            wf(*final(self)),
            reveal_rel(*old(self), *final(self), x as int, y as int, now),
    {
        match self.state {
            GameState::Playing(_) => (),
            _ => {
                return ;
            },
        }
        let i = self.index_of(x, y);
        let t = self.tiles[i];
        if !t.is_hidden() {
            return ;
        }
        if t.is_bomb() {
            self.detonate(x, y, now);
            return ;
        }
        let mut stack: Vec<(usize, usize)> = Vec::new();
        stack.push((x, y));
        proof {
            assert(stack@[0] == (x, y));
            assert forall|a: int, b: int| in_stack(stack@, a, b) implies a == x as int && b == y
                as int by {
                let k = choose|k: int|
                    0 <= k < stack@.len() && (#[trigger] stack@[k]).0 as int == a && stack@[k].1
                        as int == b;
            }
            assert(in_stack(stack@, x as int, y as int));
            assert(stack_seeds(stack@) =~= single_seed(x as int, y as int));
        }
        self.flood(stack, now);
    }

    /// Whether the (possibly out-of-bounds) cell is currently flagged.
    pub(crate) fn flag_at(&self, x: usize, y: usize) -> (b: bool)
        requires
            wf(*self),
        ensures
            b == is_flagged_at(*self, x as int, y as int),
    {
        if x < self.width && y < self.height {
            let i = self.index_of(x, y);
            self.tiles[i].is_flagged()
        } else {
            false
        }
    }

    /// Counts the flags among the up-to-8 neighbors of an in-bounds cell.
    pub(crate) fn count_adjacent_flags(&self, x: usize, y: usize) -> (n: u8)
        requires
            wf(*self),
            in_bounds(*self, x as int, y as int),
        ensures
            n as int == adjacent_flags(*self, x as int, y as int),
            n <= 8,
    {
        let g = self;
        let a: u8 = if y >= 1 && x >= 1 && g.flag_at(x - 1, y - 1) {
            1
        } else {
            0
        };
        assert(a as int == flag_ind(*g, x as int - 1, y as int - 1));
        let b: u8 = if y >= 1 && g.flag_at(x, y - 1) {
            1
        } else {
            0
        };
        assert(b as int == flag_ind(*g, x as int, y as int - 1));
        let c: u8 = if y >= 1 && g.flag_at(x + 1, y - 1) {
            1
        } else {
            0
        };
        assert(c as int == flag_ind(*g, x as int + 1, y as int - 1));
        let d: u8 = if x >= 1 && g.flag_at(x - 1, y) {
            1
        } else {
            0
        };
        assert(d as int == flag_ind(*g, x as int - 1, y as int));
        let e: u8 = if g.flag_at(x + 1, y) {
            1
        } else {
            0
        };
        let f: u8 = if x >= 1 && g.flag_at(x - 1, y + 1) {
            1
        } else {
            0
        };
        assert(f as int == flag_ind(*g, x as int - 1, y as int + 1));
        let h: u8 = if g.flag_at(x, y + 1) {
            1
        } else {
            0
        };
        let k: u8 = if g.flag_at(x + 1, y + 1) {
            1
        } else {
            0
        };
        a + b + c + d + e + f + h + k
    }

    /// Collects the chord seeds around `(cx, cy)`: every in-bounds neighbor
    /// that is not flagged.
    fn gather_chord_seeds(&self, cx: usize, cy: usize) -> (work: Vec<(usize, usize)>)
        requires
            wf(*self),
            in_bounds(*self, cx as int, cy as int),
        ensures
            forall|x: int, y: int|
                #[trigger] in_stack(work@, x, y) <==> (adjacent(cx as int, cy as int, x, y)
                    && in_bounds(*self, x, y) && tile_at(*self, x, y).tile_state
                    != TileState::Flagged),
    {
        let mut work: Vec<(usize, usize)> = Vec::new();
        proof {
            assert forall|x: int, y: int| !in_stack(work@, x, y) by {}
        }
        if cx >= 1 && cy >= 1 && !self.flag_at(cx - 1, cy - 1) {
            push_one(&mut work, (cx - 1, cy - 1));
        }
        if cy >= 1 && !self.flag_at(cx, cy - 1) {
            push_one(&mut work, (cx, cy - 1));
        }
        if cx + 1 < self.width && cy >= 1 && !self.flag_at(cx + 1, cy - 1) {
            push_one(&mut work, (cx + 1, cy - 1));
        }
        if cx >= 1 && !self.flag_at(cx - 1, cy) {
            push_one(&mut work, (cx - 1, cy));
        }
        if cx + 1 < self.width && !self.flag_at(cx + 1, cy) {
            push_one(&mut work, (cx + 1, cy));
        }
        if cx >= 1 && cy + 1 < self.height && !self.flag_at(cx - 1, cy + 1) {
            push_one(&mut work, (cx - 1, cy + 1));
        }
        if cy + 1 < self.height && !self.flag_at(cx, cy + 1) {
            push_one(&mut work, (cx, cy + 1));
        }
        if cx + 1 < self.width && cy + 1 < self.height && !self.flag_at(cx + 1, cy + 1) {
            push_one(&mut work, (cx + 1, cy + 1));
        }
        proof {
            assert forall|x: int, y: int|
                adjacent(cx as int, cy as int, x, y) && in_bounds(*self, x, y) && tile_at(
                    *self,
                    x,
                    y,
                ).tile_state != TileState::Flagged implies in_stack(work@, x, y) by {
                assert(x == cx as int - 1 || x == cx as int || x == cx as int + 1);
                assert(y == cy as int - 1 || y == cy as int || y == cy as int + 1);
            }
        }
        work
    }

    /// The chord: if `(x, y)` shows a positive number and exactly that many
    /// of its neighbors are flagged, reveals every unflagged neighbor (with
    /// the usual flood and detonation rules); otherwise nothing happens.
    pub fn revealed_clicked(&mut self, x: usize, y: usize, now: u64)
        requires
            wf(*old(self)),
            in_bounds(*old(self), x as int, y as int),
        ensures
            wf(*final(self)),
            chord_rel(*old(self), *final(self), x as int, y as int, now),
    {
        match self.state {
            GameState::Playing(_) => (),
            _ => {
                return ;
            },
        }
        let i = self.index_of(x, y);
        let t = self.tiles[i];
        if !t.is_revealed() {
            return ;
        }
        let bombs = match t.get_value() {
            TileValue::Empty(n) => n,
            TileValue::Bomb => {
                return ;
            },
        };
        if bombs == 0 {
            return ;
        }
        let flags = self.count_adjacent_flags(x, y);
        if flags != bombs {
            return ;
        }
        let work = self.gather_chord_seeds(x, y);
        proof {
            assert forall|c: (int, int)|
                stack_seeds(work@).contains(c) == chord_seeds(
                    *self,
                    x as int,
                    y as int,
                ).contains(c) by {
                if in_stack(work@, c.0, c.1) {
                    let k = choose|k: int|
                        0 <= k < work@.len() && (#[trigger] work@[k]).0 as int == c.0
                            && work@[k].1 as int == c.1;
                    assert(stack_seeds(work@).contains(c));
                }
                if stack_seeds(work@).contains(c) {
                    let k = choose|k: int|
                        0 <= k < work@.len() && (#[trigger] work@[k]).0 as int == c.0
                            && work@[k].1 as int == c.1;
                    assert(in_stack(work@, c.0, c.1));
                }
            }
            assert(stack_seeds(work@) =~= chord_seeds(*self, x as int, y as int));
            assert(chord_applies(*self, x as int, y as int));
        }
        self.flood(work, now);
    }
}

// ---------------------------------------------------------------------------
// The reveal and chord relations
// ---------------------------------------------------------------------------

/// What one reveal at `(x, y)` does, for every input state: nothing unless
/// the game is running and the tile is hidden; a hidden mine explodes and
/// the game is lost; otherwise exactly the reachable region is shown (a
/// wrongly flagged board can still let the flood reach a mine, which then
/// explodes mid-flood).
pub open spec fn reveal_rel(pre: Game, post: Game, x: int, y: int, now: u64) -> bool {
    if !(pre.state matches GameState::Playing(_)) || !revealable(pre, x, y) {
        post == pre
    } else if is_mine(pre, x, y) {
        detonated_from(pre, post, x, y, now)
    } else {
        &&& (!mine_reachable(pre, single_seed(x, y)) ==> flood_result(
            pre,
            post,
            single_seed(x, y),
        ))
        &&& (mine_reachable(pre, single_seed(x, y)) ==> flood_lost(
            pre,
            post,
            single_seed(x, y),
            now,
        ))
    }
}

/// The number a tile shows, or -1 for a mine.
pub open spec fn number_of(t: Tile) -> int {
    match t.tile_value {
        TileValue::Bomb => -1,
        TileValue::Empty(n) => n as int,
    }
}

/// The seed set of a chord at `(x, y)`: every in-bounds neighbor that is
/// not flagged.
pub open spec fn chord_seeds(g: Game, x: int, y: int) -> Set<(int, int)> {
    Set::new(
        |c: (int, int)|
            adjacent(x, y, c.0, c.1) && in_bounds(g, c.0, c.1) && tile_at(
                g,
                c.0,
                c.1,
            ).tile_state != TileState::Flagged,
    )
}

/// Whether a chord at `(x, y)` fires: the game is running, the tile shows a
/// positive number, and exactly that many of its neighbors are flagged.
pub open spec fn chord_applies(g: Game, x: int, y: int) -> bool {
    &&& g.state matches GameState::Playing(_)
    &&& tile_at(g, x, y).tile_state == TileState::Revealed
    &&& number_of(tile_at(g, x, y)) >= 1
    &&& adjacent_flags(g, x, y) == number_of(tile_at(g, x, y))
}

/// On a correctly numbered board, revealing a hidden non-mine tile never
/// detonates: the outcome is exactly the flood result, so precisely the
/// connected zero region (with its numbered border) around the clicked
/// tile is revealed and nothing else changes.
pub proof fn lemma_safe_reveal_is_exact(pre: Game, post: Game, x: int, y: int, now: u64)
    requires
        wf(pre),
        crate::game::numbers_ok(pre),
        pre.state matches GameState::Playing(_),
        revealable(pre, x, y),
        !is_mine(pre, x, y),
        reveal_rel(pre, post, x, y, now),
    ensures
        flood_result(pre, post, single_seed(x, y)),
{
    if mine_reachable(pre, single_seed(x, y)) {
        let (mx, my) = choose|mx: int, my: int|
            #[trigger] reach(pre, single_seed(x, y), mx, my) && is_mine(pre, mx, my);
        lemma_no_mine_reachable(pre, x, y, mx, my);
    }
}

/// Revealing a hidden mine during play loses the game and finalizes the
/// board: exactly the clicked tile is exploded, every other unflagged mine
/// is shown, and every flag sitting on a non-mine is marked wrong.
#[verifier::rlimit(100)]
pub proof fn lemma_mine_reveal_loses(pre: Game, post: Game, x: int, y: int, now: u64)
    requires
        wf(pre),
        crate::game::state_inv(pre),
        pre.state matches GameState::Playing(_),
        revealable(pre, x, y),
        is_mine(pre, x, y),
        reveal_rel(pre, post, x, y, now),
    ensures
        post.state matches GameState::Lost(_),
        tile_at(post, x, y).tile_state == TileState::Exploded,
        forall|a: int, b: int|
            in_bounds(pre, a, b) && !(a == x && b == y) ==> (#[trigger] tile_at(
                post,
                a,
                b,
            )).tile_state != TileState::Exploded,
        forall|a: int, b: int|
            is_mine(pre, a, b) && !(a == x && b == y) && tile_at(pre, a, b).tile_state
                != TileState::Flagged ==> (#[trigger] tile_at(post, a, b)).tile_state
                == TileState::Revealed,
        forall|a: int, b: int|
            is_mine(pre, a, b) && !(a == x && b == y) && tile_at(pre, a, b).tile_state
                == TileState::Flagged ==> (#[trigger] tile_at(post, a, b)).tile_state
                == TileState::Flagged,
        forall|a: int, b: int|
            in_bounds(pre, a, b) && !is_mine(pre, a, b) && tile_at(pre, a, b).tile_state
                == TileState::Flagged ==> (#[trigger] tile_at(post, a, b)).tile_state
                == TileState::WrongFlag,
{
    let w = pre.width as int;
    let h = pre.height as int;
    assert(detonated_from(pre, post, x, y, now));
    crate::board::lemma_coord_index(w, h, x, y);
    assert forall|a: int, b: int|
        in_bounds(pre, a, b) && !(a == x && b == y) implies #[trigger] tile_at(post, a, b)
        == swept_tile(tile_at(pre, a, b)) && tile_at(pre, a, b).tile_state
        != TileState::Exploded by {
        crate::board::lemma_coord_index(w, h, a, b);
        if row_major(w, a, b) == row_major(w, x, y) {
            crate::board::lemma_row_major_injective(w, h, a, b, x, y);
        }
        // During play no tile is exploded, so the sweep creates none and
        // only the clicked mine ends exploded.
        assert(tile_at(pre, a, b) == pre.tiles@[row_major(w, a, b)]);
    }
}

/// A chord that fires without a mine among its seeds reveals every hidden
/// unflagged neighbor of the chorded tile.
pub proof fn lemma_chord_reveals_neighbors(
    pre: Game,
    post: Game,
    x: int,
    y: int,
    nx: int,
    ny: int,
    now: u64,
)
    requires
        wf(pre),
        chord_applies(pre, x, y),
        chord_rel(pre, post, x, y, now),
        !mine_reachable(pre, chord_seeds(pre, x, y)),
        adjacent(x, y, nx, ny),
        in_bounds(pre, nx, ny),
        tile_at(pre, nx, ny).tile_state == TileState::Unrevealed,
    ensures
        tile_at(post, nx, ny).tile_state == TileState::Revealed,
{
    assert(chord_seeds(pre, x, y).contains((nx, ny)));
    lemma_reach_seed(pre, chord_seeds(pre, x, y), nx, ny);
}

/// What one chord at `(x, y)` does: nothing unless it fires; otherwise a
/// flood reveal seeded at every unflagged neighbor, with the usual
/// detonation rule if one of those neighbors hides a mine.
pub open spec fn chord_rel(pre: Game, post: Game, x: int, y: int, now: u64) -> bool {
    if !chord_applies(pre, x, y) {
        post == pre
    } else {
        &&& (!mine_reachable(pre, chord_seeds(pre, x, y)) ==> flood_result(
            pre,
            post,
            chord_seeds(pre, x, y),
        ))
        &&& (mine_reachable(pre, chord_seeds(pre, x, y)) ==> flood_lost(
            pre,
            post,
            chord_seeds(pre, x, y),
            now,
        ))
    }
}

} // verus!
