//! Deferred mine placement and adjacency numbering.
//!
//! Mines are placed on the first click, by rejection-sampling random cells
//! and refusing cells inside the exclusion zone around the click (so the
//! first reveal can never be an instant loss) or cells that already hold a
//! mine. Sampling retries are bounded; if the random stream is persistently
//! unlucky a deterministic scan places the remaining mines, so placement
//! terminates whenever the mine budget fits outside the exclusion zone.

use vstd::prelude::*;

use crate::board::{
    count_matching, count_mines, count_zone, free_pred, in_zone, lemma_count_complement,
    lemma_count_split, lemma_count_update, lemma_count_zero, lemma_index_coord, mine_pred,
    nonzone_pred, row_major, zone_pred,
};
use crate::game::{
    adjacent_mines, in_bounds, is_mine, lemma_tile_coords, mine_ind, numbers_ok, tile_at, wf, Game,
};
use crate::tile::{Tile, TileState, TileValue};

verus! {

/// How many random samples to try for one mine before falling back to a
/// deterministic scan for a free cell.
pub const MINE_SAMPLE_TRIES: usize = 10000;

/// Relies on `rand::random`: draws a value of the standard distribution.
/// Nothing is promised of the result; callers must cope with every value.
pub assume_specification<T>[ rand::random::<T> ]() -> (r: T)
    where
        rand::distributions::Standard: rand::distributions::Distribution<T>,
;

/// A uniformly sampled in-bounds coordinate pair. Only the bounds are
/// specified; the value is random.
pub fn random_coords(width: usize, height: usize) -> (r: (usize, usize))
    requires
        1 <= width,
        1 <= height,
    ensures
        r.0 < width,
        r.1 < height,
{
    let x = rand::random::<usize>() % width;
    let y = rand::random::<usize>() % height;
    (x, y)
}

/// Pointwise equal mine layouts give equal neighbor counts everywhere.
pub proof fn lemma_same_mines_adjacent(a: Game, b: Game, x: int, y: int)
    requires
        b.width == a.width,
        b.height == a.height,
        a.tiles@.len() == a.width * a.height,
        b.tiles@.len() == a.tiles@.len(),
        1 <= a.width,
        1 <= a.height,
        forall|i: int|
            0 <= i < a.tiles@.len() ==> ((#[trigger] b.tiles@[i]).tile_value == TileValue::Bomb)
                == (a.tiles@[i].tile_value == TileValue::Bomb),
    ensures
        adjacent_mines(b, x, y) == adjacent_mines(a, x, y),
{
    assert forall|u: int, v: int| #[trigger] mine_ind(b, u, v) == mine_ind(a, u, v) by {
        if in_bounds(a, u, v) {
            crate::board::lemma_coord_index(a.width as int, a.height as int, u, v);
        }
    }
}

impl Game {
    /// Whether the (possibly out-of-bounds) cell holds a mine.
    pub(crate) fn mine_at(&self, x: usize, y: usize) -> (b: bool)
        requires
            wf(*self),
        ensures
            b == is_mine(*self, x as int, y as int),
    {
        if x < self.width && y < self.height {
            let i = self.index_of(x, y);
            self.tiles[i].is_bomb()
        } else {
            false
        }
    }

    /// Counts the mines among the up-to-8 neighbors of an in-bounds cell.
    pub(crate) fn count_adjacent_mines(&self, x: usize, y: usize) -> (n: u8)
        requires
            wf(*self),
            in_bounds(*self, x as int, y as int),
        ensures
            n as int == adjacent_mines(*self, x as int, y as int),
            n <= 8,
    {
        let g = self;
        let a: u8 = if y >= 1 && x >= 1 && g.mine_at(x - 1, y - 1) {
            1
        } else {
            0
        };
        assert(a as int == mine_ind(*g, x as int - 1, y as int - 1));
        let b: u8 = if y >= 1 && g.mine_at(x, y - 1) {
            1
        } else {
            0
        };
        assert(b as int == mine_ind(*g, x as int, y as int - 1));
        let c: u8 = if y >= 1 && g.mine_at(x + 1, y - 1) {
            1
        } else {
            0
        };
        assert(c as int == mine_ind(*g, x as int + 1, y as int - 1));
        let d: u8 = if x >= 1 && g.mine_at(x - 1, y) {
            1
        } else {
            0
        };
        assert(d as int == mine_ind(*g, x as int - 1, y as int));
        let e: u8 = if g.mine_at(x + 1, y) {
            1
        } else {
            0
        };
        let f: u8 = if x >= 1 && g.mine_at(x - 1, y + 1) {
            1
        } else {
            0
        };
        assert(f as int == mine_ind(*g, x as int - 1, y as int + 1));
        let h: u8 = if g.mine_at(x, y + 1) {
            1
        } else {
            0
        };
        let k: u8 = if g.mine_at(x + 1, y + 1) {
            1
        } else {
            0
        };
        a + b + c + d + e + f + h + k
    }

    /// Whether the mine budget fits outside the exclusion zone around
    /// `(x, y)`, i.e. whether a first click there may start mine placement.
    /// This decides the design precondition of `place_mines`, `init`, and
    /// `left_click`, so callers can check it instead of proving it.
    pub fn can_place_at(&self, x: usize, y: usize) -> (r: bool)
        ensures
            r == (self.mine_count + count_zone(self.tiles@, x as int, y as int)
                <= self.tiles@.len()),
    {
        let mut zone: usize = 0;
        let mut i: usize = 0;
        while i < self.tiles.len()
            invariant
                i <= self.tiles@.len(),
                zone == count_matching(
                    self.tiles@.take(i as int),
                    zone_pred(x as int, y as int),
                ),
                zone <= i,
            decreases self.tiles@.len() - i,
        {
            proof {
                assert(self.tiles@.take(i + 1).drop_last() =~= self.tiles@.take(i as int));
                assert(self.tiles@.take(i + 1).last() == self.tiles@[i as int]);
            }
            let t = self.tiles[i];
            let tx = t.x;
            let ty = t.y;
            let near_x = if tx >= x {
                tx - x <= 1
            } else {
                x - tx <= 1
            };
            let near_y = if ty >= y {
                ty - y <= 1
            } else {
                y - ty <= 1
            };
            if near_x && near_y {
                zone = zone + 1;
            }
            i = i + 1;
        }
        proof {
            assert(self.tiles@.take(self.tiles@.len() as int) =~= self.tiles@);
        }
        self.mine_count <= self.tiles.len() - zone && zone <= self.tiles.len()
    }

    /// Finds an in-bounds cell outside the exclusion zone that holds no
    /// mine, by random sampling with a deterministic scan as fallback. The
    /// precondition guarantees such a cell exists.
    fn find_free_cell(&self, start_x: usize, start_y: usize) -> (r: (usize, usize))
        requires
            wf(*self),
            in_bounds(*self, start_x as int, start_y as int),
            count_matching(self.tiles@, free_pred(start_x as int, start_y as int)) > 0,
        ensures
            in_bounds(*self, r.0 as int, r.1 as int),
            !in_zone(start_x as int, start_y as int, r.0 as int, r.1 as int),
            !is_mine(*self, r.0 as int, r.1 as int),
    {
        let mut tries: usize = 0;
        while tries < MINE_SAMPLE_TRIES
            invariant
                wf(*self),
                in_bounds(*self, start_x as int, start_y as int),
            decreases MINE_SAMPLE_TRIES - tries,
        {
            let (x, y) = random_coords(self.width, self.height);
            let hit_zone = x + 1 >= start_x && x <= start_x + 1 && y + 1 >= start_y && y
                <= start_y + 1;
            assert(hit_zone == in_zone(start_x as int, start_y as int, x as int, y as int));
            if !hit_zone {
                let i = self.index_of(x, y);
                if !self.tiles[i].is_bomb() {
                    return (x, y);
                }
            }
            tries = tries + 1;
        }
        // The random stream gave nothing usable: scan for the free cell that
        // the precondition promises.
        let mut i: usize = 0;
        while i < self.tiles.len()
            invariant
                wf(*self),
                in_bounds(*self, start_x as int, start_y as int),
                count_matching(self.tiles@, free_pred(start_x as int, start_y as int)) > 0,
                i <= self.tiles@.len(),
                forall|j: int|
                    0 <= j < i ==> !free_pred(start_x as int, start_y as int)(
                        #[trigger] self.tiles@[j],
                    ),
            decreases self.tiles@.len() - i,
        {
            let t = self.tiles[i];
            let tx = t.x;
            let ty = t.y;
            let hit_zone = tx + 1 >= start_x && tx <= start_x + 1 && ty + 1 >= start_y && ty
                <= start_y + 1;
            if !hit_zone && !t.is_bomb() {
                proof {
                    lemma_index_coord(self.width as int, self.height as int, i as int);
                    lemma_tile_coords(*self, tx as int, ty as int);
                }
                return (tx, ty);
            }
            i = i + 1;
        }
        proof {
            lemma_count_zero(self.tiles@, free_pred(start_x as int, start_y as int));
        }
        vstd::pervasive::unreached()
    }

    /// Places exactly `mine_count` mines on a mine-free board, all outside
    /// the exclusion zone around the seed cell; nothing else about any tile
    /// changes. The precondition that the budget fits outside the zone is
    /// the design precondition that makes placement terminate.
    pub fn place_mines(&mut self, start_x: usize, start_y: usize)
        requires
            wf(*old(self)),
            in_bounds(*old(self), start_x as int, start_y as int),
            count_mines(old(self).tiles@) == 0,
            old(self).mine_count + count_zone(old(self).tiles@, start_x as int, start_y as int)
                <= old(self).tiles@.len(),
        ensures
            wf(*final(self)),
            final(self).width == old(self).width,
            final(self).height == old(self).height,
            final(self).mine_count == old(self).mine_count,
            final(self).state == old(self).state,
            final(self).tiles@.len() == old(self).tiles@.len(),
            count_mines(final(self).tiles@) == old(self).mine_count,
            forall|i: int|
                0 <= i < old(self).tiles@.len() ==> #[trigger] final(self).tiles@[i]
                    == old(self).tiles@[i] || final(self).tiles@[i] == (Tile {
                    tile_value: TileValue::Bomb,
                    ..old(self).tiles@[i]
                }),
            forall|i: int|
                0 <= i < old(self).tiles@.len() && in_zone(
                    start_x as int,
                    start_y as int,
                    old(self).tiles@[i].x as int,
                    old(self).tiles@[i].y as int,
                ) ==> #[trigger] final(self).tiles@[i] == old(self).tiles@[i],
            forall|x: int, y: int|
                in_bounds(*final(self), x, y) && in_zone(start_x as int, start_y as int, x, y)
                    ==> !is_mine(*final(self), x, y),
    {
        let ghost g0 = *old(self);
        let mut mines: usize = 0;
        while mines < self.mine_count
            invariant
                wf(*self),
                self.width == g0.width,
                self.height == g0.height,
                self.mine_count == g0.mine_count,
                self.state == g0.state,
                self.tiles@.len() == g0.tiles@.len(),
                in_bounds(g0, start_x as int, start_y as int),
                g0.mine_count + count_zone(g0.tiles@, start_x as int, start_y as int)
                    <= g0.tiles@.len(),
                mines <= g0.mine_count,
                count_mines(self.tiles@) == mines,
                forall|i: int|
                    0 <= i < g0.tiles@.len() ==> #[trigger] self.tiles@[i] == g0.tiles@[i]
                        || self.tiles@[i] == (Tile {
                        tile_value: TileValue::Bomb,
                        ..g0.tiles@[i]
                    }),
                forall|i: int|
                    0 <= i < g0.tiles@.len() && in_zone(
                        start_x as int,
                        start_y as int,
                        g0.tiles@[i].x as int,
                        g0.tiles@[i].y as int,
                    ) ==> #[trigger] self.tiles@[i] == g0.tiles@[i],
            decreases self.mine_count - mines,
        {
            proof {
                // A free cell exists: outside the zone there are at least
                // `mine_count` cells, and only `mines` of them hold mines.
                let zp = zone_pred(start_x as int, start_y as int);
                let nzp = nonzone_pred(start_x as int, start_y as int);
                let fp = free_pred(start_x as int, start_y as int);
                let mp = mine_pred();
                lemma_count_complement(self.tiles@, zp, nzp);
                lemma_count_split(self.tiles@, nzp, fp, mp);
                crate::board::lemma_count_congruence(self.tiles@, g0.tiles@, zp);
            }
            let (x, y) = self.find_free_cell(start_x, start_y);
            let i = self.index_of(x, y);
            proof {
                lemma_tile_coords(*self, x as int, y as int);
                lemma_count_update(
                    self.tiles@,
                    mine_pred(),
                    i as int,
                    (Tile { tile_value: TileValue::Bomb, ..self.tiles@[i as int] }),
                );
            }
            let mut t = self.tiles[i];
            t.set_value(TileValue::Bomb);
            self.tiles[i] = t;
            mines = mines + 1;
        }
        proof {
            // The zone stayed untouched, and the board started mine-free,
            // so the zone ends mine-free.
            crate::board::lemma_count_zero(g0.tiles@, mine_pred());
            assert forall|x: int, y: int|
                in_bounds(*self, x, y) && in_zone(start_x as int, start_y as int, x, y) implies
                !is_mine(*self, x, y) by {
                lemma_tile_coords(g0, x, y);
                let i = crate::board::row_major(g0.width as int, x, y);
                assert(self.tiles@[i] == g0.tiles@[i]);
            }
        }
    }

    /// Gives every non-mine tile the exact count of mines among its
    /// neighbors. Runs after placement and before any reveal; mine tiles,
    /// tile states, and coordinates are untouched.
    pub fn place_numbers(&mut self)
        requires
            wf(*old(self)),
        ensures
            wf(*final(self)),
            final(self).width == old(self).width,
            final(self).height == old(self).height,
            final(self).mine_count == old(self).mine_count,
            final(self).state == old(self).state,
            final(self).tiles@.len() == old(self).tiles@.len(),
            forall|i: int|
                0 <= i < old(self).tiles@.len() ==> (#[trigger] final(self).tiles@[i]).x
                    == old(self).tiles@[i].x && final(self).tiles@[i].y == old(self).tiles@[i].y
                    && final(self).tiles@[i].tile_state == old(self).tiles@[i].tile_state,
            forall|i: int|
                0 <= i < old(self).tiles@.len() ==> ((#[trigger] final(self).tiles@[i]).tile_value
                    == TileValue::Bomb) == (old(self).tiles@[i].tile_value == TileValue::Bomb),
            forall|i: int|
                0 <= i < old(self).tiles@.len() && old(self).tiles@[i].tile_value
                    == TileValue::Bomb ==> #[trigger] final(self).tiles@[i] == old(self).tiles@[i],
            numbers_ok(*final(self)),
    {
        let ghost g0 = *old(self);
        let mut i: usize = 0;
        while i < self.tiles.len()
            invariant
                wf(*self),
                self.width == g0.width,
                self.height == g0.height,
                self.mine_count == g0.mine_count,
                self.state == g0.state,
                self.tiles@.len() == g0.tiles@.len(),
                i <= self.tiles@.len(),
                forall|j: int|
                    0 <= j < g0.tiles@.len() ==> (#[trigger] self.tiles@[j]).x == g0.tiles@[j].x
                        && self.tiles@[j].y == g0.tiles@[j].y && self.tiles@[j].tile_state
                        == g0.tiles@[j].tile_state,
                forall|j: int|
                    0 <= j < g0.tiles@.len() ==> ((#[trigger] self.tiles@[j]).tile_value
                        == TileValue::Bomb) == (g0.tiles@[j].tile_value == TileValue::Bomb),
                forall|j: int|
                    0 <= j < g0.tiles@.len() && g0.tiles@[j].tile_value == TileValue::Bomb
                        ==> #[trigger] self.tiles@[j] == g0.tiles@[j],
                forall|j: int|
                    0 <= j < i && g0.tiles@[j].tile_value != TileValue::Bomb
                        ==> (#[trigger] self.tiles@[j]).tile_value == TileValue::Empty(
                        adjacent_mines(g0, self.tiles@[j].x as int, self.tiles@[j].y as int) as u8,
                    ),
            decreases self.tiles@.len() - i,
        {
            let t = self.tiles[i];
            if !t.is_bomb() {
                let x = t.x;
                let y = t.y;
                proof {
                    lemma_index_coord(self.width as int, self.height as int, i as int);
                }
                let n = self.count_adjacent_mines(x, y);
                proof {
                    lemma_same_mines_adjacent(g0, *self, x as int, y as int);
                }
                self.tiles[i] = Tile { tile_value: TileValue::Empty(n), ..t };
            }
            i = i + 1;
        }
        proof {
            assert forall|x: int, y: int|
                in_bounds(*self, x, y) && !is_mine(*self, x, y) implies (#[trigger] tile_at(
                *self,
                x,
                y,
            )).tile_value == TileValue::Empty(adjacent_mines(*self, x, y) as u8) by {
                crate::board::lemma_coord_index(self.width as int, self.height as int, x, y);
                let j = row_major(self.width as int, x, y);
                lemma_same_mines_adjacent(g0, *self, x, y);
            }
        }
    }
}

} // verus!
