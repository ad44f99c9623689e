//! The game itself: the tile grid, the state machine
//! (`Start -> Playing -> Won | Lost`), and the coordinate-driven operations
//! an input layer calls.
//!
//! Time is modelled as plain data: operations that may start or stop the
//! clock take the current time in milliseconds, `Playing` stores the start
//! time, and `Won`/`Lost` store the elapsed duration.

use vstd::prelude::*;

use crate::board::{
    coords_in, count_flagged, count_matching, count_mines, count_zone, flagged_pred, in_zone,
    lemma_coord_index, lemma_count_congruence, lemma_count_zero, lemma_index_coord, mine_pred,
    row_major,
};
use crate::flood::{
    chord_rel, detonated_from, flood_lost, flood_result, mine_reachable, partial_flood,
    revealed_tile, reveal_rel, single_seed,
};
use crate::place::lemma_same_mines_adjacent;
use crate::tile::{spec_toggled, Tile, TileState, TileValue};

verus! {

/// Where the game stands. `Playing` carries the start time in milliseconds;
/// the terminal states carry the elapsed duration in milliseconds.
#[derive(Debug, PartialEq, Eq, Clone, Copy, Structural)]
pub enum GameState {
    Start,
    Playing(u64),
    Won(u64),
    Lost(u64),
}

/// A Minesweeper game: a `width` by `height` grid of tiles in row-major
/// order, the number of mines the board will hold, and the game state.
pub struct Game {
    pub state: GameState,
    pub width: usize,
    pub height: usize,
    pub mine_count: usize,
    pub tiles: Vec<Tile>,
}

// ---------------------------------------------------------------------------
// The grid model
// ---------------------------------------------------------------------------

/// Coordinate validity for this game's grid.
pub open spec fn in_bounds(g: Game, x: int, y: int) -> bool {
    coords_in(g.width as int, g.height as int, x, y)
}

/// The tile stored at in-bounds cell `(x, y)`.
pub open spec fn tile_at(g: Game, x: int, y: int) -> Tile {
    g.tiles@[row_major(g.width as int, x, y)]
}

/// Structural well-formedness: positive dimensions, a fully allocated tile
/// vector, and every tile carrying the coordinates of its own cell.
pub open spec fn wf(g: Game) -> bool {
    &&& 1 <= g.width
    &&& 1 <= g.height
    &&& g.tiles@.len() == g.width * g.height
    &&& forall|i: int|
        0 <= i < g.tiles@.len() ==> (#[trigger] g.tiles@[i]).x == i % (g.width as int)
            && g.tiles@[i].y == i / (g.width as int)
}

/// There is a mine at `(x, y)` (out-of-bounds cells hold no mine).
pub open spec fn is_mine(g: Game, x: int, y: int) -> bool {
    in_bounds(g, x, y) && tile_at(g, x, y).tile_value == TileValue::Bomb
}

/// 1 if `(x, y)` holds a mine, else 0.
pub open spec fn mine_ind(g: Game, x: int, y: int) -> int {
    if is_mine(g, x, y) {
        1
    } else {
        0
    }
}

/// How many of the up-to-8 neighbors of `(x, y)` hold a mine; neighbors
/// outside the grid are simply absent.
pub open spec fn adjacent_mines(g: Game, x: int, y: int) -> int {
    mine_ind(g, x - 1, y - 1) + mine_ind(g, x, y - 1) + mine_ind(g, x + 1, y - 1) + mine_ind(
        g,
        x - 1,
        y,
    ) + mine_ind(g, x + 1, y) + mine_ind(g, x - 1, y + 1) + mine_ind(g, x, y + 1) + mine_ind(
        g,
        x + 1,
        y + 1,
    )
}

/// The cell is in bounds and currently flagged.
pub open spec fn is_flagged_at(g: Game, x: int, y: int) -> bool {
    in_bounds(g, x, y) && tile_at(g, x, y).tile_state == TileState::Flagged
}

/// 1 if `(x, y)` is a flagged in-bounds cell, else 0.
pub open spec fn flag_ind(g: Game, x: int, y: int) -> int {
    if is_flagged_at(g, x, y) {
        1
    } else {
        0
    }
}

/// How many of the up-to-8 neighbors of `(x, y)` are flagged.
pub open spec fn adjacent_flags(g: Game, x: int, y: int) -> int {
    flag_ind(g, x - 1, y - 1) + flag_ind(g, x, y - 1) + flag_ind(g, x + 1, y - 1) + flag_ind(
        g,
        x - 1,
        y,
    ) + flag_ind(g, x + 1, y) + flag_ind(g, x - 1, y + 1) + flag_ind(g, x, y + 1) + flag_ind(
        g,
        x + 1,
        y + 1,
    )
}

/// Every non-mine tile stores exactly the count of mines among its
/// neighbors. Holds from the moment numbering runs until the grid is torn
/// down, since no later operation changes a tile's value.
pub open spec fn numbers_ok(g: Game) -> bool {
    forall|x: int, y: int|
        in_bounds(g, x, y) && !is_mine(g, x, y) ==> (#[trigger] tile_at(g, x, y)).tile_value
            == TileValue::Empty(adjacent_mines(g, x, y) as u8)
}

/// The win condition: every tile is revealed or holds a mine, i.e. every
/// non-mine tile has been revealed.
pub open spec fn spec_is_won(g: Game) -> bool {
    forall|i: int|
        0 <= i < g.tiles@.len() ==> (#[trigger] g.tiles@[i]).tile_state == TileState::Revealed
            || g.tiles@[i].tile_value == TileValue::Bomb
}

/// The state-dependent part of the game invariant.
///
/// Before the first click no mines exist and tiles are only hidden or
/// flagged; during play the board holds exactly `mine_count` mines, carries
/// correct adjacency numbers, and shows no terminal tile states. The
/// terminal game states are unconstrained: their exact boards are pinned
/// down by the postconditions of the operations that enter them.
pub open spec fn state_inv(g: Game) -> bool {
    match g.state {
        GameState::Start => forall|i: int|
            0 <= i < g.tiles@.len() ==> (#[trigger] g.tiles@[i]).tile_value == TileValue::Empty(0)
                && (g.tiles@[i].tile_state == TileState::Unrevealed || g.tiles@[i].tile_state
                == TileState::Flagged),
        GameState::Playing(_) => count_mines(g.tiles@) == g.mine_count && numbers_ok(g) && forall|
            i: int,
        |
            0 <= i < g.tiles@.len() ==> ((#[trigger] g.tiles@[i]).tile_state
                == TileState::Unrevealed || g.tiles@[i].tile_state == TileState::Flagged
                || g.tiles@[i].tile_state == TileState::Revealed),
        GameState::Won(_) => true,
        GameState::Lost(_) => true,
    }
}

/// A freshly constructed `w` by `h` game: everything hidden, no mines yet,
/// one fifth of the cells will become mines on the first click.
pub open spec fn fresh(g: Game, w: int, h: int) -> bool {
    &&& g.width == w
    &&& g.height == h
    &&& g.mine_count == w * h / 5
    &&& g.state == GameState::Start
    &&& g.tiles@.len() == w * h
    &&& forall|i: int|
        0 <= i < g.tiles@.len() ==> (#[trigger] g.tiles@[i]).tile_value == TileValue::Empty(0)
            && g.tiles@[i].tile_state == TileState::Unrevealed
}

/// Milliseconds elapsed from `start` to `now` (zero if the clock ran
/// backwards).
pub open spec fn elapsed(start: u64, now: u64) -> u64 {
    if now >= start {
        (now - start) as u64
    } else {
        0
    }
}

/// In a well-formed grid the tile at `(x, y)` carries exactly those
/// coordinates, and its row-major index is a valid tile index.
pub proof fn lemma_tile_coords(g: Game, x: int, y: int)
    requires
        wf(g),
        in_bounds(g, x, y),
    ensures
        0 <= row_major(g.width as int, x, y) < g.tiles@.len(),
        tile_at(g, x, y).x == x,
        tile_at(g, x, y).y == y,
{
    lemma_coord_index(g.width as int, g.height as int, x, y);
}

impl Game {
    /// Allocates a fresh hidden grid of `width * height` tiles with a mine
    /// budget of one fifth of the cells. Non-positive dimensions are
    /// rejected by the precondition; the grid must also fit in memory.
    pub fn new(width: usize, height: usize) -> (g: Game)
        requires
            1 <= width,
            1 <= height,
            width * height <= usize::MAX,
        ensures
            wf(g),
            state_inv(g),
            fresh(g, width as int, height as int),
    {
        let mut tiles: Vec<Tile> = Vec::new();
        let mut y: usize = 0;
        while y < height
            invariant
                y <= height,
                1 <= width,
                1 <= height,
                width * height <= usize::MAX,
                tiles@.len() == y * width,
                forall|i: int|
                    0 <= i < tiles@.len() ==> (#[trigger] tiles@[i]).x as int == i % (
                    width as int) && tiles@[i].y as int == i / (width as int)
                        && tiles@[i].tile_value == TileValue::Empty(0) && tiles@[i].tile_state
                        == TileState::Unrevealed,
            decreases height - y,
        {
            let mut x: usize = 0;
            while x < width
                invariant
                    x <= width,
                    y < height,
                    1 <= width,
                    1 <= height,
                    width * height <= usize::MAX,
                    tiles@.len() == y * width + x,
                    forall|i: int|
                        0 <= i < tiles@.len() ==> (#[trigger] tiles@[i]).x as int == i % (
                        width as int) && tiles@[i].y as int == i / (width as int)
                            && tiles@[i].tile_value == TileValue::Empty(0) && tiles@[i].tile_state
                            == TileState::Unrevealed,
                decreases width - x,
            {
                proof {
                    lemma_coord_index(width as int, height as int, x as int, y as int);
                }
                tiles.push(Tile::new(TileValue::Empty(0), x, y));
                x = x + 1;
            }
            y = y + 1;
            proof {
                assert((y - 1) * width + width == y * width) by (nonlinear_arith);
            }
        }
        proof {
            assert(height * width == width * height) by (nonlinear_arith);
        }
        let mine_count = width * height / 5;
        Game { tiles, width, height, state: GameState::Start, mine_count }
    }

    /// Computes the row-major tile index of an in-bounds cell.
    pub(crate) fn index_of(&self, x: usize, y: usize) -> (i: usize)
        requires
            wf(*self),
            in_bounds(*self, x as int, y as int),
        ensures
            i == row_major(self.width as int, x as int, y as int),
            i < self.tiles@.len(),
    {
        proof {
            lemma_coord_index(self.width as int, self.height as int, x as int, y as int);
        }
        let n = self.tiles.len();
        assert(y * self.width + x < n);
        y * self.width + x
    }

    /// Read access to the tile at an in-bounds cell.
    pub fn get_tile(&self, x: usize, y: usize) -> (t: &Tile)
        requires
            wf(*self),
            in_bounds(*self, x as int, y as int),
        ensures
            *t == tile_at(*self, x as int, y as int),
    {
        let i = self.index_of(x, y);
        &self.tiles[i]
    }

    /// Write access to the tile at an in-bounds cell. The grid after the
    /// call is the old grid with that one tile replaced by whatever the
    /// caller leaves in the returned reference.
    pub fn get_tile_mut(&mut self, x: usize, y: usize) -> (t: &mut Tile)
        requires
            wf(*old(self)),
            in_bounds(*old(self), x as int, y as int),
        ensures
            *t == tile_at(*old(self), x as int, y as int),
            final(self).tiles@ == old(self).tiles@.update(
                row_major(old(self).width as int, x as int, y as int),
                *final(t),
            ),
            final(self).width == old(self).width,
            final(self).height == old(self).height,
            final(self).mine_count == old(self).mine_count,
            final(self).state == old(self).state,
    {
        let i = self.index_of(x, y);
        &mut self.tiles[i]
    }

    /// How many tiles are currently flagged.
    pub fn count_flags(&self) -> (n: usize)
        ensures
            n == count_flagged(self.tiles@),
    {
        let mut n: usize = 0;
        let mut i: usize = 0;
        while i < self.tiles.len()
            invariant
                i <= self.tiles@.len(),
                n == count_matching(self.tiles@.take(i as int), flagged_pred()),
                n <= i,
            decreases self.tiles@.len() - i,
        {
            proof {
                assert(self.tiles@.take(i + 1).drop_last() =~= self.tiles@.take(i as int));
                assert(self.tiles@.take(i + 1).last() == self.tiles@[i as int]);
            }
            if self.tiles[i].is_flagged() {
                n = n + 1;
            }
            i = i + 1;
        }
        proof {
            assert(self.tiles@.take(self.tiles@.len() as int) =~= self.tiles@);
        }
        n
    }

    /// Whether the board is in the winning configuration: every non-mine
    /// tile revealed (mines may stay hidden or flagged).
    pub fn is_won(&self) -> (b: bool)
        ensures
            b == spec_is_won(*self),
    {
        let mut i: usize = 0;
        while i < self.tiles.len()
            invariant
                i <= self.tiles@.len(),
                forall|j: int|
                    0 <= j < i ==> (#[trigger] self.tiles@[j]).tile_state == TileState::Revealed
                        || self.tiles@[j].tile_value == TileValue::Bomb,
            decreases self.tiles@.len() - i,
        {
            let t = self.tiles[i];
            if !t.is_revealed() && !t.is_bomb() {
                return false;
            }
            i = i + 1;
        }
        true
    }

    /// Toggles the flag on an in-bounds tile: hidden tiles become flagged,
    /// flagged tiles become hidden, every other tile is left alone, and no
    /// other tile changes.
    pub fn flag_tile(&mut self, x: usize, y: usize)
        requires
            wf(*old(self)),
            in_bounds(*old(self), x as int, y as int),
        ensures
            wf(*final(self)),
            final(self).tiles@ == old(self).tiles@.update(
                row_major(old(self).width as int, x as int, y as int),
                (Tile {
                    tile_state: spec_toggled(tile_at(*old(self), x as int, y as int).tile_state),
                    ..tile_at(*old(self), x as int, y as int)
                }),
            ),
            final(self).width == old(self).width,
            final(self).height == old(self).height,
            final(self).mine_count == old(self).mine_count,
            final(self).state == old(self).state,
    {
        let i = self.index_of(x, y);
        let mut t = self.tiles[i];
        t.toggle_flag();
        self.tiles[i] = t;
    }
}

// ---------------------------------------------------------------------------
// First-click initialization and the win check
// ---------------------------------------------------------------------------

/// The board `mid` is `pre` with exactly `mine_count` mines added: only
/// values changed, each change turned a tile into a mine, and the exclusion
/// zone around the seed was left alone.
pub open spec fn placed_ok(pre: Game, mid: Game, seed_x: int, seed_y: int) -> bool {
    &&& mid.width == pre.width
    &&& mid.height == pre.height
    &&& mid.mine_count == pre.mine_count
    &&& mid.state == pre.state
    &&& mid.tiles@.len() == pre.tiles@.len()
    &&& count_mines(mid.tiles@) == pre.mine_count
    &&& forall|i: int|
        0 <= i < pre.tiles@.len() ==> #[trigger] mid.tiles@[i] == pre.tiles@[i] || mid.tiles@[i]
            == (Tile { tile_value: TileValue::Bomb, ..pre.tiles@[i] })
    &&& forall|i: int|
        0 <= i < pre.tiles@.len() && in_zone(
            seed_x,
            seed_y,
            pre.tiles@[i].x as int,
            pre.tiles@[i].y as int,
        ) ==> #[trigger] mid.tiles@[i] == pre.tiles@[i]
}

/// The board `post` is `mid` renumbered: coordinates, states, and the mine
/// layout are untouched, mine tiles are identical, and every non-mine tile
/// now stores its exact neighbor-mine count.
pub open spec fn numbered_ok(mid: Game, post: Game) -> bool {
    &&& post.width == mid.width
    &&& post.height == mid.height
    &&& post.mine_count == mid.mine_count
    &&& post.state == mid.state
    &&& post.tiles@.len() == mid.tiles@.len()
    &&& forall|i: int|
        0 <= i < mid.tiles@.len() ==> (#[trigger] post.tiles@[i]).x == mid.tiles@[i].x
            && post.tiles@[i].y == mid.tiles@[i].y && post.tiles@[i].tile_state
            == mid.tiles@[i].tile_state
    &&& forall|i: int|
        0 <= i < mid.tiles@.len() ==> ((#[trigger] post.tiles@[i]).tile_value == TileValue::Bomb)
            == (mid.tiles@[i].tile_value == TileValue::Bomb)
    &&& forall|i: int|
        0 <= i < mid.tiles@.len() && mid.tiles@[i].tile_value == TileValue::Bomb
            ==> #[trigger] post.tiles@[i] == mid.tiles@[i]
    &&& numbers_ok(post)
}

/// What the first click at `(x, y)` does before its reveal: nothing if the
/// seed is flagged; otherwise mines are placed away from the seed's zone,
/// the board is numbered, and the clock starts.
pub open spec fn init_rel(pre: Game, post: Game, x: int, y: int, now: u64) -> bool {
    if tile_at(pre, x, y).tile_state == TileState::Flagged {
        post == pre
    } else {
        exists|mid: Game, mid2: Game|
            {
                &&& #[trigger] placed_ok(pre, mid, x, y)
                &&& #[trigger] numbered_ok(mid, mid2)
                &&& post == (Game { state: GameState::Playing(now), ..mid2 })
            }
    }
}

/// What the auto-flag sweep on a win does to one tile.
pub open spec fn flagged_mine_tile(t: Tile) -> Tile {
    if t.tile_value == TileValue::Bomb {
        Tile { tile_state: TileState::Flagged, ..t }
    } else {
        t
    }
}

/// What the win check does: exactly when the game is running and every
/// non-mine tile is revealed, the game moves to `Won` with the elapsed time
/// and every mine is auto-flagged; otherwise nothing happens.
pub open spec fn win_rel(pre: Game, post: Game, now: u64) -> bool {
    if (pre.state matches GameState::Playing(_)) && spec_is_won(pre) {
        &&& post.width == pre.width
        &&& post.height == pre.height
        &&& post.mine_count == pre.mine_count
        &&& post.tiles@.len() == pre.tiles@.len()
        &&& forall|i: int|
            0 <= i < pre.tiles@.len() ==> #[trigger] post.tiles@[i] == flagged_mine_tile(
                pre.tiles@[i],
            )
        &&& post.state == (match pre.state {
            GameState::Playing(start) => GameState::Won(elapsed(start, now)),
            _ => pre.state,
        })
    } else {
        post == pre
    }
}

// ---------------------------------------------------------------------------
// The entry-point relations
// ---------------------------------------------------------------------------

/// What one primary click does: out-of-bounds clicks and clicks on finished
/// games do nothing; the first click initializes the board and reveals; a
/// click during play chords, reveals, and checks for the win.
pub open spec fn left_click_rel(pre: Game, post: Game, x: int, y: int, now: u64) -> bool {
    if !in_bounds(pre, x, y) {
        post == pre
    } else {
        match pre.state {
            GameState::Start => exists|g1: Game|
                #[trigger] init_rel(pre, g1, x, y, now) && reveal_rel(g1, post, x, y, now),
            GameState::Playing(_) => exists|g1: Game, g2: Game|
                {
                    &&& #[trigger] chord_rel(pre, g1, x, y, now)
                    &&& #[trigger] reveal_rel(g1, g2, x, y, now)
                    &&& win_rel(g2, post, now)
                },
            GameState::Won(_) => post == pre,
            GameState::Lost(_) => post == pre,
        }
    }
}

/// What one flag click does: toggles the flag on the clicked tile while the
/// game is not finished; anything else is a no-op.
pub open spec fn right_click_rel(pre: Game, post: Game, x: int, y: int) -> bool {
    if in_bounds(pre, x, y) && ((pre.state matches GameState::Playing(_)) || pre.state
        == GameState::Start) {
        &&& post.width == pre.width
        &&& post.height == pre.height
        &&& post.mine_count == pre.mine_count
        &&& post.state == pre.state
        &&& post.tiles@ == pre.tiles@.update(
            row_major(pre.width as int, x, y),
            (Tile {
                tile_state: spec_toggled(tile_at(pre, x, y).tile_state),
                ..tile_at(pre, x, y)
            }),
        )
    } else {
        post == pre
    }
}

/// What one alternate-action click does: on a revealed tile it chords and
/// checks for the win, on a hidden or flagged tile it toggles the flag, and
/// anything else is a no-op.
pub open spec fn space_click_rel(pre: Game, post: Game, x: int, y: int, now: u64) -> bool {
    if !in_bounds(pre, x, y) || !((pre.state matches GameState::Playing(_)) || pre.state
        == GameState::Start) {
        post == pre
    } else {
        match tile_at(pre, x, y).tile_state {
            TileState::Revealed => exists|g1: Game|
                #[trigger] chord_rel(pre, g1, x, y, now) && win_rel(g1, post, now),
            TileState::Unrevealed => right_click_rel(pre, post, x, y),
            TileState::Flagged => right_click_rel(pre, post, x, y),
            _ => post == pre,
        }
    }
}

// ---------------------------------------------------------------------------
// The game invariant survives every operation
// ---------------------------------------------------------------------------

/// A running game stays internally consistent when tiles only flip from
/// hidden to revealed: the mine count, the numbering, and the allowed tile
/// states all survive.
proof fn lemma_playing_inv_after_reveal(pre: Game, post: Game)
    requires
        wf(pre),
        state_inv(pre),
        pre.state matches GameState::Playing(_),
        post.state == pre.state,
        post.width == pre.width,
        post.height == pre.height,
        post.mine_count == pre.mine_count,
        post.tiles@.len() == pre.tiles@.len(),
        forall|x: int, y: int|
            in_bounds(pre, x, y) ==> #[trigger] tile_at(post, x, y) == tile_at(pre, x, y)
                || tile_at(post, x, y) == revealed_tile(tile_at(pre, x, y)),
    ensures
        state_inv(post),
{
    let w = pre.width as int;
    let h = pre.height as int;
    assert forall|i: int| 0 <= i < post.tiles@.len() implies (#[trigger] post.tiles@[i]).tile_value
        == pre.tiles@[i].tile_value && (post.tiles@[i].tile_state == pre.tiles@[i].tile_state
        || post.tiles@[i].tile_state == TileState::Revealed) by {
        lemma_index_coord(w, h, i);
        let x = i % w;
        let y = i / w;
        assert(in_bounds(pre, x, y));
        assert(tile_at(post, x, y) == post.tiles@[i]);
        assert(tile_at(pre, x, y) == pre.tiles@[i]);
        assert(tile_at(post, x, y) == tile_at(pre, x, y) || tile_at(post, x, y) == revealed_tile(
            tile_at(pre, x, y),
        ));
    }
    lemma_count_congruence(post.tiles@, pre.tiles@, mine_pred());
    assert forall|x: int, y: int|
        in_bounds(post, x, y) && !is_mine(post, x, y) implies (#[trigger] tile_at(
        post,
        x,
        y,
    )).tile_value == TileValue::Empty(adjacent_mines(post, x, y) as u8) by {
        lemma_coord_index(w, h, x, y);
        assert(tile_at(post, x, y).tile_value == tile_at(pre, x, y).tile_value);
        assert(!is_mine(pre, x, y));
        lemma_same_mines_adjacent(pre, post, x, y);
    }
}

/// Whichever way a flood reveal from any seed set ends, the game invariant
/// holds afterwards: a completed flood keeps the game running and only
/// reveals tiles, and a detonation moves the game to `Lost`.
proof fn lemma_flood_outcome_inv(pre: Game, post: Game, seeds: Set<(int, int)>, now: u64)
    requires
        wf(pre),
        state_inv(pre),
        pre.state matches GameState::Playing(_),
        !mine_reachable(pre, seeds) ==> flood_result(pre, post, seeds),
        mine_reachable(pre, seeds) ==> flood_lost(pre, post, seeds, now),
    ensures
        state_inv(post),
{
    if mine_reachable(pre, seeds) {
        let (mx, my, mid) = choose|mx: int, my: int, mid: Game|
            {
                &&& #[trigger] crate::flood::reach(pre, seeds, mx, my)
                &&& is_mine(pre, mx, my)
                &&& crate::flood::revealable(pre, mx, my)
                &&& #[trigger] partial_flood(pre, mid, seeds)
                &&& detonated_from(mid, post, mx, my, now)
            };
        assert(mid.state == pre.state);
        assert(post.state matches GameState::Lost(_));
    } else {
        lemma_playing_inv_after_reveal(pre, post);
    }
}

/// The game invariant survives a reveal, whatever its outcome.
proof fn lemma_reveal_rel_inv(pre: Game, post: Game, x: int, y: int, now: u64)
    requires
        wf(pre),
        state_inv(pre),
        reveal_rel(pre, post, x, y, now),
    ensures
        state_inv(post),
{
    if (pre.state matches GameState::Playing(_)) && crate::flood::revealable(pre, x, y) {
        if is_mine(pre, x, y) {
            assert(post.state matches GameState::Lost(_));
        } else {
            lemma_flood_outcome_inv(pre, post, single_seed(x, y), now);
        }
    }
}

/// The game invariant survives a chord, whatever its outcome.
proof fn lemma_chord_rel_inv(pre: Game, post: Game, x: int, y: int, now: u64)
    requires
        wf(pre),
        state_inv(pre),
        chord_rel(pre, post, x, y, now),
    ensures
        state_inv(post),
{
    if crate::flood::chord_applies(pre, x, y) {
        lemma_flood_outcome_inv(pre, post, crate::flood::chord_seeds(pre, x, y), now);
    }
}

/// The game invariant survives the win check (a won game moves to `Won`,
/// where the invariant asks nothing more).
proof fn lemma_win_rel_inv(pre: Game, post: Game, now: u64)
    requires
        wf(pre),
        state_inv(pre),
        win_rel(pre, post, now),
    ensures
        state_inv(post),
{
    if (pre.state matches GameState::Playing(_)) && spec_is_won(pre) {
        assert(post.state matches GameState::Won(_));
    }
}

/// The game invariant survives one flag toggle.
proof fn lemma_inv_after_toggle(pre: Game, post: Game, x: int, y: int)
    requires
        wf(pre),
        state_inv(pre),
        in_bounds(pre, x, y),
        post.width == pre.width,
        post.height == pre.height,
        post.mine_count == pre.mine_count,
        post.state == pre.state,
        post.tiles@ == pre.tiles@.update(
            row_major(pre.width as int, x, y),
            (Tile {
                tile_state: spec_toggled(tile_at(pre, x, y).tile_state),
                ..tile_at(pre, x, y)
            }),
        ),
    ensures
        state_inv(post),
{
    let w = pre.width as int;
    let h = pre.height as int;
    lemma_coord_index(w, h, x, y);
    match pre.state {
        GameState::Start => {},
        GameState::Playing(_) => {
            assert forall|i: int| 0 <= i < post.tiles@.len() implies (#[trigger] post.tiles@[i]).tile_value
                == pre.tiles@[i].tile_value by {}
            lemma_count_congruence(post.tiles@, pre.tiles@, mine_pred());
            assert forall|a: int, b: int|
                in_bounds(post, a, b) && !is_mine(post, a, b) implies (#[trigger] tile_at(
                post,
                a,
                b,
            )).tile_value == TileValue::Empty(adjacent_mines(post, a, b) as u8) by {
                lemma_coord_index(w, h, a, b);
                assert(tile_at(post, a, b).tile_value == tile_at(pre, a, b).tile_value);
                assert(!is_mine(pre, a, b));
                lemma_same_mines_adjacent(pre, post, a, b);
            }
        },
        GameState::Won(_) => {},
        GameState::Lost(_) => {},
    }
}

impl Game {
    /// First-click initialization: unless the seed tile is flagged (then the
    /// click is ignored), places the mines away from the seed's zone,
    /// numbers the board, and starts the clock. The last precondition is
    /// the design precondition that the mine budget fits outside the
    /// exclusion zone, without which placement could not finish.
    pub fn init(&mut self, start_x: usize, start_y: usize, now: u64)
        requires
            wf(*old(self)),
            state_inv(*old(self)),
            old(self).state == GameState::Start,
            in_bounds(*old(self), start_x as int, start_y as int),
            tile_at(*old(self), start_x as int, start_y as int).tile_state != TileState::Flagged
                ==> old(self).mine_count + count_zone(
                old(self).tiles@,
                start_x as int,
                start_y as int,
            ) <= old(self).tiles@.len(),
        ensures
            wf(*final(self)),
            state_inv(*final(self)),
            init_rel(*old(self), *final(self), start_x as int, start_y as int, now),
            final(self).width == old(self).width,
            final(self).height == old(self).height,
            final(self).mine_count == old(self).mine_count,
            tile_at(*old(self), start_x as int, start_y as int).tile_state == TileState::Flagged
                ==> *final(self) == *old(self),
            tile_at(*old(self), start_x as int, start_y as int).tile_state != TileState::Flagged
                ==> final(self).state == GameState::Playing(now),
    {
        let ghost g0 = *old(self);
        let i = self.index_of(start_x, start_y);
        if self.tiles[i].is_flagged() {
            return ;
        }
        proof {
            lemma_count_zero(self.tiles@, mine_pred());
            assert(count_mines(self.tiles@) == 0);
        }
        self.place_mines(start_x, start_y);
        let ghost mid = *self;
        self.place_numbers();
        let ghost mid2 = *self;
        self.state = GameState::Playing(now);
        proof {
            assert(placed_ok(g0, mid, start_x as int, start_y as int));
            assert(numbered_ok(mid, mid2));
            assert(*self == (Game { state: GameState::Playing(now), ..mid2 }));
            lemma_count_congruence(mid2.tiles@, mid.tiles@, mine_pred());
            assert forall|x: int, y: int|
                in_bounds(*self, x, y) && !is_mine(*self, x, y) implies (#[trigger] tile_at(
                *self,
                x,
                y,
            )).tile_value == TileValue::Empty(adjacent_mines(*self, x, y) as u8) by {
                assert(tile_at(*self, x, y) == tile_at(mid2, x, y));
                lemma_same_mines_adjacent(mid2, *self, x, y);
            }
        }
    }

    /// Sets every mine tile's state to `Flagged` (the clean final board
    /// shown on a win); every other tile is untouched.
    pub fn flag_all_mines(&mut self)
        requires
            wf(*old(self)),
        ensures
            wf(*final(self)),
            final(self).width == old(self).width,
            final(self).height == old(self).height,
            final(self).mine_count == old(self).mine_count,
            final(self).state == old(self).state,
            final(self).tiles@.len() == old(self).tiles@.len(),
            forall|i: int|
                0 <= i < old(self).tiles@.len() ==> #[trigger] final(self).tiles@[i]
                    == flagged_mine_tile(old(self).tiles@[i]),
    {
        let ghost g0 = *old(self);
        let mut i: usize = 0;
        while i < self.tiles.len()
            invariant
                wf(*self),
                self.width == g0.width,
                self.height == g0.height,
                self.mine_count == g0.mine_count,
                self.state == g0.state,
                self.tiles@.len() == g0.tiles@.len(),
                i <= self.tiles@.len(),
                forall|j: int|
                    0 <= j < i ==> #[trigger] self.tiles@[j] == flagged_mine_tile(g0.tiles@[j]),
                forall|j: int| i <= j < g0.tiles@.len() ==> #[trigger] self.tiles@[j] == g0.tiles@[j],
            decreases self.tiles@.len() - i,
        {
            let t = self.tiles[i];
            if t.is_bomb() {
                let mut flagged = t;
                flagged.set_state(TileState::Flagged);
                self.tiles[i] = flagged;
            }
            i = i + 1;
        }
    }

    /// The win check: exactly when the game is running and every non-mine
    /// tile is revealed, auto-flags the mines and moves to `Won` with the
    /// elapsed time.
    pub fn check_for_win(&mut self, now: u64)
        requires
            wf(*old(self)),
        ensures
            wf(*final(self)),
            win_rel(*old(self), *final(self), now),
    {
        let start = match self.state {
            GameState::Playing(start) => start,
            _ => {
                return ;
            },
        };
        if !self.is_won() {
            return ;
        }
        self.flag_all_mines();
        let won_after = if now >= start {
            now - start
        } else {
            0
        };
        self.state = GameState::Won(won_after);
    }

    /// The primary (left-click) entry point. Out of bounds: silently
    /// ignored. On a fresh board: first-click initialization, then the
    /// reveal (a flagged seed is ignored entirely). During play: chord,
    /// then reveal, then the win check. On a finished game: nothing.
    pub fn left_click(&mut self, x: usize, y: usize, now: u64)
        requires
            wf(*old(self)),
            state_inv(*old(self)),
            old(self).state == GameState::Start && in_bounds(*old(self), x as int, y as int)
                && tile_at(*old(self), x as int, y as int).tile_state != TileState::Flagged
                ==> old(self).mine_count + count_zone(old(self).tiles@, x as int, y as int)
                <= old(self).tiles@.len(),
        ensures
            wf(*final(self)),
            state_inv(*final(self)),
            left_click_rel(*old(self), *final(self), x as int, y as int, now),
    {
        let ghost g0 = *old(self);
        if x >= self.width || y >= self.height {
            return ;
        }
        match self.state {
            GameState::Start => {
                self.init(x, y, now);
                let ghost g1 = *self;
                self.reveal_tile(x, y, now);
                proof {
                    lemma_reveal_rel_inv(g1, *self, x as int, y as int, now);
                    assert(init_rel(g0, g1, x as int, y as int, now) && reveal_rel(
                        g1,
                        *self,
                        x as int,
                        y as int,
                        now,
                    ));
                }
            },
            GameState::Playing(_) => {
                self.revealed_clicked(x, y, now);
                let ghost g1 = *self;
                self.reveal_tile(x, y, now);
                let ghost g2 = *self;
                self.check_for_win(now);
                proof {
                    lemma_chord_rel_inv(g0, g1, x as int, y as int, now);
                    lemma_reveal_rel_inv(g1, g2, x as int, y as int, now);
                    lemma_win_rel_inv(g2, *self, now);
                    assert(chord_rel(g0, g1, x as int, y as int, now) && reveal_rel(
                        g1,
                        g2,
                        x as int,
                        y as int,
                        now,
                    ) && win_rel(g2, *self, now));
                }
            },
            GameState::Won(_) => (),
            GameState::Lost(_) => (),
        }
    }

    /// The flag (right-click) entry point: toggles the flag on the clicked
    /// tile while the game is not finished.
    pub fn right_click(&mut self, x: usize, y: usize)
        requires
            wf(*old(self)),
            state_inv(*old(self)),
        ensures
            wf(*final(self)),
            state_inv(*final(self)),
            right_click_rel(*old(self), *final(self), x as int, y as int),
    {
        let ghost g0 = *old(self);
        if x >= self.width || y >= self.height {
            return ;
        }
        match self.state {
            GameState::Playing(_) | GameState::Start => {
                self.flag_tile(x, y);
                proof {
                    lemma_inv_after_toggle(g0, *self, x as int, y as int);
                }
            },
            _ => (),
        }
    }

    /// The alternate-action (space) entry point: chord-and-check on a
    /// revealed tile, flag toggle on a hidden or flagged tile, nothing on a
    /// finished game or a terminal tile.
    pub fn space_click(&mut self, x: usize, y: usize, now: u64)
        requires
            wf(*old(self)),
            state_inv(*old(self)),
        ensures
            wf(*final(self)),
            state_inv(*final(self)),
            space_click_rel(*old(self), *final(self), x as int, y as int, now),
    {
        let ghost g0 = *old(self);
        if x >= self.width || y >= self.height {
            return ;
        }
        match self.state {
            GameState::Playing(_) | GameState::Start => (),
            _ => {
                return ;
            },
        }
        let i = self.index_of(x, y);
        match self.tiles[i].get_state() {
            TileState::Revealed => {
                self.revealed_clicked(x, y, now);
                let ghost g1 = *self;
                self.check_for_win(now);
                proof {
                    lemma_chord_rel_inv(g0, g1, x as int, y as int, now);
                    lemma_win_rel_inv(g1, *self, now);
                    assert(chord_rel(g0, g1, x as int, y as int, now) && win_rel(
                        g1,
                        *self,
                        now,
                    ));
                }
            },
            TileState::Unrevealed | TileState::Flagged => {
                self.flag_tile(x, y);
                proof {
                    lemma_inv_after_toggle(g0, *self, x as int, y as int);
                }
            },
            _ => (),
        }
    }

    /// Grows the grid by one step and restarts, unless the game is running
    /// or the ceiling would be passed.
    pub fn increase_size(&mut self)
        requires
            wf(*old(self)),
            state_inv(*old(self)),
        ensures
            wf(*final(self)),
            state_inv(*final(self)),
            old(self).state matches GameState::Playing(_) ==> *final(self) == *old(self),
            !(old(self).state matches GameState::Playing(_)) && (old(self).width
                + crate::WIDTH_INCREMENT > crate::MAX_WIDTH || old(self).height
                + crate::HEIGHT_INCREMENT > crate::MAX_HEIGHT) ==> *final(self) == *old(self),
            !(old(self).state matches GameState::Playing(_)) && old(self).width
                + crate::WIDTH_INCREMENT <= crate::MAX_WIDTH && old(self).height
                + crate::HEIGHT_INCREMENT <= crate::MAX_HEIGHT ==> fresh(
                *final(self),
                old(self).width + crate::WIDTH_INCREMENT,
                old(self).height + crate::HEIGHT_INCREMENT,
            ),
    {
        if matches!(self.state, GameState::Playing(_)) {
            return ;
        }
        if self.width > crate::MAX_WIDTH - crate::WIDTH_INCREMENT || self.height
            > crate::MAX_HEIGHT - crate::HEIGHT_INCREMENT {
            return ;
        }
        let width = self.width + crate::WIDTH_INCREMENT;
        let height = self.height + crate::HEIGHT_INCREMENT;
        proof {
            assert(width * height <= crate::MAX_WIDTH * crate::MAX_HEIGHT) by (nonlinear_arith)
                requires
                    width <= crate::MAX_WIDTH,
                    height <= crate::MAX_HEIGHT,
            ;
        }
        *self = Self::new(width, height);
    }

    /// Shrinks the grid by one step and restarts, unless the game is
    /// running or the floor would be passed.
    pub fn decrease_size(&mut self)
        requires
            wf(*old(self)),
            state_inv(*old(self)),
        ensures
            wf(*final(self)),
            state_inv(*final(self)),
            old(self).state matches GameState::Playing(_) ==> *final(self) == *old(self),
            !(old(self).state matches GameState::Playing(_)) && (old(self).width
                < crate::MIN_WIDTH + crate::WIDTH_INCREMENT || old(self).height < crate::MIN_HEIGHT
                + crate::HEIGHT_INCREMENT) ==> *final(self) == *old(self),
            !(old(self).state matches GameState::Playing(_)) && old(self).width >= crate::MIN_WIDTH
                + crate::WIDTH_INCREMENT && old(self).height >= crate::MIN_HEIGHT
                + crate::HEIGHT_INCREMENT ==> fresh(
                *final(self),
                old(self).width - crate::WIDTH_INCREMENT,
                old(self).height - crate::HEIGHT_INCREMENT,
            ),
    {
        if matches!(self.state, GameState::Playing(_)) {
            return ;
        }
        if self.width < crate::MIN_WIDTH + crate::WIDTH_INCREMENT || self.height
            < crate::MIN_HEIGHT + crate::HEIGHT_INCREMENT {
            return ;
        }
        let width = self.width - crate::WIDTH_INCREMENT;
        let height = self.height - crate::HEIGHT_INCREMENT;
        let ghost w0 = old(self).width;
        let ghost h0 = old(self).height;
        let total = self.tiles.len();
        assert(w0 * h0 == total);
        proof {
            assert(width * height <= w0 * h0) by (nonlinear_arith)
                requires
                    1 <= width <= w0,
                    1 <= height <= h0,
            ;
        }
        *self = Self::new(width, height);
    }

    /// While the game is running, the time since the first click, split
    /// into whole seconds and leftover milliseconds; `None` otherwise.
    pub fn get_time_since_start(&self, now: u64) -> (r: Option<(u64, u64)>)
        ensures
            r == (match self.state {
                GameState::Playing(start) => Some(
                    (elapsed(start, now) / 1000, elapsed(start, now) % 1000),
                ),
                _ => None::<(u64, u64)>,
            }),
    {
        match self.state {
            GameState::Playing(start) => {
                let e = if now >= start {
                    now - start
                } else {
                    0
                };
                Some((e / 1000, e % 1000))
            },
            _ => None,
        }
    }
}

} // verus!
