//! End-to-end scenarios: placement, numbering, flood fill, loss, chord,
//! win detection, and the degenerate boards.

use glsweeper_rs::game::{Game, GameState};
use glsweeper_rs::tile::{TileState, TileValue};

/// Counts the mines among the neighbors of `(x, y)` by brute force.
fn neighbor_mines(g: &Game, x: usize, y: usize) -> u8 {
    let mut n = 0;
    for dy in -1i64..=1 {
        for dx in -1i64..=1 {
            if dx == 0 && dy == 0 {
                continue;
            }
            let nx = x as i64 + dx;
            let ny = y as i64 + dy;
            if nx >= 0 && ny >= 0 && (nx as usize) < g.width && (ny as usize) < g.height {
                if g.get_tile(nx as usize, ny as usize).is_bomb() {
                    n += 1;
                }
            }
        }
    }
    n
}

fn count_mines(g: &Game) -> usize {
    let mut n = 0;
    for y in 0..g.height {
        for x in 0..g.width {
            if g.get_tile(x, y).is_bomb() {
                n += 1;
            }
        }
    }
    n
}

#[test]
fn placement_has_exact_count_and_clear_zone() {
    // Repeat to exercise the random placement a few times.
    for seed in 0..5usize {
        let mut g = Game::new(10, 10);
        assert_eq!(g.mine_count, 20);
        let (sx, sy) = (4 + seed % 3, 3 + seed % 4);
        g.left_click(sx, sy, 0);
        assert!(matches!(g.state, GameState::Playing(_)));
        assert_eq!(count_mines(&g), 20);
        // The seed's whole 3x3 neighborhood is mine-free.
        for y in sy.saturating_sub(1)..=(sy + 1).min(9) {
            for x in sx.saturating_sub(1)..=(sx + 1).min(9) {
                assert!(!g.get_tile(x, y).is_bomb());
            }
        }
        // The seed itself was revealed.
        assert_eq!(g.get_tile(sx, sy).get_state(), TileState::Revealed);
    }
}

#[test]
fn numbering_matches_actual_neighbor_mines() {
    let mut g = Game::new(10, 10);
    g.left_click(5, 5, 0);
    for y in 0..10 {
        for x in 0..10 {
            let t = g.get_tile(x, y);
            if !t.is_bomb() {
                assert_eq!(t.get_value(), TileValue::Empty(neighbor_mines(&g, x, y)));
            }
        }
    }
}

#[test]
fn flood_reveals_entire_zero_region_and_border() {
    // One mine in the far corner: every other cell is one connected zero
    // region whose border is the three numbered tiles around the mine.
    let mut g = Game::new(4, 4);
    g.mine_count = 0;
    g.get_tile_mut(3, 3).set_value(TileValue::Bomb);
    g.left_click(0, 0, 0);
    assert!(matches!(g.state, GameState::Playing(_)));
    for y in 0..4 {
        for x in 0..4 {
            let t = g.get_tile(x, y);
            if x == 3 && y == 3 {
                assert_eq!(t.get_state(), TileState::Unrevealed);
                assert!(t.is_bomb());
            } else {
                assert_eq!(t.get_state(), TileState::Revealed);
            }
        }
    }
    assert_eq!(g.get_tile(2, 2).get_value(), TileValue::Empty(1));
    assert_eq!(g.get_tile(3, 2).get_value(), TileValue::Empty(1));
    assert_eq!(g.get_tile(2, 3).get_value(), TileValue::Empty(1));
    assert_eq!(g.get_tile(0, 0).get_value(), TileValue::Empty(0));
}

#[test]
fn flood_stops_at_numbered_border() {
    // 5x1 strip with a mine in the middle: revealing the left end shows
    // only the left zero cell and its numbered border, nothing beyond.
    let mut g = Game::new(5, 1);
    g.mine_count = 0;
    g.get_tile_mut(2, 0).set_value(TileValue::Bomb);
    g.left_click(0, 0, 0);
    assert_eq!(g.get_tile(0, 0).get_state(), TileState::Revealed);
    assert_eq!(g.get_tile(1, 0).get_state(), TileState::Revealed);
    assert_eq!(g.get_tile(1, 0).get_value(), TileValue::Empty(1));
    assert_eq!(g.get_tile(2, 0).get_state(), TileState::Unrevealed);
    assert_eq!(g.get_tile(3, 0).get_state(), TileState::Unrevealed);
    assert_eq!(g.get_tile(4, 0).get_state(), TileState::Unrevealed);
    assert!(matches!(g.state, GameState::Playing(_)));
}

/// A hand-built 3x3 board in play: mines at (0,0) and (2,2), correct
/// numbers everywhere else.
fn two_mine_board() -> Game {
    let mut g = Game::new(3, 3);
    g.mine_count = 2;
    g.state = GameState::Playing(0);
    g.get_tile_mut(0, 0).set_value(TileValue::Bomb);
    g.get_tile_mut(2, 2).set_value(TileValue::Bomb);
    for y in 0..3 {
        for x in 0..3 {
            if !g.get_tile(x, y).is_bomb() {
                let n = neighbor_mines(&g, x, y);
                g.get_tile_mut(x, y).set_value(TileValue::Empty(n));
            }
        }
    }
    g
}

#[test]
fn revealing_a_mine_loses_and_finalizes_the_board() {
    let mut g = two_mine_board();
    // A correct flag on the far mine, a wrong flag on a plain tile.
    g.get_tile_mut(2, 2).set_state(TileState::Flagged);
    g.get_tile_mut(1, 0).set_state(TileState::Flagged);
    g.reveal_tile(0, 0, 25);

    assert_eq!(g.state, GameState::Lost(25));
    // Exactly one exploded tile: the clicked mine.
    let mut exploded = 0;
    for y in 0..3 {
        for x in 0..3 {
            if g.get_tile(x, y).is_exploded() {
                exploded += 1;
                assert_eq!((x, y), (0, 0));
            }
        }
    }
    assert_eq!(exploded, 1);
    // The flagged mine keeps its flag; the wrong flag is marked; nothing
    // else moved.
    assert_eq!(g.get_tile(2, 2).get_state(), TileState::Flagged);
    assert_eq!(g.get_tile(1, 0).get_state(), TileState::WrongFlag);
    assert_eq!(g.get_tile(1, 1).get_state(), TileState::Unrevealed);
}

#[test]
fn unflagged_mines_are_shown_on_loss() {
    let mut g = two_mine_board();
    g.reveal_tile(2, 2, 3);
    assert_eq!(g.state, GameState::Lost(3));
    assert_eq!(g.get_tile(2, 2).get_state(), TileState::Exploded);
    // The other mine was not flagged, so the sweep reveals it.
    assert_eq!(g.get_tile(0, 0).get_state(), TileState::Revealed);
    assert!(g.get_tile(0, 0).is_bomb());
}

/// A hand-built 3x3 board in play: one mine at (0,0), the center revealed
/// showing 1, correct numbers everywhere.
fn chord_board() -> Game {
    let mut g = Game::new(3, 3);
    g.mine_count = 1;
    g.state = GameState::Playing(0);
    g.get_tile_mut(0, 0).set_value(TileValue::Bomb);
    for y in 0..3 {
        for x in 0..3 {
            if !g.get_tile(x, y).is_bomb() {
                let n = neighbor_mines(&g, x, y);
                g.get_tile_mut(x, y).set_value(TileValue::Empty(n));
            }
        }
    }
    g.get_tile_mut(1, 1).set_state(TileState::Revealed);
    g
}

#[test]
fn chord_with_matching_flags_reveals_unflagged_neighbors() {
    let mut g = chord_board();
    g.get_tile_mut(0, 0).set_state(TileState::Flagged);
    g.revealed_clicked(1, 1, 0);
    // Every cell but the flagged mine ends revealed (the zero cells flood).
    for y in 0..3 {
        for x in 0..3 {
            if x == 0 && y == 0 {
                assert_eq!(g.get_tile(x, y).get_state(), TileState::Flagged);
            } else {
                assert_eq!(g.get_tile(x, y).get_state(), TileState::Revealed);
            }
        }
    }
    assert_eq!(g.state, GameState::Playing(0));
}

#[test]
fn chord_with_wrong_flag_count_changes_nothing() {
    let mut g = chord_board();
    g.get_tile_mut(0, 0).set_state(TileState::Flagged);
    g.get_tile_mut(2, 2).set_state(TileState::Flagged);
    g.revealed_clicked(1, 1, 0);
    // Two flags against a count of one: nothing moves.
    assert_eq!(g.get_tile(0, 0).get_state(), TileState::Flagged);
    assert_eq!(g.get_tile(2, 2).get_state(), TileState::Flagged);
    assert_eq!(g.get_tile(1, 0).get_state(), TileState::Unrevealed);
    assert_eq!(g.get_tile(0, 1).get_state(), TileState::Unrevealed);
    assert_eq!(g.get_tile(1, 1).get_state(), TileState::Revealed);
    assert_eq!(g.state, GameState::Playing(0));
}

#[test]
fn chord_with_misplaced_flag_detonates() {
    let mut g = chord_board();
    // The flag sits on a safe tile while the mine stays hidden, so the
    // chord reveals the mine.
    g.get_tile_mut(1, 0).set_state(TileState::Flagged);
    g.revealed_clicked(1, 1, 8);
    assert_eq!(g.state, GameState::Lost(8));
    assert_eq!(g.get_tile(0, 0).get_state(), TileState::Exploded);
    assert_eq!(g.get_tile(1, 0).get_state(), TileState::WrongFlag);
}

#[test]
fn win_happens_exactly_when_all_safe_tiles_are_revealed() {
    let mut g = Game::new(2, 2);
    g.mine_count = 1;
    g.state = GameState::Playing(2);
    g.get_tile_mut(1, 1).set_value(TileValue::Bomb);
    for (x, y) in [(0, 0), (1, 0), (0, 1)] {
        g.get_tile_mut(x, y).set_value(TileValue::Empty(1));
    }
    g.left_click(0, 0, 4);
    assert!(!g.is_won());
    assert_eq!(g.state, GameState::Playing(2));
    g.left_click(1, 0, 6);
    assert_eq!(g.state, GameState::Playing(2));
    g.left_click(0, 1, 9);
    // The last safe tile: the game is won with the elapsed time, and the
    // remaining mine is auto-flagged.
    assert!(g.is_won());
    assert_eq!(g.state, GameState::Won(7));
    assert_eq!(g.get_tile(1, 1).get_state(), TileState::Flagged);
    assert_eq!(g.count_flags(), 1);
}

#[test]
fn flag_toggle_cycles_and_ignores_other_states() {
    let mut g = Game::new(3, 3);
    g.right_click(1, 1);
    assert_eq!(g.get_tile(1, 1).get_state(), TileState::Flagged);
    g.right_click(1, 1);
    assert_eq!(g.get_tile(1, 1).get_state(), TileState::Unrevealed);

    g.get_tile_mut(0, 0).set_state(TileState::Revealed);
    g.right_click(0, 0);
    assert_eq!(g.get_tile(0, 0).get_state(), TileState::Revealed);

    g.get_tile_mut(2, 0).set_state(TileState::Exploded);
    g.right_click(2, 0);
    assert_eq!(g.get_tile(2, 0).get_state(), TileState::Exploded);

    g.get_tile_mut(2, 1).set_state(TileState::WrongFlag);
    g.right_click(2, 1);
    assert_eq!(g.get_tile(2, 1).get_state(), TileState::WrongFlag);

    // Flagging is refused once the game is over.
    g.state = GameState::Lost(1);
    g.right_click(1, 1);
    assert_eq!(g.get_tile(1, 1).get_state(), TileState::Unrevealed);
}

#[test]
fn space_click_chords_on_revealed_and_flags_on_hidden() {
    let mut g = chord_board();
    g.get_tile_mut(0, 0).set_state(TileState::Flagged);
    g.space_click(1, 1, 12);
    // Chord plus win check: everything safe is revealed, so the game is
    // won and the elapsed time recorded.
    assert_eq!(g.state, GameState::Won(12));

    let mut h = Game::new(3, 3);
    h.space_click(2, 2, 0);
    assert_eq!(h.get_tile(2, 2).get_state(), TileState::Flagged);
    h.space_click(2, 2, 0);
    assert_eq!(h.get_tile(2, 2).get_state(), TileState::Unrevealed);
}

#[test]
fn one_by_two_grid_with_forced_mine() {
    // The single mine sits in the non-seed cell; the seed shows 1 with no
    // cascade, and the game keeps running after the first reveal.
    let mut g = Game::new(1, 2);
    assert_eq!(g.mine_count, 0);
    g.get_tile_mut(0, 1).set_value(TileValue::Bomb);
    g.left_click(0, 0, 0);
    assert_eq!(g.get_tile(0, 0).get_state(), TileState::Revealed);
    assert_eq!(g.get_tile(0, 0).get_value(), TileValue::Empty(1));
    assert_eq!(g.get_tile(0, 1).get_state(), TileState::Unrevealed);
    assert_eq!(g.state, GameState::Playing(0));
    g.mine_count = 1;
    assert_eq!(g.mine_count - g.count_flags(), 1);
}

#[test]
fn mine_free_board_floods_everything_in_one_reveal() {
    let mut g = Game::new(3, 3);
    g.mine_count = 0;
    g.left_click(1, 1, 4);
    for y in 0..3 {
        for x in 0..3 {
            assert_eq!(g.get_tile(x, y).get_state(), TileState::Revealed);
            assert_eq!(g.get_tile(x, y).get_value(), TileValue::Empty(0));
        }
    }
    // The whole board is clear; the win lands with the next input.
    assert!(g.is_won());
    assert_eq!(g.state, GameState::Playing(4));
    g.space_click(1, 1, 10);
    assert_eq!(g.state, GameState::Won(6));
}

#[test]
fn finished_games_ignore_further_clicks() {
    let mut g = two_mine_board();
    g.reveal_tile(0, 0, 1);
    assert_eq!(g.state, GameState::Lost(1));
    let frozen: Vec<(TileValue, TileState)> = (0..9)
        .map(|i| {
            let t = g.get_tile(i % 3, i / 3);
            (t.get_value(), t.get_state())
        })
        .collect();
    g.left_click(1, 1, 2);
    g.space_click(1, 1, 2);
    g.right_click(1, 1);
    let after: Vec<(TileValue, TileState)> = (0..9)
        .map(|i| {
            let t = g.get_tile(i % 3, i / 3);
            (t.get_value(), t.get_state())
        })
        .collect();
    assert_eq!(frozen, after);
    assert_eq!(g.state, GameState::Lost(1));
}
