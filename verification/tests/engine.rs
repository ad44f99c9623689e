//! Unit tests for tiles and the basic game structure.

use glsweeper_rs::game::{Game, GameState};
use glsweeper_rs::tile::{Tile, TileState, TileValue};

#[test]
fn tile_accessors_and_setters() {
    let mut t = Tile::new(TileValue::Empty(0), 3, 4);
    assert_eq!(t.x, 3);
    assert_eq!(t.y, 4);
    assert!(t.is_empty());
    assert!(t.is_hidden());
    assert!(!t.is_bomb());
    assert!(!t.is_revealed());
    assert!(!t.is_flagged());
    assert!(!t.is_exploded());
    assert_eq!(t.get_state(), TileState::Unrevealed);
    assert_eq!(t.get_value(), TileValue::Empty(0));

    t.set_value(TileValue::Bomb);
    assert!(t.is_bomb());
    t.set_value(TileValue::Empty(5));
    assert_eq!(t.get_value(), TileValue::Empty(5));
    assert!(!t.is_empty());

    t.set_state(TileState::Revealed);
    assert!(t.is_revealed());
    t.set_state(TileState::Exploded);
    assert!(t.is_exploded());
    t.unflag();
    assert!(t.is_hidden());
}

#[test]
fn tile_flag_toggle_cycles_only_hidden_and_flagged() {
    let mut t = Tile::new(TileValue::Empty(1), 0, 0);
    t.toggle_flag();
    assert_eq!(t.get_state(), TileState::Flagged);
    t.toggle_flag();
    assert_eq!(t.get_state(), TileState::Unrevealed);

    for s in [
        TileState::Revealed,
        TileState::Exploded,
        TileState::WrongFlag,
    ] {
        t.set_state(s);
        t.toggle_flag();
        assert_eq!(t.get_state(), s);
    }
}

#[test]
fn fresh_game_layout() {
    let g = Game::new(4, 3);
    assert_eq!(g.width, 4);
    assert_eq!(g.height, 3);
    assert_eq!(g.mine_count, 2); // 12 / 5
    assert_eq!(g.state, GameState::Start);
    for y in 0..3 {
        for x in 0..4 {
            let t = g.get_tile(x, y);
            assert_eq!(t.x, x);
            assert_eq!(t.y, y);
            assert_eq!(t.get_value(), TileValue::Empty(0));
            assert_eq!(t.get_state(), TileState::Unrevealed);
        }
    }
}

#[test]
fn count_flags_counts_only_flags() {
    let mut g = Game::new(3, 3);
    assert_eq!(g.count_flags(), 0);
    g.right_click(0, 0);
    g.right_click(2, 1);
    assert_eq!(g.count_flags(), 2);
    g.right_click(0, 0);
    assert_eq!(g.count_flags(), 1);
    g.get_tile_mut(1, 1).set_state(TileState::Revealed);
    assert_eq!(g.count_flags(), 1);
}

#[test]
fn out_of_bounds_clicks_are_ignored() {
    let mut g = Game::new(2, 2);
    g.left_click(2, 0, 0);
    g.left_click(0, 7, 0);
    g.right_click(9, 9);
    g.space_click(2, 2, 0);
    assert_eq!(g.state, GameState::Start);
    for y in 0..2 {
        for x in 0..2 {
            assert_eq!(g.get_tile(x, y).get_state(), TileState::Unrevealed);
        }
    }
}

#[test]
fn first_click_on_flagged_seed_is_ignored_entirely() {
    let mut g = Game::new(4, 4);
    g.right_click(1, 1);
    g.left_click(1, 1, 0);
    assert_eq!(g.state, GameState::Start);
    assert_eq!(g.get_tile(1, 1).get_state(), TileState::Flagged);
    for y in 0..4 {
        for x in 0..4 {
            assert!(!g.get_tile(x, y).is_bomb());
        }
    }
}

#[test]
fn resizing_steps_and_bounds() {
    let mut g = Game::new(11, 11);
    g.increase_size();
    assert_eq!(g.width, 16);
    assert_eq!(g.height, 16);
    assert_eq!(g.mine_count, 16 * 16 / 5);
    assert_eq!(g.state, GameState::Start);

    g.decrease_size();
    assert_eq!(g.width, 11);
    assert_eq!(g.height, 11);

    let mut small = Game::new(5, 5);
    small.decrease_size();
    assert_eq!(small.width, 5);
    assert_eq!(small.height, 5);

    let mut big = Game::new(948, 948);
    big.increase_size();
    assert_eq!(big.width, 948);
    assert_eq!(big.height, 948);
}

#[test]
fn resizing_is_refused_while_playing() {
    let mut g = Game::new(11, 11);
    g.state = GameState::Playing(0);
    g.increase_size();
    assert_eq!(g.width, 11);
    g.decrease_size();
    assert_eq!(g.width, 11);
    assert_eq!(g.state, GameState::Playing(0));
}

#[test]
fn elapsed_time_is_reported_only_while_playing() {
    let mut g = Game::new(3, 3);
    assert_eq!(g.get_time_since_start(5000), None);
    g.state = GameState::Playing(1000);
    assert_eq!(g.get_time_since_start(3500), Some((2, 500)));
    assert_eq!(g.get_time_since_start(1000), Some((0, 0)));
    // A clock that ran backwards reports zero rather than panicking.
    assert_eq!(g.get_time_since_start(400), Some((0, 0)));
    g.state = GameState::Won(2500);
    assert_eq!(g.get_time_since_start(9000), None);
    g.state = GameState::Lost(2500);
    assert_eq!(g.get_time_since_start(9000), None);
}

#[test]
fn placement_feasibility_is_decided_correctly() {
    // 11x11 with the default budget: plenty of room outside any zone.
    let g = Game::new(11, 11);
    assert!(g.can_place_at(5, 5));
    assert!(g.can_place_at(0, 0));

    // A 2x3 board budgets one mine, but a central seed's zone covers the
    // whole board, so placement there cannot work.
    let h = Game::new(2, 3);
    assert_eq!(h.mine_count, 1);
    assert!(!h.can_place_at(1, 1));

    // With no mines to place, any seed is fine.
    let mut z = Game::new(2, 3);
    z.mine_count = 0;
    assert!(z.can_place_at(1, 1));
}
