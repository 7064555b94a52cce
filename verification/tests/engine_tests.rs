use mines::game::Game;
use mines::tile::{GameStatus, Tile, TileState, Vec2};

/// 3×3 board with a single mine at (2,2), neighbor counts computed, and
/// the placement phase marked as already done.
fn scenario_board() -> Game {
    let mut g = Game::new(3, 1, 7);
    g.set_bomb(2, 2, true);
    g.compute_neighbor_counts();
    g.is_first_move = false;
    g
}

fn tile_state(g: &Game, x: usize, y: usize) -> TileState {
    g.grid[y * g.size + x].state
}

fn bombs_on_board(g: &Game) -> usize {
    g.grid.iter().filter(|t| t.is_bomb).count()
}

#[test]
fn tile_accessor_and_constructors() {
    let g = scenario_board();
    let t = g.tile(2, 2);
    assert!(t.is_bomb);
    assert_eq!(t.state, TileState::Hidden);
    assert_eq!(g.tile(1, 1).neighboring_bombs, 1);
    assert_eq!(Vec2::new(1, 2), Vec2 { x: 1, y: 2 });
    let fresh = Tile::new();
    assert_eq!(fresh.state, TileState::Hidden);
    assert!(!fresh.is_bomb);
    assert_eq!(fresh.neighboring_bombs, 0);
}

#[test]
fn new_game_initial_state() {
    let g = Game::new(12, 50, 42);
    assert_eq!(g.size, 12);
    assert_eq!(g.bomb_count, 50);
    assert_eq!(g.grid.len(), 144);
    assert_eq!(g.selection, Vec2 { x: 6, y: 6 });
    assert_eq!(g.status, GameStatus::Playing);
    assert!(g.is_first_move);
    assert_eq!(g.rng.seed, 42);
    for t in g.grid.iter() {
        assert_eq!(t.state, TileState::Hidden);
        assert!(!t.is_bomb);
        assert_eq!(t.neighboring_bombs, 0);
    }
}

#[test]
fn scenario_counts_from_single_mine() {
    let g = scenario_board();
    assert!(g.grid[2 * 3 + 2].is_bomb);
    let expected: [[u8; 3]; 3] = [[0, 0, 0], [0, 1, 1], [0, 1, 0]];
    for y in 0..3 {
        for x in 0..3 {
            if !(x == 2 && y == 2) {
                assert_eq!(g.grid[y * 3 + x].neighboring_bombs, expected[y][x]);
            }
        }
    }
}

#[test]
fn scenario_flood_reveals_all_safe_tiles_and_wins() {
    let mut g = scenario_board();
    g.selection = Vec2 { x: 0, y: 0 };
    g.handle_input('t');
    for y in 0..3 {
        for x in 0..3 {
            if x == 2 && y == 2 {
                assert_eq!(tile_state(&g, x, y), TileState::Hidden);
            } else {
                assert_eq!(tile_state(&g, x, y), TileState::Revealed);
            }
        }
    }
    assert_eq!(g.status, GameStatus::Win);
}

#[test]
fn scenario_revealing_mine_loses() {
    let mut g = scenario_board();
    g.selection = Vec2 { x: 2, y: 2 };
    g.handle_input('t');
    assert_eq!(g.status, GameStatus::Lose);
    assert_eq!(tile_state(&g, 2, 2), TileState::Revealed);
    for y in 0..3 {
        for x in 0..3 {
            if !(x == 2 && y == 2) {
                assert_eq!(tile_state(&g, x, y), TileState::Hidden);
            }
        }
    }
}

#[test]
fn scenario_flagged_tile_cannot_be_revealed() {
    let mut g = scenario_board();
    g.selection = Vec2 { x: 0, y: 0 };
    g.handle_input('f');
    assert_eq!(tile_state(&g, 0, 0), TileState::Flagged);
    g.handle_input('t');
    assert_eq!(tile_state(&g, 0, 0), TileState::Flagged);
    assert_eq!(g.status, GameStatus::Playing);
    for y in 0..3 {
        for x in 0..3 {
            if !(x == 0 && y == 0) {
                assert_eq!(tile_state(&g, x, y), TileState::Hidden);
            }
        }
    }
}

#[test]
fn flag_toggle_twice_returns_to_hidden() {
    let mut g = scenario_board();
    g.selection = Vec2 { x: 1, y: 1 };
    assert_eq!(tile_state(&g, 1, 1), TileState::Hidden);
    g.handle_input('f');
    assert_eq!(tile_state(&g, 1, 1), TileState::Flagged);
    g.handle_input('f');
    assert_eq!(tile_state(&g, 1, 1), TileState::Hidden);
}

#[test]
fn flag_on_revealed_tile_is_noop() {
    let mut g = scenario_board();
    g.selection = Vec2 { x: 1, y: 1 };
    g.handle_input('t');
    assert_eq!(tile_state(&g, 1, 1), TileState::Revealed);
    g.handle_input('f');
    assert_eq!(tile_state(&g, 1, 1), TileState::Revealed);
}

#[test]
fn first_reveal_places_exact_mine_count_outside_safe_zone() {
    for seed in [1u64, 42, 0xdead_beef, 0x1234_5678_9abc_def0] {
        let mut g = Game::new(12, 50, seed);
        g.handle_input('t');
        assert_eq!(bombs_on_board(&g), 50);
        assert!(!g.is_first_move);
        // neither the selected cell nor any neighbor holds a mine
        for dy in -1i64..=1 {
            for dx in -1i64..=1 {
                let x = (6 + dx) as usize;
                let y = (6 + dy) as usize;
                assert!(!g.grid[y * 12 + x].is_bomb);
            }
        }
    }
}

#[test]
fn first_reveal_counts_match_layout() {
    let mut g = Game::new(12, 50, 987_654_321);
    g.handle_input('t');
    for y in 0..12usize {
        for x in 0..12usize {
            if g.grid[y * 12 + x].is_bomb {
                continue;
            }
            let mut c = 0u8;
            for dy in -1i64..=1 {
                for dx in -1i64..=1 {
                    if dx == 0 && dy == 0 {
                        continue;
                    }
                    let nx = x as i64 + dx;
                    let ny = y as i64 + dy;
                    if (0..12).contains(&nx)
                        && (0..12).contains(&ny)
                        && g.grid[ny as usize * 12 + nx as usize].is_bomb
                    {
                        c += 1;
                    }
                }
            }
            assert_eq!(g.grid[y * 12 + x].neighboring_bombs, c);
        }
    }
}

#[test]
fn overfull_board_degrades_to_fewer_mines() {
    // 3×3 board, 50 requested mines, safe zone of 4 cells: at most 5
    // eligible cells, so the attempt budget leaves at most 5 mines and
    // the game goes on.
    let mut g = Game::new(3, 50, 11);
    g.selection = Vec2 { x: 0, y: 0 };
    g.handle_input('t');
    assert!(bombs_on_board(&g) <= 5);
    assert!(!g.grid[0].is_bomb);
}

#[test]
fn win_requires_revealing_not_flagging() {
    let mut g = scenario_board();
    // flag a mine-free tile, then reveal the other seven safe tiles
    g.selection = Vec2 { x: 0, y: 0 };
    g.handle_input('f');
    for (x, y) in [(1, 0), (2, 0), (0, 1), (1, 1), (2, 1), (0, 2), (1, 2)] {
        g.selection = Vec2 { x, y };
        g.handle_input('t');
    }
    // a flagged mine-free tile does not count as cleared
    assert_eq!(g.status, GameStatus::Playing);
    g.selection = Vec2 { x: 0, y: 0 };
    g.handle_input('f');
    g.handle_input('t');
    assert_eq!(g.status, GameStatus::Win);
}

#[test]
fn lose_reveals_every_mine() {
    let mut g = Game::new(4, 3, 5);
    g.set_bomb(0, 0, true);
    g.set_bomb(3, 1, true);
    g.set_bomb(2, 3, true);
    g.compute_neighbor_counts();
    g.is_first_move = false;
    g.selection = Vec2 { x: 3, y: 1 };
    g.handle_input('f');
    g.selection = Vec2 { x: 0, y: 0 };
    g.handle_input('t');
    assert_eq!(g.status, GameStatus::Lose);
    assert_eq!(tile_state(&g, 0, 0), TileState::Revealed);
    assert_eq!(tile_state(&g, 3, 1), TileState::Revealed);
    assert_eq!(tile_state(&g, 2, 3), TileState::Revealed);
}

#[test]
fn terminal_status_freezes_the_game() {
    let mut g = scenario_board();
    g.selection = Vec2 { x: 2, y: 2 };
    g.handle_input('t');
    assert_eq!(g.status, GameStatus::Lose);
    let grid_before = g.grid.clone();
    let selection_before = g.selection;
    let first_before = g.is_first_move;
    let seed_before = g.rng.seed;
    for key in ['w', 'a', 's', 'd', 'f', 't', 'x'] {
        g.handle_input(key);
        assert_eq!(g.grid, grid_before);
        assert_eq!(g.selection, selection_before);
        assert_eq!(g.status, GameStatus::Lose);
        assert_eq!(g.is_first_move, first_before);
        assert_eq!(g.rng.seed, seed_before);
    }
}

#[test]
fn movement_clamps_at_edges() {
    let mut g = Game::new(3, 1, 9);
    g.selection = Vec2 { x: 0, y: 0 };
    g.handle_input('w');
    assert_eq!(g.selection, Vec2 { x: 0, y: 0 });
    g.handle_input('a');
    assert_eq!(g.selection, Vec2 { x: 0, y: 0 });
    g.handle_input('d');
    assert_eq!(g.selection, Vec2 { x: 1, y: 0 });
    g.handle_input('s');
    assert_eq!(g.selection, Vec2 { x: 1, y: 1 });
    g.selection = Vec2 { x: 2, y: 2 };
    g.handle_input('d');
    assert_eq!(g.selection, Vec2 { x: 2, y: 2 });
    g.handle_input('s');
    assert_eq!(g.selection, Vec2 { x: 2, y: 2 });
}

#[test]
fn unknown_keys_are_ignored() {
    let mut g = scenario_board();
    let grid_before = g.grid.clone();
    for key in ['q', 'e', 'z', '1', ' '] {
        g.handle_input(key);
        assert_eq!(g.grid, grid_before);
        assert_eq!(g.status, GameStatus::Playing);
    }
}

#[test]
fn flood_stops_at_nonzero_border() {
    // a mine wall splits a 5×1-high corridor: revealing on the left
    // must not cross the wall
    let mut g = Game::new(5, 2, 3);
    g.set_bomb(2, 0, true);
    g.set_bomb(2, 1, true);
    g.set_bomb(2, 2, true);
    g.set_bomb(2, 3, true);
    g.set_bomb(2, 4, true);
    g.compute_neighbor_counts();
    g.is_first_move = false;
    g.selection = Vec2 { x: 0, y: 0 };
    g.handle_input('t');
    // left side of the wall is revealed up to the bordering ring
    for y in 0..5 {
        assert_eq!(tile_state(&g, 0, y), TileState::Revealed);
        assert_eq!(tile_state(&g, 1, y), TileState::Revealed);
    }
    // the wall and everything beyond stay hidden
    for y in 0..5 {
        assert_eq!(tile_state(&g, 2, y), TileState::Hidden);
        assert_eq!(tile_state(&g, 3, y), TileState::Hidden);
        assert_eq!(tile_state(&g, 4, y), TileState::Hidden);
    }
    assert_eq!(g.status, GameStatus::Playing);
}
