use tetrust::board::{GRID_HEIGHT, GRID_SIZE, GRID_WIDTH};
use tetrust::game::{Game, Intent};
use tetrust::grid::Grid;
use tetrust::piece::{PieceKind, Tetrinome};
use tetrust::primitives::{Color, Coord, Direction, Rotation};
use tetrust::timing::MILLIS_PER_UPDATE;

fn cell_filled(g: &Grid, x: i16, y: i16) -> bool {
    g.blocks.get_block(Coord { x, y }.coord_to_pos(GRID_WIDTH)).is_some()
}

fn placed_piece(kind: PieceKind, dx: i16, dy: i16) -> Tetrinome {
    let mut p = Tetrinome::from_piece(kind);
    p.trans_change(&Coord { x: dx, y: dy });
    p
}

fn drop_piece(g: &mut Grid, p: Tetrinome) {
    g.curr_piece = p;
    while !g.move_if(Direction::Down, Rotation::Still) {}
}

#[test]
fn o_piece_commits_at_the_bottom_then_clear_board_empties_it() {
    let mut game = Game::new();
    game.grid.curr_piece = placed_piece(PieceKind::O, 4, 0);
    let mut committed = false;
    for _ in 0..25 {
        if game.handle_intent(Intent::MoveDown) {
            committed = true;
            break;
        }
    }
    assert!(committed);
    // the square landed on the bottom two rows at columns 5 and 6
    assert!(cell_filled(&game.grid, 5, 18));
    assert!(cell_filled(&game.grid, 6, 18));
    assert!(cell_filled(&game.grid, 5, 19));
    assert!(cell_filled(&game.grid, 6, 19));
    // a new piece was spawned on commit
    assert_eq!(game.grid.curr_piece.bones.len(), 4);
    assert!(game.grid.curr_piece.bones.iter().all(|b| b.coord.y <= 2));

    game.handle_intent(Intent::ClearBoard);
    assert_eq!(game.grid.blocks.data.len(), GRID_SIZE as usize);
    assert!(game.grid.blocks.data.iter().all(|c| c.is_none()));
    assert_eq!(game.grid.curr_piece.bones.len(), 4);
}

#[test]
fn filled_row_clears_after_exactly_the_animation_ticks() {
    let mut grid = Grid::new();
    // two horizontal bars cover columns 0..=7 of the bottom row
    drop_piece(&mut grid, placed_piece(PieceKind::I, 0, 0));
    drop_piece(&mut grid, placed_piece(PieceKind::I, 4, 0));
    // a vertical bar fills column 8, rows 16..=19
    let mut v8 = Tetrinome::from_piece(PieceKind::I);
    v8.rotate(&Rotation::CW);
    v8.trans_change(&Coord { x: 7, y: 0 });
    drop_piece(&mut grid, v8);
    assert!(!grid.blocks.row_full(19));
    assert!(grid.blocks.rows_full.is_empty());
    // the last cell: a vertical bar in column 9 completes the bottom row
    let mut v9 = Tetrinome::from_piece(PieceKind::I);
    v9.rotate(&Rotation::CW);
    v9.trans_change(&Coord { x: 8, y: 0 });
    drop_piece(&mut grid, v9);
    // the clear started exactly once for the completed row
    assert_eq!(grid.blocks.rows_full, vec![19]);
    assert!(cell_filled(&grid, 0, 19));

    // 3000 ms of animation at 186 ms per frame gives 16 frames; the first
    // frame opens after one 62 ms tick, each later frame after three, so
    // the timers report done only after 46 advancing ticks
    for tick in 0..46 {
        grid.blocks.finish_clear();
        assert_eq!(grid.blocks.rows_full, vec![19], "row left too early at tick {}", tick);
        assert!(cell_filled(&grid, 0, 19));
        let _bones = grid.grid_bones(MILLIS_PER_UPDATE);
    }
    grid.blocks.finish_clear();
    // the row is gone and everything above compacted down by one
    assert!(grid.blocks.rows_full.is_empty());
    for x in 0..=7i16 {
        assert!(!cell_filled(&grid, x, 19));
    }
    // the vertical bars' remainders fell one row: rows 16..=18 became 17..=19
    assert!(cell_filled(&grid, 8, 17) && cell_filled(&grid, 8, 18) && cell_filled(&grid, 8, 19));
    assert!(!cell_filled(&grid, 8, 16));
    assert!(cell_filled(&grid, 9, 17) && cell_filled(&grid, 9, 18) && cell_filled(&grid, 9, 19));
    assert!(!cell_filled(&grid, 9, 16));
}

#[test]
fn wall_kick_shifts_right_by_half_width_when_clear() {
    let mut grid = Grid::new();
    // a vertical bar hugging the left wall, in open space
    let mut v = Tetrinome::from_piece(PieceKind::I);
    v.rotate(&Rotation::CW); // cells (1, 0..=3)
    v.trans_change(&Coord { x: -1, y: 10 }); // cells (0, 10..=13)
    grid.curr_piece = v;
    let committed = grid.move_if(Direction::Still, Rotation::CW);
    assert!(!committed);
    // the rotation alone would reach column -2; the kick moved it right by
    // half the rotated width (4 / 2 = 2), which is clear, so it stands
    let xs: Vec<i16> = grid.curr_piece.bones.iter().map(|b| b.coord.x).collect();
    let ys: Vec<i16> = grid.curr_piece.bones.iter().map(|b| b.coord.y).collect();
    assert_eq!(xs, vec![3, 2, 1, 0]);
    assert!(ys.iter().all(|&y| y == 11));
}

#[test]
fn wall_kick_discards_rotation_when_still_blocked() {
    let mut grid = Grid::new();
    // block the kicked pose's row
    for x in 0..4i16 {
        let coord = Coord { x, y: 11 };
        grid.blocks.set_block(
            coord.coord_to_pos(GRID_WIDTH),
            tetrust::piece::Bone::new(Color::White, coord),
        );
    }
    let mut v = Tetrinome::from_piece(PieceKind::I);
    v.rotate(&Rotation::CW);
    v.trans_change(&Coord { x: -1, y: 10 }); // cells (0, 10..=13)
    let before: Vec<Coord> = v.get_coords();
    grid.curr_piece = v;
    let committed = grid.move_if(Direction::Still, Rotation::CW);
    assert!(!committed);
    // the kicked pose collides with the blocks, so the rotation attempt was
    // discarded entirely and the original pose kept
    assert_eq!(grid.curr_piece.get_coords(), before);
}

#[test]
fn gravity_runs_on_the_fall_cadence_after_clears_finish() {
    let mut game = Game::new();
    game.grid.curr_piece = placed_piece(PieceKind::O, 4, 0);
    let before_y: Vec<i16> = game.grid.curr_piece.bones.iter().map(|b| b.coord.y).collect();
    // eight ticks stay under the half-second fall rate
    for _ in 0..8 {
        assert!(!game.update());
    }
    let mid_y: Vec<i16> = game.grid.curr_piece.bones.iter().map(|b| b.coord.y).collect();
    assert_eq!(before_y, mid_y);
    // the ninth tick crosses it and the piece falls one row
    game.update();
    let after_y: Vec<i16> = game.grid.curr_piece.bones.iter().map(|b| b.coord.y).collect();
    for (b, a) in before_y.iter().zip(after_y.iter()) {
        assert_eq!(b + 1, *a);
    }
}

#[test]
fn hard_drop_commits_and_animates_the_dropped_piece() {
    let mut game = Game::new();
    game.grid.curr_piece = placed_piece(PieceKind::O, 4, 0);
    let r = game.handle_intent(Intent::HardDrop);
    assert!(r);
    assert!(cell_filled(&game.grid, 5, 19) && cell_filled(&game.grid, 6, 19));
    let d = game.grid.instant_drop.as_ref().unwrap();
    assert_eq!(d.piece.bones.len(), 4);
    // the ghost shows the piece as it stood before the drop
    assert!(d.piece.bones.iter().all(|b| b.coord.y <= 1));
    // the ghost animation walks the piece down and ends
    let mut guard = 0;
    while game.grid.instant_drop.is_some() {
        game.grid.animate_drop(MILLIS_PER_UPDATE);
        guard += 1;
        assert!(guard < 1000);
    }
}

#[test]
fn shadow_distance_counts_free_rows() {
    let mut grid = Grid::new();
    let p = placed_piece(PieceKind::O, 4, 0);
    // lowest cells at row 1: 18 rows free above the floor
    assert_eq!(grid.shadow_distance(&p), 18);
    for x in 0..GRID_WIDTH {
        let coord = Coord { x, y: 19 };
        grid.blocks.set_block(
            coord.coord_to_pos(GRID_WIDTH),
            tetrust::piece::Bone::new(Color::White, coord),
        );
    }
    assert_eq!(grid.shadow_distance(&p), 17);
    let bones = grid.shadow_bones();
    assert_eq!(bones.len(), 4);
    assert!(bones.iter().any(|b| b.coord.y == 18));
}

#[test]
fn moving_into_a_side_wall_is_a_no_op() {
    let mut grid = Grid::new();
    grid.curr_piece = placed_piece(PieceKind::O, 3, 5); // cells x 4..=5
    for _ in 0..10 {
        grid.move_if(Direction::Left, Rotation::Still);
    }
    let xs: Vec<i16> = grid.curr_piece.bones.iter().map(|b| b.coord.x).collect();
    assert_eq!(xs, vec![0, 1, 0, 1]);
    for _ in 0..20 {
        grid.move_if(Direction::Right, Rotation::Still);
    }
    let xs: Vec<i16> = grid.curr_piece.bones.iter().map(|b| b.coord.x).collect();
    assert_eq!(xs, vec![8, 9, 8, 9]);
}

#[test]
fn piece_bones_and_drop_bones_reflect_state() {
    let grid = Grid::new();
    let bones = grid.piece_bones();
    assert_eq!(bones.len(), 4);
    assert!(grid.drop_bones().is_none());
}

#[test]
fn grid_bones_cycle_clearing_colors() {
    let mut grid = Grid::new();
    for x in 0..GRID_WIDTH {
        let coord = Coord { x, y: 19 };
        grid.blocks.set_block(
            coord.coord_to_pos(GRID_WIDTH),
            tetrust::piece::Bone::new(Color::White, coord),
        );
    }
    grid.blocks.start_clear(19);
    let first = grid.grid_bones(MILLIS_PER_UPDATE);
    assert_eq!(first.len(), GRID_WIDTH as usize);
    // the first tick crosses the zero delay: every wave color advances once
    assert_eq!(first[0].color, Color::get_color(0).next_color());
    // height stays put while animating
    assert!(first.iter().all(|b| b.coord.y == 19));
}

#[test]
fn unspawnable_piece_keeps_committing_without_a_crash() {
    // a board already full everywhere: every downward move collides
    // underneath at once, which is an accepted gameplay outcome
    let mut grid = Grid::new();
    for y in 0..GRID_HEIGHT {
        for x in 0..GRID_WIDTH {
            let coord = Coord { x, y };
            grid.blocks.set_block(
                coord.coord_to_pos(GRID_WIDTH),
                tetrust::piece::Bone::new(Color::Blue, coord),
            );
        }
    }
    for _ in 0..5 {
        assert!(grid.move_if(Direction::Down, Rotation::Still));
        assert_eq!(grid.curr_piece.bones.len(), 4);
    }
}
