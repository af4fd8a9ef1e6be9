use tetrust::animation::{FrameState, FrameTimer};
use tetrust::board::{Blocks, GRID_HEIGHT, GRID_SIZE, GRID_WIDTH};
use tetrust::piece::{Bone, PieceKind, Tetrinome};
use tetrust::primitives::{Collision, Color, Coord, Direction, Pos, Rotation};

fn empty_board() -> Blocks {
    Blocks::new((GRID_WIDTH as usize) * (GRID_HEIGHT as usize))
}

fn put(b: &mut Blocks, x: i16, y: i16) {
    let coord = Coord { x, y };
    b.set_block(coord.coord_to_pos(GRID_WIDTH), Bone::new(Color::Green, coord));
}

fn occupied(b: &Blocks, x: i16, y: i16) -> bool {
    b.get_block(Coord { x, y }.coord_to_pos(GRID_WIDTH)).is_some()
}

fn piece_at(kind: PieceKind, dx: i16, dy: i16) -> Tetrinome {
    let mut p = Tetrinome::from_piece(kind);
    p.trans_change(&Coord { x: dx, y: dy });
    p
}

#[test]
fn new_board_is_empty() {
    let b = empty_board();
    assert_eq!(b.data.len(), GRID_SIZE as usize);
    assert!(b.data.iter().all(|c| c.is_none()));
    assert!(b.rows_full.is_empty());
}

#[test]
fn set_and_get_block() {
    let mut b = empty_board();
    put(&mut b, 3, 5);
    assert!(occupied(&b, 3, 5));
    assert!(!occupied(&b, 3, 6));
    let blk = b.get_block(Coord { x: 3, y: 5 }.coord_to_pos(GRID_WIDTH)).unwrap();
    assert_eq!(blk.bone.coord, Coord { x: 3, y: 5 });
    assert!(blk.frame_timer.is_none());
}

#[test]
fn negative_pos_is_a_no_op_guard() {
    let mut b = empty_board();
    b.set_block(Pos(-7), Bone::new(Color::Red, Coord { x: 3, y: -1 }));
    assert!(b.data.iter().all(|c| c.is_none()));
    assert!(b.get_block(Pos(-7)).is_none());
}

#[test]
fn row_full_detection() {
    let mut b = empty_board();
    for x in 0..GRID_WIDTH {
        put(&mut b, x, 19);
    }
    assert!(b.row_full(19));
    // a row missing exactly one slot is not full
    let mut c = empty_board();
    for x in 0..GRID_WIDTH {
        if x != 4 {
            put(&mut c, x, 19);
        }
    }
    assert!(!c.row_full(19));
    assert!(!b.row_full(18));
}

#[test]
fn clear_row_blanks_exactly_one_row() {
    let mut b = empty_board();
    for x in 0..GRID_WIDTH {
        put(&mut b, x, 19);
        put(&mut b, x, 18);
    }
    b.clear_row(19);
    for x in 0..GRID_WIDTH {
        assert!(!occupied(&b, x, 19));
        assert!(occupied(&b, x, 18));
    }
}

#[test]
fn collision_left_right_under() {
    let b = empty_board();
    let at_left = piece_at(PieceKind::I, -1, 0);
    assert_eq!(
        b.check_collision(&at_left, &Direction::Left, &Rotation::Still),
        Collision::Left
    );
    let at_right = piece_at(PieceKind::I, 7, 0);
    assert_eq!(
        b.check_collision(&at_right, &Direction::Right, &Rotation::Still),
        Collision::Right
    );
    let below = piece_at(PieceKind::I, 0, 19);
    assert_eq!(
        b.check_collision(&below, &Direction::Down, &Rotation::Still),
        Collision::Under
    );
    let fine = piece_at(PieceKind::I, 0, 10);
    assert_eq!(
        b.check_collision(&fine, &Direction::Down, &Rotation::Still),
        Collision::Clear
    );
}

#[test]
fn occupancy_classified_by_attempted_direction() {
    let mut b = empty_board();
    put(&mut b, 2, 10);
    let over = piece_at(PieceKind::I, 0, 9); // cells (0..3, 10)
    assert_eq!(b.check_collision(&over, &Direction::Down, &Rotation::Still), Collision::Under);
    assert_eq!(b.check_collision(&over, &Direction::Left, &Rotation::Still), Collision::Left);
    assert_eq!(b.check_collision(&over, &Direction::Right, &Rotation::Still), Collision::Right);
    // a pure rotation classifies by the direction it leans toward
    assert_eq!(b.check_collision(&over, &Direction::Still, &Rotation::CW), Collision::Right);
    assert_eq!(b.check_collision(&over, &Direction::Still, &Rotation::CCW), Collision::Left);
}

#[test]
fn bounds_checked_before_occupancy() {
    // one cell past the left wall, another over an occupied square:
    // the wall wins, not the occupancy-based classification
    let mut b = empty_board();
    put(&mut b, 2, 10);
    let p = piece_at(PieceKind::I, -1, 9); // cells (-1..2, 10); (2,10) occupied
    assert_eq!(b.check_collision(&p, &Direction::Down, &Rotation::Still), Collision::Left);
}

#[test]
fn piece_rows_sorted_and_unique() {
    let b = empty_board();
    let mut p = Tetrinome::from_piece(PieceKind::T); // rows 0 and 1
    p.trans_change(&Coord { x: 0, y: 5 });
    let rows = b.get_piece_rows(&p);
    assert_eq!(rows, vec![5, 6]);
    let i = Tetrinome::from_piece(PieceKind::I); // one row, four cells
    assert_eq!(b.get_piece_rows(&i), vec![1]);
}

#[test]
fn drop_row_down_moves_cells_and_queue() {
    let mut b = empty_board();
    put(&mut b, 1, 10);
    put(&mut b, 2, 10);
    put(&mut b, 5, 11);
    b.add_row_to_clear(9);
    b.add_row_to_clear(12);
    let moved = b.drop_row_down(10);
    assert_eq!(moved, 2);
    assert!(!occupied(&b, 1, 10) && !occupied(&b, 2, 10));
    assert!(occupied(&b, 1, 11) && occupied(&b, 2, 11));
    // the moved cell's own coordinate followed it down
    let blk = b.get_block(Coord { x: 1, y: 11 }.coord_to_pos(GRID_WIDTH)).unwrap();
    assert_eq!(blk.bone.coord, Coord { x: 1, y: 11 });
    // the slot below an empty source column keeps its content
    assert!(occupied(&b, 5, 11));
    // queued rows at or above the dropped row moved down with it
    assert_eq!(b.rows_full, vec![10, 12]);
}

#[test]
fn drop_of_empty_row_moves_nothing() {
    let mut b = empty_board();
    put(&mut b, 0, 15);
    assert_eq!(b.drop_row_down(3), 0);
    assert!(occupied(&b, 0, 15));
}

#[test]
fn start_clear_attaches_wave_timers_and_enqueues() {
    let mut b = empty_board();
    for x in 0..GRID_WIDTH {
        put(&mut b, x, 19);
    }
    b.start_clear(19);
    assert_eq!(b.rows_full, vec![19]);
    for x in 0..GRID_WIDTH {
        let blk = b.get_block(Coord { x, y: 19 }.coord_to_pos(GRID_WIDTH)).unwrap();
        assert!(blk.frame_timer.is_some());
        // the wave color is offset by the cell's ordinal in the row
        assert_eq!(blk.bone.color, Color::get_color(x as usize));
    }
    // cells already carrying a timer are not restarted
    let before = b.get_block(Coord { x: 0, y: 19 }.coord_to_pos(GRID_WIDTH)).unwrap();
    b.start_clear(19);
    let after = b.get_block(Coord { x: 0, y: 19 }.coord_to_pos(GRID_WIDTH)).unwrap();
    assert_eq!(before.bone.color, after.bone.color);
}

#[test]
fn row_ready_only_when_all_timers_done() {
    let mut b = empty_board();
    for x in 0..GRID_WIDTH {
        put(&mut b, x, 19);
    }
    b.start_clear(19);
    assert!(!b.row_ready(19));
    // force every timer but one to done
    for x in 0..GRID_WIDTH {
        let idx = (19 * GRID_WIDTH + x) as usize;
        if let Some(blk) = b.data[idx].as_mut() {
            if x != 7 {
                blk.frame_timer = Some(FrameTimer::from_vec(Vec::new(), 0));
            }
        }
    }
    assert!(!b.row_ready(19));
    if let Some(blk) = b.data[(19 * GRID_WIDTH + 7) as usize].as_mut() {
        blk.frame_timer = Some(FrameTimer::from_vec(Vec::new(), 0));
        assert!(matches!(blk.frame_timer.as_ref().unwrap().get_state(), FrameState::Done));
    }
    assert!(b.row_ready(19));
    // an untouched empty row is vacuously ready
    assert!(b.row_ready(0));
}

#[test]
fn finish_clear_gates_on_done_timers() {
    let mut b = empty_board();
    for x in 0..GRID_WIDTH {
        put(&mut b, x, 19);
    }
    put(&mut b, 4, 18);
    b.start_clear(19);
    // timers freshly started: the row must stay
    b.finish_clear();
    assert_eq!(b.rows_full, vec![19]);
    assert!(occupied(&b, 0, 19));
    // all timers done: the row leaves on this tick and the cell above falls
    for x in 0..GRID_WIDTH {
        let idx = (19 * GRID_WIDTH + x) as usize;
        if let Some(blk) = b.data[idx].as_mut() {
            blk.frame_timer = Some(FrameTimer::from_vec(Vec::new(), 0));
        }
    }
    b.finish_clear();
    assert!(b.rows_full.is_empty());
    assert!(!occupied(&b, 4, 18));
    assert!(occupied(&b, 4, 19));
    for x in 0..GRID_WIDTH {
        if x != 4 {
            assert!(!occupied(&b, x, 19));
        }
    }
}

#[test]
fn compaction_stops_at_first_empty_row() {
    let mut b = empty_board();
    // a full bottom row about to leave, an empty row 18 isolating rows above
    for x in 0..GRID_WIDTH {
        put(&mut b, x, 19);
    }
    put(&mut b, 3, 17);
    put(&mut b, 6, 16);
    b.start_clear(19);
    for x in 0..GRID_WIDTH {
        let idx = (19 * GRID_WIDTH + x) as usize;
        if let Some(blk) = b.data[idx].as_mut() {
            blk.frame_timer = Some(FrameTimer::from_vec(Vec::new(), 0));
        }
    }
    b.finish_clear();
    // row 19 left; dropping scanned row 18, found it empty and stopped:
    // nothing above row 18 shifted
    assert!(b.rows_full.is_empty());
    for x in 0..GRID_WIDTH {
        assert!(!occupied(&b, x, 19));
    }
    assert!(occupied(&b, 3, 17));
    assert!(occupied(&b, 6, 16));
    assert!(!occupied(&b, 3, 18));
    assert!(!occupied(&b, 6, 17));
}

#[test]
fn board_clear_wipes_everything() {
    let mut b = empty_board();
    for x in 0..GRID_WIDTH {
        put(&mut b, x, 19);
    }
    b.start_clear(19);
    b.clear();
    assert!(b.data.iter().all(|c| c.is_none()));
}
