use tetrust::primitives::{Collision, Color, Coord, Direction, Pos, Rotation};
use tetrust::timing::{Timer, MILLIS_PER_UPDATE, SECOND};

#[test]
fn coord_pos_round_trip_inside_board() {
    for y in 0..20i16 {
        for x in 0..10i16 {
            let c = Coord { x, y };
            let p = c.coord_to_pos(10);
            assert_eq!(p.0, x + y * 10);
            let back = p.pos_to_coord(10);
            assert_eq!(back, c);
        }
    }
}

#[test]
fn coord_to_pos_exact_value() {
    let c = Coord { x: 3, y: 7 };
    assert_eq!(c.coord_to_pos(10).0, 73);
}

#[test]
fn negative_y_gives_negative_pos_sentinel() {
    let c = Coord { x: 5, y: -1 };
    assert!(c.coord_to_pos(10).0 < 0);
}

#[test]
fn coord_plus_is_componentwise() {
    let a = Coord { x: 2, y: -3 };
    let b = Coord { x: -5, y: 7 };
    let s = a.plus(b);
    assert_eq!(s, Coord { x: -3, y: 4 });
    assert_eq!(Coord::default(), Coord { x: 0, y: 0 });
}

#[test]
fn direction_opposites() {
    assert_eq!(Direction::Left.opposite(), Direction::Right);
    assert_eq!(Direction::Right.opposite(), Direction::Left);
    assert_eq!(Direction::Down.opposite(), Direction::Still);
    assert_eq!(Direction::Still.opposite(), Direction::Still);
}

#[test]
fn direction_unit_coords() {
    assert_eq!(Direction::Down.to_coord(), Coord { x: 0, y: 1 });
    assert_eq!(Direction::Left.to_coord(), Coord { x: -1, y: 0 });
    assert_eq!(Direction::Right.to_coord(), Coord { x: 1, y: 0 });
    assert_eq!(Direction::Still.to_coord(), Coord { x: 0, y: 0 });
}

#[test]
fn rotation_leans_toward() {
    assert_eq!(Rotation::CW.to_dir(), Direction::Right);
    assert_eq!(Rotation::CCW.to_dir(), Direction::Left);
    assert_eq!(Rotation::Still.to_dir(), Direction::Still);
}

#[test]
fn collision_push_back_directions() {
    assert_eq!(Collision::Left.to_dir(), Direction::Left);
    assert_eq!(Collision::Right.to_dir(), Direction::Right);
    assert_eq!(Collision::Under.to_dir(), Direction::Down);
    assert_eq!(Collision::Clear.to_dir(), Direction::Still);
}

#[test]
fn color_cycle_wraps() {
    assert_eq!(Color::Black.next_color(), Color::Green);
    assert_eq!(Color::Green.next_color(), Color::Yellow);
    assert_eq!(Color::Aqua.next_color(), Color::Black);
    let mut c = Color::Red;
    for _ in 0..8 {
        c = c.next_color();
    }
    assert_eq!(c, Color::Red);
}

#[test]
fn color_indices_and_lookup() {
    assert_eq!(Color::Black.to_i(), 0);
    assert_eq!(Color::Aqua.to_i(), 7);
    assert_eq!(Color::get_color(0), Color::Green);
    assert_eq!(Color::get_color(7), Color::Black);
    assert_eq!(Color::get_color(8), Color::Green);
}

#[test]
fn pos_index_conversions() {
    let p = Pos(42);
    assert_eq!(p.to_index(), 42usize);
    assert_eq!(Pos::from_index(7).0, 7);
}

#[test]
fn fall_cadence_fires_after_half_second() {
    let mut t = Timer::default();
    assert_eq!(t.fall_rate, SECOND / 2);
    let mut ticks = 0;
    loop {
        t.update();
        ticks += 1;
        if t.fall() {
            break;
        }
        assert!(ticks < 100);
    }
    // 62 ms per tick: nine ticks make 558 ms, the first total above 500
    assert_eq!(ticks, 9);
    assert_eq!(t.fall_update, 0);
    assert_eq!(MILLIS_PER_UPDATE, 62);
}

#[test]
fn custom_fall_rate() {
    let mut t = Timer::new(0);
    t.update();
    assert!(t.fall());
    assert!(!t.fall());
}
