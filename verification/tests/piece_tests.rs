use tetrust::animation::{Animatable, FrameState};
use tetrust::board::GRID_WIDTH;
use tetrust::piece::{Bone, PieceKind, Tetrinome};
use tetrust::primitives::{Color, Coord, Rotation};

fn coords_of(p: &Tetrinome) -> Vec<(i16, i16)> {
    p.get_coords().iter().map(|c| (c.x, c.y)).collect()
}

#[test]
fn canonical_layouts() {
    let i = Tetrinome::from_piece(PieceKind::I);
    assert_eq!(coords_of(&i), vec![(0, 1), (1, 1), (2, 1), (3, 1)]);
    assert_eq!(i.pivot, Some(1));
    assert!(i.bones.iter().all(|b| b.color == Color::Green));

    let l = Tetrinome::from_piece(PieceKind::L);
    assert_eq!(coords_of(&l), vec![(2, 0), (0, 1), (1, 1), (2, 1)]);
    assert_eq!(l.pivot, Some(2));
    assert!(l.bones.iter().all(|b| b.color == Color::Yellow));

    let j = Tetrinome::from_piece(PieceKind::J);
    assert_eq!(coords_of(&j), vec![(0, 0), (0, 1), (1, 1), (2, 1)]);
    assert_eq!(j.pivot, Some(2));
    assert!(j.bones.iter().all(|b| b.color == Color::Red));

    let t = Tetrinome::from_piece(PieceKind::T);
    assert_eq!(coords_of(&t), vec![(2, 0), (1, 1), (2, 1), (3, 1)]);
    assert_eq!(t.pivot, Some(2));
    assert!(t.bones.iter().all(|b| b.color == Color::Blue));

    let z = Tetrinome::from_piece(PieceKind::Z);
    assert_eq!(coords_of(&z), vec![(0, 0), (1, 0), (1, 1), (2, 1)]);
    assert_eq!(z.pivot, Some(2));
    assert!(z.bones.iter().all(|b| b.color == Color::Pink));

    let s = Tetrinome::from_piece(PieceKind::S);
    assert_eq!(coords_of(&s), vec![(2, 0), (3, 0), (1, 1), (2, 1)]);
    assert_eq!(s.pivot, Some(3));
    assert!(s.bones.iter().all(|b| b.color == Color::White));

    let o = Tetrinome::from_piece(PieceKind::O);
    assert_eq!(coords_of(&o), vec![(1, 0), (2, 0), (1, 1), (2, 1)]);
    assert_eq!(o.pivot, None);
    assert!(o.bones.iter().all(|b| b.color == Color::Aqua));
}

#[test]
fn from_layout_parses_width_cells_and_pivot() {
    let p = Tetrinome::from_layout("xx-\nxo-", Color::Red, PieceKind::O);
    assert_eq!(coords_of(&p), vec![(0, 0), (1, 0), (0, 1), (1, 1)]);
    assert_eq!(p.pivot, Some(3));
    assert_eq!(p.kind, PieceKind::O);
}

#[test]
fn from_layout_matches_from_piece() {
    let a = Tetrinome::from_layout("----\nxoxx\n----\n----", Color::Green, PieceKind::I);
    let b = Tetrinome::from_piece(PieceKind::I);
    assert_eq!(coords_of(&a), coords_of(&b));
    assert_eq!(a.pivot, b.pivot);
}

#[test]
fn rotate_i_clockwise_exact() {
    let mut i = Tetrinome::from_piece(PieceKind::I);
    i.rotate(&Rotation::CW);
    assert_eq!(coords_of(&i), vec![(1, 0), (1, 1), (1, 2), (1, 3)]);
}

#[test]
fn rotation_reversible_for_every_kind() {
    for kind in [
        PieceKind::I,
        PieceKind::L,
        PieceKind::J,
        PieceKind::T,
        PieceKind::Z,
        PieceKind::S,
        PieceKind::O,
    ] {
        let original = Tetrinome::from_piece(kind);
        let mut p = Tetrinome::from_piece(kind);
        p.rotate(&Rotation::CW);
        p.rotate(&Rotation::CCW);
        assert_eq!(coords_of(&p), coords_of(&original));
        let mut q = Tetrinome::from_piece(kind);
        q.rotate(&Rotation::CCW);
        q.rotate(&Rotation::CW);
        assert_eq!(coords_of(&q), coords_of(&original));
    }
}

#[test]
fn rotate_without_pivot_is_identity() {
    let mut o = Tetrinome::from_piece(PieceKind::O);
    let before = coords_of(&o);
    o.rotate(&Rotation::CW);
    assert_eq!(coords_of(&o), before);
}

#[test]
fn four_cells_after_any_sequence_of_ops() {
    let mut p = Tetrinome::from_piece(PieceKind::T);
    assert_eq!(p.bones.len(), 4);
    p.trans_change(&Coord { x: 3, y: 2 });
    assert_eq!(p.bones.len(), 4);
    p.rotate(&Rotation::CW);
    assert_eq!(p.bones.len(), 4);
    p.rotate(&Rotation::CW);
    p.trans_change(&Coord { x: -1, y: 1 });
    p.rotate(&Rotation::CCW);
    assert_eq!(p.bones.len(), 4);
}

#[test]
fn translate_shifts_every_cell() {
    let mut p = Tetrinome::from_piece(PieceKind::I);
    p.trans_change(&Coord { x: 4, y: 7 });
    assert_eq!(coords_of(&p), vec![(4, 8), (5, 8), (6, 8), (7, 8)]);
}

#[test]
fn shift_is_pure_and_trans_to_applies() {
    let mut p = Tetrinome::from_piece(PieceKind::I);
    let shifted = p.shift(Coord { x: 1, y: 0 });
    // the piece itself is untouched by shift
    assert_eq!(coords_of(&p), vec![(0, 1), (1, 1), (2, 1), (3, 1)]);
    p.trans_to(shifted);
    assert_eq!(coords_of(&p), vec![(1, 1), (2, 1), (3, 1), (4, 1)]);
}

#[test]
fn width_follows_the_pose() {
    let mut i = Tetrinome::from_piece(PieceKind::I);
    assert_eq!(i.get_width(), 4);
    i.rotate(&Rotation::CW);
    assert_eq!(i.get_width(), 1);
    let t = Tetrinome::from_piece(PieceKind::T);
    assert_eq!(t.get_width(), 3);
}

#[test]
fn bone_new_and_default() {
    let b = Bone::new(Color::Pink, Coord { x: 3, y: 4 });
    assert_eq!(b.color, Color::Pink);
    assert_eq!(b.coord, Coord { x: 3, y: 4 });
    let d = Bone::default();
    assert_eq!(d.color, Color::Black);
    assert_eq!(d.coord, Coord { x: 0, y: 0 });
}

#[test]
fn spawn_lands_in_the_top_band() {
    for _ in 0..50 {
        let p = Tetrinome::new(&GRID_WIDTH);
        assert_eq!(p.bones.len(), 4);
        for b in p.bones.iter() {
            assert!(b.coord.x >= 0 && b.coord.x < GRID_WIDTH);
            assert!(b.coord.y >= -2 && b.coord.y <= 2);
        }
    }
}

#[test]
fn random_x_offset_stays_in_range() {
    for _ in 0..50 {
        let c = Coord::rand_x_offset((4, 6), -1);
        assert!(c.x == 4 || c.x == 5);
        assert_eq!(c.y, -1);
    }
}

#[test]
fn bones_animate_with_the_frame_state() {
    let mut b = Bone::new(Color::Green, Coord { x: 1, y: 2 });
    b.animate(&FrameState::Waiting);
    assert_eq!(b.color, Color::Green);
    b.animate(&FrameState::Ready);
    assert_eq!(b.color, Color::Yellow);
    assert_eq!(b.coord, Coord { x: 1, y: 2 });
    b.clear_animate(&FrameState::Done);
    assert_eq!(b.color, Color::Yellow);
}
