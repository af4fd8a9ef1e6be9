//! The one place the library draws randomness: a trusted wrapper around the
//! rand crate, and the piece-spawning factories built on it. The decisions a
//! draw feeds are verified functions of the drawn value, so every outcome of
//! the generator leads to a proved result.

use vstd::prelude::*;

use crate::piece::{
    anchor_ix, canonical_piece, lemma_canonical_anchor, lemma_rotated_compact,
    lemma_translated_compact, piece_compact, piece_rotated, piece_translated, piece_wf, PieceKind,
    Tetrinome, TETRINOME_SIZE,
};
use crate::primitives::{Coord, Rotation};

verus! {

/// Relies on rand::random_range: a uniformly random value drawn from the
/// half-open range `lo..hi` by the thread-local generator. It panics on an
/// empty range, which the precondition rules out.
#[verifier::external_body]
fn rand_in(lo: i16, hi: i16) -> (r: i16)
    requires
        lo < hi,
    ensures
        lo <= r < hi,
{
    rand::random_range(lo..hi)
}

impl Coord {
    /// A coordinate with a uniformly random x drawn from
    /// `[x_range.0, x_range.1)` and the given y.
    pub fn rand_x_offset(x_range: (i16, i16), y: i16) -> (r: Self)
        requires
            x_range.0 < x_range.1,
        ensures
            x_range.0 <= r.x < x_range.1,
            r.y == y,
    {
        let i = rand_in(x_range.0, x_range.1);
        Coord { x: i, y }
    }
}

impl Rotation {
    /// The rotation step a random draw denotes: 0 turns clockwise, 1
    /// counter-clockwise, anything else not at all.
    pub open spec fn from_draw_spec(i: int) -> Rotation {
        if i == 0 {
            Rotation::CW
        } else if i == 1 {
            Rotation::CCW
        } else {
            Rotation::Still
        }
    }

    /// The rotation step a random draw denotes.
    pub fn from_draw(i: i16) -> (r: Rotation)
        ensures
            r == Rotation::from_draw_spec(i as int),
    {
        match i {
            0 => Rotation::CW,
            1 => Rotation::CCW,
            _ => Rotation::Still,
        }
    }
}

impl PieceKind {
    /// The piece kind a random draw denotes, in the fixed prototype order.
    pub open spec fn from_draw_spec(i: int) -> PieceKind {
        if i == 0 {
            PieceKind::I
        } else if i == 1 {
            PieceKind::O
        } else if i == 2 {
            PieceKind::L
        } else if i == 3 {
            PieceKind::T
        } else if i == 4 {
            PieceKind::Z
        } else if i == 5 {
            PieceKind::S
        } else {
            PieceKind::J
        }
    }

    /// The piece kind a random draw denotes.
    pub fn from_draw(i: i16) -> (r: PieceKind)
        ensures
            r == PieceKind::from_draw_spec(i as int),
    {
        match i {
            0 => PieceKind::I,
            1 => PieceKind::O,
            2 => PieceKind::L,
            3 => PieceKind::T,
            4 => PieceKind::Z,
            5 => PieceKind::S,
            _ => PieceKind::J,
        }
    }
}

impl Tetrinome {
    /// Spawns a random piece at the top of a board `width` units wide: a
    /// uniformly random kind, a uniformly random quarter-turn step (either
    /// way or none) applied about the prototype's pivot before placement,
    /// then a uniformly random horizontal offset within
    /// `[piece size, width - piece size)` at the top row. Whatever the
    /// draws, the result is well formed, compact, and lies fully inside the
    /// board's columns, no lower than row 2 and no higher than two rows
    /// above the board.
    pub fn new(width: &i16) -> (r: Self)
        requires
            *width > 2 * (TETRINOME_SIZE as i16),
        ensures
            piece_wf(r@),
            piece_compact(r@),
            forall|j: int|
                0 <= j < r@.bones.len() ==> 0 <= #[trigger] r@.bones[j].x < *width && -2
                    <= r@.bones[j].y <= 2,
            -1 <= r@.bones[anchor_ix(r@)].y <= 0,
    {
        let kind = PieceKind::from_draw(rand_in(0, 7));
        let mut piece = Tetrinome::from_piece(kind);
        let rot = Rotation::from_draw(rand_in(0, 3));
        proof {
            lemma_canonical_anchor(kind);
        }
        piece.rotate(&rot);
        proof {
            lemma_rotated_compact(canonical_piece(kind), rot);
            let t = piece@;
            assert(t.bones[anchor_ix(t)] == canonical_piece(kind).bones[anchor_ix(
                canonical_piece(kind),
            )]);
        }
        let offset = Coord::rand_x_offset(
            (TETRINOME_SIZE as i16, *width - TETRINOME_SIZE as i16),
            -1,
        );
        proof {
            lemma_translated_compact(piece@, offset.x as int, offset.y as int);
        }
        piece.trans_change(&offset);
        proof {
            let t = piece@;
            let a = t.bones[anchor_ix(t)];
            assert(TETRINOME_SIZE as int + 1 <= a.x <= *width - TETRINOME_SIZE as int + 2);
            assert(-1 <= a.y <= 0);
            assert forall|j: int| 0 <= j < t.bones.len() implies 0 <= #[trigger] t.bones[j].x
                < *width && -2 <= t.bones[j].y <= 2 by {
                assert(-2 <= t.bones[j].x - a.x <= 2);
                assert(-2 <= t.bones[j].y - a.y <= 2);
            }
        }
        piece
    }
}

} // verus!
