//! Pieces (tetrinomes): a cluster of exactly four colored cells ("bones")
//! with an optional pivot cell, supporting translation and pivot-relative
//! quarter-turn rotation by an exact integer transform.

use vstd::prelude::*;

use crate::animation::{Animatable, FrameState};
use crate::primitives::{Color, Coord, Pos, Rotation, NUM_COLORS};

verus! {

/// Number of bones in every piece.
pub const TETRINOME_SIZE: usize = 4;

/// Number of piece kinds.
pub const NUM_PIECES: usize = 7;

/// One colored unit cell, either part of a piece or committed to the board.
#[derive(Clone, Copy, Debug, PartialEq, Eq, Structural)]
pub struct Bone {
    pub color: Color,
    pub coord: Coord,
}

/// The mathematical model of a bone: its color and unbounded coordinates.
pub struct BoneV {
    pub color: Color,
    pub x: int,
    pub y: int,
}

impl View for Bone {
    type V = BoneV;

    open spec fn view(&self) -> BoneV {
        BoneV { color: self.color, x: self.coord.x as int, y: self.coord.y as int }
    }
}

impl Default for Bone {
    fn default() -> (r: Self)
        ensures
            r.color == Color::Black,
            r.coord == (Coord { x: 0, y: 0 }),
    {
        Bone::new(Color::Black, Coord { x: 0, y: 0 })
    }
}

impl Bone {
    /// A bone of the given color at the given coordinate.
    pub fn new(color: Color, coord: Coord) -> (r: Self)
        ensures
            r.color == color,
            r.coord == coord,
    {
        Bone { color, coord }
    }

    /// Advances the wave color exactly when the clear animation reports a
    /// frame boundary; the coordinate never changes.
    pub fn clear_animate(&mut self, state: &FrameState)
        ensures
            final(self).coord == old(self).coord,
            final(self).color == if *state is Ready {
                old(self).color.next_spec()
            } else {
                old(self).color
            },
    {
        if let FrameState::Ready = state {
            self.color = self.color.next_color();
        }
    }
}

impl Animatable for Bone {
    fn animate(&mut self, state: &FrameState) {
        self.clear_animate(state);
    }
}

/// The seven piece kinds; fixed at creation and purely descriptive (it drives
/// the initial layout and color and is not consulted afterward).
#[derive(Clone, Copy, Debug, PartialEq, Eq, Structural)]
pub enum PieceKind {
    L,
    J,
    I,
    T,
    Z,
    S,
    O,
}

/// The mathematical model of a piece: its kind, the models of its bones in
/// order, and the index of the pivot bone, if any.
#[verifier::ext_equal]
pub struct TetV {
    pub kind: PieceKind,
    pub bones: Seq<BoneV>,
    pub pivot: Option<int>,
}

/// A piece is well formed when it has exactly four bones and its pivot, if
/// present, indexes one of them.
pub open spec fn piece_wf(t: TetV) -> bool {
    &&& t.bones.len() == TETRINOME_SIZE
    &&& match t.pivot {
        Some(i) => 0 <= i < t.bones.len(),
        None => true,
    }
}

/// The index of the bone every other bone stays close to: the pivot where
/// there is one, the first bone otherwise.
pub open spec fn anchor_ix(t: TetV) -> int {
    match t.pivot {
        Some(i) => i,
        None => 0,
    }
}

/// Every bone lies within two cells of the anchor bone in each axis. This
/// holds of every canonical layout, is kept exactly by translation, and is
/// kept by quarter-turn rotation because rotation permutes the offset
/// components (up to sign).
pub open spec fn piece_compact(t: TetV) -> bool {
    forall|j: int|
        0 <= j < t.bones.len() ==> {
            let a = t.bones[anchor_ix(t)];
            &&& -2 <= #[trigger] t.bones[j].x - a.x <= 2
            &&& -2 <= t.bones[j].y - a.y <= 2
        }
}

/// A bone translated by `(dx, dy)`.
pub open spec fn bone_shifted(b: BoneV, dx: int, dy: int) -> BoneV {
    BoneV { color: b.color, x: b.x + dx, y: b.y + dy }
}

/// A piece translated by `(dx, dy)`: every bone shifted componentwise.
pub open spec fn piece_translated(t: TetV, dx: int, dy: int) -> TetV {
    TetV { kind: t.kind, pivot: t.pivot, bones: t.bones.map_values(|b: BoneV| bone_shifted(b, dx, dy)) }
}

/// A pivot offset `(dx, dy)` after a quarter turn: CW sends it to
/// `(-dy, dx)`, CCW to `(dy, -dx)`, and no rotation leaves it alone. These
/// are the integer rotation matrices `[[0,-1],[1,0]]` and `[[0,1],[-1,0]]`.
pub open spec fn rotated_offset(rot: Rotation, dx: int, dy: int) -> (int, int) {
    match rot {
        Rotation::CW => (-dy, dx),
        Rotation::CCW => (dy, -dx),
        Rotation::Still => (dx, dy),
    }
}

/// A bone rotated a quarter turn about the pivot bone `p`.
pub open spec fn bone_rotated(b: BoneV, p: BoneV, rot: Rotation) -> BoneV {
    let off = rotated_offset(rot, b.x - p.x, b.y - p.y);
    BoneV { color: b.color, x: p.x + off.0, y: p.y + off.1 }
}

/// A piece rotated about its pivot: the identity for a piece without a pivot
/// or for no rotation; otherwise an exact, lossless integer transform of
/// every bone about the pivot bone.
pub open spec fn piece_rotated(t: TetV, rot: Rotation) -> TetV {
    match t.pivot {
        Some(i) => if rot is Still {
            t
        } else {
            TetV {
                kind: t.kind,
                pivot: t.pivot,
                bones: t.bones.map_values(|b: BoneV| bone_rotated(b, t.bones[i], rot)),
            }
        },
        None => t,
    }
}

/// Whether translating by `(dx, dy)` keeps every bone coordinate within
/// 16-bit range.
pub open spec fn shift_fits(t: TetV, dx: int, dy: int) -> bool {
    forall|j: int|
        0 <= j < t.bones.len() ==> {
            &&& i16::MIN <= #[trigger] t.bones[j].x + dx <= i16::MAX
            &&& i16::MIN <= t.bones[j].y + dy <= i16::MAX
        }
}

/// Whether rotating keeps every bone coordinate within 16-bit range.
pub open spec fn rotate_fits(t: TetV, rot: Rotation) -> bool {
    match t.pivot {
        Some(i) => forall|j: int|
            0 <= j < t.bones.len() ==> {
                let r = #[trigger] bone_rotated(t.bones[j], t.bones[i], rot);
                &&& i16::MIN <= r.x <= i16::MAX
                &&& i16::MIN <= r.y <= i16::MAX
            },
        None => true,
    }
}

/// The largest x coordinate of any bone of a nonempty sequence.
pub open spec fn max_x(bones: Seq<BoneV>) -> int
    decreases bones.len(),
{
    if bones.len() <= 1 {
        bones[0].x
    } else {
        let m = max_x(bones.drop_last());
        if bones.last().x > m {
            bones.last().x
        } else {
            m
        }
    }
}

/// The smallest x coordinate of any bone of a nonempty sequence.
pub open spec fn min_x(bones: Seq<BoneV>) -> int
    decreases bones.len(),
{
    if bones.len() <= 1 {
        bones[0].x
    } else {
        let m = min_x(bones.drop_last());
        if bones.last().x < m {
            bones.last().x
        } else {
            m
        }
    }
}

/// The current width of a piece over its cell coordinates:
/// `max(x) - min(x) + 1`.
pub open spec fn piece_width(t: TetV) -> int {
    max_x(t.bones) - min_x(t.bones) + 1
}

/// `max_x` and `min_x` are attained bounds of the bones' x coordinates.
pub proof fn lemma_max_min_x(bones: Seq<BoneV>)
    requires
        bones.len() >= 1,
    ensures
        forall|j: int| 0 <= j < bones.len() ==> min_x(bones) <= #[trigger] bones[j].x <= max_x(bones),
        exists|j: int| 0 <= j < bones.len() && #[trigger] bones[j].x == max_x(bones),
        exists|j: int| 0 <= j < bones.len() && #[trigger] bones[j].x == min_x(bones),
    decreases bones.len(),
{
    if bones.len() > 1 {
        lemma_max_min_x(bones.drop_last());
        assert forall|j: int| 0 <= j < bones.len() implies min_x(bones) <= #[trigger] bones[j].x
            <= max_x(bones) by {
            if j < bones.len() - 1 {
                assert(bones.drop_last()[j] == bones[j]);
            }
        }
        if bones.last().x > max_x(bones.drop_last()) {
            assert(bones[bones.len() - 1].x == max_x(bones));
        } else {
            let j = choose|j: int|
                0 <= j < bones.drop_last().len() && #[trigger] bones.drop_last()[j].x == max_x(
                    bones.drop_last(),
                );
            assert(bones[j].x == max_x(bones));
        }
        if bones.last().x < min_x(bones.drop_last()) {
            assert(bones[bones.len() - 1].x == min_x(bones));
        } else {
            let j = choose|j: int|
                0 <= j < bones.drop_last().len() && #[trigger] bones.drop_last()[j].x == min_x(
                    bones.drop_last(),
                );
            assert(bones[j].x == min_x(bones));
        }
    } else {
        assert(bones[0].x == max_x(bones));
        assert(bones[0].x == min_x(bones));
    }
}

/// Whether a layout character marks a cell: `x` for a body cell, `o` for
/// the pivot cell.
pub open spec fn is_cell_char(c: char) -> bool {
    c == 'x' || c == 'o'
}

/// The index of the first newline of `s` at or after `i`, or the length of
/// `s` if there is none.
pub open spec fn first_nl_from(s: Seq<char>, i: int) -> int
    decreases s.len() - i,
    when 0 <= i <= s.len()
{
    if i >= s.len() {
        s.len() as int
    } else if s[i] == '\n' {
        i
    } else {
        first_nl_from(s, i + 1)
    }
}

/// The first newline lies between `i` and the length, and is a newline
/// preceded by none.
pub proof fn lemma_first_nl_bounds(s: Seq<char>, i: int)
    requires
        0 <= i <= s.len(),
    ensures
        i <= first_nl_from(s, i) <= s.len(),
        first_nl_from(s, i) < s.len() ==> s[first_nl_from(s, i)] == '\n',
    decreases s.len() - i,
{
    if i < s.len() && s[i] != '\n' {
        lemma_first_nl_bounds(s, i + 1);
    }
}

/// The bones a layout denotes from index `i` on: one bone of the given color
/// per cell character, at the coordinate its linear index denotes in a grid
/// `w` units wide.
pub open spec fn layout_bones(s: Seq<char>, i: int, w: int, color: Color) -> Seq<BoneV>
    decreases s.len() - i,
    when 0 <= i <= s.len()
{
    if i >= s.len() {
        Seq::empty()
    } else if is_cell_char(s[i]) {
        seq![BoneV { color, x: i % w, y: i / w }] + layout_bones(s, i + 1, w, color)
    } else {
        layout_bones(s, i + 1, w, color)
    }
}

/// The pivot a layout denotes from index `i` on, given that `count` cell
/// characters came before `i`: the ordinal of the last `o`, if any.
pub open spec fn layout_pivot(s: Seq<char>, i: int, count: int) -> Option<int>
    decreases s.len() - i,
    when 0 <= i <= s.len()
{
    if i >= s.len() {
        None
    } else if s[i] == 'o' {
        match layout_pivot(s, i + 1, count + 1) {
            Some(p) => Some(p),
            None => Some(count),
        }
    } else if s[i] == 'x' {
        layout_pivot(s, i + 1, count + 1)
    } else {
        layout_pivot(s, i + 1, count)
    }
}

/// The later pivot wins; an earlier candidate stands only where the rest of
/// the layout names none.
pub open spec fn pivot_resolve(suffix: Option<int>, current: Option<int>) -> Option<int> {
    match suffix {
        Some(p) => Some(p),
        None => current,
    }
}

/// A piece pivot index as a mathematical option.
pub open spec fn opt_ix(p: Option<usize>) -> Option<int> {
    match p {
        Some(u) => Some(u as int),
        None => None,
    }
}

/// A four-cell falling shape of a fixed kind: its bones, and the index of the
/// bone it rotates around, absent for the square piece.
#[derive(Debug)]
pub struct Tetrinome {
    pub kind: PieceKind,
    pub bones: Vec<Bone>,
    pub pivot: Option<usize>,
}

impl View for Tetrinome {
    type V = TetV;

    open spec fn view(&self) -> TetV {
        TetV {
            kind: self.kind,
            bones: self.bones@.map_values(|b: Bone| b@),
            pivot: match self.pivot {
                Some(i) => Some(i as int),
                None => None,
            },
        }
    }
}

impl Clone for Tetrinome {
    fn clone(&self) -> (r: Self)
        ensures
            r@ == self@,
    {
        let bones = self.bones.clone();
        proof {
            assert forall|i: int| 0 <= i < bones@.len() implies bones@[i] == self.bones@[i] by {}
            assert(bones@ =~= self.bones@);
            assert(bones@.map_values(|b: Bone| b@) =~= self.bones@.map_values(|b: Bone| b@));
        }
        Tetrinome { kind: self.kind, bones, pivot: self.pivot }
    }
}

impl Tetrinome {
    /// The coordinates of every bone, each translated by `offset`, in bone
    /// order. A pure value transform: the piece itself is unchanged, so
    /// callers can test a shifted pose before applying it.
    pub fn shift(&self, offset: Coord) -> (r: Vec<Coord>)
        requires
            shift_fits(self@, offset.x as int, offset.y as int),
        ensures
            r@.len() == self@.bones.len(),
            forall|j: int|
                0 <= j < r@.len() ==> #[trigger] r@[j].x == self@.bones[j].x + offset.x
                    && r@[j].y == self@.bones[j].y + offset.y,
    {
        let mut out: Vec<Coord> = Vec::new();
        let mut i: usize = 0;
        while i < self.bones.len()
            invariant
                0 <= i <= self.bones.len(),
                out@.len() == i,
                shift_fits(self@, offset.x as int, offset.y as int),
                self@.bones.len() == self.bones@.len(),
                forall|j: int|
                    0 <= j < i ==> #[trigger] out@[j].x == self@.bones[j].x + offset.x
                        && out@[j].y == self@.bones[j].y + offset.y,
            decreases self.bones.len() - i,
        {
            let b = self.bones[i];
            proof {
                assert(i16::MIN <= self@.bones[i as int].x + offset.x <= i16::MAX);
                assert(i16::MIN <= self@.bones[i as int].y + offset.y <= i16::MAX);
            }
            out.push(b.coord.plus(offset));
            proof {
                assert(out@[i as int].x == self@.bones[i as int].x + offset.x);
                assert(out@[i as int].y == self@.bones[i as int].y + offset.y);
            }
            i = i + 1;
        }
        out
    }

    /// Replaces every bone's coordinate with the matching entry of
    /// `new_coords`; colors, kind and pivot are untouched.
    pub fn trans_to(&mut self, new_coords: Vec<Coord>)
        requires
            new_coords@.len() == old(self)@.bones.len(),
        ensures
            final(self)@.kind == old(self)@.kind,
            final(self)@.pivot == old(self)@.pivot,
            final(self)@.bones.len() == old(self)@.bones.len(),
            forall|j: int|
                0 <= j < final(self)@.bones.len() ==> {
                    &&& #[trigger] final(self)@.bones[j].color == old(self)@.bones[j].color
                    &&& final(self)@.bones[j].x == new_coords@[j].x
                    &&& final(self)@.bones[j].y == new_coords@[j].y
                },
    {
        let mut i: usize = 0;
        while i < self.bones.len()
            invariant
                0 <= i <= self.bones.len(),
                self.bones@.len() == old(self).bones@.len(),
                new_coords@.len() == old(self)@.bones.len(),
                self.kind == old(self).kind,
                self.pivot == old(self).pivot,
                forall|j: int|
                    i <= j < self.bones@.len() ==> #[trigger] self.bones@[j] == old(self).bones@[j],
                forall|j: int|
                    0 <= j < i ==> {
                        &&& #[trigger] self.bones@[j].color == old(self).bones@[j].color
                        &&& self.bones@[j].coord == new_coords@[j]
                    },
            decreases self.bones.len() - i,
        {
            let color = self.bones[i].color;
            self.bones.set(i, Bone { color, coord: new_coords[i] });
            i = i + 1;
        }
    }

    /// Translates the piece in place by `offset`.
    pub fn trans_change(&mut self, offset: &Coord)
        requires
            shift_fits(old(self)@, offset.x as int, offset.y as int),
        ensures
            final(self)@ == piece_translated(old(self)@, offset.x as int, offset.y as int),
    {
        let new_coords = self.shift(*offset);
        let ghost ncs = new_coords@;
        self.trans_to(new_coords);
        proof {
            let dx = offset.x as int;
            let dy = offset.y as int;
            let target = piece_translated(old(self)@, dx, dy);
            assert forall|j: int| 0 <= j < self@.bones.len() implies self@.bones[j]
                == target.bones[j] by {
                assert(self@.bones[j].color == old(self)@.bones[j].color);
                assert(ncs[j].x == old(self)@.bones[j].x + dx);
                assert(ncs[j].y == old(self)@.bones[j].y + dy);
                assert(target.bones[j] == bone_shifted(old(self)@.bones[j], dx, dy));
            }
            assert(self@.bones =~= target.bones);
            assert(self@ =~= target);
        }
    }

    /// The coordinates of every bone, in bone order.
    pub fn get_coords(&self) -> (r: Vec<Coord>)
        ensures
            r@.len() == self.bones@.len(),
            forall|j: int| 0 <= j < r@.len() ==> #[trigger] r@[j] == self.bones@[j].coord,
    {
        let mut out: Vec<Coord> = Vec::new();
        let mut i: usize = 0;
        while i < self.bones.len()
            invariant
                0 <= i <= self.bones.len(),
                out@.len() == i,
                forall|j: int| 0 <= j < i ==> #[trigger] out@[j] == self.bones@[j].coord,
            decreases self.bones.len() - i,
        {
            out.push(self.bones[i].coord);
            i = i + 1;
        }
        out
    }

    /// Rotates the piece in place about its pivot bone: the exact integer
    /// quarter-turn transform, the identity when there is no pivot or no
    /// rotation was asked for.
    pub fn rotate(&mut self, rot: &Rotation)
        requires
            piece_wf(old(self)@),
            rotate_fits(old(self)@, *rot),
        ensures
            final(self)@ == piece_rotated(old(self)@, *rot),
    {
        if let Some(pivot_i) = self.pivot {
            let pivot = self.bones[pivot_i];
            match rot {
                Rotation::Still => {},
                _ => {
                    let mut i: usize = 0;
                    while i < self.bones.len()
                        invariant
                            0 <= i <= self.bones.len(),
                            piece_wf(old(self)@),
                            rotate_fits(old(self)@, *rot),
                            !(*rot is Still),
                            old(self).pivot == Some(pivot_i),
                            pivot == old(self).bones@[pivot_i as int],
                            self.bones@.len() == old(self).bones@.len(),
                            self.kind == old(self).kind,
                            self.pivot == old(self).pivot,
                            forall|j: int|
                                i <= j < self.bones@.len() ==> #[trigger] self.bones@[j] == old(
                                    self,
                                ).bones@[j],
                            forall|j: int|
                                0 <= j < i ==> #[trigger] self.bones@[j]@ == bone_rotated(
                                    old(self)@.bones[j],
                                    old(self)@.bones[pivot_i as int],
                                    *rot,
                                ),
                        decreases self.bones.len() - i,
                    {
                        let b = self.bones[i];
                        let dx = b.coord.x as i32 - pivot.coord.x as i32;
                        let dy = b.coord.y as i32 - pivot.coord.y as i32;
                        let (ox, oy) = match rot {
                            Rotation::CW => (-dy, dx),
                            _ => (dy, -dx),
                        };
                        let nx = pivot.coord.x as i32 + ox;
                        let ny = pivot.coord.y as i32 + oy;
                        proof {
                            assert(bone_rotated(
                                old(self)@.bones[i as int],
                                old(self)@.bones[pivot_i as int],
                                *rot,
                            ).x == nx as int);
                            assert(bone_rotated(
                                old(self)@.bones[i as int],
                                old(self)@.bones[pivot_i as int],
                                *rot,
                            ).y == ny as int);
                        }
                        self.bones.set(
                            i,
                            Bone { color: b.color, coord: Coord { x: nx as i16, y: ny as i16 } },
                        );
                        i = i + 1;
                    }
                    proof {
                        assert(self@.bones =~= piece_rotated(old(self)@, *rot).bones);
                    }
                },
            }
        }
    }
}

impl Tetrinome {
    /// The width of the piece over its current cell coordinates:
    /// `max(x) - min(x) + 1`; used to size the wall-kick retry distance.
    pub fn get_width(&self) -> (r: i16)
        requires
            self@.bones.len() >= 1,
            piece_compact(self@),
        ensures
            r == piece_width(self@),
            1 <= r <= 5,
    {
        proof {
            lemma_max_min_x(self@.bones);
        }
        let ghost s = self@.bones;
        let ghost a = self@.bones[anchor_ix(self@)];
        let mut mx: i16 = self.bones[0].coord.x;
        let mut mn: i16 = self.bones[0].coord.x;
        proof {
            assert(s.take(1).drop_last() =~= s.take(0));
            assert(s.take(1).last() == s[0]);
            assert(a.x - 2 <= s[0].x <= a.x + 2);
        }
        let mut i: usize = 1;
        while i < self.bones.len()
            invariant
                1 <= i <= self.bones.len(),
                self.bones@.len() == s.len(),
                s == self@.bones,
                a == self@.bones[anchor_ix(self@)],
                piece_compact(self@),
                mx == max_x(s.take(i as int)),
                mn == min_x(s.take(i as int)),
                a.x - 2 <= mn <= mx <= a.x + 2,
            decreases self.bones.len() - i,
        {
            let x = self.bones[i].coord.x;
            proof {
                assert(s.take(i as int + 1).drop_last() =~= s.take(i as int));
                assert(s.take(i as int + 1).last() == s[i as int]);
                assert(a.x - 2 <= s[i as int].x <= a.x + 2);
            }
            if x > mx {
                mx = x;
            }
            if x < mn {
                mn = x;
            }
            i = i + 1;
        }
        proof {
            assert(s.take(s.len() as int) =~= s);
        }
        mx - mn + 1
    }
}


impl Tetrinome {
    /// Builds a piece from an ASCII layout: rows separated by newlines, `x`
    /// for a body cell, `o` for the pivot cell, anything else empty. The
    /// grid's width in units is one more than the index of the first newline;
    /// each cell character's linear index denotes its coordinate.
    pub fn from_layout(layout: &str, color: Color, kind: PieceKind) -> (r: Self)
        requires
            layout@.len() < 0x7fff,
            first_nl_from(layout@, 0) < layout@.len(),
            layout_bones(layout@, 0, first_nl_from(layout@, 0) + 1, color).len()
                == TETRINOME_SIZE,
        ensures
            r@.kind == kind,
            r@.bones == layout_bones(layout@, 0, first_nl_from(layout@, 0) + 1, color),
            r@.pivot == layout_pivot(layout@, 0, 0),
            piece_wf(r@),
    {
        let ghost s = layout@;
        let n = layout.unicode_len();
        proof {
            lemma_first_nl_bounds(s, 0);
        }
        let mut k: usize = 0;
        while layout.get_char(k) != '\n'
            invariant
                s == layout@,
                n == s.len(),
                first_nl_from(s, 0) < s.len(),
                0 <= k <= first_nl_from(s, 0),
                first_nl_from(s, k as int) == first_nl_from(s, 0),
            decreases s.len() - k,
        {
            proof {
                lemma_first_nl_bounds(s, k as int + 1);
            }
            k = k + 1;
        }
        proof {
            assert(first_nl_from(s, k as int) == k as int);
        }
        // width in units, not indices: one more than the newline's index
        let w: i16 = (k + 1) as i16;
        let ghost wi = w as int;

        let mut bones: Vec<Bone> = Vec::new();
        let mut pivot: Option<usize> = None;
        let mut i: usize = 0;
        while i < n
            invariant
                s == layout@,
                n == s.len(),
                n < 0x7fff,
                wi == first_nl_from(s, 0) + 1,
                w == wi,
                1 <= wi,
                0 <= i <= n,
                bones@.len() <= i,
                bones@.map_values(|b: Bone| b@) + layout_bones(s, i as int, wi, color)
                    == layout_bones(s, 0, wi, color),
                pivot_resolve(layout_pivot(s, i as int, bones@.len() as int), opt_ix(pivot))
                    == layout_pivot(s, 0, 0),
                match pivot {
                    Some(p) => p < bones@.len(),
                    None => true,
                },
            decreases n - i,
        {
            let ghost pre = bones@.map_values(|b: Bone| b@);
            let c = layout.get_char(i);
            if c == 'x' || c == 'o' {
                let bone = Bone::new(color, Pos::from_index(i).pos_to_coord(w));
                bones.push(bone);
                if c == 'o' {
                    pivot = Some(bones.len() - 1);
                }
                proof {
                    let bv = BoneV { color, x: i as int % wi, y: i as int / wi };
                    assert(bone@ == bv);
                    assert(layout_bones(s, i as int, wi, color) == seq![bv] + layout_bones(
                        s,
                        i as int + 1,
                        wi,
                        color,
                    ));
                    assert(bones@.map_values(|b: Bone| b@) =~= pre.push(bv));
                    assert(pre.push(bv) + layout_bones(s, i as int + 1, wi, color) =~= pre + (
                    seq![bv] + layout_bones(s, i as int + 1, wi, color)));
                    assert(bones@.map_values(|b: Bone| b@) + layout_bones(
                        s,
                        i as int + 1,
                        wi,
                        color,
                    ) == layout_bones(s, 0, wi, color));
                }
            }
            i = i + 1;
        }
        proof {
            assert(layout_bones(s, n as int, wi, color) =~= Seq::<BoneV>::empty());
            assert(bones@.map_values(|b: Bone| b@) + layout_bones(s, n as int, wi, color)
                =~= bones@.map_values(|b: Bone| b@));
            assert(layout_pivot(s, n as int, bones@.len() as int) is None);
        }
        let r = Tetrinome { kind, bones, pivot };
        proof {
            assert(r@.bones == layout_bones(s, 0, wi, color));
        }
        r
    }
}


/// The canonical prototype of each kind, as parsed from its fixed layout:
/// its color, its four bone coordinates in layout order, and its pivot bone
/// (absent for the square piece).
pub open spec fn canonical_piece(kind: PieceKind) -> TetV {
    match kind {
        PieceKind::I => TetV {
            kind: PieceKind::I,
            bones: seq![
                BoneV { color: Color::Green, x: 0, y: 1 },
                BoneV { color: Color::Green, x: 1, y: 1 },
                BoneV { color: Color::Green, x: 2, y: 1 },
                BoneV { color: Color::Green, x: 3, y: 1 },
            ],
            pivot: Some(1int),
        },
        PieceKind::L => TetV {
            kind: PieceKind::L,
            bones: seq![
                BoneV { color: Color::Yellow, x: 2, y: 0 },
                BoneV { color: Color::Yellow, x: 0, y: 1 },
                BoneV { color: Color::Yellow, x: 1, y: 1 },
                BoneV { color: Color::Yellow, x: 2, y: 1 },
            ],
            pivot: Some(2int),
        },
        PieceKind::J => TetV {
            kind: PieceKind::J,
            bones: seq![
                BoneV { color: Color::Red, x: 0, y: 0 },
                BoneV { color: Color::Red, x: 0, y: 1 },
                BoneV { color: Color::Red, x: 1, y: 1 },
                BoneV { color: Color::Red, x: 2, y: 1 },
            ],
            pivot: Some(2int),
        },
        PieceKind::T => TetV {
            kind: PieceKind::T,
            bones: seq![
                BoneV { color: Color::Blue, x: 2, y: 0 },
                BoneV { color: Color::Blue, x: 1, y: 1 },
                BoneV { color: Color::Blue, x: 2, y: 1 },
                BoneV { color: Color::Blue, x: 3, y: 1 },
            ],
            pivot: Some(2int),
        },
        PieceKind::Z => TetV {
            kind: PieceKind::Z,
            bones: seq![
                BoneV { color: Color::Pink, x: 0, y: 0 },
                BoneV { color: Color::Pink, x: 1, y: 0 },
                BoneV { color: Color::Pink, x: 1, y: 1 },
                BoneV { color: Color::Pink, x: 2, y: 1 },
            ],
            pivot: Some(2int),
        },
        PieceKind::S => TetV {
            kind: PieceKind::S,
            bones: seq![
                BoneV { color: Color::White, x: 2, y: 0 },
                BoneV { color: Color::White, x: 3, y: 0 },
                BoneV { color: Color::White, x: 1, y: 1 },
                BoneV { color: Color::White, x: 2, y: 1 },
            ],
            pivot: Some(3int),
        },
        PieceKind::O => TetV {
            kind: PieceKind::O,
            bones: seq![
                BoneV { color: Color::Aqua, x: 1, y: 0 },
                BoneV { color: Color::Aqua, x: 2, y: 0 },
                BoneV { color: Color::Aqua, x: 1, y: 1 },
                BoneV { color: Color::Aqua, x: 2, y: 1 },
            ],
            pivot: None,
        },
    }
}

impl Tetrinome {
    /// The I prototype, parsed from its layout.
    #[verifier::rlimit(100)]
    #[verifier::spinoff_prover]
    fn proto_i() -> (r: Self)
        ensures
            r@ == canonical_piece(PieceKind::I),
    {
        let lit = "----\nxoxx\n----\n----";
        proof {
            reveal_strlit("----\nxoxx\n----\n----");
            assert(lit@.len() == 19);
            reveal_with_fuel(first_nl_from, 21);
            assert(first_nl_from(lit@, 0) == 4);
            reveal_with_fuel(layout_pivot, 21);
            assert(layout_pivot(lit@, 0, 0) == Some(1int));
            reveal_with_fuel(layout_bones, 21);
            assert(layout_bones(lit@, 9, 5, Color::Green) =~= Seq::<BoneV>::empty());
            assert(layout_bones(lit@, 8, 5, Color::Green) =~= seq![BoneV { color: Color::Green, x: 3, y: 1 }]);
            assert(layout_bones(lit@, 7, 5, Color::Green) =~= seq![BoneV { color: Color::Green, x: 2, y: 1 }, BoneV { color: Color::Green, x: 3, y: 1 }]);
            assert(layout_bones(lit@, 6, 5, Color::Green) =~= seq![BoneV { color: Color::Green, x: 1, y: 1 }, BoneV { color: Color::Green, x: 2, y: 1 }, BoneV { color: Color::Green, x: 3, y: 1 }]);
            assert(layout_bones(lit@, 5, 5, Color::Green) =~= seq![BoneV { color: Color::Green, x: 0, y: 1 }, BoneV { color: Color::Green, x: 1, y: 1 }, BoneV { color: Color::Green, x: 2, y: 1 }, BoneV { color: Color::Green, x: 3, y: 1 }]);
            assert(layout_bones(lit@, 0, 5, Color::Green) =~= seq![BoneV { color: Color::Green, x: 0, y: 1 }, BoneV { color: Color::Green, x: 1, y: 1 }, BoneV { color: Color::Green, x: 2, y: 1 }, BoneV { color: Color::Green, x: 3, y: 1 }]);
        }
        let r = Self::from_layout(lit, Color::Green, PieceKind::I);
        proof {
            assert(r@ =~= canonical_piece(PieceKind::I));
        }
        r
    }

    /// The L prototype, parsed from its layout.
    #[verifier::rlimit(100)]
    #[verifier::spinoff_prover]
    fn proto_l() -> (r: Self)
        ensures
            r@ == canonical_piece(PieceKind::L),
    {
        let lit = "--x-\nxox-\n----\n----";
        proof {
            reveal_strlit("--x-\nxox-\n----\n----");
            assert(lit@.len() == 19);
            reveal_with_fuel(first_nl_from, 21);
            assert(first_nl_from(lit@, 0) == 4);
            reveal_with_fuel(layout_pivot, 21);
            assert(layout_pivot(lit@, 0, 0) == Some(2int));
            reveal_with_fuel(layout_bones, 21);
            assert(layout_bones(lit@, 8, 5, Color::Yellow) =~= Seq::<BoneV>::empty());
            assert(layout_bones(lit@, 7, 5, Color::Yellow) =~= seq![BoneV { color: Color::Yellow, x: 2, y: 1 }]);
            assert(layout_bones(lit@, 6, 5, Color::Yellow) =~= seq![BoneV { color: Color::Yellow, x: 1, y: 1 }, BoneV { color: Color::Yellow, x: 2, y: 1 }]);
            assert(layout_bones(lit@, 5, 5, Color::Yellow) =~= seq![BoneV { color: Color::Yellow, x: 0, y: 1 }, BoneV { color: Color::Yellow, x: 1, y: 1 }, BoneV { color: Color::Yellow, x: 2, y: 1 }]);
            assert(layout_bones(lit@, 2, 5, Color::Yellow) =~= seq![BoneV { color: Color::Yellow, x: 2, y: 0 }, BoneV { color: Color::Yellow, x: 0, y: 1 }, BoneV { color: Color::Yellow, x: 1, y: 1 }, BoneV { color: Color::Yellow, x: 2, y: 1 }]);
            assert(layout_bones(lit@, 0, 5, Color::Yellow) =~= seq![BoneV { color: Color::Yellow, x: 2, y: 0 }, BoneV { color: Color::Yellow, x: 0, y: 1 }, BoneV { color: Color::Yellow, x: 1, y: 1 }, BoneV { color: Color::Yellow, x: 2, y: 1 }]);
        }
        let r = Self::from_layout(lit, Color::Yellow, PieceKind::L);
        proof {
            assert(r@ =~= canonical_piece(PieceKind::L));
        }
        r
    }

    /// The J prototype, parsed from its layout.
    #[verifier::rlimit(100)]
    #[verifier::spinoff_prover]
    fn proto_j() -> (r: Self)
        ensures
            r@ == canonical_piece(PieceKind::J),
    {
        let lit = "x---\nxox-\n----\n----";
        proof {
            reveal_strlit("x---\nxox-\n----\n----");
            assert(lit@.len() == 19);
            reveal_with_fuel(first_nl_from, 21);
            assert(first_nl_from(lit@, 0) == 4);
            reveal_with_fuel(layout_pivot, 21);
            assert(layout_pivot(lit@, 0, 0) == Some(2int));
            reveal_with_fuel(layout_bones, 21);
            assert(layout_bones(lit@, 8, 5, Color::Red) =~= Seq::<BoneV>::empty());
            assert(layout_bones(lit@, 7, 5, Color::Red) =~= seq![BoneV { color: Color::Red, x: 2, y: 1 }]);
            assert(layout_bones(lit@, 6, 5, Color::Red) =~= seq![BoneV { color: Color::Red, x: 1, y: 1 }, BoneV { color: Color::Red, x: 2, y: 1 }]);
            assert(layout_bones(lit@, 5, 5, Color::Red) =~= seq![BoneV { color: Color::Red, x: 0, y: 1 }, BoneV { color: Color::Red, x: 1, y: 1 }, BoneV { color: Color::Red, x: 2, y: 1 }]);
            assert(layout_bones(lit@, 0, 5, Color::Red) =~= seq![BoneV { color: Color::Red, x: 0, y: 0 }, BoneV { color: Color::Red, x: 0, y: 1 }, BoneV { color: Color::Red, x: 1, y: 1 }, BoneV { color: Color::Red, x: 2, y: 1 }]);
            assert(layout_bones(lit@, 0, 5, Color::Red) =~= seq![BoneV { color: Color::Red, x: 0, y: 0 }, BoneV { color: Color::Red, x: 0, y: 1 }, BoneV { color: Color::Red, x: 1, y: 1 }, BoneV { color: Color::Red, x: 2, y: 1 }]);
        }
        let r = Self::from_layout(lit, Color::Red, PieceKind::J);
        proof {
            assert(r@ =~= canonical_piece(PieceKind::J));
        }
        r
    }

    /// The T prototype, parsed from its layout.
    #[verifier::rlimit(100)]
    #[verifier::spinoff_prover]
    fn proto_t() -> (r: Self)
        ensures
            r@ == canonical_piece(PieceKind::T),
    {
        let lit = "--x-\n-xox\n----\n----";
        proof {
            reveal_strlit("--x-\n-xox\n----\n----");
            assert(lit@.len() == 19);
            reveal_with_fuel(first_nl_from, 21);
            assert(first_nl_from(lit@, 0) == 4);
            reveal_with_fuel(layout_pivot, 21);
            assert(layout_pivot(lit@, 0, 0) == Some(2int));
            reveal_with_fuel(layout_bones, 21);
            assert(layout_bones(lit@, 9, 5, Color::Blue) =~= Seq::<BoneV>::empty());
            assert(layout_bones(lit@, 8, 5, Color::Blue) =~= seq![BoneV { color: Color::Blue, x: 3, y: 1 }]);
            assert(layout_bones(lit@, 7, 5, Color::Blue) =~= seq![BoneV { color: Color::Blue, x: 2, y: 1 }, BoneV { color: Color::Blue, x: 3, y: 1 }]);
            assert(layout_bones(lit@, 6, 5, Color::Blue) =~= seq![BoneV { color: Color::Blue, x: 1, y: 1 }, BoneV { color: Color::Blue, x: 2, y: 1 }, BoneV { color: Color::Blue, x: 3, y: 1 }]);
            assert(layout_bones(lit@, 2, 5, Color::Blue) =~= seq![BoneV { color: Color::Blue, x: 2, y: 0 }, BoneV { color: Color::Blue, x: 1, y: 1 }, BoneV { color: Color::Blue, x: 2, y: 1 }, BoneV { color: Color::Blue, x: 3, y: 1 }]);
            assert(layout_bones(lit@, 0, 5, Color::Blue) =~= seq![BoneV { color: Color::Blue, x: 2, y: 0 }, BoneV { color: Color::Blue, x: 1, y: 1 }, BoneV { color: Color::Blue, x: 2, y: 1 }, BoneV { color: Color::Blue, x: 3, y: 1 }]);
        }
        let r = Self::from_layout(lit, Color::Blue, PieceKind::T);
        proof {
            assert(r@ =~= canonical_piece(PieceKind::T));
        }
        r
    }

    /// The Z prototype, parsed from its layout.
    #[verifier::rlimit(100)]
    #[verifier::spinoff_prover]
    fn proto_z() -> (r: Self)
        ensures
            r@ == canonical_piece(PieceKind::Z),
    {
        let lit = "xx--\n-ox-\n----\n----";
        proof {
            reveal_strlit("xx--\n-ox-\n----\n----");
            assert(lit@.len() == 19);
            reveal_with_fuel(first_nl_from, 21);
            assert(first_nl_from(lit@, 0) == 4);
            reveal_with_fuel(layout_pivot, 21);
            assert(layout_pivot(lit@, 0, 0) == Some(2int));
            reveal_with_fuel(layout_bones, 21);
            assert(layout_bones(lit@, 8, 5, Color::Pink) =~= Seq::<BoneV>::empty());
            assert(layout_bones(lit@, 7, 5, Color::Pink) =~= seq![BoneV { color: Color::Pink, x: 2, y: 1 }]);
            assert(layout_bones(lit@, 6, 5, Color::Pink) =~= seq![BoneV { color: Color::Pink, x: 1, y: 1 }, BoneV { color: Color::Pink, x: 2, y: 1 }]);
            assert(layout_bones(lit@, 1, 5, Color::Pink) =~= seq![BoneV { color: Color::Pink, x: 1, y: 0 }, BoneV { color: Color::Pink, x: 1, y: 1 }, BoneV { color: Color::Pink, x: 2, y: 1 }]);
            assert(layout_bones(lit@, 0, 5, Color::Pink) =~= seq![BoneV { color: Color::Pink, x: 0, y: 0 }, BoneV { color: Color::Pink, x: 1, y: 0 }, BoneV { color: Color::Pink, x: 1, y: 1 }, BoneV { color: Color::Pink, x: 2, y: 1 }]);
            assert(layout_bones(lit@, 0, 5, Color::Pink) =~= seq![BoneV { color: Color::Pink, x: 0, y: 0 }, BoneV { color: Color::Pink, x: 1, y: 0 }, BoneV { color: Color::Pink, x: 1, y: 1 }, BoneV { color: Color::Pink, x: 2, y: 1 }]);
        }
        let r = Self::from_layout(lit, Color::Pink, PieceKind::Z);
        proof {
            assert(r@ =~= canonical_piece(PieceKind::Z));
        }
        r
    }

    /// The S prototype, parsed from its layout.
    #[verifier::rlimit(100)]
    #[verifier::spinoff_prover]
    fn proto_s() -> (r: Self)
        ensures
            r@ == canonical_piece(PieceKind::S),
    {
        let lit = "--xx\n-xo-\n----\n----";
        proof {
            reveal_strlit("--xx\n-xo-\n----\n----");
            assert(lit@.len() == 19);
            reveal_with_fuel(first_nl_from, 21);
            assert(first_nl_from(lit@, 0) == 4);
            reveal_with_fuel(layout_pivot, 21);
            assert(layout_pivot(lit@, 0, 0) == Some(3int));
            reveal_with_fuel(layout_bones, 21);
            assert(layout_bones(lit@, 8, 5, Color::White) =~= Seq::<BoneV>::empty());
            assert(layout_bones(lit@, 7, 5, Color::White) =~= seq![BoneV { color: Color::White, x: 2, y: 1 }]);
            assert(layout_bones(lit@, 6, 5, Color::White) =~= seq![BoneV { color: Color::White, x: 1, y: 1 }, BoneV { color: Color::White, x: 2, y: 1 }]);
            assert(layout_bones(lit@, 3, 5, Color::White) =~= seq![BoneV { color: Color::White, x: 3, y: 0 }, BoneV { color: Color::White, x: 1, y: 1 }, BoneV { color: Color::White, x: 2, y: 1 }]);
            assert(layout_bones(lit@, 2, 5, Color::White) =~= seq![BoneV { color: Color::White, x: 2, y: 0 }, BoneV { color: Color::White, x: 3, y: 0 }, BoneV { color: Color::White, x: 1, y: 1 }, BoneV { color: Color::White, x: 2, y: 1 }]);
            assert(layout_bones(lit@, 0, 5, Color::White) =~= seq![BoneV { color: Color::White, x: 2, y: 0 }, BoneV { color: Color::White, x: 3, y: 0 }, BoneV { color: Color::White, x: 1, y: 1 }, BoneV { color: Color::White, x: 2, y: 1 }]);
        }
        let r = Self::from_layout(lit, Color::White, PieceKind::S);
        proof {
            assert(r@ =~= canonical_piece(PieceKind::S));
        }
        r
    }

    /// The O prototype, parsed from its layout.
    #[verifier::rlimit(100)]
    #[verifier::spinoff_prover]
    fn proto_o() -> (r: Self)
        ensures
            r@ == canonical_piece(PieceKind::O),
    {
        let lit = "-xx-\n-xx-\n----\n----";
        proof {
            reveal_strlit("-xx-\n-xx-\n----\n----");
            assert(lit@.len() == 19);
            reveal_with_fuel(first_nl_from, 21);
            assert(first_nl_from(lit@, 0) == 4);
            reveal_with_fuel(layout_pivot, 21);
            assert(layout_pivot(lit@, 0, 0) is None);
            reveal_with_fuel(layout_bones, 21);
            assert(layout_bones(lit@, 8, 5, Color::Aqua) =~= Seq::<BoneV>::empty());
            assert(layout_bones(lit@, 7, 5, Color::Aqua) =~= seq![BoneV { color: Color::Aqua, x: 2, y: 1 }]);
            assert(layout_bones(lit@, 6, 5, Color::Aqua) =~= seq![BoneV { color: Color::Aqua, x: 1, y: 1 }, BoneV { color: Color::Aqua, x: 2, y: 1 }]);
            assert(layout_bones(lit@, 2, 5, Color::Aqua) =~= seq![BoneV { color: Color::Aqua, x: 2, y: 0 }, BoneV { color: Color::Aqua, x: 1, y: 1 }, BoneV { color: Color::Aqua, x: 2, y: 1 }]);
            assert(layout_bones(lit@, 1, 5, Color::Aqua) =~= seq![BoneV { color: Color::Aqua, x: 1, y: 0 }, BoneV { color: Color::Aqua, x: 2, y: 0 }, BoneV { color: Color::Aqua, x: 1, y: 1 }, BoneV { color: Color::Aqua, x: 2, y: 1 }]);
            assert(layout_bones(lit@, 0, 5, Color::Aqua) =~= seq![BoneV { color: Color::Aqua, x: 1, y: 0 }, BoneV { color: Color::Aqua, x: 2, y: 0 }, BoneV { color: Color::Aqua, x: 1, y: 1 }, BoneV { color: Color::Aqua, x: 2, y: 1 }]);
        }
        let r = Self::from_layout(lit, Color::Aqua, PieceKind::O);
        proof {
            assert(r@ =~= canonical_piece(PieceKind::O));
        }
        r
    }

    /// The canonical prototype of a kind, built from its fixed ASCII layout.
    pub fn from_piece(kind: PieceKind) -> (r: Self)
        ensures
            r@ == canonical_piece(kind),
            piece_wf(r@),
            piece_compact(r@),
    {
        let r = match kind {
            PieceKind::I => Self::proto_i(),
            PieceKind::L => Self::proto_l(),
            PieceKind::J => Self::proto_j(),
            PieceKind::T => Self::proto_t(),
            PieceKind::Z => Self::proto_z(),
            PieceKind::S => Self::proto_s(),
            PieceKind::O => Self::proto_o(),
        };
        proof {
            assert(piece_wf(r@));
            assert(piece_compact(r@));
        }
        r
    }
}

/// The largest y coordinate of any bone of a nonempty sequence.
pub open spec fn max_y(bones: Seq<BoneV>) -> int
    decreases bones.len(),
{
    if bones.len() <= 1 {
        bones[0].y
    } else {
        let m = max_y(bones.drop_last());
        if bones.last().y > m {
            bones.last().y
        } else {
            m
        }
    }
}

/// `max_y` is an attained bound of the bones' y coordinates.
pub proof fn lemma_max_y(bones: Seq<BoneV>)
    requires
        bones.len() >= 1,
    ensures
        forall|j: int| 0 <= j < bones.len() ==> #[trigger] bones[j].y <= max_y(bones),
        exists|j: int| 0 <= j < bones.len() && #[trigger] bones[j].y == max_y(bones),
    decreases bones.len(),
{
    if bones.len() > 1 {
        lemma_max_y(bones.drop_last());
        assert forall|j: int| 0 <= j < bones.len() implies #[trigger] bones[j].y <= max_y(
            bones,
        ) by {
            if j < bones.len() - 1 {
                assert(bones.drop_last()[j] == bones[j]);
            }
        }
        if bones.last().y > max_y(bones.drop_last()) {
            assert(bones[bones.len() - 1].y == max_y(bones));
        } else {
            let j = choose|j: int|
                0 <= j < bones.drop_last().len() && #[trigger] bones.drop_last()[j].y == max_y(
                    bones.drop_last(),
                );
            assert(bones[j].y == max_y(bones));
        }
    } else {
        assert(bones[0].y == max_y(bones));
    }
}

/// Translating by nothing changes nothing.
pub proof fn lemma_translate_zero(t: TetV)
    ensures
        piece_translated(t, 0, 0) == t,
{
    assert(piece_translated(t, 0, 0).bones =~= t.bones);
    assert(piece_translated(t, 0, 0) =~= t);
}

/// Two translations compose by adding their offsets.
pub proof fn lemma_translate_compose(t: TetV, dx1: int, dy1: int, dx2: int, dy2: int)
    ensures
        piece_translated(piece_translated(t, dx1, dy1), dx2, dy2) == piece_translated(
            t,
            dx1 + dx2,
            dy1 + dy2,
        ),
{
    let a = piece_translated(piece_translated(t, dx1, dy1), dx2, dy2);
    let b = piece_translated(t, dx1 + dx2, dy1 + dy2);
    assert forall|j: int| 0 <= j < a.bones.len() implies a.bones[j] == b.bones[j] by {
        assert(piece_translated(t, dx1, dy1).bones[j] == bone_shifted(t.bones[j], dx1, dy1));
    }
    assert(a.bones =~= b.bones);
    assert(a =~= b);
}

/// Rotation reversibility: a quarter turn one way followed by a quarter turn
/// the other way restores every bone coordinate exactly, for every piece,
/// with or without a pivot.
pub proof fn lemma_rotate_reversible(t: TetV, rot: Rotation)
    requires
        piece_wf(t),
    ensures
        piece_rotated(piece_rotated(t, rot), rot.inverse_spec()) == t,
{
    match t.pivot {
        Some(i) => {
            if rot is Still {
            } else {
                let u = piece_rotated(t, rot);
                let p = t.bones[i];
                assert(u.bones[i] == bone_rotated(p, p, rot));
                assert(u.bones[i] == p);
                let v = piece_rotated(u, rot.inverse_spec());
                assert forall|j: int| 0 <= j < t.bones.len() implies v.bones[j] == t.bones[j] by {
                    assert(u.bones[j] == bone_rotated(t.bones[j], p, rot));
                    assert(v.bones[j] == bone_rotated(u.bones[j], p, rot.inverse_spec()));
                }
                assert(v.bones =~= t.bones);
                assert(v =~= t);
            }
        },
        None => {},
    }
}

/// Cell-count invariant: translation and rotation never change the number of
/// bones of a piece, so a well-formed piece keeps exactly its four cells
/// under any sequence of the two operations.
pub proof fn lemma_ops_preserve_wf(t: TetV, dx: int, dy: int, rot: Rotation)
    ensures
        piece_translated(t, dx, dy).bones.len() == t.bones.len(),
        piece_rotated(t, rot).bones.len() == t.bones.len(),
        piece_wf(t) ==> piece_wf(piece_translated(t, dx, dy)),
        piece_wf(t) ==> piece_wf(piece_rotated(t, rot)),
{
}

/// Translation moves every bone equally, so the compactness bound around the
/// anchor bone is kept exactly.
pub proof fn lemma_translated_compact(t: TetV, dx: int, dy: int)
    requires
        piece_wf(t),
        piece_compact(t),
    ensures
        piece_compact(piece_translated(t, dx, dy)),
{
    let u = piece_translated(t, dx, dy);
    assert forall|j: int| 0 <= j < u.bones.len() implies {
        let a = u.bones[anchor_ix(u)];
        -2 <= #[trigger] u.bones[j].x - a.x <= 2 && -2 <= u.bones[j].y - a.y <= 2
    } by {
        assert(anchor_ix(u) == anchor_ix(t));
        assert(u.bones[anchor_ix(u)] == bone_shifted(t.bones[anchor_ix(t)], dx, dy));
        assert(u.bones[j] == bone_shifted(t.bones[j], dx, dy));
        assert(-2 <= t.bones[j].x - t.bones[anchor_ix(t)].x <= 2);
        assert(-2 <= t.bones[j].y - t.bones[anchor_ix(t)].y <= 2);
    }
}

/// Rotation permutes each bone's offset from the pivot (up to sign), so the
/// compactness bound around the anchor bone is kept.
pub proof fn lemma_rotated_compact(t: TetV, rot: Rotation)
    requires
        piece_wf(t),
        piece_compact(t),
    ensures
        piece_compact(piece_rotated(t, rot)),
{
    match t.pivot {
        Some(i) => {
            if rot is Still {
            } else {
                let u = piece_rotated(t, rot);
                let p = t.bones[i];
                assert(u.bones[i] == bone_rotated(p, p, rot));
                assert forall|j: int| 0 <= j < u.bones.len() implies {
                    let a = u.bones[anchor_ix(u)];
                    -2 <= #[trigger] u.bones[j].x - a.x <= 2 && -2 <= u.bones[j].y - a.y <= 2
                } by {
                    assert(u.bones[j] == bone_rotated(t.bones[j], p, rot));
                    assert(-2 <= t.bones[j].x - p.x <= 2);
                    assert(-2 <= t.bones[j].y - p.y <= 2);
                }
            }
        },
        None => {},
    }
}


/// The anchor bone of every canonical prototype sits at x 1 or 2 and y 0
/// or 1.
pub proof fn lemma_canonical_anchor(kind: PieceKind)
    ensures
        ({
            let c = canonical_piece(kind);
            &&& 1 <= c.bones[anchor_ix(c)].x <= 2
            &&& 0 <= c.bones[anchor_ix(c)].y <= 1
        }),
{
    match kind {
        PieceKind::I => {},
        PieceKind::L => {},
        PieceKind::J => {},
        PieceKind::T => {},
        PieceKind::Z => {},
        PieceKind::S => {},
        PieceKind::O => {},
    }
}

} // verus!
