//! Geometry primitives: signed grid coordinates, linear board indices, the
//! movement, rotation and collision enums, and the cyclic cell colors.

use vstd::prelude::*;

verus! {

/// A signed 2-D grid coordinate. The type itself enforces no bounds;
/// arithmetic is componentwise and never clamped.
#[derive(Clone, Copy, Debug, PartialEq, Eq, Structural)]
pub struct Coord {
    pub x: i16,
    pub y: i16,
}

impl Default for Coord {
    fn default() -> (r: Self)
        ensures
            r.x == 0 && r.y == 0,
    {
        Coord { x: 0, y: 0 }
    }
}

impl Coord {
    /// Componentwise sum of two coordinates.
    pub fn plus(self, other: Coord) -> (r: Coord)
        requires
            i16::MIN <= self.x + other.x <= i16::MAX,
            i16::MIN <= self.y + other.y <= i16::MAX,
        ensures
            r.x == self.x + other.x,
            r.y == self.y + other.y,
    {
        Coord { x: self.x + other.x, y: self.y + other.y }
    }

    /// The linear index of this coordinate in a flat row-major array of the
    /// given width: `x + y * width`.
    pub fn coord_to_pos(&self, width: i16) -> (r: Pos)
        requires
            i16::MIN <= self.y * width <= i16::MAX,
            i16::MIN <= self.x + self.y * width <= i16::MAX,
        ensures
            r.0 == self.x + self.y * width,
    {
        Pos(self.x + self.y * width)
    }
}

/// A linear index into a flat row-major cell array. A negative value is a
/// sentinel for "no index" and must short-circuit any indexing operation.
#[derive(Clone, Copy, Debug, PartialEq, Eq, Structural)]
pub struct Pos(pub i16);

impl Pos {
    /// The grid coordinate of this index in an array of the given width.
    /// Exact inverse of `coord_to_pos` for in-board values.
    pub fn pos_to_coord(&self, width: i16) -> (r: Coord)
        requires
            0 <= self.0,
            0 < width,
        ensures
            r.x == self.0 as int % width as int,
            r.y == self.0 as int / width as int,
    {
        Coord { x: self.0 % width, y: self.0 / width }
    }

    /// This index as a `usize`, for indexing the cell array.
    pub fn to_index(&self) -> (r: usize)
        requires
            0 <= self.0,
        ensures
            r == self.0,
    {
        self.0 as usize
    }

    /// The index for a (small) array position.
    pub fn from_index(i: usize) -> (r: Pos)
        requires
            i <= i16::MAX,
        ensures
            r.0 == i,
    {
        Pos(i as i16)
    }
}

/// A discrete movement intent for the falling piece.
#[derive(Clone, Copy, Debug, PartialEq, Eq, Structural)]
pub enum Direction {
    Down,
    Left,
    Right,
    Still,
}

impl Direction {
    /// The unit translation of this direction, as `(dx, dy)`.
    pub open spec fn delta(self) -> (int, int) {
        match self {
            Direction::Down => (0int, 1int),
            Direction::Left => (-1int, 0int),
            Direction::Right => (1int, 0int),
            Direction::Still => (0int, 0int),
        }
    }

    /// The unit translation coordinate of this direction.
    pub fn to_coord(self) -> (r: Coord)
        ensures
            r.x == self.delta().0,
            r.y == self.delta().1,
    {
        match self {
            Direction::Down => Coord { x: 0, y: 1 },
            Direction::Left => Coord { x: -1, y: 0 },
            Direction::Right => Coord { x: 1, y: 0 },
            Direction::Still => Coord { x: 0, y: 0 },
        }
    }

    /// The mirrored horizontal direction; `Still` for the others.
    pub open spec fn opposite_spec(self) -> Direction {
        match self {
            Direction::Left => Direction::Right,
            Direction::Right => Direction::Left,
            _ => Direction::Still,
        }
    }

    /// The mirrored horizontal direction; `Still` for the others.
    pub fn opposite(&self) -> (r: Self)
        ensures
            r == self.opposite_spec(),
    {
        match self {
            Direction::Left => Direction::Right,
            Direction::Right => Direction::Left,
            _ => Direction::Still,
        }
    }
}

/// A rotation intent: a quarter turn either way, or none.
#[derive(Clone, Copy, Debug, PartialEq, Eq, Structural)]
pub enum Rotation {
    CW,
    CCW,
    Still,
}

impl Rotation {
    /// The horizontal direction a rotation leans toward, used to classify an
    /// occupancy collision met during a pure rotation.
    pub open spec fn to_dir_spec(self) -> Direction {
        match self {
            Rotation::CW => Direction::Right,
            Rotation::CCW => Direction::Left,
            Rotation::Still => Direction::Still,
        }
    }

    /// The rotation that undoes this one.
    pub open spec fn inverse_spec(self) -> Rotation {
        match self {
            Rotation::CW => Rotation::CCW,
            Rotation::CCW => Rotation::CW,
            Rotation::Still => Rotation::Still,
        }
    }

    /// The horizontal direction a rotation leans toward.
    pub fn to_dir(&self) -> (r: Direction)
        ensures
            r == self.to_dir_spec(),
    {
        match self {
            Rotation::CW => Direction::Right,
            Rotation::CCW => Direction::Left,
            Rotation::Still => Direction::Still,
        }
    }
}

/// The outcome of checking a candidate piece pose against the board.
#[derive(Clone, Copy, Debug, PartialEq, Eq, Structural)]
pub enum Collision {
    Left,
    Right,
    Under,
    Clear,
}

impl Collision {
    /// The direction a collision pushes back against.
    pub open spec fn to_dir_spec(self) -> Direction {
        match self {
            Collision::Left => Direction::Left,
            Collision::Right => Direction::Right,
            Collision::Under => Direction::Down,
            Collision::Clear => Direction::Still,
        }
    }

    /// The direction a collision pushes back against.
    pub fn to_dir(&self) -> (r: Direction)
        ensures
            r == self.to_dir_spec(),
    {
        match self {
            Collision::Left => Direction::Left,
            Collision::Right => Direction::Right,
            Collision::Under => Direction::Down,
            Collision::Clear => Direction::Still,
        }
    }
}

/// Number of cell colors; they form one cyclic sequence.
pub const NUM_COLORS: usize = 8;

/// A cell color. The eight values are arranged in a cyclic sequence walked by
/// `next_color` for the clear-animation wave; the choice of color never
/// affects gameplay.
#[derive(Clone, Copy, Debug, PartialEq, Eq, Structural)]
pub enum Color {
    Black,
    Green,
    Yellow,
    Red,
    Blue,
    Pink,
    White,
    Aqua,
}

impl Color {
    /// The position of a color in the cyclic sequence.
    pub open spec fn index_spec(self) -> int {
        match self {
            Color::Black => 0,
            Color::Green => 1,
            Color::Yellow => 2,
            Color::Red => 3,
            Color::Blue => 4,
            Color::Pink => 5,
            Color::White => 6,
            Color::Aqua => 7,
        }
    }

    /// The color at a position of the cyclic sequence.
    pub open spec fn from_index_spec(j: int) -> Color {
        if j == 0 {
            Color::Black
        } else if j == 1 {
            Color::Green
        } else if j == 2 {
            Color::Yellow
        } else if j == 3 {
            Color::Red
        } else if j == 4 {
            Color::Blue
        } else if j == 5 {
            Color::Pink
        } else if j == 6 {
            Color::White
        } else {
            Color::Aqua
        }
    }

    /// The color after this one in the cyclic sequence.
    pub open spec fn next_spec(self) -> Color {
        Color::from_index_spec((self.index_spec() + 1) % (NUM_COLORS as int))
    }

    /// The position of this color in the cyclic sequence.
    pub fn to_i(&self) -> (r: usize)
        ensures
            r == self.index_spec(),
    {
        match self {
            Color::Black => 0,
            Color::Green => 1,
            Color::Yellow => 2,
            Color::Red => 3,
            Color::Blue => 4,
            Color::Pink => 5,
            Color::White => 6,
            Color::Aqua => 7,
        }
    }

    /// The color following position `i` in the cyclic sequence.
    pub fn get_color(i: usize) -> (r: Color)
        requires
            i < usize::MAX,
        ensures
            r == Color::from_index_spec((i + 1) % (NUM_COLORS as int)),
    {
        let j = (i + 1) % NUM_COLORS;
        if j == 0 {
            Color::Black
        } else if j == 1 {
            Color::Green
        } else if j == 2 {
            Color::Yellow
        } else if j == 3 {
            Color::Red
        } else if j == 4 {
            Color::Blue
        } else if j == 5 {
            Color::Pink
        } else if j == 6 {
            Color::White
        } else {
            Color::Aqua
        }
    }

    fn next_color_of(i: usize) -> (r: Color)
        requires
            i < usize::MAX,
        ensures
            r == Color::from_index_spec((i + 1) % (NUM_COLORS as int)),
    {
        Self::get_color(i)
    }

    /// The color after this one in the cyclic sequence.
    pub fn next_color(&self) -> (r: Color)
        ensures
            r == self.next_spec(),
    {
        Color::next_color_of(self.to_i())
    }
}

} // verus!
