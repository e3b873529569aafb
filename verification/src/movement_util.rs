//! Cardinal directions and grid coordinates.

use vstd::prelude::*;

use crate::ivec2::IVec2;
use crate::TILE_SIZE;

verus! {

/// Positions that can name the tile they lie on.
pub trait PositionExt {
    /// The tile holding this position: each coordinate divided by the tile
    /// size, rounded towards negative infinity.
    fn tile_coordinate(&self) -> (i64, i64);
}

impl PositionExt for IVec2 {
    fn tile_coordinate(&self) -> (coordinate: (i64, i64))
        ensures
            coordinate.0 == self.x as int / TILE_SIZE as int,
            coordinate.1 == self.y as int / TILE_SIZE as int,
    {
        (floor_div_tile(self.x), floor_div_tile(self.y))
    }
}

/// One coordinate divided by the tile size, rounded towards negative
/// infinity.
fn floor_div_tile(a: i64) -> (q: i64)
    ensures
        q == a as int / TILE_SIZE as int,
{
    let tile = TILE_SIZE as i64;
    if a >= 0 {
        let q = ((a as u64) / (tile as u64)) as i64;
        proof {
            assert(q == a as int / TILE_SIZE as int);
        }
        q
    } else {
        // a < 0: count the tiles covering -a, then negate.
        let m = (-(a as i128)) as u128;
        let steps = (m + (tile as u128) - 1) / (tile as u128);
        let q = -(steps as i128);
        proof {
            assert(q == a as int / TILE_SIZE as int) by (nonlinear_arith)
                requires
                    m == -(a as int),
                    a < 0,
                    tile == 16,
                    steps == (m + 15) / 16,
                    q == -(steps as int),
            {
            }
        }
        q as i64
    }
}

/// The four directions a character can face or move in.
#[derive(PartialEq, Eq, Structural, Debug, Copy, Clone)]
pub enum Direction {
    Left,
    Right,
    Up,
    Down,
}

impl Default for Direction {
    /// Characters start out facing down.
    fn default() -> (d: Direction)
        ensures
            d == Direction::Down,
    {
        Direction::Down
    }
}

/// The unit step of a direction on the screen grid, y growing downwards.
pub open spec fn spec_direction_vector(d: Direction) -> (int, int) {
    match d {
        Direction::Up => (0, -1),
        Direction::Down => (0, 1),
        Direction::Left => (-1, 0),
        Direction::Right => (1, 0),
    }
}

/// The direction named by a unit step, if it is one.
pub open spec fn spec_direction_from_vector(vector: (i32, i32)) -> Option<Direction> {
    if vector.0 == 0 && vector.1 == 1 {
        Some(Direction::Down)
    } else if vector.0 == 0 && vector.1 == -1 {
        Some(Direction::Up)
    } else if vector.0 == 1 && vector.1 == 0 {
        Some(Direction::Right)
    } else if vector.0 == -1 && vector.1 == 0 {
        Some(Direction::Left)
    } else {
        None
    }
}

/// The direction a name denotes, if it is one of the four names.
pub open spec fn spec_direction_of_name(name: Seq<char>) -> Option<Direction> {
    if name == "Up"@ {
        Some(Direction::Up)
    } else if name == "Down"@ {
        Some(Direction::Down)
    } else if name == "Left"@ {
        Some(Direction::Left)
    } else if name == "Right"@ {
        Some(Direction::Right)
    } else {
        None
    }
}

impl Direction {
    /// The unit step of this direction on the pixel grid.
    pub fn to_vector(&self) -> (v: IVec2)
        ensures
            (v.x as int, v.y as int) == spec_direction_vector(*self),
    {
        match self {
            Direction::Up => IVec2::new(0, -1),
            Direction::Down => IVec2::new(0, 1),
            Direction::Left => IVec2::new(-1, 0),
            Direction::Right => IVec2::new(1, 0),
        }
    }

    /// The direction of a unit step, or nothing for any other vector.
    pub fn from_vector(vector: (i32, i32)) -> (result: Option<Direction>)
        ensures
            result == spec_direction_from_vector(vector),
    {
        match vector {
            (0, 1) => Some(Direction::Down),
            (0, -1) => Some(Direction::Up),
            (1, 0) => Some(Direction::Right),
            (-1, 0) => Some(Direction::Left),
            _ => None,
        }
    }

    /// The axis this direction moves along.
    pub fn axis(&self) -> (a: Axis)
        ensures
            a == (match *self {
                Direction::Up | Direction::Down => Axis::Vertical,
                Direction::Left | Direction::Right => Axis::Horizontal,
            }),
    {
        match self {
            Direction::Up | Direction::Down => Axis::Vertical,
            Direction::Left | Direction::Right => Axis::Horizontal,
        }
    }

    /// The horizontal component of this direction's unit step.
    pub fn x(&self) -> (r: i32)
        ensures
            r == spec_direction_vector(*self).0,
    {
        match self {
            Direction::Left => -1,
            Direction::Right => 1,
            _ => 0,
        }
    }

    /// The vertical component of this direction's unit step.
    pub fn y(&self) -> (r: i32)
        ensures
            r == spec_direction_vector(*self).1,
    {
        match self {
            Direction::Up => -1,
            Direction::Down => 1,
            _ => 0,
        }
    }

    /// Parse one of the four direction names; any other string earns an
    /// error message naming it.
    pub fn from_str(string: &str) -> (result: Result<Direction, String>)
        ensures
            result matches Ok(d) ==> spec_direction_of_name(string@) == Some(d),
            result is Err <==> spec_direction_of_name(string@) is None,
            result matches Err(e) ==> e@ == "Invalid direction: "@ + string@,
    {
        proof {
            reveal_strlit("Up");
            reveal_strlit("Down");
            reveal_strlit("Left");
            reveal_strlit("Right");
        }
        let n = string.unicode_len();
        if n == 2 && string.get_char(0) == 'U' && string.get_char(1) == 'p' {
            proof {
                assert(string@ =~= "Up"@);
            }
            Ok(Direction::Up)
        } else if n == 4 && string.get_char(0) == 'D' && string.get_char(1) == 'o'
            && string.get_char(2) == 'w' && string.get_char(3) == 'n' {
            proof {
                assert(string@ =~= "Down"@);
            }
            Ok(Direction::Down)
        } else if n == 4 && string.get_char(0) == 'L' && string.get_char(1) == 'e'
            && string.get_char(2) == 'f' && string.get_char(3) == 't' {
            proof {
                assert(string@ =~= "Left"@);
            }
            Ok(Direction::Left)
        } else if n == 5 && string.get_char(0) == 'R' && string.get_char(1) == 'i'
            && string.get_char(2) == 'g' && string.get_char(3) == 'h'
            && string.get_char(4) == 't' {
            proof {
                assert(string@ =~= "Right"@);
            }
            Ok(Direction::Right)
        } else {
            proof {
                assert(string@ != "Up"@);
                assert(string@ != "Down"@);
                assert(string@ != "Left"@);
                assert(string@ != "Right"@);
            }
            Err("Invalid direction: ".to_owned().concat(string))
        }
    }
}

/// The two movement axes.
#[derive(PartialEq, Eq, Structural, Debug, Copy, Clone)]
pub enum Axis {
    Horizontal,
    Vertical,
}

} // verus!
