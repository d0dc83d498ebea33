//! Tiles, axes, positions and placements.

use vstd::prelude::*;

verus! {

/// Index of a player, counted from zero.
pub type PlayerID = usize;

/// A coordinate pair `(x, y)`. It is signed so that a walk along an axis may
/// step off the board before the bounds test rejects the position.
pub type Position = (isize, isize);

/// A tile symbol, or `Empty` for a cell that holds no tile.
#[derive(Copy, Clone, Debug, PartialEq, Eq, Structural)]
pub enum ScrabbleLetter {
    Num0,
    Num1,
    Num2,
    Num3,
    Num4,
    Num5,
    Num6,
    Num7,
    Num8,
    Num9,
    Plus,
    Minus,
    Dot,
    Empty,
}

/// The tile that a character denotes, if it denotes one.
pub open spec fn letter_of_char(c: char) -> Option<ScrabbleLetter> {
    if c == '0' {
        Some(ScrabbleLetter::Num0)
    } else if c == '1' {
        Some(ScrabbleLetter::Num1)
    } else if c == '2' {
        Some(ScrabbleLetter::Num2)
    } else if c == '3' {
        Some(ScrabbleLetter::Num3)
    } else if c == '4' {
        Some(ScrabbleLetter::Num4)
    } else if c == '5' {
        Some(ScrabbleLetter::Num5)
    } else if c == '6' {
        Some(ScrabbleLetter::Num6)
    } else if c == '7' {
        Some(ScrabbleLetter::Num7)
    } else if c == '8' {
        Some(ScrabbleLetter::Num8)
    } else if c == '9' {
        Some(ScrabbleLetter::Num9)
    } else if c == '+' {
        Some(ScrabbleLetter::Plus)
    } else if c == '-' {
        Some(ScrabbleLetter::Minus)
    } else if c == '*' {
        Some(ScrabbleLetter::Dot)
    } else {
        None
    }
}

/// The character that shows a tile; an empty cell shows as a blank.
pub open spec fn char_of_letter(letter: ScrabbleLetter) -> char {
    match letter {
        ScrabbleLetter::Num0 => '0',
        ScrabbleLetter::Num1 => '1',
        ScrabbleLetter::Num2 => '2',
        ScrabbleLetter::Num3 => '3',
        ScrabbleLetter::Num4 => '4',
        ScrabbleLetter::Num5 => '5',
        ScrabbleLetter::Num6 => '6',
        ScrabbleLetter::Num7 => '7',
        ScrabbleLetter::Num8 => '8',
        ScrabbleLetter::Num9 => '9',
        ScrabbleLetter::Plus => '+',
        ScrabbleLetter::Minus => '-',
        ScrabbleLetter::Dot => '*',
        ScrabbleLetter::Empty => ' ',
    }
}

impl ScrabbleLetter {
    /// Reads a tile from its character. Only `0`-`9`, `+`, `-` and `*` denote
    /// tiles; no character denotes the empty cell.
    pub fn from_char(letter: char) -> (result: Option<ScrabbleLetter>)
        ensures
            result == letter_of_char(letter),
            result != Some(ScrabbleLetter::Empty),
    {
        match letter {
            '0' => Some(ScrabbleLetter::Num0),
            '1' => Some(ScrabbleLetter::Num1),
            '2' => Some(ScrabbleLetter::Num2),
            '3' => Some(ScrabbleLetter::Num3),
            '4' => Some(ScrabbleLetter::Num4),
            '5' => Some(ScrabbleLetter::Num5),
            '6' => Some(ScrabbleLetter::Num6),
            '7' => Some(ScrabbleLetter::Num7),
            '8' => Some(ScrabbleLetter::Num8),
            '9' => Some(ScrabbleLetter::Num9),
            '+' => Some(ScrabbleLetter::Plus),
            '-' => Some(ScrabbleLetter::Minus),
            '*' => Some(ScrabbleLetter::Dot),
            _ => None,
        }
    }

    /// The display character of the tile.
    pub fn to_char(&self) -> (result: char)
        ensures
            result == char_of_letter(*self),
    {
        match self {
            ScrabbleLetter::Num0 => '0',
            ScrabbleLetter::Num1 => '1',
            ScrabbleLetter::Num2 => '2',
            ScrabbleLetter::Num3 => '3',
            ScrabbleLetter::Num4 => '4',
            ScrabbleLetter::Num5 => '5',
            ScrabbleLetter::Num6 => '6',
            ScrabbleLetter::Num7 => '7',
            ScrabbleLetter::Num8 => '8',
            ScrabbleLetter::Num9 => '9',
            ScrabbleLetter::Plus => '+',
            ScrabbleLetter::Minus => '-',
            ScrabbleLetter::Dot => '*',
            ScrabbleLetter::Empty => ' ',
        }
    }
}

/// Every tile is read back from its own display character.
pub proof fn lemma_char_round_trip(letter: ScrabbleLetter)
    requires
        letter != ScrabbleLetter::Empty,
    ensures
        letter_of_char(char_of_letter(letter)) == Some(letter),
{
}

/// One of the two axes of the board.
#[derive(Copy, Clone, Debug, PartialEq, Eq, Structural)]
pub enum Direction {
    Horizontal,
    Vertical,
}

/// The unit step along an axis.
pub open spec fn unit_step(direction: Direction) -> (int, int) {
    match direction {
        Direction::Horizontal => (1, 0),
        Direction::Vertical => (0, 1),
    }
}

/// The other axis.
pub open spec fn orthogonal_of(direction: Direction) -> Direction {
    match direction {
        Direction::Horizontal => Direction::Vertical,
        Direction::Vertical => Direction::Horizontal,
    }
}

/// The point reached from `position` after `offset` steps along `direction`.
pub open spec fn shift(position: (int, int), offset: int, direction: Direction) -> (int, int) {
    match direction {
        Direction::Horizontal => (position.0 + offset, position.1),
        Direction::Vertical => (position.0, position.1 + offset),
    }
}

/// A position as a pair of mathematical integers.
pub open spec fn point(position: Position) -> (int, int) {
    (position.0 as int, position.1 as int)
}

impl Direction {
    pub fn as_vec(&self) -> (result: (isize, isize))
        ensures
            point(result) == unit_step(*self),
    {
        match self {
            Direction::Horizontal => (1, 0),
            Direction::Vertical => (0, 1),
        }
    }

    pub fn orthogonal(&self) -> (result: Direction)
        ensures
            result == orthogonal_of(*self),
    {
        match self {
            Direction::Horizontal => Direction::Vertical,
            Direction::Vertical => Direction::Horizontal,
        }
    }
}

/// A pending move: the tiles to lay down, where the first one goes, and the
/// axis along which the others follow.
#[derive(Debug)]
pub struct Placement {
    pub letters: Vec<ScrabbleLetter>,
    pub start_pos: Position,
    pub direction: Direction,
}

/// A fresh vector that holds the same tiles in the same order.
pub fn copy_letters(letters: &Vec<ScrabbleLetter>) -> (result: Vec<ScrabbleLetter>)
    ensures
        result@ == letters@,
{
    let mut result: Vec<ScrabbleLetter> = Vec::new();
    let mut i: usize = 0;
    while i < letters.len()
        invariant
            i <= letters.len(),
            result@ == letters@.take(i as int),
        decreases letters.len() - i,
    {
        result.push(letters[i]);
        i += 1;
    }
    result
}

impl Placement {
    pub fn new(letters: &Vec<ScrabbleLetter>, start_pos: &Position, direction: &Direction) -> (result:
        Placement)
        ensures
            result.letters@ == letters@,
            result.start_pos == *start_pos,
            result.direction == *direction,
    {
        Placement { letters: copy_letters(letters), start_pos: *start_pos, direction: *direction }
    }

    /// The cell that the tile at index `k` of the placement goes to.
    pub open spec fn cell(&self, k: int) -> (int, int) {
        shift(point(self.start_pos), k, self.direction)
    }
}

/// Moves `position` by `offset` steps along `direction`. The target has to be
/// representable.
pub fn move_position(position: Position, offset: isize, direction: &Direction) -> (result: Position)
    requires
        isize::MIN <= shift(point(position), offset as int, *direction).0 <= isize::MAX,
        isize::MIN <= shift(point(position), offset as int, *direction).1 <= isize::MAX,
    ensures
        point(result) == shift(point(position), offset as int, *direction),
{
    match direction {
        Direction::Horizontal => (position.0 + offset, position.1),
        Direction::Vertical => (position.0, position.1 + offset),
    }
}

} // verus!
