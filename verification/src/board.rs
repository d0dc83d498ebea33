//! The square grid of cells.

use crate::runtime_error::ScrabbleRuntimeError;
use crate::scrabble_base_types::{point, PlayerID, Position, ScrabbleLetter};
use vstd::prelude::*;

verus! {

/// Who laid the tile of a cell.
#[derive(Copy, Clone, Debug, PartialEq, Eq, Hash, Structural)]
pub enum Owner {
    Unowned,
    Owning(PlayerID),
}

/// The content of a board as a map from the positions of the grid to cells.
pub type Cells = Map<(int, int), (ScrabbleLetter, Owner)>;

/// True when `position` lies on a grid of side `side`.
pub open spec fn in_bounds(position: (int, int), side: int) -> bool {
    0 <= position.0 < side && 0 <= position.1 < side
}

/// True when `position` is a cell of the board that holds no tile.
pub open spec fn is_free(cells: Cells, position: (int, int)) -> bool {
    cells.dom().contains(position) && cells[position].0 == ScrabbleLetter::Empty
}

/// True when `position` is a cell of the board that holds a tile.
pub open spec fn is_occupied(cells: Cells, position: (int, int)) -> bool {
    cells.dom().contains(position) && cells[position].0 != ScrabbleLetter::Empty
}

/// The state of a cell without a tile.
pub open spec fn blank() -> (ScrabbleLetter, Owner) {
    (ScrabbleLetter::Empty, Owner::Unowned)
}

proof fn lemma_flat_index(x: int, y: int, side: int)
    requires
        in_bounds((x, y), side),
    ensures
        0 <= x * side + y < side * side,
        0 <= x * side,
{
    assert(0 <= x * side && (x + 1) * side <= side * side && (x + 1) * side == x * side + side)
        by (nonlinear_arith)
        requires
            0 <= x < side,
    ;
}

proof fn lemma_flat_index_apart(x1: int, y1: int, x2: int, y2: int, side: int)
    requires
        in_bounds((x1, y1), side),
        in_bounds((x2, y2), side),
        x1 * side + y1 == x2 * side + y2,
    ensures
        x1 == x2,
        y1 == y2,
{
    if x1 < x2 {
        assert((x1 + 1) * side <= x2 * side && (x1 + 1) * side == x1 * side + side)
            by (nonlinear_arith)
            requires
                x1 + 1 <= x2,
                side > 0,
        ;
    } else if x2 < x1 {
        assert((x2 + 1) * side <= x1 * side && (x2 + 1) * side == x2 * side + side)
            by (nonlinear_arith)
            requires
                x2 + 1 <= x1,
                side > 0,
        ;
    }
}

/// A grid of `N` by `N` cells, stored column after column in one vector.
pub struct GameBoard<const N: usize> {
    tiles: Vec<(ScrabbleLetter, Owner)>,
}

impl<const N: usize> View for GameBoard<N> {
    type V = Cells;

    closed spec fn view(&self) -> Cells {
        Map::new(
            |p: (int, int)| in_bounds(p, N as int),
            |p: (int, int)| self.tiles@[p.0 * N + p.1],
        )
    }
}

impl<const N: usize> GameBoard<N> {
    /// The vector holds exactly the cells of the grid.
    pub closed spec fn wf(&self) -> bool {
        self.tiles@.len() == N * N && N <= isize::MAX
    }

    /// The side of a board is a coordinate.
    pub proof fn lemma_side(&self)
        requires
            self.wf(),
        ensures
            N <= isize::MAX,
    {
    }

    /// The cells of a board are the positions of the grid.
    pub proof fn lemma_domain(&self)
        ensures
            forall|p: (int, int)| self@.dom().contains(p) <==> in_bounds(p, N as int),
    {
    }

    /// A board without tiles. The number of cells has to be representable.
    pub fn new() -> (result: GameBoard<N>)
        requires
            N * N <= usize::MAX,
            N <= isize::MAX,
        ensures
            result.wf(),
            forall|p: (int, int)| in_bounds(p, N as int) ==> #[trigger] result@[p] == blank(),
    {
        let mut tiles: Vec<(ScrabbleLetter, Owner)> = Vec::new();
        let total: usize = N * N;
        let mut i: usize = 0;
        while i < total
            invariant
                i <= total,
                tiles@.len() == i,
                forall|j: int| 0 <= j < i ==> tiles@[j] == blank(),
            decreases total - i,
        {
            tiles.push((ScrabbleLetter::Empty, Owner::Unowned));
            i += 1;
        }
        let result = GameBoard { tiles };
        assert forall|p: (int, int)| in_bounds(p, N as int) implies #[trigger] result@[p]
            == blank() by {
            lemma_flat_index(p.0, p.1, N as int);
        }
        result
    }

    pub fn is_out_of_bounds(&self, pos: Position) -> (result: bool)
        ensures
            result == !in_bounds(point(pos), N as int),
    {
        pos.0 < 0 || pos.1 < 0 || pos.0 as usize >= N || pos.1 as usize >= N
    }

    /// The place of an in-bounds cell in the vector.
    fn flat_index(&self, pos: Position) -> (result: usize)
        requires
            self.wf(),
            in_bounds(point(pos), N as int),
        ensures
            result == pos.0 * N + pos.1,
            result < self.tiles@.len(),
    {
        proof {
            lemma_flat_index(pos.0 as int, pos.1 as int, N as int);
            assert(self.tiles@.len() == self.tiles.len());
        }
        pos.0 as usize * N + pos.1 as usize
    }

    /// True when `pos` is a cell without a tile; a position outside the grid
    /// is not empty.
    pub fn is_empty(&self, pos: Position) -> (result: bool)
        requires
            self.wf(),
        ensures
            result == is_free(self@, point(pos)),
    {
        if self.is_out_of_bounds(pos) {
            return false;
        }
        let index = self.flat_index(pos);
        self.tiles[index].0 == ScrabbleLetter::Empty
    }

    /// Reads a cell.
    pub fn try_get(&self, pos: Position) -> (result: Result<(ScrabbleLetter, Owner), ScrabbleRuntimeError>)
        requires
            self.wf(),
        ensures
            in_bounds(point(pos), N as int) ==> result == Ok::<(ScrabbleLetter, Owner), ScrabbleRuntimeError>(
                self@[point(pos)],
            ),
            !in_bounds(point(pos), N as int) ==> result == Err::<
                (ScrabbleLetter, Owner),
                ScrabbleRuntimeError,
            >(ScrabbleRuntimeError::PositionOutOfBounds(pos)),
    {
        if self.is_out_of_bounds(pos) {
            Err(ScrabbleRuntimeError::PositionOutOfBounds(pos))
        } else {
            let index = self.flat_index(pos);
            Ok(self.tiles[index])
        }
    }

    /// Lays `to_place` on the cell at `pos` in the name of `placer_id`, unless
    /// the cell holds a tile already or lies outside the grid.
    pub fn try_place(&mut self, placer_id: PlayerID, to_place: ScrabbleLetter, pos: Position) -> (result:
        Result<(), ScrabbleRuntimeError>)
        requires
            old(self).wf(),
        ensures
            final(self).wf(),
            is_free(old(self)@, point(pos)) ==> result == Ok::<(), ScrabbleRuntimeError>(()) && final(self)@
                == old(self)@.insert(point(pos), (to_place, Owner::Owning(placer_id))),
            !is_free(old(self)@, point(pos)) ==> result == Err::<(), ScrabbleRuntimeError>(
                ScrabbleRuntimeError::BlockedSpace,
            ) && final(self)@ == old(self)@,
    {
        if !self.is_empty(pos) {
            return Err(ScrabbleRuntimeError::BlockedSpace);
        }
        self.write(pos, (to_place, Owner::Owning(placer_id)));
        Ok(())
    }

    /// Takes the tile off the cell at `pos`. Nothing happens outside the grid.
    pub fn clear(&mut self, pos: Position)
        requires
            old(self).wf(),
        ensures
            final(self).wf(),
            in_bounds(point(pos), N as int) ==> final(self)@ == old(self)@.insert(
                point(pos),
                blank(),
            ),
            !in_bounds(point(pos), N as int) ==> final(self)@ == old(self)@,
    {
        if self.is_out_of_bounds(pos) {
            return ;
        }
        self.write(pos, (ScrabbleLetter::Empty, Owner::Unowned));
    }

    /// Overwrites an in-bounds cell.
    fn write(&mut self, pos: Position, cell: (ScrabbleLetter, Owner))
        requires
            old(self).wf(),
            in_bounds(point(pos), N as int),
        ensures
            final(self).wf(),
            final(self)@ == old(self)@.insert(point(pos), cell),
    {
        let index = self.flat_index(pos);
        self.tiles.set(index, cell);
        proof {
            let target = old(self)@.insert(point(pos), cell);
            assert forall|p: (int, int)| in_bounds(p, N as int) implies #[trigger] self@[p]
                == target[p] by {
                lemma_flat_index(p.0, p.1, N as int);
                if p.0 * N + p.1 == index as int {
                    lemma_flat_index_apart(p.0, p.1, pos.0 as int, pos.1 as int, N as int);
                }
            }
            assert(self@ =~= target);
        }
    }

    /// The board as text, one row of the grid per line: each cell is shown as
    /// its display character between square brackets.
    pub fn render(&self) -> (result: Vec<Vec<char>>)
        requires
            self.wf(),
        ensures
            shows_board(result@, self@, N as int),
    {
        let mut rows: Vec<Vec<char>> = Vec::new();
        let mut y: usize = 0;
        while y < N
            invariant
                self.wf(),
                y <= N,
                rows@.len() == y,
                forall|r: int| 0 <= r < y ==> (#[trigger] rows@[r])@ == row_text(self@, N as int, r),
            decreases N - y,
        {
            let mut row: Vec<char> = Vec::new();
            let mut x: usize = 0;
            while x < N
                invariant
                    self.wf(),
                    y < N,
                    x <= N,
                    row@.len() == 3 * x,
                    forall|j: int|
                        0 <= j < 3 * x ==> #[trigger] row@[j] == text_at(self@, j, y as int),
                decreases N - x,
            {
                proof {
                    lemma_flat_index(x as int, y as int, N as int);
                    assert(self.tiles@.len() == self.tiles.len());
                }
                let cell = self.tiles[x * N + y];
                assert(cell == self@[(x as int, y as int)]);
                row.push('[');
                row.push(cell.0.to_char());
                row.push(']');
                x += 1;
            }
            assert(row@ =~= row_text(self@, N as int, y as int));
            rows.push(row);
            y += 1;
        }
        rows
    }
}

/// The character at column `j` of the line that shows row `y`.
pub open spec fn text_at(cells: Cells, j: int, y: int) -> char {
    if j % 3 == 0 {
        '['
    } else if j % 3 == 1 {
        crate::scrabble_base_types::char_of_letter(cells[(j / 3, y)].0)
    } else {
        ']'
    }
}

/// The line that shows row `y` of a grid of side `side`.
pub open spec fn row_text(cells: Cells, side: int, y: int) -> Seq<char> {
    Seq::new((3 * side) as nat, |j: int| text_at(cells, j, y))
}

/// True when `rows` shows `cells`, a grid of side `side`, row after row.
pub open spec fn shows_board(rows: Seq<Vec<char>>, cells: Cells, side: int) -> bool {
    &&& rows.len() == side
    &&& forall|y: int| 0 <= y < side ==> (#[trigger] rows[y])@ == row_text(cells, side, y)
}

} // verus!
