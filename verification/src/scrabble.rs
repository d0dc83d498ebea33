//! The game: players, board, whose turn it is, and the rule by which a
//! placement is either carried out whole or leaves no trace.

use crate::board::{
    blank, in_bounds, is_free, is_occupied, shows_board, Cells, GameBoard, Owner,
};
use crate::command_parsing::Command;
use crate::ownership::{lemma_owner_is_member, resolve_owner, term_owner};
use crate::player::{saturating_sum, Player};
use crate::runtime_error::{PlacementFault, ScrabbleRuntimeError};
use crate::scrabble_base_types::{
    move_position, orthogonal_of, point, shift, Direction, Placement, PlayerID, Position,
    ScrabbleLetter,
};
use crate::term_evaluation::{value_of, Term, TermError};
use vstd::multiset::Multiset;
use vstd::prelude::*;

verus! {

/// The sense in which a line is walked from a cell.
#[derive(Copy, Clone, Debug, PartialEq, Eq, Structural)]
pub enum TermDirection {
    Decreasing,
    Increasing,
}

/// The change of the offset with each step of a walk.
pub open spec fn stride(way: TermDirection) -> int {
    match way {
        TermDirection::Decreasing => -1,
        TermDirection::Increasing => 1,
    }
}

/// The coordinate of `position` that changes along `direction`.
pub open spec fn along(position: (int, int), direction: Direction) -> int {
    match direction {
        Direction::Horizontal => position.0,
        Direction::Vertical => position.1,
    }
}

/// The coordinate of `position` that stays fixed along `direction`.
pub open spec fn across(position: (int, int), direction: Direction) -> int {
    match direction {
        Direction::Horizontal => position.1,
        Direction::Vertical => position.0,
    }
}

/// The number of tiles in a row that a walk from `position` meets before it
/// reaches a cell without a tile or leaves a grid of side `side`.
pub open spec fn run_length(
    cells: Cells,
    side: int,
    position: (int, int),
    direction: Direction,
    way: TermDirection,
) -> nat
    decreases
            (match way {
                TermDirection::Increasing => side - along(position, direction),
                TermDirection::Decreasing => along(position, direction) + 1,
            }),
{
    if in_bounds(position, side) && is_occupied(cells, position) {
        1 + run_length(cells, side, shift(position, stride(way), direction), direction, way)
    } else {
        0
    }
}

/// The first cell of the line through `position` along `direction`.
pub open spec fn term_start(cells: Cells, side: int, position: (int, int), direction: Direction) -> (
    int,
    int,
) {
    shift(
        position,
        1 - run_length(cells, side, position, direction, TermDirection::Decreasing),
        direction,
    )
}

/// The number of tiles of the line through `position` along `direction`.
pub open spec fn term_len(cells: Cells, side: int, position: (int, int), direction: Direction) -> int {
    run_length(cells, side, position, direction, TermDirection::Decreasing) + run_length(
        cells,
        side,
        position,
        direction,
        TermDirection::Increasing,
    ) - 1
}

/// The tiles of the line through the occupied cell `position` along
/// `direction`: the longest unbroken row of tiles that holds the cell.
pub open spec fn term_letters(
    cells: Cells,
    side: int,
    position: (int, int),
    direction: Direction,
) -> Seq<ScrabbleLetter> {
    Seq::new(
        term_len(cells, side, position, direction) as nat,
        |i: int| cells[shift(term_start(cells, side, position, direction), i, direction)].0,
    )
}

/// Who laid each tile of that line.
pub open spec fn term_owners(
    cells: Cells,
    side: int,
    position: (int, int),
    direction: Direction,
) -> Seq<Owner> {
    Seq::new(
        term_len(cells, side, position, direction) as nat,
        |i: int| cells[shift(term_start(cells, side, position, direction), i, direction)].1,
    )
}

/// The line through `position` along `direction` with its owner.
pub open spec fn term_at(cells: Cells, side: int, position: (int, int), direction: Direction) -> (
    Seq<ScrabbleLetter>,
    Owner,
) {
    (
        term_letters(cells, side, position, direction),
        term_owner(term_owners(cells, side, position, direction)),
    )
}

/// The lines that a placement of `count` tiles touches: first the one along
/// its own axis through its first cell, then for each of its cells the one
/// across.
pub open spec fn placement_terms(
    cells: Cells,
    side: int,
    start: (int, int),
    direction: Direction,
    count: int,
) -> Seq<(Seq<ScrabbleLetter>, Owner)> {
    Seq::new(
        (count + 1) as nat,
        |k: int|
            if k == 0 {
                term_at(cells, side, start, direction)
            } else {
                term_at(cells, side, shift(start, k - 1, direction), orthogonal_of(direction))
            },
    )
}

/// True when `position` is one of the `count` cells from `start` along
/// `direction`.
pub open spec fn on_line(position: (int, int), start: (int, int), direction: Direction, count: int) -> bool {
    across(position, direction) == across(start, direction) && 0 <= along(position, direction)
        - along(start, direction) < count
}

/// The board after `owner` has laid `letters` from `start` along `direction`.
pub open spec fn with_tiles(
    cells: Cells,
    letters: Seq<ScrabbleLetter>,
    start: (int, int),
    direction: Direction,
    owner: PlayerID,
) -> Cells {
    Map::new(
        |p: (int, int)| cells.dom().contains(p),
        |p: (int, int)|
            if on_line(p, start, direction, letters.len() as int) {
                (letters[along(p, direction) - along(start, direction)], Owner::Owning(owner))
            } else {
                cells[p]
            },
    )
}

/// The board after the `count` cells from `start` along `direction` have been
/// cleared.
pub open spec fn without_tiles(cells: Cells, start: (int, int), direction: Direction, count: int) -> Cells {
    Map::new(
        |p: (int, int)| cells.dom().contains(p),
        |p: (int, int)|
            if on_line(p, start, direction, count) {
                blank()
            } else {
                cells[p]
            },
    )
}

/// True when each of the `count` cells from `start` along `direction` is on
/// the board and holds no tile.
pub open spec fn all_free(cells: Cells, start: (int, int), direction: Direction, count: int) -> bool {
    forall|k: int| 0 <= k < count ==> is_free(cells, #[trigger] shift(start, k, direction))
}

/// True when a line of two or more tiles among `terms` is not a well-formed
/// postfix expression.
pub open spec fn some_term_fails(terms: Seq<(Seq<ScrabbleLetter>, Owner)>) -> bool {
    exists|k: int|
        0 <= k < terms.len() && (#[trigger] terms[k]).0.len() != 1 && value_of(terms[k].0) is Err
}

/// The number of lines among the first `upto` of `terms` that have two or
/// more tiles.
pub open spec fn scored_count(terms: Seq<(Seq<ScrabbleLetter>, Owner)>, upto: int) -> nat
    decreases upto,
{
    if upto <= 0 {
        0
    } else {
        scored_count(terms, upto - 1) + if terms[upto - 1].0.len() != 1 {
            1nat
        } else {
            0nat
        }
    }
}

/// True when `owner` is the player with index `player`.
pub open spec fn owned_by(owner: Owner, player: int) -> bool {
    match owner {
        Owner::Unowned => false,
        Owner::Owning(id) => id == player,
    }
}

/// The score of `player` after the first `upto` of `terms` have been credited
/// to their owners, starting from `base`. A line of one tile, a line without
/// an owner and a line without a value credit nothing.
pub open spec fn score_after(
    terms: Seq<(Seq<ScrabbleLetter>, Owner)>,
    upto: int,
    player: int,
    base: int,
) -> int
    decreases upto,
{
    if upto <= 0 {
        base
    } else {
        let earlier = score_after(terms, upto - 1, player, base);
        let term = terms[upto - 1];
        if term.0.len() != 1 && owned_by(term.1, player) && value_of(term.0) is Ok {
            saturating_sum(earlier, value_of(term.0).unwrap())
        } else {
            earlier
        }
    }
}

/// The offset of the `steps`-th cell of a walk.
pub open spec fn walk_offset(way: TermDirection, steps: int) -> int {
    match way {
        TermDirection::Decreasing => -steps,
        TermDirection::Increasing => steps,
    }
}

/// True when a cell either holds no tile and has no owner, or holds a tile
/// laid by one of `count` players.
pub open spec fn cell_ok(cell: (ScrabbleLetter, Owner), count: int) -> bool {
    match cell.1 {
        Owner::Unowned => cell.0 == ScrabbleLetter::Empty,
        Owner::Owning(id) => cell.0 != ScrabbleLetter::Empty && id < count,
    }
}

/// True when `owner` is nobody or one of `count` players.
pub open spec fn owner_in_range(owner: Owner, count: int) -> bool {
    match owner {
        Owner::Unowned => true,
        Owner::Owning(id) => id < count,
    }
}

/// What a command hands back for display.
#[derive(Debug)]
pub enum CommandOutput {
    /// The command shows nothing.
    Nothing,
    /// The board as text, one row of the grid per line.
    Board(Vec<Vec<char>>),
    /// The score of the player asked for.
    Score(isize),
    /// The tiles in the bag of the player asked for.
    Bag(Vec<ScrabbleLetter>),
}

/// A game on a board of `N` by `N` cells.
pub struct ScrabbleGame<const N: usize> {
    players: Vec<Player>,
    current_player: usize,
    board: GameBoard<N>,
    is_first_placement: bool,
}

impl<const N: usize> ScrabbleGame<N> {
    /// The content of the board.
    pub closed spec fn cells(&self) -> Cells {
        self.board@
    }

    /// The number of players.
    pub closed spec fn player_count(&self) -> int {
        self.players@.len() as int
    }

    /// The player to move.
    pub closed spec fn turn(&self) -> PlayerID {
        self.current_player
    }

    /// True until a placement has succeeded.
    pub closed spec fn first_move(&self) -> bool {
        self.is_first_placement
    }

    /// The bag of player `id` as a multiset.
    pub closed spec fn bag_of(&self, id: int) -> Multiset<ScrabbleLetter> {
        self.players@[id].bag()
    }

    /// The score of player `id`.
    pub closed spec fn points_of(&self, id: int) -> int {
        self.players@[id].points()
    }

    /// The players in the order of their turns.
    pub closed spec fn seats(&self) -> Seq<Player> {
        self.players@
    }

    /// The invariant of a game between two commands: it is well formed, and
    /// before the first placement the board is bare.
    pub closed spec fn inv(&self) -> bool {
        &&& self.wf()
        &&& self.is_first_placement ==> forall|p: (int, int)|
            in_bounds(p, N as int) ==> #[trigger] self.board@[p] == blank()
    }

    /// What holds of a game at every step: somebody is to move; a cell without
    /// a tile has no owner and a tile was laid by one of the players; no bag
    /// holds the empty symbol.
    pub closed spec fn wf(&self) -> bool {
        &&& self.board.wf()
        &&& self.players@.len() >= 1
        &&& self.current_player < self.players@.len()
        &&& forall|p: (int, int)|
            in_bounds(p, N as int) ==> cell_ok(#[trigger] self.board@[p], self.players@.len() as int)
        &&& forall|i: int|
            0 <= i < self.players@.len() ==> (#[trigger] self.players@[i]).bag().count(
                ScrabbleLetter::Empty,
            ) == 0
    }

    /// What the invariant says of the board, for callers.
    pub proof fn lemma_wf(&self)
        requires
            self.wf(),
        ensures
            0 <= self.turn() < self.player_count(),
            N <= isize::MAX,
            forall|p: (int, int)| self.cells().dom().contains(p) <==> in_bounds(p, N as int),
            forall|p: (int, int)|
                in_bounds(p, N as int) ==> cell_ok(#[trigger] self.cells()[p], self.player_count()),
            forall|i: int|
                0 <= i < self.player_count() ==> #[trigger] self.bag_of(i).count(
                    ScrabbleLetter::Empty,
                ) == 0,
            self.seats().len() == self.player_count(),
            forall|i: int|
                #![trigger self.bag_of(i)]
                #![trigger self.seats()[i]]
                0 <= i < self.player_count() ==> self.bag_of(i) == self.seats()[i].bag(),
            forall|i: int|
                #![trigger self.points_of(i)]
                #![trigger self.seats()[i]]
                0 <= i < self.player_count() ==> self.points_of(i) == self.seats()[i].points(),
    {
        self.board.lemma_domain();
        self.board.lemma_side();
    }

    /// Before the first placement the board of a game is bare.
    pub proof fn lemma_inv(&self)
        requires
            self.inv(),
        ensures
            self.wf(),
            self.first_move() ==> forall|p: (int, int)|
                in_bounds(p, N as int) ==> #[trigger] self.cells()[p] == blank(),
    {
    }

    /// A game before the first move. Each bag holds tiles only, never the
    /// empty symbol; the board has to be representable.
    pub fn new(player_bags: &Vec<Vec<ScrabbleLetter>>) -> (result: ScrabbleGame<N>)
        requires
            N * N <= usize::MAX,
            N <= isize::MAX,
            player_bags@.len() >= 1,
            forall|i: int|
                0 <= i < player_bags@.len() ==> !(#[trigger] player_bags@[i])@.contains(
                    ScrabbleLetter::Empty,
                ),
        ensures
            result.inv(),
            result.player_count() == player_bags@.len(),
            result.turn() == 0,
            result.first_move(),
            forall|p: (int, int)| in_bounds(p, N as int) ==> #[trigger] result.cells()[p] == blank(),
            forall|i: int|
                0 <= i < player_bags@.len() ==> #[trigger] result.bag_of(i)
                    == player_bags@[i]@.to_multiset(),
            forall|i: int| 0 <= i < player_bags@.len() ==> #[trigger] result.points_of(i) == 0,
    {
        let mut players: Vec<Player> = Vec::new();
        let mut i: usize = 0;
        while i < player_bags.len()
            invariant
                i <= player_bags.len(),
                players@.len() == i,
                forall|j: int|
                    0 <= j < i ==> (#[trigger] players@[j]).letters() == player_bags@[j]@
                        && players@[j].points() == 0,
            decreases player_bags.len() - i,
        {
            players.push(Player::new(&player_bags[i]));
            i += 1;
        }
        let board = GameBoard::new();
        let result = ScrabbleGame { players, current_player: 0, board, is_first_placement: true };
        proof {
            assert forall|j: int| 0 <= j < result.players@.len() implies (
            #[trigger] result.players@[j]).bag().count(ScrabbleLetter::Empty) == 0 by {
                player_bags@[j]@.to_multiset_ensures();
            }
        }
        result
    }

    /// The player to move.
    pub fn get_current_player(&self) -> (result: &Player)
        requires
            self.wf(),
        ensures
            result.bag() == self.bag_of(self.turn() as int),
            result.points() == self.points_of(self.turn() as int),
    {
        &self.players[self.current_player]
    }

    /// Reads a cell of the board.
    fn cell_at(&self, pos: Position) -> (result: (ScrabbleLetter, Owner))
        requires
            self.wf(),
            in_bounds(point(pos), N as int),
        ensures
            result == self.cells()[point(pos)],
    {
        match self.board.try_get(pos) {
            Ok(cell) => cell,
            Err(_) => (ScrabbleLetter::Empty, Owner::Unowned),
        }
    }

    /// Walks from `position` along `direction` in the sense `iter_dir` and
    /// lists the cells it passes, as long as they hold tiles.
    pub fn collect_to_term_end(
        &self,
        position: Position,
        direction: &Direction,
        iter_dir: TermDirection,
    ) -> (result: Vec<Position>)
        requires
            self.wf(),
        ensures
            result@.len() == run_length(self.cells(), N as int, point(position), *direction, iter_dir),
            forall|i: int|
                0 <= i < result@.len() ==> point(#[trigger] result@[i]) == shift(
                    point(position),
                    walk_offset(iter_dir, i),
                    *direction,
                ) && in_bounds(point(result@[i]), N as int) && is_occupied(
                    self.cells(),
                    point(result@[i]),
                ),
    {
        proof {
            self.lemma_wf();
        }
        let step: isize = match iter_dir {
            TermDirection::Decreasing => -1,
            TermDirection::Increasing => 1,
        };
        let ghost origin = point(position);
        let mut positions: Vec<Position> = Vec::new();
        let mut curr_iter_offset: isize = 0;
        let mut curr_pos: Position = position;
        while !self.board.is_out_of_bounds(curr_pos) && !self.board.is_empty(curr_pos)
            invariant
                self.wf(),
                N <= isize::MAX,
                forall|p: (int, int)| self.cells().dom().contains(p) <==> in_bounds(p, N as int),
                origin == point(position),
                step == stride(iter_dir),
                curr_iter_offset == walk_offset(iter_dir, positions@.len() as int),
                point(curr_pos) == shift(origin, curr_iter_offset as int, *direction),
                positions@.len() > 0 ==> in_bounds(origin, N as int),
                positions@.len() <= along(point(curr_pos), *direction) - along(origin, *direction)
                    || positions@.len() <= along(origin, *direction) - along(
                    point(curr_pos),
                    *direction,
                ),
                run_length(self.cells(), N as int, origin, *direction, iter_dir) == positions@.len()
                    + run_length(self.cells(), N as int, point(curr_pos), *direction, iter_dir),
                forall|i: int|
                    0 <= i < positions@.len() ==> point(#[trigger] positions@[i]) == shift(
                        origin,
                        walk_offset(iter_dir, i),
                        *direction,
                    ) && in_bounds(point(positions@[i]), N as int) && is_occupied(
                        self.cells(),
                        point(positions@[i]),
                    ),
            decreases
                    (match iter_dir {
                        TermDirection::Increasing => N - along(point(curr_pos), *direction),
                        TermDirection::Decreasing => along(point(curr_pos), *direction) + 1,
                    }),
        {
            positions.push(curr_pos);
            curr_iter_offset = curr_iter_offset + step;
            curr_pos = move_position(position, curr_iter_offset, direction);
        }
        positions
    }

    /// The line of tiles through the occupied cell `position` along
    /// `direction`, and its owner.
    pub fn get_term(&self, position: Position, direction: &Direction) -> (result: (Term, Owner))
        requires
            self.wf(),
            is_occupied(self.cells(), point(position)),
        ensures
            (result.0@, result.1) == term_at(self.cells(), N as int, point(position), *direction),
            owner_in_range(result.1, self.player_count()),
    {
        proof {
            self.lemma_wf();
        }
        let start_sequence = self.collect_to_term_end(
            position,
            direction,
            TermDirection::Decreasing,
        );
        let end_sequence = self.collect_to_term_end(position, direction, TermDirection::Increasing);
        let ghost origin = point(position);
        let ghost first = term_start(self.cells(), N as int, origin, *direction);
        let backward = start_sequence.len();
        let forward = end_sequence.len();
        let mut term: Vec<ScrabbleLetter> = Vec::new();
        let mut owners: Vec<Owner> = Vec::new();
        let mut i: usize = backward;
        while i > 0
            invariant
                self.wf(),
                i <= backward,
                backward == start_sequence@.len(),
                first == shift(origin, 1 - backward, *direction),
                term@.len() == backward - i,
                owners@.len() == backward - i,
                forall|j: int|
                    0 <= j < backward ==> point(#[trigger] start_sequence@[j]) == shift(
                        origin,
                        -j,
                        *direction,
                    ) && in_bounds(point(start_sequence@[j]), N as int),
                forall|j: int|
                    0 <= j < term@.len() ==> #[trigger] term@[j] == self.cells()[shift(
                        first,
                        j,
                        *direction,
                    )].0,
                forall|j: int|
                    0 <= j < owners@.len() ==> #[trigger] owners@[j] == self.cells()[shift(
                        first,
                        j,
                        *direction,
                    )].1,
                forall|j: int|
                    0 <= j < owners@.len() ==> owner_in_range(
                        #[trigger] owners@[j],
                        self.player_count(),
                    ),
                forall|p: (int, int)|
                    in_bounds(p, N as int) ==> cell_ok(
                        #[trigger] self.cells()[p],
                        self.player_count(),
                    ),
            decreases i,
        {
            i -= 1;
            let cell = self.cell_at(start_sequence[i]);
            term.push(cell.0);
            owners.push(cell.1);
        }
        let mut i: usize = 1;
        while i < forward
            invariant
                self.wf(),
                1 <= i,
                backward >= 1,
                i <= forward || forward == 0,
                forward == end_sequence@.len(),
                first == shift(origin, 1 - backward, *direction),
                term@.len() == backward + i - 1,
                owners@.len() == backward + i - 1,
                forall|j: int|
                    0 <= j < forward ==> point(#[trigger] end_sequence@[j]) == shift(
                        origin,
                        j,
                        *direction,
                    ) && in_bounds(point(end_sequence@[j]), N as int),
                forall|j: int|
                    0 <= j < term@.len() ==> #[trigger] term@[j] == self.cells()[shift(
                        first,
                        j,
                        *direction,
                    )].0,
                forall|j: int|
                    0 <= j < owners@.len() ==> #[trigger] owners@[j] == self.cells()[shift(
                        first,
                        j,
                        *direction,
                    )].1,
                forall|j: int|
                    0 <= j < owners@.len() ==> owner_in_range(
                        #[trigger] owners@[j],
                        self.player_count(),
                    ),
                forall|p: (int, int)|
                    in_bounds(p, N as int) ==> cell_ok(
                        #[trigger] self.cells()[p],
                        self.player_count(),
                    ),
            decreases forward - i,
        {
            let cell = self.cell_at(end_sequence[i]);
            term.push(cell.0);
            owners.push(cell.1);
            i += 1;
        }
        proof {
            assert(term@ =~= term_letters(self.cells(), N as int, origin, *direction));
            assert(owners@ =~= term_owners(self.cells(), N as int, origin, *direction));
            lemma_owner_is_member(owners@);
        }
        (Term::new(&term), resolve_owner(&owners))
    }

    /// The lines that the laid-down `placement` touches, each with its owner.
    pub fn get_placement_terms(&self, placement: &Placement) -> (result: Vec<(Term, Owner)>)
        requires
            self.wf(),
            placement.letters@.len() >= 1,
            forall|k: int|
                0 <= k < placement.letters@.len() ==> is_occupied(
                    self.cells(),
                    #[trigger] placement.cell(k),
                ),
        ensures
            result@.len() == placement.letters@.len() + 1,
            forall|k: int|
                0 <= k < result@.len() ==> owner_in_range(
                    (#[trigger] result@[k]).1,
                    self.player_count(),
                ),
            forall|k: int|
                0 <= k < result@.len() ==> ((#[trigger] result@[k]).0@, result@[k].1)
                    == placement_terms(
                    self.cells(),
                    N as int,
                    point(placement.start_pos),
                    placement.direction,
                    placement.letters@.len() as int,
                )[k],
    {
        proof {
            self.lemma_wf();
            assert(placement.cell(0) == point(placement.start_pos));
        }
        let mut terms: Vec<(Term, Owner)> = Vec::new();
        let orthogonal = placement.direction.orthogonal();
        terms.push(self.get_term(placement.start_pos, &placement.direction));
        let mut offset: usize = 0;
        while offset < placement.letters.len()
            invariant
                self.wf(),
                N <= isize::MAX,
                forall|p: (int, int)| self.cells().dom().contains(p) <==> in_bounds(p, N as int),
                orthogonal == orthogonal_of(placement.direction),
                offset <= placement.letters@.len(),
                terms@.len() == offset + 1,
                forall|k: int|
                    0 <= k < terms@.len() ==> owner_in_range(
                        (#[trigger] terms@[k]).1,
                        self.player_count(),
                    ),
                forall|k: int|
                    0 <= k < placement.letters@.len() ==> is_occupied(
                        self.cells(),
                        #[trigger] placement.cell(k),
                    ),
                forall|k: int|
                    0 <= k < terms@.len() ==> ((#[trigger] terms@[k]).0@, terms@[k].1)
                        == placement_terms(
                        self.cells(),
                        N as int,
                        point(placement.start_pos),
                        placement.direction,
                        placement.letters@.len() as int,
                    )[k],
            decreases placement.letters@.len() - offset,
        {
            proof {
                assert(is_occupied(self.cells(), placement.cell(offset as int)));
                assert(in_bounds(placement.cell(0), N as int));
            }
            let position = move_position(placement.start_pos, offset as isize, &placement.direction);
            terms.push(self.get_term(position, &orthogonal));
            offset += 1;
        }
        terms
    }

    /// Clears the `count` cells from `start` along `direction`, which lie on
    /// the board.
    fn clear_cells(&mut self, start: Position, direction: &Direction, count: usize)
        requires
            old(self).wf(),
            forall|k: int|
                0 <= k < count ==> in_bounds(#[trigger] shift(point(start), k, *direction), N as int),
        ensures
            final(self).wf(),
            final(self).cells() == without_tiles(
                old(self).cells(),
                point(start),
                *direction,
                count as int,
            ),
            final(self).seats() == old(self).seats(),
            final(self).turn() == old(self).turn(),
            final(self).first_move() == old(self).first_move(),
    {
        proof {
            self.lemma_wf();
        }
        let mut offset: usize = 0;
        assert(self.board@ =~= without_tiles(old(self).cells(), point(start), *direction, 0));
        while offset < count
            invariant
                self.board.wf(),
                N <= isize::MAX,
                offset <= count,
                forall|p: (int, int)| old(self).cells().dom().contains(p) <==> in_bounds(p, N as int),
                forall|k: int|
                    0 <= k < count ==> in_bounds(
                        #[trigger] shift(point(start), k, *direction),
                        N as int,
                    ),
                self.board@ == without_tiles(
                    old(self).cells(),
                    point(start),
                    *direction,
                    offset as int,
                ),
                self.players == old(self).players,
                self.current_player == old(self).current_player,
                self.is_first_placement == old(self).is_first_placement,
            decreases count - offset,
        {
            proof {
                assert(in_bounds(shift(point(start), offset as int, *direction), N as int));
                assert(in_bounds(shift(point(start), 0, *direction), N as int));
            }
            let position = move_position(start, offset as isize, direction);
            self.board.clear(position);
            offset += 1;
            assert(self.board@ =~= without_tiles(
                old(self).cells(),
                point(start),
                *direction,
                offset as int,
            ));
        }
    }

    /// Takes the tiles of `placement`, which lie on the board, off it again.
    pub fn revert_placement(&mut self, placement: &Placement)
        requires
            old(self).wf(),
            forall|k: int|
                0 <= k < placement.letters@.len() ==> in_bounds(
                    #[trigger] shift(point(placement.start_pos), k, placement.direction),
                    N as int,
                ),
        ensures
            final(self).wf(),
            final(self).cells() == without_tiles(
                old(self).cells(),
                point(placement.start_pos),
                placement.direction,
                placement.letters@.len() as int,
            ),
            final(self).seats() == old(self).seats(),
            final(self).turn() == old(self).turn(),
            final(self).first_move() == old(self).first_move(),
    {
        self.clear_cells(placement.start_pos, &placement.direction, placement.letters.len());
    }

    /// Lays the tiles of `placement` on the board in the name of the player to
    /// move. If one of the cells is taken or off the board, the board is left
    /// as it was.
    pub fn try_place(&mut self, placement: &Placement) -> (result: Result<(), ScrabbleRuntimeError>)
        requires
            old(self).wf(),
            !placement.letters@.contains(ScrabbleLetter::Empty),
        ensures
            final(self).wf(),
            final(self).seats() == old(self).seats(),
            final(self).turn() == old(self).turn(),
            final(self).first_move() == old(self).first_move(),
            all_free(
                old(self).cells(),
                point(placement.start_pos),
                placement.direction,
                placement.letters@.len() as int,
            ) ==> result == Ok::<(), ScrabbleRuntimeError>(()) && final(self).cells() == with_tiles(
                old(self).cells(),
                placement.letters@,
                point(placement.start_pos),
                placement.direction,
                old(self).turn(),
            ),
            !all_free(
                old(self).cells(),
                point(placement.start_pos),
                placement.direction,
                placement.letters@.len() as int,
            ) ==> result == Err::<(), ScrabbleRuntimeError>(ScrabbleRuntimeError::BlockedSpace)
                && final(self).cells() == old(self).cells(),
    {
        proof {
            self.lemma_wf();
        }
        let ghost start = point(placement.start_pos);
        let ghost before = self.board@;
        let mut offset: usize = 0;
        proof {
            self.board.lemma_domain();
            self.board.lemma_side();
        }
        assert(self.board@ =~= with_tiles(
            before,
            placement.letters@.take(0),
            start,
            placement.direction,
            self.current_player,
        ));
        while offset < placement.letters.len()
            invariant
                self.wf(),
                N <= isize::MAX,
                before == old(self).board@,
                start == point(placement.start_pos),
                !placement.letters@.contains(ScrabbleLetter::Empty),
                offset <= placement.letters@.len(),
                forall|p: (int, int)| before.dom().contains(p) <==> in_bounds(p, N as int),
                forall|p: (int, int)|
                    in_bounds(p, N as int) ==> cell_ok(
                        #[trigger] before[p],
                        self.players@.len() as int,
                    ),
                forall|k: int|
                    0 <= k < offset ==> is_free(
                        before,
                        #[trigger] shift(start, k, placement.direction),
                    ),
                self.board@ == with_tiles(
                    before,
                    placement.letters@.take(offset as int),
                    start,
                    placement.direction,
                    self.current_player,
                ),
                self.players == old(self).players,
                self.current_player == old(self).current_player,
                self.is_first_placement == old(self).is_first_placement,
            decreases placement.letters@.len() - offset,
        {
            proof {
                if offset > 0 {
                    assert(is_free(before, shift(start, offset as int - 1, placement.direction)));
                    assert(is_free(before, shift(start, 0, placement.direction)));
                }
            }
            let position = move_position(placement.start_pos, offset as isize, &placement.direction);
            let letter = placement.letters[offset];
            assert(placement.letters@.contains(letter));
            let ghost laid = self.board@;
            match self.board.try_place(self.current_player, letter, position) {
                Ok(()) => {
                    proof {
                        assert(is_free(before, point(position)));
                        assert(self.board@ =~= with_tiles(
                            before,
                            placement.letters@.take(offset as int + 1),
                            start,
                            placement.direction,
                            self.current_player,
                        ));
                        assert forall|p: (int, int)| in_bounds(p, N as int) implies cell_ok(
                            #[trigger] self.board@[p],
                            self.players@.len() as int,
                        ) by {
                            if p != point(position) {
                                assert(self.board@[p] == laid[p]);
                            }
                        }
                    }
                },
                Err(err) => {
                    proof {
                        assert(!on_line(point(position), start, placement.direction, offset as int));
                        assert(before.dom().contains(point(position)) ==> laid[point(position)]
                            == before[point(position)]);
                        assert(!is_free(before, shift(start, offset as int, placement.direction)));
                    }
                    self.clear_cells(placement.start_pos, &placement.direction, offset);
                    proof {
                        assert forall|p: (int, int)| before.dom().contains(p) implies (
                        #[trigger] self.board@[p]) == before[p] by {
                            if on_line(p, start, placement.direction, offset as int) {
                                let k = along(p, placement.direction) - along(
                                    start,
                                    placement.direction,
                                );
                                assert(shift(start, k, placement.direction) == p);
                                assert(cell_ok(before[p], self.players@.len() as int));
                            }
                        }
                        assert(self.board@ =~= before);
                    }
                    return Err(err);
                },
            }
            offset += 1;
        }
        proof {
            assert(placement.letters@.take(offset as int) == placement.letters@);
        }
        Ok(())
    }

    /// Passes the turn to the next player.
    pub fn next_player(&mut self)
        requires
            old(self).wf(),
        ensures
            final(self).wf(),
            final(self).turn() == (old(self).turn() + 1) % old(self).player_count(),
            final(self).cells() == old(self).cells(),
            final(self).seats() == old(self).seats(),
            final(self).first_move() == old(self).first_move(),
    {
        proof {
            if self.current_player + 1 == self.players@.len() {
                vstd::arithmetic::div_mod::lemma_mod_self_0(self.players@.len() as int);
            } else {
                vstd::arithmetic::div_mod::lemma_small_mod(
                    (self.current_player + 1) as nat,
                    self.players@.len(),
                );
            }
        }
        let count = self.players.len();
        let next = self.current_player + 1;
        if next == count {
            self.current_player = 0;
        } else {
            self.current_player = next;
        }
    }

    /// Takes `letters` out of the bag of the player to move, all or none.
    fn reserve_letters(&mut self, letters: &Vec<ScrabbleLetter>) -> (result: Result<
        (),
        ScrabbleRuntimeError,
    >)
        requires
            old(self).wf(),
        ensures
            final(self).wf(),
            final(self).cells() == old(self).cells(),
            final(self).turn() == old(self).turn(),
            final(self).first_move() == old(self).first_move(),
            final(self).player_count() == old(self).player_count(),
            forall|i: int|
                0 <= i < old(self).player_count() ==> #[trigger] final(self).points_of(i) == old(self).points_of(i),
            forall|i: int|
                0 <= i < old(self).player_count() && i != old(self).turn() ==> #[trigger] final(self).bag_of(i) == old(self).bag_of(i),
            letters@.to_multiset().subset_of(old(self).bag_of(old(self).turn() as int)) ==> result
                == Ok::<(), ScrabbleRuntimeError>(()) && final(self).bag_of(old(self).turn() as int)
                == old(self).bag_of(old(self).turn() as int).sub(letters@.to_multiset()),
            !letters@.to_multiset().subset_of(old(self).bag_of(old(self).turn() as int)) ==> result
                == Err::<(), ScrabbleRuntimeError>(ScrabbleRuntimeError::MissingLetters) && final(self).bag_of(old(self).turn() as int) == old(self).bag_of(old(self).turn() as int),
    {
        broadcast use vstd::multiset::group_multiset_axioms;

        let id = self.current_player;
        let mut player = self.players.remove(id);
        let result = player.try_consume(letters);
        self.players.insert(id, player);
        proof {
            assert forall|i: int| 0 <= i < self.players@.len() && i != id implies (
            #[trigger] self.players@[i]) == old(self).players@[i] by {}
        }
        result
    }

    /// Puts `letters`, which hold no empty symbol, back into the bag of the
    /// player to move.
    fn return_letters(&mut self, letters: &Vec<ScrabbleLetter>)
        requires
            old(self).wf(),
            letters@.to_multiset().count(ScrabbleLetter::Empty) == 0,
        ensures
            final(self).wf(),
            final(self).cells() == old(self).cells(),
            final(self).turn() == old(self).turn(),
            final(self).first_move() == old(self).first_move(),
            final(self).player_count() == old(self).player_count(),
            forall|i: int|
                0 <= i < old(self).player_count() ==> #[trigger] final(self).points_of(i) == old(self).points_of(i),
            forall|i: int|
                0 <= i < old(self).player_count() && i != old(self).turn() ==> #[trigger] final(self).bag_of(i) == old(self).bag_of(i),
            final(self).bag_of(old(self).turn() as int) == old(self).bag_of(
                old(self).turn() as int,
            ).add(letters@.to_multiset()),
    {
        broadcast use vstd::multiset::group_multiset_axioms;

        let id = self.current_player;
        let mut player = self.players.remove(id);
        player.give_back(letters);
        self.players.insert(id, player);
        proof {
            assert forall|i: int| 0 <= i < self.players@.len() && i != id implies (
            #[trigger] self.players@[i]) == old(self).players@[i] by {}
        }
    }

    /// Adds `value` to the score of player `id`.
    fn credit_player(&mut self, id: PlayerID, value: i32)
        requires
            old(self).wf(),
            id < old(self).player_count(),
        ensures
            final(self).wf(),
            final(self).cells() == old(self).cells(),
            final(self).turn() == old(self).turn(),
            final(self).first_move() == old(self).first_move(),
            final(self).player_count() == old(self).player_count(),
            forall|i: int|
                0 <= i < old(self).player_count() ==> #[trigger] final(self).bag_of(i) == old(self).bag_of(i),
            forall|i: int|
                0 <= i < old(self).player_count() && i != id ==> #[trigger] final(self).points_of(i)
                    == old(self).points_of(i),
            final(self).points_of(id as int) == saturating_sum(
                old(self).points_of(id as int),
                value as int,
            ),
    {
        let mut player = self.players.remove(id);
        player.credit(value);
        self.players.insert(id, player);
        proof {
            assert forall|i: int| 0 <= i < self.players@.len() && i != id implies (
            #[trigger] self.players@[i]) == old(self).players@[i] by {}
        }
    }

    /// Credits each value to the owner of its line.
    fn credit_terms(
        &mut self,
        all_terms: &Vec<(Term, Owner)>,
        values: &Vec<Option<i32>>,
        Ghost(terms): Ghost<Seq<(Seq<ScrabbleLetter>, Owner)>>,
    )
        requires
            old(self).wf(),
            all_terms@.len() == terms.len(),
            values@.len() == all_terms@.len(),
            forall|j: int|
                0 <= j < all_terms@.len() ==> owner_in_range(
                    (#[trigger] all_terms@[j]).1,
                    old(self).player_count(),
                ),
            forall|j: int|
                0 <= j < all_terms@.len() ==> ((#[trigger] all_terms@[j]).0@, all_terms@[j].1)
                    == terms[j],
            forall|j: int|
                0 <= j < values@.len() ==> match #[trigger] values@[j] {
                    Some(value) => terms[j].0.len() != 1 && value_of(terms[j].0) == Ok::<
                        int,
                        TermError,
                    >(value as int),
                    None => terms[j].0.len() == 1 || value_of(terms[j].0) is Err,
                },
        ensures
            final(self).wf(),
            final(self).cells() == old(self).cells(),
            final(self).turn() == old(self).turn(),
            final(self).first_move() == old(self).first_move(),
            final(self).player_count() == old(self).player_count(),
            forall|i: int|
                0 <= i < old(self).player_count() ==> #[trigger] final(self).bag_of(i) == old(self).bag_of(i),
            forall|i: int|
                0 <= i < old(self).player_count() ==> #[trigger] final(self).points_of(i)
                    == score_after(terms, terms.len() as int, i, old(self).points_of(i)),
    {
        let ghost seated = self.player_count();
        let ghost settled = self.cells();
        let ghost mover = self.turn();
        let ghost base_bags = Seq::new(seated as nat, |i: int| self.bag_of(i));
        let ghost base_points = Seq::new(seated as nat, |i: int| self.points_of(i));
        let mut k: usize = 0;
        while k < all_terms.len()
            invariant
                k <= all_terms@.len(),
                all_terms@.len() == terms.len(),
                values@.len() == all_terms@.len(),
                self.wf(),
                self.cells() == settled,
                self.turn() == mover,
                self.first_move() == old(self).first_move(),
                self.player_count() == seated,
                base_bags.len() == seated,
                base_points.len() == seated,
                forall|j: int|
                    0 <= j < all_terms@.len() ==> owner_in_range(
                        (#[trigger] all_terms@[j]).1,
                        self.player_count(),
                    ),
                forall|j: int|
                    0 <= j < all_terms@.len() ==> ((#[trigger] all_terms@[j]).0@, all_terms@[j].1)
                        == terms[j],
                forall|j: int|
                    0 <= j < values@.len() ==> match #[trigger] values@[j] {
                        Some(value) => terms[j].0.len() != 1 && value_of(terms[j].0) == Ok::<
                            int,
                            TermError,
                        >(value as int),
                        None => terms[j].0.len() == 1 || value_of(terms[j].0) is Err,
                    },
                forall|i: int|
                    0 <= i < self.player_count() ==> #[trigger] self.bag_of(i) == base_bags[i],
                forall|i: int|
                    0 <= i < self.player_count() ==> #[trigger] self.points_of(i) == score_after(
                        terms,
                        k as int,
                        i,
                        base_points[i],
                    ),
            decreases all_terms@.len() - k,
        {
            let ghost earlier = Seq::new(seated as nat, |i: int| self.points_of(i));
            proof {
                assert(terms[k as int] == (all_terms@[k as int].0@, all_terms@[k as int].1));
            }
            match values[k] {
                Some(value) => {
                    match all_terms[k].1 {
                        Owner::Owning(player_id) => {
                            self.credit_player(player_id, value);
                        },
                        Owner::Unowned => {},
                    }
                },
                None => {},
            }
            k += 1;
            proof {
                assert forall|i: int| 0 <= i < self.player_count() implies #[trigger] self.points_of(
                    i,
                ) == score_after(terms, k as int, i, base_points[i]) by {
                    assert(earlier[i] == score_after(terms, k as int - 1, i, base_points[i]));
                }
            }
        }
    }

    /// Records that a placement has succeeded.
    fn close_first_move(&mut self)
        requires
            old(self).wf(),
        ensures
            final(self).wf(),
            !final(self).first_move(),
            final(self).turn() == old(self).turn(),
            final(self).cells() == old(self).cells(),
            final(self).seats() == old(self).seats(),
    {
        self.is_first_placement = false;
    }

    /// The board after the player to move has laid `placement`.
    pub open spec fn laid_cells(&self, placement: &Placement) -> Cells {
        with_tiles(
            self.cells(),
            placement.letters@,
            point(placement.start_pos),
            placement.direction,
            self.turn(),
        )
    }

    /// The lines that `placement` touches once it is laid, with their owners.
    pub open spec fn touched_terms(&self, placement: &Placement) -> Seq<(Seq<ScrabbleLetter>, Owner)> {
        placement_terms(
            self.laid_cells(placement),
            N as int,
            point(placement.start_pos),
            placement.direction,
            placement.letters@.len() as int,
        )
    }

    /// How the game answers `placement`: the bag of the player to move has to
    /// hold the tiles, the cells have to be free, every line of two or more
    /// tiles has to have a value, and there has to be such a line.
    pub open spec fn verdict(&self, placement: &Placement) -> Result<(), ScrabbleRuntimeError> {
        if !placement.letters@.to_multiset().subset_of(self.bag_of(self.turn() as int)) {
            Err(ScrabbleRuntimeError::MissingLetters)
        } else if !all_free(
            self.cells(),
            point(placement.start_pos),
            placement.direction,
            placement.letters@.len() as int,
        ) {
            Err(ScrabbleRuntimeError::BlockedSpace)
        } else if some_term_fails(self.touched_terms(placement)) {
            Err(ScrabbleRuntimeError::InvalidPlacement(PlacementFault::InvalidTerms))
        } else if scored_count(self.touched_terms(placement), (placement.letters@.len() + 1) as int) == 0 {
            Err(ScrabbleRuntimeError::InvalidPlacement(PlacementFault::OnlySingletons))
        } else {
            Ok(())
        }
    }

    /// True when `other` shows the same board, bags, scores, turn and
    /// first-move mark as this game.
    pub open spec fn same_state(&self, other: &ScrabbleGame<N>) -> bool {
        &&& self.cells() == other.cells()
        &&& self.turn() == other.turn()
        &&& self.first_move() == other.first_move()
        &&& self.player_count() == other.player_count()
        &&& forall|i: int|
            0 <= i < self.player_count() ==> #[trigger] self.bag_of(i) == other.bag_of(i)
        &&& forall|i: int|
            0 <= i < self.player_count() ==> #[trigger] self.points_of(i) == other.points_of(i)
    }

    /// Carries out `placement` for the player to move, or rejects it and
    /// leaves the game as it was. On success the tiles leave the bag and lie
    /// on the board, the value of every line of two or more tiles that they
    /// touch is credited to the owner of that line, and the turn passes on.
    pub fn place_on_board(&mut self, placement: &Placement) -> (result: Result<
        (),
        ScrabbleRuntimeError,
    >)
        requires
            old(self).inv(),
            1 <= placement.letters@.len() <= 3,
        ensures
            final(self).inv(),
            final(self).player_count() == old(self).player_count(),
            result == old(self).verdict(placement),
            result is Err ==> old(self).same_state(final(self)),
            result is Ok ==> old(self).carried_out(placement, final(self)),
            result is Ok && old(self).first_move() ==> scored_count(
                old(self).touched_terms(placement),
                (placement.letters@.len() + 1) as int,
            ) == 1,
    {
        proof {
            self.lemma_wf();
            self.lemma_inv();
        }
        let ghost letters = placement.letters@;
        let ghost start = point(placement.start_pos);
        let ghost count = placement.letters@.len() as int;
        let ghost bag = old(self).bag_of(old(self).turn() as int);
        match self.reserve_letters(&placement.letters) {
            Ok(()) => {},
            Err(e) => {
                return Err(e);
            },
        }
        proof {
            lemma_taken_letters(bag, letters);
            self.lemma_wf();
        }
        match self.try_place(placement) {
            Ok(()) => {},
            Err(e) => {
                proof {
                    self.lemma_wf();
                }
                self.return_letters(&placement.letters);
                return Err(e);
            },
        }
        let ghost laid = self.cells();
        let ghost terms = old(self).touched_terms(placement);
        proof {
            self.lemma_wf();
            assert forall|k: int| 0 <= k < count implies is_occupied(
                laid,
                #[trigger] placement.cell(k),
            ) by {
                let p = shift(start, k, placement.direction);
                assert(is_free(old(self).cells(), p));
                assert(on_line(p, start, placement.direction, count));
                assert(letters.contains(letters[k]));
            }
        }
        let all_terms = self.get_placement_terms(placement);
        let mut are_terms_valid: bool = true;
        let mut survivors: usize = 0;
        let mut values: Vec<Option<i32>> = Vec::new();
        let mut k: usize = 0;
        while k < all_terms.len()
            invariant
                k <= all_terms@.len(),
                all_terms@.len() == terms.len(),
                all_terms@.len() <= 4,
                values@.len() == k,
                survivors == scored_count(terms, k as int),
                survivors <= k,
                forall|j: int|
                    0 <= j < all_terms@.len() ==> ((#[trigger] all_terms@[j]).0@, all_terms@[j].1)
                        == terms[j],
                are_terms_valid <==> forall|j: int|
                    0 <= j < k && (#[trigger] terms[j]).0.len() != 1 ==> value_of(terms[j].0) is Ok,
                forall|j: int|
                    0 <= j < k ==> match #[trigger] values@[j] {
                        Some(value) => terms[j].0.len() != 1 && value_of(terms[j].0) == Ok::<
                            int,
                            TermError,
                        >(value as int),
                        None => terms[j].0.len() == 1 || value_of(terms[j].0) is Err,
                    },
            decreases all_terms@.len() - k,
        {
            if all_terms[k].0.is_singleton() {
                values.push(None);
            } else {
                survivors += 1;
                match all_terms[k].0.evaluate() {
                    Ok(value) => {
                        values.push(Some(value));
                    },
                    Err(_) => {
                        are_terms_valid = false;
                        values.push(None);
                    },
                }
            }
            k += 1;
        }
        proof {
            if old(self).first_move() {
                lemma_first_move_terms(
                    old(self).cells(),
                    N as int,
                    letters,
                    start,
                    placement.direction,
                    old(self).turn(),
                );
                lemma_one_scored(terms, count + 1);
            }
        }
        if !are_terms_valid || survivors == 0 {
            self.return_letters(&placement.letters);
            proof {
                self.lemma_wf();
            }
            let ghost returned = self.seats();
            self.revert_placement(placement);
            proof {
                self.lemma_wf();
                assert(self.seats() == returned);
                assert forall|p: (int, int)| old(self).cells().dom().contains(p) implies (
                #[trigger] self.cells()[p]) == old(self).cells()[p] by {
                    if on_line(p, start, placement.direction, count) {
                        let j = along(p, placement.direction) - along(start, placement.direction);
                        assert(shift(start, j, placement.direction) == p);
                        assert(cell_ok(old(self).cells()[p], old(self).player_count()));
                    }
                }
                assert(self.cells() =~= old(self).cells());
                if survivors == 0 {
                    lemma_no_score_without_terms(terms, count + 1);
                }
            }
            if !are_terms_valid {
                return Err(ScrabbleRuntimeError::InvalidPlacement(PlacementFault::InvalidTerms));
            }
            return Err(ScrabbleRuntimeError::InvalidPlacement(PlacementFault::OnlySingletons));
        }
        proof {
            self.lemma_wf();
        }
        self.credit_terms(&all_terms, &values, Ghost(terms));
        proof {
            self.lemma_wf();
        }
        let ghost credited = self.seats();
        self.next_player();
        self.close_first_move();
        proof {
            self.lemma_wf();
            assert(self.seats() == credited);
        }
        Ok(())
    }

    /// Carries out a command and hands back what there is to show. A query
    /// leaves the game as it is; a placement goes by `place_on_board`.
    pub fn execute_command(&mut self, cmd: &Command) -> (result: Result<
        CommandOutput,
        ScrabbleRuntimeError,
    >)
        requires
            old(self).inv(),
            !(cmd is Quit),
            cmd matches Command::Place(placement) ==> 1 <= placement.letters@.len() <= 3,
        ensures
            final(self).inv(),
            match *cmd {
                Command::Quit => true,
                Command::Print => *final(self) == *old(self) && (result matches Ok(
                    CommandOutput::Board(rows),
                ) && shows_board(rows@, old(self).cells(), N as int)),
                Command::Score(id) => *final(self) == *old(self) && if id < old(self).player_count() {
                    result matches Ok(CommandOutput::Score(score)) && score == old(self).points_of(
                        id as int,
                    )
                } else {
                    result matches Err(e) && e == ScrabbleRuntimeError::PlayerIDOutOfBOunds(id)
                },
                Command::Bag(id) => *final(self) == *old(self) && if id < old(self).player_count() {
                    result matches Ok(CommandOutput::Bag(letters)) && letters@.to_multiset() == old(self).bag_of(id as int)
                } else {
                    result matches Err(e) && e == ScrabbleRuntimeError::PlayerIDOutOfBOunds(id)
                },
                Command::Place(placement) => final(self).placed(old(self), &placement, result),
            },
    {
        match cmd {
            Command::Quit => Ok(CommandOutput::Nothing),
            Command::Print => Ok(CommandOutput::Board(self.board.render())),
            Command::Score(player_id) => {
                if *player_id >= self.players.len() {
                    Err(ScrabbleRuntimeError::PlayerIDOutOfBOunds(*player_id))
                } else {
                    Ok(CommandOutput::Score(self.players[*player_id].score()))
                }
            },
            Command::Bag(player_id) => {
                if *player_id >= self.players.len() {
                    Err(ScrabbleRuntimeError::PlayerIDOutOfBOunds(*player_id))
                } else {
                    Ok(CommandOutput::Bag(self.players[*player_id].bag_letters()))
                }
            },
            Command::Place(placement) => {
                match self.place_on_board(placement) {
                    Ok(()) => Ok(CommandOutput::Nothing),
                    Err(e) => Err(e),
                }
            },
        }
    }

    /// True when this game is what `before` becomes by `placement`, and
    /// `result` is the answer to it.
    pub open spec fn placed(
        &self,
        before: &ScrabbleGame<N>,
        placement: &Placement,
        result: Result<CommandOutput, ScrabbleRuntimeError>,
    ) -> bool {
        match before.verdict(placement) {
            Ok(()) => result matches Ok(CommandOutput::Nothing) && before.carried_out(
                placement,
                self,
            ),
            Err(e) => result matches Err(found) && found == e && before.same_state(self),
        }
    }

    /// True when `after` is this game with `placement` carried out: the tiles
    /// have left the bag of the player to move and lie on the board, each line
    /// of two or more tiles that they touch is credited to its owner, and the
    /// turn has passed on.
    pub open spec fn carried_out(&self, placement: &Placement, after: &ScrabbleGame<N>) -> bool {
        &&& after.player_count() == self.player_count()
        &&& after.cells() == self.laid_cells(placement)
        &&& after.turn() == (self.turn() + 1) % self.player_count()
        &&& !after.first_move()
        &&& after.bag_of(self.turn() as int) == self.bag_of(self.turn() as int).sub(
            placement.letters@.to_multiset(),
        )
        &&& forall|i: int|
            0 <= i < self.player_count() && i != self.turn() ==> #[trigger] after.bag_of(i)
                == self.bag_of(i)
        &&& forall|i: int|
            0 <= i < self.player_count() ==> #[trigger] after.points_of(i) == score_after(
                self.touched_terms(placement),
                (placement.letters@.len() + 1) as int,
                i,
                self.points_of(i),
            )
    }
}

/// Tiles taken out of a bag that holds no empty symbol hold none either, and
/// putting them back restores the bag.
proof fn lemma_taken_letters(bag: Multiset<ScrabbleLetter>, letters: Seq<ScrabbleLetter>)
    requires
        letters.to_multiset().subset_of(bag),
        bag.count(ScrabbleLetter::Empty) == 0,
    ensures
        letters.to_multiset().count(ScrabbleLetter::Empty) == 0,
        !letters.contains(ScrabbleLetter::Empty),
        bag.sub(letters.to_multiset()).add(letters.to_multiset()) == bag,
{
    broadcast use vstd::multiset::group_multiset_axioms;

    letters.to_multiset_ensures();
    assert(letters.to_multiset().count(ScrabbleLetter::Empty) <= bag.count(ScrabbleLetter::Empty));
    assert(bag.sub(letters.to_multiset()).add(letters.to_multiset()) =~= bag);
}

/// On a bare board the line across each tile of a placement is that tile
/// alone.
pub proof fn lemma_first_move_terms(
    cells: Cells,
    side: int,
    letters: Seq<ScrabbleLetter>,
    start: (int, int),
    direction: Direction,
    owner: PlayerID,
)
    requires
        forall|p: (int, int)| cells.dom().contains(p) <==> in_bounds(p, side),
        forall|p: (int, int)| in_bounds(p, side) ==> #[trigger] cells[p] == blank(),
        !letters.contains(ScrabbleLetter::Empty),
        all_free(cells, start, direction, letters.len() as int),
    ensures
        forall|k: int|
            1 <= k <= letters.len() ==> (#[trigger] placement_terms(
                with_tiles(cells, letters, start, direction, owner),
                side,
                start,
                direction,
                letters.len() as int,
            )[k]).0.len() == 1,
{
    let laid = with_tiles(cells, letters, start, direction, owner);
    let other = orthogonal_of(direction);
    assert forall|k: int| 1 <= k <= letters.len() implies (#[trigger] placement_terms(
        laid,
        side,
        start,
        direction,
        letters.len() as int,
    )[k]).0.len() == 1 by {
        let cell = shift(start, k - 1, direction);
        let below = shift(cell, -1, other);
        let above = shift(cell, 1, other);
        assert(!on_line(below, start, direction, letters.len() as int));
        assert(!on_line(above, start, direction, letters.len() as int));
        assert(!is_occupied(laid, below));
        assert(!is_occupied(laid, above));
        assert(run_length(laid, side, below, other, TermDirection::Decreasing) == 0);
        assert(run_length(laid, side, above, other, TermDirection::Increasing) == 0);
        assert(is_free(cells, cell));
        assert(on_line(cell, start, direction, letters.len() as int));
        assert(letters.contains(letters[k - 1]));
        assert(is_occupied(laid, cell));
        assert(run_length(laid, side, cell, other, TermDirection::Decreasing) == 1);
        assert(run_length(laid, side, cell, other, TermDirection::Increasing) == 1);
    }
}

/// Where every line but the first is a single tile, at most one line counts.
pub proof fn lemma_one_scored(terms: Seq<(Seq<ScrabbleLetter>, Owner)>, upto: int)
    requires
        forall|k: int| 1 <= k < upto ==> (#[trigger] terms[k]).0.len() == 1,
    ensures
        scored_count(terms, upto) <= 1,
    decreases upto,
{
    if upto > 1 {
        lemma_one_scored(terms, upto - 1);
    } else if upto == 1 {
        assert(scored_count(terms, 0) == 0);
    }
}

/// Where no line counts, each line is a single tile and none fails.
pub proof fn lemma_no_score_without_terms(terms: Seq<(Seq<ScrabbleLetter>, Owner)>, upto: int)
    requires
        0 <= upto <= terms.len(),
        scored_count(terms, upto) == 0,
    ensures
        forall|k: int| 0 <= k < upto ==> (#[trigger] terms[k]).0.len() == 1,
    decreases upto,
{
    if upto > 0 {
        lemma_no_score_without_terms(terms, upto - 1);
    }
}

/// A player is credited nothing by lines of a single tile and by lines that
/// somebody else or nobody owns.
pub proof fn lemma_uncredited(
    terms: Seq<(Seq<ScrabbleLetter>, Owner)>,
    upto: int,
    player: int,
    base: int,
)
    requires
        forall|k: int|
            0 <= k < upto ==> (#[trigger] terms[k]).0.len() == 1 || !owned_by(terms[k].1, player),
    ensures
        score_after(terms, upto, player, base) == base,
    decreases upto,
{
    if upto > 0 {
        lemma_uncredited(terms, upto - 1, player, base);
    }
}

/// Lines of a single tile are not counted and cannot make a placement fail,
/// whatever their tile is.
pub proof fn lemma_singletons_are_ignored(terms: Seq<(Seq<ScrabbleLetter>, Owner)>, upto: int)
    requires
        0 <= upto <= terms.len(),
        forall|k: int| 0 <= k < terms.len() ==> (#[trigger] terms[k]).0.len() == 1,
    ensures
        scored_count(terms, upto) == 0,
        !some_term_fails(terms),
    decreases upto,
{
    if upto > 0 {
        lemma_singletons_are_ignored(terms, upto - 1);
    }
}

/// What stands on a line of a single tile does not matter: two lists of lines
/// that differ only in such lines count the same lines, fail together and
/// credit the same scores.
pub proof fn lemma_singleton_content_is_irrelevant(
    terms: Seq<(Seq<ScrabbleLetter>, Owner)>,
    others: Seq<(Seq<ScrabbleLetter>, Owner)>,
    upto: int,
    player: int,
    base: int,
)
    requires
        terms.len() == others.len(),
        0 <= upto <= terms.len(),
        forall|k: int|
            0 <= k < terms.len() ==> (#[trigger] terms[k]) == others[k] || (terms[k].0.len() == 1
                && others[k].0.len() == 1),
    ensures
        scored_count(terms, upto) == scored_count(others, upto),
        score_after(terms, upto, player, base) == score_after(others, upto, player, base),
        some_term_fails(terms) == some_term_fails(others),
    decreases upto,
{
    if upto > 0 {
        lemma_singleton_content_is_irrelevant(terms, others, upto - 1, player, base);
        assert(terms[upto - 1] == others[upto - 1] || (terms[upto - 1].0.len() == 1 && others[upto
            - 1].0.len() == 1));
    }
    if some_term_fails(terms) {
        let k = choose|k: int|
            0 <= k < terms.len() && (#[trigger] terms[k]).0.len() != 1 && value_of(terms[k].0) is Err;
        assert(others[k] == terms[k]);
    }
    if some_term_fails(others) {
        let k = choose|k: int|
            0 <= k < others.len() && (#[trigger] others[k]).0.len() != 1 && value_of(
                others[k].0,
            ) is Err;
        assert(terms[k] == others[k]);
    }
}

/// The tiles that a command takes out of a bag and the tiles that stay in it
/// make up the bag as it was: a rejected placement takes none, a successful
/// one takes its own tiles from the bag of the player to move.
pub proof fn lemma_bags_conserved<const N: usize>(
    before: ScrabbleGame<N>,
    after: ScrabbleGame<N>,
    placement: Placement,
    player: int,
)
    requires
        0 <= player < before.player_count(),
        before.verdict(&placement) is Err ==> before.same_state(&after),
        before.verdict(&placement) is Ok ==> before.carried_out(&placement, &after),
    ensures
        before.bag_of(player) == after.bag_of(player).add(
            if before.verdict(&placement) is Ok && player == before.turn() {
                placement.letters@.to_multiset()
            } else {
                Multiset::empty()
            },
        ),
{
    broadcast use vstd::multiset::group_multiset_axioms;

    let taken = placement.letters@.to_multiset();
    if before.verdict(&placement) is Ok && player == before.turn() {
        assert(taken.subset_of(before.bag_of(player)));
        assert(before.bag_of(player).sub(taken).add(taken) =~= before.bag_of(player));
    } else {
        assert(after.bag_of(player).add(Multiset::empty()) =~= after.bag_of(player));
    }
}

} // verus!
