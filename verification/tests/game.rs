use math_scrabble::board::Owner;
use math_scrabble::command_parsing::Command;
use math_scrabble::runtime_error::{PlacementFault, ScrabbleRuntimeError};
use math_scrabble::scrabble::{CommandOutput, ScrabbleGame, TermDirection};
use math_scrabble::scrabble_base_types::{Direction, Placement, ScrabbleLetter};

fn tiles(text: &str) -> Vec<ScrabbleLetter> {
    text.chars().map(|c| ScrabbleLetter::from_char(c).unwrap()).collect()
}

fn game(bags: &[&str]) -> ScrabbleGame<10> {
    ScrabbleGame::<10>::new(&bags.iter().map(|bag| tiles(bag)).collect())
}

fn place(text: &str, x: isize, y: isize, direction: Direction) -> Placement {
    Placement::new(&tiles(text), &(x, y), &direction)
}

fn score(game: &mut ScrabbleGame<10>, id: usize) -> isize {
    match game.execute_command(&Command::Score(id)) {
        Ok(CommandOutput::Score(value)) => value,
        other => panic!("no score: {:?}", other),
    }
}

fn bag(game: &mut ScrabbleGame<10>, id: usize) -> String {
    match game.execute_command(&Command::Bag(id)) {
        Ok(CommandOutput::Bag(letters)) => {
            let mut chars: Vec<char> = letters.iter().map(|l| l.to_char()).collect();
            chars.sort();
            chars.into_iter().collect()
        }
        other => panic!("no bag: {:?}", other),
    }
}

fn board(game: &mut ScrabbleGame<10>) -> Vec<String> {
    match game.execute_command(&Command::Print) {
        Ok(CommandOutput::Board(rows)) => rows.iter().map(|row| row.iter().collect()).collect(),
        other => panic!("no board: {:?}", other),
    }
}

#[test]
fn first_move_scores_its_main_term() {
    let mut game = game(&["12+", "34*"]);
    assert_eq!(game.place_on_board(&place("12+", 0, 0, Direction::Horizontal)), Ok(()));
    let rows = board(&mut game);
    assert_eq!(rows.len(), 10);
    assert_eq!(rows[0], "[1][2][+][ ][ ][ ][ ][ ][ ][ ]");
    assert_eq!(rows[1], "[ ][ ][ ][ ][ ][ ][ ][ ][ ][ ]");
    assert_eq!(score(&mut game, 0), 3);
    assert_eq!(score(&mut game, 1), 0);
    assert_eq!(bag(&mut game, 0), "");
    assert_eq!(bag(&mut game, 1), "*34");
}

#[test]
fn first_move_may_be_vertical() {
    let mut game = game(&["34*", "12+"]);
    assert_eq!(game.place_on_board(&place("34*", 5, 2, Direction::Vertical)), Ok(()));
    let rows = board(&mut game);
    assert_eq!(rows[2], "[ ][ ][ ][ ][ ][3][ ][ ][ ][ ]");
    assert_eq!(rows[3], "[ ][ ][ ][ ][ ][4][ ][ ][ ][ ]");
    assert_eq!(rows[4], "[ ][ ][ ][ ][ ][*][ ][ ][ ][ ]");
    assert_eq!(rows[5], "[ ][ ][ ][ ][ ][ ][ ][ ][ ][ ]");
    assert_eq!(score(&mut game, 0), 12);
}

#[test]
fn invalid_second_move_leaves_no_trace() {
    let mut game = game(&["12+", "34*"]);
    assert_eq!(game.place_on_board(&place("12+", 0, 0, Direction::Horizontal)), Ok(()));
    let before = board(&mut game);
    assert_eq!(
        game.place_on_board(&place("3", 2, 1, Direction::Vertical)),
        Err(ScrabbleRuntimeError::InvalidPlacement(PlacementFault::InvalidTerms))
    );
    assert_eq!(board(&mut game), before);
    assert_eq!(bag(&mut game, 1), "*34");
    assert_eq!(score(&mut game, 0), 3);
    assert_eq!(score(&mut game, 1), 0);
    // The turn did not pass: the second player still moves, with its own tiles.
    assert_eq!(
        game.place_on_board(&place("1", 5, 5, Direction::Horizontal)),
        Err(ScrabbleRuntimeError::MissingLetters)
    );
    assert_eq!(
        game.place_on_board(&place("4", 5, 5, Direction::Horizontal)),
        Err(ScrabbleRuntimeError::InvalidPlacement(PlacementFault::OnlySingletons))
    );
}

#[test]
fn placement_over_the_edge_is_blocked() {
    let mut game = game(&["12+", "34*"]);
    let before = board(&mut game);
    assert_eq!(
        game.place_on_board(&place("12+", 8, 0, Direction::Horizontal)),
        Err(ScrabbleRuntimeError::BlockedSpace)
    );
    assert_eq!(board(&mut game), before);
    assert_eq!(bag(&mut game, 0), "+12");
    assert_eq!(
        game.place_on_board(&place("12+", 0, 8, Direction::Vertical)),
        Err(ScrabbleRuntimeError::BlockedSpace)
    );
    assert_eq!(
        game.place_on_board(&place("12+", -1, 0, Direction::Horizontal)),
        Err(ScrabbleRuntimeError::BlockedSpace)
    );
    assert_eq!(board(&mut game), before);
    // Still the first player's first move.
    assert_eq!(game.place_on_board(&place("12+", 7, 0, Direction::Horizontal)), Ok(()));
    assert_eq!(score(&mut game, 0), 3);
}

#[test]
fn placement_on_taken_cell_is_blocked() {
    let mut game = game(&["12+", "34*"]);
    assert_eq!(game.place_on_board(&place("12+", 0, 0, Direction::Horizontal)), Ok(()));
    let before = board(&mut game);
    assert_eq!(
        game.place_on_board(&place("34*", 2, 0, Direction::Vertical)),
        Err(ScrabbleRuntimeError::BlockedSpace)
    );
    assert_eq!(board(&mut game), before);
    assert_eq!(bag(&mut game, 1), "*34");
}

#[test]
fn missing_letters_are_reported_first() {
    let mut game = game(&["12+", "34*"]);
    assert_eq!(
        game.place_on_board(&place("34*", 20, 20, Direction::Horizontal)),
        Err(ScrabbleRuntimeError::MissingLetters)
    );
    assert_eq!(
        game.place_on_board(&place("11", 0, 0, Direction::Horizontal)),
        Err(ScrabbleRuntimeError::MissingLetters)
    );
    assert_eq!(bag(&mut game, 0), "+12");
}

#[test]
fn single_tile_alone_is_rejected() {
    let mut game = game(&["12+", "34*"]);
    let before = board(&mut game);
    assert_eq!(
        game.place_on_board(&place("1", 4, 4, Direction::Horizontal)),
        Err(ScrabbleRuntimeError::InvalidPlacement(PlacementFault::OnlySingletons))
    );
    assert_eq!(board(&mut game), before);
    assert_eq!(bag(&mut game, 0), "+12");
}

#[test]
fn invalid_first_move_is_rejected() {
    let mut game = game(&["12+", "34*"]);
    assert_eq!(
        game.place_on_board(&place("1+2", 0, 0, Direction::Horizontal)),
        Err(ScrabbleRuntimeError::InvalidPlacement(PlacementFault::InvalidTerms))
    );
    assert_eq!(bag(&mut game, 0), "+12");
    assert_eq!(score(&mut game, 0), 0);
}

#[test]
fn majority_owner_is_credited_for_crossing_term() {
    let mut game = game(&["12+", "34*"]);
    assert_eq!(game.place_on_board(&place("12+", 0, 2, Direction::Horizontal)), Ok(()));
    // Column 2 becomes 3, 4, + : two tiles of the second player, one of the first.
    assert_eq!(game.place_on_board(&place("34", 2, 0, Direction::Vertical)), Ok(()));
    assert_eq!(score(&mut game, 0), 3);
    assert_eq!(score(&mut game, 1), 7);
    assert_eq!(bag(&mut game, 1), "*");
    let (term, owner) = game.get_term((2, 1), &Direction::Vertical);
    assert_eq!(term.len(), 3);
    assert_eq!(term.evaluate(), Ok(7));
    assert_eq!(owner, Owner::Owning(1));
    let (row, row_owner) = game.get_term((1, 2), &Direction::Horizontal);
    assert_eq!(row.evaluate(), Ok(3));
    assert_eq!(row_owner, Owner::Owning(0));
}

#[test]
fn turn_goes_round() {
    let mut game = game(&["12+", "34*", "56-"]);
    assert_eq!(game.place_on_board(&place("12+", 0, 0, Direction::Horizontal)), Ok(()));
    assert_eq!(game.place_on_board(&place("34*", 0, 2, Direction::Horizontal)), Ok(()));
    assert_eq!(game.place_on_board(&place("56-", 0, 4, Direction::Horizontal)), Ok(()));
    assert_eq!(score(&mut game, 0), 3);
    assert_eq!(score(&mut game, 1), 12);
    assert_eq!(score(&mut game, 2), -1);
    // Back to the first player, whose bag is empty.
    assert_eq!(
        game.place_on_board(&place("1", 9, 9, Direction::Horizontal)),
        Err(ScrabbleRuntimeError::MissingLetters)
    );
}

#[test]
fn walk_lists_cells_up_to_the_gap() {
    let mut game = game(&["12+", "34*"]);
    assert_eq!(game.place_on_board(&place("12+", 3, 1, Direction::Horizontal)), Ok(()));
    assert_eq!(
        game.collect_to_term_end((4, 1), &Direction::Horizontal, TermDirection::Increasing),
        vec![(4, 1), (5, 1)]
    );
    assert_eq!(
        game.collect_to_term_end((4, 1), &Direction::Horizontal, TermDirection::Decreasing),
        vec![(4, 1), (3, 1)]
    );
    assert_eq!(
        game.collect_to_term_end((4, 1), &Direction::Vertical, TermDirection::Increasing),
        vec![(4, 1)]
    );
    assert!(game
        .collect_to_term_end((0, 0), &Direction::Vertical, TermDirection::Decreasing)
        .is_empty());
}

#[test]
fn unknown_player_is_reported() {
    let mut game = game(&["12+", "34*"]);
    assert!(matches!(
        game.execute_command(&Command::Score(2)),
        Err(ScrabbleRuntimeError::PlayerIDOutOfBOunds(2))
    ));
    assert!(matches!(
        game.execute_command(&Command::Bag(7)),
        Err(ScrabbleRuntimeError::PlayerIDOutOfBOunds(7))
    ));
}

#[test]
fn place_command_goes_through_the_engine() {
    let mut game = game(&["12+", "34*"]);
    let done = game.execute_command(&Command::Place(place("12+", 0, 0, Direction::Horizontal)));
    assert!(matches!(done, Ok(CommandOutput::Nothing)));
    assert_eq!(score(&mut game, 0), 3);
    let refused = game.execute_command(&Command::Place(place("3", 2, 1, Direction::Vertical)));
    assert!(matches!(
        refused,
        Err(ScrabbleRuntimeError::InvalidPlacement(PlacementFault::InvalidTerms))
    ));
}
