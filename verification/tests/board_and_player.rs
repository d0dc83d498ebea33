use math_scrabble::board::{GameBoard, Owner};
use math_scrabble::ownership::{frequency, resolve_owner};
use math_scrabble::player::{find_letter, Player};
use math_scrabble::runtime_error::ScrabbleRuntimeError;
use math_scrabble::scrabble_base_types::{move_position, Direction, Placement, ScrabbleLetter};

fn tiles(text: &str) -> Vec<ScrabbleLetter> {
    text.chars().map(|c| ScrabbleLetter::from_char(c).unwrap()).collect()
}

fn sorted_text(letters: &Vec<ScrabbleLetter>) -> String {
    let mut chars: Vec<char> = letters.iter().map(|l| l.to_char()).collect();
    chars.sort();
    chars.into_iter().collect()
}

#[test]
fn new_board_is_empty_everywhere() {
    let board = GameBoard::<4>::new();
    for x in 0..4 {
        for y in 0..4 {
            assert!(board.is_empty((x, y)));
            assert_eq!(board.try_get((x, y)), Ok((ScrabbleLetter::Empty, Owner::Unowned)));
        }
    }
}

#[test]
fn bounds_are_zero_to_side() {
    let board = GameBoard::<4>::new();
    assert!(!board.is_out_of_bounds((0, 0)));
    assert!(!board.is_out_of_bounds((3, 3)));
    assert!(board.is_out_of_bounds((4, 0)));
    assert!(board.is_out_of_bounds((0, 4)));
    assert!(board.is_out_of_bounds((-1, 2)));
    assert!(board.is_out_of_bounds((2, -1)));
}

#[test]
fn out_of_bounds_is_not_empty() {
    let board = GameBoard::<4>::new();
    assert!(!board.is_empty((4, 0)));
    assert!(!board.is_empty((-1, 0)));
    assert_eq!(board.try_get((0, 7)), Err(ScrabbleRuntimeError::PositionOutOfBounds((0, 7))));
}

#[test]
fn placing_writes_letter_and_owner() {
    let mut board = GameBoard::<4>::new();
    assert_eq!(board.try_place(1, ScrabbleLetter::Num7, (2, 3)), Ok(()));
    assert_eq!(board.try_get((2, 3)), Ok((ScrabbleLetter::Num7, Owner::Owning(1))));
    assert_eq!(board.try_get((3, 2)), Ok((ScrabbleLetter::Empty, Owner::Unowned)));
    assert!(!board.is_empty((2, 3)));
}

#[test]
fn placing_on_taken_or_outside_cell_is_blocked() {
    let mut board = GameBoard::<4>::new();
    assert_eq!(board.try_place(0, ScrabbleLetter::Num1, (1, 1)), Ok(()));
    assert_eq!(
        board.try_place(1, ScrabbleLetter::Num2, (1, 1)),
        Err(ScrabbleRuntimeError::BlockedSpace)
    );
    assert_eq!(board.try_get((1, 1)), Ok((ScrabbleLetter::Num1, Owner::Owning(0))));
    assert_eq!(
        board.try_place(1, ScrabbleLetter::Num2, (4, 1)),
        Err(ScrabbleRuntimeError::BlockedSpace)
    );
}

#[test]
fn clearing_is_idempotent_and_ignores_outside() {
    let mut board = GameBoard::<4>::new();
    assert_eq!(board.try_place(0, ScrabbleLetter::Plus, (0, 2)), Ok(()));
    board.clear((0, 2));
    assert_eq!(board.try_get((0, 2)), Ok((ScrabbleLetter::Empty, Owner::Unowned)));
    board.clear((0, 2));
    assert!(board.is_empty((0, 2)));
    board.clear((9, 9));
    board.clear((-1, 0));
}

#[test]
fn render_goes_row_by_row() {
    let mut board = GameBoard::<3>::new();
    assert_eq!(board.try_place(0, ScrabbleLetter::Num1, (0, 0)), Ok(()));
    assert_eq!(board.try_place(0, ScrabbleLetter::Dot, (2, 1)), Ok(()));
    let rows = board.render();
    let lines: Vec<String> = rows.iter().map(|row| row.iter().collect()).collect();
    assert_eq!(lines, vec!["[1][ ][ ]", "[ ][ ][*]", "[ ][ ][ ]"]);
}

#[test]
fn consume_takes_one_instance_per_letter() {
    let mut player = Player::new(&tiles("1212+"));
    assert_eq!(player.try_consume(&tiles("21+")), Ok(()));
    assert_eq!(sorted_text(&player.bag_letters()), "12");
    assert_eq!(player.score(), 0);
}

#[test]
fn consume_is_all_or_nothing() {
    let mut player = Player::new(&tiles("12+"));
    assert_eq!(player.try_consume(&tiles("11")), Err(ScrabbleRuntimeError::MissingLetters));
    assert_eq!(player.bag_letters(), tiles("12+"));
    assert_eq!(player.try_consume(&tiles("3")), Err(ScrabbleRuntimeError::MissingLetters));
    assert_eq!(player.bag_letters(), tiles("12+"));
}

#[test]
fn given_back_letters_restore_the_bag() {
    let mut player = Player::new(&tiles("12+"));
    assert_eq!(player.try_consume(&tiles("2+")), Ok(()));
    player.give_back(&tiles("2+"));
    assert_eq!(sorted_text(&player.bag_letters()), "+12");
}

#[test]
fn credit_adds_and_saturates() {
    let mut player = Player::new(&tiles("1"));
    player.credit(5);
    player.credit(-8);
    assert_eq!(player.score(), -3);
    let mut rich = Player::new(&tiles("1"));
    for _ in 0..5 {
        rich.credit(i32::MAX);
    }
    assert_eq!(rich.score(), 5 * (i32::MAX as isize));
}

#[test]
fn find_letter_gives_first_place() {
    assert_eq!(find_letter(&tiles("12+2"), ScrabbleLetter::Num2), Some(1));
    assert_eq!(find_letter(&tiles("12+2"), ScrabbleLetter::Dot), None);
}

#[test]
fn frequency_counts_each_owner_once() {
    let owners = vec![Owner::Owning(1), Owner::Owning(0), Owner::Owning(1)];
    assert_eq!(frequency(&owners), vec![(Owner::Owning(1), 2), (Owner::Owning(0), 1)]);
}

#[test]
fn strict_majority_owns_the_term() {
    let owners = vec![Owner::Owning(1), Owner::Owning(0), Owner::Owning(1)];
    assert_eq!(resolve_owner(&owners), Owner::Owning(1));
    assert_eq!(resolve_owner(&vec![Owner::Owning(4)]), Owner::Owning(4));
}

#[test]
fn shared_highest_tally_owns_nothing() {
    let owners = vec![Owner::Owning(0), Owner::Owning(1)];
    assert_eq!(resolve_owner(&owners), Owner::Unowned);
    let three = vec![
        Owner::Owning(0),
        Owner::Owning(1),
        Owner::Owning(2),
        Owner::Owning(1),
        Owner::Owning(0),
    ];
    assert_eq!(resolve_owner(&three), Owner::Unowned);
    assert_eq!(resolve_owner(&Vec::new()), Owner::Unowned);
}

#[test]
fn directions_step_and_turn() {
    assert_eq!(Direction::Horizontal.as_vec(), (1, 0));
    assert_eq!(Direction::Vertical.as_vec(), (0, 1));
    assert_eq!(Direction::Horizontal.orthogonal(), Direction::Vertical);
    assert_eq!(Direction::Vertical.orthogonal(), Direction::Horizontal);
    assert_eq!(move_position((2, 3), 2, &Direction::Horizontal), (4, 3));
    assert_eq!(move_position((2, 3), -3, &Direction::Vertical), (2, 0));
}

#[test]
fn placement_keeps_its_parts() {
    let placement = Placement::new(&tiles("12+"), &(3, 4), &Direction::Vertical);
    assert_eq!(placement.letters, tiles("12+"));
    assert_eq!(placement.start_pos, (3, 4));
    assert_eq!(placement.direction, Direction::Vertical);
}
