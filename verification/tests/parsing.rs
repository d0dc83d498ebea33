use math_scrabble::command_parsing::{
    chars_of, placement_from_str, player_id_from_str, Command, CommandParseError,
};
use math_scrabble::scrabble_base_types::{Direction, ScrabbleLetter};

#[test]
fn reads_quit_and_print() {
    assert!(matches!(Command::from_str("quit"), Ok(Command::Quit)));
    assert!(matches!(Command::from_str("print"), Ok(Command::Print)));
}

#[test]
fn reads_score_and_bag() {
    assert!(matches!(Command::from_str("score P1"), Ok(Command::Score(0))));
    assert!(matches!(Command::from_str("bag P12"), Ok(Command::Bag(11))));
}

#[test]
fn reads_place() {
    match Command::from_str("place 12+;3;4;V") {
        Ok(Command::Place(placement)) => {
            assert_eq!(
                placement.letters,
                vec![ScrabbleLetter::Num1, ScrabbleLetter::Num2, ScrabbleLetter::Plus]
            );
            assert_eq!(placement.start_pos, (3, 4));
            assert_eq!(placement.direction, Direction::Vertical);
        }
        other => panic!("no placement: {:?}", other),
    }
}

#[test]
fn unknown_words_are_reported_with_the_line() {
    match Command::from_str("jump P1") {
        Err(CommandParseError::UnknownCommand { input }) => assert_eq!(input, "jump P1"),
        other => panic!("{:?}", other),
    }
    assert!(matches!(Command::from_str(""), Err(CommandParseError::UnknownCommand { .. })));
    assert!(matches!(Command::from_str(" quit"), Err(CommandParseError::UnknownCommand { .. })));
    assert!(matches!(Command::from_str("Quit"), Err(CommandParseError::UnknownCommand { .. })));
}

#[test]
fn wrong_argument_counts_are_reported() {
    match Command::from_str("quit now") {
        Err(CommandParseError::InvalidArgumentCount { command, expected, received }) => {
            assert_eq!(command, "quit");
            assert_eq!(expected, 0);
            assert_eq!(received, 1);
        }
        other => panic!("{:?}", other),
    }
    match Command::from_str("score") {
        Err(CommandParseError::InvalidArgumentCount { command, expected, received }) => {
            assert_eq!(command, "score");
            assert_eq!(expected, 1);
            assert_eq!(received, 0);
        }
        other => panic!("{:?}", other),
    }
    match Command::from_str("place 1;0;0;H  ") {
        Err(CommandParseError::InvalidArgumentCount { command, expected, received }) => {
            assert_eq!(command, "place");
            assert_eq!(expected, 1);
            assert_eq!(received, 3);
        }
        other => panic!("{:?}", other),
    }
    match Command::from_str("print ") {
        Err(CommandParseError::InvalidArgumentCount { command, expected, received }) => {
            assert_eq!(command, "print");
            assert_eq!(expected, 0);
            assert_eq!(received, 1);
        }
        other => panic!("{:?}", other),
    }
    match Command::from_str("bag P1 P2") {
        Err(CommandParseError::InvalidArgumentCount { command, expected, received }) => {
            assert_eq!(command, "bag");
            assert_eq!(expected, 1);
            assert_eq!(received, 2);
        }
        other => panic!("{:?}", other),
    }
}

#[test]
fn player_ids_count_from_one() {
    assert!(matches!(player_id_from_str("P1"), Ok(0)));
    assert!(matches!(player_id_from_str("P10"), Ok(9)));
    assert!(matches!(player_id_from_str("P+3"), Ok(2)));
}

#[test]
fn bad_player_ids_are_reported() {
    for text in ["P0", "P01", "1", "p1", "P", "", "P-1", "P1a", "P+", "P+0", "Q1", "P 1"] {
        match player_id_from_str(text) {
            Err(CommandParseError::InvalidPlayerID { id }) => assert_eq!(id, text),
            other => panic!("{}: {:?}", text, other),
        }
    }
    assert!(matches!(
        player_id_from_str("P99999999999999999999999999999"),
        Err(CommandParseError::InvalidPlayerID { .. })
    ));
    assert!(matches!(
        Command::from_str("score P0"),
        Err(CommandParseError::InvalidPlayerID { .. })
    ));
}

#[test]
fn placements_take_signed_coordinates() {
    let placement = placement_from_str("7;-2;+13;H").unwrap();
    assert_eq!(placement.letters, vec![ScrabbleLetter::Num7]);
    assert_eq!(placement.start_pos, (-2, 13));
    assert_eq!(placement.direction, Direction::Horizontal);
    let far = placement_from_str("1;-9223372036854775808;9223372036854775807;V");
    if isize::MAX as i128 == i64::MAX as i128 {
        assert_eq!(far.unwrap().start_pos, (isize::MIN, isize::MAX));
    }
}

#[test]
fn bad_placements_are_reported() {
    for text in [
        "",
        "12+",
        "12+;0;0",
        "12+;0;0;H;",
        "12+;x;0;H",
        "12+;0;;H",
        "12+;0;-;H",
        "12+;0;0;h",
        "12+;0;0;HV",
        "12+;0;0;",
        ";0;0;H",
        "1234;0;0;H",
        "12+;99999999999999999999;0;H",
        "12+;0;-99999999999999999999;V",
        "ab;x;0;H",
        "\u{e9}\u{e9};0;0;H",
    ] {
        match placement_from_str(text) {
            Err(CommandParseError::InvalidPlacement { placement }) => assert_eq!(placement, text),
            other => panic!("{}: {:?}", text, other),
        }
    }
}

#[test]
fn bad_letters_are_reported() {
    match placement_from_str("1a+;0;0;H") {
        Err(CommandParseError::InvalidLetters { letters }) => assert_eq!(letters, "1a+"),
        other => panic!("{:?}", other),
    }
    match placement_from_str("\u{e9};0;0;V") {
        Err(CommandParseError::InvalidLetters { letters }) => assert_eq!(letters, "\u{e9}"),
        other => panic!("{:?}", other),
    }
    assert!(matches!(
        Command::from_str("place 1/2;0;0;H"),
        Err(CommandParseError::InvalidLetters { .. })
    ));
}

#[test]
fn chars_of_lists_the_characters() {
    assert_eq!(chars_of("a\u{e9}+"), vec!['a', '\u{e9}', '+']);
    assert!(chars_of("").is_empty());
}
