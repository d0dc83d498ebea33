use math_scrabble::command_parsing::{Command, CommandParseError};
use math_scrabble::messages::{decimal_of, integer_of};
use math_scrabble::runtime_error::{PlacementFault, ScrabbleRuntimeError};
use math_scrabble::scrabble_base_types::ScrabbleLetter;
use math_scrabble::term_evaluation::{Term, TermError};

#[test]
fn numbers_are_written_in_decimal() {
    assert_eq!(decimal_of(0), "0");
    assert_eq!(decimal_of(7), "7");
    assert_eq!(decimal_of(10), "10");
    assert_eq!(decimal_of(1234567890), "1234567890");
    assert_eq!(decimal_of(u128::MAX), u128::MAX.to_string());
    assert_eq!(integer_of(0), "0");
    assert_eq!(integer_of(-45), "-45");
    assert_eq!(integer_of(isize::MIN), isize::MIN.to_string());
    assert_eq!(integer_of(isize::MAX), isize::MAX.to_string());
}

#[test]
fn parse_errors_have_their_texts() {
    assert_eq!(
        CommandParseError::UnknownCommand { input: "jump".to_string() }.message(),
        "Error: 'jump' is not a valid command!"
    );
    assert_eq!(
        CommandParseError::InvalidPlayerID { id: "P0".to_string() }.message(),
        "Error: 'P0' is not a valid player id!"
    );
    assert_eq!(
        CommandParseError::InvalidPlacement { placement: "1;2".to_string() }.message(),
        "Error: '1;2' is not a valid placement!"
    );
    assert_eq!(
        CommandParseError::InvalidLetters { letters: "1a".to_string() }.message(),
        "Error: '1a' contains invalid letters!"
    );
    assert_eq!(
        CommandParseError::InvalidArgumentCount {
            command: "score".to_string(),
            expected: 1,
            received: 12
        }
        .message(),
        "Error: The command 'score' expects 1 arguments, but received 12!"
    );
}

#[test]
fn parsed_errors_report_the_input() {
    match Command::from_str("bag Px") {
        Err(e) => assert_eq!(e.message(), "Error: 'Px' is not a valid player id!"),
        Ok(_) => panic!("accepted"),
    }
}

#[test]
fn runtime_errors_have_their_texts() {
    assert_eq!(
        ScrabbleRuntimeError::PlayerIDOutOfBOunds(2).message(),
        "Error: The player with the id 3 doesn't exist!"
    );
    assert_eq!(
        ScrabbleRuntimeError::PlayerIDOutOfBOunds(usize::MAX).message(),
        format!("Error: The player with the id {} doesn't exist!", usize::MAX as u128 + 1)
    );
    assert_eq!(
        ScrabbleRuntimeError::PositionOutOfBounds((-1, 10)).message(),
        "Error: The position (-1, 10) is out of bounds!"
    );
    assert_eq!(
        ScrabbleRuntimeError::InvalidPlacement(PlacementFault::InvalidTerms).message(),
        "Error: The placement leads to invalid terms!"
    );
    assert_eq!(
        ScrabbleRuntimeError::InvalidPlacement(PlacementFault::OnlySingletons).message(),
        "Error: Terms of length 1 are not allowed!"
    );
    assert_eq!(
        ScrabbleRuntimeError::MissingLetters.message(),
        "Error: The bag of the current player doesn't contain the right letters for this placement!"
    );
    assert_eq!(
        ScrabbleRuntimeError::BlockedSpace.message(),
        "Error: The placement is out of bounds or tried to overwrite existing letters!"
    );
}

#[test]
fn term_errors_have_their_texts() {
    assert_eq!(TermError::EmptyToken.message(), "Found empty token in term!");
    assert_eq!(
        TermError::NotEnoughOperands { operator: ScrabbleLetter::Minus, available: 1 }.message(),
        "The Operator - expects 2 arguments, but received only 1!"
    );
    assert_eq!(
        TermError::Overflow { operator: ScrabbleLetter::Dot }.message(),
        "The result of the Operator * does not fit in 32 bits!"
    );
    assert_eq!(TermError::UnusedOperands.message(), "Unused arguments are left on the stack!");
    assert_eq!(TermError::NoValue.message(), "Empty operand stack at the end of evaluation!");
    let plus = Term::new(&vec![ScrabbleLetter::Plus]);
    assert_eq!(
        plus.evaluate().unwrap_err().message(),
        "The Operator + expects 2 arguments, but received only 0!"
    );
}
