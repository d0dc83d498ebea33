//! The one-line texts by which errors are reported to the players.

use crate::command_parsing::CommandParseError;
use crate::runtime_error::{PlacementFault, ScrabbleRuntimeError};
use crate::scrabble_base_types::ScrabbleLetter;
use crate::term_evaluation::TermError;
use vstd::prelude::*;
use vstd::string::*;

verus! {

/// The character of a decimal digit.
pub open spec fn digit_char(digit: nat) -> char {
    if digit == 0 {
        '0'
    } else if digit == 1 {
        '1'
    } else if digit == 2 {
        '2'
    } else if digit == 3 {
        '3'
    } else if digit == 4 {
        '4'
    } else if digit == 5 {
        '5'
    } else if digit == 6 {
        '6'
    } else if digit == 7 {
        '7'
    } else if digit == 8 {
        '8'
    } else {
        '9'
    }
}

/// The decimal digits of a number, without leading zeros.
pub open spec fn decimal_text(number: nat) -> Seq<char>
    decreases number,
{
    if number < 10 {
        seq![digit_char(number)]
    } else {
        decimal_text(number / 10).push(digit_char(number % 10))
    }
}

/// The decimal form of an integer, with `-` before a negative one.
pub open spec fn integer_text(value: int) -> Seq<char> {
    if value < 0 {
        seq!['-'] + decimal_text((-value) as nat)
    } else {
        decimal_text(value as nat)
    }
}

/// The text that reports a parse error.
pub open spec fn parse_error_text(error: CommandParseError) -> Seq<char> {
    match error {
        CommandParseError::UnknownCommand { input } => "Error: '"@ + input@
            + "' is not a valid command!"@,
        CommandParseError::InvalidPlayerID { id } => "Error: '"@ + id@
            + "' is not a valid player id!"@,
        CommandParseError::InvalidPlacement { placement } => "Error: '"@ + placement@
            + "' is not a valid placement!"@,
        CommandParseError::InvalidLetters { letters } => "Error: '"@ + letters@
            + "' contains invalid letters!"@,
        CommandParseError::InvalidArgumentCount { command, expected, received } =>
            "Error: The command '"@ + command@ + "' expects "@ + decimal_text(expected as nat)
                + " arguments, but received "@ + decimal_text(received as nat) + "!"@,
    }
}

/// The text that reports a rejected request.
pub open spec fn runtime_error_text(error: ScrabbleRuntimeError) -> Seq<char> {
    match error {
        ScrabbleRuntimeError::PlayerIDOutOfBOunds(player_id) => "Error: The player with the id "@
            + decimal_text((player_id + 1) as nat) + " doesn't exist!"@,
        ScrabbleRuntimeError::PositionOutOfBounds(position) => "Error: The position ("@
            + integer_text(position.0 as int) + ", "@ + integer_text(position.1 as int)
            + ") is out of bounds!"@,
        ScrabbleRuntimeError::InvalidPlacement(PlacementFault::InvalidTerms) =>
            "Error: The placement leads to invalid terms!"@,
        ScrabbleRuntimeError::InvalidPlacement(PlacementFault::OnlySingletons) =>
            "Error: Terms of length 1 are not allowed!"@,
        ScrabbleRuntimeError::MissingLetters =>
            "Error: The bag of the current player doesn't contain the right letters for this placement!"@,
        ScrabbleRuntimeError::BlockedSpace =>
            "Error: The placement is out of bounds or tried to overwrite existing letters!"@,
    }
}

/// The sign of an operator tile; nothing for any other tile.
pub open spec fn operator_text(operator: ScrabbleLetter) -> Seq<char> {
    match operator {
        ScrabbleLetter::Plus => "+"@,
        ScrabbleLetter::Minus => "-"@,
        ScrabbleLetter::Dot => "*"@,
        _ => ""@,
    }
}

/// The text that says why a line of tiles has no value.
pub open spec fn term_error_text(error: TermError) -> Seq<char> {
    match error {
        TermError::EmptyToken => "Found empty token in term!"@,
        TermError::NotEnoughOperands { operator, available } => "The Operator "@ + operator_text(
            operator,
        ) + " expects 2 arguments, but received only "@ + decimal_text(available as nat) + "!"@,
        TermError::Overflow { operator } => "The result of the Operator "@ + operator_text(
            operator,
        ) + " does not fit in 32 bits!"@,
        TermError::UnusedOperands => "Unused arguments are left on the stack!"@,
        TermError::NoValue => "Empty operand stack at the end of evaluation!"@,
    }
}

/// The sign of an operator tile.
fn operator_str(operator: ScrabbleLetter) -> (result: &'static str)
    ensures
        result@ == operator_text(operator),
{
    match operator {
        ScrabbleLetter::Plus => "+",
        ScrabbleLetter::Minus => "-",
        ScrabbleLetter::Dot => "*",
        _ => "",
    }
}

impl TermError {
    /// The text that reports this error.
    pub fn message(&self) -> (result: String)
        ensures
            result@ == term_error_text(*self),
    {
        match self {
            TermError::EmptyToken => "Found empty token in term!".to_owned(),
            TermError::NotEnoughOperands { operator, available } => {
                let found = decimal_of(*available as u128);
                "The Operator ".to_owned().concat(operator_str(*operator)).concat(
                    " expects 2 arguments, but received only ",
                ).concat(found.as_str()).concat("!")
            },
            TermError::Overflow { operator } => "The result of the Operator ".to_owned().concat(
                operator_str(*operator),
            ).concat(" does not fit in 32 bits!"),
            TermError::UnusedOperands => "Unused arguments are left on the stack!".to_owned(),
            TermError::NoValue => "Empty operand stack at the end of evaluation!".to_owned(),
        }
    }
}

/// A decimal digit as text.
fn digit_str(digit: u128) -> (result: &'static str)
    requires
        digit < 10,
    ensures
        result@ == seq![digit_char(digit as nat)],
{
    proof {
        reveal_strlit("0");
        reveal_strlit("1");
        reveal_strlit("2");
        reveal_strlit("3");
        reveal_strlit("4");
        reveal_strlit("5");
        reveal_strlit("6");
        reveal_strlit("7");
        reveal_strlit("8");
        reveal_strlit("9");
    }
    let text = if digit == 0 {
        "0"
    } else if digit == 1 {
        "1"
    } else if digit == 2 {
        "2"
    } else if digit == 3 {
        "3"
    } else if digit == 4 {
        "4"
    } else if digit == 5 {
        "5"
    } else if digit == 6 {
        "6"
    } else if digit == 7 {
        "7"
    } else if digit == 8 {
        "8"
    } else {
        "9"
    };
    assert(text@ =~= seq![digit_char(digit as nat)]);
    text
}

/// Writes a number in decimal digits.
pub fn decimal_of(number: u128) -> (result: String)
    ensures
        result@ == decimal_text(number as nat),
    decreases number,
{
    if number < 10 {
        digit_str(number).to_owned()
    } else {
        let head = decimal_of(number / 10);
        let last = digit_str(number % 10);
        let text = head.concat(last);
        assert(text@ =~= decimal_text(number as nat / 10).push(digit_char(number as nat % 10)));
        text
    }
}

/// Writes an integer in decimal digits, with its sign where it is negative.
pub fn integer_of(value: isize) -> (result: String)
    ensures
        result@ == integer_text(value as int),
{
    if value < 0 {
        let magnitude: u128 = (-(value as i128)) as u128;
        let digits = decimal_of(magnitude);
        proof {
            reveal_strlit("-");
            assert("-"@ =~= seq!['-']);
        }
        "-".to_owned().concat(digits.as_str())
    } else {
        decimal_of(value as u128)
    }
}

impl CommandParseError {
    /// The text that reports this error.
    pub fn message(&self) -> (result: String)
        ensures
            result@ == parse_error_text(*self),
    {
        match self {
            CommandParseError::UnknownCommand { input } => "Error: '".to_owned().concat(
                input.as_str(),
            ).concat("' is not a valid command!"),
            CommandParseError::InvalidPlayerID { id } => "Error: '".to_owned().concat(
                id.as_str(),
            ).concat("' is not a valid player id!"),
            CommandParseError::InvalidPlacement { placement } => "Error: '".to_owned().concat(
                placement.as_str(),
            ).concat("' is not a valid placement!"),
            CommandParseError::InvalidLetters { letters } => "Error: '".to_owned().concat(
                letters.as_str(),
            ).concat("' contains invalid letters!"),
            CommandParseError::InvalidArgumentCount { command, expected, received } => {
                let wanted = decimal_of(*expected as u128);
                let found = decimal_of(*received as u128);
                "Error: The command '".to_owned().concat(command.as_str()).concat(
                    "' expects ",
                ).concat(wanted.as_str()).concat(" arguments, but received ").concat(
                    found.as_str(),
                ).concat("!")
            },
        }
    }
}

impl ScrabbleRuntimeError {
    /// The text that reports this error.
    pub fn message(&self) -> (result: String)
        ensures
            result@ == runtime_error_text(*self),
    {
        match self {
            ScrabbleRuntimeError::PlayerIDOutOfBOunds(player_id) => {
                let number = decimal_of(*player_id as u128 + 1);
                "Error: The player with the id ".to_owned().concat(number.as_str()).concat(
                    " doesn't exist!",
                )
            },
            ScrabbleRuntimeError::PositionOutOfBounds(position) => {
                let x = integer_of(position.0);
                let y = integer_of(position.1);
                "Error: The position (".to_owned().concat(x.as_str()).concat(", ").concat(
                    y.as_str(),
                ).concat(") is out of bounds!")
            },
            ScrabbleRuntimeError::InvalidPlacement(PlacementFault::InvalidTerms) => {
                "Error: The placement leads to invalid terms!".to_owned()
            },
            ScrabbleRuntimeError::InvalidPlacement(PlacementFault::OnlySingletons) => {
                "Error: Terms of length 1 are not allowed!".to_owned()
            },
            ScrabbleRuntimeError::MissingLetters => {
                "Error: The bag of the current player doesn't contain the right letters for this placement!".to_owned()
            },
            ScrabbleRuntimeError::BlockedSpace => {
                "Error: The placement is out of bounds or tried to overwrite existing letters!".to_owned()
            },
        }
    }
}

} // verus!
