use math_scrabble::scrabble_base_types::ScrabbleLetter;
use math_scrabble::term_evaluation::{Term, TermError};

fn tiles(text: &str) -> Vec<ScrabbleLetter> {
    text.chars().map(|c| ScrabbleLetter::from_char(c).unwrap()).collect()
}

#[test]
fn evaluates_sum() {
    assert_eq!(Term::new(&tiles("12+")).evaluate(), Ok(3));
}

#[test]
fn evaluates_product() {
    assert_eq!(Term::new(&tiles("34*")).evaluate(), Ok(12));
}

#[test]
fn evaluates_single_digit() {
    let term = Term::new(&tiles("5"));
    assert!(term.is_singleton());
    assert_eq!(term.evaluate(), Ok(5));
}

#[test]
fn earlier_operand_is_the_left_one() {
    assert_eq!(Term::new(&tiles("39-")).evaluate(), Ok(-6));
    assert_eq!(Term::new(&tiles("93-")).evaluate(), Ok(6));
}

#[test]
fn evaluates_nested_expression() {
    assert_eq!(Term::new(&tiles("12+34*-")).evaluate(), Ok(-9));
    assert_eq!(Term::new(&tiles("123*+")).evaluate(), Ok(7));
}

#[test]
fn rejects_two_operands_without_operator() {
    assert_eq!(Term::new(&tiles("12")).evaluate(), Err(TermError::UnusedOperands));
}

#[test]
fn rejects_operator_without_operands() {
    assert_eq!(
        Term::new(&tiles("+")).evaluate(),
        Err(TermError::NotEnoughOperands { operator: ScrabbleLetter::Plus, available: 0 })
    );
}

#[test]
fn rejects_operator_with_one_operand() {
    assert_eq!(
        Term::new(&tiles("7*")).evaluate(),
        Err(TermError::NotEnoughOperands { operator: ScrabbleLetter::Dot, available: 1 })
    );
}

#[test]
fn rejects_empty_token() {
    let term = Term::new(&vec![ScrabbleLetter::Num1, ScrabbleLetter::Empty, ScrabbleLetter::Plus]);
    assert_eq!(term.evaluate(), Err(TermError::EmptyToken));
}

#[test]
fn rejects_empty_term() {
    let term = Term::new(&Vec::new());
    assert!(!term.is_singleton());
    assert_eq!(term.len(), 0);
    assert_eq!(term.evaluate(), Err(TermError::NoValue));
}

#[test]
fn rejects_value_beyond_32_bits() {
    // 9^10 = 3486784401 does not fit, 9^9 = 387420489 does.
    assert_eq!(Term::new(&tiles("99*9*9*9*9*9*9*9*")).evaluate(), Ok(387420489));
    assert_eq!(
        Term::new(&tiles("99*9*9*9*9*9*9*9*9*")).evaluate(),
        Err(TermError::Overflow { operator: ScrabbleLetter::Dot })
    );
}

#[test]
fn letters_round_trip_through_characters() {
    for c in "0123456789+-*".chars() {
        let letter = ScrabbleLetter::from_char(c).unwrap();
        assert_ne!(letter, ScrabbleLetter::Empty);
        assert_eq!(letter.to_char(), c);
    }
    assert_eq!(ScrabbleLetter::Empty.to_char(), ' ');
}

#[test]
fn other_characters_are_no_letters() {
    for c in " /a.x=".chars() {
        assert_eq!(ScrabbleLetter::from_char(c), None);
    }
}
