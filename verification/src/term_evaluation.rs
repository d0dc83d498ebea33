//! Postfix evaluation of a line of tiles.
//!
//! Operands and intermediate results are 32-bit signed integers. Arithmetic is
//! checked: a result outside that range makes the evaluation fail.

use crate::scrabble_base_types::ScrabbleLetter;
use vstd::prelude::*;

verus! {

/// Why a line of tiles is not a well-formed postfix expression.
#[derive(Copy, Clone, Debug, PartialEq, Eq, Structural)]
pub enum TermError {
    /// An empty cell stands among the tokens.
    EmptyToken,
    /// `operator` needs two operands and found only `available`.
    NotEnoughOperands { operator: ScrabbleLetter, available: usize },
    /// The result of `operator` does not fit in 32 bits.
    Overflow { operator: ScrabbleLetter },
    /// More than one value is left at the end.
    UnusedOperands,
    /// No value is left at the end.
    NoValue,
}

/// The number that a digit tile stands for.
pub open spec fn digit_value(letter: ScrabbleLetter) -> Option<int> {
    match letter {
        ScrabbleLetter::Num0 => Some(0),
        ScrabbleLetter::Num1 => Some(1),
        ScrabbleLetter::Num2 => Some(2),
        ScrabbleLetter::Num3 => Some(3),
        ScrabbleLetter::Num4 => Some(4),
        ScrabbleLetter::Num5 => Some(5),
        ScrabbleLetter::Num6 => Some(6),
        ScrabbleLetter::Num7 => Some(7),
        ScrabbleLetter::Num8 => Some(8),
        ScrabbleLetter::Num9 => Some(9),
        _ => None,
    }
}

/// True for `+`, `-` and `*`.
pub open spec fn is_operator(letter: ScrabbleLetter) -> bool {
    letter == ScrabbleLetter::Plus || letter == ScrabbleLetter::Minus || letter
        == ScrabbleLetter::Dot
}

/// `first OP second`, where `first` was pushed before `second`.
pub open spec fn apply_operator(operator: ScrabbleLetter, first: int, second: int) -> int {
    match operator {
        ScrabbleLetter::Plus => first + second,
        ScrabbleLetter::Minus => first - second,
        _ => first * second,
    }
}

/// The operand stack after one token, or the reason why the token fails.
pub open spec fn step_stack(letter: ScrabbleLetter, stack: Seq<int>) -> Result<Seq<int>, TermError> {
    if letter == ScrabbleLetter::Empty {
        Err(TermError::EmptyToken)
    } else if is_operator(letter) {
        if stack.len() < 2 {
            Err(TermError::NotEnoughOperands { operator: letter, available: stack.len() as usize })
        } else {
            let value = apply_operator(letter, stack[stack.len() - 2], stack[stack.len() - 1]);
            if i32::MIN <= value <= i32::MAX {
                Ok(stack.take(stack.len() - 2).push(value))
            } else {
                Err(TermError::Overflow { operator: letter })
            }
        }
    } else {
        Ok(stack.push(digit_value(letter).unwrap()))
    }
}

/// The outcome of scanning `tokens` from left to right, starting with `stack`.
pub open spec fn evaluate_from(tokens: Seq<ScrabbleLetter>, stack: Seq<int>) -> Result<
    int,
    TermError,
>
    decreases tokens.len(),
{
    if tokens.len() == 0 {
        if stack.len() > 1 {
            Err(TermError::UnusedOperands)
        } else if stack.len() == 0 {
            Err(TermError::NoValue)
        } else {
            Ok(stack[0])
        }
    } else {
        match step_stack(tokens[0], stack) {
            Ok(next) => evaluate_from(tokens.drop_first(), next),
            Err(e) => Err(e),
        }
    }
}

/// The value of `tokens` as a postfix expression.
pub open spec fn value_of(tokens: Seq<ScrabbleLetter>) -> Result<int, TermError> {
    evaluate_from(tokens, Seq::empty())
}

/// The operand stack as a sequence of mathematical integers.
pub open spec fn stack_view(stack: Seq<i32>) -> Seq<int> {
    stack.map_values(|v: i32| v as int)
}

/// A maximal line of tiles read off the board.
#[derive(Debug)]
pub struct Term {
    tokens: Vec<ScrabbleLetter>,
}

impl View for Term {
    type V = Seq<ScrabbleLetter>;

    closed spec fn view(&self) -> Seq<ScrabbleLetter> {
        self.tokens@
    }
}

impl Term {
    pub fn new(letters: &Vec<ScrabbleLetter>) -> (result: Term)
        ensures
            result@ == letters@,
    {
        Term { tokens: crate::scrabble_base_types::copy_letters(letters) }
    }

    /// True when the term is a single tile, which is never scored.
    pub fn is_singleton(&self) -> (result: bool)
        ensures
            result == (self@.len() == 1),
    {
        self.tokens.len() == 1
    }

    /// The number of tiles in the term.
    pub fn len(&self) -> (result: usize)
        ensures
            result == self@.len(),
    {
        self.tokens.len()
    }

    /// Evaluates the term as a postfix expression.
    pub fn evaluate(&self) -> (result: Result<i32, TermError>)
        ensures
            match result {
                Ok(value) => value_of(self@) == Ok::<int, TermError>(value as int),
                Err(e) => value_of(self@) == Err::<int, TermError>(e),
            },
    {
        let mut operand_stack: Vec<i32> = Vec::new();
        let mut i: usize = 0;
        assert(self@.skip(0) == self@);
        assert(stack_view(operand_stack@) == Seq::<int>::empty());
        while i < self.tokens.len()
            invariant
                i <= self.tokens.len(),
                value_of(self@) == evaluate_from(self@.skip(i as int), stack_view(operand_stack@)),
            decreases self.tokens.len() - i,
        {
            let token = self.tokens[i];
            let ghost before = stack_view(operand_stack@);
            proof {
                assert(self@.skip(i as int)[0] == token);
                assert(self@.skip(i as int).drop_first() == self@.skip(i as int + 1));
            }
            match token {
                ScrabbleLetter::Plus | ScrabbleLetter::Minus | ScrabbleLetter::Dot => {
                    match binary_operator(token, &mut operand_stack) {
                        Ok(()) => {},
                        Err(e) => {
                            return Err(e);
                        },
                    }
                },
                ScrabbleLetter::Empty => {
                    return Err(TermError::EmptyToken);
                },
                _ => {
                    let value = digit_of(token);
                    operand_stack.push(value);
                    assert(stack_view(operand_stack@) == before.push(value as int));
                },
            }
            i += 1;
        }
        assert(self@.skip(i as int).len() == 0);
        if operand_stack.len() > 1 {
            return Err(TermError::UnusedOperands);
        }
        match operand_stack.pop() {
            Some(value) => Ok(value),
            None => Err(TermError::NoValue),
        }
    }
}

/// The number on a digit tile.
fn digit_of(letter: ScrabbleLetter) -> (result: i32)
    requires
        digit_value(letter) is Some,
    ensures
        digit_value(letter) == Some(result as int),
{
    match letter {
        ScrabbleLetter::Num0 => 0,
        ScrabbleLetter::Num1 => 1,
        ScrabbleLetter::Num2 => 2,
        ScrabbleLetter::Num3 => 3,
        ScrabbleLetter::Num4 => 4,
        ScrabbleLetter::Num5 => 5,
        ScrabbleLetter::Num6 => 6,
        ScrabbleLetter::Num7 => 7,
        ScrabbleLetter::Num8 => 8,
        _ => 9,
    }
}

/// Replaces the two topmost operands by the result of `operator` on them.
/// On failure the stack is left as it was.
pub fn binary_operator(operator: ScrabbleLetter, operand_stack: &mut Vec<i32>) -> (result: Result<
    (),
    TermError,
>)
    requires
        is_operator(operator),
    ensures
        match result {
            Ok(()) => step_stack(operator, stack_view(old(operand_stack)@)) == Ok::<
                Seq<int>,
                TermError,
            >(stack_view(final(operand_stack)@)),
            Err(e) => step_stack(operator, stack_view(old(operand_stack)@)) == Err::<
                Seq<int>,
                TermError,
            >(e) && final(operand_stack)@ == old(operand_stack)@,
        },
{
    let len = operand_stack.len();
    if len < 2 {
        return Err(TermError::NotEnoughOperands { operator, available: len });
    }
    let first: i64 = operand_stack[len - 2] as i64;
    let second: i64 = operand_stack[len - 1] as i64;
    let wide: i64 = match operator {
        ScrabbleLetter::Plus => first + second,
        ScrabbleLetter::Minus => first - second,
        _ => {
            assert(-0x8000_0000 * 0x8000_0000 <= first * second <= 0x8000_0000 * 0x8000_0000)
                by (nonlinear_arith)
                requires
                    -0x8000_0000 <= first <= 0x7fff_ffff,
                    -0x8000_0000 <= second <= 0x7fff_ffff,
            ;
            first * second
        },
    };
    if wide < -0x8000_0000 || wide > 0x7fff_ffff {
        return Err(TermError::Overflow { operator });
    }
    let ghost before = stack_view(operand_stack@);
    operand_stack.truncate(len - 2);
    operand_stack.push(wide as i32);
    assert(stack_view(operand_stack@) == before.take(len - 2).push(wide as int));
    Ok(())
}

} // verus!
