//! The commands of a session and their textual form: one command per line,
//! a keyword and its arguments separated by single blanks.

use crate::scrabble_base_types::{
    letter_of_char, point, Direction, Placement, PlayerID, ScrabbleLetter,
};
use vstd::prelude::*;
use vstd::string::*;

verus! {

/// Why a line of input is not a command.
#[derive(Debug, Clone)]
pub enum CommandParseError {
    UnknownCommand { input: String },
    InvalidPlayerID { id: String },
    InvalidPlacement { placement: String },
    InvalidLetters { letters: String },
    InvalidArgumentCount { command: String, expected: usize, received: usize },
}

/// A request to the game. `Quit` ends the session and never reaches the game.
#[derive(Debug)]
pub enum Command {
    Quit,
    Print,
    Score(PlayerID),
    Bag(PlayerID),
    Place(Placement),
}

/// A command as a mathematical value.
pub enum CommandView {
    Quit,
    Print,
    Score(int),
    Bag(int),
    Place(Seq<ScrabbleLetter>, (int, int), Direction),
}

/// A parse error as a mathematical value.
pub enum ParseFault {
    UnknownCommand(Seq<char>),
    InvalidPlayerID(Seq<char>),
    InvalidPlacement(Seq<char>),
    InvalidLetters(Seq<char>),
    InvalidArgumentCount(Seq<char>, int, int),
}

impl View for Command {
    type V = CommandView;

    open spec fn view(&self) -> CommandView {
        match self {
            Command::Quit => CommandView::Quit,
            Command::Print => CommandView::Print,
            Command::Score(id) => CommandView::Score(*id as int),
            Command::Bag(id) => CommandView::Bag(*id as int),
            Command::Place(placement) => CommandView::Place(
                placement.letters@,
                point(placement.start_pos),
                placement.direction,
            ),
        }
    }
}

impl View for CommandParseError {
    type V = ParseFault;

    open spec fn view(&self) -> ParseFault {
        match self {
            CommandParseError::UnknownCommand { input } => ParseFault::UnknownCommand(input@),
            CommandParseError::InvalidPlayerID { id } => ParseFault::InvalidPlayerID(id@),
            CommandParseError::InvalidPlacement { placement } => ParseFault::InvalidPlacement(
                placement@,
            ),
            CommandParseError::InvalidLetters { letters } => ParseFault::InvalidLetters(letters@),
            CommandParseError::InvalidArgumentCount {
                command,
                expected,
                received,
            } => ParseFault::InvalidArgumentCount(command@, *expected as int, *received as int),
        }
    }
}

/// The first place at or after `from` where `text` holds `mark`, or the
/// length of `text` where there is none.
pub open spec fn index_from(text: Seq<char>, mark: char, from: int) -> int
    decreases text.len() - from,
{
    if from < 0 || from >= text.len() {
        text.len() as int
    } else if text[from] == mark {
        from
    } else {
        index_from(text, mark, from + 1)
    }
}

/// How often `text` holds `mark`.
pub open spec fn count_char(text: Seq<char>, mark: char) -> nat
    decreases text.len(),
{
    if text.len() == 0 {
        0
    } else {
        count_char(text.drop_last(), mark) + if text.last() == mark {
            1nat
        } else {
            0nat
        }
    }
}

/// True for the ten decimal digits.
pub open spec fn is_digit(c: char) -> bool {
    '0' <= c && c <= '9'
}

/// The number that a row of decimal digits denotes.
pub open spec fn digits_value(text: Seq<char>) -> nat
    decreases text.len(),
{
    if text.len() == 0 {
        0
    } else {
        (digits_value(text.drop_last()) * 10 + (text.last() as u32 - '0' as u32)) as nat
    }
}

/// True when `text` is one or more decimal digits.
pub open spec fn is_number(text: Seq<char>) -> bool {
    text.len() > 0 && forall|i: int| 0 <= i < text.len() ==> is_digit(#[trigger] text[i])
}

/// The integer that `text` denotes: decimal digits, after `+` or `-` if there
/// is a sign.
pub open spec fn signed_value(text: Seq<char>) -> Option<int> {
    if text.len() > 0 && text[0] == '-' {
        if is_number(text.skip(1)) {
            Some(-(digits_value(text.skip(1)) as int))
        } else {
            None
        }
    } else if text.len() > 0 && text[0] == '+' {
        if is_number(text.skip(1)) {
            Some(digits_value(text.skip(1)) as int)
        } else {
            None
        }
    } else if is_number(text) {
        Some(digits_value(text) as int)
    } else {
        None
    }
}

/// The coordinate that `text` denotes, if it denotes one that is representable.
pub open spec fn coordinate_of(text: Seq<char>) -> Option<int> {
    match signed_value(text) {
        Some(value) => if isize::MIN <= value <= isize::MAX {
            Some(value)
        } else {
            None
        },
        None => None,
    }
}

/// The index of the player that `text` names: `P` and the player's number,
/// counted from one, without a leading zero; the number may carry a `+`.
pub open spec fn player_id_of(text: Seq<char>) -> Option<int> {
    if text.len() >= 1 && text[0] == 'P' && !(text.len() >= 2 && text[1] == '0') {
        match signed_value(text.skip(1)) {
            Some(number) => if 1 <= number <= usize::MAX && text[1] != '-' {
                Some(number - 1)
            } else {
                None
            },
            None => None,
        }
    } else {
        None
    }
}

/// The number of bytes that a character takes in UTF-8.
pub open spec fn utf8_width(c: char) -> nat {
    if (c as u32) < 0x80 {
        1
    } else if (c as u32) < 0x800 {
        2
    } else if (c as u32) < 0x10000 {
        3
    } else {
        4
    }
}

/// The number of bytes that `text` takes in UTF-8.
pub open spec fn utf8_len(text: Seq<char>) -> nat
    decreases text.len(),
{
    if text.len() == 0 {
        0
    } else {
        utf8_len(text.drop_last()) + utf8_width(text.last())
    }
}

/// True when every character of `text` denotes a tile.
pub open spec fn are_letters(text: Seq<char>) -> bool {
    forall|i: int| 0 <= i < text.len() ==> letter_of_char(#[trigger] text[i]) is Some
}

/// The tiles that the characters of `text` denote.
pub open spec fn letters_of(text: Seq<char>) -> Seq<ScrabbleLetter> {
    Seq::new(text.len(), |i: int| letter_of_char(text[i]).unwrap())
}

/// The axis that `text` names.
pub open spec fn direction_of(text: Seq<char>) -> Option<Direction> {
    if text == seq!['H'] {
        Some(Direction::Horizontal)
    } else if text == seq!['V'] {
        Some(Direction::Vertical)
    } else {
        None
    }
}

/// The placement that `text` denotes: tiles, column, row and axis, separated
/// by semicolons. The tiles take one to three bytes.
pub open spec fn placement_of(text: Seq<char>) -> Result<CommandView, ParseFault> {
    let first = index_from(text, ';', 0);
    let second = index_from(text, ';', first + 1);
    let third = index_from(text, ';', second + 1);
    let letters = text.subrange(0, first);
    if first >= text.len() || second >= text.len() || third >= text.len() || index_from(
        text,
        ';',
        third + 1,
    ) < text.len() {
        Err(ParseFault::InvalidPlacement(text))
    } else if coordinate_of(text.subrange(first + 1, second)) is None || coordinate_of(
        text.subrange(second + 1, third),
    ) is None {
        Err(ParseFault::InvalidPlacement(text))
    } else if utf8_len(letters) < 1 || utf8_len(letters) > 3 {
        Err(ParseFault::InvalidPlacement(text))
    } else if direction_of(text.subrange(third + 1, text.len() as int)) is None {
        Err(ParseFault::InvalidPlacement(text))
    } else if !are_letters(letters) {
        Err(ParseFault::InvalidLetters(letters))
    } else {
        Ok(
            CommandView::Place(
                letters_of(letters),
                (
                    coordinate_of(text.subrange(first + 1, second)).unwrap(),
                    coordinate_of(text.subrange(second + 1, third)).unwrap(),
                ),
                direction_of(text.subrange(third + 1, text.len() as int)).unwrap(),
            ),
        )
    }
}

/// The characters of `text`.
pub fn chars_of(text: &str) -> (result: Vec<char>)
    ensures
        result@ == text@,
{
    let count = text.unicode_len();
    let mut chars: Vec<char> = Vec::new();
    let mut i: usize = 0;
    while i < count
        invariant
            count == text@.len(),
            i <= count,
            chars@ == text@.take(i as int),
        decreases count - i,
    {
        chars.push(text.get_char(i));
        i += 1;
    }
    chars
}

/// Finds `mark` in `chars` at or after `from`.
fn find_from(chars: &Vec<char>, mark: char, from: usize) -> (result: usize)
    ensures
        result == index_from(chars@, mark, from as int),
        from <= result <= chars@.len() || (from > chars@.len() && result == chars@.len()),
        result < chars@.len() ==> chars@[result as int] == mark,
{
    let mut i: usize = from;
    while i < chars.len()
        invariant
            from <= i,
            index_from(chars@, mark, from as int) == index_from(chars@, mark, i as int),
        decreases chars.len() - i,
    {
        if chars[i] == mark {
            return i;
        }
        i += 1;
    }
    chars.len()
}

/// Reads the decimal digits `chars[from..to]`. The value is cut off at a
/// bound far beyond every machine integer.
fn read_digits(chars: &Vec<char>, from: usize, to: usize) -> (result: Option<u128>)
    requires
        from <= to <= chars@.len(),
    ensures
        result is Some <==> is_number(chars@.subrange(from as int, to as int)),
        result matches Some(value) ==> value == if digits_value(
            chars@.subrange(from as int, to as int),
        ) < 0x1_0000_0000_0000_0000_0000 {
            digits_value(chars@.subrange(from as int, to as int))
        } else {
            0x1_0000_0000_0000_0000_0000
        },
{
    let ghost text = chars@.subrange(from as int, to as int);
    if from == to {
        return None;
    }
    let mut value: u128 = 0;
    let mut i: usize = from;
    assert(text.take(0) =~= Seq::<char>::empty());
    while i < to
        invariant
            from <= i <= to <= chars@.len(),
            text == chars@.subrange(from as int, to as int),
            forall|j: int| 0 <= j < i - from ==> is_digit(#[trigger] text[j]),
            value <= 0x1_0000_0000_0000_0000_0000,
            value == if digits_value(text.take(i - from)) < 0x1_0000_0000_0000_0000_0000 {
                digits_value(text.take(i - from))
            } else {
                0x1_0000_0000_0000_0000_0000
            },
        decreases to - i,
    {
        let c = chars[i];
        assert(text[i - from] == c);
        if c < '0' || c > '9' {
            return None;
        }
        proof {
            assert(text.take(i - from + 1).drop_last() =~= text.take(i - from));
            assert(text.take(i - from + 1).last() == c);
        }
        let digit: u128 = (c as u32 - '0' as u32) as u128;
        value = value * 10 + digit;
        if value > 0x1_0000_0000_0000_0000_0000 {
            value = 0x1_0000_0000_0000_0000_0000;
        }
        i += 1;
    }
    assert(text.take(to - from) =~= text);
    Some(value)
}

/// Reads a coordinate from `chars[from..to]`.
fn read_coordinate(chars: &Vec<char>, from: usize, to: usize) -> (result: Option<isize>)
    requires
        from <= to <= chars@.len(),
    ensures
        match result {
            Some(value) => coordinate_of(chars@.subrange(from as int, to as int)) == Some(
                value as int,
            ),
            None => coordinate_of(chars@.subrange(from as int, to as int)) is None,
        },
{
    let ghost text = chars@.subrange(from as int, to as int);
    if from == to {
        return None;
    }
    let sign = chars[from];
    assert(text[0] == sign);
    let start = if sign == '-' || sign == '+' {
        from + 1
    } else {
        from
    };
    proof {
        if start > from {
            assert(text.skip(1) =~= chars@.subrange(start as int, to as int));
        }
    }
    match read_digits(chars, start, to) {
        None => None,
        Some(magnitude) => {
            if sign == '-' {
                if magnitude > isize::MAX as u128 + 1 {
                    None
                } else if magnitude == isize::MAX as u128 + 1 {
                    Some(isize::MIN)
                } else {
                    Some(-(magnitude as isize))
                }
            } else if magnitude > isize::MAX as u128 {
                None
            } else {
                Some(magnitude as isize)
            }
        },
    }
}

/// Reads the index of a player from its name.
pub fn player_id_from_str(id_str: &str) -> (result: Result<PlayerID, CommandParseError>)
    ensures
        match result {
            Ok(id) => player_id_of(id_str@) == Some(id as int),
            Err(e) => player_id_of(id_str@) is None && e@ == ParseFault::InvalidPlayerID(id_str@),
        },
{
    let chars = chars_of(id_str);
    let count = chars.len();
    if count < 1 || chars[0] != 'P' || (count >= 2 && (chars[1] == '0' || chars[1] == '-')) {
        return Err(CommandParseError::InvalidPlayerID { id: id_str.to_owned() });
    }
    let start: usize = if count >= 2 && chars[1] == '+' {
        2
    } else {
        1
    };
    proof {
        let rest = chars@.skip(1);
        assert(rest =~= chars@.subrange(1, count as int));
        if start == 2 {
            assert(rest[0] == '+');
            assert(rest.skip(1) =~= chars@.subrange(2, count as int));
        } else if count >= 2 {
            assert(rest[0] == chars@[1]);
        }
    }
    match read_digits(&chars, start, count) {
        Some(number) => {
            if number < 1 || number > usize::MAX as u128 {
                Err(CommandParseError::InvalidPlayerID { id: id_str.to_owned() })
            } else {
                Ok((number - 1) as usize)
            }
        },
        None => Err(CommandParseError::InvalidPlayerID { id: id_str.to_owned() }),
    }
}

/// The number of bytes that `chars[..to]` takes in UTF-8, counted up to four.
fn byte_len_up_to_four(chars: &Vec<char>, to: usize) -> (result: usize)
    requires
        to <= chars@.len(),
    ensures
        result == if utf8_len(chars@.take(to as int)) < 4 {
            utf8_len(chars@.take(to as int))
        } else {
            4
        },
{
    let mut total: usize = 0;
    let mut i: usize = 0;
    assert(chars@.take(0) =~= Seq::<char>::empty());
    while i < to
        invariant
            i <= to <= chars@.len(),
            total <= 4,
            total == if utf8_len(chars@.take(i as int)) < 4 {
                utf8_len(chars@.take(i as int))
            } else {
                4
            },
        decreases to - i,
    {
        let code = chars[i] as u32;
        proof {
            assert(chars@.take(i as int + 1).drop_last() =~= chars@.take(i as int));
            assert(chars@.take(i as int + 1).last() == chars@[i as int]);
        }
        let width: usize = if code < 0x80 {
            1
        } else if code < 0x800 {
            2
        } else if code < 0x10000 {
            3
        } else {
            4
        };
        total = total + width;
        if total > 4 {
            total = 4;
        }
        i += 1;
    }
    total
}

/// Reads the tiles `chars[..to]`, if each character denotes one.
fn read_letters(chars: &Vec<char>, to: usize) -> (result: Option<Vec<ScrabbleLetter>>)
    requires
        to <= chars@.len(),
    ensures
        match result {
            Some(letters) => are_letters(chars@.take(to as int)) && letters@ == letters_of(
                chars@.take(to as int),
            ),
            None => !are_letters(chars@.take(to as int)),
        },
{
    let ghost text = chars@.take(to as int);
    let mut letters: Vec<ScrabbleLetter> = Vec::new();
    let mut i: usize = 0;
    while i < to
        invariant
            i <= to <= chars@.len(),
            text == chars@.take(to as int),
            letters@.len() == i,
            forall|j: int|
                0 <= j < i ==> letter_of_char(#[trigger] text[j]) == Some(letters@[j]),
        decreases to - i,
    {
        match ScrabbleLetter::from_char(chars[i]) {
            Some(letter) => {
                letters.push(letter);
            },
            None => {
                assert(letter_of_char(text[i as int]) is None);
                return None;
            },
        }
        i += 1;
    }
    assert(letters@ =~= letters_of(text));
    Some(letters)
}

/// A text takes at least one byte for each of its characters.
pub proof fn lemma_utf8_len_bounds(text: Seq<char>)
    ensures
        text.len() <= utf8_len(text),
        text.len() == 0 ==> utf8_len(text) == 0,
    decreases text.len(),
{
    if text.len() > 0 {
        lemma_utf8_len_bounds(text.drop_last());
    }
}

/// A placement that is read from a text holds one to three tiles.
pub proof fn lemma_placement_size(text: Seq<char>)
    requires
        placement_of(text) is Ok,
    ensures
        placement_of(text) matches Ok(CommandView::Place(letters, _, _)) && 1 <= letters.len() <= 3,
{
    lemma_utf8_len_bounds(text.subrange(0, index_from(text, ';', 0)));
}

/// Reads a placement from its textual form.
pub fn placement_from_str(placement_str: &str) -> (result: Result<Placement, CommandParseError>)
    ensures
        result matches Ok(placement) ==> 1 <= placement.letters@.len() <= 3,
        match result {
            Ok(placement) => placement_of(placement_str@) == Ok::<CommandView, ParseFault>(
                Command::Place(placement)@,
            ),
            Err(e) => placement_of(placement_str@) == Err::<CommandView, ParseFault>(e@),
        },
{
    proof {
        if placement_of(placement_str@) is Ok {
            lemma_placement_size(placement_str@);
        }
    }
    let chars = chars_of(placement_str);
    let len = chars.len();
    let first = find_from(&chars, ';', 0);
    if first >= len {
        return Err(CommandParseError::InvalidPlacement { placement: placement_str.to_owned() });
    }
    let second = find_from(&chars, ';', first + 1);
    if second >= len {
        return Err(CommandParseError::InvalidPlacement { placement: placement_str.to_owned() });
    }
    let third = find_from(&chars, ';', second + 1);
    if third >= len {
        return Err(CommandParseError::InvalidPlacement { placement: placement_str.to_owned() });
    }
    if find_from(&chars, ';', third + 1) < len {
        return Err(CommandParseError::InvalidPlacement { placement: placement_str.to_owned() });
    }
    let start_x = match read_coordinate(&chars, first + 1, second) {
        Some(value) => value,
        None => {
            return Err(
                CommandParseError::InvalidPlacement { placement: placement_str.to_owned() },
            );
        },
    };
    let start_y = match read_coordinate(&chars, second + 1, third) {
        Some(value) => value,
        None => {
            return Err(
                CommandParseError::InvalidPlacement { placement: placement_str.to_owned() },
            );
        },
    };
    proof {
        assert(chars@.take(first as int) =~= chars@.subrange(0, first as int));
    }
    let width = byte_len_up_to_four(&chars, first);
    if width < 1 || width > 3 {
        return Err(CommandParseError::InvalidPlacement { placement: placement_str.to_owned() });
    }
    let ghost axis = chars@.subrange(third as int + 1, len as int);
    let direction = if len - third == 2 && chars[third + 1] == 'H' {
        assert(axis =~= seq!['H']);
        assert(direction_of(axis) == Some(Direction::Horizontal));
        Direction::Horizontal
    } else if len - third == 2 && chars[third + 1] == 'V' {
        assert(axis =~= seq!['V']);
        assert(seq!['H'][0] == 'H');
        assert(axis[0] == 'V');
        assert(axis != seq!['H']);
        assert(direction_of(axis) == Some(Direction::Vertical));
        Direction::Vertical
    } else {
        proof {
            if third + 2 == len {
                assert(axis[0] == chars@[third as int + 1]);
                assert(seq!['H'][0] == 'H');
                assert(seq!['V'][0] == 'V');
            } else {
                assert(axis.len() != 1);
                assert(seq!['H'].len() == 1);
                assert(seq!['V'].len() == 1);
            }
            assert(direction_of(axis) is None);
        }
        return Err(CommandParseError::InvalidPlacement { placement: placement_str.to_owned() });
    };
    proof {
        let text = placement_str@;
        assert(text.subrange(0, first as int) =~= chars@.take(first as int));
        assert(coordinate_of(text.subrange(first as int + 1, second as int)) == Some(
            start_x as int,
        ));
        assert(coordinate_of(text.subrange(second as int + 1, third as int)) == Some(
            start_y as int,
        ));
        assert(direction_of(text.subrange(third as int + 1, text.len() as int)) == Some(direction));
        assert(1 <= utf8_len(text.subrange(0, first as int)) <= 3);
    }
    match read_letters(&chars, first) {
        Some(letters) => Ok(Placement { letters, start_pos: (start_x, start_y), direction }),
        None => Err(
            CommandParseError::InvalidLetters {
                letters: placement_str.substring_char(0, first).to_owned(),
            },
        ),
    }
}

/// The first word of a command.
#[derive(Copy, Clone, Debug, PartialEq, Eq, Structural)]
pub enum Keyword {
    Quit,
    Print,
    Score,
    Bag,
    Place,
}

/// The spelling of a keyword.
pub open spec fn name_of(keyword: Keyword) -> Seq<char> {
    match keyword {
        Keyword::Quit => seq!['q', 'u', 'i', 't'],
        Keyword::Print => seq!['p', 'r', 'i', 'n', 't'],
        Keyword::Score => seq!['s', 'c', 'o', 'r', 'e'],
        Keyword::Bag => seq!['b', 'a', 'g'],
        Keyword::Place => seq!['p', 'l', 'a', 'c', 'e'],
    }
}

/// The number of arguments that a keyword takes.
pub open spec fn arity_of(keyword: Keyword) -> int {
    match keyword {
        Keyword::Quit => 0,
        Keyword::Print => 0,
        _ => 1,
    }
}

/// The keyword that `word` spells.
pub open spec fn keyword_of(word: Seq<char>) -> Option<Keyword> {
    if word == name_of(Keyword::Quit) {
        Some(Keyword::Quit)
    } else if word == name_of(Keyword::Print) {
        Some(Keyword::Print)
    } else if word == name_of(Keyword::Score) {
        Some(Keyword::Score)
    } else if word == name_of(Keyword::Bag) {
        Some(Keyword::Bag)
    } else if word == name_of(Keyword::Place) {
        Some(Keyword::Place)
    } else {
        None
    }
}

/// The command that a line denotes. The words of a line are separated by
/// single blanks; the first is the keyword and the others are its arguments.
pub open spec fn command_of(line: Seq<char>) -> Result<CommandView, ParseFault> {
    let blanks = count_char(line, ' ') as int;
    let cut = index_from(line, ' ', 0);
    let argument = line.skip(cut + 1);
    match keyword_of(line.take(cut)) {
        None => Err(ParseFault::UnknownCommand(line)),
        Some(keyword) => if blanks != arity_of(keyword) {
            Err(ParseFault::InvalidArgumentCount(name_of(keyword), arity_of(keyword), blanks))
        } else {
            match keyword {
                Keyword::Quit => Ok(CommandView::Quit),
                Keyword::Print => Ok(CommandView::Print),
                Keyword::Score => match player_id_of(argument) {
                    Some(id) => Ok(CommandView::Score(id)),
                    None => Err(ParseFault::InvalidPlayerID(argument)),
                },
                Keyword::Bag => match player_id_of(argument) {
                    Some(id) => Ok(CommandView::Bag(id)),
                    None => Err(ParseFault::InvalidPlayerID(argument)),
                },
                Keyword::Place => placement_of(argument),
            }
        },
    }
}

/// Where a walk from `from` finds no `mark`, there is none.
proof fn lemma_absent(text: Seq<char>, mark: char, from: int)
    requires
        0 <= from,
        index_from(text, mark, from) >= text.len(),
    ensures
        forall|i: int| from <= i < text.len() ==> text[i] != mark,
    decreases text.len() - from,
{
    if from < text.len() {
        lemma_absent(text, mark, from + 1);
    }
}

/// A text without `mark` counts none.
proof fn lemma_none_counted(text: Seq<char>, mark: char)
    requires
        forall|i: int| 0 <= i < text.len() ==> text[i] != mark,
    ensures
        count_char(text, mark) == 0,
    decreases text.len(),
{
    if text.len() > 0 {
        lemma_none_counted(text.drop_last(), mark);
    }
}

/// Counts the blanks of a line.
fn count_blanks(chars: &Vec<char>) -> (result: usize)
    ensures
        result == count_char(chars@, ' '),
{
    let mut blanks: usize = 0;
    let mut i: usize = 0;
    assert(chars@.take(0) =~= Seq::<char>::empty());
    while i < chars.len()
        invariant
            i <= chars@.len(),
            blanks <= i,
            blanks == count_char(chars@.take(i as int), ' '),
        decreases chars@.len() - i,
    {
        proof {
            assert(chars@.take(i as int + 1).drop_last() =~= chars@.take(i as int));
            assert(chars@.take(i as int + 1).last() == chars@[i as int]);
        }
        if chars[i] == ' ' {
            blanks += 1;
        }
        i += 1;
    }
    assert(chars@.take(i as int) =~= chars@);
    blanks
}

/// Reads the keyword `chars[..to]`.
fn read_keyword(chars: &Vec<char>, to: usize) -> (result: Option<Keyword>)
    requires
        to <= chars@.len(),
    ensures
        result == keyword_of(chars@.take(to as int)),
{
    let ghost word = chars@.take(to as int);
    if to == 4 && chars[0] == 'q' && chars[1] == 'u' && chars[2] == 'i' && chars[3] == 't' {
        assert(word =~= name_of(Keyword::Quit));
        return Some(Keyword::Quit);
    }
    if to == 5 && chars[0] == 'p' && chars[1] == 'r' && chars[2] == 'i' && chars[3] == 'n'
        && chars[4] == 't' {
        assert(word =~= name_of(Keyword::Print));
        return Some(Keyword::Print);
    }
    if to == 5 && chars[0] == 's' && chars[1] == 'c' && chars[2] == 'o' && chars[3] == 'r'
        && chars[4] == 'e' {
        assert(word =~= name_of(Keyword::Score));
        return Some(Keyword::Score);
    }
    if to == 3 && chars[0] == 'b' && chars[1] == 'a' && chars[2] == 'g' {
        assert(word =~= name_of(Keyword::Bag));
        return Some(Keyword::Bag);
    }
    if to == 5 && chars[0] == 'p' && chars[1] == 'l' && chars[2] == 'a' && chars[3] == 'c'
        && chars[4] == 'e' {
        assert(word =~= name_of(Keyword::Place));
        return Some(Keyword::Place);
    }
    proof {
        let quit = name_of(Keyword::Quit);
        let print = name_of(Keyword::Print);
        let score = name_of(Keyword::Score);
        let bag = name_of(Keyword::Bag);
        let place = name_of(Keyword::Place);
        assert(quit.len() == 4 && quit[0] == 'q' && quit[1] == 'u' && quit[2] == 'i' && quit[3]
            == 't');
        assert(print.len() == 5 && print[0] == 'p' && print[1] == 'r' && print[2] == 'i'
            && print[3] == 'n' && print[4] == 't');
        assert(score.len() == 5 && score[0] == 's' && score[1] == 'c' && score[2] == 'o'
            && score[3] == 'r' && score[4] == 'e');
        assert(bag.len() == 3 && bag[0] == 'b' && bag[1] == 'a' && bag[2] == 'g');
        assert(place.len() == 5 && place[0] == 'p' && place[1] == 'l' && place[2] == 'a'
            && place[3] == 'c' && place[4] == 'e');
        if to >= 5 {
            assert(word[0] == chars@[0] && word[1] == chars@[1] && word[2] == chars@[2] && word[3]
                == chars@[3] && word[4] == chars@[4]);
        } else if to == 4 {
            assert(word[0] == chars@[0] && word[1] == chars@[1] && word[2] == chars@[2] && word[3]
                == chars@[3]);
        } else if to == 3 {
            assert(word[0] == chars@[0] && word[1] == chars@[1] && word[2] == chars@[2]);
        }
    }
    None
}

/// The spelling of a keyword as a string.
fn keyword_name(keyword: Keyword) -> (result: String)
    ensures
        result@ == name_of(keyword),
{
    proof {
        reveal_strlit("quit");
        reveal_strlit("print");
        reveal_strlit("score");
        reveal_strlit("bag");
        reveal_strlit("place");
    }
    let name = match keyword {
        Keyword::Quit => "quit",
        Keyword::Print => "print",
        Keyword::Score => "score",
        Keyword::Bag => "bag",
        Keyword::Place => "place",
    };
    assert(name@ =~= name_of(keyword));
    name.to_owned()
}

impl Command {
    /// Reads a command from a line of input.
    pub fn from_str(command_str: &str) -> (result: Result<Command, CommandParseError>)
        ensures
            result matches Ok(Command::Place(placement)) ==> 1 <= placement.letters@.len() <= 3,
            match result {
                Ok(command) => command_of(command_str@) == Ok::<CommandView, ParseFault>(command@),
                Err(e) => command_of(command_str@) == Err::<CommandView, ParseFault>(e@),
            },
    {
        let chars = chars_of(command_str);
        let arg_count = count_blanks(&chars);
        let cut = find_from(&chars, ' ', 0);
        let keyword = match read_keyword(&chars, cut) {
            Some(keyword) => keyword,
            None => {
                return Err(CommandParseError::UnknownCommand { input: command_str.to_owned() });
            },
        };
        let expected: usize = match keyword {
            Keyword::Quit => 0,
            Keyword::Print => 0,
            _ => 1,
        };
        if arg_count != expected {
            return Err(
                CommandParseError::InvalidArgumentCount {
                    command: keyword_name(keyword),
                    expected,
                    received: arg_count,
                },
            );
        }
        if expected == 0 {
            return match keyword {
                Keyword::Quit => Ok(Command::Quit),
                _ => Ok(Command::Print),
            };
        }
        proof {
            if cut >= chars@.len() {
                lemma_absent(chars@, ' ', 0);
                lemma_none_counted(chars@, ' ');
            }
            assert(chars@.skip(cut as int + 1) =~= chars@.subrange(
                cut as int + 1,
                chars@.len() as int,
            ));
        }
        let argument = command_str.substring_char(cut + 1, chars.len());
        match keyword {
            Keyword::Score => match player_id_from_str(argument) {
                Ok(id) => Ok(Command::Score(id)),
                Err(e) => Err(e),
            },
            Keyword::Bag => match player_id_from_str(argument) {
                Ok(id) => Ok(Command::Bag(id)),
                Err(e) => Err(e),
            },
            _ => match placement_from_str(argument) {
                Ok(placement) => Ok(Command::Place(placement)),
                Err(e) => Err(e),
            },
        }
    }
}

} // verus!
