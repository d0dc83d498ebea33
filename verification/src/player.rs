//! A player: a bag of tiles that only shrinks, and a score.

use crate::runtime_error::ScrabbleRuntimeError;
use crate::scrabble_base_types::{copy_letters, ScrabbleLetter};
use vstd::multiset::Multiset;
use vstd::prelude::*;

verus! {

/// The tiles that a player can still lay, in no particular order, and the sum
/// of the values credited so far. The score saturates at the limits of `isize`.
pub struct Player {
    letter_bag: Vec<ScrabbleLetter>,
    score: isize,
}

/// `total + value`, held within the range of `isize`.
pub open spec fn saturating_sum(total: int, value: int) -> int {
    if total + value > isize::MAX {
        isize::MAX as int
    } else if total + value < isize::MIN {
        isize::MIN as int
    } else {
        total + value
    }
}

/// A prefix of a sequence holds no more of any tile than the sequence does.
proof fn lemma_prefix_count(letters: Seq<ScrabbleLetter>, k: int, letter: ScrabbleLetter)
    requires
        0 <= k <= letters.len(),
    ensures
        letters.take(k).to_multiset().count(letter) <= letters.to_multiset().count(letter),
{
    broadcast use vstd::seq_lib::lemma_multiset_commutative;

    assert(letters.take(k) + letters.skip(k) == letters);
}

impl Player {
    /// The tiles in the bag, in the order in which they are stored.
    pub closed spec fn letters(&self) -> Seq<ScrabbleLetter> {
        self.letter_bag@
    }

    /// The bag as a multiset of tiles.
    pub open spec fn bag(&self) -> Multiset<ScrabbleLetter> {
        self.letters().to_multiset()
    }

    /// The score as a mathematical integer.
    pub closed spec fn points(&self) -> int {
        self.score as int
    }

    pub fn new(letter_bag: &Vec<ScrabbleLetter>) -> (result: Player)
        ensures
            result.letters() == letter_bag@,
            result.points() == 0,
    {
        Player { letter_bag: copy_letters(letter_bag), score: 0 }
    }

    /// The current score.
    pub fn score(&self) -> (result: isize)
        ensures
            result == self.points(),
    {
        self.score
    }

    /// A copy of the tiles in the bag.
    pub fn bag_letters(&self) -> (result: Vec<ScrabbleLetter>)
        ensures
            result@ == self.letters(),
    {
        copy_letters(&self.letter_bag)
    }

    /// Takes the tiles of `to_consume` out of the bag, one instance for each
    /// occurrence. If the bag lacks any of them, nothing is taken.
    pub fn try_consume(&mut self, to_consume: &Vec<ScrabbleLetter>) -> (result: Result<
        (),
        ScrabbleRuntimeError,
    >)
        ensures
            final(self).points() == old(self).points(),
            to_consume@.to_multiset().subset_of(old(self).bag()) ==> result == Ok::<
                (),
                ScrabbleRuntimeError,
            >(()) && final(self).bag() == old(self).bag().sub(to_consume@.to_multiset()),
            !to_consume@.to_multiset().subset_of(old(self).bag()) ==> result == Err::<
                (),
                ScrabbleRuntimeError,
            >(ScrabbleRuntimeError::MissingLetters) && final(self).letters() == old(self).letters(),
    {
        broadcast use vstd::seq_lib::group_to_multiset_ensures;
        broadcast use vstd::multiset::group_multiset_axioms;

        let mut modified_letter_bag = copy_letters(&self.letter_bag);
        let ghost whole = self.letter_bag@.to_multiset();
        let mut i: usize = 0;
        assert(to_consume@.take(0) =~= Seq::<ScrabbleLetter>::empty());
        assert(modified_letter_bag@.to_multiset().add(to_consume@.take(0).to_multiset()) =~= whole);
        while i < to_consume.len()
            invariant
                i <= to_consume.len(),
                whole == self.letter_bag@.to_multiset(),
                *self == *old(self),
                modified_letter_bag@.to_multiset().add(to_consume@.take(i as int).to_multiset())
                    =~= whole,
            decreases to_consume.len() - i,
        {
            let letter = to_consume[i];
            let found = find_letter(&modified_letter_bag, letter);
            proof {
                assert(to_consume@.take(i as int + 1) =~= to_consume@.take(i as int).push(letter));
                vstd::seq_lib::to_multiset_build(to_consume@.take(i as int), letter);
            }
            match found {
                Some(position) => {
                    let ghost before = modified_letter_bag@;
                    modified_letter_bag.remove(position);
                    proof {
                        before.to_multiset_ensures();
                        assert(before.contains(letter));
                        assert(before.to_multiset().count(letter) > 0);
                        assert(modified_letter_bag@.to_multiset() =~= before.to_multiset().remove(
                            letter,
                        ));
                        assert(modified_letter_bag@.to_multiset().add(
                            to_consume@.take(i as int + 1).to_multiset(),
                        ) =~= whole);
                    }
                },
                None => {
                    proof {
                        modified_letter_bag@.to_multiset_ensures();
                        assert(!modified_letter_bag@.contains(letter));
                        assert(modified_letter_bag@.to_multiset().count(letter) == 0);
                        lemma_prefix_count(to_consume@, i as int + 1, letter);
                        assert(to_consume@.to_multiset().count(letter) > whole.count(letter));
                    }
                    return Err(ScrabbleRuntimeError::MissingLetters);
                },
            }
            i += 1;
        }
        proof {
            assert(to_consume@.take(i as int) =~= to_consume@);
            assert(modified_letter_bag@.to_multiset() =~= whole.sub(to_consume@.to_multiset()));
            assert(to_consume@.to_multiset().subset_of(whole));
        }
        self.letter_bag = modified_letter_bag;
        Ok(())
    }

    /// Puts the tiles of `letters` into the bag.
    pub fn give_back(&mut self, letters: &Vec<ScrabbleLetter>)
        ensures
            final(self).points() == old(self).points(),
            final(self).letters() == old(self).letters() + letters@,
            final(self).bag() == old(self).bag().add(letters@.to_multiset()),
    {
        broadcast use vstd::seq_lib::lemma_multiset_commutative;

        let mut returned = copy_letters(letters);
        self.letter_bag.append(&mut returned);
    }

    /// Adds `value` to the score.
    pub fn credit(&mut self, value: i32)
        ensures
            final(self).letters() == old(self).letters(),
            final(self).points() == saturating_sum(old(self).points(), value as int),
    {
        let total = self.score;
        let amount = value as isize;
        if amount > 0 && total > isize::MAX - amount {
            self.score = isize::MAX;
        } else if amount < 0 && total < isize::MIN - amount {
            self.score = isize::MIN;
        } else {
            self.score = total + amount;
        }
    }
}

/// The first place in `letters` that holds `letter`.
pub fn find_letter(letters: &Vec<ScrabbleLetter>, letter: ScrabbleLetter) -> (result: Option<usize>)
    ensures
        match result {
            Some(position) => position < letters@.len() && letters@[position as int] == letter
                && forall|j: int| 0 <= j < position ==> letters@[j] != letter,
            None => forall|j: int| 0 <= j < letters@.len() ==> letters@[j] != letter,
        },
{
    let mut j: usize = 0;
    while j < letters.len()
        invariant
            j <= letters.len(),
            forall|k: int| 0 <= k < j ==> letters@[k] != letter,
        decreases letters.len() - j,
    {
        if letters[j] == letter {
            return Some(j);
        }
        j += 1;
    }
    None
}

} // verus!
