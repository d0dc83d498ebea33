//! Who owns a line of tiles: the player who laid strictly more of its tiles
//! than anyone else.

use crate::board::Owner;
use vstd::prelude::*;

verus! {

/// How many entries of `owners` equal `owner`.
pub open spec fn tally(owners: Seq<Owner>, owner: Owner) -> nat
    decreases owners.len(),
{
    if owners.len() == 0 {
        0
    } else {
        tally(owners.drop_last(), owner) + if owners.last() == owner {
            1nat
        } else {
            0nat
        }
    }
}

/// True when `owner` occurs in `owners` strictly more often than any other.
pub open spec fn leads(owners: Seq<Owner>, owner: Owner) -> bool {
    tally(owners, owner) > 0 && forall|other: Owner|
        other != owner ==> tally(owners, other) < tally(owners, owner)
}

/// The owner of a line whose tiles were laid by `owners`: the one who leads,
/// and nobody where the highest tally is shared.
pub open spec fn term_owner(owners: Seq<Owner>) -> Owner {
    if exists|owner: Owner| leads(owners, owner) {
        choose|owner: Owner| leads(owners, owner)
    } else {
        Owner::Unowned
    }
}

/// At most one owner leads, so a leader is the owner of the line.
pub proof fn lemma_leader_owns(owners: Seq<Owner>, owner: Owner)
    requires
        leads(owners, owner),
    ensures
        term_owner(owners) == owner,
{
    let chosen = choose|o: Owner| leads(owners, o);
    if chosen != owner {
        assert(tally(owners, chosen) < tally(owners, owner));
        assert(tally(owners, owner) < tally(owners, chosen));
    }
}

/// An owner is counted no more often than there are entries.
pub proof fn lemma_tally_bound(owners: Seq<Owner>, owner: Owner)
    ensures
        tally(owners, owner) <= owners.len(),
    decreases owners.len(),
{
    if owners.len() > 0 {
        lemma_tally_bound(owners.drop_last(), owner);
    }
}

/// An owner with a positive tally is one of the entries.
pub proof fn lemma_tally_witness(owners: Seq<Owner>, owner: Owner)
    requires
        tally(owners, owner) > 0,
    ensures
        exists|i: int| 0 <= i < owners.len() && owners[i] == owner,
    decreases owners.len(),
{
    if owners.last() != owner {
        lemma_tally_witness(owners.drop_last(), owner);
        let i = choose|i: int| 0 <= i < owners.drop_last().len() && owners.drop_last()[i] == owner;
        assert(owners[i] == owner);
    } else {
        assert(owners[owners.len() - 1] == owner);
    }
}

/// The place of `owner` among the counted owners.
fn find_owner(counts: &Vec<(Owner, usize)>, owner: Owner) -> (result: Option<usize>)
    ensures
        match result {
            Some(k) => k < counts@.len() && counts@[k as int].0 == owner,
            None => forall|j: int| 0 <= j < counts@.len() ==> counts@[j].0 != owner,
        },
{
    let mut k: usize = 0;
    while k < counts.len()
        invariant
            k <= counts.len(),
            forall|j: int| 0 <= j < k ==> counts@[j].0 != owner,
        decreases counts.len() - k,
    {
        if counts[k].0 == owner {
            return Some(k);
        }
        k += 1;
    }
    None
}

/// True when `counts` lists each owner that occurs in `owners` once, with its
/// tally.
pub open spec fn counts_of(counts: Seq<(Owner, usize)>, owners: Seq<Owner>) -> bool {
    &&& forall|k: int|
        0 <= k < counts.len() ==> (#[trigger] counts[k]).1 > 0 && counts[k].1 == tally(
            owners,
            counts[k].0,
        )
    &&& forall|k1: int, k2: int|
        0 <= k1 < counts.len() && 0 <= k2 < counts.len() && k1 != k2 ==> (#[trigger] counts[k1]).0
            != (#[trigger] counts[k2]).0
    &&& forall|owner: Owner|
        tally(owners, owner) > 0 ==> exists|k: int|
            0 <= k < counts.len() && (#[trigger] counts[k]).0 == owner
}

/// Counts how often each owner occurs, in the order of first occurrence.
pub fn frequency(elements: &Vec<Owner>) -> (result: Vec<(Owner, usize)>)
    ensures
        counts_of(result@, elements@),
{
    let mut occurences: Vec<(Owner, usize)> = Vec::new();
    let mut i: usize = 0;
    while i < elements.len()
        invariant
            i <= elements.len(),
            counts_of(occurences@, elements@.take(i as int)),
        decreases elements.len() - i,
    {
        let element = elements[i];
        let ghost seen = elements@.take(i as int);
        let ghost next = elements@.take(i as int + 1);
        let ghost before = occurences@;
        proof {
            assert(next.drop_last() == seen);
            assert(next.last() == element);
            assert forall|owner: Owner|
                #[trigger] tally(next, owner) == tally(seen, owner) + if owner == element {
                    1nat
                } else {
                    0nat
                } by {}
        }
        match find_owner(&occurences, element) {
            Some(k) => {
                let count = occurences[k].1;
                proof {
                    lemma_tally_bound(seen, element);
                }
                occurences.set(k, (element, count + 1));
                proof {
                    assert forall|owner: Owner| tally(next, owner) > 0 implies exists|j: int|
                        0 <= j < occurences@.len() && (#[trigger] occurences@[j]).0 == owner by {
                        if owner == element {
                            assert(occurences@[k as int].0 == owner);
                        } else {
                            assert(tally(next, owner) == tally(seen, owner));
                            let j = choose|j: int|
                                0 <= j < before.len() && (#[trigger] before[j]).0 == owner;
                            assert(occurences@[j].0 == owner);
                        }
                    }
                    assert forall|j: int| 0 <= j < occurences@.len() implies (
                    #[trigger] occurences@[j]).1 > 0 && occurences@[j].1 == tally(
                        next,
                        occurences@[j].0,
                    ) by {
                        if j != k {
                            assert(occurences@[j] == before[j]);
                            assert(before[j].0 != before[k as int].0);
                        }
                    }
                    assert forall|k1: int, k2: int|
                        0 <= k1 < occurences@.len() && 0 <= k2 < occurences@.len() && k1
                            != k2 implies (#[trigger] occurences@[k1]).0 != (
                    #[trigger] occurences@[k2]).0 by {
                        assert(occurences@[k1].0 == before[k1].0);
                        assert(occurences@[k2].0 == before[k2].0);
                    }
                }
            },
            None => {
                occurences.push((element, 1));
                proof {
                    assert(tally(seen, element) == 0) by {
                        if tally(seen, element) > 0 {
                            let j = choose|j: int|
                                0 <= j < before.len() && (#[trigger] before[j]).0 == element;
                        }
                    }
                    assert forall|owner: Owner| tally(next, owner) > 0 implies exists|j: int|
                        0 <= j < occurences@.len() && (#[trigger] occurences@[j]).0 == owner by {
                        if owner == element {
                            assert(occurences@[before.len() as int].0 == owner);
                        } else {
                            assert(tally(next, owner) == tally(seen, owner));
                            let j = choose|j: int|
                                0 <= j < before.len() && (#[trigger] before[j]).0 == owner;
                            assert(occurences@[j].0 == owner);
                        }
                    }
                    assert forall|j: int| 0 <= j < occurences@.len() implies (
                    #[trigger] occurences@[j]).1 > 0 && occurences@[j].1 == tally(
                        next,
                        occurences@[j].0,
                    ) by {
                        if j < before.len() {
                            assert(occurences@[j] == before[j]);
                        }
                    }
                    assert forall|k1: int, k2: int|
                        0 <= k1 < occurences@.len() && 0 <= k2 < occurences@.len() && k1
                            != k2 implies (#[trigger] occurences@[k1]).0 != (
                    #[trigger] occurences@[k2]).0 by {
                        if k1 < before.len() {
                            assert(occurences@[k1] == before[k1]);
                        }
                        if k2 < before.len() {
                            assert(occurences@[k2] == before[k2]);
                        }
                    }
                }
            },
        }
        i += 1;
    }
    assert(elements@.take(i as int) == elements@);
    occurences
}

/// The owner of a line is nobody or the owner of one of its tiles.
pub proof fn lemma_owner_is_member(owners: Seq<Owner>)
    ensures
        term_owner(owners) == Owner::Unowned || exists|i: int|
            0 <= i < owners.len() && owners[i] == term_owner(owners),
{
    if exists|owner: Owner| leads(owners, owner) {
        lemma_tally_witness(owners, term_owner(owners));
    }
}

/// Two owners that share the highest tally leave the line without an owner.
pub proof fn lemma_tie_is_unowned(owners: Seq<Owner>, first: Owner, second: Owner)
    requires
        first != second,
        tally(owners, first) == tally(owners, second),
        forall|other: Owner| tally(owners, other) <= tally(owners, first),
    ensures
        term_owner(owners) == Owner::Unowned,
{
    assert forall|owner: Owner| !leads(owners, owner) by {
        if leads(owners, owner) {
            if owner == first {
                assert(tally(owners, second) < tally(owners, owner));
            } else {
                assert(tally(owners, first) < tally(owners, owner));
            }
        }
    }
}

/// The owner of a line whose tiles were laid by `owners`, cell by cell.
pub fn resolve_owner(owners: &Vec<Owner>) -> (result: Owner)
    ensures
        result == term_owner(owners@),
{
    let frequencies = frequency(owners);
    leading_owner(&frequencies, Ghost(owners@))
}

/// Picks the owner with the strictly highest count; nobody where the highest
/// count occurs twice or nothing was counted.
fn leading_owner(frequencies: &Vec<(Owner, usize)>, Ghost(owners): Ghost<Seq<Owner>>) -> (result:
    Owner)
    requires
        counts_of(frequencies@, owners),
    ensures
        result == term_owner(owners),
{
    if frequencies.len() == 0 {
        return Owner::Unowned;
    }
    let mut best: usize = 0;
    let mut k: usize = 1;
    while k < frequencies.len()
        invariant
            1 <= k <= frequencies.len(),
            best < k,
            forall|j: int| 0 <= j < k ==> (#[trigger] frequencies@[j]).1 <= frequencies@[best as int].1,
        decreases frequencies.len() - k,
    {
        if frequencies[k].1 > frequencies[best].1 {
            best = k;
        }
        k += 1;
    }
    let mut shared: bool = false;
    let ghost mut rival: int = 0;
    let mut j: usize = 0;
    while j < frequencies.len()
        invariant
            j <= frequencies.len(),
            best < frequencies.len(),
            shared ==> 0 <= rival < frequencies@.len() && rival != best && frequencies@[rival].1
                == frequencies@[best as int].1,
            !shared ==> forall|m: int|
                0 <= m < j && m != best ==> (#[trigger] frequencies@[m]).1
                    != frequencies@[best as int].1,
        decreases frequencies.len() - j,
    {
        if j != best && frequencies[j].1 == frequencies[best].1 {
            shared = true;
            proof {
                rival = j as int;
            }
        }
        j += 1;
    }
    let leader = frequencies[best].0;
    proof {
        if shared {
            assert forall|owner: Owner| !leads(owners, owner) by {
                if leads(owners, owner) {
                    let m = choose|m: int|
                        0 <= m < frequencies@.len() && (#[trigger] frequencies@[m]).0 == owner;
                    if m == best as int {
                        assert(frequencies@[rival].0 != owner);
                    } else {
                        assert(frequencies@[best as int].0 != owner);
                    }
                }
            }
        } else {
            assert forall|other: Owner| other != leader implies tally(owners, other) < tally(
                owners,
                leader,
            ) by {
                if tally(owners, other) > 0 {
                    let m = choose|m: int|
                        0 <= m < frequencies@.len() && (#[trigger] frequencies@[m]).0 == other;
                    assert(m != best as int);
                }
            }
            lemma_leader_owns(owners, leader);
        }
    }
    if shared {
        Owner::Unowned
    } else {
        leader
    }
}

} // verus!
