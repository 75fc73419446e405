//! The length index: for every length from 1 to the longest name, the
//! position of the first element whose name is at least that long.
//!
//! In a store sorted by name length no element before that position can hold
//! a query of that length, so a scan starts there.

use crate::models::Element;
use crate::store::{byte_len, lemma_substring_not_longer, name_len, sorted_by_length};
use crate::text::is_substring;
use std::collections::BTreeMap;
use vstd::prelude::*;

verus! {

/// The length of the longest name of `store`, 0 for the empty store.
pub open spec fn max_name_len(store: Seq<Element>) -> nat
    decreases store.len(),
{
    if store.len() == 0 {
        0
    } else {
        let rest = max_name_len(store.drop_last());
        let last = name_len(store.last());
        if last > rest {
            last
        } else {
            rest
        }
    }
}

/// The position of the first element of `store` whose name has at least `l`
/// bytes, or the length of `store` where there is none.
pub open spec fn first_at_least(store: Seq<Element>, l: nat) -> nat
    decreases store.len(),
{
    if store.len() == 0 || name_len(store.first()) >= l {
        0
    } else {
        1 + first_at_least(store.drop_first(), l)
    }
}

/// The length index of `store`: an entry for every length from 1 to the
/// longest name, none for any other.
pub open spec fn length_index_of(store: Seq<Element>) -> Map<usize, usize> {
    Map::new(
        |l: usize| 1 <= l <= max_name_len(store),
        |l: usize| first_at_least(store, l as nat) as usize,
    )
}

/// Where a scan for a query of `l` bytes starts: at the entry of the length
/// index for `l`, and at 0 where it has none (for the empty query, and for
/// one that is longer than every name).
pub open spec fn scan_start(store: Seq<Element>, l: nat) -> nat {
    if 1 <= l <= max_name_len(store) {
        first_at_least(store, l)
    } else {
        0
    }
}

/// No name is longer than the longest.
pub proof fn lemma_max_name_len_bounds(store: Seq<Element>, i: int)
    requires
        0 <= i < store.len(),
    ensures
        name_len(store[i]) <= max_name_len(store),
    decreases store.len(),
{
    if i < store.len() - 1 {
        lemma_max_name_len_bounds(store.drop_last(), i);
    }
}

/// Some name of a store that is not empty is as long as the longest.
pub proof fn lemma_max_name_len_reached(store: Seq<Element>) -> (i: int)
    requires
        store.len() > 0,
    ensures
        0 <= i < store.len(),
        name_len(store[i]) == max_name_len(store),
    decreases store.len(),
{
    let rest = store.drop_last();
    if rest.len() == 0 || name_len(store.last()) > max_name_len(rest) {
        store.len() - 1
    } else {
        lemma_max_name_len_reached(rest)
    }
}

/// `first_at_least` is the one position before which every name is shorter
/// than `l` and at which, if it is a position of the store, the name is not.
pub proof fn lemma_first_at_least(store: Seq<Element>, l: nat)
    ensures
        first_at_least(store, l) <= store.len(),
        forall|i: int| 0 <= i < first_at_least(store, l) ==> name_len(#[trigger] store[i]) < l,
        first_at_least(store, l) < store.len() ==> name_len(
            store[first_at_least(store, l) as int],
        ) >= l,
    decreases store.len(),
{
    if store.len() == 0 || name_len(store.first()) >= l {
    } else {
        let rest = store.drop_first();
        lemma_first_at_least(rest, l);
        assert forall|i: int| 0 <= i < first_at_least(store, l) implies name_len(
            #[trigger] store[i],
        ) < l by {
            if i > 0 {
                assert(store[i] == rest[i - 1]);
            }
        }
        if first_at_least(store, l) < store.len() {
            assert(store[first_at_least(store, l) as int] == rest[first_at_least(rest, l) as int]);
        }
    }
}

/// A position with the two properties of `lemma_first_at_least` is
/// `first_at_least`.
pub proof fn lemma_first_at_least_unique(store: Seq<Element>, l: nat, p: int)
    requires
        0 <= p <= store.len(),
        forall|i: int| 0 <= i < p ==> name_len(#[trigger] store[i]) < l,
        p < store.len() ==> name_len(store[p]) >= l,
    ensures
        p == first_at_least(store, l),
{
    lemma_first_at_least(store, l);
    let q = first_at_least(store, l) as int;
    if p < q {
        assert(name_len(store[p]) < l);
    } else if q < p {
        assert(name_len(store[q]) < l);
    }
}

/// The bound of the length index: in a store sorted by name length, every
/// element at or after the entry for `l` has a name of at least `l` bytes, and
/// the element just before it, if there is one, has a shorter name.
pub proof fn lemma_length_index_bound(store: Seq<Element>, l: usize)
    requires
        sorted_by_length(store),
        store.len() <= usize::MAX,
        length_index_of(store).contains_key(l),
    ensures
        length_index_of(store)[l] < store.len(),
        forall|i: int|
            length_index_of(store)[l] <= i < store.len() ==> name_len(#[trigger] store[i]) >= l,
        length_index_of(store)[l] > 0 ==> name_len(store[length_index_of(store)[l] - 1]) < l,
{
    lemma_first_at_least(store, l as nat);
    let longest = lemma_max_name_len_reached(store);
    let p = first_at_least(store, l as nat) as int;
    if p == store.len() {
        assert(name_len(store[longest]) < l);
    }
    assert forall|i: int| p <= i < store.len() implies name_len(#[trigger] store[i]) >= l by {
        assert(name_len(store[p]) <= name_len(store[i]));
    }
}

/// The scan start leaves out no element that holds the query as it is
/// written: the name of every element before it is shorter than the query.
pub proof fn lemma_scan_start_skips_no_holder(store: Seq<Element>, q: Seq<char>, i: int)
    requires
        0 <= i < scan_start(store, byte_len(q)),
    ensures
        i < store.len(),
        name_len(store[i]) < byte_len(q),
        !is_substring(q, store[i].name@),
{
    lemma_first_at_least(store, byte_len(q));
    if is_substring(q, store[i].name@) {
        lemma_substring_not_longer(q, store[i].name@);
    }
}

/// The lengths from 1 to `n`.
pub open spec fn lengths_up_to(n: nat) -> Set<usize> {
    Set::new(|l: usize| 1 <= l <= n)
}

/// There are `n` lengths from 1 to `n`.
pub proof fn lemma_lengths_up_to(n: nat)
    requires
        n <= usize::MAX,
    ensures
        lengths_up_to(n).finite(),
        lengths_up_to(n).len() == n,
    decreases n,
{
    if n == 0 {
        assert(lengths_up_to(n) =~= Set::<usize>::empty());
    } else {
        lemma_lengths_up_to((n - 1) as nat);
        assert(lengths_up_to(n) =~= lengths_up_to((n - 1) as nat).insert(n as usize));
    }
}

/// The length index has one entry for every length from 1 to the longest
/// name: its least key is 1, its greatest the length of the longest name,
/// and its size is that length.
pub proof fn lemma_length_index_keys(store: Seq<Element>)
    requires
        max_name_len(store) <= usize::MAX,
    ensures
        length_index_of(store).dom() == lengths_up_to(max_name_len(store)),
        length_index_of(store).dom().finite(),
        length_index_of(store).dom().len() == max_name_len(store),
{
    lemma_lengths_up_to(max_name_len(store));
    assert(length_index_of(store).dom() =~= lengths_up_to(max_name_len(store)));
}

/// Builds the length index of `elements` in one pass: wherever a name is
/// longer than all before it, the position is entered for every length that
/// has no entry yet, up to the length of that name.
pub fn build_length_index(elements: &Vec<Element>) -> (index: BTreeMap<usize, usize>)
    ensures
        index@ == length_index_of(elements@),
        max_name_len(elements@) <= usize::MAX,
{
    let mut index: BTreeMap<usize, usize> = BTreeMap::new();
    let mut current_length: usize = 0;
    let mut i: usize = 0;
    while i < elements.len()
        invariant
            i <= elements.len(),
            current_length == max_name_len(elements@.take(i as int)),
            forall|l: usize| index@.contains_key(l) <==> 1 <= l <= current_length,
            forall|l: usize|
                1 <= l <= current_length ==> #[trigger] index@[l] == first_at_least(
                    elements@,
                    l as nat,
                ),
        decreases elements.len() - i,
    {
        let length = elements[i].name_len();
        proof {
            assert(elements@.take(i + 1).drop_last() =~= elements@.take(i as int));
            assert forall|j: int| 0 <= j < i implies name_len(#[trigger] elements@[j])
                <= current_length by {
                lemma_max_name_len_bounds(elements@.take(i as int), j);
            }
        }
        if length > current_length {
            let mut len: usize = current_length;
            while len < length
                invariant
                    i < elements.len(),
                    current_length <= len <= length,
                    length == name_len(elements@[i as int]),
                    forall|j: int| 0 <= j < i ==> name_len(#[trigger] elements@[j]) <= current_length,
                    forall|l: usize| index@.contains_key(l) <==> 1 <= l <= len,
                    forall|l: usize|
                        1 <= l <= len ==> #[trigger] index@[l] == first_at_least(
                            elements@,
                            l as nat,
                        ),
                decreases length - len,
            {
                len += 1;
                index.insert(len, i);
                proof {
                    lemma_first_at_least_unique(elements@, len as nat, i as int);
                }
            }
            current_length = length;
        }
        i += 1;
    }
    proof {
        assert(elements@.take(elements@.len() as int) =~= elements@);
        assert(index@ =~= length_index_of(elements@));
    }
    index
}

} // verus!
