//! The order of the store: ascending by the byte length of the names.

use crate::models::Element;
use crate::text::{is_substring, occurs_at};
use vstd::prelude::*;
use vstd::utf8::encode_utf8;

verus! {

/// The length of a text in bytes, in UTF-8.
pub open spec fn byte_len(s: Seq<char>) -> nat {
    encode_utf8(s).len()
}

/// The byte length of two texts in a row is the sum of their byte lengths.
pub proof fn lemma_byte_len_concat(first: Seq<char>, second: Seq<char>)
    ensures
        byte_len(first + second) == byte_len(first) + byte_len(second),
    decreases first.len(),
{
    if first.len() == 0 {
        assert(first + second =~= second);
    } else {
        lemma_byte_len_concat(first.drop_first(), second);
        assert((first + second).drop_first() =~= first.drop_first() + second);
    }
}

/// A text is at least as long, in bytes, as any contiguous part of it.
pub proof fn lemma_substring_not_longer(needle: Seq<char>, hay: Seq<char>)
    requires
        is_substring(needle, hay),
    ensures
        byte_len(needle) <= byte_len(hay),
{
    let at = choose|at: int| occurs_at(needle, hay, at);
    let front = hay.take(at);
    let back = hay.skip(at + needle.len());
    assert(hay =~= front + (needle + back));
    lemma_byte_len_concat(needle, back);
    lemma_byte_len_concat(front, needle + back);
}

/// The length of an element's name in bytes.
pub open spec fn name_len(element: Element) -> nat {
    byte_len(element.name@)
}

/// Whether no element is followed by one with a shorter name.
pub open spec fn sorted_by_length(store: Seq<Element>) -> bool {
    forall|i: int, j: int|
        0 <= i <= j < store.len() ==> name_len(#[trigger] store[i]) <= name_len(#[trigger] store[j])
}

/// The elements of `store` whose name is `l` bytes long, in their order.
pub open spec fn with_length(store: Seq<Element>, l: nat) -> Seq<Element> {
    store.filter(|element: Element| name_len(element) == l)
}

/// Whether `output` holds the elements of `input` in ascending order of name
/// length, those of equal length in the order they had in `input`.
pub open spec fn is_stable_sort(input: Seq<Element>, output: Seq<Element>) -> bool {
    &&& sorted_by_length(output)
    &&& output.to_multiset() == input.to_multiset()
    &&& forall|l: nat| #[trigger] with_length(output, l) == with_length(input, l)
}

/// The last element of a sorted store that has the elements of length `l`
/// of `other`, for every `l`, is as long as any element of `other`.
proof fn lemma_last_is_longest(store: Seq<Element>, other: Seq<Element>, j: int)
    requires
        sorted_by_length(store),
        forall|l: nat| #[trigger] with_length(store, l) == with_length(other, l),
        0 <= j < other.len(),
    ensures
        store.len() > 0,
        name_len(other[j]) <= name_len(store.last()),
{
    let l = name_len(other[j]);
    let pred = |element: Element| name_len(element) == l;
    other.lemma_filter_contains(pred, j);
    assert(with_length(store, l).contains(other[j]));
    store.lemma_filter_contains_rev(pred, other[j]);
    let k = choose|k: int| 0 <= k < store.len() && store[k] == other[j];
    assert(name_len(store[k]) <= name_len(store[store.len() - 1]));
}

/// There is one stable sort: two sorted sequences that hold, for every
/// length, the same elements of that length in the same order are equal.
pub proof fn lemma_stable_sort_unique(first: Seq<Element>, second: Seq<Element>)
    requires
        sorted_by_length(first),
        sorted_by_length(second),
        forall|l: nat| #[trigger] with_length(first, l) == with_length(second, l),
    ensures
        first == second,
    decreases first.len(),
{
    if first.len() == 0 {
        if second.len() > 0 {
            lemma_last_is_longest(first, second, 0);
        }
        assert(first =~= second);
    } else {
        lemma_last_is_longest(second, first, first.len() - 1);
        lemma_last_is_longest(first, second, second.len() - 1);
        let longest = name_len(first.last());
        assert(name_len(second.last()) == longest);
        let shorter_first = first.drop_last();
        let shorter_second = second.drop_last();
        assert forall|l: nat| #[trigger]
            with_length(shorter_first, l) == with_length(shorter_second, l) by {
            let pred = |element: Element| name_len(element) == l;
            shorter_first.lemma_filter_push(first.last(), pred);
            shorter_second.lemma_filter_push(second.last(), pred);
            assert(shorter_first.push(first.last()) =~= first);
            assert(shorter_second.push(second.last()) =~= second);
            assert(with_length(first, l) == with_length(second, l));
            if l == longest {
                assert(with_length(shorter_first, l) =~= with_length(first, l).drop_last());
                assert(with_length(shorter_second, l) =~= with_length(second, l).drop_last());
            }
        }
        assert(sorted_by_length(shorter_first)) by {
            assert forall|i: int, j: int| 0 <= i <= j < shorter_first.len() implies name_len(
                #[trigger] shorter_first[i],
            ) <= name_len(#[trigger] shorter_first[j]) by {
                assert(name_len(first[i]) <= name_len(first[j]));
            }
        }
        assert(sorted_by_length(shorter_second)) by {
            assert forall|i: int, j: int| 0 <= i <= j < shorter_second.len() implies name_len(
                #[trigger] shorter_second[i],
            ) <= name_len(#[trigger] shorter_second[j]) by {
                assert(name_len(second[i]) <= name_len(second[j]));
            }
        }
        lemma_stable_sort_unique(shorter_first, shorter_second);
        let pred = |element: Element| name_len(element) == longest;
        shorter_first.lemma_filter_push(first.last(), pred);
        shorter_second.lemma_filter_push(second.last(), pred);
        assert(shorter_first.push(first.last()) =~= first);
        assert(shorter_second.push(second.last()) =~= second);
        assert(with_length(first, longest) == with_length(second, longest));
        assert(with_length(first, longest).last() == first.last());
        assert(with_length(second, longest).last() == second.last());
        assert(first =~= second);
    }
}

/// The length of `s` in bytes.
pub fn byte_length(s: &str) -> (n: usize)
    ensures
        n == byte_len(s@),
{
    s.as_bytes().len()
}

/// Calls `sort_by_key` of the slice with the name length as the key.
/// Trusted: the sort rearranges the elements, orders them by the key and is
/// stable, so elements with names of one length keep their order.
#[verifier::external_body]
pub(crate) fn sort_by_name_length(elements: &mut Vec<Element>)
    ensures
        is_stable_sort(old(elements)@, final(elements)@),
{
    elements.sort_by_key(|element| element.name_len());
}

} // verus!
