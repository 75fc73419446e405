//! The records of the store and of the answers.

use crate::bloomfilter::{classes_of, BloomFilter};
use crate::length_index::{build_length_index, length_index_of, max_name_len};
use crate::store::{byte_length, is_stable_sort, name_len, sort_by_name_length, sorted_by_length};
use crate::utils::{etag_of, generate_etag};
use std::collections::BTreeMap;
use vstd::prelude::*;

verus! {

/// A named record. The name is the search key; the emoji is carried along.
#[derive(Debug, Clone, PartialEq, Eq)]
pub struct Element {
    pub id: u32,
    pub name: String,
    pub emoji: String,
}

impl Element {
    /// The length of the name in bytes, by which the store is ordered.
    pub fn name_len(&self) -> (n: usize)
        ensures
            n == name_len(*self),
    {
        byte_length(self.name.as_str())
    }
}

/// What an answer shows of an element.
#[derive(Debug, Clone, PartialEq, Eq)]
pub struct ElementMatch {
    pub name: String,
    pub emoji: String,
}

/// The name and the emoji of an answer entry, as plain text.
pub struct MatchView {
    pub name: Seq<char>,
    pub emoji: Seq<char>,
}

impl View for ElementMatch {
    type V = MatchView;

    open spec fn view(&self) -> MatchView {
        MatchView { name: self.name@, emoji: self.emoji@ }
    }
}

/// The answer entry that shows `element`.
pub open spec fn match_of(element: Element) -> MatchView {
    MatchView { name: element.name@, emoji: element.emoji@ }
}

/// What the entries of an answer show, as plain text.
pub open spec fn views_of(entries: Seq<ElementMatch>) -> Seq<MatchView> {
    entries.map_values(|entry: ElementMatch| entry@)
}

/// The answer entries for `elements`.
pub open spec fn matches_of(elements: Seq<Element>) -> Seq<MatchView> {
    elements.map_values(|element: Element| match_of(element))
}

impl ElementMatch {
    /// The answer entry for `element`.
    pub fn of(element: &Element) -> (entry: Self)
        ensures
            entry@ == match_of(*element),
    {
        ElementMatch { name: element.name.clone(), emoji: element.emoji.clone() }
    }
}

/// The summaries of the names of `elements`, position by position.
pub fn build_bloom_filters(elements: &Vec<Element>) -> (filters: Vec<BloomFilter>)
    ensures
        filters@.len() == elements@.len(),
        forall|i: int|
            0 <= i < elements@.len() ==> (#[trigger] filters@[i])@ == classes_of(
                elements@[i].name@,
            ),
{
    let mut filters: Vec<BloomFilter> = Vec::with_capacity(elements.len());
    let mut i: usize = 0;
    while i < elements.len()
        invariant
            i <= elements.len(),
            filters@.len() == i,
            forall|j: int|
                0 <= j < i ==> (#[trigger] filters@[j])@ == classes_of(elements@[j].name@),
        decreases elements.len() - i,
    {
        let filter = BloomFilter::from_string(elements[i].name.as_str());
        filters.push(filter);
        i += 1;
    }
    filters
}

/// The loaded store with all that is derived from it: the elements in
/// ascending order of name length, the summary of every name, the length
/// index and the fingerprint. It is made once and never changed; its view is
/// the sequence of its elements.
pub struct AppState {
    elements: Vec<Element>,
    bloom_filters: Vec<BloomFilter>,
    length_index_map: BTreeMap<usize, usize>,
    etag: u32,
}

impl View for AppState {
    type V = Seq<Element>;

    closed spec fn view(&self) -> Seq<Element> {
        self.elements@
    }
}

impl AppState {
    /// What holds of every state: the store is sorted, and the summaries,
    /// the length index and the fingerprint are those of the store.
    #[verifier::type_invariant]
    spec fn well_formed(self) -> bool {
        &&& sorted_by_length(self.elements@)
        &&& self.bloom_filters@.len() == self.elements@.len()
        &&& forall|i: int|
            0 <= i < self.elements@.len() ==> (#[trigger] self.bloom_filters@[i])@ == classes_of(
                self.elements@[i].name@,
            )
        &&& self.length_index_map@ == length_index_of(self.elements@)
        &&& max_name_len(self.elements@) <= usize::MAX
        &&& self.etag == etag_of(self.elements@)
    }

    /// Loads a store: sorts the elements by the length of their names,
    /// keeping the order of those with names of one length, and derives the
    /// length index, the fingerprint and the summaries.
    pub fn new(elements: Vec<Element>) -> (state: Self)
        ensures
            is_stable_sort(elements@, state@),
            state@.len() == elements@.len(),
    {
        let ghost unsorted = elements@;
        let mut elements = elements;
        sort_by_name_length(&mut elements);
        proof {
            unsorted.to_multiset_ensures();
            elements@.to_multiset_ensures();
        }
        let length_index_map = build_length_index(&elements);
        let etag = generate_etag(elements.as_slice());
        let bloom_filters = build_bloom_filters(&elements);
        AppState { elements, bloom_filters, length_index_map, etag }
    }

    /// The elements, in ascending order of name length.
    pub fn elements(&self) -> (elements: &Vec<Element>)
        ensures
            elements@ == self@,
            sorted_by_length(self@),
    {
        proof {
            use_type_invariant(self);
        }
        &self.elements
    }

    /// The summaries: one for each element, at the same position.
    pub fn bloom_filters(&self) -> (filters: &Vec<BloomFilter>)
        ensures
            filters@.len() == self@.len(),
            forall|i: int|
                0 <= i < self@.len() ==> (#[trigger] filters@[i])@ == classes_of(self@[i].name@),
    {
        proof {
            use_type_invariant(self);
        }
        &self.bloom_filters
    }

    /// The length index of the store.
    pub fn length_index_map(&self) -> (index: &BTreeMap<usize, usize>)
        ensures
            index@ == length_index_of(self@),
            self@.len() <= usize::MAX,
            max_name_len(self@) <= usize::MAX,
    {
        proof {
            use_type_invariant(self);
            assert(self.elements.len() == self.elements@.len());
        }
        &self.length_index_map
    }

    /// The fingerprint of the store.
    pub fn etag(&self) -> (etag: u32)
        ensures
            etag == etag_of(self@),
    {
        proof {
            use_type_invariant(self);
        }
        self.etag
    }
}

} // verus!
