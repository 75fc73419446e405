//! The figures of a loaded store.

use crate::api::count::count_of;
use crate::bloomfilter::BIT_WIDTH;
use crate::length_index::{lemma_length_index_keys, length_index_of, max_name_len};
use crate::models::{AppState, Element};
use crate::utils::etag_of;
use vstd::prelude::*;

verus! {

/// The figures: how many elements and summaries there are, how wide a
/// summary is, how many entries the length index has, its least and its
/// greatest key (0 where it is empty), and the fingerprint.
#[derive(Debug, Clone, Copy, PartialEq, Eq)]
pub struct Stats {
    pub elements_count: usize,
    pub bloom_filters_count: usize,
    pub bit_width: u32,
    pub length_index_map_size: usize,
    pub min_element_length: usize,
    pub max_element_length: usize,
    pub etag: u32,
}

/// Whether `key` is the least key of `index`, or 0 where `index` is empty.
pub open spec fn is_least_key(index: Map<usize, usize>, key: usize) -> bool {
    if index.dom() == Set::<usize>::empty() {
        key == 0
    } else {
        index.contains_key(key) && forall|other: usize| index.contains_key(other) ==> key <= other
    }
}

/// Whether `key` is the greatest key of `index`, or 0 where `index` is
/// empty.
pub open spec fn is_greatest_key(index: Map<usize, usize>, key: usize) -> bool {
    if index.dom() == Set::<usize>::empty() {
        key == 0
    } else {
        index.contains_key(key) && forall|other: usize| index.contains_key(other) ==> other <= key
    }
}

/// The figures of `store`.
pub open spec fn stats_of(store: Seq<Element>) -> Stats {
    Stats {
        elements_count: store.len() as usize,
        bloom_filters_count: store.len() as usize,
        bit_width: BIT_WIDTH,
        length_index_map_size: length_index_of(store).dom().len() as usize,
        min_element_length: if max_name_len(store) > 0 {
            1
        } else {
            0
        },
        max_element_length: max_name_len(store) as usize,
        etag: etag_of(store),
    }
}

/// The two lengths of the figures are the key bounds of the length index.
pub proof fn lemma_stats_key_bounds(store: Seq<Element>)
    requires
        max_name_len(store) <= usize::MAX,
    ensures
        is_least_key(length_index_of(store), stats_of(store).min_element_length),
        is_greatest_key(length_index_of(store), stats_of(store).max_element_length),
        stats_of(store).length_index_map_size == max_name_len(store),
{
    lemma_length_index_keys(store);
    let index = length_index_of(store);
    if max_name_len(store) > 0 {
        assert(index.contains_key(1));
        assert(index.contains_key(max_name_len(store) as usize));
    } else {
        assert(index.dom() =~= Set::<usize>::empty());
    }
}

/// Reports the figures of the store. Nothing is scanned: the length index
/// has an entry for every length from 1 to the longest name, so its size and
/// its key bounds are known from the number of its entries.
pub fn get_stats(data: &AppState) -> (stats: Stats)
    ensures
        stats == stats_of(data@),
        is_least_key(length_index_of(data@), stats.min_element_length),
        is_greatest_key(length_index_of(data@), stats.max_element_length),
{
    let index = data.length_index_map();
    let size = index.len();
    proof {
        lemma_stats_key_bounds(data@);
    }
    let min_length: usize = if size > 0 {
        1
    } else {
        0
    };
    Stats {
        elements_count: data.elements().len(),
        bloom_filters_count: data.bloom_filters().len(),
        bit_width: BIT_WIDTH,
        length_index_map_size: size,
        min_element_length: min_length,
        max_element_length: size,
        etag: data.etag(),
    }
}

/// The fingerprint does not depend on the request: the figures and the
/// counts for any two queries on one store carry the same fingerprint.
pub proof fn lemma_fingerprint_stable(store: Seq<Element>, first: Seq<char>, second: Seq<char>)
    ensures
        count_of(store, first).etag == stats_of(store).etag,
        count_of(store, first).etag == count_of(store, second).etag,
{
}

} // verus!
