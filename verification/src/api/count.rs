//! Counting the elements that may hold a query.

use crate::api::{passing, summary_test};
use crate::bloomfilter::{classes_of, BloomFilter};
use crate::length_index::{lemma_first_at_least, scan_start};
use crate::models::{AppState, Element};
use crate::store::{byte_len, byte_length};
use crate::utils::etag_of;
use vstd::prelude::*;

verus! {

/// The parameters of a count.
#[derive(Debug, Clone, PartialEq, Eq)]
pub struct SearchQuery {
    pub q: String,
}

/// The answer to a count. `matches` of the `scanned` elements passed the
/// summary test; the share of matches is taken of `scanned`, not of `total`,
/// and is 0 where nothing was scanned.
#[derive(Debug, Clone, Copy, PartialEq, Eq)]
pub struct SearchResponse {
    pub matches: usize,
    pub total: usize,
    pub scanned: usize,
    pub etag: u32,
}

/// The answer to the count of `q` on `store`: of the elements from the scan
/// start for `q` to the end of `store`, those whose summary passes.
pub open spec fn count_of(store: Seq<Element>, q: Seq<char>) -> SearchResponse {
    let start = scan_start(store, byte_len(q)) as int;
    SearchResponse {
        matches: passing(store.skip(start), classes_of(q)).len() as usize,
        total: store.len() as usize,
        scanned: (store.len() - start) as usize,
        etag: etag_of(store),
    }
}

/// Where the scan for `q` starts in the store of `data`: at the entry of the
/// length index for the byte length of `q`, or at 0 where it has none.
pub fn length_start_index(q: &str, data: &AppState) -> (start: usize)
    ensures
        start == scan_start(data@, byte_len(q@)),
        start <= data@.len(),
{
    let query_length = byte_length(q);
    proof {
        lemma_first_at_least(data@, byte_len(q@));
    }
    match data.length_index_map().get(&query_length) {
        Some(start) => *start,
        None => 0,
    }
}

/// The elements of `store` from position `from` on; none where `from` lies
/// behind the end.
pub open spec fn tail_from(store: Seq<Element>, from: nat) -> Seq<Element> {
    if from <= store.len() {
        store.skip(from as int)
    } else {
        Seq::empty()
    }
}

/// Counts the elements of the store from `from` to the end whose summary
/// holds every class of `query_filter`.
pub fn count_passing(data: &AppState, query_filter: &BloomFilter, from: usize) -> (count: usize)
    ensures
        count == passing(tail_from(data@, from as nat), query_filter@).len(),
        count <= tail_from(data@, from as nat).len(),
{
    let filters = data.bloom_filters();
    let total = filters.len();
    let ghost store = data@;
    let ghost classes = query_filter@;
    if from > total {
        proof {
            assert(passing(Seq::<Element>::empty(), classes).len() == 0) by {
                reveal(Seq::filter);
            }
        }
        return 0;
    }
    let mut count: usize = 0;
    let mut i: usize = from;
    proof {
        assert(passing(store.subrange(from as int, i as int), classes).len() == 0) by {
            reveal(Seq::filter);
        }
    }
    while i < total
        invariant
            from <= i <= total,
            total == store.len(),
            filters@.len() == total,
            classes == query_filter@,
            forall|j: int|
                0 <= j < total ==> (#[trigger] filters@[j])@ == classes_of(store[j].name@),
            count == passing(store.subrange(from as int, i as int), classes).len(),
            count <= i - from,
        decreases total - i,
    {
        let ghost before = store.subrange(from as int, i as int);
        proof {
            before.lemma_filter_push(store[i as int], summary_test(classes));
            assert(before.push(store[i as int]) =~= store.subrange(from as int, i + 1));
        }
        if filters[i].contains(query_filter) {
            count += 1;
        }
        i += 1;
    }
    proof {
        assert(store.subrange(from as int, total as int) =~= store.skip(from as int));
    }
    count
}

/// Counts the elements from the start of the scan to the end of the store
/// whose summary passes for the query. No substring test is made: the count
/// is an upper estimate of the elements that hold the query.
pub fn count_matches(query: &SearchQuery, data: &AppState) -> (response: SearchResponse)
    ensures
        response == count_of(data@, query.q@),
        response.matches <= response.scanned <= response.total,
{
    let query_filter = BloomFilter::from_string(query.q.as_str());
    let length_start_index = length_start_index(query.q.as_str(), data);
    let matches_count = count_passing(data, &query_filter, length_start_index);
    let total = data.elements().len();
    SearchResponse {
        matches: matches_count,
        total,
        scanned: total - length_start_index,
        etag: data.etag(),
    }
}

} // verus!
