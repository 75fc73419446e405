//! Searching page by page.
//!
//! A page is a scan that starts at a position of the store and ends after a
//! given number of results. Every element on the way is put to the summary
//! test; only one that passes it is put to the substring test, and only one
//! that passes both is a result. Since the summary of a query passes against
//! the summary of every name that holds it, the results are the elements on
//! the way that pass the substring test. The answer tells where the scan
//! ended, and the next page starts there.

use crate::api::count::length_start_index;
use crate::api::{
    both_tests, confirmed, confirms, holders, holds_query, lemma_no_false_negative, passing,
    summary_test,
};
use crate::bloomfilter::{classes_of, BloomFilter};
use crate::length_index::{lemma_first_at_least, scan_start};
use crate::models::{match_of, matches_of, views_of, AppState, Element, ElementMatch, MatchView};
use crate::store::byte_len;
use crate::text::{str_contains, str_lowercase};
use crate::utils::etag_of;
use vstd::prelude::*;

verus! {

/// The number of results of a page where the query names none.
pub const DEFAULT_LIMIT: usize = 10;

/// The parameters of a page: the query, where to start (0 if absent), how
/// many results at most (10 if absent), and the fingerprint that the client
/// got with the page before, if any.
#[derive(Debug, Clone, PartialEq, Eq)]
pub struct PaginatedSearchQuery {
    pub q: String,
    pub start: Option<usize>,
    pub limit: Option<usize>,
    pub etag: Option<u32>,
}

/// A page of results. `bloom_hits` counts the elements of the page's range
/// that passed the summary test, results or not; `next_index` is where the
/// scan ended, and is the length of the store when it reached the end.
#[derive(Debug, Clone, PartialEq, Eq)]
pub struct PaginatedSearchResponse {
    pub matches: Vec<ElementMatch>,
    pub bloom_hits: u64,
    pub next_index: usize,
    pub etag: u32,
}

/// The client's fingerprint is not that of the store: the store is another
/// one than the client has seen, and the client starts again from 0.
#[derive(Debug, Clone, Copy, PartialEq, Eq)]
pub struct EtagMismatch {
    pub current_etag: u32,
}

/// Where a page for `q` really starts when the client asks for `start`: no
/// earlier than the scan start that the length index gives for `q`, and no
/// later than the end of the store.
pub open spec fn page_start(store: Seq<Element>, q: Seq<char>, start: nat) -> nat {
    let bound = scan_start(store, byte_len(q));
    let wanted = if start > bound {
        start
    } else {
        bound
    };
    if wanted > store.len() {
        store.len()
    } else {
        wanted
    }
}

/// Where a scan from `from` for `limit` results ends, when the results are
/// the elements that `is_result` holds of: just behind the result that fills
/// the page, and at the end of the store if there are not that many, or if
/// `from` lies behind the end. A page of no results ends where it starts.
pub open spec fn scan_stop(
    store: Seq<Element>,
    is_result: spec_fn(Element) -> bool,
    from: nat,
    limit: nat,
) -> nat
    decreases store.len() - from,
{
    if from >= store.len() {
        store.len()
    } else if limit == 0 {
        from
    } else if is_result(store[from as int]) {
        scan_stop(store, is_result, from + 1, (limit - 1) as nat)
    } else {
        scan_stop(store, is_result, from + 1, limit)
    }
}

/// The elements that a scan from `from` for `limit` results passes over.
pub open spec fn scan_range(
    store: Seq<Element>,
    is_result: spec_fn(Element) -> bool,
    from: nat,
    limit: nat,
) -> Seq<Element> {
    let end = scan_stop(store, is_result, from, limit) as int;
    if from <= end {
        store.subrange(from as int, end)
    } else {
        Seq::empty()
    }
}

/// Where the page for `q` that is asked from `start` with `limit` ends: just
/// behind the element that holds `q` and fills the page, or at the end of the
/// store.
pub open spec fn page_end(store: Seq<Element>, q: Seq<char>, start: nat, limit: nat) -> nat {
    scan_stop(store, holds_query(q), page_start(store, q, start), limit)
}

/// The elements that the page scans.
pub open spec fn page_range(store: Seq<Element>, q: Seq<char>, start: nat, limit: nat) -> Seq<
    Element,
> {
    scan_range(store, holds_query(q), page_start(store, q, start), limit)
}

/// The results of the page: the elements of its range whose name holds `q`
/// without regard to case.
pub open spec fn page_matches(store: Seq<Element>, q: Seq<char>, start: nat, limit: nat) -> Seq<
    MatchView,
> {
    matches_of(holders(page_range(store, q, start, limit), q))
}

/// The number of elements of the page's range that pass the summary test.
pub open spec fn page_bloom_hits(store: Seq<Element>, q: Seq<char>, start: nat, limit: nat) -> nat {
    passing(page_range(store, q, start, limit), classes_of(q)).len()
}

/// A scan ends between its start and the end of the store, with at most
/// `limit` results, and with exactly `limit` unless it reached the end.
pub proof fn lemma_scan_stop(
    store: Seq<Element>,
    is_result: spec_fn(Element) -> bool,
    from: nat,
    limit: nat,
)
    requires
        from <= store.len(),
    ensures
        from <= scan_stop(store, is_result, from, limit) <= store.len(),
        scan_range(store, is_result, from, limit).filter(is_result).len() <= limit,
        scan_stop(store, is_result, from, limit) < store.len() ==> scan_range(
            store,
            is_result,
            from,
            limit,
        ).filter(is_result).len() == limit,
    decreases store.len() - from,
{
    if from >= store.len() || limit == 0 {
        assert(store.subrange(from as int, from as int).filter(is_result).len() == 0) by {
            reveal(Seq::filter);
        }
    } else {
        let rest_limit = if is_result(store[from as int]) {
            (limit - 1) as nat
        } else {
            limit
        };
        lemma_scan_stop(store, is_result, from + 1, rest_limit);
        let stop = scan_stop(store, is_result, from, limit);
        assert(stop == scan_stop(store, is_result, from + 1, rest_limit));
        let rest = store.subrange(from as int + 1, stop as int);
        rest.lemma_filter_prepend(store[from as int], is_result);
        assert(seq![store[from as int]] + rest =~= store.subrange(from as int, stop as int));
    }
}

/// Two scans, the second from where the first ended, end where one scan for
/// the results of both ends.
pub proof fn lemma_scan_stop_resumes(
    store: Seq<Element>,
    is_result: spec_fn(Element) -> bool,
    from: nat,
    first: nat,
    second: nat,
)
    ensures
        scan_stop(store, is_result, scan_stop(store, is_result, from, first), second) == scan_stop(
            store,
            is_result,
            from,
            first + second,
        ),
    decreases store.len() - from,
{
    if from >= store.len() {
    } else if first == 0 {
    } else if is_result(store[from as int]) {
        lemma_scan_stop_resumes(store, is_result, from + 1, (first - 1) as nat, second);
    } else {
        lemma_scan_stop_resumes(store, is_result, from + 1, first, second);
    }
}

/// Pages continue one another. When the second page is asked from the
/// `next_index` of the first, for the same query on the same store, it starts
/// exactly there; its range follows the first range with no position left
/// out and none scanned twice; and the two pages together are what one page
/// for the results of both holds: the same results in the same order, the
/// same count of summary passes, the same end.
pub proof fn lemma_pagination_resumes(
    store: Seq<Element>,
    q: Seq<char>,
    start: nat,
    first: nat,
    second: nat,
)
    ensures
        page_start(store, q, page_end(store, q, start, first)) == page_end(store, q, start, first),
        page_range(store, q, start, first) + page_range(
            store,
            q,
            page_end(store, q, start, first),
            second,
        ) == page_range(store, q, start, first + second),
        page_matches(store, q, start, first) + page_matches(
            store,
            q,
            page_end(store, q, start, first),
            second,
        ) == page_matches(store, q, start, first + second),
        page_bloom_hits(store, q, start, first) + page_bloom_hits(
            store,
            q,
            page_end(store, q, start, first),
            second,
        ) == page_bloom_hits(store, q, start, first + second),
        page_end(store, q, page_end(store, q, start, first), second) == page_end(
            store,
            q,
            start,
            first + second,
        ),
{
    let is_result = holds_query(q);
    let from = page_start(store, q, start);
    let mid = page_end(store, q, start, first);
    let end = page_end(store, q, mid, second);
    lemma_first_at_least(store, byte_len(q));
    lemma_scan_stop(store, is_result, from, first);
    assert(page_start(store, q, mid) == mid);
    lemma_scan_stop(store, is_result, mid, second);
    lemma_scan_stop_resumes(store, is_result, from, first, second);
    let one = store.subrange(from as int, mid as int);
    let two = store.subrange(mid as int, end as int);
    assert(one + two =~= store.subrange(from as int, end as int));
    Seq::filter_distributes_over_add(one, two, is_result);
    Seq::filter_distributes_over_add(one, two, summary_test(classes_of(q)));
    assert(matches_of(holders(one, q)) + matches_of(holders(two, q)) =~= matches_of(
        holders(one, q) + holders(two, q),
    ));
}

/// Every result of a page holds the query without regard to case, and no
/// element of the page's range that holds it is left out: the results are
/// the elements of the range whose name in lowercase holds the query in
/// lowercase, in the order of the store.
pub proof fn lemma_page_matches_are_the_holders(
    store: Seq<Element>,
    q: Seq<char>,
    start: nat,
    limit: nat,
    i: int,
)
    requires
        0 <= i < page_range(store, q, start, limit).len(),
    ensures
        holders(page_range(store, q, start, limit), q).contains(
            page_range(store, q, start, limit)[i],
        ) <==> confirms(page_range(store, q, start, limit)[i].name@, str_lowercase(q)),
{
    let range = page_range(store, q, start, limit);
    if confirms(range[i].name@, str_lowercase(q)) {
        range.lemma_filter_contains(holds_query(q), i);
    }
    if holders(range, q).contains(range[i]) {
        let k = choose|k: int| 0 <= k < holders(range, q).len() && holders(range, q)[k] == range[i];
        range.lemma_filter_pred(holds_query(q), k);
    }
}

/// Whether the name of `element` holds `lowercase_query` when it is put in
/// lowercase.
pub fn name_holds(element: &Element, lowercase_query: &str) -> (holds: bool)
    ensures
        holds == confirms(element.name@, lowercase_query@),
{
    str_contains(element.name.to_lowercase().as_str(), lowercase_query)
}

/// Scans the store of `data` from `from` for at most `limit` results.
/// An element is a result if its summary holds every class of
/// `query_filter` and its name in lowercase holds `lowercase_query`. Returns
/// the results, the number of elements on the way whose summary passed, and
/// the position where the scan ended.
pub fn scan_page(
    data: &AppState,
    query_filter: &BloomFilter,
    lowercase_query: &str,
    from: usize,
    limit: usize,
) -> (page: (Vec<ElementMatch>, u64, usize))
    ensures
        page.2 == scan_stop(
            data@,
            both_tests(query_filter@, lowercase_query@),
            from as nat,
            limit as nat,
        ),
        views_of(page.0@) == matches_of(
            confirmed(
                scan_range(
                    data@,
                    both_tests(query_filter@, lowercase_query@),
                    from as nat,
                    limit as nat,
                ),
                query_filter@,
                lowercase_query@,
            ),
        ),
        page.1 == passing(
            scan_range(
                data@,
                both_tests(query_filter@, lowercase_query@),
                from as nat,
                limit as nat,
            ),
            query_filter@,
        ).len(),
{
    let elements = data.elements();
    let filters = data.bloom_filters();
    let total = filters.len();
    let ghost store = data@;
    let ghost classes = query_filter@;
    let ghost lowered = lowercase_query@;
    let ghost is_result = both_tests(classes, lowered);
    let mut matches: Vec<ElementMatch> = Vec::new();
    let mut bloom_hits: u64 = 0;
    if from > total {
        proof {
            reveal(Seq::filter);
            assert(views_of(matches@) =~= matches_of(
                confirmed(Seq::<Element>::empty(), classes, lowered),
            ));
        }
        return (matches, bloom_hits, total);
    }
    let mut i: usize = from;
    proof {
        reveal(Seq::filter);
        assert(views_of(matches@) =~= matches_of(
            confirmed(store.subrange(from as int, i as int), classes, lowered),
        ));
    }
    while i < total && matches.len() < limit
        invariant
            from <= i <= total,
            total == store.len(),
            elements@ == store,
            filters@.len() == total,
            classes == query_filter@,
            lowered == lowercase_query@,
            is_result == both_tests(classes, lowered),
            forall|j: int|
                0 <= j < total ==> (#[trigger] filters@[j])@ == classes_of(store[j].name@),
            matches@.len() <= limit,
            scan_stop(store, is_result, from as nat, limit as nat) == scan_stop(
                store,
                is_result,
                i as nat,
                (limit - matches@.len()) as nat,
            ),
            views_of(matches@) == matches_of(
                confirmed(store.subrange(from as int, i as int), classes, lowered),
            ),
            bloom_hits == passing(store.subrange(from as int, i as int), classes).len(),
            bloom_hits <= i - from,
        decreases total - i,
    {
        let ghost before = store.subrange(from as int, i as int);
        let ghost found = matches@;
        proof {
            before.lemma_filter_push(store[i as int], summary_test(classes));
            before.lemma_filter_push(store[i as int], both_tests(classes, lowered));
            assert(before.push(store[i as int]) =~= store.subrange(from as int, i + 1));
        }
        if filters[i].contains(query_filter) {
            bloom_hits += 1;
            if name_holds(&elements[i], lowercase_query) {
                matches.push(ElementMatch::of(&elements[i]));
                proof {
                    assert(views_of(matches@) =~= views_of(found).push(match_of(store[i as int])));
                }
            }
        }
        proof {
            assert(views_of(matches@) =~= matches_of(
                confirmed(store.subrange(from as int, i + 1), classes, lowered),
            ));
        }
        i += 1;
    }
    (matches, bloom_hits, i)
}

/// One page of the search for `query.q`.
///
/// Where the client sent a fingerprint that is not the store's, nothing is
/// scanned and the answer is the mismatch, with the store's fingerprint.
/// Otherwise the page starts at the later of the position asked for and the
/// scan start for the query, and ends after `limit` results or at the end of
/// the store. Its results are the elements on the way whose name holds the
/// query without regard to case: the summary test saves work and never
/// costs a result.
pub fn paginated_search(query: &PaginatedSearchQuery, data: &AppState) -> (result: Result<
    PaginatedSearchResponse,
    EtagMismatch,
>)
    ensures
        match result {
            Err(mismatch) => {
                &&& query.etag is Some
                &&& query.etag != Some(etag_of(data@))
                &&& mismatch.current_etag == etag_of(data@)
            },
            Ok(response) => {
                let start = query.start.unwrap_or(0) as nat;
                let limit = query.limit.unwrap_or(DEFAULT_LIMIT) as nat;
                &&& query.etag is None || query.etag == Some(etag_of(data@))
                &&& views_of(response.matches@) == page_matches(data@, query.q@, start, limit)
                &&& response.bloom_hits == page_bloom_hits(data@, query.q@, start, limit)
                &&& response.next_index == page_end(data@, query.q@, start, limit)
                &&& response.etag == etag_of(data@)
                &&& response.matches@.len() <= limit
                &&& response.next_index <= data@.len()
                &&& response.next_index < data@.len() ==> response.matches@.len() == limit
            },
        },
{
    let start_index = query.start.unwrap_or(0);
    let limit = query.limit.unwrap_or(DEFAULT_LIMIT);
    let etag = data.etag();
    if let Some(client_etag) = query.etag {
        if client_etag != etag {
            return Err(EtagMismatch { current_etag: etag });
        }
    }
    let query_filter = BloomFilter::from_string(query.q.as_str());
    let length_start_index = length_start_index(query.q.as_str(), data);
    let effective_start_index = if start_index > length_start_index {
        start_index
    } else {
        length_start_index
    };
    let lowercase_query = query.q.to_lowercase();
    let (matches, bloom_hits, next_index) = scan_page(
        data,
        &query_filter,
        lowercase_query.as_str(),
        effective_start_index,
        limit,
    );
    proof {
        let classes = classes_of(query.q@);
        let lowered = str_lowercase(query.q@);
        let is_result = holds_query(query.q@);
        let from = page_start(data@, query.q@, start_index as nat);
        lemma_no_false_negative(query.q@);
        assert(both_tests(classes, lowered) == is_result);
        lemma_scan_stop(data@, is_result, from, limit as nat);
        assert(scan_stop(data@, is_result, effective_start_index as nat, limit as nat)
            == scan_stop(data@, is_result, from, limit as nat));
        assert(scan_range(data@, is_result, effective_start_index as nat, limit as nat)
            =~= scan_range(data@, is_result, from, limit as nat));
        assert(views_of(matches@).len() == matches@.len());
        assert(page_matches(data@, query.q@, start_index as nat, limit as nat).len() == holders(
            page_range(data@, query.q@, start_index as nat, limit as nat),
            query.q@,
        ).len());
    }
    Ok(PaginatedSearchResponse { matches, bloom_hits, next_index, etag })
}

} // verus!
