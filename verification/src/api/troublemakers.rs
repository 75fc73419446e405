//! The elements that the summary test can never exclude.
//!
//! A saturated summary passes for every query, so its element is put to the
//! substring test in every scan that reaches it. Their share of the store
//! tells how much the summary test can save at worst.

use crate::bloomfilter::{all_classes, classes_of};
use crate::models::{match_of, matches_of, views_of, AppState, Element, ElementMatch};
use crate::utils::etag_of;
use vstd::prelude::*;

verus! {

/// The answer: the saturated elements in the order of the store, and their
/// number. The share of troublemakers is `count` of `total`, and is 0 for an
/// empty store.
#[derive(Debug, Clone, PartialEq, Eq)]
pub struct TroublemakersResponse {
    pub troublemakers: Vec<ElementMatch>,
    pub count: usize,
    pub total: usize,
    pub etag: u32,
}

/// The elements of `store` whose name has characters of all 64 classes.
pub open spec fn saturated(store: Seq<Element>) -> Seq<Element> {
    store.filter(|element: Element| classes_of(element.name@) == all_classes())
}

/// Lists the elements whose summary is saturated.
pub fn get_troublemakers(data: &AppState) -> (response: TroublemakersResponse)
    ensures
        views_of(response.troublemakers@) == matches_of(saturated(data@)),
        response.count == saturated(data@).len(),
        response.total == data@.len(),
        response.etag == etag_of(data@),
{
    let elements = data.elements();
    let filters = data.bloom_filters();
    let total_elements = elements.len();
    let ghost store = data@;
    let mut troublemakers: Vec<ElementMatch> = Vec::new();
    let mut i: usize = 0;
    proof {
        reveal(Seq::filter);
        assert(views_of(troublemakers@) =~= matches_of(saturated(store.take(0))));
    }
    while i < total_elements
        invariant
            i <= total_elements,
            total_elements == store.len(),
            elements@ == store,
            filters@.len() == total_elements,
            forall|j: int|
                0 <= j < total_elements ==> (#[trigger] filters@[j])@ == classes_of(
                    store[j].name@,
                ),
            views_of(troublemakers@) == matches_of(saturated(store.take(i as int))),
        decreases total_elements - i,
    {
        let ghost found = troublemakers@;
        proof {
            store.take(i as int).lemma_filter_push(
                store[i as int],
                |element: Element| classes_of(element.name@) == all_classes(),
            );
            assert(store.take(i as int).push(store[i as int]) =~= store.take(i + 1));
        }
        if filters[i].is_all_ones() {
            troublemakers.push(ElementMatch::of(&elements[i]));
            proof {
                assert(views_of(troublemakers@) =~= views_of(found).push(match_of(store[i as int])));
            }
        }
        proof {
            assert(views_of(troublemakers@) =~= matches_of(saturated(store.take(i + 1))));
        }
        i += 1;
    }
    proof {
        assert(store.take(total_elements as int) =~= store);
    }
    let count = troublemakers.len();
    TroublemakersResponse { troublemakers, count, total: total_elements, etag: data.etag() }
}

} // verus!
