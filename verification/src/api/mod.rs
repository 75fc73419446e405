//! The read operations on a loaded store, and the two tests that a scan
//! applies to an element: the summary test, which is cheap and may pass too
//! often, and the substring test, which is exact.
//!
//! A scan sees a query through two things that are made from it once: the
//! classes of its summary, and its lowercase form.

pub mod count;
pub mod paginated;
pub mod random;
pub mod stats;
pub mod troublemakers;

pub use count::count_matches;
pub use paginated::paginated_search;
pub use random::get_random_elements;
pub use stats::get_stats;
pub use troublemakers::get_troublemakers;

use crate::bloomfilter::{classes_of, lemma_substring_passes};
use crate::models::Element;
use crate::text::{is_substring, str_lowercase};
use vstd::prelude::*;

verus! {

/// The summary test: every one of `classes` occurs in the name.
pub open spec fn prefilter_passes(name: Seq<char>, classes: Set<int>) -> bool {
    classes.subset_of(classes_of(name))
}

/// The substring test: `lowered` is a contiguous part of the name in
/// lowercase.
pub open spec fn confirms(name: Seq<char>, lowered: Seq<char>) -> bool {
    is_substring(lowered, str_lowercase(name))
}

/// The elements that pass the summary test for `classes`.
pub open spec fn summary_test(classes: Set<int>) -> spec_fn(Element) -> bool {
    |element: Element| prefilter_passes(element.name@, classes)
}

/// The elements that pass the summary test for `classes` and the substring
/// test for `lowered`.
pub open spec fn both_tests(classes: Set<int>, lowered: Seq<char>) -> spec_fn(Element) -> bool {
    |element: Element| prefilter_passes(element.name@, classes) && confirms(element.name@, lowered)
}

/// The elements whose name holds `q` without regard to case: the lowercase
/// form of `q` is a contiguous part of the lowercase form of the name.
pub open spec fn holds_query(q: Seq<char>) -> spec_fn(Element) -> bool {
    |element: Element| confirms(element.name@, str_lowercase(q))
}

/// The elements of `range` that pass the summary test, in order.
pub open spec fn passing(range: Seq<Element>, classes: Set<int>) -> Seq<Element> {
    range.filter(summary_test(classes))
}

/// The elements of `range` that pass both tests, in order.
pub open spec fn confirmed(range: Seq<Element>, classes: Set<int>, lowered: Seq<char>) -> Seq<
    Element,
> {
    range.filter(both_tests(classes, lowered))
}

/// The elements of `range` whose name holds `q` without regard to case, in
/// order.
pub open spec fn holders(range: Seq<Element>, q: Seq<char>) -> Seq<Element> {
    range.filter(holds_query(q))
}

/// The summary test never turns down an element that holds the query: with
/// the summary and the lowercase form of one query, the elements that pass
/// both tests are those that pass the substring test.
pub proof fn lemma_no_false_negative(q: Seq<char>)
    ensures
        both_tests(classes_of(q), str_lowercase(q)) == holds_query(q),
        forall|name: Seq<char>|
            #[trigger] confirms(name, str_lowercase(q)) ==> prefilter_passes(name, classes_of(q)),
{
    assert forall|name: Seq<char>| #[trigger]
        confirms(name, str_lowercase(q)) implies prefilter_passes(name, classes_of(q)) by {
        lemma_substring_passes(q, name);
    }
    assert(both_tests(classes_of(q), str_lowercase(q)) =~= holds_query(q));
}

} // verus!
