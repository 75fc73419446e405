use element_search::api::count::{count_matches, count_passing, length_start_index, SearchQuery};
use element_search::api::paginated::{
    name_holds, paginated_search, scan_page, EtagMismatch, PaginatedSearchQuery,
    PaginatedSearchResponse,
};
use element_search::bloomfilter::BloomFilter;
use element_search::api::random::{
    get_random_elements, positions_of_picks, sample_positions, take_slot, RandomQuery,
};
use element_search::api::stats::get_stats;
use element_search::api::troublemakers::get_troublemakers;
use element_search::models::{AppState, Element, ElementMatch};
use std::collections::{HashMap, HashSet};

fn search_element(id: u32, name: &str, emoji: &str) -> Element {
    Element { id, name: name.to_string(), emoji: emoji.to_string() }
}

fn entry(name: &str, emoji: &str) -> ElementMatch {
    ElementMatch { name: name.to_string(), emoji: emoji.to_string() }
}

fn animal_state() -> AppState {
    AppState::new(vec![
        search_element(1, "Cat", "🐱"),
        search_element(2, "Dog", "🐶"),
        search_element(3, "Caterpillar", "🐛"),
    ])
}

fn numbered_state(count: u32) -> AppState {
    AppState::new((0..count).map(|id| search_element(id, &format!("item{:03}", id), "")).collect())
}

fn every_class_name() -> String {
    (0u32..64).map(|code| char::from_u32(code).unwrap()).collect()
}

fn count_query(q: &str) -> SearchQuery {
    SearchQuery { q: q.to_string() }
}

fn page_query(
    q: &str,
    start: Option<usize>,
    limit: Option<usize>,
    etag: Option<u32>,
) -> PaginatedSearchQuery {
    PaginatedSearchQuery { q: q.to_string(), start, limit, etag }
}

fn page(state: &AppState, q: &str, start: Option<usize>, limit: Option<usize>) -> PaginatedSearchResponse {
    paginated_search(&page_query(q, start, limit, None), state).unwrap()
}

fn names(entries: &[ElementMatch]) -> Vec<String> {
    entries.iter().map(|entry| entry.name.clone()).collect()
}

#[test]
fn count_cat_among_the_animals() {
    let state = animal_state();
    let response = count_matches(&count_query("cat"), &state);
    assert_eq!(response.matches, 2);
    assert_eq!(response.total, 3);
    assert_eq!(response.scanned, 3);
    assert_eq!(response.etag, state.etag());
    let percentage = response.matches as f64 / response.scanned as f64 * 100.0;
    assert!((percentage - 66.67).abs() < 0.01);
}

#[test]
fn count_scans_only_names_that_are_long_enough() {
    let state = animal_state();
    let response = count_matches(&count_query("cate"), &state);
    assert_eq!(response.matches, 1);
    assert_eq!(response.total, 3);
    assert_eq!(response.scanned, 1);
}

#[test]
fn count_is_an_estimate_without_substring_test() {
    let state = animal_state();
    let response = count_matches(&count_query("tac"), &state);
    assert_eq!(response.matches, 2);
    let response = count_matches(&count_query("ttt"), &state);
    assert_eq!(response.matches, 2);
}

#[test]
fn count_of_the_empty_query_is_everything() {
    let state = animal_state();
    let response = count_matches(&count_query(""), &state);
    assert_eq!(response.matches, 3);
    assert_eq!(response.scanned, 3);
}

#[test]
fn count_of_a_query_longer_than_every_name_scans_from_the_start() {
    let state = animal_state();
    let response = count_matches(&count_query("catcatcatcatcat"), &state);
    assert_eq!(response.scanned, 3);
    assert_eq!(response.matches, 2);
}

#[test]
fn count_on_an_empty_store_is_zero() {
    let state = AppState::new(Vec::new());
    let response = count_matches(&count_query("cat"), &state);
    assert_eq!(response.matches, 0);
    assert_eq!(response.total, 0);
    assert_eq!(response.scanned, 0);
}

#[test]
fn length_start_index_looks_up_the_byte_length() {
    let state = animal_state();
    assert_eq!(length_start_index("", &state), 0);
    assert_eq!(length_start_index("abc", &state), 0);
    assert_eq!(length_start_index("abcd", &state), 2);
    assert_eq!(length_start_index("abcdefghijk", &state), 2);
    assert_eq!(length_start_index("abcdefghijkl", &state), 0);
    assert_eq!(length_start_index("é🐱", &state), 2);
}

#[test]
fn page_of_cat_among_the_animals() {
    let state = animal_state();
    let response = page(&state, "cat", None, Some(10));
    assert_eq!(response.matches, vec![entry("Cat", "🐱"), entry("Caterpillar", "🐛")]);
    assert_eq!(response.bloom_hits, 2);
    assert_eq!(response.next_index, 3);
    assert_eq!(response.etag, state.etag());
}

#[test]
fn page_search_ignores_case() {
    let state = animal_state();
    assert_eq!(names(&page(&state, "CAT", None, None).matches), vec!["Cat", "Caterpillar"]);
    assert_eq!(names(&page(&state, "PILLAR", None, None).matches), vec!["Caterpillar"]);
}

#[test]
fn page_counts_summary_passes_that_are_no_results() {
    let state = animal_state();
    let response = page(&state, "tac", None, None);
    assert_eq!(response.matches, Vec::new());
    assert_eq!(response.bloom_hits, 2);
    assert_eq!(response.next_index, 3);
}

#[test]
fn page_without_results_is_no_error() {
    let state = animal_state();
    let response = page(&state, "zebra", None, None);
    assert_eq!(response.matches, Vec::new());
    assert_eq!(response.bloom_hits, 0);
    assert_eq!(response.next_index, 3);
}

#[test]
fn page_stops_behind_the_last_result_it_may_hold() {
    let state = animal_state();
    let response = page(&state, "cat", None, Some(1));
    assert_eq!(names(&response.matches), vec!["Cat"]);
    assert_eq!(response.bloom_hits, 1);
    assert_eq!(response.next_index, 1);
}

#[test]
fn page_with_limit_zero_ends_where_it_starts() {
    let state = animal_state();
    let response = page(&state, "cat", Some(1), Some(0));
    assert_eq!(response.matches, Vec::new());
    assert_eq!(response.bloom_hits, 0);
    assert_eq!(response.next_index, 1);
}

#[test]
fn page_starts_no_earlier_than_the_length_index_allows() {
    let state = animal_state();
    let response = page(&state, "cate", Some(0), None);
    assert_eq!(names(&response.matches), vec!["Caterpillar"]);
    assert_eq!(response.bloom_hits, 1);
    assert_eq!(response.next_index, 3);
}

#[test]
fn page_that_starts_behind_the_end_is_empty() {
    let state = animal_state();
    let response = page(&state, "cat", Some(50), None);
    assert_eq!(response.matches, Vec::new());
    assert_eq!(response.bloom_hits, 0);
    assert_eq!(response.next_index, 3);
    let response = page(&state, "cat", Some(usize::MAX), Some(usize::MAX));
    assert_eq!(response.next_index, 3);
}

#[test]
fn page_limit_defaults_to_ten() {
    let state = numbered_state(25);
    let response = page(&state, "item", None, None);
    assert_eq!(response.matches.len(), 10);
    assert_eq!(response.next_index, 10);
    assert_eq!(response.bloom_hits, 10);
}

#[test]
fn page_on_an_empty_store_is_empty() {
    let state = AppState::new(Vec::new());
    let response = page(&state, "cat", None, None);
    assert_eq!(response.matches, Vec::new());
    assert_eq!(response.next_index, 0);
}

#[test]
fn pages_continue_one_another() {
    let state = numbered_state(37);
    let whole = page(&state, "item0", None, Some(1000));
    let mut collected: Vec<ElementMatch> = Vec::new();
    let mut hits: u64 = 0;
    let mut start: usize = 0;
    let mut rounds: usize = 0;
    loop {
        let response = page(&state, "item0", Some(start), Some(4));
        assert!(response.next_index >= start);
        hits += response.bloom_hits;
        collected.extend(response.matches.iter().cloned());
        start = response.next_index;
        rounds += 1;
        if response.next_index == 37 {
            break;
        }
        assert_eq!(response.matches.len(), 4);
    }
    assert_eq!(collected, whole.matches);
    assert_eq!(hits, whole.bloom_hits);
    assert_eq!(whole.next_index, 37);
    assert_eq!(collected.len(), 37);
    assert_eq!(rounds, 10);
}

#[test]
fn two_pages_are_one_page_of_double_size() {
    let state = numbered_state(30);
    let first = page(&state, "1", Some(2), Some(3));
    let second = page(&state, "1", Some(first.next_index), Some(5));
    let both = page(&state, "1", Some(2), Some(8));
    let mut joined = first.matches.clone();
    joined.extend(second.matches.iter().cloned());
    assert_eq!(joined, both.matches);
    assert_eq!(first.bloom_hits + second.bloom_hits, both.bloom_hits);
    assert_eq!(second.next_index, both.next_index);
    assert_eq!(names(&first.matches), vec!["item010", "item011", "item012"]);
    assert_eq!(first.next_index, 13);
    assert_eq!(both.matches.len(), 8);
    assert_eq!(both.next_index, 18);
}

#[test]
fn page_with_the_current_fingerprint_is_served() {
    let state = animal_state();
    let response =
        paginated_search(&page_query("cat", None, None, Some(state.etag())), &state).unwrap();
    assert_eq!(names(&response.matches), vec!["Cat", "Caterpillar"]);
}

#[test]
fn page_with_another_fingerprint_is_a_mismatch() {
    let state = animal_state();
    let stale = state.etag().wrapping_add(1);
    let result = paginated_search(&page_query("cat", Some(1), Some(5), Some(stale)), &state);
    assert_eq!(result, Err(EtagMismatch { current_etag: state.etag() }));
}

#[test]
fn fingerprint_is_the_same_in_every_answer() {
    let state = animal_state();
    let etag = get_stats(&state).etag;
    assert_eq!(get_stats(&state).etag, etag);
    assert_eq!(count_matches(&count_query("cat"), &state).etag, etag);
    assert_eq!(count_matches(&count_query("dog"), &state).etag, etag);
    assert_eq!(page(&state, "cat", None, None).etag, etag);
    assert_eq!(get_troublemakers(&state).etag, etag);
    assert_eq!(get_random_elements(&RandomQuery { limit: None }, &state).etag, etag);
    assert_eq!(state.etag(), etag);
}

#[test]
fn stats_of_the_animals() {
    let state = animal_state();
    let stats = get_stats(&state);
    assert_eq!(stats.elements_count, 3);
    assert_eq!(stats.bloom_filters_count, 3);
    assert_eq!(stats.bit_width, 64);
    assert_eq!(stats.length_index_map_size, 11);
    assert_eq!(stats.min_element_length, 1);
    assert_eq!(stats.max_element_length, 11);
    assert_eq!(stats.etag, state.etag());
    let index = state.length_index_map();
    assert_eq!(index.keys().next().copied().unwrap_or(0), stats.min_element_length);
    assert_eq!(index.keys().next_back().copied().unwrap_or(0), stats.max_element_length);
}

#[test]
fn stats_of_an_empty_store_are_zero() {
    let stats = get_stats(&AppState::new(Vec::new()));
    assert_eq!(stats.elements_count, 0);
    assert_eq!(stats.bloom_filters_count, 0);
    assert_eq!(stats.bit_width, 64);
    assert_eq!(stats.length_index_map_size, 0);
    assert_eq!(stats.min_element_length, 0);
    assert_eq!(stats.max_element_length, 0);
}

#[test]
fn stats_of_a_store_of_empty_names() {
    let stats = get_stats(&AppState::new(vec![search_element(1, "", "x")]));
    assert_eq!(stats.elements_count, 1);
    assert_eq!(stats.length_index_map_size, 0);
    assert_eq!(stats.min_element_length, 0);
    assert_eq!(stats.max_element_length, 0);
}

#[test]
fn cat_is_no_troublemaker() {
    let response = get_troublemakers(&animal_state());
    assert_eq!(response.troublemakers, Vec::new());
    assert_eq!(response.count, 0);
    assert_eq!(response.total, 3);
}

#[test]
fn name_with_every_class_is_a_troublemaker() {
    let all = every_class_name();
    let state = AppState::new(vec![
        search_element(1, "Cat", "🐱"),
        search_element(2, &all, "💥"),
        search_element(3, "Dog", "🐶"),
        search_element(4, &format!("{}!", all), "🔥"),
    ]);
    let response = get_troublemakers(&state);
    assert_eq!(response.troublemakers, vec![entry(&all, "💥"), entry(&format!("{}!", all), "🔥")]);
    assert_eq!(response.count, 2);
    assert_eq!(response.total, 4);
    assert_eq!(response.etag, state.etag());
    assert_eq!(count_matches(&count_query("zzzz"), &state).matches, 2);
}

#[test]
fn troublemakers_of_an_empty_store() {
    let response = get_troublemakers(&AppState::new(Vec::new()));
    assert_eq!(response.count, 0);
    assert_eq!(response.total, 0);
}

#[test]
fn take_slot_moves_the_front_into_the_picked_place() {
    let mut slots: HashMap<usize, usize> = HashMap::new();
    assert_eq!(take_slot(&mut slots, 0, 3), 3);
    assert_eq!(slots.get(&3), Some(&0));
    assert_eq!(take_slot(&mut slots, 1, 3), 0);
    assert_eq!(slots.get(&3), Some(&1));
    assert_eq!(take_slot(&mut slots, 2, 2), 2);
    assert_eq!(slots.get(&2), Some(&2));
    assert_eq!(slots.len(), 2);
}

#[test]
fn sample_positions_are_distinct_and_in_range() {
    for total in 0usize..12 {
        for limit in 0usize..15 {
            let positions = sample_positions(total, limit);
            assert_eq!(positions.len(), limit.min(total));
            let distinct: HashSet<usize> = positions.iter().copied().collect();
            assert_eq!(distinct.len(), positions.len());
            assert!(positions.iter().all(|position| *position < total));
        }
    }
}

#[test]
fn sample_of_everything_is_a_rearrangement() {
    let mut positions = sample_positions(50, 50);
    positions.sort();
    assert_eq!(positions, (0usize..50).collect::<Vec<usize>>());
}

#[test]
fn sample_reaches_every_position() {
    let mut seen: HashSet<usize> = HashSet::new();
    for _ in 0..400 {
        seen.extend(sample_positions(8, 2));
    }
    assert_eq!(seen.len(), 8);
}

#[test]
fn random_elements_are_distinct_elements_of_the_store() {
    let state = numbered_state(40);
    let response = get_random_elements(&RandomQuery { limit: Some(15) }, &state);
    assert_eq!(response.elements.len(), 15);
    assert_eq!(response.etag, state.etag());
    let distinct: HashSet<String> = response.elements.iter().map(|e| e.name.clone()).collect();
    assert_eq!(distinct.len(), 15);
    for element in &response.elements {
        assert!(state.elements().iter().any(|e| e.name == element.name && e.emoji == element.emoji));
    }
}

#[test]
fn random_limit_defaults_to_ten_and_is_capped() {
    let state = numbered_state(40);
    assert_eq!(get_random_elements(&RandomQuery { limit: None }, &state).elements.len(), 10);
    let all = get_random_elements(&RandomQuery { limit: Some(1000) }, &state);
    assert_eq!(all.elements.len(), 40);
    let distinct: HashSet<String> = all.elements.iter().map(|e| e.name.clone()).collect();
    assert_eq!(distinct.len(), 40);
    assert_eq!(get_random_elements(&RandomQuery { limit: Some(0) }, &state).elements.len(), 0);
}

#[test]
fn random_elements_of_an_empty_store() {
    let state = AppState::new(Vec::new());
    assert_eq!(get_random_elements(&RandomQuery { limit: None }, &state).elements, Vec::new());
}

#[test]
fn page_search_of_names_that_are_not_ascii() {
    let state = AppState::new(vec![
        search_element(1, "Café", "☕"),
        search_element(2, "Crème brûlée", "🍮"),
        search_element(3, "Tea", "🍵"),
        search_element(4, "🐱 cat", "🐱"),
    ]);
    assert_eq!(names(&page(&state, "É", None, None).matches), vec!["Café", "Crème brûlée"]);
    assert_eq!(names(&page(&state, "brû", None, None).matches), vec!["Crème brûlée"]);
    assert_eq!(names(&page(&state, "🐱", None, None).matches), vec!["🐱 cat"]);
    assert_eq!(names(&page(&state, "🐱 C", None, None).matches), vec!["🐱 cat"]);
    assert_eq!(page(&state, "éf", None, None).matches, Vec::new());
}

#[test]
fn count_passing_counts_from_a_position() {
    let state = animal_state();
    let cat = BloomFilter::from_string("cat");
    assert_eq!(count_passing(&state, &cat, 0), 2);
    assert_eq!(count_passing(&state, &cat, 1), 1);
    assert_eq!(count_passing(&state, &cat, 2), 1);
    assert_eq!(count_passing(&state, &cat, 3), 0);
    assert_eq!(count_passing(&state, &cat, 100), 0);
    assert_eq!(count_passing(&state, &BloomFilter::new(), 0), 3);
}

#[test]
fn name_holds_wants_the_query_in_lowercase() {
    let caterpillar = search_element(3, "CaterPillar", "🐛");
    assert!(name_holds(&caterpillar, "pill"));
    assert!(name_holds(&caterpillar, "caterpillar"));
    assert!(name_holds(&caterpillar, ""));
    assert!(!name_holds(&caterpillar, "Pill"));
    assert!(!name_holds(&caterpillar, "pillow"));
}

#[test]
fn scan_page_applies_both_tests() {
    let state = animal_state();
    let cat = BloomFilter::from_string("cat");
    let (matches, bloom_hits, next_index) = scan_page(&state, &cat, "cat", 0, 10);
    assert_eq!(names(&matches), vec!["Cat", "Caterpillar"]);
    assert_eq!(bloom_hits, 2);
    assert_eq!(next_index, 3);
    let (matches, bloom_hits, next_index) = scan_page(&state, &cat, "dog", 0, 10);
    assert_eq!(matches, Vec::new());
    assert_eq!(bloom_hits, 2);
    assert_eq!(next_index, 3);
    let (matches, bloom_hits, next_index) = scan_page(&state, &BloomFilter::new(), "o", 0, 10);
    assert_eq!(names(&matches), vec!["Dog"]);
    assert_eq!(bloom_hits, 3);
    assert_eq!(next_index, 3);
}

#[test]
fn scan_page_stops_at_the_limit_or_the_end() {
    let state = animal_state();
    let none = BloomFilter::new();
    assert_eq!(scan_page(&state, &none, "", 0, 2).2, 2);
    assert_eq!(scan_page(&state, &none, "", 1, 1).2, 2);
    assert_eq!(scan_page(&state, &none, "", 1, 0).2, 1);
    assert_eq!(scan_page(&state, &none, "", 3, 5).2, 3);
    assert_eq!(scan_page(&state, &none, "", 7, 5).2, 3);
    assert_eq!(scan_page(&state, &none, "", 7, 0).2, 3);
    assert_eq!(names(&scan_page(&state, &none, "", 1, 5).0), vec!["Dog", "Caterpillar"]);
}

#[test]
fn page_finds_a_name_whose_lowercase_form_is_longer() {
    // The lowercase form of U+0130 is 'i' followed by U+0307.
    let state = AppState::new(vec![search_element(1, "\u{130}", "🇹🇷")]);
    let response = page(&state, "i\u{307}", None, None);
    assert_eq!(names(&response.matches), vec!["\u{130}"]);
    assert_eq!(response.bloom_hits, 1);
    assert_eq!(response.next_index, 1);
    assert_eq!(names(&page(&state, "\u{307}", None, None).matches), vec!["\u{130}"]);
    assert_eq!(count_matches(&count_query("i\u{307}"), &state).matches, 1);
}

#[test]
fn summary_test_turns_down_no_name_that_holds_the_query() {
    let names_in_store = ["\u{130}stanbul", "ΑΣ ΣΑ", "Straße", "ǅungla", "Cat", "ÀÉÎ", "🐱 cat"];
    let state = AppState::new(
        names_in_store.iter().map(|name| search_element(0, name, "")).collect(),
    );
    for name in names_in_store {
        let lowered: Vec<char> = name.to_lowercase().chars().collect();
        for from in 0..lowered.len() {
            for to in from..=lowered.len() {
                let part: String = lowered[from..to].iter().collect();
                let query = BloomFilter::from_string(&part);
                let (matches, _, _) = scan_page(&state, &BloomFilter::new(), &part.to_lowercase(), 0, 100);
                let (filtered, _, _) = scan_page(&state, &query, &part.to_lowercase(), 0, 100);
                assert_eq!(filtered, matches, "{:?} in {:?}", part, name);
            }
        }
    }
}

#[test]
fn picks_become_positions() {
    assert_eq!(positions_of_picks(&Vec::new(), 5), Vec::new());
    assert_eq!(positions_of_picks(&vec![0, 1, 2], 5), vec![0, 1, 2]);
    assert_eq!(positions_of_picks(&vec![3, 3, 2], 5), vec![3, 0, 2]);
    assert_eq!(positions_of_picks(&vec![4, 4, 4, 4, 4], 5), vec![4, 0, 1, 2, 3]);
    assert_eq!(positions_of_picks(&vec![2], 3), vec![2]);
}

#[test]
fn valid_picks_give_distinct_positions() {
    let total: usize = 4;
    for first in 0..total {
        for second in 1..total {
            for third in 2..total {
                let positions = positions_of_picks(&vec![first, second, third], total);
                let distinct: HashSet<usize> = positions.iter().copied().collect();
                assert_eq!(distinct.len(), 3);
                assert!(positions.iter().all(|position| *position < total));
                assert_eq!(positions[0], first);
            }
        }
    }
}
