//! Drawing elements at random.
//!
//! The positions are drawn without replacement by a partial shuffle: the
//! positions not yet drawn are kept as the back part of a rearrangement of
//! all positions, each draw picks one place of that part, and the first place
//! of the part moves into the place that was picked. Only the places that a
//! draw has changed are stored. Every draw yields a position, so a sample of
//! `limit` positions takes `limit` draws. What the draws are is left to the
//! generator; how they become positions is a function of the draws.

use crate::models::{match_of, views_of, AppState, Element, ElementMatch, MatchView};
use crate::utils::etag_of;
use rand::rngs::ThreadRng;
use rand::Rng;
use std::collections::HashMap;
use vstd::prelude::*;

verus! {

/// The size of a sample where the query names none.
pub const DEFAULT_LIMIT: usize = 10;

/// The parameters of a sample: how many elements (10 if absent).
#[derive(Debug, Clone, Copy, PartialEq, Eq)]
pub struct RandomQuery {
    pub limit: Option<usize>,
}

/// A sample of the store, in the order in which it was drawn.
#[derive(Debug, Clone, PartialEq, Eq)]
pub struct RandomResponse {
    pub elements: Vec<ElementMatch>,
    pub etag: u32,
}

/// `rand::rngs::ThreadRng`, the handle to the generator of a thread. It is
/// only handed on to `random_index`.
#[verifier::external_type_specification]
#[verifier::external_body]
pub struct ExThreadRng(ThreadRng);

/// `rand::thread_rng`: a handle to the generator of the calling thread,
/// which the system seeds. Nothing is claimed of it.
pub assume_specification[ rand::thread_rng ]() -> (rng: ThreadRng)
;

/// Calls `Rng::gen_range` with the half-open range from `low` to `high`,
/// which must not be empty. Trusted: the result lies in the range. That it
/// is uniformly distributed is not stated.
#[verifier::external_body]
fn random_index(rng: &mut ThreadRng, low: usize, high: usize) -> (index: usize)
    requires
        low < high,
    ensures
        low <= index < high,
{
    rng.gen_range(low..high)
}

/// The position that stands at `place`: the one stored for it, and `place`
/// itself where none is stored.
pub open spec fn slot_value(slots: Map<usize, usize>, place: usize) -> usize {
    if slots.contains_key(place) {
        slots[place]
    } else {
        place
    }
}

/// Whether the places from `front` to `total` hold distinct positions below
/// `total`, none of which is in `drawn`.
pub open spec fn holds_undrawn(
    slots: Map<usize, usize>,
    front: usize,
    total: usize,
    drawn: Seq<usize>,
) -> bool {
    &&& forall|place: usize| front <= place < total ==> #[trigger] slot_value(slots, place) < total
    &&& forall|place: usize, other: usize|
        front <= place < total && front <= other < total && place != other ==> #[trigger] slot_value(
            slots,
            place,
        ) != #[trigger] slot_value(slots, other)
    &&& forall|place: usize, i: int|
        front <= place < total && 0 <= i < drawn.len() ==> #[trigger] slot_value(slots, place)
            != #[trigger] drawn[i]
}

/// Takes the position at the place `picked` and moves the position at the
/// place `front` into its place.
pub fn take_slot(slots: &mut HashMap<usize, usize>, front: usize, picked: usize) -> (position:
    usize)
    ensures
        position == slot_value(old(slots)@, picked),
        final(slots)@ == old(slots)@.insert(picked, slot_value(old(slots)@, front)),
{
    let front_position = match slots.get(&front) {
        Some(stored) => *stored,
        None => front,
    };
    let position = match slots.get(&picked) {
        Some(stored) => *stored,
        None => picked,
    };
    slots.insert(picked, front_position);
    position
}

/// The places that differ from their own position after the picks `picks`,
/// where the pick number `k`, counted from 0, names a place from `k` on.
pub open spec fn slots_after(picks: Seq<usize>) -> Map<usize, usize>
    decreases picks.len(),
{
    if picks.len() == 0 {
        Map::empty()
    } else {
        let before = slots_after(picks.drop_last());
        before.insert(picks.last(), slot_value(before, (picks.len() - 1) as usize))
    }
}

/// The positions that the picks `picks` draw, in the order of the picks:
/// each pick draws the position that stands at its place at that time.
pub open spec fn positions_after(picks: Seq<usize>) -> Seq<usize>
    decreases picks.len(),
{
    if picks.len() == 0 {
        Seq::empty()
    } else {
        positions_after(picks.drop_last()).push(
            slot_value(slots_after(picks.drop_last()), picks.last()),
        )
    }
}

/// Whether every pick names a place that is not behind it and lies in a
/// store of `total` elements.
pub open spec fn valid_picks(picks: Seq<usize>, total: usize) -> bool {
    forall|k: int| 0 <= k < picks.len() ==> k <= #[trigger] picks[k] < total
}

/// Whether `positions` are what the valid picks `picks` draw.
pub open spec fn drawn_by(positions: Seq<usize>, picks: Seq<usize>, total: usize) -> bool {
    valid_picks(picks, total) && positions == positions_after(picks)
}

/// Any position of the store can be drawn, and can be drawn first.
pub proof fn lemma_any_position_can_be_drawn(total: usize, position: usize)
    requires
        position < total,
    ensures
        drawn_by(seq![position], seq![position], total),
{
    let picks = seq![position];
    assert(picks.drop_last() =~= Seq::<usize>::empty());
    assert(slots_after(picks.drop_last()) =~= Map::<usize, usize>::empty());
    assert(positions_after(picks.drop_last()) =~= Seq::<usize>::empty());
    assert(positions_after(picks) =~= seq![position]);
}

/// Turns picks into positions: one position for each pick, in their order.
/// Where every pick names a place from its own number on and below `total`,
/// the positions are distinct positions of a store of `total` elements.
pub fn positions_of_picks(picks: &Vec<usize>, total: usize) -> (positions: Vec<usize>)
    ensures
        positions@ == positions_after(picks@),
        positions@.len() == picks@.len(),
        valid_picks(picks@, total) ==> positions@.no_duplicates(),
        valid_picks(picks@, total) ==> forall|i: int|
            0 <= i < positions@.len() ==> positions@[i] < total,
{
    let mut slots: HashMap<usize, usize> = HashMap::new();
    let mut positions: Vec<usize> = Vec::new();
    let mut front: usize = 0;
    proof {
        assert(picks@.take(0) =~= Seq::<usize>::empty());
    }
    while front < picks.len()
        invariant
            front <= picks@.len(),
            positions@.len() == front,
            slots@ == slots_after(picks@.take(front as int)),
            positions@ == positions_after(picks@.take(front as int)),
            valid_picks(picks@, total) ==> {
                &&& front <= total
                &&& positions@.no_duplicates()
                &&& forall|i: int| 0 <= i < positions@.len() ==> positions@[i] < total
                &&& holds_undrawn(slots@, front, total, positions@)
            },
        decreases picks@.len() - front,
    {
        let ghost before = slots@;
        let ghost drawn = positions@;
        let picked = picks[front];
        let position = take_slot(&mut slots, front, picked);
        positions.push(position);
        proof {
            assert(picks@.take(front + 1).drop_last() =~= picks@.take(front as int));
            assert(picks@.take(front + 1).last() == picked);
            if valid_picks(picks@, total) {
                assert(front <= picks@[front as int] < total);
                assert(position == slot_value(before, picked));
                assert forall|place: usize| front + 1 <= place < total implies slot_value(
                    slots@,
                    place,
                ) == (if place == picked {
                    slot_value(before, front)
                } else {
                    slot_value(before, place)
                }) by {}
                assert forall|i: int, j: int|
                    0 <= i < j < positions@.len() implies positions@[i] != positions@[j] by {
                    if j == drawn.len() {
                        assert(positions@[i] == drawn[i]);
                    } else {
                        assert(drawn[i] != drawn[j]);
                    }
                }
                assert forall|place: usize, i: int|
                    front + 1 <= place < total && 0 <= i < positions@.len() implies slot_value(
                    slots@,
                    place,
                ) != positions@[i] by {
                    if i < drawn.len() {
                        assert(positions@[i] == drawn[i]);
                    }
                }
            }
        }
        front += 1;
    }
    proof {
        assert(picks@.take(picks@.len() as int) =~= picks@);
    }
    positions
}

/// Draws `limit` distinct positions of a store of `total` elements, or all
/// of them where `limit` is larger. Pick number `k` is drawn at random among
/// the places from `k` to the end, and the picks are turned into positions.
pub fn sample_positions(total: usize, limit: usize) -> (positions: Vec<usize>)
    ensures
        positions@.len() == if limit < total {
            limit
        } else {
            total
        },
        positions@.no_duplicates(),
        forall|i: int| 0 <= i < positions@.len() ==> positions@[i] < total,
        exists|picks: Seq<usize>| drawn_by(positions@, picks, total),
{
    let actual_limit = if limit < total {
        limit
    } else {
        total
    };
    let mut rng = rand::thread_rng();
    let mut picks: Vec<usize> = Vec::new();
    let mut front: usize = 0;
    while front < actual_limit
        invariant
            front <= actual_limit <= total,
            picks@.len() == front,
            valid_picks(picks@, total),
        decreases actual_limit - front,
    {
        let picked = random_index(&mut rng, front, total);
        picks.push(picked);
        front += 1;
    }
    let positions = positions_of_picks(&picks, total);
    proof {
        assert(drawn_by(positions@, picks@, total));
    }
    positions
}

/// Whether `entries` show the elements of `store` at `positions`, one by
/// one, and no position occurs twice.
pub open spec fn is_sample(store: Seq<Element>, entries: Seq<MatchView>, positions: Seq<usize>) -> bool {
    &&& positions.len() == entries.len()
    &&& positions.no_duplicates()
    &&& forall|i: int|
        0 <= i < positions.len() ==> positions[i] < store.len() && #[trigger] entries[i]
            == match_of(store[positions[i] as int])
}

/// Draws a sample of the whole store: `limit` elements at distinct
/// positions, or every element where the store has no more than `limit`.
/// Neither the summaries nor the length index take part.
pub fn get_random_elements(query: &RandomQuery, data: &AppState) -> (response: RandomResponse)
    ensures
        response.elements@.len() == if query.limit.unwrap_or(DEFAULT_LIMIT) < data@.len() {
            query.limit.unwrap_or(DEFAULT_LIMIT) as nat
        } else {
            data@.len()
        },
        exists|positions: Seq<usize>| is_sample(data@, views_of(response.elements@), positions),
        response.etag == etag_of(data@),
{
    let limit = query.limit.unwrap_or(DEFAULT_LIMIT);
    let store = data.elements();
    let positions = sample_positions(store.len(), limit);
    let mut elements: Vec<ElementMatch> = Vec::new();
    let mut i: usize = 0;
    while i < positions.len()
        invariant
            i <= positions@.len(),
            store@ == data@,
            forall|j: int| 0 <= j < positions@.len() ==> positions@[j] < store@.len(),
            elements@.len() == i,
            forall|j: int|
                0 <= j < i ==> (#[trigger] elements@[j])@ == match_of(store@[positions@[j] as int]),
        decreases positions@.len() - i,
    {
        elements.push(ElementMatch::of(&store[positions[i]]));
        i += 1;
    }
    proof {
        assert(is_sample(data@, views_of(elements@), positions@));
    }
    RandomResponse { elements, etag: data.etag() }
}

} // verus!
