//! The fingerprint of a loaded store.
//!
//! It is a digest of the number of elements, of the id and name of the first
//! and of the last element, and of the id and name of the first ten. A client
//! that pages through results sends it back, and learns from a mismatch that
//! the store is another one.

use crate::models::Element;
use std::collections::hash_map::DefaultHasher;
use std::hash::Hash;
use std::hash::Hasher;
use vstd::prelude::*;
use vstd::std_specs::hash::DefaultHasherAdditionalSpecFns;

verus! {

/// How many elements from the front of the store enter the fingerprint.
pub const ETAG_SAMPLE_SIZE: usize = 10;

/// What `Hash::hash` of a `usize` writes to a hasher.
pub uninterp spec fn usize_writes(value: usize) -> Seq<Seq<u8>>;

/// What `Hash::hash` of a `u32` writes to a hasher.
pub uninterp spec fn u32_writes(value: u32) -> Seq<Seq<u8>>;

/// What `Hash::hash` of a `String` writes to a hasher.
pub uninterp spec fn str_writes(value: Seq<char>) -> Seq<Seq<u8>>;

/// Calls `Hash::hash` of `usize`. Trusted: the hasher receives, after what
/// it had, writes that depend on the value alone.
#[verifier::external_body]
fn hash_usize(value: usize, state: &mut DefaultHasher)
    ensures
        final(state)@ == old(state)@ + usize_writes(value),
{
    value.hash(state);
}

/// Calls `Hash::hash` of `u32`. Trusted: the hasher receives, after what it
/// had, writes that depend on the value alone.
#[verifier::external_body]
fn hash_u32(value: u32, state: &mut DefaultHasher)
    ensures
        final(state)@ == old(state)@ + u32_writes(value),
{
    value.hash(state);
}

/// Calls `Hash::hash` of `String`. Trusted: the hasher receives, after what
/// it had, writes that depend on the characters of the string alone.
#[verifier::external_body]
fn hash_string(value: &String, state: &mut DefaultHasher)
    ensures
        final(state)@ == old(state)@ + str_writes(value@),
{
    value.hash(state);
}

/// What an element contributes to the fingerprint: its id, then its name.
pub open spec fn element_writes(element: Element) -> Seq<Seq<u8>> {
    u32_writes(element.id) + str_writes(element.name@)
}

/// The contributions of the elements of `sample`, in order.
pub open spec fn sample_writes(sample: Seq<Element>) -> Seq<Seq<u8>>
    decreases sample.len(),
{
    if sample.len() == 0 {
        Seq::empty()
    } else {
        sample_writes(sample.drop_last()) + element_writes(sample.last())
    }
}

/// The elements from the front of `store` that enter the fingerprint: the
/// first ten, or all where there are fewer.
pub open spec fn etag_sample(store: Seq<Element>) -> Seq<Element> {
    if store.len() < ETAG_SAMPLE_SIZE {
        store
    } else {
        store.take(ETAG_SAMPLE_SIZE as int)
    }
}

/// Everything that is hashed for the fingerprint of `store`: the number of
/// elements; the first and the last element, unless the store is empty; the
/// sample.
pub open spec fn etag_writes(store: Seq<Element>) -> Seq<Seq<u8>> {
    let ends = if store.len() > 0 {
        element_writes(store.first()) + element_writes(store.last())
    } else {
        Seq::empty()
    };
    usize_writes(store.len() as usize) + ends + sample_writes(etag_sample(store))
}

/// The fingerprint of `store`: the low 32 bits of the digest of
/// `etag_writes`.
pub open spec fn etag_of(store: Seq<Element>) -> u32 {
    (DefaultHasher::spec_finish(etag_writes(store)) % 0x1_0000_0000) as u32
}

/// The low 32 bits of a digest.
pub fn etag_from_digest(digest: u64) -> (etag: u32)
    ensures
        etag == digest % 0x1_0000_0000,
{
    let etag = (digest & 0xffff_ffff) as u32;
    assert(digest & 0xffff_ffff == digest % 0x1_0000_0000) by (bit_vector);
    etag
}

/// Feeds the id and the name of `element` to the hasher.
fn hash_element(element: &Element, state: &mut DefaultHasher)
    ensures
        final(state)@ == old(state)@ + element_writes(*element),
{
    hash_u32(element.id, state);
    hash_string(&element.name, state);
    assert(state@ =~= old(state)@ + element_writes(*element));
}

/// The fingerprint of a store.
pub fn generate_etag(elements: &[Element]) -> (etag: u32)
    ensures
        etag == etag_of(elements@),
{
    let mut hasher = DefaultHasher::new();
    hash_usize(elements.len(), &mut hasher);
    if elements.len() > 0 {
        hash_element(&elements[0], &mut hasher);
        hash_element(&elements[elements.len() - 1], &mut hasher);
    }
    let ghost head = hasher@;
    let sample_size = if elements.len() < ETAG_SAMPLE_SIZE {
        elements.len()
    } else {
        ETAG_SAMPLE_SIZE
    };
    let mut i: usize = 0;
    while i < sample_size
        invariant
            i <= sample_size <= elements.len(),
            hasher@ == head + sample_writes(elements@.take(i as int)),
        decreases sample_size - i,
    {
        hash_element(&elements[i], &mut hasher);
        proof {
            assert(elements@.take(i + 1).drop_last() =~= elements@.take(i as int));
            assert(hasher@ =~= head + sample_writes(elements@.take(i + 1)));
        }
        i += 1;
    }
    proof {
        assert(elements@.take(sample_size as int) =~= etag_sample(elements@));
        assert(hasher@ =~= etag_writes(elements@));
    }
    etag_from_digest(hasher.finish())
}

} // verus!
