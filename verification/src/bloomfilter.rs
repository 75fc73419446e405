//! The membership summary: a 64-bit set of character classes.
//!
//! A summary holds one bit per class of characters that occurs in the
//! lowercase form of a string.
//! It is no multi-hash filter: a string whose classes all occur in another
//! always passes against it, while two characters of one class cannot be told
//! apart.

use crate::bits::{
    has_bit, lemma_and_bit, lemma_full_has_every_bit, lemma_same_bits, lemma_set_bit,
    lemma_zero_has_no_bit,
};
use crate::text::{is_substring, occurs_at, str_lowercase};
use vstd::prelude::*;
use vstd::set_lib::{lemma_int_range, set_int_range};

verus! {

/// The number of bits in a summary, and of character classes.
pub const BIT_WIDTH: u32 = 64;

/// The class of a character: its code point modulo 64.
pub open spec fn char_class(c: char) -> int {
    (c as int) % 64
}

/// Whether `b` is the class of some character of `text`.
pub open spec fn class_occurs(text: Seq<char>, b: int) -> bool {
    exists|k: int| 0 <= k < text.len() && #[trigger] char_class(text[k]) == b
}

/// The classes of the characters of `text`, as they stand.
pub open spec fn text_classes(text: Seq<char>) -> Set<int> {
    Set::new(|b: int| class_occurs(text, b))
}

/// The classes of a string: those of the characters of its lowercase form.
pub open spec fn classes_of(s: Seq<char>) -> Set<int> {
    text_classes(str_lowercase(s))
}

/// All 64 classes.
pub open spec fn all_classes() -> Set<int> {
    Set::new(|b: int| 0 <= b < 64)
}

/// A summary of the characters of a string. Its view is the set of the
/// classes whose bit is set.
#[derive(Debug, Clone, Copy)]
pub struct BloomFilter {
    bits: u64,
}

impl View for BloomFilter {
    type V = Set<int>;

    closed spec fn view(&self) -> Set<int> {
        Set::new(|b: int| has_bit(self.bits, b))
    }
}

impl BloomFilter {
    /// The summary of the empty string.
    pub fn new() -> (filter: Self)
        ensures
            filter@ == Set::<int>::empty(),
    {
        let filter = Self { bits: 0 };
        proof {
            assert forall|b: int| !filter@.contains(b) by {
                lemma_zero_has_no_bit(b);
            }
            assert(filter@ =~= Set::<int>::empty());
        }
        filter
    }

    /// Adds the class `class` by setting its bit.
    pub fn add_class(&mut self, class: u32)
        requires
            class < BIT_WIDTH,
        ensures
            final(self)@ == old(self)@.insert(class as int),
    {
        let before = self.bits;
        self.bits = before | (1u64 << (class as u64));
        proof {
            assert forall|b: int|
                has_bit(self.bits, b) <==> (has_bit(before, b) || b == class) by {
                lemma_set_bit(before, class as u64, b);
            }
            assert forall|b: int|
                self@.contains(b) <==> old(self)@.insert(class as int).contains(b) by {
                assert(old(self)@.contains(b) == has_bit(before, b));
            }
            assert(self@ =~= old(self)@.insert(class as int));
        }
    }

    /// The class of `c`, which is the position of its bit.
    pub fn hash_char(c: char) -> (hash: u32)
        ensures
            hash == char_class(c),
            hash < BIT_WIDTH,
    {
        (c as u32) % BIT_WIDTH
    }

    /// Adds the classes of the characters of `lowered`, as they stand. The
    /// text is meant to be in lowercase already.
    pub fn add_lowercase(&mut self, lowered: &str)
        ensures
            final(self)@ == old(self)@.union(text_classes(lowered@)),
    {
        proof {
            assert(text_classes(lowered@.take(0)) =~= Set::<int>::empty());
            assert(self@ =~= old(self)@.union(text_classes(lowered@.take(0))));
        }
        for c in iter: lowered.chars()
            invariant
                iter.seq() == lowered@,
                self@ == old(self)@.union(text_classes(lowered@.take(iter.index()))),
        {
            let ghost seen = lowered@.take(iter.index());
            self.add_class(Self::hash_char(c));
            proof {
                lemma_classes_push(seen, c);
                assert(lowered@.take(iter.index() + 1) =~= seen.push(c));
                assert(self@ =~= old(self)@.union(text_classes(seen.push(c))));
            }
        }
        proof {
            assert(lowered@.take(lowered@.len() as int) =~= lowered@);
        }
    }

    /// Adds the classes of `c`: those of the lowercase form of the text
    /// that holds `c` alone.
    pub fn add_char(&mut self, c: char)
        ensures
            final(self)@ == old(self)@.union(classes_of(seq![c])),
    {
        let mut text = String::new();
        text.push(c);
        proof {
            assert(text@ =~= seq![c]);
        }
        let lowered = text.to_lowercase();
        self.add_lowercase(lowered.as_str());
    }

    /// The summary of `s`: one bit for each class that occurs in the
    /// lowercase form of `s`.
    pub fn from_string(s: &str) -> (filter: Self)
        ensures
            filter@ == classes_of(s@),
    {
        let mut filter = Self::new();
        let lowered = s.to_lowercase();
        filter.add_lowercase(lowered.as_str());
        proof {
            assert(filter@ =~= classes_of(s@));
        }
        filter
    }

    /// Whether every class of `other` is a class of `self`.
    pub fn contains(&self, other: &Self) -> (passes: bool)
        ensures
            passes == other@.subset_of(self@),
    {
        let passes = (self.bits & other.bits) == other.bits;
        proof {
            assert forall|b: int|
                has_bit(self.bits & other.bits, b) <==> (has_bit(self.bits, b) && has_bit(
                    other.bits,
                    b,
                )) by {
                lemma_and_bit(self.bits, other.bits, b);
            }
            if other@.subset_of(self@) {
                assert forall|b: int| 0 <= b < 64 implies (has_bit(self.bits & other.bits, b)
                    <==> has_bit(other.bits, b)) by {
                    assert(other@.contains(b) ==> self@.contains(b));
                }
                lemma_same_bits(self.bits & other.bits, other.bits);
            }
        }
        passes
    }

    /// Whether all 64 classes are present.
    pub fn is_all_ones(&self) -> (saturated: bool)
        ensures
            saturated == (self@ == all_classes()),
    {
        let saturated = self.bits == u64::MAX;
        proof {
            if saturated {
                assert forall|b: int| 0 <= b < 64 implies has_bit(self.bits, b) by {
                    lemma_full_has_every_bit(b);
                }
                assert(self@ =~= all_classes());
            }
            if self@ == all_classes() {
                assert forall|b: int| 0 <= b < 64 implies (has_bit(self.bits, b) <==> has_bit(
                    u64::MAX,
                    b,
                )) by {
                    lemma_full_has_every_bit(b);
                    assert(all_classes().contains(b));
                }
                lemma_same_bits(self.bits, u64::MAX);
            }
        }
        saturated
    }
}

/// One more character adds its class and nothing else.
pub proof fn lemma_classes_push(text: Seq<char>, c: char)
    ensures
        text_classes(text.push(c)) == text_classes(text).insert(char_class(c)),
{
    let longer = text.push(c);
    assert forall|b: int| text_classes(longer).contains(b) implies text_classes(text).insert(
        char_class(c),
    ).contains(b) by {
        let k = choose|k: int| 0 <= k < longer.len() && #[trigger] char_class(longer[k]) == b;
        if k < text.len() {
            assert(char_class(text[k]) == b);
        }
    }
    assert forall|b: int| text_classes(text).insert(char_class(c)).contains(b) implies text_classes(
        longer,
    ).contains(b) by {
        if text_classes(text).contains(b) {
            let k = choose|k: int| 0 <= k < text.len() && #[trigger] char_class(text[k]) == b;
            assert(char_class(longer[k]) == b);
        } else {
            assert(char_class(longer[text.len() as int]) == b);
        }
    }
    assert(text_classes(longer) =~= text_classes(text).insert(char_class(c)));
}

/// A text has at most as many classes as characters.
pub proof fn lemma_classes_count(text: Seq<char>)
    ensures
        text_classes(text).finite(),
        text_classes(text).len() <= text.len(),
    decreases text.len(),
{
    if text.len() == 0 {
        assert(text_classes(text) =~= Set::<int>::empty());
    } else {
        let shorter = text.drop_last();
        lemma_classes_count(shorter);
        lemma_classes_push(shorter, text.last());
        assert(shorter.push(text.last()) =~= text);
    }
}

/// Every class of a contiguous part of a text is a class of the text.
pub proof fn lemma_part_classes(part: Seq<char>, text: Seq<char>)
    requires
        is_substring(part, text),
    ensures
        text_classes(part).subset_of(text_classes(text)),
{
    let at = choose|at: int| occurs_at(part, text, at);
    assert forall|b: int| text_classes(part).contains(b) implies text_classes(text).contains(
        b,
    ) by {
        let k = choose|k: int| 0 <= k < part.len() && #[trigger] char_class(part[k]) == b;
        assert(text.subrange(at, at + part.len())[k] == text[at + k]);
        assert(char_class(text[at + k]) == b);
    }
}

/// Reflexivity: the summary of a string passes against itself.
pub proof fn lemma_summary_reflexive(s: Seq<char>)
    ensures
        classes_of(s).subset_of(classes_of(s)),
{
}

/// No false negative: where the lowercase form of `needle` is a contiguous
/// part of the lowercase form of `hay`, the summary of `needle` passes
/// against the summary of `hay`. The summary test never turns down a string
/// that holds the other without regard to case.
pub proof fn lemma_substring_passes(needle: Seq<char>, hay: Seq<char>)
    requires
        is_substring(str_lowercase(needle), str_lowercase(hay)),
    ensures
        classes_of(needle).subset_of(classes_of(hay)),
{
    lemma_part_classes(str_lowercase(needle), str_lowercase(hay));
}

/// A summary is saturated exactly where each of the 64 classes is the class
/// of some character of the lowercase form of the string.
pub proof fn lemma_saturated_iff_every_class_occurs(s: Seq<char>)
    ensures
        classes_of(s) == all_classes() <==> (forall|b: int|
            0 <= b < 64 ==> #[trigger] class_occurs(str_lowercase(s), b)),
{
    let text = str_lowercase(s);
    if classes_of(s) == all_classes() {
        assert forall|b: int| 0 <= b < 64 implies #[trigger] class_occurs(text, b) by {
            assert(all_classes().contains(b));
        }
    }
    if forall|b: int| 0 <= b < 64 ==> #[trigger] class_occurs(text, b) {
        assert(classes_of(s) =~= all_classes());
    }
}

/// A string whose lowercase form has fewer than 64 characters is never
/// saturated.
pub proof fn lemma_short_never_saturated(s: Seq<char>)
    requires
        str_lowercase(s).len() < 64,
    ensures
        classes_of(s) != all_classes(),
{
    lemma_classes_count(str_lowercase(s));
    lemma_int_range(0, 64);
    assert(all_classes() =~= set_int_range(0, 64));
}

} // verus!
