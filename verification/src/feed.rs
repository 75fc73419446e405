//! The record format of the element feed.
//!
//! A record is a line of three fields, separated by tabs: a numeric id, a
//! name and an emoji. An escape marker switches between plain and escaped
//! text; inside escaped text a tab is a character of the field. The markers
//! themselves are dropped. A line that has another number of fields, or an
//! id that is no number, is no record.

use crate::models::Element;
use vstd::prelude::*;

verus! {

/// The marker that switches escaped text on and off.
pub const ESCAPE: char = '\x01';

/// The character that separates two fields in plain text.
pub const SEPARATOR: char = '\t';

/// The number of fields of a record.
pub const FIELD_COUNT: usize = 3;

/// Whether the text that follows `read` is escaped: whether `read` holds an
/// odd number of markers.
pub open spec fn in_escape(read: Seq<char>) -> bool
    decreases read.len(),
{
    if read.len() == 0 {
        false
    } else if read.last() == ESCAPE {
        !in_escape(read.drop_last())
    } else {
        in_escape(read.drop_last())
    }
}

/// The fields of a line. There is always at least one; a separator in
/// plain text starts the next; a marker adds nothing; every other character
/// is added to the last field.
pub open spec fn fields_of(line: Seq<char>) -> Seq<Seq<char>>
    decreases line.len(),
{
    if line.len() == 0 {
        seq![Seq::<char>::empty()]
    } else {
        let before = fields_of(line.drop_last());
        let c = line.last();
        if c == ESCAPE {
            before
        } else if c == SEPARATOR && !in_escape(line.drop_last()) {
            before.push(Seq::<char>::empty())
        } else {
            before.drop_last().push(before.last().push(c))
        }
    }
}

/// Whether `c` is one of the ten decimal digits.
pub open spec fn is_digit(c: char) -> bool {
    '0' <= c <= '9'
}

/// The number that a decimal digit denotes.
pub open spec fn digit_value(c: char) -> nat {
    (c as nat - '0' as nat) as nat
}

/// The number that a sequence of decimal digits denotes.
pub open spec fn decimal_value(digits: Seq<char>) -> nat
    decreases digits.len(),
{
    if digits.len() == 0 {
        0
    } else {
        10 * decimal_value(digits.drop_last()) + digit_value(digits.last())
    }
}

/// The digits of an id: the text without one leading plus sign.
pub open spec fn id_digits(text: Seq<char>) -> Seq<char> {
    if text.len() > 0 && text[0] == '+' {
        text.drop_first()
    } else {
        text
    }
}

/// The id that a text denotes: the text is one or more decimal digits, with
/// or without a plus sign before them, and their number fits in 32 bits.
/// Every other text denotes none.
pub open spec fn id_of(text: Seq<char>) -> Option<u32> {
    let digits = id_digits(text);
    if digits.len() > 0 && (forall|i: int| 0 <= i < digits.len() ==> is_digit(#[trigger] digits[i]))
        && decimal_value(digits) <= u32::MAX {
        Some(decimal_value(digits) as u32)
    } else {
        None
    }
}

/// What a record holds, as plain values.
pub struct Record {
    pub id: u32,
    pub name: Seq<char>,
    pub emoji: Seq<char>,
}

/// The record that `element` was made from.
pub open spec fn record_of(element: Element) -> Record {
    Record { id: element.id, name: element.name@, emoji: element.emoji@ }
}

/// The record on a line, if the line is one.
pub open spec fn parse_record(line: Seq<char>) -> Option<Record> {
    let fields = fields_of(line);
    if fields.len() == FIELD_COUNT && id_of(fields[0]) is Some {
        Some(Record { id: id_of(fields[0])->0, name: fields[1], emoji: fields[2] })
    } else {
        None
    }
}

/// The records on `lines`, in their order.
pub open spec fn parse_records(lines: Seq<String>) -> Seq<Record> {
    lines.filter_map(|line: String| parse_record(line@))
}

/// The texts of `strings`.
pub open spec fn texts_of(strings: Seq<String>) -> Seq<Seq<char>> {
    strings.map_values(|s: String| s@)
}

/// Splits a line into its fields.
pub fn split_fields(line: &str) -> (parts: Vec<String>)
    ensures
        texts_of(parts@) == fields_of(line@),
{
    let mut parts: Vec<String> = Vec::new();
    let mut current_part = String::new();
    let mut escaped = false;
    proof {
        assert(texts_of(parts@).push(current_part@) =~= fields_of(line@.take(0)));
    }
    for c in iter: line.chars()
        invariant
            iter.seq() == line@,
            escaped == in_escape(line@.take(iter.index())),
            texts_of(parts@).push(current_part@) == fields_of(line@.take(iter.index())),
    {
        let ghost read = line@.take(iter.index());
        let ghost done = texts_of(parts@);
        let ghost current = current_part@;
        proof {
            assert(line@.take(iter.index() + 1).drop_last() =~= read);
        }
        if c == ESCAPE {
            escaped = !escaped;
        } else if c == SEPARATOR && !escaped {
            parts.push(current_part);
            current_part = String::new();
            proof {
                assert(texts_of(parts@) =~= done.push(current));
            }
        } else {
            current_part.push(c);
            proof {
                assert(done.push(current).drop_last() =~= done);
            }
        }
    }
    proof {
        assert(line@.take(line@.len() as int) =~= line@);
        assert(texts_of(parts@.push(current_part)) =~= texts_of(parts@).push(current_part@));
    }
    parts.push(current_part);
    parts
}

/// A longer sequence of digits denotes no smaller number than its front.
pub proof fn lemma_decimal_value_grows(digits: Seq<char>, n: int)
    requires
        0 <= n <= digits.len(),
        forall|i: int| 0 <= i < digits.len() ==> is_digit(#[trigger] digits[i]),
    ensures
        decimal_value(digits.take(n)) <= decimal_value(digits),
    decreases digits.len() - n,
{
    if n < digits.len() {
        lemma_decimal_value_grows(digits, n + 1);
        assert(digits.take(n + 1).drop_last() =~= digits.take(n));
        assert(is_digit(digits[n]));
    } else {
        assert(digits.take(n) =~= digits);
    }
}

/// Reads a decimal digit: its number, or nothing where `c` is no digit.
pub fn parse_digit(c: char) -> (digit: Option<u32>)
    ensures
        digit is Some <==> is_digit(c),
        digit is Some ==> digit->0 == digit_value(c) && digit->0 <= 9,
{
    let code = c as u32;
    if 48 <= code && code <= 57 {
        Some(code - 48)
    } else {
        None
    }
}

/// Reads an id.
pub fn parse_id(text: &str) -> (id: Option<u32>)
    ensures
        id == id_of(text@),
{
    let ghost digits = id_digits(text@);
    let ghost skipped = text@.len() - digits.len();
    let mut value: u64 = 0;
    let mut any_digit = false;
    let mut first = true;
    for c in iter: text.chars()
        invariant
            iter.seq() == text@,
            digits == id_digits(text@),
            skipped == text@.len() - digits.len(),
            first == (iter.index() == 0),
            value <= u32::MAX,
            iter.index() < skipped ==> value == 0 && !any_digit,
            skipped <= iter.index() ==> {
                let read = digits.take(iter.index() - skipped);
                &&& any_digit == (read.len() > 0)
                &&& value == decimal_value(read)
                &&& forall|i: int| 0 <= i < read.len() ==> is_digit(#[trigger] read[i])
            },
    {
        let ghost at = iter.index() - skipped;
        if first && c == '+' {
            first = false;
            proof {
                assert(skipped == 1);
                assert(digits.take(0) =~= Seq::<char>::empty());
            }
        } else {
            first = false;
            let ghost read = digits.take(at);
            let ghost longer = digits.take(at + 1);
            proof {
                assert(digits[at] == c);
                assert(longer.drop_last() =~= read);
            }
            let digit = match parse_digit(c) {
                Some(digit) => digit,
                None => {
                    return None;
                },
            };
            let next = value * 10 + digit as u64;
            proof {
                assert forall|i: int| 0 <= i < longer.len() implies is_digit(
                    #[trigger] longer[i],
                ) by {
                    if i < at {
                        assert(longer[i] == read[i]);
                    }
                }
            }
            if next > 0xffff_ffff {
                proof {
                    if forall|i: int| 0 <= i < digits.len() ==> is_digit(#[trigger] digits[i]) {
                        lemma_decimal_value_grows(digits, at + 1);
                    }
                }
                return None;
            }
            value = next;
            any_digit = true;
        }
    }
    proof {
        assert(digits.take(digits.len() as int) =~= digits);
    }
    if any_digit {
        Some(value as u32)
    } else {
        None
    }
}

/// Reads one line of the feed: the element on it, or nothing where the
/// line is no record.
pub fn parse_line(line: &str) -> (element: Option<Element>)
    ensures
        match element {
            Some(element) => parse_record(line@) == Some(record_of(element)),
            None => parse_record(line@) is None,
        },
{
    let mut parts = split_fields(line);
    if parts.len() != FIELD_COUNT {
        return None;
    }
    let ghost fields = texts_of(parts@);
    assert(fields[0] == parts@[0]@ && fields[1] == parts@[1]@ && fields[2] == parts@[2]@);
    match parse_id(parts[0].as_str()) {
        Some(id) => {
            let emoji = parts.pop();
            let name = parts.pop();
            match (name, emoji) {
                (Some(name), Some(emoji)) => Some(Element { id, name, emoji }),
                _ => None,
            }
        },
        None => None,
    }
}

/// Reads the lines of a feed: the elements on the lines that are records,
/// in the order of the lines. The other lines are passed over.
pub fn parse_elements(lines: &Vec<String>) -> (elements: Vec<Element>)
    ensures
        elements@.map_values(|element: Element| record_of(element)) == parse_records(lines@),
{
    let mut elements: Vec<Element> = Vec::new();
    let mut i: usize = 0;
    proof {
        assert(elements@.map_values(|element: Element| record_of(element)) =~= parse_records(
            lines@.take(0),
        ));
    }
    while i < lines.len()
        invariant
            i <= lines.len(),
            elements@.map_values(|element: Element| record_of(element)) == parse_records(
                lines@.take(i as int),
            ),
        decreases lines.len() - i,
    {
        let ghost found = elements@;
        proof {
            lines@.lemma_filter_map_take_succ(|line: String| parse_record(line@), i as int);
        }
        match parse_line(lines[i].as_str()) {
            Some(element) => {
                elements.push(element);
                proof {
                    assert(elements@.map_values(|element: Element| record_of(element))
                        =~= found.map_values(|element: Element| record_of(element)).push(
                        record_of(element),
                    ));
                }
            },
            None => {},
        }
        i += 1;
    }
    proof {
        assert(lines@.take(lines@.len() as int) =~= lines@);
    }
    elements
}

} // verus!
