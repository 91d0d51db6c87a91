//! Text of the action stream at byte level: cutting at a separator, and
//! decimal integers.

use vstd::prelude::*;
use vstd::string::StringSliceAdditionalSpecFns;
use vstd::utf8::{
    encode_utf8_valid_utf8, is_char_boundary, is_char_boundary_iff_not_is_continuation_byte,
    valid_utf8,
};

verus! {

/// The comma that ends a record.
pub const RECORD_END: u8 = 0x2C;

/// The bar between the sub-fields of a record.
pub const FIELD_BAR: u8 = 0x7C;

/// The index of the first `separator` in `text`, or the length of `text`
/// where there is none.
pub open spec fn first_index(text: Seq<u8>, separator: u8) -> int
    decreases text.len(),
{
    if text.len() == 0 || text[0] == separator {
        0
    } else {
        1 + first_index(text.skip(1), separator)
    }
}

/// What follows the separator at `index`; nothing where `index` is the end.
pub open spec fn after(text: Seq<u8>, index: int) -> Seq<u8> {
    if 0 <= index < text.len() {
        text.skip(index + 1)
    } else {
        Seq::empty()
    }
}

/// The pieces between separators. A text without separator is one piece, and
/// so is the empty text.
pub open spec fn pieces(text: Seq<u8>, separator: u8) -> Seq<Seq<u8>>
    decreases text.len(),
{
    let index = first_index(text, separator);
    if 0 <= index < text.len() {
        seq![text.take(index)] + pieces(text.skip(index + 1), separator)
    } else {
        seq![text]
    }
}

/// The pieces that a separator ends: all the pieces, but for a last piece
/// that is empty. So the empty text has none, and the last separator may be
/// left out.
pub open spec fn terminated_pieces(text: Seq<u8>, separator: u8) -> Seq<Seq<u8>> {
    let all = pieces(text, separator);
    if all.last().len() == 0 {
        all.drop_last()
    } else {
        all
    }
}

/// The first index is in range, no separator stands before it, and one
/// stands at it unless it is the end.
pub proof fn lemma_first_index(text: Seq<u8>, separator: u8)
    ensures
        0 <= first_index(text, separator) <= text.len(),
        forall|k: int| 0 <= k < first_index(text, separator) ==> text[k] != separator,
        first_index(text, separator) < text.len() ==> text[first_index(text, separator)]
            == separator,
    decreases text.len(),
{
    if text.len() == 0 || text[0] == separator {
    } else {
        lemma_first_index(text.skip(1), separator);
        assert forall|k: int| 0 <= k < first_index(text, separator) implies text[k]
            != separator by {
            if k > 0 {
                assert(text[k] == text.skip(1)[k - 1]);
            }
        }
    }
}

/// An index with no separator before it, and with one at it unless it is the
/// end, is the first index.
pub proof fn lemma_first_index_is(text: Seq<u8>, separator: u8, index: int)
    requires
        0 <= index <= text.len(),
        forall|k: int| 0 <= k < index ==> text[k] != separator,
        index < text.len() ==> text[index] == separator,
    ensures
        first_index(text, separator) == index,
{
    lemma_first_index(text, separator);
    let found = first_index(text, separator);
    if found < index {
        assert(text[found] != separator);
    } else if index < found {
        assert(text[index] != separator);
    }
}

/// The first piece is what stands before the first separator, and the other
/// pieces are the pieces of what follows it.
pub proof fn lemma_pieces(text: Seq<u8>, separator: u8)
    ensures
        pieces(text, separator).len() >= 1,
        pieces(text, separator)[0] == text.take(first_index(text, separator)),
        first_index(text, separator) >= text.len() ==> pieces(text, separator).len() == 1,
        first_index(text, separator) < text.len() ==> pieces(text, separator).skip(1) == pieces(
            text.skip(first_index(text, separator) + 1),
            separator,
        ),
{
    lemma_first_index(text, separator);
    let index = first_index(text, separator);
    if index < text.len() {
        let rest = pieces(text.skip(index + 1), separator);
        assert((seq![text.take(index)] + rest).skip(1) =~= rest);
    } else {
        assert(text.take(index) =~= text);
    }
}

/// The pieces that a separator ends, taken from the front: the first piece,
/// then those of what follows its separator.
pub proof fn lemma_terminated_pieces(text: Seq<u8>, separator: u8)
    ensures
        text.len() == 0 ==> terminated_pieces(text, separator) == Seq::<Seq<u8>>::empty(),
        text.len() > 0 ==> terminated_pieces(text, separator) == seq![
            text.take(first_index(text, separator)),
        ] + terminated_pieces(after(text, first_index(text, separator)), separator),
{
    lemma_first_index(text, separator);
    let index = first_index(text, separator);
    let nothing = Seq::<u8>::empty();
    assert(pieces(nothing, separator) =~= seq![nothing]);
    assert(terminated_pieces(nothing, separator) =~= Seq::<Seq<u8>>::empty());
    if text.len() == 0 {
        assert(text =~= nothing);
    } else if index < text.len() {
        let first = seq![text.take(index)];
        let others = pieces(text.skip(index + 1), separator);
        lemma_pieces(text.skip(index + 1), separator);
        assert((first + others).last() == others.last());
        assert((first + others).drop_last() =~= first + others.drop_last());
    } else {
        assert(text.take(index) =~= text);
        assert(seq![text] + Seq::<Seq<u8>>::empty() =~= seq![text]);
    }
}

/// Cuts `text` at the first `separator`: the part before it, and the part
/// after it where there is one.
pub(crate) fn split_once<'a>(text: &'a str, separator: u8) -> (r: (&'a str, Option<&'a str>))
    requires
        separator < 0x80,
    ensures
        r.0.spec_bytes() == text.spec_bytes().take(first_index(text.spec_bytes(), separator)),
        r.1 is Some <==> first_index(text.spec_bytes(), separator) < text.spec_bytes().len(),
        r.1 is Some ==> r.1.unwrap().spec_bytes() == text.spec_bytes().skip(
            first_index(text.spec_bytes(), separator) + 1,
        ),
{
    let bytes = text.as_bytes();
    let mut index: usize = 0;
    while index < bytes.len() && bytes[index] != separator
        invariant
            index <= bytes@.len(),
            forall|k: int| 0 <= k < index ==> bytes@[k] != separator,
        decreases bytes@.len() - index,
    {
        index = index + 1;
    }
    proof {
        lemma_first_index_is(bytes@, separator, index as int);
        encode_utf8_valid_utf8(text@);
    }
    if index == bytes.len() {
        assert(bytes@.take(index as int) =~= bytes@);
        return (text, None);
    }
    proof {
        is_char_boundary_iff_not_is_continuation_byte(bytes@, index as int);
    }
    let (head, tail) = text.split_at(index);
    proof {
        encode_utf8_valid_utf8(tail@);
        reveal_with_fuel(is_char_boundary, 2);
        reveal_with_fuel(valid_utf8, 2);
        assert(tail.spec_bytes()[0] == separator);
        assert(is_char_boundary(tail.spec_bytes(), 1));
    }
    let (_, rest) = tail.split_at(1);
    assert(rest.spec_bytes() =~= bytes@.skip(index + 1));
    assert(head.spec_bytes() =~= bytes@.take(index as int));
    (head, Some(rest))
}

/// An ASCII decimal digit.
pub open spec fn is_digit(byte: u8) -> bool {
    0x30 <= byte <= 0x39
}

/// One digit or more, and nothing else.
pub open spec fn is_number(digits: Seq<u8>) -> bool {
    digits.len() > 0 && forall|i: int| 0 <= i < digits.len() ==> is_digit(digits[i])
}

/// The number that decimal digits spell, most significant digit first.
pub open spec fn digits_value(digits: Seq<u8>) -> nat
    decreases digits.len(),
{
    if digits.len() == 0 {
        0
    } else {
        10 * digits_value(digits.drop_last()) + (digits.last() - 0x30) as nat
    }
}

/// A signed 64-bit integer in decimal: an optional `+` or `-`, then one digit
/// or more, and a value that the type can hold.
pub open spec fn spec_i64(text: Seq<u8>) -> Option<i64> {
    let negative = text.len() > 0 && text[0] == 0x2D;
    let signed = negative || (text.len() > 0 && text[0] == 0x2B);
    let digits = if signed {
        text.skip(1)
    } else {
        text
    };
    let value = if negative {
        -(digits_value(digits) as int)
    } else {
        digits_value(digits) as int
    };
    if is_number(digits) && i64::MIN <= value <= i64::MAX {
        Some(value as i64)
    } else {
        None
    }
}

/// An unsigned 32-bit integer in decimal: an optional `+`, then one digit or
/// more, and a value that the type can hold.
pub open spec fn spec_u32(text: Seq<u8>) -> Option<u32> {
    let digits = if text.len() > 0 && text[0] == 0x2B {
        text.skip(1)
    } else {
        text
    };
    if is_number(digits) && digits_value(digits) <= u32::MAX {
        Some(digits_value(digits) as u32)
    } else {
        None
    }
}

/// `str::parse::<i64>`: accepts an optional sign followed by decimal digits
/// only, and refuses the empty text, a sign alone, any other character and a
/// value out of range.
#[verifier::external_body]
pub(crate) fn parse_i64(text: &str) -> (r: Option<i64>)
    ensures
        r == spec_i64(text.spec_bytes()),
{
    text.parse::<i64>().ok()
}

/// `str::parse::<u32>`: accepts an optional `+` followed by decimal digits
/// only, and refuses the empty text, a sign alone, a `-`, any other character
/// and a value out of range.
#[verifier::external_body]
pub(crate) fn parse_u32(text: &str) -> (r: Option<u32>)
    ensures
        r == spec_u32(text.spec_bytes()),
{
    text.parse::<u32>().ok()
}

} // verus!
