//! Fixed-width little-endian decoders over a byte slice. Each takes the bytes
//! that remain and gives back what follows the value together with the value,
//! or fails with `UnexpectedEndOfInput` when too few bytes remain.

use crate::errors::{ErrorKind, Failure, ReplayDataError};
use vstd::prelude::*;

verus! {

/// What a decoder makes of a byte sequence: the bytes left over and the
/// value, or the failure.
pub type Decoded<T> = Result<(Seq<u8>, T), Failure>;

/// The number that `bytes` spell in base 256, least significant byte first.
pub open spec fn le_value(bytes: Seq<u8>) -> nat
    decreases bytes.len(),
{
    if bytes.len() == 0 {
        0
    } else {
        bytes[0] as nat + 256 * le_value(bytes.skip(1))
    }
}

/// The two's-complement reading of a 64-bit pattern.
pub open spec fn signed_64(pattern: nat) -> int {
    if pattern < 0x8000_0000_0000_0000 {
        pattern as int
    } else {
        pattern - 0x1_0000_0000_0000_0000
    }
}

/// The first `n` bytes, split from the rest.
pub open spec fn spec_take(input: Seq<u8>, n: nat) -> Decoded<Seq<u8>> {
    if input.len() >= n {
        Ok((input.skip(n as int), input.take(n as int)))
    } else {
        Err(Failure::bare(ErrorKind::UnexpectedEndOfInput))
    }
}

/// One byte.
pub open spec fn spec_byte(input: Seq<u8>) -> Decoded<u8> {
    match spec_take(input, 1) {
        Ok((rest, head)) => Ok((rest, head[0])),
        Err(f) => Err(f),
    }
}

/// An unsigned 16-bit integer.
pub open spec fn spec_short(input: Seq<u8>) -> Decoded<u16> {
    match spec_take(input, 2) {
        Ok((rest, head)) => Ok((rest, le_value(head) as u16)),
        Err(f) => Err(f),
    }
}

/// An unsigned 32-bit integer.
pub open spec fn spec_integer(input: Seq<u8>) -> Decoded<u32> {
    match spec_take(input, 4) {
        Ok((rest, head)) => Ok((rest, le_value(head) as u32)),
        Err(f) => Err(f),
    }
}

/// A signed 64-bit integer.
pub open spec fn spec_long(input: Seq<u8>) -> Decoded<i64> {
    match spec_take(input, 8) {
        Ok((rest, head)) => Ok((rest, signed_64(le_value(head)) as i64)),
        Err(f) => Err(f),
    }
}

/// An executable result says what the specification says: the same value and
/// the same remaining bytes, or the same failure.
pub open spec fn realizes<T: View>(
    result: Result<(&[u8], T), ReplayDataError>,
    decoded: Decoded<T::V>,
) -> bool {
    match result {
        Ok((rest, value)) => decoded == Ok::<(Seq<u8>, T::V), Failure>((rest@, value@)),
        Err(e) => decoded == Err::<(Seq<u8>, T::V), Failure>(e@),
    }
}

/// 256 to the power `n`: the number of values that `n` bytes can spell.
pub open spec fn radix(n: nat) -> nat
    decreases n,
{
    if n == 0 {
        1
    } else {
        256 * radix((n - 1) as nat)
    }
}

/// `n` bytes spell a number below 256 to the power `n`.
pub proof fn lemma_le_value_bound(bytes: Seq<u8>)
    ensures
        le_value(bytes) < radix(bytes.len()),
    decreases bytes.len(),
{
    if bytes.len() > 0 {
        lemma_le_value_bound(bytes.skip(1));
    }
}

/// The values of one, two, four and eight bytes fill their types and no
/// more, so the decoders above lose nothing when they give a value its type.
pub proof fn lemma_le_value_fits(bytes: Seq<u8>)
    ensures
        bytes.len() == 1 ==> le_value(bytes) <= u8::MAX,
        bytes.len() == 2 ==> le_value(bytes) <= u16::MAX,
        bytes.len() == 4 ==> le_value(bytes) <= u32::MAX,
        bytes.len() == 8 ==> le_value(bytes) <= u64::MAX && i64::MIN <= signed_64(le_value(bytes))
            <= i64::MAX,
{
    lemma_le_value_bound(bytes);
    reveal_with_fuel(radix, 9);
}

/// How a decoder meets an input that has lost its last `dropped` bytes.
/// Where the whole input decodes, the shortened input either still holds
/// all that the decoder consumed, and then decodes to the same value and
/// leaves the shortened rest, or it fails for want of bytes.
pub open spec fn truncates<T>(whole: Decoded<T>, shortened: Decoded<T>, dropped: int) -> bool {
    whole matches Ok((rest, value)) ==> if dropped <= rest.len() {
        shortened == Ok::<(Seq<u8>, T), Failure>((rest.take(rest.len() - dropped), value))
    } else {
        shortened matches Err(f) && f.kind == ErrorKind::UnexpectedEndOfInput
    }
}

/// A decoder leaves no more than it was given.
pub open spec fn shrinks<T>(input: Seq<u8>, decoded: Decoded<T>) -> bool {
    decoded matches Ok((rest, _)) ==> rest.len() <= input.len()
}

/// `spec_take` on a shortened input.
pub proof fn lemma_take_truncates(input: Seq<u8>, n: nat, dropped: int)
    ensures
        shrinks(input, spec_take(input, n)),
        0 <= dropped <= input.len() ==> truncates(
            spec_take(input, n),
            spec_take(input.take(input.len() - dropped), n),
            dropped,
        ),
{
    if 0 <= dropped <= input.len() && input.len() >= n {
        let shortened = input.take(input.len() - dropped);
        let rest = input.skip(n as int);
        if dropped <= rest.len() {
            assert(shortened.skip(n as int) =~= rest.take(rest.len() - dropped));
            assert(shortened.take(n as int) =~= input.take(n as int));
        }
    }
}

/// `spec_byte` on a shortened input.
pub proof fn lemma_byte_truncates(input: Seq<u8>, dropped: int)
    ensures
        shrinks(input, spec_byte(input)),
        0 <= dropped <= input.len() ==> truncates(
            spec_byte(input),
            spec_byte(input.take(input.len() - dropped)),
            dropped,
        ),
{
    lemma_take_truncates(input, 1, dropped);
}

/// `spec_short` on a shortened input.
pub proof fn lemma_short_truncates(input: Seq<u8>, dropped: int)
    ensures
        shrinks(input, spec_short(input)),
        0 <= dropped <= input.len() ==> truncates(
            spec_short(input),
            spec_short(input.take(input.len() - dropped)),
            dropped,
        ),
{
    lemma_take_truncates(input, 2, dropped);
}

/// `spec_integer` on a shortened input.
pub proof fn lemma_integer_truncates(input: Seq<u8>, dropped: int)
    ensures
        shrinks(input, spec_integer(input)),
        0 <= dropped <= input.len() ==> truncates(
            spec_integer(input),
            spec_integer(input.take(input.len() - dropped)),
            dropped,
        ),
{
    lemma_take_truncates(input, 4, dropped);
}

/// `spec_long` on a shortened input.
pub proof fn lemma_long_truncates(input: Seq<u8>, dropped: int)
    ensures
        shrinks(input, spec_long(input)),
        0 <= dropped <= input.len() ==> truncates(
            spec_long(input),
            spec_long(input.take(input.len() - dropped)),
            dropped,
        ),
{
    lemma_take_truncates(input, 8, dropped);
}

/// `nom::number::complete::le_u8`: with at least one byte of input it gives
/// the first byte and the input after it; with none it fails.
#[verifier::external_body]
fn nom_le_u8<'a>(input: &'a [u8]) -> (r: Option<(&'a [u8], u8)>)
    ensures
        r is Some <==> input@.len() >= 1,
        r is Some ==> r.unwrap().0@ == input@.skip(1),
        r is Some ==> r.unwrap().1 == input@[0],
{
    nom::number::complete::le_u8::<&[u8], nom::error::Error<&[u8]>>(input).ok()
}

/// `nom::number::complete::le_u16`: with at least two bytes of input it gives
/// their little-endian value and the input after them; with fewer it fails.
#[verifier::external_body]
fn nom_le_u16<'a>(input: &'a [u8]) -> (r: Option<(&'a [u8], u16)>)
    ensures
        r is Some <==> input@.len() >= 2,
        r is Some ==> r.unwrap().0@ == input@.skip(2),
        r is Some ==> r.unwrap().1 == le_value(input@.take(2)),
{
    nom::number::complete::le_u16::<&[u8], nom::error::Error<&[u8]>>(input).ok()
}

/// `nom::number::complete::le_u32`: with at least four bytes of input it gives
/// their little-endian value and the input after them; with fewer it fails.
#[verifier::external_body]
fn nom_le_u32<'a>(input: &'a [u8]) -> (r: Option<(&'a [u8], u32)>)
    ensures
        r is Some <==> input@.len() >= 4,
        r is Some ==> r.unwrap().0@ == input@.skip(4),
        r is Some ==> r.unwrap().1 == le_value(input@.take(4)),
{
    nom::number::complete::le_u32::<&[u8], nom::error::Error<&[u8]>>(input).ok()
}

/// `nom::number::complete::le_i64`: with at least eight bytes of input it
/// gives their little-endian value, read as two's complement, and the input
/// after them; with fewer it fails.
#[verifier::external_body]
fn nom_le_i64<'a>(input: &'a [u8]) -> (r: Option<(&'a [u8], i64)>)
    ensures
        r is Some <==> input@.len() >= 8,
        r is Some ==> r.unwrap().0@ == input@.skip(8),
        r is Some ==> r.unwrap().1 == signed_64(le_value(input@.take(8))),
{
    nom::number::complete::le_i64::<&[u8], nom::error::Error<&[u8]>>(input).ok()
}

/// `nom::bytes::complete::take`: with at least `count` bytes of input it
/// gives the first `count` bytes and the input after them; with fewer it
/// fails.
#[verifier::external_body]
fn nom_take<'a>(count: u32, input: &'a [u8]) -> (r: Option<(&'a [u8], &'a [u8])>)
    ensures
        r is Some <==> input@.len() >= count,
        r is Some ==> r.unwrap().0@ == input@.skip(count as int),
        r is Some ==> r.unwrap().1@ == input@.take(count as int),
{
    nom::bytes::complete::take::<u32, &[u8], nom::error::Error<&[u8]>>(count)(input).ok()
}

/// Decodes one byte.
pub fn byte<'a>(input: &'a [u8]) -> (r: Result<(&'a [u8], u8), ReplayDataError>)
    ensures
        realizes(r, spec_byte(input@)),
{
    match nom_le_u8(input) {
        Some(found) => {
            assert(input@.take(1)[0] == input@[0]);
            Ok(found)
        },
        None => Err(ReplayDataError::UnexpectedEndOfInput(Vec::new())),
    }
}

/// Decodes an unsigned 16-bit integer.
pub fn short<'a>(input: &'a [u8]) -> (r: Result<(&'a [u8], u16), ReplayDataError>)
    ensures
        realizes(r, spec_short(input@)),
{
    match nom_le_u16(input) {
        Some(found) => Ok(found),
        None => Err(ReplayDataError::UnexpectedEndOfInput(Vec::new())),
    }
}

/// Decodes an unsigned 32-bit integer.
pub fn integer<'a>(input: &'a [u8]) -> (r: Result<(&'a [u8], u32), ReplayDataError>)
    ensures
        realizes(r, spec_integer(input@)),
{
    match nom_le_u32(input) {
        Some(found) => Ok(found),
        None => Err(ReplayDataError::UnexpectedEndOfInput(Vec::new())),
    }
}

/// Decodes a signed 64-bit integer.
pub fn long<'a>(input: &'a [u8]) -> (r: Result<(&'a [u8], i64), ReplayDataError>)
    ensures
        realizes(r, spec_long(input@)),
{
    match nom_le_i64(input) {
        Some(found) => Ok(found),
        None => Err(ReplayDataError::UnexpectedEndOfInput(Vec::new())),
    }
}

/// Splits off the first `count` bytes.
pub fn take<'a>(count: u32, input: &'a [u8]) -> (r: Result<
    (&'a [u8], &'a [u8]),
    ReplayDataError,
>)
    ensures
        realizes(r, spec_take(input@, count as nat)),
{
    match nom_take(count, input) {
        Some(found) => Ok(found),
        None => Err(ReplayDataError::UnexpectedEndOfInput(Vec::new())),
    }
}

} // verus!
