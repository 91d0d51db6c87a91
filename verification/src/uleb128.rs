//! Unsigned LEB128: a variable-length integer in which each byte carries seven
//! value bits, least significant group first, and a high bit that says whether
//! another byte follows.

use crate::cursor::{realizes, shrinks, truncates, Decoded};
use crate::errors::{ErrorKind, Failure, ReplayDataError};
use vstd::arithmetic::div_mod::{lemma_fundamental_div_mod, lemma_mod_multiples_vanish};
use vstd::prelude::*;
use vstd::slice::slice_subrange;

verus! {

/// The weight of the seven-bit group at position `i`: 128 to the power `i`.
pub open spec fn place(i: nat) -> nat
    decreases i,
{
    if i == 0 {
        1
    } else {
        128 * place((i - 1) as nat)
    }
}

/// The number that the low seven bits of each byte spell in base 128, least
/// significant group first.
pub open spec fn payload_value(bytes: Seq<u8>) -> nat
    decreases bytes.len(),
{
    if bytes.len() == 0 {
        0
    } else {
        (bytes[0] % 128) as nat + 128 * payload_value(bytes.skip(1))
    }
}

/// `n` is the index of the first byte whose high bit is clear.
pub open spec fn ends_at(input: Seq<u8>, n: int) -> bool {
    &&& 0 <= n < input.len()
    &&& input[n] < 0x80
    &&& forall|k: int| 0 <= k < n ==> input[k] >= 0x80
}

/// The integer at the head of `input`. The encoding runs up to and including
/// the first byte whose high bit is clear; without such a byte the input ends
/// too early. The value is the payload of those bytes reduced to 32 bits:
/// value bits at positions 32 and above are dropped, however many bytes the
/// encoding has.
pub open spec fn spec_uleb128(input: Seq<u8>) -> Decoded<u32> {
    if exists|n: int| ends_at(input, n) {
        let n = choose|n: int| ends_at(input, n);
        Ok((input.skip(n + 1), (payload_value(input.take(n + 1)) % 0x1_0000_0000) as u32))
    } else {
        Err(Failure::bare(ErrorKind::UnexpectedEndOfInput))
    }
}

/// The shortest encoding of `value`.
pub open spec fn uleb128_encoding(value: nat) -> Seq<u8>
    decreases value,
{
    if value < 128 {
        seq![value as u8]
    } else {
        seq![(value % 128 + 128) as u8] + uleb128_encoding(value / 128)
    }
}

/// An encoding ends at one place only.
pub proof fn lemma_end_is_unique(input: Seq<u8>, n: int, m: int)
    requires
        ends_at(input, n),
        ends_at(input, m),
    ensures
        n == m,
{
    if n < m {
        assert(input[n] >= 0x80);
    } else if m < n {
        assert(input[m] >= 0x80);
    }
}

/// Appending a byte adds its seven bits at the next place.
pub proof fn lemma_payload_push(bytes: Seq<u8>, last: u8)
    ensures
        payload_value(bytes.push(last)) == payload_value(bytes) + (last % 128) * place(bytes.len()),
    decreases bytes.len(),
{
    let group = (last % 128) as int;
    let longer = bytes.push(last);
    if bytes.len() == 0 {
        assert(longer.skip(1) =~= Seq::<u8>::empty());
        assert(payload_value(longer.skip(1)) == 0);
        assert(payload_value(longer) == group);
        assert(group * place(0) == group) by (nonlinear_arith)
            requires
                place(0) == 1,
        ;
    } else {
        let tail = bytes.skip(1);
        assert(longer.skip(1) =~= tail.push(last));
        assert(longer[0] == bytes[0]);
        lemma_payload_push(tail, last);
        let below = place(tail.len()) as int;
        assert(place(bytes.len()) == 128 * below);
        assert(128 * (group * below) == group * (128 * below)) by (nonlinear_arith);
    }
}

/// `n` bytes spell a number below 128 to the power `n`.
pub proof fn lemma_payload_bound(bytes: Seq<u8>)
    ensures
        payload_value(bytes) < place(bytes.len()),
    decreases bytes.len(),
{
    if bytes.len() > 0 {
        lemma_payload_bound(bytes.skip(1));
    }
}

/// From the sixth group on, a place is a multiple of 2 to the power 32.
proof fn lemma_high_place(i: nat)
    requires
        i >= 5,
    ensures
        place(i) % 0x1_0000_0000 == 0,
    decreases i,
{
    if i == 5 {
        reveal_with_fuel(place, 6);
        assert(place(5) == 0x8_0000_0000);
    } else {
        lemma_high_place((i - 1) as nat);
        let below = place((i - 1) as nat);
        assert((128 * below) % 0x1_0000_0000 == 0) by (nonlinear_arith)
            requires
                below % 0x1_0000_0000 == 0,
        ;
    }
}

/// A group at a high place leaves the low 32 bits as they are.
proof fn lemma_high_group_vanishes(total: nat, group: nat, weight: nat)
    requires
        weight % 0x1_0000_0000 == 0,
    ensures
        (total + group * weight) % 0x1_0000_0000 == total % 0x1_0000_0000,
{
    let modulus = 0x1_0000_0000int;
    let quotient = weight as int / modulus;
    lemma_fundamental_div_mod(weight as int, modulus);
    assert(group * weight == modulus * (group * quotient)) by (nonlinear_arith)
        requires
            weight == modulus * quotient,
    ;
    lemma_mod_multiples_vanish(group * quotient, total as int, modulus);
}

/// Or-ing a group in above the bits gathered so far adds it at its place and
/// keeps 32 bits.
proof fn lemma_accumulate(gathered: u32, byte: u32, shift: u32)
    by (bit_vector)
    requires
        shift == 0 || shift == 7 || shift == 14 || shift == 21 || shift == 28,
        gathered < (1u32 << shift),
        byte < 256,
    ensures
        byte & 0x7F == byte % 128,
        (gathered | ((byte & 0x7F) << shift)) as u64 == (gathered as u64 + (byte % 128) as u64 * (
        1u64 << (shift as u64))) % 0x1_0000_0000,
{
}

/// The high bit of a byte is clear exactly when the byte is below 0x80.
proof fn lemma_high_bit(byte: u32)
    by (bit_vector)
    requires
        byte < 256,
    ensures
        (byte & 0x80 == 0) <==> byte < 0x80,
{
}

/// The first five places as shifts.
proof fn lemma_low_places()
    ensures
        place(0) == 1u64 << 0u64,
        place(1) == 1u64 << 7u64,
        place(2) == 1u64 << 14u64,
        place(3) == 1u64 << 21u64,
        place(4) == 1u64 << 28u64,
        place(0) == 1u32 << 0u32,
        place(1) == 1u32 << 7u32,
        place(2) == 1u32 << 14u32,
        place(3) == 1u32 << 21u32,
        place(4) == 1u32 << 28u32,
{
    reveal_with_fuel(place, 6);
    assert(1u64 << 0u64 == 1 && 1u64 << 7u64 == 0x80 && 1u64 << 14u64 == 0x4000 && 1u64 << 21u64
        == 0x20_0000 && 1u64 << 28u64 == 0x1000_0000) by (bit_vector);
    assert(1u32 << 0u32 == 1 && 1u32 << 7u32 == 0x80 && 1u32 << 14u32 == 0x4000 && 1u32 << 21u32
        == 0x20_0000 && 1u32 << 28u32 == 0x1000_0000) by (bit_vector);
}

/// The shortest encoding of a value ends at its last byte and spells the
/// value.
pub proof fn lemma_encoding_spells_value(value: nat)
    ensures
        uleb128_encoding(value).len() >= 1,
        ends_at(uleb128_encoding(value), uleb128_encoding(value).len() - 1),
        payload_value(uleb128_encoding(value)) == value,
    decreases value,
{
    let encoding = uleb128_encoding(value);
    if value < 128 {
        assert(encoding.skip(1) =~= Seq::<u8>::empty());
        assert(payload_value(encoding.skip(1)) == 0);
    } else {
        let tail = uleb128_encoding(value / 128);
        lemma_encoding_spells_value(value / 128);
        assert(encoding.skip(1) =~= tail);
        assert forall|k: int| 0 <= k < encoding.len() - 1 implies encoding[k] >= 0x80 by {
            if k > 0 {
                assert(encoding[k] == tail[k - 1]);
            }
        }
        assert(encoding[encoding.len() - 1] == tail[tail.len() - 1]);
    }
}

/// Any encoding of a 32-bit value decodes to that value. An encoding is a
/// run of bytes of which the last, and only the last, has its high bit clear,
/// be it the shortest for its value or not. Whatever follows it, the decoder
/// gives the value that its payload spells and leaves exactly what followed.
pub proof fn lemma_uleb128_decodes_encoding(encoding: Seq<u8>, rest: Seq<u8>)
    requires
        ends_at(encoding, encoding.len() - 1),
        payload_value(encoding) < 0x1_0000_0000,
    ensures
        spec_uleb128(encoding + rest) == Ok::<(Seq<u8>, u32), Failure>(
            (rest, payload_value(encoding) as u32),
        ),
{
    let input = encoding + rest;
    let last = encoding.len() - 1;
    assert forall|k: int| 0 <= k <= last implies input[k] == encoding[k] by {}
    assert(ends_at(input, last));
    let n = choose|n: int| ends_at(input, n);
    lemma_end_is_unique(input, n, last);
    assert(input.take(n + 1) =~= encoding);
    assert(input.skip(n + 1) =~= rest);
}

/// Decoding inverts encoding: whatever follows the shortest encoding of a
/// 32-bit value, the decoder gives the value back and leaves exactly what
/// followed.
pub proof fn lemma_uleb128_round_trip(value: nat, rest: Seq<u8>)
    requires
        value < 0x1_0000_0000,
    ensures
        spec_uleb128(uleb128_encoding(value) + rest) == Ok::<(Seq<u8>, u32), Failure>(
            (rest, value as u32),
        ),
{
    lemma_encoding_spells_value(value);
    lemma_uleb128_decodes_encoding(uleb128_encoding(value), rest);
}

/// A byte below 0x80 is a whole encoding: it decodes to itself, and one byte
/// is consumed.
pub proof fn lemma_uleb128_single_byte(byte: u8, rest: Seq<u8>)
    requires
        byte < 0x80,
    ensures
        spec_uleb128(seq![byte] + rest) == Ok::<(Seq<u8>, u32), Failure>((rest, byte as u32)),
{
    assert(uleb128_encoding(byte as nat) =~= seq![byte]);
    lemma_uleb128_round_trip(byte as nat, rest);
}

/// `spec_uleb128` on an input that has lost its last `dropped` bytes: the
/// same integer where the encoding is still whole, and a failure for want of
/// bytes where it is not.
pub proof fn lemma_uleb128_truncates(input: Seq<u8>, dropped: int)
    ensures
        shrinks(input, spec_uleb128(input)),
        0 <= dropped <= input.len() ==> truncates(
            spec_uleb128(input),
            spec_uleb128(input.take(input.len() - dropped)),
            dropped,
        ),
{
    if 0 <= dropped <= input.len() && spec_uleb128(input) is Ok {
        let shortened = input.take(input.len() - dropped);
        let n = choose|n: int| ends_at(input, n);
        let rest = input.skip(n + 1);
        if dropped <= rest.len() {
            assert(ends_at(shortened, n));
            let m = choose|m: int| ends_at(shortened, m);
            lemma_end_is_unique(shortened, m, n);
            assert(shortened.take(n + 1) =~= input.take(n + 1));
            assert(shortened.skip(n + 1) =~= rest.take(rest.len() - dropped));
        } else {
            assert forall|m: int| !ends_at(shortened, m) by {
                if 0 <= m < shortened.len() {
                    assert(shortened[m] == input[m]);
                }
            }
        }
    }
}

/// Decodes the integer at the head of `input`: the bytes up to the first one
/// whose high bit is clear, seven value bits each, kept to 32 bits.
pub fn uleb128<'a>(input: &'a [u8]) -> (r: Result<(&'a [u8], u32), ReplayDataError>)
    ensures
        realizes(r, spec_uleb128(input@)),
{
    let mut result: u32 = 0;
    let mut shift: u32 = 0;
    let mut index: usize = 0;
    while index < input.len()
        invariant
            index <= input@.len(),
            forall|k: int| 0 <= k < index ==> input@[k] >= 0x80,
            result == payload_value(input@.take(index as int)) % 0x1_0000_0000,
            index < 5 ==> shift == 7 * index && payload_value(input@.take(index as int)) < place(
                index as nat,
            ),
            index >= 5 ==> shift == 35,
        decreases input@.len() - index,
    {
        let byte: u32 = input[index] as u32;
        let ghost before = input@.take(index as int);
        let ghost gathered = result;
        proof {
            assert(input@.take(index + 1) =~= before.push(input@[index as int]));
            lemma_payload_push(before, input@[index as int]);
            lemma_high_bit(byte);
        }
        if shift < 32 {
            result = result | ((byte & 0x7F) << shift);
            shift = shift + 7;
            proof {
                lemma_low_places();
                lemma_accumulate(gathered, byte, (shift - 7) as u32);
                lemma_payload_bound(input@.take(index + 1));
            }
        } else {
            proof {
                lemma_high_place(index as nat);
                lemma_high_group_vanishes(
                    payload_value(before),
                    (input@[index as int] % 128) as nat,
                    place(index as nat),
                );
            }
        }
        if byte & 0x80 == 0 {
            let rest = slice_subrange(input, index + 1, input.len());
            proof {
                assert(ends_at(input@, index as int));
                let n = choose|n: int| ends_at(input@, n);
                lemma_end_is_unique(input@, n, index as int);
            }
            return Ok((rest, result));
        }
        index = index + 1;
    }
    proof {
        assert forall|n: int| !ends_at(input@, n) by {
            if 0 <= n < input@.len() {
                assert(input@[n] >= 0x80);
            }
        }
    }
    Err(ReplayDataError::UnexpectedEndOfInput(Vec::new()))
}

} // verus!
