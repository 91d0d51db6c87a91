//! The header decoder: the conditional string, the game mode, and the fixed
//! sequence of fields that make up a replay header.

use crate::cursor::{
    byte, integer, lemma_byte_truncates, lemma_integer_truncates, lemma_long_truncates,
    lemma_short_truncates, lemma_take_truncates, long, realizes, short, shrinks, spec_byte,
    spec_integer, spec_long, spec_short, spec_take, take, truncates, Decoded,
};
use crate::errors::{context, ErrorKind, Failure, ReplayDataError};
use crate::replay::{GameMode, Header, Replay};
use crate::uleb128::{
    ends_at, lemma_uleb128_decodes_encoding, lemma_uleb128_truncates, payload_value, spec_uleb128,
    uleb128,
};
use vstd::prelude::*;
use vstd::slice::slice_to_vec;
use vstd::string::StringSliceAdditionalSpecFns;
use vstd::utf8::{decode_utf8, encode_utf8_decode_utf8, valid_utf8};

verus! {

// The labels of the decode steps, as they appear in the trace of a failure.

/// The length of a string.
pub const STEP_STRING_LENGTH: &'static str = "Error parsing ULEB128 for String length";

/// The bytes of a string.
pub const STEP_STRING_BYTES: &'static str = "Expected more bytes for string";

/// The game mode.
pub const STEP_GAME_MODE: &'static str = "Error parsing game mode";

/// The version of the client.
pub const STEP_VERSION: &'static str = "Error parsing game version";

/// The beatmap hash.
pub const STEP_BEATMAP_MD5: &'static str = "Error parsing beatmap MD5";

/// The player name.
pub const STEP_PLAYER_NAME: &'static str = "Error parsing player name";

/// The replay hash.
pub const STEP_REPLAY_MD5: &'static str = "Error parsing replay MD5";

/// The count of 300s.
pub const STEP_N300: &'static str = "Error parsing 300s count";

/// The count of 100s.
pub const STEP_N100: &'static str = "Error parsing 100s count";

/// The count of 50s.
pub const STEP_N50: &'static str = "Error parsing 50s count";

/// The count of gekis.
pub const STEP_N_GEKI: &'static str = "Error parsing gekis count";

/// The count of katus.
pub const STEP_N_KATU: &'static str = "Error parsing katus count";

/// The count of misses.
pub const STEP_N_MISS: &'static str = "Error parsing misses count";

/// The total score.
pub const STEP_TOTAL_SCORE: &'static str = "Error parsing total score";

/// The greatest combo.
pub const STEP_GREATEST_COMBO: &'static str = "Error parsing greatest combo";

/// The perfect flag.
pub const STEP_PERFECT: &'static str = "Error parsing perfect";

/// The modifier mask.
pub const STEP_MODS: &'static str = "Error parsing mods";

/// The life graph.
pub const STEP_LIFE_BAR: &'static str = "Error parsing life bar";

/// The time stamp.
pub const STEP_TIME_STAMP: &'static str = "Error parsing time stamp";

/// The length of the action blob.
pub const STEP_COMPRESSED_LENGTH: &'static str = "Error parsing compressed length";

/// The action blob.
pub const STEP_COMPRESSED_DATA: &'static str = "Error parsing compressed data";

/// The online score id.
pub const STEP_ONLINE_SCORE_ID: &'static str = "Error parsing online score ID";

/// The header as a whole.
pub const STEP_REPLAY_FILE: &'static str = "Error parsing replay file";

/// A step seen from outside: its failure gains the step's label.
pub open spec fn labelled<T>(label: &'static str, decoded: Decoded<T>) -> Decoded<T> {
    match decoded {
        Ok(found) => Ok(found),
        Err(f) => Err(f.within(label)),
    }
}

/// A string with a presence flag. A flag of zero stands for the empty string
/// and nothing more is read. Any other flag is followed by a ULEB128 length
/// and that many bytes of UTF-8.
pub open spec fn spec_osr_string(input: Seq<u8>) -> Decoded<Seq<char>> {
    match spec_byte(input) {
        Err(f) => Err(f),
        Ok((input, is_present)) => if is_present == 0 {
            Ok((input, Seq::empty()))
        } else {
            match labelled(STEP_STRING_LENGTH, spec_uleb128(input)) {
                Err(f) => Err(f),
                Ok((input, length)) => match labelled(
                    STEP_STRING_BYTES,
                    spec_take(input, length as nat),
                ) {
                    Err(f) => Err(f),
                    Ok((input, value)) => if valid_utf8(value) {
                        Ok((input, decode_utf8(value)))
                    } else {
                        Err(Failure::bare(ErrorKind::InvalidUtf8))
                    },
                },
            }
        },
    }
}

/// The game mode: one byte that names a known mode.
pub open spec fn spec_game_mode(input: Seq<u8>) -> Decoded<GameMode> {
    match spec_byte(input) {
        Err(f) => Err(f),
        Ok((input, value)) => match GameMode::of_byte(value) {
            Some(mode) => Ok((input, mode)),
            None => Err(Failure::bare(ErrorKind::InvalidEnumValue)),
        },
    }
}

/// Which game, which client and whose play: the game mode, the version of the
/// client, the beatmap hash, the player name and the replay hash.
#[verifier::opaque]
pub open spec fn spec_identity(input: Seq<u8>) -> Decoded<
    (GameMode, u32, Seq<char>, Seq<char>, Seq<char>),
> {
    match labelled(STEP_GAME_MODE, spec_game_mode(input)) {
        Err(f) => Err(f),
        Ok((input, game_mode)) => match labelled(STEP_VERSION, spec_integer(input)) {
            Err(f) => Err(f),
            Ok((input, version)) => match labelled(
                STEP_BEATMAP_MD5,
                spec_osr_string(input),
            ) {
                Err(f) => Err(f),
                Ok((input, beatmap_md5)) => match labelled(
                    STEP_PLAYER_NAME,
                    spec_osr_string(input),
                ) {
                    Err(f) => Err(f),
                    Ok((input, player_name)) => match labelled(
                        STEP_REPLAY_MD5,
                        spec_osr_string(input),
                    ) {
                        Err(f) => Err(f),
                        Ok((input, replay_md5)) => Ok(
                            (input, (game_mode, version, beatmap_md5, player_name, replay_md5)),
                        ),
                    },
                },
            },
        },
    }
}

/// The six counters of hit judgements.
#[verifier::opaque]
pub open spec fn spec_judgements(input: Seq<u8>) -> Decoded<(u16, u16, u16, u16, u16, u16)> {
    match labelled(STEP_N300, spec_short(input)) {
        Err(f) => Err(f),
        Ok((input, n300)) => match labelled(STEP_N100, spec_short(input)) {
            Err(f) => Err(f),
            Ok((input, n100)) => match labelled(STEP_N50, spec_short(input)) {
                Err(f) => Err(f),
                Ok((input, n50)) => match labelled(STEP_N_GEKI, spec_short(input)) {
                    Err(f) => Err(f),
                    Ok((input, n_geki)) => match labelled(STEP_N_KATU, spec_short(input)) {
                        Err(f) => Err(f),
                        Ok((input, n_katu)) => match labelled(STEP_N_MISS, spec_short(input)) {
                            Err(f) => Err(f),
                            Ok((input, n_miss)) => Ok(
                                (input, (n300, n100, n50, n_geki, n_katu, n_miss)),
                            ),
                        },
                    },
                },
            },
        },
    }
}

/// How the play went: the score, the greatest combo, the perfect flag, the
/// modifier mask and the life graph.
#[verifier::opaque]
pub open spec fn spec_outcome(input: Seq<u8>) -> Decoded<(u32, u16, u8, u32, Seq<char>)> {
    match labelled(STEP_TOTAL_SCORE, spec_integer(input)) {
        Err(f) => Err(f),
        Ok((input, total_score)) => match labelled(STEP_GREATEST_COMBO, spec_short(input)) {
            Err(f) => Err(f),
            Ok((input, greatest_combo)) => match labelled(STEP_PERFECT, spec_byte(input)) {
                Err(f) => Err(f),
                Ok((input, perfect)) => match labelled(STEP_MODS, spec_integer(input)) {
                    Err(f) => Err(f),
                    Ok((input, mods)) => match labelled(
                        STEP_LIFE_BAR,
                        spec_osr_string(input),
                    ) {
                        Err(f) => Err(f),
                        Ok((input, life_bar)) => Ok(
                            (input, (total_score, greatest_combo, perfect, mods, life_bar)),
                        ),
                    },
                },
            },
        },
    }
}

/// The time stamp, the compressed action blob behind its length, and the
/// online score id. The blob is exactly as long as the length says.
#[verifier::opaque]
pub open spec fn spec_stream(input: Seq<u8>) -> Decoded<(i64, Seq<u8>, i64)> {
    match labelled(STEP_TIME_STAMP, spec_long(input)) {
        Err(f) => Err(f),
        Ok((input, time_stamp)) => match labelled(STEP_COMPRESSED_LENGTH, spec_integer(input)) {
            Err(f) => Err(f),
            Ok((input, length)) => match labelled(
                STEP_COMPRESSED_DATA,
                spec_take(input, length as nat),
            ) {
                Err(f) => Err(f),
                Ok((input, compressed_data)) => match labelled(
                    STEP_ONLINE_SCORE_ID,
                    spec_long(input),
                ) {
                    Err(f) => Err(f),
                    Ok((input, online_score_id)) => Ok(
                        (input, (time_stamp, compressed_data, online_score_id)),
                    ),
                },
            },
        },
    }
}

/// The header: four sections in a fixed order, twenty steps in all, each on
/// what the step before left over. The first step that fails ends the
/// decoding, and its failure carries the label of that step. What is left
/// after the last step is handed back untouched.
pub open spec fn spec_replay(input: Seq<u8>) -> Decoded<Header> {
    match spec_identity(input) {
        Err(f) => Err(f),
        Ok((input, identity)) => match spec_judgements(input) {
            Err(f) => Err(f),
            Ok((input, judgements)) => match spec_outcome(input) {
                Err(f) => Err(f),
                Ok((input, outcome)) => match spec_stream(input) {
                    Err(f) => Err(f),
                    Ok((input, stream)) => Ok(
                        (
                            input,
                            Header {
                                game_mode: identity.0,
                                version: identity.1,
                                beatmap_md5: identity.2,
                                player_name: identity.3,
                                replay_md5: identity.4,
                                n300: judgements.0,
                                n100: judgements.1,
                                n50: judgements.2,
                                n_geki: judgements.3,
                                n_katu: judgements.4,
                                n_miss: judgements.5,
                                total_score: outcome.0,
                                greatest_combo: outcome.1,
                                perfect: outcome.2,
                                mods: outcome.3,
                                life_bar: outcome.4,
                                time_stamp: stream.0,
                                compressed_data: stream.1,
                                online_score_id: stream.2,
                            },
                        ),
                    ),
                },
            },
        },
    }
}

/// A whole buffer as a header: the decoding of `spec_replay` under the
/// label of the file, without the bytes left over.
pub open spec fn spec_parse(input: Seq<u8>) -> Result<Header, Failure> {
    match labelled(STEP_REPLAY_FILE, spec_replay(input)) {
        Ok((_, header)) => Ok(header),
        Err(f) => Err(f),
    }
}

/// A presence flag of zero is the whole string: the text is empty and the
/// input moves on by exactly one byte, whatever follows.
pub proof fn lemma_absent_string(input: Seq<u8>)
    requires
        input.len() >= 1,
        input[0] == 0,
    ensures
        spec_osr_string(input) == Ok::<(Seq<u8>, Seq<char>), Failure>(
            (input.skip(1), Seq::empty()),
        ),
{
    assert(input.take(1)[0] == input[0]);
}

/// A string that is present decodes to its text. With any flag but zero,
/// then an encoding of the payload's length, then a payload of well-formed
/// UTF-8, the decoder gives the text that the payload spells and leaves
/// exactly what follows: it has moved on by one byte, the bytes of the
/// length, and the payload.
pub proof fn lemma_present_string(
    flag: u8,
    length: Seq<u8>,
    payload: Seq<u8>,
    following: Seq<u8>,
)
    requires
        flag != 0,
        ends_at(length, length.len() - 1),
        payload_value(length) == payload.len(),
        payload.len() < 0x1_0000_0000,
        valid_utf8(payload),
    ensures
        spec_osr_string(seq![flag] + length + payload + following) == Ok::<
            (Seq<u8>, Seq<char>),
            Failure,
        >((following, decode_utf8(payload))),
        (seq![flag] + length + payload + following).len() - following.len() == 1 + length.len()
            + payload.len(),
{
    let input = seq![flag] + length + payload + following;
    assert(input.take(1)[0] == flag);
    assert(input.skip(1) =~= length + (payload + following));
    lemma_uleb128_decodes_encoding(length, payload + following);
    assert((payload + following).take(payload.len() as int) =~= payload);
    assert((payload + following).skip(payload.len() as int) =~= following);
}

/// `spec_game_mode` on a shortened input.
pub proof fn lemma_game_mode_truncates(input: Seq<u8>, dropped: int)
    ensures
        shrinks(input, spec_game_mode(input)),
        0 <= dropped <= input.len() ==> truncates(
            spec_game_mode(input),
            spec_game_mode(input.take(input.len() - dropped)),
            dropped,
        ),
{
    lemma_byte_truncates(input, dropped);
}

/// `spec_osr_string` on a shortened input.
pub proof fn lemma_osr_string_truncates(input: Seq<u8>, dropped: int)
    ensures
        shrinks(input, spec_osr_string(input)),
        0 <= dropped <= input.len() ==> truncates(
            spec_osr_string(input),
            spec_osr_string(input.take(input.len() - dropped)),
            dropped,
        ),
{
    lemma_byte_truncates(input, dropped);
    let after_flag = spec_byte(input)->Ok_0.0;
    lemma_uleb128_truncates(after_flag, dropped);
    let after_length = spec_uleb128(after_flag)->Ok_0.0;
    let length = spec_uleb128(after_flag)->Ok_0.1 as nat;
    lemma_take_truncates(after_length, length, dropped);
}

/// `spec_identity` on a shortened input.
pub proof fn lemma_identity_truncates(input: Seq<u8>, dropped: int)
    ensures
        shrinks(input, spec_identity(input)),
        0 <= dropped <= input.len() ==> truncates(
            spec_identity(input),
            spec_identity(input.take(input.len() - dropped)),
            dropped,
        ),
{
    reveal(spec_identity);
    lemma_game_mode_truncates(input, dropped);
    let after_game_mode = spec_game_mode(input)->Ok_0.0;
    lemma_integer_truncates(after_game_mode, dropped);
    let after_version = spec_integer(after_game_mode)->Ok_0.0;
    lemma_osr_string_truncates(after_version, dropped);
    let after_beatmap_md5 = spec_osr_string(after_version)->Ok_0.0;
    lemma_osr_string_truncates(after_beatmap_md5, dropped);
    let after_player_name = spec_osr_string(after_beatmap_md5)->Ok_0.0;
    lemma_osr_string_truncates(after_player_name, dropped);
}

/// `spec_judgements` on a shortened input.
pub proof fn lemma_judgements_truncates(input: Seq<u8>, dropped: int)
    ensures
        shrinks(input, spec_judgements(input)),
        0 <= dropped <= input.len() ==> truncates(
            spec_judgements(input),
            spec_judgements(input.take(input.len() - dropped)),
            dropped,
        ),
{
    reveal(spec_judgements);
    lemma_short_truncates(input, dropped);
    let after_n300 = spec_short(input)->Ok_0.0;
    lemma_short_truncates(after_n300, dropped);
    let after_n100 = spec_short(after_n300)->Ok_0.0;
    lemma_short_truncates(after_n100, dropped);
    let after_n50 = spec_short(after_n100)->Ok_0.0;
    lemma_short_truncates(after_n50, dropped);
    let after_n_geki = spec_short(after_n50)->Ok_0.0;
    lemma_short_truncates(after_n_geki, dropped);
    let after_n_katu = spec_short(after_n_geki)->Ok_0.0;
    lemma_short_truncates(after_n_katu, dropped);
}

/// `spec_outcome` on a shortened input.
pub proof fn lemma_outcome_truncates(input: Seq<u8>, dropped: int)
    ensures
        shrinks(input, spec_outcome(input)),
        0 <= dropped <= input.len() ==> truncates(
            spec_outcome(input),
            spec_outcome(input.take(input.len() - dropped)),
            dropped,
        ),
{
    reveal(spec_outcome);
    lemma_integer_truncates(input, dropped);
    let after_total_score = spec_integer(input)->Ok_0.0;
    lemma_short_truncates(after_total_score, dropped);
    let after_greatest_combo = spec_short(after_total_score)->Ok_0.0;
    lemma_byte_truncates(after_greatest_combo, dropped);
    let after_perfect = spec_byte(after_greatest_combo)->Ok_0.0;
    lemma_integer_truncates(after_perfect, dropped);
    let after_mods = spec_integer(after_perfect)->Ok_0.0;
    lemma_osr_string_truncates(after_mods, dropped);
}

/// `spec_stream` on a shortened input. Where only the last field, the online
/// score id, has lost bytes, the failure is that of this field.
pub proof fn lemma_stream_truncates(input: Seq<u8>, dropped: int)
    ensures
        shrinks(input, spec_stream(input)),
        spec_stream(input) is Ok ==> spec_stream(input)->Ok_0.0.len() + 8 <= input.len(),
        0 <= dropped <= input.len() ==> truncates(
            spec_stream(input),
            spec_stream(input.take(input.len() - dropped)),
            dropped,
        ),
        0 <= dropped <= input.len() && spec_stream(input) is Ok && spec_stream(input)->Ok_0.0.len()
            < dropped <= spec_stream(input)->Ok_0.0.len() + 8 ==> spec_stream(
            input.take(input.len() - dropped),
        ) == Err::<(Seq<u8>, (i64, Seq<u8>, i64)), Failure>(
            Failure::bare(ErrorKind::UnexpectedEndOfInput).within(STEP_ONLINE_SCORE_ID),
        ),
{
    reveal(spec_stream);
    lemma_long_truncates(input, dropped);
    let after_time_stamp = spec_long(input)->Ok_0.0;
    lemma_integer_truncates(after_time_stamp, dropped);
    let after_compressed_length = spec_integer(after_time_stamp)->Ok_0.0;
    let length = spec_integer(after_time_stamp)->Ok_0.1 as nat;
    lemma_take_truncates(after_compressed_length, length, dropped);
    let after_compressed_data = spec_take(after_compressed_length, length)->Ok_0.0;
    lemma_long_truncates(after_compressed_data, dropped);
}

/// `spec_replay` on a shortened input. Where only the last field, the online
/// score id, has lost bytes, the failure is that of this field.
pub proof fn lemma_replay_truncates(input: Seq<u8>, dropped: int)
    ensures
        shrinks(input, spec_replay(input)),
        0 <= dropped <= input.len() ==> truncates(
            spec_replay(input),
            spec_replay(input.take(input.len() - dropped)),
            dropped,
        ),
        0 <= dropped <= input.len() && spec_replay(input) is Ok && spec_replay(input)->Ok_0.0.len()
            < dropped <= spec_replay(input)->Ok_0.0.len() + 8 ==> spec_replay(
            input.take(input.len() - dropped),
        ) == Err::<(Seq<u8>, Header), Failure>(
            Failure::bare(ErrorKind::UnexpectedEndOfInput).within(STEP_ONLINE_SCORE_ID),
        ),
{
    lemma_identity_truncates(input, dropped);
    let after_identity = spec_identity(input)->Ok_0.0;
    lemma_judgements_truncates(after_identity, dropped);
    let after_judgements = spec_judgements(after_identity)->Ok_0.0;
    lemma_outcome_truncates(after_judgements, dropped);
    let after_outcome = spec_outcome(after_judgements)->Ok_0.0;
    lemma_stream_truncates(after_outcome, dropped);
}

/// A header that has lost bytes does not decode. Where a buffer decodes and
/// is then cut anywhere inside the bytes that the header took, be it only the
/// last byte of the last field, the decoding of what is left fails, and
/// fails for want of bytes: no field is ever made up.
pub proof fn lemma_truncated_header_fails(input: Seq<u8>, dropped: int)
    requires
        spec_replay(input) is Ok,
        spec_replay(input)->Ok_0.0.len() < dropped <= input.len(),
    ensures
        spec_parse(input.take(input.len() - dropped)) is Err,
        spec_parse(input.take(input.len() - dropped))->Err_0.kind
            == ErrorKind::UnexpectedEndOfInput,
{
    lemma_replay_truncates(input, dropped);
}

/// A header cut short before or inside its last field, the online score id,
/// fails at that field for want of bytes: the trace names the field, then the
/// file.
pub proof fn lemma_missing_online_score_id(input: Seq<u8>, dropped: int)
    requires
        spec_replay(input) is Ok,
        spec_replay(input)->Ok_0.0.len() < dropped <= spec_replay(input)->Ok_0.0.len() + 8,
        dropped <= input.len(),
    ensures
        spec_parse(input.take(input.len() - dropped)) == Err::<Header, Failure>(
            Failure::bare(ErrorKind::UnexpectedEndOfInput).within(STEP_ONLINE_SCORE_ID).within(
                STEP_REPLAY_FILE,
            ),
        ),
{
    lemma_replay_truncates(input, dropped);
}

/// `core::str::from_utf8`: succeeds exactly on well-formed UTF-8, and the
/// text it gives is made of the very bytes it was given.
#[verifier::external_body]
fn str_from_utf8<'a>(input: &'a [u8]) -> (r: Option<&'a str>)
    ensures
        r is Some <==> valid_utf8(input@),
        r is Some ==> r.unwrap().spec_bytes() == input@,
{
    core::str::from_utf8(input).ok()
}

/// Reads bytes as UTF-8 text: the text that well-formed bytes spell, made of
/// those very bytes, and `InvalidUtf8` for any other bytes.
pub fn utf8_string<'a>(input: &'a [u8]) -> (r: Result<&'a str, ReplayDataError>)
    ensures
        r is Ok <==> valid_utf8(input@),
        r matches Ok(text) ==> text@ == decode_utf8(input@) && text.spec_bytes() == input@,
        r matches Err(e) ==> e@ == Failure::bare(ErrorKind::InvalidUtf8),
{
    match str_from_utf8(input) {
        Some(text) => {
            proof {
                encode_utf8_decode_utf8(text@);
            }
            Ok(text)
        },
        None => Err(ReplayDataError::InvalidUtf8(Vec::new())),
    }
}

/// Decodes a string with a presence flag.
pub fn osr_string<'a>(input: &'a [u8]) -> (r: Result<(&'a [u8], &'a str), ReplayDataError>)
    ensures
        realizes(r, spec_osr_string(input@)),
{
    let (input, is_present) = byte(input)?;
    if is_present == 0x00 {
        proof {
            reveal_strlit("");
            assert(""@ =~= Seq::<char>::empty());
        }
        return Ok((input, ""));
    }
    let (input, length) = context(STEP_STRING_LENGTH, uleb128(input))?;
    let (input, value) = context(STEP_STRING_BYTES, take(length, input))?;
    let string = utf8_string(value)?;
    Ok((input, string))
}

/// Decodes the game mode.
pub fn game_mode<'a>(input: &'a [u8]) -> (r: Result<(&'a [u8], GameMode), ReplayDataError>)
    ensures
        realizes(r, spec_game_mode(input@)),
{
    let (input, game_mode_int) = byte(input)?;
    let game_mode = GameMode::try_from(game_mode_int)?;
    Ok((input, game_mode))
}

/// Decodes a header and hands back the bytes that follow it.
pub fn replay_parser<'a>(input: &'a [u8]) -> (r: Result<(&'a [u8], Replay), ReplayDataError>)
    ensures
        realizes(r, spec_replay(input@)),
{
    proof {
        reveal(spec_identity);
        reveal(spec_judgements);
        reveal(spec_outcome);
        reveal(spec_stream);
    }
    let (input, game_mode) = context(STEP_GAME_MODE, game_mode(input))?;
    let (input, version) = context(STEP_VERSION, integer(input))?;
    let (input, beatmap_md5) = context(STEP_BEATMAP_MD5, osr_string(input))?;
    let (input, player_name) = context(STEP_PLAYER_NAME, osr_string(input))?;
    let (input, replay_md5) = context(STEP_REPLAY_MD5, osr_string(input))?;
    let (input, n300) = context(STEP_N300, short(input))?;
    let (input, n100) = context(STEP_N100, short(input))?;
    let (input, n50) = context(STEP_N50, short(input))?;
    let (input, n_geki) = context(STEP_N_GEKI, short(input))?;
    let (input, n_katu) = context(STEP_N_KATU, short(input))?;
    let (input, n_miss) = context(STEP_N_MISS, short(input))?;
    let (input, total_score) = context(STEP_TOTAL_SCORE, integer(input))?;
    let (input, greatest_combo) = context(STEP_GREATEST_COMBO, short(input))?;
    let (input, perfect) = context(STEP_PERFECT, byte(input))?;
    let (input, mods) = context(STEP_MODS, integer(input))?;
    let (input, life_bar) = context(STEP_LIFE_BAR, osr_string(input))?;
    let (input, time_stamp) = context(STEP_TIME_STAMP, long(input))?;
    let (input, compressed_length) = context(STEP_COMPRESSED_LENGTH, integer(input))?;
    let (input, compressed_data) = context(
        STEP_COMPRESSED_DATA,
        take(compressed_length, input),
    )?;
    let (input, online_score_id) = context(STEP_ONLINE_SCORE_ID, long(input))?;

    let replay = Replay {
        game_mode,
        version,
        beatmap_md5: beatmap_md5.to_owned(),
        player_name: player_name.to_owned(),
        replay_md5: replay_md5.to_owned(),
        n300,
        n100,
        n50,
        n_geki,
        n_katu,
        n_miss,
        total_score,
        greatest_combo,
        perfect,
        mods,
        life_bar: life_bar.to_owned(),
        time_stamp,
        compressed_data: slice_to_vec(compressed_data),
        online_score_id,
    };

    Ok((input, replay))
}

impl Replay {
    /// Parse an osu! replay file into a `Replay` struct. Bytes that follow
    /// the header are ignored.
    ///
    /// # Errors
    /// Returns the failure of the first step that could not be decoded, with
    /// the label of that step and of the file in its trace.
    pub fn parse(input: &[u8]) -> (r: Result<Replay, ReplayDataError>)
        ensures
            match r {
                Ok(replay) => spec_parse(input@) == Ok::<Header, Failure>(replay@),
                Err(e) => spec_parse(input@) == Err::<Header, Failure>(e@),
            },
    {
        let (_, replay) = context(STEP_REPLAY_FILE, replay_parser(input))?;

        Ok(replay)
    }
}

} // verus!
