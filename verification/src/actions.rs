//! The action stream as text: records that end in a comma, each made of four
//! sub-fields between bars: time, x, y and keys.

use crate::errors::{ErrorKind, Failure, ReplayDataError};
use crate::replay::ReplayData;
use crate::text::{
    after, first_index, lemma_first_index, lemma_pieces, lemma_terminated_pieces, parse_i64,
    parse_u32, pieces, spec_i64, spec_u32, split_once, terminated_pieces, FIELD_BAR, RECORD_END,
};
use vstd::prelude::*;
use vstd::string::StringSliceAdditionalSpecFns;
use vstd::utf8::{decode_utf8, encode_utf8_decode_utf8};

verus! {

/// `read` may answer `outcome` when asked for the coordinate that `text`
/// spells.
pub open spec fn reads<C, F: Fn(&str) -> Option<C>>(
    read: F,
    text: Seq<char>,
    outcome: Option<C>,
) -> bool {
    exists|s: &str| s@ == text && #[trigger] call_ensures(read, (s,), outcome)
}

/// `read` is a coordinate reader: it takes every text, and its answer
/// depends on the text alone.
pub open spec fn is_reader<C, F: Fn(&str) -> Option<C>>(read: F) -> bool {
    &&& forall|s: &str| call_requires(read, (s,))
    &&& forall|text: Seq<char>, a: Option<C>, b: Option<C>|
        reads(read, text, a) && reads(read, text, b) ==> a == b
}

/// The function from texts to coordinates that a reader computes.
pub open spec fn reading<C, F: Fn(&str) -> Option<C>>(read: F) -> spec_fn(Seq<char>) -> Option<
    C,
> {
    |text: Seq<char>| choose|outcome: Option<C>| reads(read, text, outcome)
}

/// One record, given what was found at each of its four sub-fields. Time is
/// always there; `None` says that it is no number. For x, y and keys `None`
/// says that the sub-field is missing, and `Some(None)` that it is there but
/// cannot be read. The sub-fields count in order: the first that is missing
/// or unreadable decides the failure.
pub open spec fn spec_frame_from<C>(
    time: Option<i64>,
    x: Option<Option<C>>,
    y: Option<Option<C>>,
    keys: Option<Option<u32>>,
) -> Result<ReplayData<C>, Failure> {
    match (time, x, y, keys) {
        (None, _, _, _) => Err(Failure::bare(ErrorKind::InvalidNumericLiteral)),
        (Some(_), None, _, _) => Err(Failure::bare(ErrorKind::MissingField)),
        (Some(_), Some(None), _, _) => Err(Failure::bare(ErrorKind::InvalidNumericLiteral)),
        (Some(_), Some(Some(_)), None, _) => Err(Failure::bare(ErrorKind::MissingField)),
        (Some(_), Some(Some(_)), Some(None), _) => Err(
            Failure::bare(ErrorKind::InvalidNumericLiteral),
        ),
        (Some(_), Some(Some(_)), Some(Some(_)), None) => Err(
            Failure::bare(ErrorKind::MissingField),
        ),
        (Some(_), Some(Some(_)), Some(Some(_)), Some(None)) => Err(
            Failure::bare(ErrorKind::InvalidNumericLiteral),
        ),
        (Some(time), Some(Some(x)), Some(Some(y)), Some(Some(keys))) => Ok(
            ReplayData { time, x, y, keys },
        ),
    }
}

/// What reading finds at the sub-field with the given index: nothing where
/// the record has no such sub-field.
pub open spec fn spec_field<T>(
    fields: Seq<Seq<u8>>,
    index: int,
    read: spec_fn(Seq<u8>) -> Option<T>,
) -> Option<Option<T>> {
    if 0 <= index < fields.len() {
        Some(read(fields[index]))
    } else {
        None
    }
}

/// One record, given its sub-fields: time as a signed 64-bit integer, x and y
/// as `coordinate` reads their text, keys as an unsigned 32-bit integer.
/// Sub-fields after the fourth are ignored.
pub open spec fn spec_frame<C>(
    fields: Seq<Seq<u8>>,
    coordinate: spec_fn(Seq<char>) -> Option<C>,
) -> Result<ReplayData<C>, Failure> {
    spec_frame_from(
        spec_i64(fields[0]),
        spec_field(fields, 1, |text: Seq<u8>| coordinate(decode_utf8(text))),
        spec_field(fields, 2, |text: Seq<u8>| coordinate(decode_utf8(text))),
        spec_field(fields, 3, |text: Seq<u8>| spec_u32(text)),
    )
}

/// The frames of a list of records, in the order of the records. The first
/// record that fails ends the decoding with its failure.
pub open spec fn spec_frames<C>(
    records: Seq<Seq<u8>>,
    coordinate: spec_fn(Seq<char>) -> Option<C>,
) -> Result<Seq<ReplayData<C>>, Failure>
    decreases records.len(),
{
    if records.len() == 0 {
        Ok(Seq::empty())
    } else {
        match spec_frame(pieces(records[0], FIELD_BAR), coordinate) {
            Err(f) => Err(f),
            Ok(frame) => match spec_frames(records.skip(1), coordinate) {
                Err(f) => Err(f),
                Ok(frames) => Ok(seq![frame] + frames),
            },
        }
    }
}

/// The frames of an action text: its records are the pieces that a comma
/// ends, so that nothing follows the last comma as a record of its own.
pub open spec fn spec_actions<C>(
    text: Seq<u8>,
    coordinate: spec_fn(Seq<char>) -> Option<C>,
) -> Result<Seq<ReplayData<C>>, Failure> {
    spec_frames(terminated_pieces(text, RECORD_END), coordinate)
}

/// A record with fewer than four sub-fields is no frame. Where the
/// sub-fields that it has can all be read, what fails it is the missing one.
pub proof fn lemma_short_record_fails<C>(
    fields: Seq<Seq<u8>>,
    coordinate: spec_fn(Seq<char>) -> Option<C>,
)
    requires
        1 <= fields.len() < 4,
    ensures
        spec_frame(fields, coordinate) is Err,
        spec_i64(fields[0]) is Some && (fields.len() >= 2 ==> coordinate(decode_utf8(fields[1]))
            is Some) && (fields.len() >= 3 ==> coordinate(decode_utf8(fields[2])) is Some)
            ==> spec_frame(fields, coordinate) == Err::<ReplayData<C>, Failure>(
            Failure::bare(ErrorKind::MissingField),
        ),
{
}

/// Frames keep the order of the records, and decoding stops at the first
/// record that fails. Where a list of records decodes, there is one frame
/// for each record, at the same index. Where it does not, the failure is that
/// of a record before which every record decodes.
pub proof fn lemma_frames_in_order<C>(
    records: Seq<Seq<u8>>,
    coordinate: spec_fn(Seq<char>) -> Option<C>,
)
    ensures
        match spec_frames(records, coordinate) {
            Ok(frames) => frames.len() == records.len() && forall|i: int|
                0 <= i < records.len() ==> spec_frame(
                    pieces(#[trigger] records[i], FIELD_BAR),
                    coordinate,
                ) == Ok::<ReplayData<C>, Failure>(frames[i]),
            Err(f) => exists|i: int|
                0 <= i < records.len() && spec_frame(
                    pieces(#[trigger] records[i], FIELD_BAR),
                    coordinate,
                ) == Err::<ReplayData<C>, Failure>(f) && forall|j: int|
                    0 <= j < i ==> spec_frame(pieces(#[trigger] records[j], FIELD_BAR), coordinate)
                        is Ok,
        },
    decreases records.len(),
{
    if records.len() > 0 {
        let others = records.skip(1);
        lemma_frames_in_order(others, coordinate);
        let first = spec_frame(pieces(records[0], FIELD_BAR), coordinate);
        assert forall|k: int| 0 <= k < others.len() implies others[k] == records[k + 1] by {}
        match first {
            Err(f) => {
                assert(spec_frame(pieces(records[0], FIELD_BAR), coordinate) == Err::<
                    ReplayData<C>,
                    Failure,
                >(f));
            },
            Ok(frame) => {
                match spec_frames(others, coordinate) {
                    Ok(frames) => {
                        let all = seq![frame] + frames;
                        assert forall|i: int| 0 <= i < records.len() implies spec_frame(
                            pieces(#[trigger] records[i], FIELD_BAR),
                            coordinate,
                        ) == Ok::<ReplayData<C>, Failure>(all[i]) by {
                            if i > 0 {
                                assert(others[i - 1] == records[i]);
                                assert(all[i] == frames[i - 1]);
                            }
                        }
                    },
                    Err(f) => {
                        let i = choose|i: int|
                            0 <= i < others.len() && spec_frame(
                                pieces(#[trigger] others[i], FIELD_BAR),
                                coordinate,
                            ) == Err::<ReplayData<C>, Failure>(f) && forall|j: int|
                                0 <= j < i ==> spec_frame(
                                    pieces(#[trigger] others[j], FIELD_BAR),
                                    coordinate,
                                ) is Ok;
                        assert(others[i] == records[i + 1]);
                        assert forall|j: int| 0 <= j < i + 1 implies spec_frame(
                            pieces(#[trigger] records[j], FIELD_BAR),
                            coordinate,
                        ) is Ok by {
                            if j > 0 {
                                assert(others[j - 1] == records[j]);
                            }
                        }
                        assert(spec_frame(pieces(records[i + 1], FIELD_BAR), coordinate) == Err::<
                            ReplayData<C>,
                            Failure,
                        >(f));
                    },
                }
            },
        }
    }
}

/// Asks the reader for a coordinate and says what the answer is in the model.
fn read_coordinate<C, F: Fn(&str) -> Option<C>>(read: &F, text: &str) -> (r: Option<C>)
    requires
        is_reader(*read),
    ensures
        r == reading(*read)(decode_utf8(text.spec_bytes())),
{
    let outcome = read(text);
    proof {
        encode_utf8_decode_utf8(text@);
        assert(call_ensures(*read, (text,), outcome));
        assert(reads(*read, text@, outcome));
        let chosen = choose|o: Option<C>| reads(*read, text@, o);
        assert(reads(*read, text@, chosen));
    }
    outcome
}

/// Makes a frame of what was found at the four sub-fields of a record. Time
/// is always there; `None` says that it is no number. For x, y and keys
/// `None` says that the sub-field is missing, and `Some(None)` that it is
/// there but cannot be read. The first sub-field that is missing or
/// unreadable decides the failure.
pub fn frame_from<C>(
    time: Option<i64>,
    x: Option<Option<C>>,
    y: Option<Option<C>>,
    keys: Option<Option<u32>>,
) -> (r: Result<ReplayData<C>, ReplayDataError>)
    ensures
        match r {
            Ok(frame) => spec_frame_from(time, x, y, keys) == Ok::<ReplayData<C>, Failure>(frame),
            Err(e) => spec_frame_from(time, x, y, keys) == Err::<ReplayData<C>, Failure>(e@),
        },
{
    let time = match time {
        Some(time) => time,
        None => { return Err(ReplayDataError::InvalidNumericLiteral(Vec::new())); },
    };
    let x = match x {
        Some(Some(x)) => x,
        Some(None) => { return Err(ReplayDataError::InvalidNumericLiteral(Vec::new())); },
        None => { return Err(ReplayDataError::MissingField(Vec::new())); },
    };
    let y = match y {
        Some(Some(y)) => y,
        Some(None) => { return Err(ReplayDataError::InvalidNumericLiteral(Vec::new())); },
        None => { return Err(ReplayDataError::MissingField(Vec::new())); },
    };
    let keys = match keys {
        Some(Some(keys)) => keys,
        Some(None) => { return Err(ReplayDataError::InvalidNumericLiteral(Vec::new())); },
        None => { return Err(ReplayDataError::MissingField(Vec::new())); },
    };
    Ok(ReplayData { time, x, y, keys })
}

/// Decodes one record of the action text: cuts it at the bars, reads each of
/// the first four sub-fields that it has, and makes a frame of what was
/// found.
pub fn decode_frame<C, F: Fn(&str) -> Option<C>>(record: &str, read: &F) -> (r: Result<
    ReplayData<C>,
    ReplayDataError,
>)
    requires
        is_reader(*read),
    ensures
        match r {
            Ok(frame) => spec_frame(pieces(record.spec_bytes(), FIELD_BAR), reading(*read)) == Ok::<
                ReplayData<C>,
                Failure,
            >(frame),
            Err(e) => spec_frame(pieces(record.spec_bytes(), FIELD_BAR), reading(*read)) == Err::<
                ReplayData<C>,
                Failure,
            >(e@),
        },
{
    let ghost fields = pieces(record.spec_bytes(), FIELD_BAR);
    proof {
        lemma_pieces(record.spec_bytes(), FIELD_BAR);
    }
    let (time_text, rest) = split_once(record, FIELD_BAR);
    let time = parse_i64(time_text);
    let ghost from_x = fields.skip(1);
    let (x, rest) = match rest {
        None => (None, None),
        Some(rest) => {
            proof {
                lemma_pieces(rest.spec_bytes(), FIELD_BAR);
                assert(fields[1] == from_x[0]);
            }
            let (x_text, rest) = split_once(rest, FIELD_BAR);
            (Some(read_coordinate(read, x_text)), rest)
        },
    };
    let ghost from_y = from_x.skip(1);
    let (y, rest) = match rest {
        None => (None, None),
        Some(rest) => {
            proof {
                lemma_pieces(rest.spec_bytes(), FIELD_BAR);
                assert(fields[2] == from_y[0]);
            }
            let (y_text, rest) = split_once(rest, FIELD_BAR);
            (Some(read_coordinate(read, y_text)), rest)
        },
    };
    let ghost from_keys = from_y.skip(1);
    let keys = match rest {
        None => None,
        Some(rest) => {
            proof {
                lemma_pieces(rest.spec_bytes(), FIELD_BAR);
                assert(fields[3] == from_keys[0]);
            }
            let (keys_text, _) = split_once(rest, FIELD_BAR);
            Some(parse_u32(keys_text))
        },
    };
    frame_from(time, x, y, keys)
}

/// Decodes an action text into its frames, in the order of the text.
/// Coordinates are read by `read`. It is asked for the x and the y of every
/// record up to the first that fails, where the record has them.
pub fn parse_actions<C, F: Fn(&str) -> Option<C>>(text: &str, read: F) -> (r: Result<
    Vec<ReplayData<C>>,
    ReplayDataError,
>)
    requires
        is_reader(read),
    ensures
        match r {
            Ok(frames) => spec_actions(text.spec_bytes(), reading(read)) == Ok::<
                Seq<ReplayData<C>>,
                Failure,
            >(frames@),
            Err(e) => spec_actions(text.spec_bytes(), reading(read)) == Err::<
                Seq<ReplayData<C>>,
                Failure,
            >(e@),
        },
{
    let mut frames: Vec<ReplayData<C>> = Vec::new();
    let mut rest: &str = text;
    while rest.as_bytes().len() > 0
        invariant
            is_reader(read),
            spec_actions(text.spec_bytes(), reading(read)) == match spec_actions(
                rest.spec_bytes(),
                reading(read),
            ) {
                Err(f) => Err::<Seq<ReplayData<C>>, Failure>(f),
                Ok(tail) => Ok(frames@ + tail),
            },
        decreases rest.spec_bytes().len(),
    {
        let ghost records = terminated_pieces(rest.spec_bytes(), RECORD_END);
        let ghost done = frames@;
        let (record, following) = split_once(rest, RECORD_END);
        proof {
            lemma_first_index(rest.spec_bytes(), RECORD_END);
            lemma_terminated_pieces(rest.spec_bytes(), RECORD_END);
            assert(records[0] == record.spec_bytes());
            assert(records.skip(1) =~= terminated_pieces(
                after(rest.spec_bytes(), first_index(rest.spec_bytes(), RECORD_END)),
                RECORD_END,
            ));
        }
        let frame = decode_frame(record, &read)?;
        frames.push(frame);
        proof {
            let tail = spec_frames(records.skip(1), reading(read));
            if tail is Ok {
                assert(done + (seq![frame] + tail->Ok_0) =~= frames@ + tail->Ok_0);
            }
        }
        match following {
            Some(following) => {
                rest = following;
            },
            None => {
                proof {
                    lemma_terminated_pieces(Seq::<u8>::empty(), RECORD_END);
                    assert(frames@ + Seq::<ReplayData<C>>::empty() =~= frames@);
                }
                return Ok(frames);
            },
        }
    }
    proof {
        lemma_terminated_pieces(rest.spec_bytes(), RECORD_END);
        assert(frames@ + Seq::<ReplayData<C>>::empty() =~= frames@);
    }
    Ok(frames)
}

} // verus!
