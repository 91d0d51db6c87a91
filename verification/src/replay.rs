//! The decoded record: the game mode, the header, and one action frame.

use crate::actions::{is_reader, parse_actions, reading, spec_actions};
use crate::errors::{ErrorKind, Failure, ReplayDataError};
use crate::parser::utf8_string;
use vstd::prelude::*;
use vstd::std_specs::convert::TryFromSpecImpl;
use vstd::utf8::{encode_utf8, valid_utf8};

verus! {

/// Game mode of the replay.
#[derive(Clone, Copy, Debug, PartialEq, Eq, Structural)]
pub enum GameMode {
    /// The default osu! game mode.
    Osu,
    /// The Taiko game mode.
    Taiko,
    /// The Catch the Beat game mode.
    CatchTheBeat,
    /// The Mania game mode.
    Mania,
}

impl View for GameMode {
    type V = GameMode;

    open spec fn view(&self) -> GameMode {
        *self
    }
}

impl GameMode {
    /// The mode that a byte of the format stands for, if any.
    pub open spec fn of_byte(value: u8) -> Option<GameMode> {
        if value == 0 {
            Some(GameMode::Osu)
        } else if value == 1 {
            Some(GameMode::Taiko)
        } else if value == 2 {
            Some(GameMode::CatchTheBeat)
        } else if value == 3 {
            Some(GameMode::Mania)
        } else {
            None
        }
    }
}

impl Default for GameMode {
    fn default() -> (r: GameMode)
        ensures
            r == GameMode::Osu,
    {
        GameMode::Osu
    }
}

impl TryFrom<u8> for GameMode {
    type Error = ReplayDataError;

    /// The mode for a byte of the format: 0 to 3 name the four modes in
    /// order, and every other value is refused. No mode stands in for an
    /// unknown value.
    fn try_from(value: u8) -> (r: Result<GameMode, ReplayDataError>)
        ensures
            match r {
                Ok(mode) => GameMode::of_byte(value) == Some(mode),
                Err(e) => GameMode::of_byte(value) is None && e@ == Failure::bare(
                    ErrorKind::InvalidEnumValue,
                ),
            },
    {
        match value {
            0 => Ok(GameMode::Osu),
            1 => Ok(GameMode::Taiko),
            2 => Ok(GameMode::CatchTheBeat),
            3 => Ok(GameMode::Mania),
            _ => Err(ReplayDataError::InvalidEnumValue(Vec::new())),
        }
    }
}

/// An error holds its trace in a vector, which no specification can build, so
/// the conversion is specified by the contract of `try_from` itself.
impl TryFromSpecImpl<u8> for GameMode {
    open spec fn obeys_try_from_spec() -> bool {
        false
    }

    open spec fn try_from_spec(value: u8) -> Result<GameMode, ReplayDataError> {
        arbitrary()
    }
}

/// Struct representing a single action in the replay. The library does no
/// floating-point arithmetic: the coordinate type `C` is the caller's, and so
/// is the function that reads a coordinate from its text.
#[derive(Debug, Default, PartialEq)]
pub struct ReplayData<C> {
    /// The time the action was performed, as written in the record.
    pub time: i64,
    /// The x-coordinate of the action.
    pub x: C,
    /// The y-coordinate of the action.
    pub y: C,
    /// The keys pressed during the action.
    pub keys: u32,
}

/// Struct representing a replay file.
///
/// Use [Self::parse] to parse a replay.
#[derive(Debug)]
pub struct Replay {
    /// The game mode of the replay.
    pub game_mode: GameMode,
    /// The used osu! version to create the replay.
    pub version: u32,
    /// The MD5 hash of the beatmap.
    pub beatmap_md5: String,
    /// The name of the player.
    pub player_name: String,
    /// The MD5 hash of the replay.
    pub replay_md5: String,
    /// Number of 300s
    pub n300: u16,
    /// Number of 100s in standard, 150s in Taiko, 100s in CTB, 100s in mania.
    pub n100: u16,
    /// Number of 50s in standard, small fruit in CTB, 50s in mania.
    pub n50: u16,
    /// Number of Gekis in standard, Max 300s in mania.
    pub n_geki: u16,
    /// Number of Katus in standard, 200s in mania.
    pub n_katu: u16,
    /// Number of misses.
    pub n_miss: u16,
    /// Total score displayed on the score report.
    pub total_score: u32,
    /// Greatest combo displayed on the score report.
    pub greatest_combo: u16,
    /// Perfect/full combo
    pub perfect: u8,
    /// Bitwise representation of the mods used.
    pub mods: u32,
    /// Life bar graph
    pub life_bar: String,
    /// Time of the replay (Windows ticks)
    pub time_stamp: i64,
    /// Compressed replay data
    pub compressed_data: Vec<u8>,
    /// Online score ID
    pub online_score_id: i64,
}

/// The mathematical content of a [`Replay`]: the same fields, with text as a
/// sequence of characters and the blob as a sequence of bytes.
pub struct Header {
    pub game_mode: GameMode,
    pub version: u32,
    pub beatmap_md5: Seq<char>,
    pub player_name: Seq<char>,
    pub replay_md5: Seq<char>,
    pub n300: u16,
    pub n100: u16,
    pub n50: u16,
    pub n_geki: u16,
    pub n_katu: u16,
    pub n_miss: u16,
    pub total_score: u32,
    pub greatest_combo: u16,
    pub perfect: u8,
    pub mods: u32,
    pub life_bar: Seq<char>,
    pub time_stamp: i64,
    pub compressed_data: Seq<u8>,
    pub online_score_id: i64,
}

impl View for Replay {
    type V = Header;

    open spec fn view(&self) -> Header {
        Header {
            game_mode: self.game_mode,
            version: self.version,
            beatmap_md5: self.beatmap_md5@,
            player_name: self.player_name@,
            replay_md5: self.replay_md5@,
            n300: self.n300,
            n100: self.n100,
            n50: self.n50,
            n_geki: self.n_geki,
            n_katu: self.n_katu,
            n_miss: self.n_miss,
            total_score: self.total_score,
            greatest_combo: self.greatest_combo,
            perfect: self.perfect,
            mods: self.mods,
            life_bar: self.life_bar@,
            time_stamp: self.time_stamp,
            compressed_data: self.compressed_data@,
            online_score_id: self.online_score_id,
        }
    }
}

impl Default for Replay {
    /// The empty record: mode `Osu`, every number zero, every text and the
    /// blob empty.
    fn default() -> (r: Replay)
        ensures
            r@ == (Header {
                game_mode: GameMode::Osu,
                version: 0,
                beatmap_md5: Seq::empty(),
                player_name: Seq::empty(),
                replay_md5: Seq::empty(),
                n300: 0,
                n100: 0,
                n50: 0,
                n_geki: 0,
                n_katu: 0,
                n_miss: 0,
                total_score: 0,
                greatest_combo: 0,
                perfect: 0,
                mods: 0,
                life_bar: Seq::empty(),
                time_stamp: 0,
                compressed_data: Seq::empty(),
                online_score_id: 0,
            }),
    {
        Replay {
            game_mode: GameMode::Osu,
            version: 0,
            beatmap_md5: String::new(),
            player_name: String::new(),
            replay_md5: String::new(),
            n300: 0,
            n100: 0,
            n50: 0,
            n_geki: 0,
            n_katu: 0,
            n_miss: 0,
            total_score: 0,
            greatest_combo: 0,
            perfect: 0,
            mods: 0,
            life_bar: String::new(),
            time_stamp: 0,
            compressed_data: Vec::new(),
            online_score_id: 0,
        }
    }
}

/// What LZMA decompression with default options makes of a compressed byte
/// sequence: the decompressed bytes, or nothing where the decoder refuses the
/// input.
pub uninterp spec fn lzma_decoded(data: Seq<u8>) -> Option<Seq<u8>>;

/// `lzma_rs::lzma_decompress` on a byte slice, into a fresh vector. The
/// outcome depends on the bytes alone; what it is for given bytes is not
/// stated here.
#[verifier::external_body]
fn lzma_decompress(data: &[u8]) -> (r: Result<Vec<u8>, lzma_rs::error::Error>)
    ensures
        r is Ok ==> lzma_decoded(data@) == Some(r.unwrap()@),
        r is Err ==> lzma_decoded(data@) is None,
{
    let mut input = data;
    let mut output = Vec::new();
    match lzma_rs::lzma_decompress(&mut input, &mut output) {
        Ok(()) => Ok(output),
        Err(e) => Err(e),
    }
}

/// The action text of a blob, as bytes: the blob decompressed, if that is
/// well-formed UTF-8.
pub open spec fn spec_action_text(blob: Seq<u8>) -> Result<Seq<u8>, Failure> {
    match lzma_decoded(blob) {
        None => Err(Failure::bare(ErrorKind::DecompressionError)),
        Some(data) => if valid_utf8(data) {
            Ok(data)
        } else {
            Err(Failure::bare(ErrorKind::InvalidUtf8))
        },
    }
}

/// The frames of a blob: those of its action text.
pub open spec fn spec_get_actions<C>(
    blob: Seq<u8>,
    coordinate: spec_fn(Seq<char>) -> Option<C>,
) -> Result<Seq<ReplayData<C>>, Failure> {
    match spec_action_text(blob) {
        Err(f) => Err(f),
        Ok(text) => spec_actions(text, coordinate),
    }
}

impl Replay {
    /// Decompresses the action blob and reads it as text. The record itself
    /// is only read.
    pub fn decompress_lzma(&self) -> (r: Result<String, ReplayDataError>)
        ensures
            match r {
                Ok(text) => spec_action_text(self@.compressed_data) == Ok::<Seq<u8>, Failure>(
                    encode_utf8(text@),
                ),
                Err(e) => spec_action_text(self@.compressed_data) == Err::<Seq<u8>, Failure>(e@),
            },
    {
        let decompressed_data = match lzma_decompress(self.compressed_data.as_slice()) {
            Ok(data) => data,
            Err(cause) => { return Err(ReplayDataError::DecompressionError(cause, Vec::new())); },
        };
        let text = utf8_string(decompressed_data.as_slice())?;
        Ok(text.to_owned())
    }

    /// Get a vector of [`ReplayData`] from the compressed replay data, in the
    /// order of the stream. `read` turns the text of an x or y sub-field into
    /// a coordinate, or refuses it.
    ///
    /// The record is only read: the call can be repeated, and gives the same
    /// again.
    pub fn get_actions<C, F: Fn(&str) -> Option<C>>(&self, read: F) -> (r: Result<
        Vec<ReplayData<C>>,
        ReplayDataError,
    >)
        requires
            is_reader(read),
        ensures
            match r {
                Ok(frames) => spec_get_actions(self@.compressed_data, reading(read)) == Ok::<
                    Seq<ReplayData<C>>,
                    Failure,
                >(frames@),
                Err(e) => spec_get_actions(self@.compressed_data, reading(read)) == Err::<
                    Seq<ReplayData<C>>,
                    Failure,
                >(e@),
            },
    {
        let decompressed_data = self.decompress_lzma()?;
        parse_actions(decompressed_data.as_str(), read)
    }
}

} // verus!
