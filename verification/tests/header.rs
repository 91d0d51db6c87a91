use osu_replay_parser::parser::replay_parser;
use osu_replay_parser::{ErrorKind, GameMode, Replay, ReplayData};

fn string(text: &str) -> Vec<u8> {
    let mut bytes = vec![0x0Bu8];
    let mut length = text.len();
    loop {
        let group = (length & 0x7F) as u8;
        length >>= 7;
        if length == 0 {
            bytes.push(group);
            break;
        }
        bytes.push(group | 0x80);
    }
    bytes.extend_from_slice(text.as_bytes());
    bytes
}

fn compress(text: &[u8]) -> Vec<u8> {
    let mut input = text;
    let mut output = Vec::new();
    lzma_rs::lzma_compress(&mut input, &mut output).unwrap();
    output
}

fn empty_header(blob: &[u8]) -> Vec<u8> {
    let mut bytes = vec![0u8];
    bytes.extend_from_slice(&20200101u32.to_le_bytes());
    bytes.extend_from_slice(&[0, 0, 0]);
    bytes.extend_from_slice(&[0u8; 12]);
    bytes.extend_from_slice(&0u32.to_le_bytes());
    bytes.extend_from_slice(&0u16.to_le_bytes());
    bytes.push(0);
    bytes.extend_from_slice(&0u32.to_le_bytes());
    bytes.push(0);
    bytes.extend_from_slice(&0i64.to_le_bytes());
    bytes.extend_from_slice(&(blob.len() as u32).to_le_bytes());
    bytes.extend_from_slice(blob);
    bytes.extend_from_slice(&0i64.to_le_bytes());
    bytes
}

fn full_header() -> Vec<u8> {
    let mut bytes = vec![3u8];
    bytes.extend_from_slice(&20231015u32.to_le_bytes());
    bytes.extend_from_slice(&string("d41d8cd98f00b204e9800998ecf8427e"));
    bytes.extend_from_slice(&string("pl\u{e4}yer \u{4e00}"));
    bytes.push(0x00);
    for count in [301u16, 102, 53, 14, 5, 6] {
        bytes.extend_from_slice(&count.to_le_bytes());
    }
    bytes.extend_from_slice(&1234567u32.to_le_bytes());
    bytes.extend_from_slice(&777u16.to_le_bytes());
    bytes.push(1);
    bytes.extend_from_slice(&((1u32 << 3) | (1 << 6)).to_le_bytes());
    bytes.extend_from_slice(&string("0|1,2000|0.5,"));
    bytes.extend_from_slice(&638_000_000_000_000_000i64.to_le_bytes());
    bytes.extend_from_slice(&5u32.to_le_bytes());
    bytes.extend_from_slice(&[9, 8, 7, 6, 5]);
    bytes.extend_from_slice(&(-42i64).to_le_bytes());
    bytes
}

#[test]
fn game_mode_bytes_map_to_the_four_modes() {
    assert_eq!(GameMode::try_from(0u8).unwrap(), GameMode::Osu);
    assert_eq!(GameMode::try_from(1u8).unwrap(), GameMode::Taiko);
    assert_eq!(GameMode::try_from(2u8).unwrap(), GameMode::CatchTheBeat);
    assert_eq!(GameMode::try_from(3u8).unwrap(), GameMode::Mania);
    for (byte, mode) in [
        (0u8, GameMode::Osu),
        (1, GameMode::Taiko),
        (2, GameMode::CatchTheBeat),
        (3, GameMode::Mania),
    ] {
        let mut buffer = empty_header(&[]);
        buffer[0] = byte;
        assert_eq!(Replay::parse(&buffer).unwrap().game_mode, mode);
    }
}

#[test]
fn game_mode_byte_99_is_refused() {
    let error = GameMode::try_from(99u8).unwrap_err();
    assert_eq!(error.kind(), ErrorKind::InvalidEnumValue);
    assert!(error.trace().is_empty());
    let error = Replay::parse(&[99u8]).unwrap_err();
    assert_eq!(error.kind(), ErrorKind::InvalidEnumValue);
    assert_eq!(
        error.trace(),
        &vec!["Error parsing game mode", "Error parsing replay file"]
    );
    let mut buffer = empty_header(&[]);
    buffer[0] = 99;
    assert_eq!(
        Replay::parse(&buffer).unwrap_err().kind(),
        ErrorKind::InvalidEnumValue
    );
}

#[test]
fn no_other_game_mode_byte_is_accepted() {
    for byte in 4u8..=255 {
        assert_eq!(
            GameMode::try_from(byte).unwrap_err().kind(),
            ErrorKind::InvalidEnumValue
        );
    }
}

#[test]
fn default_game_mode_is_osu() {
    assert_eq!(GameMode::default(), GameMode::Osu);
}

#[test]
fn default_replay_is_empty() {
    let replay = Replay::default();
    assert_eq!(replay.game_mode, GameMode::Osu);
    assert_eq!(replay.version, 0);
    assert_eq!(replay.beatmap_md5, "");
    assert_eq!(replay.player_name, "");
    assert_eq!(replay.replay_md5, "");
    assert_eq!(replay.total_score, 0);
    assert_eq!(replay.life_bar, "");
    assert!(replay.compressed_data.is_empty());
    assert_eq!(replay.online_score_id, 0);
}

#[test]
fn every_field_is_decoded_in_order() {
    let buffer = full_header();
    let replay = Replay::parse(&buffer).unwrap();
    assert_eq!(replay.game_mode, GameMode::Mania);
    assert_eq!(replay.version, 20231015);
    assert_eq!(replay.beatmap_md5, "d41d8cd98f00b204e9800998ecf8427e");
    assert_eq!(replay.player_name, "pl\u{e4}yer \u{4e00}");
    assert_eq!(replay.replay_md5, "");
    assert_eq!(replay.n300, 301);
    assert_eq!(replay.n100, 102);
    assert_eq!(replay.n50, 53);
    assert_eq!(replay.n_geki, 14);
    assert_eq!(replay.n_katu, 5);
    assert_eq!(replay.n_miss, 6);
    assert_eq!(replay.total_score, 1234567);
    assert_eq!(replay.greatest_combo, 777);
    assert_eq!(replay.perfect, 1);
    assert_eq!(replay.mods, 72);
    assert_eq!(replay.life_bar, "0|1,2000|0.5,");
    assert_eq!(replay.time_stamp, 638_000_000_000_000_000);
    assert_eq!(replay.compressed_data, vec![9, 8, 7, 6, 5]);
    assert_eq!(replay.online_score_id, -42);
}

#[test]
fn bytes_after_the_header_are_handed_back() {
    let mut buffer = full_header();
    let length = buffer.len();
    buffer.extend_from_slice(&[0xDE, 0xAD, 0xBE, 0xEF]);
    let (rest, replay) = replay_parser(&buffer).unwrap();
    assert_eq!(rest, &[0xDEu8, 0xAD, 0xBE, 0xEF][..]);
    assert_eq!(replay.online_score_id, -42);
    assert_eq!(buffer.len() - rest.len(), length);
    let replay = Replay::parse(&buffer).unwrap();
    assert_eq!(replay.online_score_id, -42);
    let exact = full_header();
    let (rest, _) = replay_parser(&exact).unwrap();
    assert!(rest.is_empty());
}

#[test]
fn perfect_flag_is_kept_as_written() {
    let mut buffer = empty_header(&[]);
    buffer[26] = 7;
    assert_eq!(Replay::parse(&buffer).unwrap().perfect, 7);
}

#[test]
fn buffer_without_online_id_is_end_of_input() {
    let buffer = empty_header(&compress(b"0|0|0|0,"));
    assert!(Replay::parse(&buffer).is_ok());
    for missing in 1..=8 {
        let error = Replay::parse(&buffer[..buffer.len() - missing]).unwrap_err();
        assert_eq!(error.kind(), ErrorKind::UnexpectedEndOfInput);
        assert_eq!(
            error.trace(),
            &vec!["Error parsing online score ID", "Error parsing replay file"]
        );
    }
}

#[test]
fn every_truncation_of_a_header_is_end_of_input() {
    for buffer in [full_header(), empty_header(&[1, 2, 3])] {
        assert!(Replay::parse(&buffer).is_ok());
        for length in 0..buffer.len() {
            let error = Replay::parse(&buffer[..length]).unwrap_err();
            assert_eq!(error.kind(), ErrorKind::UnexpectedEndOfInput);
            assert_eq!(error.trace().last(), Some(&"Error parsing replay file"));
        }
    }
}

#[test]
fn failure_names_the_step_that_failed() {
    let buffer = full_header();
    let cases: [(usize, &[&str]); 8] = [
        (0, &["Error parsing game mode"]),
        (3, &["Error parsing game version"]),
        (5, &["Error parsing beatmap MD5"]),
        (
            6,
            &[
                "Error parsing ULEB128 for String length",
                "Error parsing beatmap MD5",
            ],
        ),
        (
            20,
            &["Expected more bytes for string", "Error parsing beatmap MD5"],
        ),
        (39, &["Error parsing player name"]),
        (
            41,
            &["Expected more bytes for string", "Error parsing player name"],
        ),
        (52, &["Error parsing replay MD5"]),
    ];
    for (length, steps) in cases {
        let error = Replay::parse(&buffer[..length]).unwrap_err();
        assert_eq!(error.kind(), ErrorKind::UnexpectedEndOfInput);
        let mut expected: Vec<&str> = steps.to_vec();
        expected.push("Error parsing replay file");
        assert_eq!(error.trace(), &expected);
    }
}

#[test]
fn each_fixed_field_has_its_own_label() {
    let buffer = empty_header(&[]);
    let cases = [
        (8, "Error parsing 300s count"),
        (10, "Error parsing 100s count"),
        (12, "Error parsing 50s count"),
        (14, "Error parsing gekis count"),
        (16, "Error parsing katus count"),
        (18, "Error parsing misses count"),
        (20, "Error parsing total score"),
        (24, "Error parsing greatest combo"),
        (26, "Error parsing perfect"),
        (27, "Error parsing mods"),
        (31, "Error parsing life bar"),
        (32, "Error parsing time stamp"),
        (40, "Error parsing compressed length"),
        (44, "Error parsing online score ID"),
    ];
    for (length, label) in cases {
        let error = Replay::parse(&buffer[..length]).unwrap_err();
        assert_eq!(error.kind(), ErrorKind::UnexpectedEndOfInput);
        assert_eq!(error.trace(), &vec![label, "Error parsing replay file"]);
    }
}

#[test]
fn blob_shorter_than_its_length_is_end_of_input() {
    let mut buffer = empty_header(&[]);
    buffer.truncate(40);
    buffer.extend_from_slice(&10u32.to_le_bytes());
    buffer.extend_from_slice(&[1, 2, 3]);
    let error = Replay::parse(&buffer).unwrap_err();
    assert_eq!(error.kind(), ErrorKind::UnexpectedEndOfInput);
    assert_eq!(
        error.trace(),
        &vec!["Error parsing compressed data", "Error parsing replay file"]
    );
}

#[test]
fn blob_is_exactly_as_long_as_its_length_says() {
    let mut buffer = empty_header(&[]);
    buffer.truncate(40);
    buffer.extend_from_slice(&3u32.to_le_bytes());
    buffer.extend_from_slice(&[1, 2, 3]);
    buffer.extend_from_slice(&0x0102_0304_0506_0708i64.to_le_bytes());
    let replay = Replay::parse(&buffer).unwrap();
    assert_eq!(replay.compressed_data, vec![1, 2, 3]);
    assert_eq!(replay.online_score_id, 0x0102_0304_0506_0708);
}

#[test]
fn ill_formed_player_name_is_invalid_utf8() {
    let mut buffer = vec![0u8];
    buffer.extend_from_slice(&1u32.to_le_bytes());
    buffer.push(0x00);
    buffer.extend_from_slice(&[0x0B, 0x02, 0xFF, 0xFE]);
    buffer.extend_from_slice(&[0u8; 64]);
    let error = Replay::parse(&buffer).unwrap_err();
    assert_eq!(error.kind(), ErrorKind::InvalidUtf8);
    assert_eq!(
        error.trace(),
        &vec!["Error parsing player name", "Error parsing replay file"]
    );
}

#[test]
fn empty_buffer_is_end_of_input() {
    let error = Replay::parse(&[]).unwrap_err();
    assert_eq!(error.kind(), ErrorKind::UnexpectedEndOfInput);
    assert_eq!(
        error.trace(),
        &vec!["Error parsing game mode", "Error parsing replay file"]
    );
}

#[test]
fn end_to_end_header_and_two_actions() {
    let blob = compress(b"0|0|0|0,100|50.5|60.25|1,");
    let buffer = empty_header(&blob);
    let replay = Replay::parse(&buffer).unwrap();
    assert_eq!(replay.game_mode, GameMode::Osu);
    assert_eq!(replay.version, 20200101);
    assert_eq!(replay.beatmap_md5, "");
    assert_eq!(replay.player_name, "");
    assert_eq!(replay.replay_md5, "");
    assert_eq!(
        (
            replay.n300,
            replay.n100,
            replay.n50,
            replay.n_geki,
            replay.n_katu,
            replay.n_miss
        ),
        (0, 0, 0, 0, 0, 0)
    );
    assert_eq!(replay.total_score, 0);
    assert_eq!(replay.greatest_combo, 0);
    assert_eq!(replay.perfect, 0);
    assert_eq!(replay.mods, 0);
    assert_eq!(replay.life_bar, "");
    assert_eq!(replay.time_stamp, 0);
    assert_eq!(replay.compressed_data, blob);
    assert_eq!(replay.online_score_id, 0);
    let actions = replay
        .get_actions(|text: &str| text.parse::<f32>().ok())
        .unwrap();
    assert_eq!(
        actions,
        vec![
            ReplayData {
                time: 0,
                x: 0.0f32,
                y: 0.0f32,
                keys: 0
            },
            ReplayData {
                time: 100,
                x: 50.5f32,
                y: 60.25f32,
                keys: 1
            },
        ]
    );
}
