use rhythm_engine::error::ParseError;
use rhythm_engine::judge::{delta_of, error_of, is_awaiting};
use rhythm_engine::measure::{column_lane, nearest_milli, read_char, PendingHolds, Section};
use rhythm_engine::note::{KeyDirection, MapKey};
use rhythm_engine::sm::{starts_row, value_without_end, Reader};
use rhythm_engine::state::{is_expired_note, saturate, KeysPressed};
use rhythm_engine::tempo::Tempo;

fn note(time: i64, time_end: Option<i64>, hit: bool, hit_start: bool) -> MapKey {
    MapKey { direction: KeyDirection::Up, time, hit, hit_start, time_end }
}

#[test]
fn columns_are_left_down_up_right() {
    assert_eq!(column_lane(0), Some(KeyDirection::Left));
    assert_eq!(column_lane(1), Some(KeyDirection::Down));
    assert_eq!(column_lane(2), Some(KeyDirection::Up));
    assert_eq!(column_lane(3), Some(KeyDirection::Right));
    assert_eq!(column_lane(4), None);
    assert_eq!(column_lane(usize::MAX), None);
}

#[test]
fn clock_is_rounded_to_the_nearest_millisecond() {
    assert_eq!(nearest_milli(0), 0);
    assert_eq!(nearest_milli(499_999), 0);
    assert_eq!(nearest_milli(500_000), 1);
    assert_eq!(nearest_milli(1_499_999), 1);
    assert_eq!(nearest_milli(399_999_999), 400);
    assert_eq!(nearest_milli(u64::MAX), 18_446_744_073_710);
}

#[test]
fn characters_of_a_row() {
    let mut section = Section::new();
    section.clock = 2_000_000_000;
    let section = read_char(section, 0, b'0').unwrap();
    let section = read_char(section, 9, b'M').unwrap();
    assert!(section.keys.is_empty());
    let section = read_char(section, 1, b'1').unwrap();
    assert_eq!(
        section.keys,
        vec![MapKey {
            direction: KeyDirection::Down,
            time: 2000,
            hit: false,
            hit_start: false,
            time_end: None
        }]
    );
    let mut section = read_char(section, 3, b'2').unwrap();
    assert_eq!(
        section.holds,
        PendingHolds { left: None, down: None, up: None, right: Some(2000) }
    );
    assert!(!section.holds.is_empty());
    section.clock = 2_000_500_000;
    let section = read_char(section, 3, b'3').unwrap();
    assert!(section.holds.is_empty());
    assert_eq!(section.keys[1].time, 2000);
    assert_eq!(section.keys[1].time_end, Some(2001));
    assert_eq!(section.keys[1].direction, KeyDirection::Right);
    assert_eq!(section.clock, 2_000_500_000);
    assert_eq!(read_char(Section::new(), 0, b'3').unwrap_err(), ParseError::HoldEndWithoutStart);
    assert_eq!(read_char(Section::new(), 0, b'4').unwrap_err(), ParseError::UnknownRowCharacter);
    assert_eq!(read_char(Section::new(), 4, b'x').unwrap_err(), ParseError::UnknownRowCharacter);
    assert_eq!(read_char(Section::new(), 4, b'1').unwrap_err(), ParseError::LaneOutOfRange);
    let pending = read_char(Section::new(), 2, b'2').unwrap();
    assert_eq!(read_char(pending, 2, b'3').unwrap_err(), ParseError::HoldNotAfterStart);
}

#[test]
fn row_lines_and_values() {
    assert!(starts_row(b"0"));
    assert!(starts_row(b"1xyz"));
    assert!(starts_row(b"2"));
    assert!(starts_row(b"3"));
    assert!(starts_row(b"M"));
    assert!(!starts_row(b""));
    assert!(!starts_row(b"4"));
    assert!(!starts_row(b" 0"));
    assert!(!starts_row(b"m"));
    assert_eq!(value_without_end(b"abc;"), b"abc");
    assert_eq!(value_without_end(b"ab"), b"a");
    assert_eq!(value_without_end(b";"), b"");
    assert_eq!(value_without_end(b"x"), b"");
    assert_eq!(value_without_end(b""), b"");
}

#[test]
fn steps_of_the_reader() {
    let reader = Reader::new().apply_tag(b"#BPMS", b"0=60").unwrap();
    assert!(reader.tempo_open);
    assert_eq!(reader.tempo_text, b"0=60".to_vec());
    let reader = reader.keep_text(b",4=120;  ");
    assert_eq!(reader.tempo_text, b"0=60,4=120;  ".to_vec());
    let reader = reader.keep_text(b"// not a tempo");
    assert_eq!(reader.tempo_text, b"0=60,4=120;  ".to_vec());
    let reader = reader.close_tempo_list().unwrap();
    assert!(!reader.tempo_open);
    assert_eq!(reader.tempo_text, b"0=60,4=120;".to_vec());
    assert_eq!(reader.tempos, vec![Tempo { beat: 0, bpm: 60_000 }, Tempo { beat: 4, bpm: 120_000 }]);
    assert_eq!(
        Reader::new().apply_tag(b"#BPMS", b"0").unwrap().close_tempo_list().unwrap_err(),
        ParseError::BadTempoList
    );
    let reader = reader.apply_tag(b"#OFFSET", b"1.5;").unwrap();
    assert_eq!(reader.meta.delay, -1500);
    let reader = reader.apply_tag(b"#GENRE", b"none;").unwrap();
    let reader = reader.read_tag(b"#ARTIST:someone;").unwrap();
    assert_eq!(reader.meta.artist, b"someone".to_vec());
    let mut reader = reader;
    reader.in_header = true;
    let reader = reader.read_tag(b"#NOTES:").unwrap();
    let reader = reader.keep_text(b"  a:");
    let reader = reader.keep_text(b"  b:");
    assert_eq!(reader.header.len(), 2);
    assert_eq!(reader.close_header().unwrap_err(), ParseError::WrongHeaderFieldCount);
    let lines: [&[u8]; 6] = [b"//--", b"  a:", b"  b:", b"   Challenge : ", b"  d:", b"  e:"];
    let mut reader = Reader::new();
    reader.in_header = true;
    for line in lines {
        reader = reader.keep_text(line);
    }
    let reader = reader.close_header().unwrap();
    assert!(!reader.in_header);
    assert_eq!(reader.difficulty, b"Challenge :".to_vec());
    assert_eq!(reader.difficulties, vec![b"Challenge :".to_vec()]);
    let mut reader = reader;
    reader.tempos = vec![Tempo { beat: 0, bpm: 240_000 }];
    reader.rows = vec![b"0010", b"0000"];
    let reader = reader.end_measure().unwrap();
    assert!(reader.rows.is_empty());
    assert_eq!(reader.section.keys.len(), 1);
    assert_eq!(reader.section.clock, 1_000_000_000);
    assert_eq!(reader.section.beat, 4);
    let reader = reader.end_section().unwrap();
    assert_eq!(reader.section.clock, 0);
    assert_eq!(reader.section.beat, 0);
    assert!(reader.section.keys.is_empty());
    assert!(reader.header.is_empty());
    assert_eq!(reader.difficulties_map.get(b"Challenge :").unwrap().len(), 1);
    let mut reader = reader;
    reader.section.holds.up = Some(3);
    assert_eq!(reader.end_section().unwrap_err(), ParseError::UnresolvedHold);
}

#[test]
fn edges_and_notes() {
    let plain = note(1000, None, false, false);
    let started = note(1000, Some(2000), false, true);
    let fresh_hold = note(1000, Some(2000), false, false);
    let done = note(1000, None, true, false);
    assert!(is_awaiting(&plain, KeyDirection::Up, false));
    assert!(!is_awaiting(&plain, KeyDirection::Up, true));
    assert!(!is_awaiting(&plain, KeyDirection::Down, false));
    assert!(!is_awaiting(&done, KeyDirection::Up, false));
    assert!(is_awaiting(&fresh_hold, KeyDirection::Up, false));
    assert!(!is_awaiting(&fresh_hold, KeyDirection::Up, true));
    assert!(is_awaiting(&started, KeyDirection::Up, true));
    assert!(!is_awaiting(&started, KeyDirection::Up, false));
    assert_eq!(delta_of(&plain, false, 950), 50);
    assert_eq!(delta_of(&plain, false, 1050), 50);
    assert_eq!(delta_of(&started, false, 1050), 50);
    assert_eq!(delta_of(&started, true, 1050), 0);
    assert_eq!(delta_of(&started, true, 1999), 0);
    assert_eq!(delta_of(&started, true, 1000), 1000);
    assert_eq!(delta_of(&started, true, 2000), 0);
    assert_eq!(delta_of(&started, true, 2030), 30);
    assert_eq!(delta_of(&started, true, 900), 1100);
    assert_eq!(delta_of(&note(i64::MIN, None, false, false), false, i64::MAX), u64::MAX);
    assert_eq!(error_of(&plain, false, 950, 150), 50);
    assert_eq!(error_of(&plain, false, 1050, 150), -50);
    assert_eq!(error_of(&plain, false, 0, 150), 150);
    assert_eq!(error_of(&started, true, 1500, 150), 0);
    assert_eq!(error_of(&started, true, 2040, 150), -40);
    assert_eq!(error_of(&started, true, 1000, 150), 150);
}

#[test]
fn overdue_notes() {
    assert!(!is_expired_note(&note(1000, None, false, false), 1150, 150));
    assert!(is_expired_note(&note(1000, None, false, false), 1151, 150));
    assert!(!is_expired_note(&note(1000, None, true, false), 9000, 150));
    assert!(is_expired_note(&note(1000, Some(2000), false, false), 1151, 150));
    assert!(!is_expired_note(&note(1000, Some(2000), false, true), 2150, 150));
    assert!(is_expired_note(&note(1000, Some(2000), false, true), 2151, 150));
    assert!(is_expired_note(&note(i64::MIN, None, false, false), i64::MAX, u32::MAX));
    assert!(!is_expired_note(&note(i64::MAX, None, false, false), i64::MIN, 0));
    assert!(!is_expired_note(&note(5, None, false, false), 5, 0));
    assert!(is_expired_note(&note(5, None, false, false), 6, 0));
}

#[test]
fn times_stay_in_range() {
    assert_eq!(saturate(0), 0);
    assert_eq!(saturate(-5), -5);
    assert_eq!(saturate(i64::MAX as i128), i64::MAX);
    assert_eq!(saturate(i64::MAX as i128 + 1), i64::MAX);
    assert_eq!(saturate(i64::MIN as i128), i64::MIN);
    assert_eq!(saturate(i64::MIN as i128 - 1), i64::MIN);
    assert_eq!(saturate(i128::MAX), i64::MAX);
    assert_eq!(saturate(i128::MIN), i64::MIN);
}

#[test]
fn flags_by_lane() {
    let keys = KeysPressed::new();
    assert!(!keys.get(KeyDirection::Up));
    let keys = keys.with(KeyDirection::Left).with(KeyDirection::Down);
    assert_eq!(keys, KeysPressed { up: false, down: true, left: true, right: false });
    assert!(keys.get(KeyDirection::Left));
    assert!(keys.get(KeyDirection::Down));
    assert!(!keys.get(KeyDirection::Right));
    assert!(keys.with(KeyDirection::Right).with(KeyDirection::Up).get(KeyDirection::Up));
}
