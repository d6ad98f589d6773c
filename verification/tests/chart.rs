use rhythm_engine::error::ParseError;
use rhythm_engine::measure::{read_measure, read_row, row_length, PendingHolds, Section};
use rhythm_engine::note::{KeyDirection, MapKey};
use rhythm_engine::sm::{parse_offset, sm_to_keys, Reader};
use rhythm_engine::tempo::{lookup_tempo, parse_tempo, parse_tempo_list, Tempo};

const HEADER: &str = "#TITLE:Click Track;\r\n#SUBTITLE:Sub;\r\n#ARTIST:Nobody;\r\n#OFFSET:-0.500;\r\n#BPMS:0.000=120.000;\r\n\r\n";

const EASY: &str = "//---------------dance-single - ----------------\r\n#NOTES:\r\n     dance-single:\r\n     :\r\n     Easy:\r\n     1:\r\n     0.1,0.2,0.3,0.4,0.5:\r\n";

const HARD: &str = "//---------------dance-single - ----------------\n#NOTES:\n     dance-single:\n     :\n     Hard:\n     9:\n     0.1,0.2,0.3,0.4,0.5:\n";

fn plain(direction: KeyDirection, time: i64) -> MapKey {
    MapKey { direction, time, hit: false, hit_start: false, time_end: None }
}

fn hold(direction: KeyDirection, time: i64, time_end: i64) -> MapKey {
    MapKey { direction, time, hit: false, hit_start: false, time_end: Some(time_end) }
}

fn chart(rows: &str) -> String {
    format!("{}{}{}", HEADER, EASY, rows)
}

fn chart_with_tempos(tempos: &str, rows: &str) -> String {
    format!("#BPMS:{};\n#OFFSET:0;\n{}{}", tempos, EASY, rows)
}

fn easy_notes(text: &str) -> Vec<MapKey> {
    let file = sm_to_keys(text.as_bytes()).unwrap();
    file.difficulties_map.get(b"Easy").unwrap().clone()
}

fn error_of(text: &str) -> ParseError {
    sm_to_keys(text.as_bytes()).unwrap_err()
}

#[test]
fn reads_a_small_chart() {
    let text = chart("1000\r\n0100\r\n0010\r\n0001\r\n,\r\n2000\r\n0M00\r\n3000\r\n0000\r\n;\r\n");
    let file = sm_to_keys(text.as_bytes()).unwrap();
    assert_eq!(file.difficulties, vec![b"Easy".to_vec()]);
    assert_eq!(file.meta.title, b"Click Track".to_vec());
    assert_eq!(file.meta.subtitle, b"Sub".to_vec());
    assert_eq!(file.meta.artist, b"Nobody".to_vec());
    assert_eq!(file.meta.delay, 500);
    let keys = file.difficulties_map.get(b"Easy").unwrap();
    assert_eq!(
        keys,
        &vec![
            plain(KeyDirection::Left, 0),
            plain(KeyDirection::Down, 500),
            plain(KeyDirection::Up, 1000),
            plain(KeyDirection::Right, 1500),
            hold(KeyDirection::Left, 2000, 3000),
        ]
    );
    assert!(file.difficulties_map.get(b"Hard").is_none());
    assert!(file.difficulties_map.contains_key(b"Easy"));
    assert!(!file.difficulties_map.contains_key(b"easy"));
}

#[test]
fn every_note_of_a_chart_is_plain_or_ends_after_it_starts() {
    let text = chart("2121\n0000\n3030\n0000\n,\n1111\n2222\n3333\n0000\n;\n");
    let keys = easy_notes(&text);
    assert_eq!(keys.len(), 2 + 2 + 4 + 4);
    for key in &keys {
        assert!(!key.hit && !key.hit_start);
        match key.time_end {
            None => {}
            Some(end) => assert!(end > key.time),
        }
    }
}

#[test]
fn unknown_row_character_is_refused() {
    assert_eq!(error_of(&chart("1000\n0X00\n,\n")), ParseError::UnknownRowCharacter);
    assert_eq!(error_of(&chart("1000\n0100 \n;\n")), ParseError::UnknownRowCharacter);
    assert_eq!(error_of(&chart("1004\n;\n")), ParseError::UnknownRowCharacter);
}

#[test]
fn unresolved_hold_at_section_end_is_refused() {
    assert_eq!(error_of(&chart("2000\n0000\n;\n")), ParseError::UnresolvedHold);
    assert_eq!(error_of(&chart("2000\n0000\n,\n0000\n")), ParseError::UnresolvedHold);
}

#[test]
fn hold_end_needs_a_start_in_its_lane() {
    assert_eq!(error_of(&chart("0200\n3000\n;\n")), ParseError::HoldEndWithoutStart);
    assert_eq!(error_of(&chart("3000\n;\n")), ParseError::HoldEndWithoutStart);
    assert_eq!(error_of(&chart("2000\n3000\n3000\n;\n")), ParseError::HoldEndWithoutStart);
}

#[test]
fn later_hold_start_replaces_the_pending_one() {
    let keys = easy_notes(&chart("2000\n2000\n0000\n3000\n;\n"));
    assert_eq!(keys, vec![hold(KeyDirection::Left, 500, 1500)]);
}

#[test]
fn notes_beyond_the_fourth_column_are_refused() {
    assert_eq!(error_of(&chart("00001\n;\n")), ParseError::LaneOutOfRange);
    assert_eq!(error_of(&chart("00002\n;\n")), ParseError::LaneOutOfRange);
    assert_eq!(easy_notes(&chart("0001000M\n;\n")), vec![plain(KeyDirection::Right, 0)]);
}

#[test]
fn rows_of_a_measure_share_four_beats() {
    let keys = easy_notes(&chart("1000\n0100\n0010\n0001\n1000\n0100\n0010\n0001\n,\n1111\n;\n"));
    let times: Vec<i64> = keys.iter().map(|k| k.time).collect();
    assert_eq!(times, vec![0, 250, 500, 750, 1000, 1250, 1500, 1750, 2000, 2000, 2000, 2000]);
    let keys = easy_notes(&chart("1000\n,\n0100\n0100\n,\n0010\n;\n"));
    let times: Vec<i64> = keys.iter().map(|k| k.time).collect();
    assert_eq!(times, vec![0, 2000, 3000, 4000]);
}

#[test]
fn row_times_are_rounded_to_the_nearest_millisecond() {
    let rows = "1000\n1000\n1000\n1000\n1000\n1000\n1000\n1000\n1000\n1000\n1000\n1000\n,\n1000\n;\n";
    let keys = easy_notes(&chart_with_tempos("0.000=150.000", rows));
    let times: Vec<i64> = keys.iter().map(|k| k.time).collect();
    assert_eq!(
        times,
        vec![0, 133, 267, 400, 533, 667, 800, 933, 1067, 1200, 1333, 1467, 1600]
    );
    assert_eq!(row_length(150_000, 12), 133_333_333);
    assert_eq!(row_length(120_000, 4), 500_000_000);
    assert_eq!(row_length(1, 1), 240_000_000_000_000);
    assert_eq!(row_length(u64::MAX, usize::MAX), 0);
}

#[test]
fn tempo_changes_at_its_beat() {
    let rows = "1000\n1000\n1000\n1000\n,\n1000\n1000\n1000\n1000\n,\n1000\n;\n";
    let keys = easy_notes(&chart_with_tempos("0.000=120.000,4.000=60.000", rows));
    let times: Vec<i64> = keys.iter().map(|k| k.time).collect();
    assert_eq!(times, vec![0, 500, 1000, 1500, 2000, 3000, 4000, 5000, 6000]);
    let keys = easy_notes(&chart_with_tempos("0=120,2.9=240", rows));
    let times: Vec<i64> = keys.iter().map(|k| k.time).collect();
    assert_eq!(times, vec![0, 500, 1000, 1250, 1500, 1750, 2000, 2250, 2500]);
    let keys = easy_notes(&chart_with_tempos("4=60,0=120,4=240", rows));
    let times: Vec<i64> = keys.iter().map(|k| k.time).collect();
    assert_eq!(times, vec![0, 500, 1000, 1500, 2000, 2250, 2500, 2750, 3000]);
}

#[test]
fn tempo_list_may_run_over_lines() {
    let text = format!(
        "#BPMS:0.000=120.000\n,4.000=60.000\n;\n#OFFSET:0.250;\n{}{}",
        EASY, "1000\n1000\n1000\n1000\n,\n0100\n;\n"
    );
    let file = sm_to_keys(text.as_bytes()).unwrap();
    assert_eq!(file.meta.delay, -250);
    let times: Vec<i64> =
        file.difficulties_map.get(b"Easy").unwrap().iter().map(|k| k.time).collect();
    assert_eq!(times, vec![0, 500, 1000, 1500, 2000]);
    assert_eq!(file.difficulties_map.get(b"").unwrap(), &Vec::<MapKey>::new());
    assert_eq!(file.difficulties, vec![b"Easy".to_vec()]);
}

#[test]
fn rows_need_a_tempo() {
    let text = format!("#OFFSET:0;\n{}{}", EASY, "1000\n;\n");
    assert_eq!(error_of(&text), ParseError::NoTempo);
    assert_eq!(error_of(&chart_with_tempos("1.000=120.000", "1000\n;\n")), ParseError::NoTempo);
    assert_eq!(error_of("#BPMS:0.000=120.000;\n1000\n;\n"), ParseError::NoTempo);
}

#[test]
fn malformed_tempo_lists_are_refused() {
    assert_eq!(error_of(&chart_with_tempos("0.000", "1000\n;\n")), ParseError::BadTempoList);
    assert_eq!(error_of(&chart_with_tempos("", "1000\n;\n")), ParseError::BadTempoList);
    assert_eq!(error_of(&chart_with_tempos("0=0", "1000\n;\n")), ParseError::BadTempoList);
    assert_eq!(error_of(&chart_with_tempos("0=-120", "1000\n;\n")), ParseError::BadTempoList);
    assert_eq!(error_of(&chart_with_tempos("0=0.0009", "1000\n;\n")), ParseError::BadTempoList);
    assert_eq!(error_of(&chart_with_tempos("0=fast", "1000\n;\n")), ParseError::BadNumber);
    assert_eq!(error_of(&chart_with_tempos("x=120", "1000\n;\n")), ParseError::BadNumber);
    assert_eq!(error_of(&chart_with_tempos(" 0=120", "1000\n;\n")), ParseError::BadNumber);
    assert_eq!(error_of(&chart_with_tempos("0=1e3", "1000\n;\n")), ParseError::BadNumber);
    assert_eq!(
        error_of(&chart_with_tempos("0=9223372036854775808", "1000\n;\n")),
        ParseError::BadNumber
    );
    assert_eq!(
        error_of(&chart_with_tempos("0=120,4", "1000\n;\n")),
        ParseError::BadTempoList
    );
}

#[test]
fn tempo_entries() {
    assert_eq!(parse_tempo(b"4.750=128.500"), Ok(Tempo { beat: 4, bpm: 128_500 }));
    assert_eq!(parse_tempo(b"-3=90"), Ok(Tempo { beat: 0, bpm: 90_000 }));
    assert_eq!(parse_tempo(b"1=2=3"), Ok(Tempo { beat: 1, bpm: 2_000 }));
    assert_eq!(parse_tempo(b"1"), Err(ParseError::BadTempoList));
    let tempos = parse_tempo_list(vec![Tempo { beat: 9, bpm: 1 }], b"0=60,8=120.5;  \n").unwrap();
    assert_eq!(parse_tempo_list(Vec::new(), b"0=60,8;"), Err(ParseError::BadTempoList));
    assert_eq!(
        tempos,
        vec![
            Tempo { beat: 9, bpm: 1 },
            Tempo { beat: 0, bpm: 60_000 },
            Tempo { beat: 8, bpm: 120_500 }
        ]
    );
    assert_eq!(lookup_tempo(&tempos, 0), Some(60_000));
    assert_eq!(lookup_tempo(&tempos, 7), Some(60_000));
    assert_eq!(lookup_tempo(&tempos, 8), Some(120_500));
    assert_eq!(lookup_tempo(&tempos, 9), Some(1));
    assert_eq!(lookup_tempo(&tempos, u64::MAX), Some(1));
    assert_eq!(lookup_tempo(&Vec::new(), 3), None);
    assert_eq!(lookup_tempo(&vec![Tempo { beat: 4, bpm: 5 }], 3), None);
    assert_eq!(
        lookup_tempo(&vec![Tempo { beat: 2, bpm: 5 }, Tempo { beat: 2, bpm: 6 }], 3),
        Some(6)
    );
}

#[test]
fn offset_is_negated_and_given_in_milliseconds() {
    assert_eq!(parse_offset(b"0.250"), Some(-250));
    assert_eq!(parse_offset(b"-0.009"), Some(9));
    assert_eq!(parse_offset(b"-1.23456"), Some(1234));
    assert_eq!(parse_offset(b"12"), Some(-12000));
    assert_eq!(parse_offset(b"0"), Some(0));
    assert_eq!(parse_offset(b""), None);
    assert_eq!(parse_offset(b"soon"), None);
    assert_eq!(parse_offset(b"9223372036854775.807"), Some(-i64::MAX));
    assert_eq!(parse_offset(b"9223372036854775.808"), None);
    assert_eq!(error_of("#OFFSET:soon;\n"), ParseError::BadNumber);
    assert_eq!(error_of("#OFFSET:;\n"), ParseError::BadNumber);
}

#[test]
fn header_lines_need_a_value() {
    assert_eq!(error_of("#TITLE\n"), ParseError::MissingValue);
    let file = sm_to_keys(b"#TITLE:My Song: Remix;\n#ARTIST:;\n#CREDIT:me;\n#SUBTITLE:x\n").unwrap();
    assert_eq!(file.meta.title, b"My Son".to_vec());
    assert_eq!(file.meta.artist, b"".to_vec());
    assert_eq!(file.meta.subtitle, b"".to_vec());
    assert_eq!(file.meta.delay, 0);
    assert!(file.difficulties.is_empty());
}

#[test]
fn difficulty_header_has_six_lines() {
    let short = "//----\n#NOTES:\n     dance-single:\n     :\n     Easy:\n     1:\n";
    let text = format!("{}{}{}", HEADER, short, "1000\n;\n");
    assert_eq!(error_of(&text), ParseError::WrongHeaderFieldCount);
    let long = format!("{}     more:\n", EASY);
    let text = format!("{}{}{}", HEADER, long, "1000\n;\n");
    assert_eq!(error_of(&text), ParseError::WrongHeaderFieldCount);
    let text = format!("{}{}#CREDIT:me;\n{}", HEADER, "//----\n", "1000\n;\n");
    assert_eq!(error_of(&text), ParseError::UnknownKeyInNotes);
}

#[test]
fn difficulties_are_stored_by_name() {
    let text = format!(
        "{}{}{}{}{}",
        HEADER, EASY, "1000\n0000\n0000\n0000\n;\n", HARD, "0001\n0010\n;\n"
    );
    let file = sm_to_keys(text.as_bytes()).unwrap();
    assert_eq!(file.difficulties, vec![b"Easy".to_vec(), b"Hard".to_vec()]);
    let easy = vec![plain(KeyDirection::Left, 0)];
    let hard = vec![plain(KeyDirection::Right, 0), plain(KeyDirection::Up, 1000)];
    assert_eq!(file.difficulties_map.get(b"Easy").unwrap(), &easy);
    assert_eq!(file.difficulties_map.get(b"Hard").unwrap(), &hard);
    assert!(file.has_difficulty(b"Easy"));
    assert!(!file.has_difficulty(b"Medium"));
    assert_eq!(file.pick(b"Easy").unwrap(), &easy);
    assert_eq!(file.pick(b"Hard").unwrap(), &hard);
    assert_eq!(file.pick(b"Medium").unwrap(), &hard);
}

#[test]
fn section_without_its_end_is_not_part_of_the_chart() {
    let text = chart("1000\n0000\n,\n0100\n");
    let file = sm_to_keys(text.as_bytes()).unwrap();
    assert_eq!(file.difficulties, vec![b"Easy".to_vec()]);
    assert!(file.difficulties_map.get(b"Easy").is_none());
    assert!(file.pick(b"Easy").is_none());
    let empty = sm_to_keys(b"").unwrap();
    assert!(empty.difficulties.is_empty());
    assert!(empty.pick(b"Easy").is_none());
}

#[test]
fn later_section_of_one_name_replaces_the_earlier() {
    let text = format!("{}{}{}{}{}", HEADER, EASY, "1000\n;\n", EASY, "0100\n;\n");
    let file = sm_to_keys(text.as_bytes()).unwrap();
    assert_eq!(file.difficulties, vec![b"Easy".to_vec(), b"Easy".to_vec()]);
    assert_eq!(file.difficulties_map.get(b"Easy").unwrap(), &vec![plain(KeyDirection::Down, 0)]);
}

#[test]
fn hold_must_end_after_the_millisecond_it_starts_in() {
    let rows = "2000\n3000\n0000\n0000\n;\n";
    assert_eq!(
        error_of(&chart_with_tempos("0=1000000", rows)),
        ParseError::HoldNotAfterStart
    );
    assert_eq!(
        easy_notes(&chart_with_tempos("0=60000", rows)),
        vec![hold(KeyDirection::Left, 0, 1)]
    );
}

#[test]
fn chart_longer_than_the_clock_is_refused() {
    let mut rows = String::new();
    for _ in 0..76_860 {
        rows.push_str("0000\n,\n");
    }
    let fits = format!("{}1000\n;\n", rows);
    let keys = easy_notes(&chart_with_tempos("0=0.001", &fits));
    assert_eq!(keys, vec![plain(KeyDirection::Left, 18_446_400_000_000)]);
    let too_long = format!("{}0000\n,\n1000\n;\n", rows);
    assert_eq!(error_of(&chart_with_tempos("0=0.001", &too_long)), ParseError::ClockOverflow);
}

#[test]
fn measure_on_its_own() {
    let tempos = vec![Tempo { beat: 0, bpm: 120_000 }];
    let rows: Vec<&[u8]> = vec![b"1000", b"0200", b"", b"0300"];
    let section = read_measure(Section::new(), &tempos, &rows).unwrap();
    assert_eq!(
        section.keys,
        vec![plain(KeyDirection::Left, 0), hold(KeyDirection::Down, 500, 1500)]
    );
    assert_eq!(section.clock, 2_000_000_000);
    assert_eq!(section.beat, 4);
    assert!(section.holds.is_empty());
    let empty: Vec<&[u8]> = Vec::new();
    let section = read_measure(section, &tempos, &empty).unwrap();
    assert_eq!(section.clock, 2_000_000_000);
    assert_eq!(section.beat, 4);
    let mut late = Section::new();
    late.beat = u64::MAX - 3;
    assert_eq!(read_measure(late, &tempos, &rows).unwrap_err(), ParseError::ClockOverflow);
    let stopped = vec![Tempo { beat: 0, bpm: 0 }];
    assert_eq!(
        read_measure(Section::new(), &stopped, &rows).unwrap_err(),
        ParseError::NoTempo
    );
    let section = read_row(Section::new(), b"2M02").unwrap();
    assert_eq!(
        section.holds,
        PendingHolds { left: Some(0), down: None, up: None, right: Some(0) }
    );
    assert_eq!(section.holds.get(KeyDirection::Right), Some(0));
    assert_eq!(section.holds.set(KeyDirection::Left, None).get(KeyDirection::Left), None);
}

#[test]
fn reader_goes_line_by_line() {
    let reader = Reader::new();
    let reader = reader.read_line(b"#BPMS:0=60;\r").unwrap();
    assert!(reader.tempo_open);
    assert!(reader.tempos.is_empty());
    let reader = reader.read_line(b"   \t").unwrap();
    let reader = reader.read_line(b"#TITLE:a;").unwrap();
    assert!(!reader.tempo_open);
    assert_eq!(reader.tempos, vec![Tempo { beat: 0, bpm: 60_000 }]);
    let reader = reader.read_line(b"1001").unwrap();
    assert_eq!(reader.rows.len(), 1);
    assert!(reader.section.keys.is_empty());
    let reader = reader.read_line(b",").unwrap();
    assert!(reader.rows.is_empty());
    assert_eq!(reader.section.keys.len(), 2);
    assert_eq!(reader.section.clock, 4_000_000_000);
    let reader = reader.read_line(b";").unwrap();
    assert!(reader.section.keys.is_empty());
    assert_eq!(reader.section.clock, 0);
    let file = reader.finish().unwrap();
    assert_eq!(
        file.difficulties_map.get(b"").unwrap(),
        &vec![plain(KeyDirection::Left, 0), plain(KeyDirection::Right, 0)]
    );
}

#[test]
fn header_values_over_several_lines_are_passed_over() {
    let text = format!(
        "{}{}{}{}",
        "#TITLE:Song;\n#BPMS:0.000=120.000;\n#STOPS:;\n",
        "#BGCHANGES:0.000=bg.avi=1.000=1=0=0\n,99999=-nosongbg-=1.000=0=0=0 // no background\n;\n",
        EASY,
        "0000\n0001\n,  // measure 1\n1000\n;\n"
    );
    let keys = easy_notes(&text);
    assert_eq!(keys, vec![plain(KeyDirection::Right, 1000), plain(KeyDirection::Left, 2000)]);
}
