use rhythm_engine::csv::{
    convert_to_csv, csv_to_keys, lane_of_letter, letter_of, parse_csv_line, sort_by_time,
    write_csv,
};
use rhythm_engine::error::ParseError;
use rhythm_engine::note::{KeyDirection, MapKey};

fn plain(direction: KeyDirection, time: i64) -> MapKey {
    MapKey { direction, time, hit: false, hit_start: false, time_end: None }
}

#[test]
fn reads_a_converted_chart() {
    let text = b"Time\tDirection\n1000\tU\n1500.75\tD\n-20\tL\n\n+7\tR\n";
    assert_eq!(
        csv_to_keys(text),
        Ok(vec![
            plain(KeyDirection::Up, 1000),
            plain(KeyDirection::Down, 1500),
            plain(KeyDirection::Left, -20),
            plain(KeyDirection::Right, 7),
        ])
    );
    assert_eq!(csv_to_keys(b"Time\tDirection\n"), Ok(Vec::new()));
    assert_eq!(csv_to_keys(b"Time\tDirection\n-0.9\tU"), Ok(vec![plain(KeyDirection::Up, 0)]));
}

#[test]
fn converted_chart_needs_its_header() {
    assert_eq!(csv_to_keys(b"Time\tDirection"), Err(ParseError::InvalidHeader));
    assert_eq!(csv_to_keys(b""), Err(ParseError::InvalidHeader));
    assert_eq!(csv_to_keys(b"time\tdirection\n1\tU\n"), Err(ParseError::InvalidHeader));
    assert_eq!(csv_to_keys(b"Time\tDirection\r\n1\tU\r\n"), Err(ParseError::InvalidHeader));
}

#[test]
fn malformed_lines_are_refused() {
    assert_eq!(csv_to_keys(b"Time\tDirection\n1000\n"), Err(ParseError::InvalidLine));
    assert_eq!(csv_to_keys(b"Time\tDirection\n1000\tU\tx\n"), Err(ParseError::InvalidLine));
    assert_eq!(csv_to_keys(b"Time\tDirection\n1000\tX\n"), Err(ParseError::InvalidKey));
    assert_eq!(csv_to_keys(b"Time\tDirection\n1000\tu\n"), Err(ParseError::InvalidKey));
    assert_eq!(csv_to_keys(b"Time\tDirection\n1000\tU\r\n"), Err(ParseError::InvalidKey));
    assert_eq!(csv_to_keys(b"Time\tDirection\n1000\t\n"), Err(ParseError::InvalidKey));
    assert_eq!(csv_to_keys(b"Time\tDirection\n1e3\tU\n"), Err(ParseError::BadNumber));
    assert_eq!(csv_to_keys(b"Time\tDirection\n\tU\n"), Err(ParseError::BadNumber));
    assert_eq!(csv_to_keys(b"Time\tDirection\nsoon\tX\n"), Err(ParseError::InvalidKey));
    assert_eq!(
        csv_to_keys(b"Time\tDirection\n1\tU\n2\n3\tX\n"),
        Err(ParseError::InvalidLine)
    );
    assert_eq!(
        csv_to_keys(b"Time\tDirection\n9223372036854775808\tU\n"),
        Err(ParseError::BadNumber)
    );
    assert_eq!(parse_csv_line(b"12\tL"), Ok(plain(KeyDirection::Left, 12)));
    assert_eq!(parse_csv_line(b""), Err(ParseError::InvalidLine));
}

#[test]
fn lane_letters() {
    assert_eq!(letter_of(KeyDirection::Up), b'U');
    assert_eq!(letter_of(KeyDirection::Down), b'D');
    assert_eq!(letter_of(KeyDirection::Left), b'L');
    assert_eq!(letter_of(KeyDirection::Right), b'R');
    assert_eq!(lane_of_letter(b"U"), Some(KeyDirection::Up));
    assert_eq!(lane_of_letter(b"D"), Some(KeyDirection::Down));
    assert_eq!(lane_of_letter(b"L"), Some(KeyDirection::Left));
    assert_eq!(lane_of_letter(b"R"), Some(KeyDirection::Right));
    assert_eq!(lane_of_letter(b"UD"), None);
    assert_eq!(lane_of_letter(b""), None);
}

#[test]
fn written_chart_is_ordered_by_time() {
    let keys = vec![
        MapKey { direction: KeyDirection::Up, time: 2000, hit: true, hit_start: false, time_end: None },
        MapKey {
            direction: KeyDirection::Left,
            time: 10,
            hit: false,
            hit_start: true,
            time_end: Some(900),
        },
        plain(KeyDirection::Down, 10),
        plain(KeyDirection::Right, -5),
        plain(KeyDirection::Up, 10),
        plain(KeyDirection::Down, 0),
    ];
    let text = convert_to_csv(&keys);
    assert_eq!(
        text,
        b"Time\tDirection\n-5\tR\n0\tD\n10\tL\n10\tD\n10\tU\n2000\tU\n".to_vec()
    );
    assert_eq!(
        csv_to_keys(&text),
        Ok(vec![
            plain(KeyDirection::Right, -5),
            plain(KeyDirection::Down, 0),
            plain(KeyDirection::Left, 10),
            plain(KeyDirection::Down, 10),
            plain(KeyDirection::Up, 10),
            plain(KeyDirection::Up, 2000),
        ])
    );
    assert_eq!(
        write_csv(&keys),
        b"Time\tDirection\n2000\tU\n10\tL\n10\tD\n-5\tR\n10\tU\n0\tD\n".to_vec()
    );
    assert_eq!(convert_to_csv(&Vec::new()), b"Time\tDirection\n".to_vec());
}

#[test]
fn round_trip_keeps_times_and_lanes() {
    let keys = vec![
        plain(KeyDirection::Up, i64::MAX),
        plain(KeyDirection::Down, i64::MIN),
        plain(KeyDirection::Left, 0),
        plain(KeyDirection::Right, 1),
        plain(KeyDirection::Right, -1),
        plain(KeyDirection::Up, 1_234_567_890_123),
    ];
    let mut sorted = keys.clone();
    sorted.sort_by_key(|k| k.time);
    assert_eq!(sort_by_time(&keys), sorted);
    assert_eq!(csv_to_keys(&convert_to_csv(&keys)), Ok(sorted));
}
