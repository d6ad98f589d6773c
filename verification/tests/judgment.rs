use rhythm_engine::judge::find_note;
use rhythm_engine::note::{KeyDirection, MapKey, Message, MessageVal};
use rhythm_engine::sm::SmMetadata;
use rhythm_engine::state::{Config, KeysPressed, State, Turn};
use rhythm_engine::timing::{
    add_score, clamp_error, closest_to_zero, delay_to_message_val, distance,
};

fn note(direction: KeyDirection, time: i64) -> MapKey {
    MapKey { direction, time, hit: false, hit_start: false, time_end: None }
}

fn long_note(direction: KeyDirection, time: i64, time_end: i64) -> MapKey {
    MapKey { direction, time, hit: false, hit_start: false, time_end: Some(time_end) }
}

fn meta(delay: i64) -> SmMetadata {
    SmMetadata { delay, title: Vec::new(), subtitle: Vec::new(), artist: Vec::new() }
}

fn run(map: Vec<MapKey>) -> State {
    State::new(map, meta(0))
}

fn settings(tolerance: u32) -> Config {
    Config {
        key_error_range: tolerance,
        key_latency_offset: 0,
        audio_delay: 0,
        disable_miss_penalty: false,
        include_misses_in_histogram: false,
        histogram_bins: 3,
        warmup_secs: 0,
        seconds_to_skip: 0,
        message_duration: 250,
    }
}

#[test]
fn press_before_a_plain_note_resolves_it() {
    let config = settings(150);
    let mut state = run(vec![note(KeyDirection::Up, 1000)]);
    state.check_direction(&config, KeyDirection::Up, false, 950);
    assert!(state.map[0].hit);
    assert!(!state.map[0].hit_start);
    assert_eq!(state.score, 50);
    assert_eq!(state.errors, vec![50]);
    assert_eq!(
        state.messages,
        vec![Message { val: MessageVal::Excellent, direction: KeyDirection::Up, time: 950 }]
    );
}

#[test]
fn press_after_a_plain_note_has_a_negative_error() {
    let config = settings(150);
    let mut state = run(vec![note(KeyDirection::Left, 1000)]);
    state.check_direction(&config, KeyDirection::Left, false, 1020);
    assert!(state.map[0].hit);
    assert_eq!(state.score, 20);
    assert_eq!(state.errors, vec![-20]);
    assert_eq!(state.messages[0].val, MessageVal::Fantastic);
}

#[test]
fn unplayed_note_is_swept_as_a_miss() {
    let config = settings(150);
    let mut state = run(vec![note(KeyDirection::Up, 1000)]);
    state.sweep(&config, 1000 + 150);
    assert!(!state.map[0].hit);
    assert_eq!(state.score, 0);
    state.sweep(&config, 1000 + 150 + 1);
    assert!(state.map[0].hit);
    assert_eq!(state.score, 150);
    assert_eq!(
        state.messages,
        vec![Message { val: MessageVal::Miss, direction: KeyDirection::Up, time: 1151 }]
    );
    assert!(state.errors.is_empty());
    state.sweep(&config, 5000);
    assert_eq!(state.score, 150);
    assert_eq!(state.messages.len(), 1);
}

#[test]
fn hold_is_resolved_by_press_and_release() {
    let config = settings(150);
    let mut state = run(vec![long_note(KeyDirection::Down, 1000, 2000)]);
    state.check_direction(&config, KeyDirection::Down, false, 1010);
    assert!(state.map[0].hit_start);
    assert!(!state.map[0].hit);
    assert_eq!(state.score, 10);
    assert_eq!(state.errors, vec![-10]);
    state.check_direction(&config, KeyDirection::Down, true, 1990);
    assert!(state.map[0].hit);
    assert!(state.map[0].hit_start);
    assert_eq!(state.errors, vec![-10, 0]);
    assert_eq!(state.score, 10);
    assert_eq!(state.messages[1].val, MessageVal::Perfect);
}

#[test]
fn release_after_the_end_of_a_hold_is_scored_by_its_distance() {
    let config = settings(150);
    let mut state = run(vec![long_note(KeyDirection::Down, 1000, 2000)]);
    state.check_direction(&config, KeyDirection::Down, false, 1000);
    state.check_direction(&config, KeyDirection::Down, true, 2040);
    assert!(state.map[0].hit);
    assert_eq!(state.errors, vec![0, -40]);
    assert_eq!(state.score, 40);
}

#[test]
fn release_does_not_match_a_hold_that_was_not_started() {
    let config = settings(150);
    let mut state = run(vec![long_note(KeyDirection::Down, 1000, 2000)]);
    state.check_direction(&config, KeyDirection::Down, true, 1990);
    assert!(!state.map[0].hit);
    assert!(!state.map[0].hit_start);
    assert_eq!(state.messages[0].val, MessageVal::Miss);
}

#[test]
fn press_at_the_edge_of_the_window_is_a_miss() {
    let config = settings(150);
    let mut state = run(vec![note(KeyDirection::Up, 1000)]);
    state.check_direction(&config, KeyDirection::Up, false, 850);
    assert!(!state.map[0].hit);
    assert_eq!(state.score, 150);
    assert!(state.errors.is_empty());
    assert_eq!(
        state.messages,
        vec![Message { val: MessageVal::Miss, direction: KeyDirection::Up, time: 850 }]
    );
    state.check_direction(&config, KeyDirection::Up, false, 851);
    assert!(state.map[0].hit);
    assert_eq!(state.score, 150 + 149);
    assert_eq!(state.messages[1].val, MessageVal::Awful);
}

#[test]
fn miss_without_penalty_changes_nothing() {
    let mut config = settings(150);
    config.disable_miss_penalty = true;
    let mut state = run(vec![note(KeyDirection::Up, 1000)]);
    state.check_direction(&config, KeyDirection::Up, false, 0);
    assert_eq!(state.score, 0);
    assert!(state.messages.is_empty());
    assert!(!state.map[0].hit);
}

#[test]
fn edge_on_an_empty_chart_is_not_judged() {
    let config = settings(150);
    let mut state = run(Vec::new());
    state.check_direction(&config, KeyDirection::Up, false, 0);
    assert_eq!(state.score, 0);
    assert!(state.messages.is_empty());
}

#[test]
fn nearest_note_wins_and_the_first_of_equals() {
    let map = vec![
        note(KeyDirection::Up, 1100),
        note(KeyDirection::Down, 1000),
        note(KeyDirection::Up, 1040),
        note(KeyDirection::Up, 960),
        note(KeyDirection::Up, 1000 + 149),
    ];
    assert_eq!(find_note(&map, KeyDirection::Up, false, 1000, 150), Some(2));
    assert_eq!(find_note(&map, KeyDirection::Down, false, 1000, 150), Some(1));
    assert_eq!(find_note(&map, KeyDirection::Left, false, 1000, 150), None);
    assert_eq!(find_note(&map, KeyDirection::Up, false, 1000, 40), None);
    assert_eq!(find_note(&map, KeyDirection::Up, true, 1000, 150), None);
    let tie = vec![note(KeyDirection::Up, 1040), note(KeyDirection::Up, 960)];
    assert_eq!(find_note(&tie, KeyDirection::Up, false, 1000, 150), Some(0));
    let mut resolved = tie.clone();
    resolved[0].hit = true;
    assert_eq!(find_note(&resolved, KeyDirection::Up, false, 1000, 150), Some(1));
}

#[test]
fn sweep_takes_an_unstarted_hold_in_one_step() {
    let mut config = settings(100);
    config.include_misses_in_histogram = true;
    let mut state = run(vec![
        long_note(KeyDirection::Right, 1000, 5000),
        note(KeyDirection::Left, 1050),
        note(KeyDirection::Up, 3000),
    ]);
    state.sweep(&config, 1200);
    assert!(state.map[0].hit && state.map[0].hit_start);
    assert!(state.map[1].hit && !state.map[1].hit_start);
    assert!(!state.map[2].hit);
    assert_eq!(state.score, 200);
    assert_eq!(state.errors, vec![-100, -100]);
    assert_eq!(
        state.messages,
        vec![
            Message { val: MessageVal::Miss, direction: KeyDirection::Right, time: 1200 },
            Message { val: MessageVal::Miss, direction: KeyDirection::Left, time: 1200 },
        ]
    );
}

#[test]
fn sweep_waits_for_the_end_of_a_started_hold() {
    let config = settings(100);
    let mut state = run(vec![long_note(KeyDirection::Right, 1000, 5000)]);
    state.check_direction(&config, KeyDirection::Right, false, 1000);
    state.sweep(&config, 5100);
    assert!(!state.map[0].hit);
    state.sweep(&config, 5101);
    assert!(state.map[0].hit);
    assert_eq!(state.score, 100);
}

#[test]
fn tick_judges_presses_then_releases_then_sweeps() {
    let mut config = settings(150);
    config.audio_delay = 200;
    config.key_latency_offset = 10;
    let mut state = run(vec![
        note(KeyDirection::Up, 1000),
        long_note(KeyDirection::Left, 990, 1500),
        note(KeyDirection::Down, 100),
    ]);
    state.game_time = 1210;
    state.press(KeyDirection::Up);
    state.press(KeyDirection::Left);
    state.release(KeyDirection::Left);
    state.release(KeyDirection::Right);
    assert_eq!(state.keys, KeysPressed { up: true, down: false, left: true, right: false });
    state.physics(&config);
    assert_eq!(state.keys, KeysPressed { up: false, down: false, left: false, right: false });
    assert_eq!(
        state.keys_released,
        KeysPressed { up: false, down: false, left: false, right: false }
    );
    assert!(state.map[0].hit);
    assert!(state.map[1].hit && state.map[1].hit_start);
    assert!(state.map[2].hit);
    assert_eq!(state.errors, vec![0, -10, 0]);
    assert_eq!(
        state.messages,
        vec![
            Message { val: MessageVal::Perfect, direction: KeyDirection::Up, time: 1000 },
            Message { val: MessageVal::Fantastic, direction: KeyDirection::Left, time: 1000 },
            Message { val: MessageVal::Perfect, direction: KeyDirection::Left, time: 1000 },
            Message { val: MessageVal::Miss, direction: KeyDirection::Right, time: 1000 },
            Message { val: MessageVal::Miss, direction: KeyDirection::Down, time: 1000 },
        ]
    );
    assert_eq!(state.score, 10 + 150 + 150);
    assert_eq!(state.game_time, 1210);
}

#[test]
fn tiers_divide_the_window_into_six_bands() {
    assert_eq!(delay_to_message_val(0, 250), MessageVal::Perfect);
    assert_eq!(delay_to_message_val(1, 250), MessageVal::Fantastic);
    assert_eq!(delay_to_message_val(41, 250), MessageVal::Fantastic);
    assert_eq!(delay_to_message_val(42, 250), MessageVal::Excellent);
    assert_eq!(delay_to_message_val(83, 250), MessageVal::Excellent);
    assert_eq!(delay_to_message_val(84, 250), MessageVal::Great);
    assert_eq!(delay_to_message_val(125, 250), MessageVal::Great);
    assert_eq!(delay_to_message_val(126, 250), MessageVal::Good);
    assert_eq!(delay_to_message_val(167, 250), MessageVal::Mediocre);
    assert_eq!(delay_to_message_val(208, 250), MessageVal::Mediocre);
    assert_eq!(delay_to_message_val(209, 250), MessageVal::Awful);
    assert_eq!(delay_to_message_val(250, 250), MessageVal::Awful);
    assert_eq!(delay_to_message_val(9000, 250), MessageVal::Awful);
    assert_eq!(delay_to_message_val(50, 150), MessageVal::Excellent);
    assert_eq!(delay_to_message_val(25, 150), MessageVal::Fantastic);
    assert_eq!(delay_to_message_val(26, 150), MessageVal::Excellent);
    assert_eq!(delay_to_message_val(5, 0), MessageVal::Perfect);
}

#[test]
fn errors_are_limited_to_the_window() {
    assert_eq!(clamp_error(1000, 950, 150), 50);
    assert_eq!(clamp_error(1000, 1050, 150), -50);
    assert_eq!(clamp_error(2000, 1010, 250), 250);
    assert_eq!(clamp_error(1000, 2000, 250), -250);
    assert_eq!(clamp_error(i64::MAX, i64::MIN, 7), 7);
    assert_eq!(clamp_error(i64::MIN, i64::MAX, 7), -7);
    assert_eq!(clamp_error(5, 5, 0), 0);
    assert_eq!(closest_to_zero(3, -5), 3);
    assert_eq!(closest_to_zero(-5, 3), 3);
    assert_eq!(closest_to_zero(-4, 4), -4);
    assert_eq!(closest_to_zero(i64::MIN, i64::MAX), i64::MAX);
    assert_eq!(distance(-3, 4), 7);
    assert_eq!(distance(4, -3), 7);
    assert_eq!(distance(i64::MIN, i64::MAX), u64::MAX);
}

#[test]
fn score_stops_at_its_largest_value() {
    assert_eq!(add_score(10, 5), 15);
    assert_eq!(add_score(u64::MAX - 3, 3), u64::MAX);
    assert_eq!(add_score(u64::MAX - 3, 4), u64::MAX);
    let config = settings(150);
    let mut state = run(vec![note(KeyDirection::Up, 1000)]);
    state.score = u64::MAX - 10;
    state.check_direction(&config, KeyDirection::Up, false, 950);
    assert_eq!(state.score, u64::MAX);
}

#[test]
fn run_starts_paused_at_the_start_of_the_lead_in() {
    let state = State::new(vec![note(KeyDirection::Up, 0)], meta(500));
    assert_eq!(state.game_time, -500);
    assert!(state.paused);
    assert!(!state.quit);
    assert!(!state.song_playing);
    assert_eq!(state.score, 0);
    assert!(state.messages.is_empty());
    assert!(state.errors.is_empty());
    let edge = State::new(Vec::new(), meta(i64::MIN));
    assert_eq!(edge.game_time, i64::MAX);
}

#[test]
fn frame_follows_the_clock_once_the_warm_up_is_over() {
    let mut config = settings(150);
    config.warmup_secs = 3;
    config.seconds_to_skip = -2;
    let mut state = State::new(Vec::new(), meta(500));
    assert!(!state.frame(&config, 2_999_999));
    assert!(state.paused);
    assert_eq!(state.game_time, -500);
    assert!(!state.frame(&config, 3_000_000));
    assert!(!state.paused);
    assert_eq!(state.game_time, 3000 - 3000 - 2000 - 500);
    assert!(!state.song_playing);
    assert!(!state.frame(&config, 4_999_999));
    assert_eq!(state.game_time, -501);
    assert!(state.frame(&config, 5_000_000));
    assert_eq!(state.game_time, -500);
    assert!(state.song_playing);
    assert!(!state.frame(&config, 6_000_500));
    assert_eq!(state.game_time, 500);
    assert!(state.song_playing);
}

#[test]
fn standard_settings() {
    let config = Config::default();
    assert_eq!(config.key_error_range, 250);
    assert_eq!(config.audio_delay, 200);
    assert_eq!(config.key_latency_offset, 0);
    assert!(config.disable_miss_penalty);
    assert!(!config.include_misses_in_histogram);
    assert_eq!(config.histogram_bins, 41);
    assert_eq!(config.warmup_secs, 0);
    assert_eq!(config.seconds_to_skip, -2);
    assert_eq!(config.message_duration, 250);
}

#[test]
fn old_judgments_are_dropped() {
    let mut state = run(Vec::new());
    state.game_time = 1000;
    state.messages = vec![
        Message { val: MessageVal::Good, direction: KeyDirection::Up, time: 700 },
        Message { val: MessageVal::Miss, direction: KeyDirection::Down, time: 750 },
        Message { val: MessageVal::Great, direction: KeyDirection::Left, time: 751 },
        Message { val: MessageVal::Awful, direction: KeyDirection::Right, time: 1200 },
    ];
    state.expire_messages(250);
    assert_eq!(
        state.messages,
        vec![
            Message { val: MessageVal::Great, direction: KeyDirection::Left, time: 751 },
            Message { val: MessageVal::Awful, direction: KeyDirection::Right, time: 1200 },
        ]
    );
}

#[test]
fn constructors_of_notes() {
    assert_eq!(MapKey::plain(KeyDirection::Up, 7), note(KeyDirection::Up, 7));
    assert_eq!(MapKey::hold(KeyDirection::Up, 7, 9), Some(long_note(KeyDirection::Up, 7, 9)));
    assert_eq!(MapKey::hold(KeyDirection::Up, 7, 7), None);
    assert_eq!(MapKey::hold(KeyDirection::Up, 7, 6), None);
}

#[test]
fn judging_loop_stops_waits_or_runs() {
    let config = settings(150);
    let mut state = run(vec![note(KeyDirection::Up, 1000)]);
    state.game_time = 2000;
    assert!(state.paused);
    assert_eq!(state.turn(&config), Turn::Wait);
    assert!(!state.map[0].hit);
    state.paused = false;
    assert_eq!(state.turn(&config), Turn::Ran);
    assert!(state.map[0].hit);
    assert_eq!(state.score, 150);
    state.quit = true;
    state.press(KeyDirection::Up);
    assert_eq!(state.turn(&config), Turn::Stop);
    assert!(state.keys.up);
    assert_eq!(state.score, 150);
    state.paused = true;
    assert_eq!(state.turn(&config), Turn::Stop);
}

#[test]
fn chart_is_over_with_its_last_note() {
    assert_eq!(run(Vec::new()).end_time(), None);
    assert_eq!(run(vec![note(KeyDirection::Up, -5)]).end_time(), Some(-5));
    let state = run(vec![
        note(KeyDirection::Up, 1000),
        long_note(KeyDirection::Left, 500, 4000),
        note(KeyDirection::Down, 3999),
    ]);
    assert_eq!(state.end_time(), Some(4000));
}

#[test]
fn lanes_are_judged_independently() {
    let config = settings(150);
    let map = vec![
        note(KeyDirection::Up, 1000),
        note(KeyDirection::Down, 1010),
        long_note(KeyDirection::Left, 990, 1500),
    ];
    let mut one = run(map.clone());
    one.check_direction(&config, KeyDirection::Up, false, 1000);
    one.check_direction(&config, KeyDirection::Down, false, 1000);
    one.check_direction(&config, KeyDirection::Left, false, 1000);
    let mut other = run(map);
    other.check_direction(&config, KeyDirection::Left, false, 1000);
    other.check_direction(&config, KeyDirection::Down, false, 1000);
    other.check_direction(&config, KeyDirection::Up, false, 1000);
    assert_eq!(one.map, other.map);
    assert_eq!(one.score, other.score);
    assert_eq!(one.score, 20);
}

#[test]
fn release_of_a_plain_note_that_counts_as_started_is_measured_from_its_start() {
    let config = settings(150);
    let mut state = run(vec![MapKey {
        direction: KeyDirection::Up,
        time: 1000,
        hit: false,
        hit_start: true,
        time_end: None,
    }]);
    state.check_direction(&config, KeyDirection::Up, false, 1000);
    assert!(!state.map[0].hit);
    state.check_direction(&config, KeyDirection::Up, true, 1030);
    assert!(state.map[0].hit);
    assert_eq!(state.errors, vec![-30]);
}
