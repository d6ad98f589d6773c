//! The state of a run and the passes that change it: the judgment of the
//! pending input edges, the sweep of the notes that have expired, and the
//! clock.

use vstd::prelude::*;
use crate::judge::{error_of, find_note, resolved, scored_error, selected};
use crate::note::{KeyDirection, MapKey, Message, MessageVal};
use crate::sm::{SmMetadata, SmMetadataView};
use crate::timing::{
    add_score, delay_to_message_val, distance, magnitude, score_plus, tier_of,
};

verus! {

/// One flag for each lane: the edges that were seen and are not judged
/// yet.
#[derive(Debug, Clone, Copy, PartialEq, Eq)]
pub struct KeysPressed {
    pub up: bool,
    pub down: bool,
    pub left: bool,
    pub right: bool,
}

/// The settings of a run. Times are in milliseconds.
#[derive(Debug, Clone, Copy, PartialEq, Eq)]
pub struct Config {
    /// How far off an input may be and still match a note.
    pub key_error_range: u32,
    /// The latency of the input path; taken off the game clock.
    pub key_latency_offset: i64,
    /// The latency of the sound path; taken off the game clock.
    pub audio_delay: i64,
    /// Whether an edge that matches nothing goes unpunished.
    pub disable_miss_penalty: bool,
    /// Whether swept notes enter the error history.
    pub include_misses_in_histogram: bool,
    /// How many bins the error histogram has; meant to be odd.
    pub histogram_bins: usize,
    /// How long the run stays paused at its start, in seconds.
    pub warmup_secs: u32,
    /// How far into the song the run starts, in seconds.
    pub seconds_to_skip: i32,
    /// How long a judgment stays in the list of messages.
    pub message_duration: u32,
}

/// The state of a run.
#[derive(Debug)]
pub struct State {
    pub keys: KeysPressed,
    pub keys_released: KeysPressed,
    pub map: Vec<MapKey>,
    pub messages: Vec<Message>,
    pub game_time: i64,
    pub score: u64,
    pub quit: bool,
    pub paused: bool,
    pub song_playing: bool,
    pub errors: Vec<i64>,
    pub song_meta: SmMetadata,
}

/// `State` as a value of the model: its lists as sequences.
pub struct StateView {
    pub keys: KeysPressed,
    pub keys_released: KeysPressed,
    pub map: Seq<MapKey>,
    pub messages: Seq<Message>,
    pub game_time: i64,
    pub score: u64,
    pub quit: bool,
    pub paused: bool,
    pub song_playing: bool,
    pub errors: Seq<i64>,
    pub song_meta: SmMetadataView,
}

impl View for State {
    type V = StateView;

    open spec fn view(&self) -> StateView {
        StateView {
            keys: self.keys,
            keys_released: self.keys_released,
            map: self.map@,
            messages: self.messages@,
            game_time: self.game_time,
            score: self.score,
            quit: self.quit,
            paused: self.paused,
            song_playing: self.song_playing,
            errors: self.errors@,
            song_meta: self.song_meta@,
        }
    }
}

/// An integer brought into the range of a time.
pub open spec fn saturated(x: int) -> i64 {
    if x < i64::MIN {
        i64::MIN
    } else if x > i64::MAX {
        i64::MAX
    } else {
        x as i64
    }
}

/// The time against which inputs are judged: the game time less the two
/// latencies.
pub open spec fn judged_time(game_time: i64, config: Config) -> i64 {
    saturated(game_time - config.key_latency_offset - config.audio_delay)
}

/// The game time after `elapsed_micros` microseconds of the run: the
/// elapsed milliseconds, less the warm-up, plus the part of the song that
/// is skipped, less the start delay of the chart.
pub open spec fn clock_time(elapsed_micros: u64, config: Config, delay: i64) -> i64 {
    saturated(
        elapsed_micros / 1000 - config.warmup_secs * 1000 + config.seconds_to_skip * 1000 - delay,
    )
}

impl KeysPressed {
    /// No edge is pending.
    pub open spec fn none() -> KeysPressed {
        KeysPressed { up: false, down: false, left: false, right: false }
    }

    /// Whether an edge is pending in `lane`.
    pub open spec fn spec_get(self, lane: KeyDirection) -> bool {
        match lane {
            KeyDirection::Up => self.up,
            KeyDirection::Down => self.down,
            KeyDirection::Left => self.left,
            KeyDirection::Right => self.right,
        }
    }

    /// These flags with the one of `lane` set.
    pub open spec fn spec_with(self, lane: KeyDirection) -> KeysPressed {
        match lane {
            KeyDirection::Up => KeysPressed { up: true, ..self },
            KeyDirection::Down => KeysPressed { down: true, ..self },
            KeyDirection::Left => KeysPressed { left: true, ..self },
            KeyDirection::Right => KeysPressed { right: true, ..self },
        }
    }

    /// No edge is pending.
    pub fn new() -> (keys: KeysPressed)
        ensures
            keys == KeysPressed::none(),
    {
        KeysPressed { up: false, down: false, left: false, right: false }
    }

    /// Reports whether an edge is pending in `lane`.
    #[verifier::when_used_as_spec(spec_get)]
    pub fn get(self, lane: KeyDirection) -> (r: bool)
        ensures
            r == self.spec_get(lane),
    {
        match lane {
            KeyDirection::Up => self.up,
            KeyDirection::Down => self.down,
            KeyDirection::Left => self.left,
            KeyDirection::Right => self.right,
        }
    }

    /// These flags with the one of `lane` set.
    #[verifier::when_used_as_spec(spec_with)]
    pub fn with(self, lane: KeyDirection) -> (keys: KeysPressed)
        ensures
            keys == self.spec_with(lane),
    {
        match lane {
            KeyDirection::Up => KeysPressed { up: true, ..self },
            KeyDirection::Down => KeysPressed { down: true, ..self },
            KeyDirection::Left => KeysPressed { left: true, ..self },
            KeyDirection::Right => KeysPressed { right: true, ..self },
        }
    }
}

impl Config {
    /// The settings that the game ships with.
    pub open spec fn standard() -> Config {
        Config {
            key_error_range: 250,
            key_latency_offset: 0,
            audio_delay: 200,
            disable_miss_penalty: true,
            include_misses_in_histogram: false,
            histogram_bins: 41,
            warmup_secs: 0,
            seconds_to_skip: -2i32,
            message_duration: 250,
        }
    }
}

impl Default for Config {
    /// The settings that the game ships with.
    fn default() -> (config: Config)
        ensures
            config == Config::standard(),
    {
        Config {
            key_error_range: 250,
            key_latency_offset: 0,
            audio_delay: 200,
            disable_miss_penalty: true,
            include_misses_in_histogram: false,
            histogram_bins: 41,
            warmup_secs: 0,
            seconds_to_skip: -2,
            message_duration: 250,
        }
    }
}

/// The judgment that an edge without a match and a swept note get.
pub open spec fn miss_message(lane: KeyDirection, game_time: i64) -> Message {
    Message { val: MessageVal::Miss, direction: lane, time: game_time }
}

/// The state after one edge in `lane` has been judged at `game_time`.
///
/// With no notes at all nothing happens. Where the edge resolves a note,
/// the note is resolved, the magnitude of its error is added to the score,
/// the error joins the history and a judgment of the error's tier is
/// emitted. Where it resolves none, and misses are punished, the whole
/// tolerance is added to the score and a `Miss` is emitted.
pub open spec fn edge_judged(
    s: StateView,
    lane: KeyDirection,
    released: bool,
    game_time: i64,
    config: Config,
) -> StateView {
    let tolerance = config.key_error_range;
    if s.map.len() == 0 {
        s
    } else {
        match selected(s.map, lane, released, game_time, tolerance) {
            Some(i) => {
                let error = scored_error(s.map[i], released, game_time, tolerance);
                StateView {
                    map: s.map.update(i, resolved(s.map[i])),
                    score: score_plus(s.score, magnitude(error)),
                    errors: s.errors.push(error as i64),
                    messages: s.messages.push(
                        Message {
                            val: tier_of(magnitude(error), tolerance as int),
                            direction: lane,
                            time: game_time,
                        },
                    ),
                    ..s
                }
            },
            None => if config.disable_miss_penalty {
                s
            } else {
                StateView {
                    score: score_plus(s.score, tolerance as int),
                    messages: s.messages.push(miss_message(lane, game_time)),
                    ..s
                }
            },
        }
    }
}

/// The time at which a note is due: the end of a hold whose start is
/// resolved, else the start of the note.
pub open spec fn due_time(note: MapKey) -> i64 {
    match note.time_end {
        Some(end) => if note.hit_start {
            end
        } else {
            note.time
        },
        None => note.time,
    }
}

/// The note is unresolved and due for more than the tolerance.
pub open spec fn expired(note: MapKey, game_time: i64, tolerance: u32) -> bool {
    !note.hit && due_time(note) - game_time < -tolerance
}

/// `expired` as a predicate on notes.
pub open spec fn is_expired(game_time: i64, tolerance: u32) -> spec_fn(MapKey) -> bool {
    |note: MapKey| expired(note, game_time, tolerance)
}

/// A note after the sweep has taken it: it is resolved, and if it is a
/// hold its start counts as resolved too.
pub open spec fn swept_note(note: MapKey) -> MapKey {
    MapKey { hit: true, hit_start: note.hit_start || note.is_hold(), ..note }
}

/// What the sweep does to a note.
pub open spec fn sweep_note(game_time: i64, tolerance: u32) -> spec_fn(MapKey) -> MapKey {
    |note: MapKey|
        if expired(note, game_time, tolerance) {
            swept_note(note)
        } else {
            note
        }
}

/// The `Miss` of a swept note.
pub open spec fn miss_of(game_time: i64) -> spec_fn(MapKey) -> Message {
    |note: MapKey| miss_message(note.direction, game_time)
}

/// The error that a swept note enters into the history: the whole
/// tolerance, late.
pub open spec fn miss_error(tolerance: u32) -> spec_fn(MapKey) -> i64 {
    |note: MapKey| (-(tolerance as int)) as i64
}

/// The state after the sweep at `game_time`: every expired note is
/// resolved; for each of them, in the order of the chart, the whole
/// tolerance is added to the score and a `Miss` is emitted, and, where
/// misses are included, the error `-tolerance` joins the history.
pub open spec fn swept(s: StateView, game_time: i64, config: Config) -> StateView {
    let tolerance = config.key_error_range;
    let missed = s.map.filter(is_expired(game_time, tolerance));
    StateView {
        map: s.map.map_values(sweep_note(game_time, tolerance)),
        score: score_plus(s.score, missed.len() * tolerance),
        messages: s.messages + missed.map_values(miss_of(game_time)),
        errors: if config.include_misses_in_histogram {
            s.errors + missed.map_values(miss_error(tolerance))
        } else {
            s.errors
        },
        ..s
    }
}

/// The state after the edge of one lane has been judged, if one is
/// pending there.
pub open spec fn lane_judged(
    s: StateView,
    pending: bool,
    lane: KeyDirection,
    released: bool,
    game_time: i64,
    config: Config,
) -> StateView {
    if pending {
        edge_judged(s, lane, released, game_time, config)
    } else {
        s
    }
}

/// The state after all pending edges have been judged: the presses of up,
/// down, left and right, then the releases in the same order. The flags
/// are cleared.
pub open spec fn edges_judged(s: StateView, game_time: i64, config: Config) -> StateView {
    let s1 = lane_judged(s, s.keys.up, KeyDirection::Up, false, game_time, config);
    let s2 = lane_judged(s1, s.keys.down, KeyDirection::Down, false, game_time, config);
    let s3 = lane_judged(s2, s.keys.left, KeyDirection::Left, false, game_time, config);
    let s4 = lane_judged(s3, s.keys.right, KeyDirection::Right, false, game_time, config);
    let s5 = lane_judged(s4, s.keys_released.up, KeyDirection::Up, true, game_time, config);
    let s6 = lane_judged(s5, s.keys_released.down, KeyDirection::Down, true, game_time, config);
    let s7 = lane_judged(s6, s.keys_released.left, KeyDirection::Left, true, game_time, config);
    let s8 = lane_judged(s7, s.keys_released.right, KeyDirection::Right, true, game_time, config);
    StateView { keys: KeysPressed::none(), keys_released: KeysPressed::none(), ..s8 }
}

/// The state after one tick: the pending edges are judged, then the
/// expired notes are swept, both at the judged time.
pub open spec fn ticked(s: StateView, config: Config) -> StateView {
    let game_time = judged_time(s.game_time, config);
    swept(edges_judged(s, game_time, config), game_time, config)
}

/// A judgment is still shown: it is younger than `duration`.
pub open spec fn is_recent(game_time: i64, duration: u32) -> spec_fn(Message) -> bool {
    |message: Message| game_time - message.time < duration
}

/// The state after the judgments that have been shown for `duration` are
/// dropped.
pub open spec fn messages_expired(s: StateView, duration: u32) -> StateView {
    StateView { messages: s.messages.filter(is_recent(s.game_time, duration)), ..s }
}

/// Whether the run is still paused after `elapsed_micros` microseconds:
/// the pause ends with the warm-up.
pub open spec fn still_paused(s: StateView, elapsed_micros: u64, config: Config) -> bool {
    s.paused && elapsed_micros / 1_000_000 < config.warmup_secs
}

/// Whether the song is to be started in this frame: it is not playing,
/// the run is not paused, and the clock has passed the chart's lead-in.
pub open spec fn song_starts(s: StateView) -> bool {
    !s.song_playing && !s.paused && s.game_time + s.song_meta.delay >= 0
}

/// The state after the clock has been read at the start of a frame: the
/// pause ends with the warm-up; while the run is not paused the game time
/// follows the clock; the song counts as playing once it is started.
pub open spec fn framed(s: StateView, elapsed_micros: u64, config: Config) -> StateView {
    let paused = still_paused(s, elapsed_micros, config);
    let timed = StateView {
        paused,
        game_time: if paused {
            s.game_time
        } else {
            clock_time(elapsed_micros, config, s.song_meta.delay)
        },
        ..s
    };
    StateView { song_playing: timed.song_playing || song_starts(timed), ..timed }
}

/// What the judging task does in one turn of its loop.
#[derive(Debug, Clone, Copy, PartialEq, Eq, Structural)]
pub enum Turn {
    /// The run is over: the loop ends.
    Stop,
    /// The run is paused: nothing is judged.
    Wait,
    /// One tick has been run.
    Ran,
}

/// What the judging task is to do in a state: a run that is quit stops,
/// whether paused or not; a paused run waits.
pub open spec fn turn_of(s: StateView) -> Turn {
    if s.quit {
        Turn::Stop
    } else if s.paused {
        Turn::Wait
    } else {
        Turn::Ran
    }
}

/// The time at which a note is over: the release of a hold, the start of a
/// plain note.
pub open spec fn note_end(note: MapKey) -> i64 {
    match note.time_end {
        Some(end) => end,
        None => note.time,
    }
}

/// `end` is the time at which the chart is over: the time at which the
/// last of its notes is over, and `None` for a chart without notes.
pub open spec fn is_chart_end(map: Seq<MapKey>, end: Option<i64>) -> bool {
    match end {
        None => map.len() == 0,
        Some(t) => {
            &&& exists|i: int| 0 <= i < map.len() && note_end(#[trigger] map[i]) == t
            &&& forall|i: int| 0 <= i < map.len() ==> note_end(#[trigger] map[i]) <= t
        },
    }
}

/// Adding to a score twice is adding the sum.
pub proof fn lemma_score_plus_twice(score: u64, a: int, b: int)
    requires
        a >= 0,
        b >= 0,
    ensures
        score_plus(score_plus(score, a), b) == score_plus(score, a + b),
{
}

/// Brings a number into the range of a time.
pub fn saturate(x: i128) -> (r: i64)
    ensures
        r == saturated(x as int),
{
    if x < -0x8000_0000_0000_0000 {
        i64::MIN
    } else if x > 0x7fff_ffff_ffff_ffff {
        i64::MAX
    } else {
        x as i64
    }
}

/// Reports whether the sweep takes the note.
pub fn is_expired_note(note: &MapKey, game_time: i64, tolerance: u32) -> (r: bool)
    ensures
        r == expired(*note, game_time, tolerance),
{
    if note.hit {
        return false;
    }
    let due: i64 = match note.time_end {
        Some(end) => if note.hit_start {
            end
        } else {
            note.time
        },
        None => note.time,
    };
    (due as i128) - (game_time as i128) < -(tolerance as i128)
}

impl State {
    /// The state at the start of a run of `map`: nothing pressed, nothing
    /// judged, paused, and the clock at the start of the chart's lead-in.
    pub open spec fn initial(map: Seq<MapKey>, song_meta: SmMetadataView) -> StateView {
        StateView {
            keys: KeysPressed::none(),
            keys_released: KeysPressed::none(),
            map,
            messages: Seq::empty(),
            game_time: saturated(-song_meta.delay),
            score: 0,
            quit: false,
            paused: true,
            song_playing: false,
            errors: Seq::empty(),
            song_meta,
        }
    }

    /// The state at the start of a run of `map`.
    pub fn new(map: Vec<MapKey>, song_meta: SmMetadata) -> (state: State)
        ensures
            state@ == State::initial(map@, song_meta@),
    {
        let game_time: i64 = saturate(-(song_meta.delay as i128));
        State {
            keys: KeysPressed::new(),
            keys_released: KeysPressed::new(),
            map,
            messages: Vec::new(),
            game_time,
            score: 0,
            quit: false,
            paused: true,
            song_playing: false,
            errors: Vec::new(),
            song_meta,
        }
    }

    /// Notes a press in `lane` for the next tick.
    pub fn press(&mut self, lane: KeyDirection)
        ensures
            final(self)@ == (StateView { keys: old(self)@.keys.spec_with(lane), ..old(self)@ }),
    {
        self.keys = self.keys.with(lane);
    }

    /// Notes a release in `lane` for the next tick.
    pub fn release(&mut self, lane: KeyDirection)
        ensures
            final(self)@ == (StateView {
                keys_released: old(self)@.keys_released.spec_with(lane),
                ..old(self)@
            }),
    {
        self.keys_released = self.keys_released.with(lane);
    }

    /// Judges one edge in `dir` at `game_time`: resolves the nearest
    /// matching note inside the window, if there is one, and scores it.
    pub fn check_direction(
        &mut self,
        config: &Config,
        dir: KeyDirection,
        key_was_released: bool,
        game_time: i64,
    )
        ensures
            final(self)@ == edge_judged(old(self)@, dir, key_was_released, game_time, *config),
    {
        if self.map.len() == 0 {
            return ;
        }
        let tolerance: u32 = config.key_error_range;
        match find_note(&self.map, dir, key_was_released, game_time, tolerance) {
            Some(i) => {
                let note: MapKey = self.map[i];
                let error: i64 = error_of(&note, key_was_released, game_time, tolerance);
                let size: u64 = distance(error, 0);
                let mut hit: MapKey = note;
                if note.time_end.is_some() && !note.hit_start {
                    hit.hit_start = true;
                } else {
                    hit.hit = true;
                }
                self.map.set(i, hit);
                self.score = add_score(self.score, size);
                self.errors.push(error);
                self.messages.push(
                    Message {
                        val: delay_to_message_val(size, tolerance),
                        direction: dir,
                        time: game_time,
                    },
                );
            },
            None => {
                if !config.disable_miss_penalty {
                    self.score = add_score(self.score, tolerance as u64);
                    self.messages.push(
                        Message { val: MessageVal::Miss, direction: dir, time: game_time },
                    );
                }
            },
        }
    }

    /// Sweeps the notes that have expired at `game_time`.
    pub fn sweep(&mut self, config: &Config, game_time: i64)
        ensures
            final(self)@ == swept(old(self)@, game_time, *config),
    {
        let tolerance: u32 = config.key_error_range;
        let ghost start = self@;
        let ghost expired_now = is_expired(game_time, tolerance);
        let mut i: usize = 0;
        assert(start.map.subrange(0, 0) =~= Seq::<MapKey>::empty());
        assert(self.messages@ =~= start.messages + start.map.subrange(0, 0).filter(
            expired_now,
        ).map_values(miss_of(game_time)));
        assert(self.errors@ =~= start.errors + start.map.subrange(0, 0).filter(
            expired_now,
        ).map_values(miss_error(tolerance)));
        while i < self.map.len()
            invariant
                i <= self.map@.len(),
                start == old(self)@,
                tolerance == config.key_error_range,
                expired_now == is_expired(game_time, tolerance),
                self.map@.len() == start.map.len(),
                forall|j: int|
                    0 <= j < i ==> self.map@[j] == sweep_note(game_time, tolerance)(
                        #[trigger] start.map[j],
                    ),
                forall|j: int| i <= j < self.map@.len() ==> self.map@[j] == #[trigger] start.map[j],
                self.score == score_plus(
                    start.score,
                    start.map.subrange(0, i as int).filter(expired_now).len() * tolerance,
                ),
                self.messages@ == start.messages + start.map.subrange(0, i as int).filter(
                    expired_now,
                ).map_values(miss_of(game_time)),
                self.errors@ == if config.include_misses_in_histogram {
                    start.errors + start.map.subrange(0, i as int).filter(expired_now).map_values(
                        miss_error(tolerance),
                    )
                } else {
                    start.errors
                },
                self@ == (StateView {
                    map: self.map@,
                    score: self.score,
                    messages: self.messages@,
                    errors: self.errors@,
                    ..start
                }),
            decreases self.map@.len() - i,
        {
            let note: MapKey = self.map[i];
            let ghost before = start.map.subrange(0, i as int);
            let ghost missed = before.filter(expired_now);
            proof {
                assert(start.map.subrange(0, i + 1) =~= before.push(note));
                before.lemma_filter_push(note, expired_now);
                missed.lemma_push_map_commute(miss_of(game_time), note);
                missed.lemma_push_map_commute(miss_error(tolerance), note);
            }
            if is_expired_note(&note, game_time, tolerance) {
                let mut gone: MapKey = note;
                if note.time_end.is_some() {
                    gone.hit_start = true;
                }
                gone.hit = true;
                self.map.set(i, gone);
                proof {
                    lemma_score_plus_twice(
                        start.score,
                        missed.len() * tolerance,
                        tolerance as int,
                    );
                    assert((missed.len() + 1) * tolerance == missed.len() * tolerance + tolerance)
                        by (nonlinear_arith);
                    assert(missed.len() * tolerance >= 0) by (nonlinear_arith)
                        requires
                            missed.len() >= 0,
                            tolerance >= 0,
                    ;
                }
                self.score = add_score(self.score, tolerance as u64);
                if config.include_misses_in_histogram {
                    self.errors.push(-(tolerance as i64));
                }
                self.messages.push(
                    Message { val: MessageVal::Miss, direction: note.direction, time: game_time },
                );
            }
            i += 1;
        }
        assert(start.map.subrange(0, i as int) =~= start.map);
        assert(self.map@ =~= start.map.map_values(sweep_note(game_time, tolerance)));
    }

    /// Runs one tick: judges the pending edges, clears them, and sweeps
    /// the expired notes.
    pub fn physics(&mut self, config: &Config)
        ensures
            final(self)@ == ticked(old(self)@, *config),
    {
        let game_time: i64 = saturate(
            self.game_time as i128 - config.key_latency_offset as i128
                - config.audio_delay as i128,
        );
        let keys: KeysPressed = self.keys;
        let released: KeysPressed = self.keys_released;
        if keys.up {
            self.check_direction(config, KeyDirection::Up, false, game_time);
        }
        if keys.down {
            self.check_direction(config, KeyDirection::Down, false, game_time);
        }
        if keys.left {
            self.check_direction(config, KeyDirection::Left, false, game_time);
        }
        if keys.right {
            self.check_direction(config, KeyDirection::Right, false, game_time);
        }
        if released.up {
            self.check_direction(config, KeyDirection::Up, true, game_time);
        }
        if released.down {
            self.check_direction(config, KeyDirection::Down, true, game_time);
        }
        if released.left {
            self.check_direction(config, KeyDirection::Left, true, game_time);
        }
        if released.right {
            self.check_direction(config, KeyDirection::Right, true, game_time);
        }
        self.keys = KeysPressed::new();
        self.keys_released = KeysPressed::new();
        self.sweep(config, game_time);
    }

    /// One turn of the judging task: runs a tick unless the run is quit
    /// or paused, and says which of the three it was.
    pub fn turn(&mut self, config: &Config) -> (turn: Turn)
        ensures
            turn == turn_of(old(self)@),
            final(self)@ == if turn == Turn::Ran {
                ticked(old(self)@, *config)
            } else {
                old(self)@
            },
    {
        if self.quit {
            Turn::Stop
        } else if self.paused {
            Turn::Wait
        } else {
            self.physics(config);
            Turn::Ran
        }
    }

    /// The time at which the chart is over.
    pub fn end_time(&self) -> (end: Option<i64>)
        ensures
            is_chart_end(self@.map, end),
    {
        if self.map.len() == 0 {
            return None;
        }
        let mut latest: i64 = match self.map[0].time_end {
            Some(end) => end,
            None => self.map[0].time,
        };
        let mut i: usize = 1;
        while i < self.map.len()
            invariant
                1 <= i <= self.map@.len(),
                exists|k: int| 0 <= k < i && note_end(#[trigger] self.map@[k]) == latest,
                forall|k: int| 0 <= k < i ==> note_end(#[trigger] self.map@[k]) <= latest,
            decreases self.map@.len() - i,
        {
            let end: i64 = match self.map[i].time_end {
                Some(end) => end,
                None => self.map[i].time,
            };
            if end > latest {
                latest = end;
            }
            i += 1;
        }
        Some(latest)
    }

    /// Reads the clock at the start of a frame, `elapsed_micros`
    /// microseconds into the run, and reports whether the song is to be
    /// started now.
    pub fn frame(&mut self, config: &Config, elapsed_micros: u64) -> (start_song: bool)
        ensures
            final(self)@ == framed(old(self)@, elapsed_micros, *config),
            start_song == song_starts(
                StateView { song_playing: old(self)@.song_playing, ..final(self)@ },
            ),
            start_song ==> !old(self)@.song_playing && final(self)@.song_playing,
    {
        if self.paused && elapsed_micros / 1_000_000 >= config.warmup_secs as u64 {
            self.paused = false;
        }
        if !self.paused {
            self.game_time = saturate(
                (elapsed_micros / 1000) as i128 - config.warmup_secs as i128 * 1000
                    + config.seconds_to_skip as i128 * 1000 - self.song_meta.delay as i128,
            );
        }
        let start_song: bool = !self.song_playing && !self.paused && self.game_time as i128
            + self.song_meta.delay as i128 >= 0;
        if start_song {
            self.song_playing = true;
        }
        start_song
    }

    /// Drops the judgments that have been shown for `duration`.
    pub fn expire_messages(&mut self, duration: u32)
        ensures
            final(self)@ == messages_expired(old(self)@, duration),
    {
        let ghost recent = is_recent(self.game_time, duration);
        let mut kept: Vec<Message> = Vec::new();
        let mut i: usize = 0;
        assert(self.messages@.subrange(0, 0) =~= Seq::<Message>::empty());
        while i < self.messages.len()
            invariant
                i <= self.messages@.len(),
                self@ == old(self)@,
                recent == is_recent(self.game_time, duration),
                kept@ == self.messages@.subrange(0, i as int).filter(recent),
            decreases self.messages@.len() - i,
        {
            let message: Message = self.messages[i];
            proof {
                let before = self.messages@.subrange(0, i as int);
                assert(self.messages@.subrange(0, i + 1) =~= before.push(message));
                before.lemma_filter_push(message, recent);
            }
            if (self.game_time as i128) - (message.time as i128) < duration as i128 {
                kept.push(message);
            }
            i += 1;
        }
        assert(self.messages@.subrange(0, i as int) =~= self.messages@);
        self.messages = kept;
    }
}

} // verus!
