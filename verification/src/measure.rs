//! Measures of a chart: rows of lane characters and the clock that times
//! them.
//!
//! A measure is four beats long whatever its number of rows, so a row of a
//! measure of `n` rows lasts `4 / n` beats at the tempo in force at the
//! beat in which the row starts. The clock counts nanoseconds, so that the
//! rounding of one row does not add up over a chart; a note gets the
//! millisecond that is nearest to the clock.

use vstd::prelude::*;
use crate::error::ParseError;
use crate::note::{KeyDirection, MapKey};
use crate::tempo::{lookup_tempo, tempo_at, Tempo};
use crate::text::views;

verus! {

/// `0`: no note.
pub const ROW_EMPTY: u8 = 48;

/// `1`: a plain note.
pub const ROW_NOTE: u8 = 49;

/// `2`: the start of a hold.
pub const ROW_HOLD_START: u8 = 50;

/// `3`: the end of a hold.
pub const ROW_HOLD_END: u8 = 51;

/// `M`: a mine; passed over.
pub const ROW_MINE: u8 = 77;

/// Nanoseconds in a millisecond.
pub const NANOS_PER_MILLI: u64 = 1_000_000;

/// The length in nanoseconds of a measure at a tempo of one thousandth of
/// a beat per minute: four beats of 60,000 seconds each.
pub const MEASURE_NANOS: u64 = 240_000_000_000_000;

/// Beats in a measure.
pub const BEATS_PER_MEASURE: u64 = 4;

/// The start times of the holds that are waiting for their end, by lane.
#[derive(Debug, Clone, Copy, PartialEq, Eq)]
pub struct PendingHolds {
    pub left: Option<i64>,
    pub down: Option<i64>,
    pub up: Option<i64>,
    pub right: Option<i64>,
}

/// The notes of one difficulty section as far as they are read, the holds
/// that are pending, and the clock: nanoseconds since the section's start
/// and the beat at which the current measure starts.
#[derive(Debug)]
pub struct Section {
    pub keys: Vec<MapKey>,
    pub holds: PendingHolds,
    pub clock: u64,
    pub beat: u64,
}

/// A section as a value of the model: its notes as a sequence.
pub struct SectionView {
    pub keys: Seq<MapKey>,
    pub holds: PendingHolds,
    pub clock: u64,
    pub beat: u64,
}

impl View for Section {
    type V = SectionView;

    open spec fn view(&self) -> SectionView {
        SectionView { keys: self.keys@, holds: self.holds, clock: self.clock, beat: self.beat }
    }
}

impl PendingHolds {
    /// No hold is pending.
    pub open spec fn none() -> PendingHolds {
        PendingHolds { left: None, down: None, up: None, right: None }
    }

    /// The start of the hold that is pending in `lane`.
    pub open spec fn spec_get(self, lane: KeyDirection) -> Option<i64> {
        match lane {
            KeyDirection::Left => self.left,
            KeyDirection::Down => self.down,
            KeyDirection::Up => self.up,
            KeyDirection::Right => self.right,
        }
    }

    /// These holds with the entry of `lane` replaced.
    pub open spec fn spec_set(self, lane: KeyDirection, start: Option<i64>) -> PendingHolds {
        match lane {
            KeyDirection::Left => PendingHolds { left: start, ..self },
            KeyDirection::Down => PendingHolds { down: start, ..self },
            KeyDirection::Up => PendingHolds { up: start, ..self },
            KeyDirection::Right => PendingHolds { right: start, ..self },
        }
    }

    /// No hold is pending.
    pub fn new() -> (holds: PendingHolds)
        ensures
            holds == PendingHolds::none(),
    {
        PendingHolds { left: None, down: None, up: None, right: None }
    }

    /// The start of the hold that is pending in `lane`.
    #[verifier::when_used_as_spec(spec_get)]
    pub fn get(self, lane: KeyDirection) -> (start: Option<i64>)
        ensures
            start == self.spec_get(lane),
    {
        match lane {
            KeyDirection::Left => self.left,
            KeyDirection::Down => self.down,
            KeyDirection::Up => self.up,
            KeyDirection::Right => self.right,
        }
    }

    /// These holds with the entry of `lane` replaced.
    #[verifier::when_used_as_spec(spec_set)]
    pub fn set(self, lane: KeyDirection, start: Option<i64>) -> (holds: PendingHolds)
        ensures
            holds == self.spec_set(lane, start),
    {
        match lane {
            KeyDirection::Left => PendingHolds { left: start, ..self },
            KeyDirection::Down => PendingHolds { down: start, ..self },
            KeyDirection::Up => PendingHolds { up: start, ..self },
            KeyDirection::Right => PendingHolds { right: start, ..self },
        }
    }

    /// Reports whether no hold is pending.
    pub fn is_empty(self) -> (r: bool)
        ensures
            r == (self == PendingHolds::none()),
    {
        self.left.is_none() && self.down.is_none() && self.up.is_none() && self.right.is_none()
    }
}

/// The lane of a column of a row: left, down, up, right.
pub open spec fn lane_of(column: int) -> Option<KeyDirection> {
    if column == 0 {
        Some(KeyDirection::Left)
    } else if column == 1 {
        Some(KeyDirection::Down)
    } else if column == 2 {
        Some(KeyDirection::Up)
    } else if column == 3 {
        Some(KeyDirection::Right)
    } else {
        None
    }
}

/// The characters that a row may hold.
pub open spec fn is_row_char(c: u8) -> bool {
    c == ROW_EMPTY || c == ROW_NOTE || c == ROW_HOLD_START || c == ROW_HOLD_END || c == ROW_MINE
}

/// The millisecond nearest to a clock; half a millisecond counts up.
pub open spec fn clock_millis(clock: u64) -> i64 {
    ((clock + NANOS_PER_MILLI / 2) / NANOS_PER_MILLI as int) as i64
}

/// Every note is well formed and untouched.
pub open spec fn all_fresh(keys: Seq<MapKey>) -> bool {
    forall|i: int| 0 <= i < keys.len() ==> (#[trigger] keys[i]).wf() && keys[i].fresh()
}

/// What one character of a row does at the current clock.
///
/// `1` adds a plain note. `2` makes a hold pending in its lane, in place of
/// one that was pending there. `3` ends the pending hold of its lane and
/// adds the hold note. `0` and `M` do nothing.
pub open spec fn place_char(s: SectionView, column: int, c: u8) -> Result<
    SectionView,
    ParseError,
> {
    let now = clock_millis(s.clock);
    if c == ROW_EMPTY || c == ROW_MINE {
        Ok(s)
    } else if !is_row_char(c) {
        Err(ParseError::UnknownRowCharacter)
    } else {
        match lane_of(column) {
            None => Err(ParseError::LaneOutOfRange),
            Some(lane) => {
                if c == ROW_NOTE {
                    Ok(
                        SectionView {
                            keys: s.keys.push(
                                MapKey {
                                    direction: lane,
                                    time: now,
                                    hit: false,
                                    hit_start: false,
                                    time_end: None,
                                },
                            ),
                            ..s
                        },
                    )
                } else if c == ROW_HOLD_START {
                    Ok(SectionView { holds: s.holds.spec_set(lane, Some(now)), ..s })
                } else {
                    match s.holds.spec_get(lane) {
                        None => Err(ParseError::HoldEndWithoutStart),
                        Some(start) => {
                            if now > start {
                                Ok(
                                    SectionView {
                                        keys: s.keys.push(
                                            MapKey {
                                                direction: lane,
                                                time: start,
                                                hit: false,
                                                hit_start: false,
                                                time_end: Some(now),
                                            },
                                        ),
                                        holds: s.holds.spec_set(lane, None),
                                        ..s
                                    },
                                )
                            } else {
                                Err(ParseError::HoldNotAfterStart)
                            }
                        },
                    }
                }
            },
        }
    }
}

/// What the first `upto` characters of a row do, left to right; the first
/// character that is refused decides the error.
pub open spec fn place_row(s: SectionView, row: Seq<u8>, upto: int) -> Result<
    SectionView,
    ParseError,
>
    decreases upto,
{
    if upto <= 0 {
        Ok(s)
    } else {
        match place_row(s, row, upto - 1) {
            Err(e) => Err(e),
            Ok(before) => place_char(before, upto - 1, row[upto - 1]),
        }
    }
}

/// How long a row of a measure of `rows` rows lasts at tempo `bpm`, in
/// nanoseconds, rounded down.
pub open spec fn row_nanos(bpm: u64, rows: int) -> int {
    MEASURE_NANOS as int / (bpm * rows)
}

/// The beat in which row `index` of a measure of `rows` rows starts,
/// counted from the start of the measure.
pub open spec fn row_beat(index: int, rows: int) -> int {
    (BEATS_PER_MEASURE * index) / rows
}

/// One row of a measure: the tempo is looked up, the characters are placed
/// at the current clock, and the clock moves on by the length of the row.
pub open spec fn time_row(s: SectionView, tempos: Seq<Tempo>, row: Seq<u8>, index: int, rows: int)
    -> Result<SectionView, ParseError> {
    match tempo_at(tempos, s.beat + row_beat(index, rows)) {
        None => Err(ParseError::NoTempo),
        Some(bpm) => if bpm == 0 {
            Err(ParseError::NoTempo)
        } else {
            match place_row(s, row, row.len() as int) {
                Err(e) => Err(e),
                Ok(placed) => if placed.clock + row_nanos(bpm, rows) > u64::MAX {
                    Err(ParseError::ClockOverflow)
                } else {
                    Ok(
                        SectionView {
                            clock: (placed.clock + row_nanos(bpm, rows)) as u64,
                            ..placed
                        },
                    )
                },
            }
        },
    }
}

/// The first `upto` rows of a measure, in order.
pub open spec fn time_rows(s: SectionView, tempos: Seq<Tempo>, rows: Seq<Seq<u8>>, upto: int)
    -> Result<SectionView, ParseError>
    decreases upto,
{
    if upto <= 0 {
        Ok(s)
    } else {
        match time_rows(s, tempos, rows, upto - 1) {
            Err(e) => Err(e),
            Ok(before) => time_row(before, tempos, rows[upto - 1], upto - 1, rows.len() as int),
        }
    }
}

/// A whole measure. A measure without rows changes nothing; one with rows
/// moves the beat on by four.
pub open spec fn time_measure(s: SectionView, tempos: Seq<Tempo>, rows: Seq<Seq<u8>>) -> Result<
    SectionView,
    ParseError,
> {
    if rows.len() == 0 {
        Ok(s)
    } else if s.beat + BEATS_PER_MEASURE > u64::MAX {
        Err(ParseError::ClockOverflow)
    } else {
        match time_rows(s, tempos, rows, rows.len() as int) {
            Err(e) => Err(e),
            Ok(timed) => Ok(SectionView { beat: (timed.beat + BEATS_PER_MEASURE) as u64, ..timed }),
        }
    }
}

/// The result of a step on a section, seen as its model.
pub open spec fn section_result(r: Result<Section, ParseError>) -> Result<SectionView, ParseError> {
    match r {
        Ok(s) => Ok(s@),
        Err(e) => Err(e),
    }
}

/// Placing a character succeeds only on a row character, keeps clock and
/// beat, keeps the notes that were there, and adds only notes that are
/// well formed and untouched.
pub proof fn lemma_place_char(s: SectionView, column: int, c: u8)
    ensures
        place_char(s, column, c) matches Ok(t) ==> {
            &&& is_row_char(c)
            &&& t.clock == s.clock
            &&& t.beat == s.beat
            &&& s.keys.is_prefix_of(t.keys)
            &&& all_fresh(s.keys) ==> all_fresh(t.keys)
        },
{
    if let Ok(t) = place_char(s, column, c) {
        if all_fresh(s.keys) {
            assert forall|i: int| 0 <= i < t.keys.len() implies (#[trigger] t.keys[i]).wf()
                && t.keys[i].fresh() by {
                if i < s.keys.len() {
                    assert(t.keys[i] == s.keys[i]);
                }
            }
        }
    }
}

/// Placing a row succeeds only where every character is a row character,
/// keeps clock and beat, keeps the notes that were there, and adds only
/// notes that are well formed and untouched.
pub proof fn lemma_place_row(s: SectionView, row: Seq<u8>, upto: int)
    requires
        0 <= upto <= row.len(),
    ensures
        place_row(s, row, upto) matches Ok(t) ==> {
            &&& forall|c: int| 0 <= c < upto ==> is_row_char(#[trigger] row[c])
            &&& t.clock == s.clock
            &&& t.beat == s.beat
            &&& s.keys.is_prefix_of(t.keys)
            &&& all_fresh(s.keys) ==> all_fresh(t.keys)
        },
    decreases upto,
{
    if upto > 0 {
        lemma_place_row(s, row, upto - 1);
        if let Ok(before) = place_row(s, row, upto - 1) {
            lemma_place_char(before, upto - 1, row[upto - 1]);
        }
    }
}

/// Timing rows succeeds only where every character is a row character,
/// keeps the beat, never turns the clock back, keeps the notes that were
/// there, and adds only notes that are well formed and untouched.
pub proof fn lemma_time_rows(s: SectionView, tempos: Seq<Tempo>, rows: Seq<Seq<u8>>, upto: int)
    requires
        0 <= upto <= rows.len(),
    ensures
        time_rows(s, tempos, rows, upto) matches Ok(t) ==> {
            &&& forall|r: int, c: int|
                0 <= r < upto && 0 <= c < rows[r].len() ==> is_row_char(#[trigger] rows[r][c])
            &&& t.beat == s.beat
            &&& t.clock >= s.clock
            &&& s.keys.is_prefix_of(t.keys)
            &&& all_fresh(s.keys) ==> all_fresh(t.keys)
        },
    decreases upto,
{
    if upto > 0 {
        lemma_time_rows(s, tempos, rows, upto - 1);
        if let Ok(before) = time_rows(s, tempos, rows, upto - 1) {
            let row = rows[upto - 1];
            lemma_place_row(before, row, row.len() as int);
            if let Ok(t) = time_row(before, tempos, row, upto - 1, rows.len() as int) {
                let bpm = tempo_at(tempos, before.beat + row_beat(upto - 1, rows.len() as int))->0;
                lemma_row_nanos(bpm, rows.len() as int);
            }
        }
    }
}

/// A measure is refused where one of its rows holds a character that is
/// not a row character; a measure that is read adds only notes that are
/// well formed and untouched.
pub proof fn lemma_time_measure(s: SectionView, tempos: Seq<Tempo>, rows: Seq<Seq<u8>>)
    ensures
        (exists|r: int, c: int| 0 <= r < rows.len() && 0 <= c < rows[r].len() && !is_row_char(rows[r][c]))
            ==> time_measure(s, tempos, rows) is Err,
        time_measure(s, tempos, rows) matches Ok(t) ==> {
            &&& t.clock >= s.clock
            &&& s.keys.is_prefix_of(t.keys)
            &&& all_fresh(s.keys) ==> all_fresh(t.keys)
        },
{
    lemma_time_rows(s, tempos, rows, rows.len() as int);
}

/// A row lasts at most as long as a measure at the slowest tempo.
pub proof fn lemma_row_nanos(bpm: u64, rows: int)
    requires
        bpm > 0,
        rows > 0,
    ensures
        0 <= row_nanos(bpm, rows) <= MEASURE_NANOS,
{
    assert(bpm * rows >= 1) by (nonlinear_arith)
        requires
            bpm >= 1,
            rows >= 1,
    ;
    vstd::arithmetic::div_mod::lemma_div_is_ordered_by_denominator(
        MEASURE_NANOS as int,
        1,
        bpm * rows,
    );
    vstd::arithmetic::div_mod::lemma_div_pos_is_pos(MEASURE_NANOS as int, bpm * rows);
}

impl Section {
    /// A section at its start: no notes, no pending hold, clock and beat
    /// at zero.
    pub open spec fn start() -> SectionView {
        SectionView { keys: Seq::empty(), holds: PendingHolds::none(), clock: 0, beat: 0 }
    }

    /// A section at its start.
    pub fn new() -> (s: Section)
        ensures
            s@ == Section::start(),
    {
        Section { keys: Vec::new(), holds: PendingHolds::new(), clock: 0, beat: 0 }
    }
}

/// Finds the lane of a column.
pub fn column_lane(column: usize) -> (lane: Option<KeyDirection>)
    ensures
        lane == lane_of(column as int),
{
    if column == 0 {
        Some(KeyDirection::Left)
    } else if column == 1 {
        Some(KeyDirection::Down)
    } else if column == 2 {
        Some(KeyDirection::Up)
    } else if column == 3 {
        Some(KeyDirection::Right)
    } else {
        None
    }
}

/// The millisecond nearest to a clock.
pub fn nearest_milli(clock: u64) -> (now: i64)
    ensures
        now == clock_millis(clock),
        now >= 0,
{
    ((clock as u128 + (NANOS_PER_MILLI / 2) as u128) / (NANOS_PER_MILLI as u128)) as i64
}

/// Places one character of a row.
pub fn read_char(section: Section, column: usize, c: u8) -> (r: Result<Section, ParseError>)
    ensures
        section_result(r) == place_char(section@, column as int, c),
{
    let mut section = section;
    if c == ROW_EMPTY || c == ROW_MINE {
        return Ok(section);
    }
    if c != ROW_NOTE && c != ROW_HOLD_START && c != ROW_HOLD_END {
        return Err(ParseError::UnknownRowCharacter);
    }
    let lane: KeyDirection = match column_lane(column) {
        None => {
            return Err(ParseError::LaneOutOfRange);
        },
        Some(lane) => lane,
    };
    let now: i64 = nearest_milli(section.clock);
    if c == ROW_NOTE {
        section.keys.push(
            MapKey { direction: lane, time: now, hit: false, hit_start: false, time_end: None },
        );
        Ok(section)
    } else if c == ROW_HOLD_START {
        section.holds = section.holds.set(lane, Some(now));
        Ok(section)
    } else {
        match section.holds.get(lane) {
            None => Err(ParseError::HoldEndWithoutStart),
            Some(start) => {
                if now > start {
                    section.keys.push(
                        MapKey {
                            direction: lane,
                            time: start,
                            hit: false,
                            hit_start: false,
                            time_end: Some(now),
                        },
                    );
                    section.holds = section.holds.set(lane, None);
                    Ok(section)
                } else {
                    Err(ParseError::HoldNotAfterStart)
                }
            },
        }
    }
}

/// Places the characters of a row at the current clock. A row with a
/// character other than `0`, `1`, `2`, `3` and `M` is refused.
#[verifier::loop_isolation(false)]
pub fn read_row(section: Section, row: &[u8]) -> (r: Result<Section, ParseError>)
    ensures
        section_result(r) == place_row(section@, row@, row@.len() as int),
        (exists|c: int| 0 <= c < row@.len() && !is_row_char(row@[c])) ==> r is Err,
{
    let ghost start = section@;
    let mut section = section;
    let mut column: usize = 0;
    while column < row.len()
        invariant
            column <= row.len(),
            place_row(start, row@, column as int) == Ok::<SectionView, ParseError>(section@),
        decreases row.len() - column,
    {
        match read_char(section, column, row[column]) {
            Err(e) => {
                proof {
                    lemma_place_row_error(start, row@, column + 1);
                }
                return Err(e);
            },
            Ok(next) => {
                section = next;
            },
        }
        column += 1;
    }
    proof {
        lemma_place_row(start, row@, row@.len() as int);
    }
    Ok(section)
}

/// An error among the first characters is the error of the whole row.
pub proof fn lemma_place_row_error(s: SectionView, row: Seq<u8>, k: int)
    requires
        0 <= k <= row.len(),
        place_row(s, row, k) is Err,
    ensures
        place_row(s, row, row.len() as int) == place_row(s, row, k),
    decreases row.len() - k,
{
    if k < row.len() {
        lemma_place_row_error(s, row, k + 1);
    }
}

/// An error among the first rows is the error of the whole measure.
pub proof fn lemma_time_rows_error(s: SectionView, tempos: Seq<Tempo>, rows: Seq<Seq<u8>>, k: int)
    requires
        0 <= k <= rows.len(),
        time_rows(s, tempos, rows, k) is Err,
    ensures
        time_rows(s, tempos, rows, rows.len() as int) == time_rows(s, tempos, rows, k),
    decreases rows.len() - k,
{
    if k < rows.len() {
        lemma_time_rows_error(s, tempos, rows, k + 1);
    }
}

/// A row starts in one of the four beats of its measure.
pub proof fn lemma_row_beat(index: int, rows: int)
    requires
        0 <= index < rows,
    ensures
        0 <= row_beat(index, rows) < BEATS_PER_MEASURE,
{
    let q = (4 * index) / rows;
    vstd::arithmetic::div_mod::lemma_fundamental_div_mod(4 * index, rows);
    vstd::arithmetic::div_mod::lemma_mod_bound(4 * index, rows);
    let r = (4 * index) % rows;
    assert(0 <= q < 4) by (nonlinear_arith)
        requires
            4 * index == rows * q + r,
            0 <= r < rows,
            0 <= index < rows,
    ;
}

/// Computes the length of a row.
pub fn row_length(bpm: u64, rows: usize) -> (nanos: u64)
    requires
        bpm > 0,
        rows > 0,
    ensures
        nanos == row_nanos(bpm, rows as int),
{
    proof {
        lemma_row_nanos(bpm, rows as int);
        assert(0 < bpm * rows <= 0xffff_ffff_ffff_ffff * 0xffff_ffff_ffff_ffff)
            by (nonlinear_arith)
            requires
                0 < bpm <= 0xffff_ffff_ffff_ffff,
                0 < rows <= 0xffff_ffff_ffff_ffff,
        ;
    }
    let per_measure: u128 = bpm as u128 * rows as u128;
    (MEASURE_NANOS as u128 / per_measure) as u64
}

/// Times one row of a measure of `rows` rows.
fn read_timed_row(
    section: Section,
    tempos: &Vec<Tempo>,
    row: &[u8],
    index: usize,
    rows: usize,
) -> (r: Result<Section, ParseError>)
    requires
        index < rows,
        section.beat + BEATS_PER_MEASURE <= u64::MAX,
    ensures
        section_result(r) == time_row(section@, tempos@, row@, index as int, rows as int),
{
    proof {
        lemma_row_beat(index as int, rows as int);
    }
    let within: u64 = ((index as u128 * 4) / (rows as u128)) as u64;
    let bpm: u64 = match lookup_tempo(tempos, section.beat + within) {
        None => {
            return Err(ParseError::NoTempo);
        },
        Some(bpm) => bpm,
    };
    if bpm == 0 {
        return Err(ParseError::NoTempo);
    }
    let ghost before = section@;
    let mut placed: Section = match read_row(section, row) {
        Err(e) => {
            return Err(e);
        },
        Ok(placed) => placed,
    };
    let nanos: u64 = row_length(bpm, rows);
    match placed.clock.checked_add(nanos) {
        None => Err(ParseError::ClockOverflow),
        Some(clock) => {
            placed.clock = clock;
            Ok(placed)
        },
    }
}

/// Times a whole measure: places the notes of its rows and moves the
/// clock on.
#[verifier::loop_isolation(false)]
pub fn read_measure(section: Section, tempos: &Vec<Tempo>, rows: &Vec<&[u8]>) -> (r: Result<
    Section,
    ParseError,
>)
    ensures
        section_result(r) == time_measure(section@, tempos@, views(rows@)),
        all_fresh(section@.keys) ==> (r matches Ok(s) ==> all_fresh(s@.keys)),
        (exists|i: int, c: int|
            0 <= i < rows@.len() && 0 <= c < rows@[i]@.len() && !is_row_char(rows@[i]@[c]))
            ==> r is Err,
{
    let count: usize = rows.len();
    if count == 0 {
        return Ok(section);
    }
    if section.beat > u64::MAX - BEATS_PER_MEASURE {
        return Err(ParseError::ClockOverflow);
    }
    let ghost start = section@;
    let ghost lines = views(rows@);
    let mut section = section;
    let mut index: usize = 0;
    while index < count
        invariant
            index <= count,
            count == rows@.len(),
            lines == views(rows@),
            start.beat + BEATS_PER_MEASURE <= u64::MAX,
            time_rows(start, tempos@, lines, index as int) == Ok::<SectionView, ParseError>(
                section@,
            ),
            section.beat == start.beat,
        decreases count - index,
    {
        assert(lines[index as int] == rows@[index as int]@);
        match read_timed_row(section, tempos, rows[index], index, count) {
            Err(e) => {
                proof {
                    lemma_time_rows_error(start, tempos@, lines, index + 1);
                }
                return Err(e);
            },
            Ok(next) => {
                proof {
                    lemma_place_row(section@, lines[index as int], lines[index as int].len() as int);
                }
                section = next;
            },
        }
        index += 1;
    }
    proof {
        lemma_time_rows(start, tempos@, lines, count as int);
        assert forall|i: int, c: int|
            0 <= i < rows@.len() && 0 <= c < rows@[i]@.len() implies is_row_char(rows@[i]@[c]) by {
            assert(lines[i] == rows@[i]@);
            assert(is_row_char(lines[i][c]));
        }
    }
    section.beat = section.beat + BEATS_PER_MEASURE;
    Ok(section)
}

} // verus!
