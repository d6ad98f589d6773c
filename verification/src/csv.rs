//! The pre-converted chart format: the line `Time<TAB>Direction`, then one
//! line `<time><TAB><lane letter>` for each note.
//!
//! The format holds the time and the lane of a note and nothing else:
//! writing a chart drops the release times of its holds, so every note
//! that is read back is a plain one.

use vstd::prelude::*;
use crate::decimal::{
    decimal_of, integer_text, lemma_integer_text_read_back, parse_decimal, push_integer, Decimal,
};
use crate::error::ParseError;
use crate::note::{KeyDirection, MapKey};
use crate::text::{
    lemma_split_at, lemma_split_concat, lemma_split_none, lemma_split_nonempty, split, split_bytes,
    starts_with, to_vec, views, NEWLINE, TAB,
};

verus! {

/// `Time<TAB>Direction`
pub open spec fn csv_header() -> Seq<u8> {
    seq![
        'T' as u8,
        'i' as u8,
        'm' as u8,
        'e' as u8,
        TAB,
        'D' as u8,
        'i' as u8,
        'r' as u8,
        'e' as u8,
        'c' as u8,
        't' as u8,
        'i' as u8,
        'o' as u8,
        'n' as u8,
    ]
}

/// The letter that names a lane.
pub open spec fn lane_letter(lane: KeyDirection) -> u8 {
    match lane {
        KeyDirection::Up => 'U' as u8,
        KeyDirection::Down => 'D' as u8,
        KeyDirection::Left => 'L' as u8,
        KeyDirection::Right => 'R' as u8,
    }
}

/// The lane that a field names: the field is one lane letter.
pub open spec fn letter_lane(field: Seq<u8>) -> Option<KeyDirection> {
    if field == seq!['U' as u8] {
        Some(KeyDirection::Up)
    } else if field == seq!['D' as u8] {
        Some(KeyDirection::Down)
    } else if field == seq!['L' as u8] {
        Some(KeyDirection::Left)
    } else if field == seq!['R' as u8] {
        Some(KeyDirection::Right)
    } else {
        None
    }
}

/// The plain, untouched note at the time and in the lane of `key`.
pub open spec fn as_plain(key: MapKey) -> MapKey {
    MapKey { direction: key.direction, time: key.time, hit: false, hit_start: false, time_end: None }
}

/// The note that a line writes. The time is a number of milliseconds; a
/// fraction is dropped.
pub open spec fn csv_note(line: Seq<u8>) -> Result<MapKey, ParseError> {
    let fields = split(line, TAB);
    if fields.len() != 2 {
        Err(ParseError::InvalidLine)
    } else {
        match letter_lane(fields[1]) {
            None => Err(ParseError::InvalidKey),
            Some(lane) => match decimal_of(fields[0]) {
                None => Err(ParseError::BadNumber),
                Some(d) => if i64::MIN <= d.truncated() <= i64::MAX {
                    Ok(
                        MapKey {
                            direction: lane,
                            time: d.truncated() as i64,
                            hit: false,
                            hit_start: false,
                            time_end: None,
                        },
                    )
                } else {
                    Err(ParseError::BadNumber)
                },
            },
        }
    }
}

/// The notes that lines write, in order. Empty lines are skipped; the
/// first line that is refused decides the error.
pub open spec fn csv_notes(lines: Seq<Seq<u8>>) -> Result<Seq<MapKey>, ParseError>
    decreases lines.len(),
{
    if lines.len() == 0 {
        Ok(Seq::empty())
    } else {
        match csv_notes(lines.drop_last()) {
            Err(e) => Err(e),
            Ok(before) => if lines.last().len() == 0 {
                Ok(before)
            } else {
                match csv_note(lines.last()) {
                    Err(e) => Err(e),
                    Ok(key) => Ok(before.push(key)),
                }
            },
        }
    }
}

/// The chart that a text writes: the text starts with the header line and
/// every further line writes a note.
pub open spec fn csv_chart(text: Seq<u8>) -> Result<Seq<MapKey>, ParseError> {
    if !(csv_header().push(NEWLINE)).is_prefix_of(text) {
        Err(ParseError::InvalidHeader)
    } else {
        csv_notes(split(text, NEWLINE).drop_first())
    }
}

/// The line of a note, without its line end.
pub open spec fn csv_line(key: MapKey) -> Seq<u8> {
    integer_text(key.time as int) + seq![TAB, lane_letter(key.direction)]
}

/// The lines of notes, each with its line end.
pub open spec fn csv_lines(keys: Seq<MapKey>) -> Seq<u8>
    decreases keys.len(),
{
    if keys.len() == 0 {
        Seq::empty()
    } else {
        csv_lines(keys.drop_last()) + csv_line(keys.last()).push(NEWLINE)
    }
}

/// The text of a chart: the header line and the lines of its notes in the
/// order given.
pub open spec fn csv_text(keys: Seq<MapKey>) -> Seq<u8> {
    csv_header().push(NEWLINE) + csv_lines(keys)
}

/// Where `key` goes into a list that is ordered by time: behind every
/// note that is not later than it.
pub open spec fn insert_position(sorted: Seq<MapKey>, time: i64) -> nat
    decreases sorted.len(),
{
    if sorted.len() == 0 || sorted.last().time <= time {
        sorted.len()
    } else {
        insert_position(sorted.drop_last(), time)
    }
}

/// The notes ordered by time; notes of one time keep their order.
pub open spec fn sorted_by_time(keys: Seq<MapKey>) -> Seq<MapKey>
    decreases keys.len(),
{
    if keys.len() == 0 {
        Seq::empty()
    } else {
        let before = sorted_by_time(keys.drop_last());
        before.insert(insert_position(before, keys.last().time) as int, keys.last())
    }
}

/// No note is earlier than one before it.
pub open spec fn ordered_by_time(keys: Seq<MapKey>) -> bool {
    forall|i: int, j: int| 0 <= i <= j < keys.len() ==> keys[i].time <= keys[j].time
}

/// The text that a chart is written as: its notes ordered by time.
pub open spec fn csv_export(keys: Seq<MapKey>) -> Seq<u8> {
    csv_text(sorted_by_time(keys))
}

/// Behind the insert position every note is later, and before it, in an
/// ordered list, none is.
pub proof fn lemma_insert_position(sorted: Seq<MapKey>, time: i64)
    ensures
        insert_position(sorted, time) <= sorted.len(),
        forall|j: int| insert_position(sorted, time) <= j < sorted.len() ==> sorted[j].time > time,
        insert_position(sorted, time) > 0 ==> sorted[insert_position(sorted, time) - 1].time
            <= time,
    decreases sorted.len(),
{
    if sorted.len() == 0 || sorted.last().time <= time {
    } else {
        let init = sorted.drop_last();
        lemma_insert_position(init, time);
        let p = insert_position(sorted, time);
        assert forall|j: int| p <= j < sorted.len() implies sorted[j].time > time by {
            if j < init.len() {
                assert(sorted[j] == init[j]);
            }
        }
        if p > 0 {
            assert(sorted[p - 1] == init[p - 1]);
        }
    }
}

/// Ordering by time gives an ordered list of the same notes.
pub proof fn lemma_sorted_by_time(keys: Seq<MapKey>)
    ensures
        ordered_by_time(sorted_by_time(keys)),
        sorted_by_time(keys).to_multiset() == keys.to_multiset(),
        sorted_by_time(keys).len() == keys.len(),
    decreases keys.len(),
{
    broadcast use vstd::seq_lib::group_seq_properties;

    if keys.len() == 0 {
    } else {
        let init = keys.drop_last();
        let key = keys.last();
        let before = sorted_by_time(init);
        lemma_sorted_by_time(init);
        lemma_insert_position(before, key.time);
        let p = insert_position(before, key.time) as int;
        let after = before.insert(p, key);
        assert forall|i: int, j: int| 0 <= i <= j < after.len() implies after[i].time
            <= after[j].time by {
            if p > 0 {
                assert(before[p - 1].time <= key.time);
            }
            if i < p && j < p {
                assert(after[i] == before[i] && after[j] == before[j]);
            } else if i < p && j == p {
                assert(after[i] == before[i]);
                assert(before[i].time <= before[p - 1].time);
            } else if i < p && j > p {
                assert(after[i] == before[i] && after[j] == before[j - 1]);
            } else if i == p && j > p {
                assert(after[j] == before[j - 1]);
            } else if i > p {
                assert(after[i] == before[i - 1] && after[j] == before[j - 1]);
            }
        }
        assert(keys =~= init.push(key));
        vstd::seq_lib::to_multiset_insert(before, p, key);
        vstd::seq_lib::to_multiset_build(init, key);
    }
}

/// A line of a note reads back as the plain note at its time and in its
/// lane.
pub proof fn lemma_csv_line_read_back(key: MapKey)
    ensures
        csv_note(csv_line(key)) == Ok::<MapKey, ParseError>(as_plain(key)),
        csv_line(key).len() > 0,
        forall|i: int| 0 <= i < csv_line(key).len() ==> csv_line(key)[i] != NEWLINE,
{
    let number = integer_text(key.time as int);
    let letter = lane_letter(key.direction);
    let line = csv_line(key);
    lemma_integer_text_read_back(key.time as int);
    assert forall|i: int| 0 <= i < line.len() implies line[i] != NEWLINE by {
        if i < number.len() {
            assert(line[i] == number[i]);
        }
    }
    assert forall|j: int| 0 <= j < number.len() implies line[j] != TAB by {
        assert(line[j] == number[j]);
    }
    lemma_split_at(line, TAB, number.len() as int);
    let rest = line.subrange(number.len() as int + 1, line.len() as int);
    assert(rest =~= seq![letter]);
    lemma_split_none(rest, TAB);
    assert(line.subrange(0, number.len() as int) =~= number);
    assert(split(line, TAB) =~= seq![number, seq![letter]]);
    assert(seq!['U' as u8][0] == 'U' as u8);
    assert(seq!['D' as u8][0] == 'D' as u8);
    assert(seq!['L' as u8][0] == 'L' as u8);
    assert(seq!['R' as u8][0] == 'R' as u8);
    assert(letter_lane(seq![letter]) == Some(key.direction));
}

/// The lines of notes split into one line for each note and an empty line
/// at the end.
pub proof fn lemma_csv_lines_split(keys: Seq<MapKey>)
    ensures
        split(csv_lines(keys), NEWLINE) == keys.map_values(|k: MapKey| csv_line(k)).push(
            Seq::empty(),
        ),
    decreases keys.len(),
{
    let lines = keys.map_values(|k: MapKey| csv_line(k));
    if keys.len() == 0 {
        lemma_split_none(csv_lines(keys), NEWLINE);
        assert(split(csv_lines(keys), NEWLINE) =~= lines.push(Seq::empty()));
    } else {
        let init = keys.drop_last();
        let key = keys.last();
        lemma_csv_lines_split(init);
        lemma_csv_line_read_back(key);
        let a = csv_lines(init);
        let b = csv_line(key).push(NEWLINE);
        lemma_split_at(b, NEWLINE, csv_line(key).len() as int);
        let tail = b.subrange(csv_line(key).len() as int + 1, b.len() as int);
        assert(tail =~= Seq::<u8>::empty());
        lemma_split_none(tail, NEWLINE);
        assert(b.subrange(0, csv_line(key).len() as int) =~= csv_line(key));
        assert(split(b, NEWLINE) =~= seq![csv_line(key), Seq::empty()]);
        lemma_split_concat(a, b, NEWLINE);
        let init_lines = init.map_values(|k: MapKey| csv_line(k));
        assert(split(a, NEWLINE).drop_last() =~= init_lines);
        assert(split(a, NEWLINE).last() + csv_line(key) =~= csv_line(key));
        assert(split(csv_lines(keys), NEWLINE) =~= lines.push(Seq::empty()));
    }
}

/// The lines of notes read back as those notes, plain.
pub proof fn lemma_csv_notes_read_back(keys: Seq<MapKey>)
    ensures
        csv_notes(keys.map_values(|k: MapKey| csv_line(k))) == Ok::<Seq<MapKey>, ParseError>(
            keys.map_values(|k: MapKey| as_plain(k)),
        ),
    decreases keys.len(),
{
    let lines = keys.map_values(|k: MapKey| csv_line(k));
    let plain = keys.map_values(|k: MapKey| as_plain(k));
    if keys.len() == 0 {
        assert(plain =~= Seq::<MapKey>::empty());
    } else {
        let init = keys.drop_last();
        lemma_csv_notes_read_back(init);
        lemma_csv_line_read_back(keys.last());
        assert(lines.drop_last() =~= init.map_values(|k: MapKey| csv_line(k)));
        assert(lines.last() == csv_line(keys.last()));
        assert(plain =~= init.map_values(|k: MapKey| as_plain(k)).push(as_plain(keys.last())));
    }
}

/// Writing notes in the order given and reading the text back yields the
/// time and the lane of each note, in that order, as plain untouched
/// notes. Release times are not kept.
pub proof fn lemma_csv_text_read_back(keys: Seq<MapKey>)
    ensures
        csv_chart(csv_text(keys)) == Ok::<Seq<MapKey>, ParseError>(
            keys.map_values(|k: MapKey| as_plain(k)),
        ),
{
    let head = csv_header().push(NEWLINE);
    let text = csv_text(keys);
    let lines = keys.map_values(|k: MapKey| csv_line(k));
    assert(head.is_prefix_of(text));
    lemma_csv_lines_split(keys);
    lemma_split_at(head, NEWLINE, csv_header().len() as int);
    let tail = head.subrange(csv_header().len() as int + 1, head.len() as int);
    assert(tail =~= Seq::<u8>::empty());
    lemma_split_none(tail, NEWLINE);
    assert(head.subrange(0, csv_header().len() as int) =~= csv_header());
    assert(split(head, NEWLINE) =~= seq![csv_header(), Seq::empty()]);
    lemma_split_concat(head, csv_lines(keys), NEWLINE);
    let body = split(csv_lines(keys), NEWLINE);
    assert(split(text, NEWLINE).drop_first() =~= body);
    assert(body.drop_last() =~= lines);
    lemma_csv_notes_read_back(keys);
}

/// Writing a chart and reading it back yields the time and the lane of
/// every note of the chart, ordered by time, as plain untouched notes.
/// Release times are not kept.
pub proof fn lemma_csv_round_trip(keys: Seq<MapKey>)
    ensures
        csv_chart(csv_export(keys)) == Ok::<Seq<MapKey>, ParseError>(
            sorted_by_time(keys).map_values(|k: MapKey| as_plain(k)),
        ),
        ordered_by_time(sorted_by_time(keys)),
        sorted_by_time(keys).to_multiset() == keys.to_multiset(),
{
    lemma_csv_text_read_back(sorted_by_time(keys));
    lemma_sorted_by_time(keys);
}

/// The result of reading a chart, seen as its model.
pub open spec fn notes_result(r: Result<Vec<MapKey>, ParseError>) -> Result<Seq<MapKey>, ParseError> {
    match r {
        Ok(keys) => Ok(keys@),
        Err(e) => Err(e),
    }
}

/// An error among the first lines is the error of all lines.
pub proof fn lemma_csv_notes_error(lines: Seq<Seq<u8>>, k: int)
    requires
        0 <= k <= lines.len(),
        csv_notes(lines.subrange(0, k)) is Err,
    ensures
        csv_notes(lines) == csv_notes(lines.subrange(0, k)),
    decreases lines.len() - k,
{
    if k == lines.len() {
        assert(lines.subrange(0, k) =~= lines);
    } else {
        assert(lines.subrange(0, k + 1).drop_last() =~= lines.subrange(0, k));
        lemma_csv_notes_error(lines, k + 1);
    }
}

/// Every note is plain and untouched.
pub open spec fn all_plain(keys: Seq<MapKey>) -> bool {
    forall|i: int| 0 <= i < keys.len() ==> #[trigger] keys[i] == as_plain(keys[i])
}

/// Every note that is read from a pre-converted chart is plain and
/// untouched.
pub proof fn lemma_csv_notes_plain(lines: Seq<Seq<u8>>)
    ensures
        csv_notes(lines) matches Ok(keys) ==> all_plain(keys),
    decreases lines.len(),
{
    if lines.len() > 0 {
        lemma_csv_notes_plain(lines.drop_last());
    }
}

/// The letter of a lane.
pub fn letter_of(lane: KeyDirection) -> (letter: u8)
    ensures
        letter == lane_letter(lane),
{
    match lane {
        KeyDirection::Up => 'U' as u8,
        KeyDirection::Down => 'D' as u8,
        KeyDirection::Left => 'L' as u8,
        KeyDirection::Right => 'R' as u8,
    }
}

/// The lane that a field names.
pub fn lane_of_letter(field: &[u8]) -> (lane: Option<KeyDirection>)
    ensures
        lane == letter_lane(field@),
{
    if field.len() != 1 {
        assert(seq!['U' as u8].len() == 1);
        assert(seq!['D' as u8].len() == 1);
        assert(seq!['L' as u8].len() == 1);
        assert(seq!['R' as u8].len() == 1);
        return None;
    }
    let letter: u8 = field[0];
    assert(field@ =~= seq![letter]);
    assert(seq!['U' as u8][0] == 'U' as u8);
    assert(seq!['D' as u8][0] == 'D' as u8);
    assert(seq!['L' as u8][0] == 'L' as u8);
    assert(seq!['R' as u8][0] == 'R' as u8);
    if letter == 'U' as u8 {
        Some(KeyDirection::Up)
    } else if letter == 'D' as u8 {
        Some(KeyDirection::Down)
    } else if letter == 'L' as u8 {
        Some(KeyDirection::Left)
    } else if letter == 'R' as u8 {
        Some(KeyDirection::Right)
    } else {
        None
    }
}

/// Reads the line of a note.
pub fn parse_csv_line(line: &[u8]) -> (r: Result<MapKey, ParseError>)
    ensures
        r == csv_note(line@),
{
    let fields: Vec<&[u8]> = split_bytes(line, TAB);
    if fields.len() != 2 {
        return Err(ParseError::InvalidLine);
    }
    assert(views(fields@)[0] == fields@[0]@);
    assert(views(fields@)[1] == fields@[1]@);
    let lane: KeyDirection = match lane_of_letter(fields[1]) {
        None => {
            return Err(ParseError::InvalidKey);
        },
        Some(lane) => lane,
    };
    let number: Decimal = match parse_decimal(fields[0]) {
        None => {
            return Err(ParseError::BadNumber);
        },
        Some(d) => d,
    };
    match number.to_whole() {
        None => Err(ParseError::BadNumber),
        Some(time) => Ok(
            MapKey { direction: lane, time, hit: false, hit_start: false, time_end: None },
        ),
    }
}

/// Reads a pre-converted chart. Every note of it is plain.
#[verifier::loop_isolation(false)]
pub fn csv_to_keys(text: &[u8]) -> (r: Result<Vec<MapKey>, ParseError>)
    ensures
        notes_result(r) == csv_chart(text@),
        r matches Ok(keys) ==> all_plain(keys@),
{
    let head: [u8; 15] = [
        'T' as u8,
        'i' as u8,
        'm' as u8,
        'e' as u8,
        TAB,
        'D' as u8,
        'i' as u8,
        'r' as u8,
        'e' as u8,
        'c' as u8,
        't' as u8,
        'i' as u8,
        'o' as u8,
        'n' as u8,
        NEWLINE,
    ];
    assert(head@ =~= csv_header().push(NEWLINE));
    if !starts_with(text, head.as_slice()) {
        return Err(ParseError::InvalidHeader);
    }
    let lines: Vec<&[u8]> = split_bytes(text, NEWLINE);
    let ghost all = views(lines@).drop_first();
    proof {
        lemma_split_nonempty(text@, NEWLINE);
        lemma_csv_notes_plain(all);
    }
    let mut keys: Vec<MapKey> = Vec::new();
    let mut i: usize = 1;
    assert(all.subrange(0, 0) =~= Seq::<Seq<u8>>::empty());
    while i < lines.len()
        invariant
            1 <= i <= lines.len(),
            csv_notes(all.subrange(0, i - 1)) == Ok::<Seq<MapKey>, ParseError>(keys@),
        decreases lines.len() - i,
    {
        let line: &[u8] = lines[i];
        assert(all.subrange(0, i as int).drop_last() =~= all.subrange(0, i - 1));
        assert(all.subrange(0, i as int).last() == line@);
        if line.len() > 0 {
            match parse_csv_line(line) {
                Err(e) => {
                    proof {
                        lemma_csv_notes_error(all, i as int);
                    }
                    return Err(e);
                },
                Ok(key) => {
                    keys.push(key);
                },
            }
        }
        i += 1;
    }
    assert(all.subrange(0, i - 1) =~= all);
    Ok(keys)
}

/// The notes ordered by time; notes of one time keep their order.
#[verifier::loop_isolation(false)]
pub fn sort_by_time(keys: &Vec<MapKey>) -> (sorted: Vec<MapKey>)
    ensures
        sorted@ == sorted_by_time(keys@),
        ordered_by_time(sorted@),
        sorted@.to_multiset() == keys@.to_multiset(),
{
    let mut sorted: Vec<MapKey> = Vec::new();
    let mut i: usize = 0;
    assert(keys@.subrange(0, 0) =~= Seq::<MapKey>::empty());
    while i < keys.len()
        invariant
            i <= keys.len(),
            sorted@ == sorted_by_time(keys@.subrange(0, i as int)),
            sorted@.len() == i,
        decreases keys.len() - i,
    {
        let key: MapKey = keys[i];
        let ghost before = sorted@;
        let mut p: usize = sorted.len();
        assert(before.subrange(0, p as int) =~= before);
        while p > 0 && sorted[p - 1].time > key.time
            invariant
                p <= sorted.len(),
                sorted@ == before,
                insert_position(before, key.time) == insert_position(
                    before.subrange(0, p as int),
                    key.time,
                ),
            decreases p,
        {
            assert(before.subrange(0, p as int).drop_last() =~= before.subrange(0, p - 1));
            p -= 1;
        }
        assert(insert_position(before, key.time) == p);
        sorted.insert(p, key);
        proof {
            assert(keys@.subrange(0, i + 1).drop_last() =~= keys@.subrange(0, i as int));
            lemma_sorted_by_time(keys@.subrange(0, i + 1));
        }
        i += 1;
    }
    proof {
        assert(keys@.subrange(0, i as int) =~= keys@);
        lemma_sorted_by_time(keys@);
    }
    sorted
}

/// Writes notes as a pre-converted chart, in the order given.
#[verifier::loop_isolation(false)]
pub fn write_csv(keys: &Vec<MapKey>) -> (text: Vec<u8>)
    ensures
        text@ == csv_text(keys@),
{
    let head: [u8; 15] = [
        'T' as u8,
        'i' as u8,
        'm' as u8,
        'e' as u8,
        TAB,
        'D' as u8,
        'i' as u8,
        'r' as u8,
        'e' as u8,
        'c' as u8,
        't' as u8,
        'i' as u8,
        'o' as u8,
        'n' as u8,
        NEWLINE,
    ];
    assert(head@ =~= csv_header().push(NEWLINE));
    let mut text: Vec<u8> = to_vec(head.as_slice());
    let mut i: usize = 0;
    assert(keys@.subrange(0, 0) =~= Seq::<MapKey>::empty());
    assert(text@ =~= csv_text(keys@.subrange(0, 0)));
    while i < keys.len()
        invariant
            i <= keys.len(),
            text@ == csv_text(keys@.subrange(0, i as int)),
        decreases keys.len() - i,
    {
        let key: MapKey = keys[i];
        let ghost before = text@;
        push_integer(&mut text, key.time);
        text.push(TAB);
        text.push(letter_of(key.direction));
        text.push(NEWLINE);
        proof {
            assert(keys@.subrange(0, i + 1).drop_last() =~= keys@.subrange(0, i as int));
            assert(keys@.subrange(0, i + 1).last() == key);
            assert(text@ =~= before + csv_line(key).push(NEWLINE));
            assert(text@ =~= csv_text(keys@.subrange(0, i + 1)));
        }
        i += 1;
    }
    assert(keys@.subrange(0, i as int) =~= keys@);
    text
}

/// Writes a chart as a pre-converted chart, its notes ordered by time.
/// Reading the text back yields the time and the lane of every note.
pub fn convert_to_csv(keys: &Vec<MapKey>) -> (text: Vec<u8>)
    ensures
        text@ == csv_export(keys@),
        csv_chart(text@) == Ok::<Seq<MapKey>, ParseError>(
            sorted_by_time(keys@).map_values(|k: MapKey| as_plain(k)),
        ),
{
    proof {
        lemma_csv_round_trip(keys@);
    }
    let sorted: Vec<MapKey> = sort_by_time(keys);
    write_csv(&sorted)
}

} // verus!
