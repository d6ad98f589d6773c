//! The chart format.
//!
//! A chart is read line by line. Header lines have the form `#KEY:value;`;
//! the tempo list `#BPMS` may run over several lines and is closed by the
//! next header line. A difficulty section opens with a comment line that
//! starts with `//--`, followed by `#NOTES:` and five description lines,
//! and holds measures of rows; a line that starts with `,` or `;` ends a
//! measure, and a line that is exactly `;` ends the section and stores its
//! notes under the name of the difficulty.

use vstd::prelude::*;
use crate::decimal::{decimal_of, parse_decimal};
use crate::difficulty::DifficultyMap;
use crate::error::ParseError;
use crate::measure::{
    all_fresh, is_row_char, lemma_time_measure, read_measure, time_measure, PendingHolds,
    Section, SectionView, ROW_EMPTY, ROW_HOLD_END, ROW_HOLD_START, ROW_MINE, ROW_NOTE,
};
use crate::note::MapKey;
use crate::tempo::{parse_tempo_list, tempo_list, Tempo, COMMA};
use crate::text::{
    append_bytes, bytes_eq, chop, chop_bytes, is_blank, is_blank_bytes, is_space, split,
    split_bytes,
    starts_with, strip_cr, strip_cr_bytes, to_vec, trim, trim_bytes, trim_end, trim_end_bytes,
    views, NEWLINE,
};

verus! {

/// `#`
pub const HASH: u8 = 35;

/// `/`
pub const SLASH: u8 = 47;

/// `:`
pub const COLON: u8 = 58;

/// `;`
pub const SEMICOLON: u8 = 59;

/// How many lines the header of a difficulty section has: the comment
/// line and the five description lines.
pub const HEADER_LINES: usize = 6;

/// Which line of the header names the difficulty.
pub const HEADER_NAME_LINE: usize = 3;

/// `#BPMS`
pub open spec fn key_bpms() -> Seq<u8> {
    seq!['#' as u8, 'B' as u8, 'P' as u8, 'M' as u8, 'S' as u8]
}

/// `#OFFSET`
pub open spec fn key_offset() -> Seq<u8> {
    seq!['#' as u8, 'O' as u8, 'F' as u8, 'F' as u8, 'S' as u8, 'E' as u8, 'T' as u8]
}

/// `#TITLE`
pub open spec fn key_title() -> Seq<u8> {
    seq!['#' as u8, 'T' as u8, 'I' as u8, 'T' as u8, 'L' as u8, 'E' as u8]
}

/// `#SUBTITLE`
pub open spec fn key_subtitle() -> Seq<u8> {
    seq![
        '#' as u8,
        'S' as u8,
        'U' as u8,
        'B' as u8,
        'T' as u8,
        'I' as u8,
        'T' as u8,
        'L' as u8,
        'E' as u8,
    ]
}

/// `#ARTIST`
pub open spec fn key_artist() -> Seq<u8> {
    seq!['#' as u8, 'A' as u8, 'R' as u8, 'T' as u8, 'I' as u8, 'S' as u8, 'T' as u8]
}

/// `#NOTES`
pub open spec fn key_notes() -> Seq<u8> {
    seq!['#' as u8, 'N' as u8, 'O' as u8, 'T' as u8, 'E' as u8, 'S' as u8]
}

/// `//--`
pub open spec fn section_mark() -> Seq<u8> {
    seq!['/' as u8, '/' as u8, '-' as u8, '-' as u8]
}

/// What a chart says about its song. `delay` is the start delay of the
/// chart in milliseconds: the negated offset of the header.
#[derive(Debug)]
pub struct SmMetadata {
    pub delay: i64,
    pub title: Vec<u8>,
    pub subtitle: Vec<u8>,
    pub artist: Vec<u8>,
}

/// `SmMetadata` as a value of the model.
pub struct SmMetadataView {
    pub delay: i64,
    pub title: Seq<u8>,
    pub subtitle: Seq<u8>,
    pub artist: Seq<u8>,
}

impl View for SmMetadata {
    type V = SmMetadataView;

    open spec fn view(&self) -> SmMetadataView {
        SmMetadataView {
            delay: self.delay,
            title: self.title@,
            subtitle: self.subtitle@,
            artist: self.artist@,
        }
    }
}

/// A chart file as read: the names of its difficulties in the order of
/// their headers, the notes by name, and the song's metadata.
#[derive(Debug)]
pub struct SmFileResult {
    pub difficulties: Vec<Vec<u8>>,
    pub difficulties_map: DifficultyMap,
    pub meta: SmMetadata,
}

/// `SmFileResult` as a value of the model: names and notes as sequences,
/// the notes by name as a map.
pub struct SmFileView {
    pub difficulties: Seq<Seq<u8>>,
    pub difficulties_map: Map<Seq<u8>, Seq<MapKey>>,
    pub meta: SmMetadataView,
}

/// The contents of a list of names.
pub open spec fn names_of(v: Seq<Vec<u8>>) -> Seq<Seq<u8>> {
    v.map_values(|n: Vec<u8>| n@)
}

impl View for SmFileResult {
    type V = SmFileView;

    open spec fn view(&self) -> SmFileView {
        SmFileView {
            difficulties: names_of(self.difficulties@),
            difficulties_map: self.difficulties_map@,
            meta: self.meta@,
        }
    }
}

/// The state of reading a chart, between two lines.
#[derive(Debug)]
pub struct Reader<'a> {
    /// The section that is being read.
    pub section: Section,
    /// The tempo list as far as it is closed.
    pub tempos: Vec<Tempo>,
    /// The text of the tempo list as far as it is collected.
    pub tempo_text: Vec<u8>,
    /// Whether the tempo list is still being collected.
    pub tempo_open: bool,
    /// The rows of the measure that is being read.
    pub rows: Vec<&'a [u8]>,
    /// Whether the header of a difficulty section is being read.
    pub in_header: bool,
    /// The lines of that header.
    pub header: Vec<&'a [u8]>,
    /// The name under which the section will be stored.
    pub difficulty: Vec<u8>,
    pub difficulties: Vec<Vec<u8>>,
    pub difficulties_map: DifficultyMap,
    pub meta: SmMetadata,
}

/// `Reader` as a value of the model.
pub struct ReaderView {
    pub section: SectionView,
    pub tempos: Seq<Tempo>,
    pub tempo_text: Seq<u8>,
    pub tempo_open: bool,
    pub rows: Seq<Seq<u8>>,
    pub in_header: bool,
    pub header: Seq<Seq<u8>>,
    pub difficulty: Seq<u8>,
    pub difficulties: Seq<Seq<u8>>,
    pub difficulties_map: Map<Seq<u8>, Seq<MapKey>>,
    pub meta: SmMetadataView,
}

impl<'a> View for Reader<'a> {
    type V = ReaderView;

    open spec fn view(&self) -> ReaderView {
        ReaderView {
            section: self.section@,
            tempos: self.tempos@,
            tempo_text: self.tempo_text@,
            tempo_open: self.tempo_open,
            rows: views(self.rows@),
            in_header: self.in_header,
            header: views(self.header@),
            difficulty: self.difficulty@,
            difficulties: names_of(self.difficulties@),
            difficulties_map: self.difficulties_map@,
            meta: self.meta@,
        }
    }
}

/// The result of a step of the reader, seen as its model.
pub open spec fn reader_result(r: Result<Reader, ParseError>) -> Result<ReaderView, ParseError> {
    match r {
        Ok(reader) => Ok(reader@),
        Err(e) => Err(e),
    }
}

/// The result of reading a chart, seen as its model.
pub open spec fn file_result(r: Result<SmFileResult, ParseError>) -> Result<SmFileView, ParseError> {
    match r {
        Ok(file) => Ok(file@),
        Err(e) => Err(e),
    }
}

/// The reader before the first line.
pub open spec fn reader_start() -> ReaderView {
    ReaderView {
        section: Section::start(),
        tempos: Seq::empty(),
        tempo_text: Seq::empty(),
        tempo_open: false,
        rows: Seq::empty(),
        in_header: false,
        header: Seq::empty(),
        difficulty: Seq::empty(),
        difficulties: Seq::empty(),
        difficulties_map: Map::empty(),
        meta: SmMetadataView {
            delay: 0,
            title: Seq::empty(),
            subtitle: Seq::empty(),
            artist: Seq::empty(),
        },
    }
}

/// A row line starts with a row character.
pub open spec fn is_row_line(line: Seq<u8>) -> bool {
    line.len() > 0 && is_row_char(line[0])
}

/// The value of a header line without its closing `;`: a value of at most
/// one byte counts as empty.
pub open spec fn value_body(value: Seq<u8>) -> Seq<u8> {
    if value.len() > 1 {
        value.drop_last()
    } else {
        Seq::empty()
    }
}

/// The start delay that an offset in seconds gives: the offset in
/// milliseconds, negated.
pub open spec fn offset_delay(text: Seq<u8>) -> Option<i64> {
    match decimal_of(text) {
        None => None,
        Some(d) => if -i64::MAX <= d.millis() <= i64::MAX {
            Some((-d.millis()) as i64)
        } else {
            None
        },
    }
}

/// The first row of a section closes its header: the header must have six
/// lines, and its fourth line, without its last byte and trimmed, names
/// the difficulty.
pub open spec fn header_closed(r: ReaderView) -> Result<ReaderView, ParseError> {
    if r.header.len() != HEADER_LINES {
        Err(ParseError::WrongHeaderFieldCount)
    } else {
        let name = trim(chop(r.header[HEADER_NAME_LINE as int]));
        Ok(
            ReaderView {
                in_header: false,
                difficulty: name,
                difficulties: r.difficulties.push(name),
                ..r
            },
        )
    }
}

/// The tempo list is closed: its text is read and added to the tempos.
pub open spec fn tempo_closed(r: ReaderView) -> Result<ReaderView, ParseError> {
    match tempo_list(r.tempos, r.tempo_text) {
        Err(e) => Err(e),
        Ok(tempos) => Ok(
            ReaderView { tempos, tempo_open: false, tempo_text: trim_end(r.tempo_text), ..r },
        ),
    }
}

/// What the key and value of a header line do.
pub open spec fn tag_applied(r: ReaderView, key: Seq<u8>, value: Seq<u8>) -> Result<
    ReaderView,
    ParseError,
> {
    if key == key_bpms() {
        Ok(ReaderView { tempo_text: r.tempo_text + value, tempo_open: true, ..r })
    } else if key == key_offset() {
        match offset_delay(value_body(value)) {
            None => Err(ParseError::BadNumber),
            Some(delay) => Ok(ReaderView { meta: SmMetadataView { delay, ..r.meta }, ..r }),
        }
    } else if key == key_title() {
        Ok(ReaderView { meta: SmMetadataView { title: value_body(value), ..r.meta }, ..r })
    } else if key == key_subtitle() {
        Ok(ReaderView { meta: SmMetadataView { subtitle: value_body(value), ..r.meta }, ..r })
    } else if key == key_artist() {
        Ok(ReaderView { meta: SmMetadataView { artist: value_body(value), ..r.meta }, ..r })
    } else {
        Ok(r)
    }
}

/// A header line: the key is the text before the first `:`, the value the
/// text between the first and the second. Inside a difficulty header only
/// `#NOTES` may stand. Any key but `#BPMS` closes an open tempo list.
pub open spec fn tag_read(r: ReaderView, line: Seq<u8>) -> Result<ReaderView, ParseError> {
    let fields = split(line, COLON);
    if fields.len() < 2 {
        Err(ParseError::MissingValue)
    } else if r.in_header && fields[0] != key_notes() {
        Err(ParseError::UnknownKeyInNotes)
    } else {
        match tag_applied(r, fields[0], fields[1]) {
            Err(e) => Err(e),
            Ok(applied) => if fields[0] != key_bpms() && applied.tempo_open {
                tempo_closed(applied)
            } else {
                Ok(applied)
            },
        }
    }
}

/// The end of a measure: its rows are timed and placed.
pub open spec fn measure_ended(r: ReaderView) -> Result<ReaderView, ParseError> {
    match time_measure(r.section, r.tempos, r.rows) {
        Err(e) => Err(e),
        Ok(section) => Ok(ReaderView { section, rows: Seq::empty(), ..r }),
    }
}

/// The end of a section: no hold may be pending; the notes are stored
/// under the name of the difficulty and the section starts afresh.
pub open spec fn section_ended(r: ReaderView) -> Result<ReaderView, ParseError> {
    if r.section.holds != PendingHolds::none() {
        Err(ParseError::UnresolvedHold)
    } else {
        Ok(
            ReaderView {
                difficulties_map: r.difficulties_map.insert(r.difficulty, r.section.keys),
                section: Section::start(),
                rows: Seq::empty(),
                header: Seq::empty(),
                ..r
            },
        )
    }
}

/// What a line that does not start with `#` adds: text to an open tempo
/// list, unless it starts with `/`, or else a line to an open header.
pub open spec fn text_kept(r: ReaderView, line: Seq<u8>) -> ReaderView {
    if r.tempo_open && !(line.len() > 0 && line[0] == SLASH) {
        ReaderView { tempo_text: r.tempo_text + line, ..r }
    } else if r.in_header {
        ReaderView { header: r.header.push(line), ..r }
    } else {
        r
    }
}

/// One line of a chart. A carriage return at its end is dropped and a
/// blank line is skipped. Then, in this order: a row line closes an open
/// header; a line that starts with `//--` opens one; a line that starts
/// with `#` is read as a header line, any other is kept where it belongs;
/// a line that starts with `,` or `;` ends the measure; the line `;` ends
/// the section; a row line joins the rows of the measure.
pub open spec fn line_read(r: ReaderView, raw: Seq<u8>) -> Result<ReaderView, ParseError> {
    let line = strip_cr(raw);
    if is_blank(line) {
        Ok(r)
    } else {
        let closed = if is_row_line(line) && r.in_header {
            header_closed(r)
        } else {
            Ok(r)
        };
        match closed {
            Err(e) => Err(e),
            Ok(r1) => {
                let r2 = if section_mark().is_prefix_of(line) {
                    ReaderView { in_header: true, ..r1 }
                } else {
                    r1
                };
                let kept = if line[0] == HASH {
                    tag_read(r2, line)
                } else {
                    Ok(text_kept(r2, line))
                };
                match kept {
                    Err(e) => Err(e),
                    Ok(r3) => {
                        let measured = if line[0] == COMMA || line[0] == SEMICOLON {
                            measure_ended(r3)
                        } else {
                            Ok(r3)
                        };
                        match measured {
                            Err(e) => Err(e),
                            Ok(r4) => {
                                let ended = if line == seq![SEMICOLON] {
                                    section_ended(r4)
                                } else {
                                    Ok(r4)
                                };
                                match ended {
                                    Err(e) => Err(e),
                                    Ok(r5) => Ok(
                                        if is_row_line(line) {
                                            ReaderView { rows: r5.rows.push(line), ..r5 }
                                        } else {
                                            r5
                                        },
                                    ),
                                }
                            },
                        }
                    },
                }
            },
        }
    }
}

/// The first `upto` lines of a chart, in order; the first line that is
/// refused decides the error.
pub open spec fn lines_read(r: ReaderView, lines: Seq<Seq<u8>>, upto: int) -> Result<
    ReaderView,
    ParseError,
>
    decreases upto,
{
    if upto <= 0 {
        Ok(r)
    } else {
        match lines_read(r, lines, upto - 1) {
            Err(e) => Err(e),
            Ok(before) => line_read(before, lines[upto - 1]),
        }
    }
}

/// The end of the text: no hold may be pending. Notes of a section that
/// was not ended are not part of the chart.
pub open spec fn text_ended(r: ReaderView) -> Result<SmFileView, ParseError> {
    if r.section.holds != PendingHolds::none() {
        Err(ParseError::UnresolvedHold)
    } else {
        Ok(
            SmFileView {
                difficulties: r.difficulties,
                difficulties_map: r.difficulties_map,
                meta: r.meta,
            },
        )
    }
}

/// The chart that a text writes.
pub open spec fn sm_chart(text: Seq<u8>) -> Result<SmFileView, ParseError> {
    let lines = split(text, NEWLINE);
    match lines_read(reader_start(), lines, lines.len() as int) {
        Err(e) => Err(e),
        Ok(r) => text_ended(r),
    }
}

/// The name of the difficulty that is played: the preferred one where the
/// chart has it, else the one whose header stands last.
pub open spec fn preferred_name(difficulties: Seq<Seq<u8>>, preferred: Seq<u8>) -> Option<Seq<u8>> {
    if difficulties.contains(preferred) {
        Some(preferred)
    } else if difficulties.len() > 0 {
        Some(difficulties.last())
    } else {
        None
    }
}

/// The notes that are played: those stored under the name of the
/// difficulty that is played.
pub open spec fn chart_picked(file: SmFileView, preferred: Seq<u8>) -> Option<Seq<MapKey>> {
    match preferred_name(file.difficulties, preferred) {
        None => None,
        Some(name) => if file.difficulties_map.contains_key(name) {
            Some(file.difficulties_map[name])
        } else {
            None
        },
    }
}

/// Every note that a map holds is well formed and untouched.
pub open spec fn map_fresh(map: Map<Seq<u8>, Seq<MapKey>>) -> bool {
    forall|name: Seq<u8>| #[trigger] map.contains_key(name) ==> all_fresh(map[name])
}

/// Every note that the reader holds is well formed and untouched.
pub open spec fn reader_fresh(r: ReaderView) -> bool {
    all_fresh(r.section.keys) && map_fresh(r.difficulties_map)
}

fn is_key_bpms(key: &[u8]) -> (r: bool)
    ensures
        r == (key@ == key_bpms()),
{
    let k: [u8; 5] = ['#' as u8, 'B' as u8, 'P' as u8, 'M' as u8, 'S' as u8];
    assert(k@ =~= key_bpms());
    bytes_eq(key, k.as_slice())
}

fn is_key_offset(key: &[u8]) -> (r: bool)
    ensures
        r == (key@ == key_offset()),
{
    let k: [u8; 7] = ['#' as u8, 'O' as u8, 'F' as u8, 'F' as u8, 'S' as u8, 'E' as u8, 'T' as u8];
    assert(k@ =~= key_offset());
    bytes_eq(key, k.as_slice())
}

fn is_key_title(key: &[u8]) -> (r: bool)
    ensures
        r == (key@ == key_title()),
{
    let k: [u8; 6] = ['#' as u8, 'T' as u8, 'I' as u8, 'T' as u8, 'L' as u8, 'E' as u8];
    assert(k@ =~= key_title());
    bytes_eq(key, k.as_slice())
}

fn is_key_subtitle(key: &[u8]) -> (r: bool)
    ensures
        r == (key@ == key_subtitle()),
{
    let k: [u8; 9] = [
        '#' as u8,
        'S' as u8,
        'U' as u8,
        'B' as u8,
        'T' as u8,
        'I' as u8,
        'T' as u8,
        'L' as u8,
        'E' as u8,
    ];
    assert(k@ =~= key_subtitle());
    bytes_eq(key, k.as_slice())
}

fn is_key_artist(key: &[u8]) -> (r: bool)
    ensures
        r == (key@ == key_artist()),
{
    let k: [u8; 7] = ['#' as u8, 'A' as u8, 'R' as u8, 'T' as u8, 'I' as u8, 'S' as u8, 'T' as u8];
    assert(k@ =~= key_artist());
    bytes_eq(key, k.as_slice())
}

fn is_key_notes(key: &[u8]) -> (r: bool)
    ensures
        r == (key@ == key_notes()),
{
    let k: [u8; 6] = ['#' as u8, 'N' as u8, 'O' as u8, 'T' as u8, 'E' as u8, 'S' as u8];
    assert(k@ =~= key_notes());
    bytes_eq(key, k.as_slice())
}

fn has_section_mark(line: &[u8]) -> (r: bool)
    ensures
        r == section_mark().is_prefix_of(line@),
{
    let k: [u8; 4] = ['/' as u8, '/' as u8, '-' as u8, '-' as u8];
    assert(k@ =~= section_mark());
    starts_with(line, k.as_slice())
}

/// Reports whether a line starts with a row character.
pub fn starts_row(line: &[u8]) -> (r: bool)
    ensures
        r == is_row_line(line@),
{
    if line.len() == 0 {
        return false;
    }
    let c: u8 = line[0];
    c == ROW_EMPTY || c == ROW_NOTE || c == ROW_HOLD_START || c == ROW_HOLD_END || c == ROW_MINE
}

/// The value of a header line without its closing `;`.
pub fn value_without_end<'a>(value: &'a [u8]) -> (r: &'a [u8])
    ensures
        r@ == value_body(value@),
{
    if value.len() > 1 {
        chop_bytes(value)
    } else {
        let r: &[u8] = &value[0..0];
        assert(r@ =~= Seq::<u8>::empty());
        r
    }
}

/// The start delay that the value of `#OFFSET` gives.
pub fn parse_offset(text: &[u8]) -> (r: Option<i64>)
    ensures
        r == offset_delay(text@),
{
    match parse_decimal(text) {
        None => None,
        Some(d) => match d.to_millis() {
            None => None,
            Some(m) => if m == i64::MIN {
                None
            } else {
                Some(-m)
            },
        },
    }
}

impl SmFileResult {
    /// Reports whether the chart names a difficulty `name`.
    pub fn has_difficulty(&self, name: &[u8]) -> (r: bool)
        ensures
            r == self@.difficulties.contains(name@),
    {
        let mut i: usize = 0;
        while i < self.difficulties.len()
            invariant
                i <= self.difficulties@.len(),
                forall|j: int| 0 <= j < i ==> (#[trigger] self@.difficulties[j]) != name@,
            decreases self.difficulties@.len() - i,
        {
            if bytes_eq(self.difficulties[i].as_slice(), name) {
                assert(self@.difficulties[i as int] == name@);
                return true;
            }
            i += 1;
        }
        false
    }

    /// The notes of the difficulty that is played: of `preferred` where
    /// the chart names it, else of the difficulty named last. `None`
    /// where the chart names no difficulty or holds no notes under that
    /// name.
    pub fn pick(&self, preferred: &[u8]) -> (r: Option<&Vec<MapKey>>)
        ensures
            match r {
                Some(keys) => chart_picked(self@, preferred@) == Some(keys@),
                None => chart_picked(self@, preferred@) is None,
            },
    {
        if self.has_difficulty(preferred) {
            self.difficulties_map.get(preferred)
        } else if self.difficulties.len() > 0 {
            let last: usize = self.difficulties.len() - 1;
            assert(self@.difficulties.last() == self.difficulties@[last as int]@);
            self.difficulties_map.get(self.difficulties[last].as_slice())
        } else {
            None
        }
    }
}

impl<'a> Reader<'a> {
    /// The reader before the first line.
    pub fn new() -> (reader: Reader<'a>)
        ensures
            reader@ == reader_start(),
            reader_fresh(reader@),
    {
        let reader = Reader {
            section: Section::new(),
            tempos: Vec::new(),
            tempo_text: Vec::new(),
            tempo_open: false,
            rows: Vec::new(),
            in_header: false,
            header: Vec::new(),
            difficulty: Vec::new(),
            difficulties: Vec::new(),
            difficulties_map: DifficultyMap::new(),
            meta: SmMetadata {
                delay: 0,
                title: Vec::new(),
                subtitle: Vec::new(),
                artist: Vec::new(),
            },
        };
        assert(views(reader.rows@) =~= Seq::<Seq<u8>>::empty());
        assert(views(reader.header@) =~= Seq::<Seq<u8>>::empty());
        assert(names_of(reader.difficulties@) =~= Seq::<Seq<u8>>::empty());
        reader
    }

    /// Closes the header of a difficulty section.
    pub fn close_header(self) -> (r: Result<Reader<'a>, ParseError>)
        ensures
            reader_result(r) == header_closed(self@),
    {
        let mut reader = self;
        if reader.header.len() != HEADER_LINES {
            return Err(ParseError::WrongHeaderFieldCount);
        }
        assert(views(reader.header@)[HEADER_NAME_LINE as int] == reader.header@[HEADER_NAME_LINE as int]@);
        let name: &[u8] = trim_bytes(chop_bytes(reader.header[HEADER_NAME_LINE]));
        let ghost before = names_of(reader.difficulties@);
        reader.in_header = false;
        reader.difficulty = to_vec(name);
        reader.difficulties.push(to_vec(name));
        assert(names_of(reader.difficulties@) =~= before.push(name@));
        Ok(reader)
    }

    /// Closes the tempo list.
    pub fn close_tempo_list(self) -> (r: Result<Reader<'a>, ParseError>)
        ensures
            reader_result(r) == tempo_closed(self@),
    {
        let mut reader = self;
        let mut tempos: Vec<Tempo> = Vec::new();
        core::mem::swap(&mut tempos, &mut reader.tempos);
        match parse_tempo_list(tempos, reader.tempo_text.as_slice()) {
            Err(e) => Err(e),
            Ok(list) => {
                reader.tempos = list;
                reader.tempo_open = false;
                reader.tempo_text = to_vec(trim_end_bytes(reader.tempo_text.as_slice()));
                Ok(reader)
            },
        }
    }

    /// Applies the key and value of a header line.
    pub fn apply_tag(self, key: &[u8], value: &[u8]) -> (r: Result<Reader<'a>, ParseError>)
        ensures
            reader_result(r) == tag_applied(self@, key@, value@),
    {
        let mut reader = self;
        if is_key_bpms(key) {
            append_bytes(&mut reader.tempo_text, value);
            reader.tempo_open = true;
            Ok(reader)
        } else if is_key_offset(key) {
            match parse_offset(value_without_end(value)) {
                None => Err(ParseError::BadNumber),
                Some(delay) => {
                    reader.meta.delay = delay;
                    Ok(reader)
                },
            }
        } else if is_key_title(key) {
            reader.meta.title = to_vec(value_without_end(value));
            Ok(reader)
        } else if is_key_subtitle(key) {
            reader.meta.subtitle = to_vec(value_without_end(value));
            Ok(reader)
        } else if is_key_artist(key) {
            reader.meta.artist = to_vec(value_without_end(value));
            Ok(reader)
        } else {
            Ok(reader)
        }
    }

    /// Reads a header line.
    pub fn read_tag(self, line: &[u8]) -> (r: Result<Reader<'a>, ParseError>)
        ensures
            reader_result(r) == tag_read(self@, line@),
    {
        let fields: Vec<&[u8]> = split_bytes(line, COLON);
        if fields.len() < 2 {
            return Err(ParseError::MissingValue);
        }
        assert(views(fields@)[0] == fields@[0]@);
        assert(views(fields@)[1] == fields@[1]@);
        let key: &[u8] = fields[0];
        if self.in_header && !is_key_notes(key) {
            return Err(ParseError::UnknownKeyInNotes);
        }
        let applied: Reader<'a> = match self.apply_tag(key, fields[1]) {
            Err(e) => {
                return Err(e);
            },
            Ok(applied) => applied,
        };
        if !is_key_bpms(key) && applied.tempo_open {
            applied.close_tempo_list()
        } else {
            Ok(applied)
        }
    }

    /// Keeps a line that is not a header line where it belongs.
    pub fn keep_text(self, line: &'a [u8]) -> (reader: Reader<'a>)
        ensures
            reader@ == text_kept(self@, line@),
    {
        let mut reader = self;
        if reader.tempo_open && !(line.len() > 0 && line[0] == SLASH) {
            append_bytes(&mut reader.tempo_text, line);
        } else if reader.in_header {
            let ghost before = views(reader.header@);
            reader.header.push(line);
            assert(views(reader.header@) =~= before.push(line@));
        }
        reader
    }

    /// Ends a measure.
    pub fn end_measure(self) -> (r: Result<Reader<'a>, ParseError>)
        ensures
            reader_result(r) == measure_ended(self@),
    {
        let mut reader = self;
        let mut section: Section = Section::new();
        core::mem::swap(&mut section, &mut reader.section);
        match read_measure(section, &reader.tempos, &reader.rows) {
            Err(e) => Err(e),
            Ok(timed) => {
                reader.section = timed;
                reader.rows = Vec::new();
                assert(views(reader.rows@) =~= Seq::<Seq<u8>>::empty());
                Ok(reader)
            },
        }
    }

    /// Ends a section.
    pub fn end_section(self) -> (r: Result<Reader<'a>, ParseError>)
        ensures
            reader_result(r) == section_ended(self@),
            self@.section.holds != PendingHolds::none() ==> r is Err,
    {
        let mut reader = self;
        if !reader.section.holds.is_empty() {
            return Err(ParseError::UnresolvedHold);
        }
        let mut section: Section = Section::new();
        core::mem::swap(&mut section, &mut reader.section);
        let name: Vec<u8> = to_vec(reader.difficulty.as_slice());
        reader.difficulties_map.insert(name, section.keys);
        reader.rows = Vec::new();
        reader.header = Vec::new();
        assert(views(reader.rows@) =~= Seq::<Seq<u8>>::empty());
        assert(views(reader.header@) =~= Seq::<Seq<u8>>::empty());
        Ok(reader)
    }

    /// Reads one line of a chart.
    pub fn read_line(self, raw: &'a [u8]) -> (r: Result<Reader<'a>, ParseError>)
        ensures
            reader_result(r) == line_read(self@, raw@),
    {
        let line: &[u8] = strip_cr_bytes(raw);
        if is_blank_bytes(line) {
            return Ok(self);
        }
        assert(line@.len() > 0) by {
            if line@.len() == 0 {
                assert(is_blank(line@));
            }
        }
        let row: bool = starts_row(line);
        let mut reader: Reader<'a> = if row && self.in_header {
            match self.close_header() {
                Err(e) => {
                    return Err(e);
                },
                Ok(closed) => closed,
            }
        } else {
            self
        };
        if has_section_mark(line) {
            reader.in_header = true;
        }
        let first: u8 = line[0];
        reader = if first == HASH {
            match reader.read_tag(line) {
                Err(e) => {
                    return Err(e);
                },
                Ok(read) => read,
            }
        } else {
            reader.keep_text(line)
        };
        if first == COMMA || first == SEMICOLON {
            reader = match reader.end_measure() {
                Err(e) => {
                    return Err(e);
                },
                Ok(ended) => ended,
            };
        }
        if line.len() == 1 && first == SEMICOLON {
            assert(line@ =~= seq![SEMICOLON]);
            reader = match reader.end_section() {
                Err(e) => {
                    return Err(e);
                },
                Ok(ended) => ended,
            };
        }
        if row {
            let ghost before = views(reader.rows@);
            reader.rows.push(line);
            assert(views(reader.rows@) =~= before.push(line@));
        }
        Ok(reader)
    }

    /// Ends the text.
    pub fn finish(self) -> (r: Result<SmFileResult, ParseError>)
        ensures
            file_result(r) == text_ended(self@),
            self@.section.holds != PendingHolds::none() ==> r is Err,
    {
        if !self.section.holds.is_empty() {
            return Err(ParseError::UnresolvedHold);
        }
        Ok(
            SmFileResult {
                difficulties: self.difficulties,
                difficulties_map: self.difficulties_map,
                meta: self.meta,
            },
        )
    }
}

/// An error among the first lines is the error of the whole text.
pub proof fn lemma_lines_read_error(r: ReaderView, lines: Seq<Seq<u8>>, k: int)
    requires
        0 <= k <= lines.len(),
        lines_read(r, lines, k) is Err,
    ensures
        lines_read(r, lines, lines.len() as int) == lines_read(r, lines, k),
    decreases lines.len() - k,
{
    if k < lines.len() {
        lemma_lines_read_error(r, lines, k + 1);
    }
}

/// Reading a line adds only notes that are well formed and untouched.
pub proof fn lemma_line_read_fresh(r: ReaderView, raw: Seq<u8>)
    requires
        reader_fresh(r),
    ensures
        line_read(r, raw) matches Ok(next) ==> reader_fresh(next),
{
    let line = strip_cr(raw);
    if !is_blank(line) {
        let closed = if is_row_line(line) && r.in_header {
            header_closed(r)
        } else {
            Ok(r)
        };
        if let Ok(r1) = closed {
            let r2 = if section_mark().is_prefix_of(line) {
                ReaderView { in_header: true, ..r1 }
            } else {
                r1
            };
            let kept = if line[0] == HASH {
                tag_read(r2, line)
            } else {
                Ok(text_kept(r2, line))
            };
            if let Ok(r3) = kept {
                assert(r3.section == r.section && r3.difficulties_map == r.difficulties_map);
                let measured = if line[0] == COMMA || line[0] == SEMICOLON {
                    measure_ended(r3)
                } else {
                    Ok(r3)
                };
                if let Ok(r4) = measured {
                    lemma_time_measure(r3.section, r3.tempos, r3.rows);
                    assert(reader_fresh(r4));
                }
            }
        }
    }
}

/// Reading lines adds only notes that are well formed and untouched.
pub proof fn lemma_lines_read_fresh(r: ReaderView, lines: Seq<Seq<u8>>, upto: int)
    requires
        reader_fresh(r),
        0 <= upto <= lines.len(),
    ensures
        lines_read(r, lines, upto) matches Ok(next) ==> reader_fresh(next),
    decreases upto,
{
    if upto > 0 {
        lemma_lines_read_fresh(r, lines, upto - 1);
        if let Ok(before) = lines_read(r, lines, upto - 1) {
            lemma_line_read_fresh(before, lines[upto - 1]);
        }
    }
}

/// Every note of every chart that is read is well formed, which includes
/// that it is either a plain note or a hold that ends after it starts, and
/// untouched.
pub proof fn lemma_chart_notes_well_formed(text: Seq<u8>)
    ensures
        sm_chart(text) matches Ok(file) ==> map_fresh(file.difficulties_map),
{
    let lines = split(text, NEWLINE);
    lemma_lines_read_fresh(reader_start(), lines, lines.len() as int);
}

/// A line that starts with `,` or `;` ends the measure.
pub open spec fn ends_measure(raw: Seq<u8>) -> bool {
    let line = strip_cr(raw);
    line.len() > 0 && (line[0] == COMMA || line[0] == SEMICOLON)
}

/// The line `;` ends the section.
pub open spec fn ends_section(raw: Seq<u8>) -> bool {
    strip_cr(raw) == seq![SEMICOLON]
}

/// A line that ends a measure is read by timing the rows that the reader
/// has collected, whatever else it does.
pub proof fn lemma_measure_end_read(r: ReaderView, raw: Seq<u8>)
    requires
        ends_measure(raw),
    ensures
        time_measure(r.section, r.tempos, r.rows) is Err ==> line_read(r, raw) is Err,
        time_measure(r.section, r.tempos, r.rows) matches Ok(timed) ==> (ends_section(raw)
            && timed.holds != PendingHolds::none() ==> line_read(r, raw) is Err),
{
    let line = strip_cr(raw);
    assert(!is_space(line[0]));
    assert(!is_blank(line));
    assert(!is_row_line(line));
    assert(!section_mark().is_prefix_of(line)) by {
        if section_mark().is_prefix_of(line) {
            assert(section_mark()[0] == line[0]);
        }
    }
    if ends_section(raw) {
        assert(line =~= seq![SEMICOLON]);
    }
}

/// A chart in which a measure with a character that is not a row
/// character is ended is refused: where the first `k` lines are read, line
/// `k` ends a measure, and one of the rows collected for it holds such a
/// character, the text is refused.
pub proof fn lemma_unknown_row_character_refused(text: Seq<u8>, k: int, row: int, column: int)
    requires
        0 <= k < split(text, NEWLINE).len(),
        ends_measure(split(text, NEWLINE)[k]),
        lines_read(reader_start(), split(text, NEWLINE), k) matches Ok(r) && 0 <= row
            < r.rows.len() && 0 <= column < r.rows[row].len() && !is_row_char(
            r.rows[row][column],
        ),
    ensures
        sm_chart(text) is Err,
{
    let lines = split(text, NEWLINE);
    let r = lines_read(reader_start(), lines, k)->Ok_0;
    lemma_time_measure(r.section, r.tempos, r.rows);
    lemma_measure_end_read(r, lines[k]);
    assert(lines_read(reader_start(), lines, k + 1) is Err);
    lemma_lines_read_error(reader_start(), lines, k + 1);
}

/// A chart in which a section ends while a hold is pending is refused:
/// where the first `k` lines are read, line `k` is `;`, and after the last
/// measure of the section a hold is still pending, the text is refused.
pub proof fn lemma_unresolved_hold_refused(text: Seq<u8>, k: int)
    requires
        0 <= k < split(text, NEWLINE).len(),
        ends_section(split(text, NEWLINE)[k]),
        lines_read(reader_start(), split(text, NEWLINE), k) matches Ok(r) && (time_measure(
            r.section,
            r.tempos,
            r.rows,
        ) matches Ok(timed) ==> timed.holds != PendingHolds::none()),
    ensures
        sm_chart(text) is Err,
{
    let lines = split(text, NEWLINE);
    let r = lines_read(reader_start(), lines, k)->Ok_0;
    assert(strip_cr(lines[k])[0] == SEMICOLON);
    lemma_measure_end_read(r, lines[k]);
    assert(lines_read(reader_start(), lines, k + 1) is Err);
    lemma_lines_read_error(reader_start(), lines, k + 1);
}

/// A chart that ends while a hold is pending is refused.
pub proof fn lemma_unresolved_hold_at_end_refused(text: Seq<u8>)
    requires
        lines_read(
            reader_start(),
            split(text, NEWLINE),
            split(text, NEWLINE).len() as int,
        ) matches Ok(r) && r.section.holds != PendingHolds::none(),
    ensures
        sm_chart(text) is Err,
{
}

/// Reads a chart. Either the whole chart is returned or an error.
#[verifier::loop_isolation(false)]
pub fn sm_to_keys(text: &[u8]) -> (r: Result<SmFileResult, ParseError>)
    ensures
        file_result(r) == sm_chart(text@),
        r matches Ok(file) ==> map_fresh(file@.difficulties_map),
{
    proof {
        lemma_chart_notes_well_formed(text@);
    }
    let lines: Vec<&[u8]> = split_bytes(text, NEWLINE);
    let ghost all = views(lines@);
    let mut reader: Reader = Reader::new();
    let mut i: usize = 0;
    while i < lines.len()
        invariant
            i <= lines.len(),
            lines_read(reader_start(), all, i as int) == Ok::<ReaderView, ParseError>(reader@),
        decreases lines.len() - i,
    {
        assert(all[i as int] == lines@[i as int]@);
        reader = match reader.read_line(lines[i]) {
            Err(e) => {
                proof {
                    lemma_lines_read_error(reader_start(), all, i + 1);
                }
                return Err(e);
            },
            Ok(next) => next,
        };
        i += 1;
    }
    reader.finish()
}

} // verus!
