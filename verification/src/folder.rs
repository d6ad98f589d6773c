//! A map folder holds one song and one chart, and no folder.
//!
//! The library does not read the disk. Its caller lists the folder, hands
//! over what each entry is, and reads the two files that are chosen.

use vstd::prelude::*;
use crate::csv::{csv_chart, csv_to_keys};
use crate::difficulty::DifficultyMap;
use crate::error::ParseError;
use crate::note::MapKey;
use crate::sm::{
    file_result, names_of, sm_chart, sm_to_keys, SmFileResult, SmFileView, SmMetadata,
    SmMetadataView,
};
use crate::text::{bytes_eq, to_vec};

verus! {

/// What the extension of a file says it is.
#[derive(Debug, Clone, Copy, PartialEq, Eq, Structural)]
pub enum FileKind {
    /// `ogg`: the song.
    Song,
    /// `sm`: a chart.
    Chart,
    /// `csv`: a pre-converted chart.
    ConvertedChart,
    /// Anything else; such a file is passed over.
    Other,
}

/// One entry of a folder.
#[derive(Debug, Clone, Copy, PartialEq, Eq)]
pub struct FolderEntry {
    pub is_dir: bool,
    pub kind: FileKind,
}

/// Why a folder is refused.
#[derive(Debug, Clone, Copy, PartialEq, Eq, Structural)]
pub enum FolderError {
    /// The folder holds a folder.
    ContainsDirectory,
    /// The folder holds more than one chart.
    TwoMapFiles,
    /// The folder holds more than one song.
    TwoSongs,
    /// The folder holds no song or no chart.
    SongOrMapMissing,
}

impl FolderError {
    /// The words for an error.
    pub open spec fn text(self) -> Seq<char> {
        match self {
            FolderError::ContainsDirectory => "Folder should not contain directories"@,
            FolderError::TwoMapFiles => "Cannot have two map files in directory"@,
            FolderError::TwoSongs => "Cannot have two songs in directory"@,
            FolderError::SongOrMapMissing => "Did not find song and map in folder!"@,
        }
    }

    /// Says in words what is wrong.
    pub fn message(&self) -> (words: &'static str)
        ensures
            words@ == self.text(),
    {
        match self {
            FolderError::ContainsDirectory => "Folder should not contain directories",
            FolderError::TwoMapFiles => "Cannot have two map files in directory",
            FolderError::TwoSongs => "Cannot have two songs in directory",
            FolderError::SongOrMapMissing => "Did not find song and map in folder!",
        }
    }
}

/// The two files of a map folder, by their place in the listing.
#[derive(Debug, Clone, Copy, PartialEq, Eq)]
pub struct MapFiles {
    pub song: usize,
    pub chart: usize,
}

/// What has been found in the entries seen so far.
pub struct Found {
    pub song: Option<usize>,
    pub chart: Option<usize>,
}

/// `ogg`
pub open spec fn ext_song() -> Seq<u8> {
    seq!['o' as u8, 'g' as u8, 'g' as u8]
}

/// `sm`
pub open spec fn ext_chart() -> Seq<u8> {
    seq!['s' as u8, 'm' as u8]
}

/// `csv`
pub open spec fn ext_converted() -> Seq<u8> {
    seq!['c' as u8, 's' as u8, 'v' as u8]
}

/// What an extension says a file is.
pub open spec fn kind_of(extension: Seq<u8>) -> FileKind {
    if extension == ext_song() {
        FileKind::Song
    } else if extension == ext_chart() {
        FileKind::Chart
    } else if extension == ext_converted() {
        FileKind::ConvertedChart
    } else {
        FileKind::Other
    }
}

impl FolderEntry {
    /// The entry is a song file.
    pub open spec fn is_song(self) -> bool {
        !self.is_dir && self.kind == FileKind::Song
    }

    /// The entry is a chart file, in either format.
    pub open spec fn is_chart(self) -> bool {
        !self.is_dir && (self.kind == FileKind::Chart || self.kind == FileKind::ConvertedChart)
    }
}

/// What entry `index` adds to what has been found.
pub open spec fn entry_seen(found: Found, entry: FolderEntry, index: usize) -> Result<
    Found,
    FolderError,
> {
    if entry.is_dir {
        Err(FolderError::ContainsDirectory)
    } else if entry.is_song() {
        if found.song is Some {
            Err(FolderError::TwoSongs)
        } else {
            Ok(Found { song: Some(index), ..found })
        }
    } else if entry.is_chart() {
        if found.chart is Some {
            Err(FolderError::TwoMapFiles)
        } else {
            Ok(Found { chart: Some(index), ..found })
        }
    } else {
        Ok(found)
    }
}

/// What the first `upto` entries hold; the first entry that is refused
/// decides the error.
pub open spec fn entries_seen(entries: Seq<FolderEntry>, upto: int) -> Result<Found, FolderError>
    decreases upto,
{
    if upto <= 0 {
        Ok(Found { song: None, chart: None })
    } else {
        match entries_seen(entries, upto - 1) {
            Err(e) => Err(e),
            Ok(found) => entry_seen(found, entries[upto - 1], (upto - 1) as usize),
        }
    }
}

/// The files of a folder: its entries are gone through in order, and at
/// the end both a song and a chart must have been found.
pub open spec fn files_chosen(entries: Seq<FolderEntry>) -> Result<MapFiles, FolderError> {
    match entries_seen(entries, entries.len() as int) {
        Err(e) => Err(e),
        Ok(found) => match (found.song, found.chart) {
            (Some(song), Some(chart)) => Ok(MapFiles { song, chart }),
            _ => Err(FolderError::SongOrMapMissing),
        },
    }
}

/// The only song among the first `upto` entries stands at `at`.
pub open spec fn only_song(entries: Seq<FolderEntry>, upto: int, at: int) -> bool {
    &&& 0 <= at < upto
    &&& entries[at].is_song()
    &&& forall|j: int| 0 <= j < upto && j != at ==> !(#[trigger] entries[j]).is_song()
}

/// The only chart among the first `upto` entries stands at `at`.
pub open spec fn only_chart(entries: Seq<FolderEntry>, upto: int, at: int) -> bool {
    &&& 0 <= at < upto
    &&& entries[at].is_chart()
    &&& forall|j: int| 0 <= j < upto && j != at ==> !(#[trigger] entries[j]).is_chart()
}

/// What going through entries finds: no folder, and the one song and the
/// one chart if there is one of each.
pub proof fn lemma_entries_seen(entries: Seq<FolderEntry>, upto: int)
    requires
        0 <= upto <= entries.len(),
        upto <= usize::MAX,
    ensures
        match entries_seen(entries, upto) {
            Ok(found) => {
                &&& forall|j: int| 0 <= j < upto ==> !(#[trigger] entries[j]).is_dir
                &&& match found.song {
                    Some(at) => only_song(entries, upto, at as int),
                    None => forall|j: int| 0 <= j < upto ==> !(#[trigger] entries[j]).is_song(),
                }
                &&& match found.chart {
                    Some(at) => only_chart(entries, upto, at as int),
                    None => forall|j: int| 0 <= j < upto ==> !(#[trigger] entries[j]).is_chart(),
                }
            },
            Err(FolderError::ContainsDirectory) => exists|j: int|
                0 <= j < upto && (#[trigger] entries[j]).is_dir,
            Err(FolderError::TwoSongs) => exists|j: int, k: int|
                0 <= j < k < upto && (#[trigger] entries[j]).is_song() && (
                #[trigger] entries[k]).is_song(),
            Err(FolderError::TwoMapFiles) => exists|j: int, k: int|
                0 <= j < k < upto && (#[trigger] entries[j]).is_chart() && (
                #[trigger] entries[k]).is_chart(),
            Err(FolderError::SongOrMapMissing) => false,
        },
    decreases upto,
{
    if upto > 0 {
        lemma_entries_seen(entries, upto - 1);
        match entries_seen(entries, upto - 1) {
            Err(FolderError::ContainsDirectory) => {
                let j = choose|j: int| 0 <= j < upto - 1 && (#[trigger] entries[j]).is_dir;
                assert(entries[j].is_dir);
            },
            Err(FolderError::TwoSongs) => {
                let (j, k) = choose|j: int, k: int|
                    0 <= j < k < upto - 1 && (#[trigger] entries[j]).is_song() && (
                    #[trigger] entries[k]).is_song();
                assert(entries[j].is_song() && entries[k].is_song());
            },
            Err(FolderError::TwoMapFiles) => {
                let (j, k) = choose|j: int, k: int|
                    0 <= j < k < upto - 1 && (#[trigger] entries[j]).is_chart() && (
                    #[trigger] entries[k]).is_chart();
                assert(entries[j].is_chart() && entries[k].is_chart());
            },
            Err(FolderError::SongOrMapMissing) => {},
            Ok(found) => {
                let entry = entries[upto - 1];
                if entry.is_dir {
                    assert(entries[upto - 1].is_dir);
                } else if entry.is_song() {
                    if let Some(at) = found.song {
                        assert(entries[at as int].is_song() && entries[upto - 1].is_song());
                    }
                } else if entry.is_chart() {
                    if let Some(at) = found.chart {
                        assert(entries[at as int].is_chart() && entries[upto - 1].is_chart());
                    }
                }
            },
        }
    }
}

/// A folder is accepted exactly where it holds no folder, one song and one
/// chart, and those two files are the ones chosen.
pub proof fn lemma_files_chosen(entries: Seq<FolderEntry>)
    requires
        entries.len() <= usize::MAX,
    ensures
        files_chosen(entries) matches Ok(files) ==> {
            &&& forall|j: int| 0 <= j < entries.len() ==> !(#[trigger] entries[j]).is_dir
            &&& only_song(entries, entries.len() as int, files.song as int)
            &&& only_chart(entries, entries.len() as int, files.chart as int)
        },
        files_chosen(entries) is Ok <==> {
            &&& forall|j: int| 0 <= j < entries.len() ==> !(#[trigger] entries[j]).is_dir
            &&& exists|s: int| only_song(entries, entries.len() as int, s)
            &&& exists|c: int| only_chart(entries, entries.len() as int, c)
        },
{
    let n = entries.len() as int;
    lemma_entries_seen(entries, n);
    match entries_seen(entries, n) {
        Ok(found) => {
            if found.song is None {
                assert forall|s: int| !only_song(entries, n, s) by {
                    if 0 <= s < n {
                        assert(!entries[s].is_song());
                    }
                }
            }
            if found.chart is None {
                assert forall|c: int| !only_chart(entries, n, c) by {
                    if 0 <= c < n {
                        assert(!entries[c].is_chart());
                    }
                }
            }
        },
        Err(FolderError::ContainsDirectory) => {},
        Err(FolderError::TwoSongs) => {
            let (j, k) = choose|j: int, k: int|
                0 <= j < k < n && (#[trigger] entries[j]).is_song() && (
                #[trigger] entries[k]).is_song();
            assert forall|s: int| !only_song(entries, n, s) by {
                if only_song(entries, n, s) {
                    assert(entries[j].is_song() && entries[k].is_song());
                }
            }
        },
        Err(FolderError::TwoMapFiles) => {
            let (j, k) = choose|j: int, k: int|
                0 <= j < k < n && (#[trigger] entries[j]).is_chart() && (
                #[trigger] entries[k]).is_chart();
            assert forall|c: int| !only_chart(entries, n, c) by {
                if only_chart(entries, n, c) {
                    assert(entries[j].is_chart() && entries[k].is_chart());
                }
            }
        },
        Err(FolderError::SongOrMapMissing) => {},
    }
}

/// An error among the first entries is the error of the whole folder.
pub proof fn lemma_entries_seen_error(entries: Seq<FolderEntry>, k: int)
    requires
        0 <= k <= entries.len(),
        entries_seen(entries, k) is Err,
    ensures
        entries_seen(entries, entries.len() as int) == entries_seen(entries, k),
    decreases entries.len() - k,
{
    if k < entries.len() {
        lemma_entries_seen_error(entries, k + 1);
    }
}

/// Tells what a file is by its extension, given without the dot.
pub fn classify_extension(extension: &[u8]) -> (kind: FileKind)
    ensures
        kind == kind_of(extension@),
{
    let song: [u8; 3] = ['o' as u8, 'g' as u8, 'g' as u8];
    let chart: [u8; 2] = ['s' as u8, 'm' as u8];
    let converted: [u8; 3] = ['c' as u8, 's' as u8, 'v' as u8];
    assert(song@ =~= ext_song());
    assert(chart@ =~= ext_chart());
    assert(converted@ =~= ext_converted());
    if bytes_eq(extension, song.as_slice()) {
        FileKind::Song
    } else if bytes_eq(extension, chart.as_slice()) {
        FileKind::Chart
    } else if bytes_eq(extension, converted.as_slice()) {
        FileKind::ConvertedChart
    } else {
        FileKind::Other
    }
}

/// Chooses the song and the chart of a folder from its listing.
#[verifier::loop_isolation(false)]
pub fn choose_files(entries: &Vec<FolderEntry>) -> (r: Result<MapFiles, FolderError>)
    ensures
        r == files_chosen(entries@),
        r matches Ok(files) ==> files.song < entries@.len() && files.chart < entries@.len()
            && entries@[files.song as int].is_song() && entries@[files.chart as int].is_chart(),
{
    let count: usize = entries.len();
    proof {
        lemma_files_chosen(entries@);
    }
    let mut song: Option<usize> = None;
    let mut chart: Option<usize> = None;
    let mut i: usize = 0;
    while i < count
        invariant
            i <= count,
            entries_seen(entries@, i as int) == Ok::<Found, FolderError>(Found { song, chart }),
        decreases count - i,
    {
        let entry: FolderEntry = entries[i];
        proof {
            if entry_seen(Found { song, chart }, entry, i) is Err {
                lemma_entries_seen_error(entries@, i + 1);
            }
        }
        if entry.is_dir {
            return Err(FolderError::ContainsDirectory);
        }
        match entry.kind {
            FileKind::Song => {
                if song.is_some() {
                    return Err(FolderError::TwoSongs);
                }
                song = Some(i);
            },
            FileKind::Chart | FileKind::ConvertedChart => {
                if chart.is_some() {
                    return Err(FolderError::TwoMapFiles);
                }
                chart = Some(i);
            },
            FileKind::Other => {},
        }
        i += 1;
    }
    match (song, chart) {
        (Some(song), Some(chart)) => Ok(MapFiles { song, chart }),
        _ => Err(FolderError::SongOrMapMissing),
    }
}

/// `Normal`, the name under which a pre-converted chart is stored.
pub open spec fn normal_name() -> Seq<u8> {
    seq!['N' as u8, 'o' as u8, 'r' as u8, 'm' as u8, 'a' as u8, 'l' as u8]
}

/// `Unknown`, the title and the artist of a pre-converted chart.
pub open spec fn unknown_name() -> Seq<u8> {
    seq!['U' as u8, 'n' as u8, 'k' as u8, 'n' as u8, 'o' as u8, 'w' as u8, 'n' as u8]
}

/// A pre-converted chart as a chart file: one difficulty, `Normal`, no
/// start delay, and a song of which nothing is known.
pub open spec fn converted_file(keys: Seq<MapKey>) -> SmFileView {
    SmFileView {
        difficulties: seq![normal_name()],
        difficulties_map: Map::<Seq<u8>, Seq<MapKey>>::empty().insert(normal_name(), keys),
        meta: SmMetadataView {
            delay: 0,
            title: unknown_name(),
            subtitle: Seq::empty(),
            artist: unknown_name(),
        },
    }
}

/// The chart file that the text of a file of kind `kind` writes; `None`
/// for a file that is no chart.
pub open spec fn map_loaded(kind: FileKind, text: Seq<u8>) -> Option<Result<SmFileView, ParseError>> {
    match kind {
        FileKind::Chart => Some(sm_chart(text)),
        FileKind::ConvertedChart => Some(
            match csv_chart(text) {
                Err(e) => Err(e),
                Ok(keys) => Ok(converted_file(keys)),
            },
        ),
        _ => None,
    }
}

/// Reads the text of the chart of a folder, in the format that the kind
/// of the file names.
pub fn load_map(kind: FileKind, text: &[u8]) -> (r: Option<Result<SmFileResult, ParseError>>)
    ensures
        match r {
            Some(read) => map_loaded(kind, text@) == Some(file_result(read)),
            None => map_loaded(kind, text@) is None,
        },
{
    match kind {
        FileKind::Chart => Some(sm_to_keys(text)),
        FileKind::ConvertedChart => {
            let keys: Vec<MapKey> = match csv_to_keys(text) {
                Err(e) => {
                    return Some(Err(e));
                },
                Ok(keys) => keys,
            };
            let normal: [u8; 6] = ['N' as u8, 'o' as u8, 'r' as u8, 'm' as u8, 'a' as u8, 'l' as u8];
            let unknown: [u8; 7] = [
                'U' as u8,
                'n' as u8,
                'k' as u8,
                'n' as u8,
                'o' as u8,
                'w' as u8,
                'n' as u8,
            ];
            assert(normal@ =~= normal_name());
            assert(unknown@ =~= unknown_name());
            let mut difficulties: Vec<Vec<u8>> = Vec::new();
            difficulties.push(to_vec(normal.as_slice()));
            assert(names_of(difficulties@) =~= seq![normal_name()]);
            let mut difficulties_map: DifficultyMap = DifficultyMap::new();
            difficulties_map.insert(to_vec(normal.as_slice()), keys);
            Some(
                Ok(
                    SmFileResult {
                        difficulties,
                        difficulties_map,
                        meta: SmMetadata {
                            delay: 0,
                            title: to_vec(unknown.as_slice()),
                            subtitle: Vec::new(),
                            artist: to_vec(unknown.as_slice()),
                        },
                    },
                ),
            )
        },
        _ => None,
    }
}

} // verus!
