//! The tempo list of a chart: from which beat on which tempo is in force.

use vstd::prelude::*;
use crate::decimal::{decimal_of, parse_decimal, Decimal};
use crate::error::ParseError;
use crate::text::{chop, chop_bytes, split, split_bytes, trim_end, trim_end_bytes, views};

verus! {

/// `,`
pub const COMMA: u8 = 44;

/// `=`
pub const EQUALS: u8 = 61;

/// One tempo change: from `beat` on the tempo is `bpm` thousandths of a
/// beat per minute.
#[derive(Debug, Clone, Copy, PartialEq, Eq)]
pub struct Tempo {
    pub beat: u64,
    pub bpm: u64,
}

/// Entry `i` is the one in force at `beat`: it starts at or before `beat`,
/// no entry starts later and still at or before `beat`, and of the entries
/// with its own beat it is the last listed.
pub open spec fn governs(tempos: Seq<Tempo>, beat: int, i: int) -> bool {
    &&& 0 <= i < tempos.len()
    &&& tempos[i].beat <= beat
    &&& forall|j: int|
        0 <= j < tempos.len() && (#[trigger] tempos[j]).beat <= beat ==> tempos[j].beat
            < tempos[i].beat || (tempos[j].beat == tempos[i].beat && j <= i)
}

/// The tempo in force at `beat`; `None` before the first entry.
pub open spec fn tempo_at(tempos: Seq<Tempo>, beat: int) -> Option<u64> {
    if exists|i: int| governs(tempos, beat, i) {
        Some(tempos[choose|i: int| governs(tempos, beat, i)].bpm)
    } else {
        None
    }
}

/// The beat index that a number names: its whole part, and 0 for a
/// negative number.
pub open spec fn beat_index(d: Decimal) -> u64 {
    if d.negative {
        0
    } else {
        d.whole
    }
}

/// One entry of the list, `beat=tempo`. Fields after the second are
/// ignored.
pub open spec fn tempo_entry(piece: Seq<u8>) -> Result<Tempo, ParseError> {
    let fields = split(piece, EQUALS);
    if fields.len() < 2 {
        Err(ParseError::BadTempoList)
    } else {
        match (decimal_of(fields[0]), decimal_of(fields[1])) {
            (Some(beat), Some(bpm)) => {
                if bpm.millis() > i64::MAX {
                    Err(ParseError::BadNumber)
                } else if bpm.millis() <= 0 {
                    Err(ParseError::BadTempoList)
                } else {
                    Ok(Tempo { beat: beat_index(beat), bpm: bpm.millis() as u64 })
                }
            },
            _ => Err(ParseError::BadNumber),
        }
    }
}

/// The entries that `pieces` write, appended to `tempos`; the first piece
/// that is refused decides the error.
pub open spec fn tempo_entries(tempos: Seq<Tempo>, pieces: Seq<Seq<u8>>) -> Result<
    Seq<Tempo>,
    ParseError,
>
    decreases pieces.len(),
{
    if pieces.len() == 0 {
        Ok(tempos)
    } else {
        match tempo_entries(tempos, pieces.drop_last()) {
            Err(e) => Err(e),
            Ok(before) => match tempo_entry(pieces.last()) {
                Err(e) => Err(e),
                Ok(t) => Ok(before.push(t)),
            },
        }
    }
}

/// The pieces of a tempo list: the text loses the white space at its end
/// and then its last byte, the closing `;`, and is cut at each comma.
pub open spec fn tempo_pieces(text: Seq<u8>) -> Seq<Seq<u8>> {
    split(chop(trim_end(text)), COMMA)
}

/// The list that `text` adds to `tempos`.
pub open spec fn tempo_list(tempos: Seq<Tempo>, text: Seq<u8>) -> Result<Seq<Tempo>, ParseError> {
    tempo_entries(tempos, tempo_pieces(text))
}

/// At most one entry is in force at a beat.
pub proof fn lemma_governs_unique(tempos: Seq<Tempo>, beat: int, i: int, k: int)
    requires
        governs(tempos, beat, i),
        governs(tempos, beat, k),
    ensures
        i == k,
{
    assert(tempos[i].beat <= beat);
    assert(tempos[k].beat <= beat);
}

/// Finds the tempo in force at `beat`.
pub fn lookup_tempo(tempos: &Vec<Tempo>, beat: u64) -> (r: Option<u64>)
    ensures
        r == tempo_at(tempos@, beat as int),
{
    let mut best: Option<usize> = None;
    let mut i: usize = 0;
    while i < tempos.len()
        invariant
            i <= tempos.len(),
            match best {
                Some(b) => governs(tempos@.subrange(0, i as int), beat as int, b as int),
                None => forall|j: int| 0 <= j < i ==> (#[trigger] tempos@[j]).beat > beat,
            },
        decreases tempos.len() - i,
    {
        let ghost before = tempos@.subrange(0, i as int);
        let ghost after = tempos@.subrange(0, i + 1);
        let t: Tempo = tempos[i];
        assert(forall|j: int| 0 <= j < i ==> before[j] == after[j]);
        if t.beat <= beat {
            let better: bool = match best {
                Some(b) => tempos[b].beat <= t.beat,
                None => true,
            };
            if better {
                best = Some(i);
                assert(governs(after, beat as int, i as int)) by {
                    assert forall|j: int|
                        0 <= j < after.len() && (#[trigger] after[j]).beat <= beat implies after[j].beat
                        < after[i as int].beat || (after[j].beat == after[i as int].beat && j
                        <= i) by {
                        if j < i {
                            assert(before[j].beat <= beat);
                        }
                    }
                }
            } else {
                let ghost b = best->0 as int;
                assert(governs(after, beat as int, b)) by {
                    assert forall|j: int|
                        0 <= j < after.len() && (#[trigger] after[j]).beat <= beat implies after[j].beat
                        < after[b].beat || (after[j].beat == after[b].beat && j <= b) by {
                        if j < i {
                            assert(before[j].beat <= beat);
                        }
                    }
                }
            }
        } else {
            match best {
                Some(b) => {
                    assert(governs(after, beat as int, b as int)) by {
                        assert forall|j: int|
                            0 <= j < after.len() && (#[trigger] after[j]).beat
                                <= beat implies after[j].beat < after[b as int].beat || (
                        after[j].beat == after[b as int].beat && j <= b) by {
                            if j < i {
                                assert(before[j].beat <= beat);
                            }
                        }
                    }
                },
                None => {},
            }
        }
        i += 1;
    }
    assert(tempos@.subrange(0, i as int) =~= tempos@);
    match best {
        Some(b) => {
            proof {
                let c = choose|k: int| governs(tempos@, beat as int, k);
                lemma_governs_unique(tempos@, beat as int, b as int, c);
            }
            Some(tempos[b].bpm)
        },
        None => {
            assert forall|k: int| !governs(tempos@, beat as int, k) by {
                if 0 <= k < tempos@.len() {
                    assert(tempos@[k].beat > beat);
                }
            }
            None
        },
    }
}

/// Reads one entry of a tempo list.
pub fn parse_tempo(piece: &[u8]) -> (r: Result<Tempo, ParseError>)
    ensures
        r == tempo_entry(piece@),
{
    let fields: Vec<&[u8]> = split_bytes(piece, EQUALS);
    if fields.len() < 2 {
        return Err(ParseError::BadTempoList);
    }
    assert(views(fields@)[0] == fields@[0]@);
    assert(views(fields@)[1] == fields@[1]@);
    let beat: Option<Decimal> = parse_decimal(fields[0]);
    let bpm: Option<Decimal> = parse_decimal(fields[1]);
    match (beat, bpm) {
        (Some(b), Some(v)) => {
            if v.negative {
                return Err(ParseError::BadTempoList);
            }
            match v.to_millis() {
                None => Err(ParseError::BadNumber),
                Some(m) => {
                    if m <= 0 {
                        Err(ParseError::BadTempoList)
                    } else {
                        let index: u64 = if b.negative {
                            0
                        } else {
                            b.whole
                        };
                        Ok(Tempo { beat: index, bpm: m as u64 })
                    }
                },
            }
        },
        _ => Err(ParseError::BadNumber),
    }
}

/// The result of reading a tempo list, seen as its model.
pub open spec fn tempos_result(r: Result<Vec<Tempo>, ParseError>) -> Result<Seq<Tempo>, ParseError> {
    match r {
        Ok(tempos) => Ok(tempos@),
        Err(e) => Err(e),
    }
}

/// Reads a tempo list and appends its entries to `tempos`.
#[verifier::loop_isolation(false)]
pub fn parse_tempo_list(tempos: Vec<Tempo>, text: &[u8]) -> (r: Result<Vec<Tempo>, ParseError>)
    ensures
        tempos_result(r) == tempo_list(tempos@, text@),
{
    let pieces: Vec<&[u8]> = split_bytes(chop_bytes(trim_end_bytes(text)), COMMA);
    let ghost all = views(pieces@);
    let mut list: Vec<Tempo> = tempos;
    let mut i: usize = 0;
    assert(all.subrange(0, 0) =~= Seq::<Seq<u8>>::empty());
    while i < pieces.len()
        invariant
            i <= pieces.len(),
            tempo_entries(tempos@, all.subrange(0, i as int)) == Ok::<Seq<Tempo>, ParseError>(
                list@,
            ),
        decreases pieces.len() - i,
    {
        assert(all.subrange(0, i + 1).drop_last() =~= all.subrange(0, i as int));
        assert(all.subrange(0, i + 1).last() == pieces@[i as int]@);
        match parse_tempo(pieces[i]) {
            Err(e) => {
                proof {
                    lemma_tempo_entries_error(tempos@, all, i + 1);
                }
                return Err(e);
            },
            Ok(t) => {
                list.push(t);
            },
        }
        i += 1;
    }
    assert(all.subrange(0, i as int) =~= all);
    Ok(list)
}

/// An error among the first pieces is the error of the whole list.
pub proof fn lemma_tempo_entries_error(tempos: Seq<Tempo>, pieces: Seq<Seq<u8>>, k: int)
    requires
        0 <= k <= pieces.len(),
        tempo_entries(tempos, pieces.subrange(0, k)) is Err,
    ensures
        tempo_entries(tempos, pieces) == tempo_entries(tempos, pieces.subrange(0, k)),
    decreases pieces.len() - k,
{
    if k == pieces.len() {
        assert(pieces.subrange(0, k) =~= pieces);
    } else {
        assert(pieces.subrange(0, k + 1).drop_last() =~= pieces.subrange(0, k));
        lemma_tempo_entries_error(tempos, pieces, k + 1);
    }
}

} // verus!
