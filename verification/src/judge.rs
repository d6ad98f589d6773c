//! Matching one input edge against the notes of a chart.
//!
//! A press looks for a note whose start has not been resolved; a release
//! looks for a hold whose start has. Of the notes of the lane that lie
//! inside the tolerance window the nearest is chosen, and of several that
//! are equally near the one that stands first in the chart.

use vstd::prelude::*;
use crate::note::{KeyDirection, MapKey};
use crate::timing::{clamp_error, clamped, distance, lemma_clamped, magnitude};

verus! {

/// The note can be matched by an edge in `lane`: it is unresolved, lies in
/// that lane, and is in the phase that the edge resolves.
pub open spec fn awaits(note: MapKey, lane: KeyDirection, released: bool) -> bool {
    &&& !note.hit
    &&& note.direction == lane
    &&& note.hit_start == released
}

/// The signed error of an edge against a note, before it is limited to the
/// window: for a press, how far ahead the start of the note lies; for a
/// release, 0 while the game time lies strictly inside the hold, else how
/// far ahead its end lies. (A plain note has no end; a release is measured
/// against its start.)
pub open spec fn edge_error(note: MapKey, released: bool, game_time: i64) -> int {
    if released {
        match note.time_end {
            Some(end) => if note.time < game_time < end {
                0
            } else {
                end - game_time
            },
            None => note.time - game_time,
        }
    } else {
        note.time - game_time
    }
}

/// The absolute time delta of an edge against a note.
pub open spec fn edge_delta(note: MapKey, released: bool, game_time: i64) -> int {
    magnitude(edge_error(note, released, game_time))
}

/// The note can be matched and lies strictly inside the window.
pub open spec fn in_window(
    note: MapKey,
    lane: KeyDirection,
    released: bool,
    game_time: i64,
    tolerance: u32,
) -> bool {
    awaits(note, lane, released) && edge_delta(note, released, game_time) < tolerance
}

/// Note `i` is the one that the edge resolves: it lies inside the window,
/// no note inside the window is nearer, and none that is as near stands
/// before it.
pub open spec fn nearest(
    map: Seq<MapKey>,
    i: int,
    lane: KeyDirection,
    released: bool,
    game_time: i64,
    tolerance: u32,
) -> bool {
    &&& 0 <= i < map.len()
    &&& in_window(map[i], lane, released, game_time, tolerance)
    &&& forall|j: int|
        0 <= j < map.len() && in_window(#[trigger] map[j], lane, released, game_time, tolerance)
            ==> edge_delta(map[i], released, game_time) < edge_delta(map[j], released, game_time)
            || (edge_delta(map[i], released, game_time) == edge_delta(
            map[j],
            released,
            game_time,
        ) && i <= j)
}

/// The index of the note that the edge resolves, if there is one.
pub open spec fn selected(
    map: Seq<MapKey>,
    lane: KeyDirection,
    released: bool,
    game_time: i64,
    tolerance: u32,
) -> Option<int> {
    if exists|i: int| nearest(map, i, lane, released, game_time, tolerance) {
        Some(choose|i: int| nearest(map, i, lane, released, game_time, tolerance))
    } else {
        None
    }
}

/// The note after an edge has resolved it: a hold whose start was open has
/// its start resolved; any other note is resolved for good.
pub open spec fn resolved(note: MapKey) -> MapKey {
    if note.is_hold() && !note.hit_start {
        MapKey { hit_start: true, ..note }
    } else {
        MapKey { hit: true, ..note }
    }
}

/// The error that is scored for a matched note: the signed error limited
/// to the window.
pub open spec fn scored_error(note: MapKey, released: bool, game_time: i64, tolerance: u32) -> int {
    clamped(edge_error(note, released, game_time), tolerance as int)
}

/// An edge resolves at most one note.
pub proof fn lemma_nearest_unique(
    map: Seq<MapKey>,
    i: int,
    k: int,
    lane: KeyDirection,
    released: bool,
    game_time: i64,
    tolerance: u32,
)
    requires
        nearest(map, i, lane, released, game_time, tolerance),
        nearest(map, k, lane, released, game_time, tolerance),
    ensures
        i == k,
{
    assert(in_window(map[i], lane, released, game_time, tolerance));
    assert(in_window(map[k], lane, released, game_time, tolerance));
}

/// The note that is found is the one that `selected` names.
pub proof fn lemma_selected_is(
    map: Seq<MapKey>,
    i: int,
    lane: KeyDirection,
    released: bool,
    game_time: i64,
    tolerance: u32,
)
    requires
        nearest(map, i, lane, released, game_time, tolerance),
    ensures
        selected(map, lane, released, game_time, tolerance) == Some(i),
{
    let c = choose|c: int| nearest(map, c, lane, released, game_time, tolerance);
    lemma_nearest_unique(map, i, c, lane, released, game_time, tolerance);
}

/// Where no note lies inside the window, none is selected.
pub proof fn lemma_selected_none(
    map: Seq<MapKey>,
    lane: KeyDirection,
    released: bool,
    game_time: i64,
    tolerance: u32,
)
    requires
        forall|j: int|
            0 <= j < map.len() ==> !in_window(#[trigger] map[j], lane, released, game_time, tolerance),
    ensures
        selected(map, lane, released, game_time, tolerance) is None,
{
    assert forall|i: int| !nearest(map, i, lane, released, game_time, tolerance) by {
        if 0 <= i < map.len() {
            assert(!in_window(map[i], lane, released, game_time, tolerance));
        }
    }
}

/// A note is selected exactly where some note lies inside the window, and
/// the selected note is the nearest such note.
pub proof fn lemma_selected(
    map: Seq<MapKey>,
    lane: KeyDirection,
    released: bool,
    game_time: i64,
    tolerance: u32,
)
    ensures
        selected(map, lane, released, game_time, tolerance) is Some <==> exists|j: int|
            0 <= j < map.len() && in_window(#[trigger] map[j], lane, released, game_time, tolerance),
        selected(map, lane, released, game_time, tolerance) matches Some(i) ==> nearest(
            map,
            i,
            lane,
            released,
            game_time,
            tolerance,
        ),
    decreases map.len(),
{
    if exists|j: int|
        0 <= j < map.len() && in_window(#[trigger] map[j], lane, released, game_time, tolerance) {
        if map.len() > 0 {
            let init = map.drop_last();
            let last = map.len() - 1;
            lemma_selected(init, lane, released, game_time, tolerance);
            match selected(init, lane, released, game_time, tolerance) {
                Some(b) => {
                    assert(init[b] == map[b]);
                    if in_window(map[last], lane, released, game_time, tolerance) && edge_delta(
                        map[last],
                        released,
                        game_time,
                    ) < edge_delta(map[b], released, game_time) {
                        assert forall|j: int|
                            0 <= j < map.len() && in_window(
                                #[trigger] map[j],
                                lane,
                                released,
                                game_time,
                                tolerance,
                            ) implies edge_delta(map[last], released, game_time) < edge_delta(
                            map[j],
                            released,
                            game_time,
                        ) || (edge_delta(map[last], released, game_time) == edge_delta(
                            map[j],
                            released,
                            game_time,
                        ) && last <= j) by {
                            if j < last {
                                assert(init[j] == map[j]);
                            }
                        }
                        assert(nearest(map, last, lane, released, game_time, tolerance));
                    } else {
                        assert forall|j: int|
                            0 <= j < map.len() && in_window(
                                #[trigger] map[j],
                                lane,
                                released,
                                game_time,
                                tolerance,
                            ) implies edge_delta(map[b], released, game_time) < edge_delta(
                            map[j],
                            released,
                            game_time,
                        ) || (edge_delta(map[b], released, game_time) == edge_delta(
                            map[j],
                            released,
                            game_time,
                        ) && b <= j) by {
                            if j < last {
                                assert(init[j] == map[j]);
                            }
                        }
                        assert(nearest(map, b, lane, released, game_time, tolerance));
                    }
                },
                None => {
                    assert forall|j: int| 0 <= j < last implies !in_window(
                        #[trigger] map[j],
                        lane,
                        released,
                        game_time,
                        tolerance,
                    ) by {
                        assert(init[j] == map[j]);
                    }
                    assert(nearest(map, last, lane, released, game_time, tolerance));
                },
            }
        }
    } else {
        lemma_selected_none(map, lane, released, game_time, tolerance);
    }
}

/// The absolute time delta of an edge against a note.
pub fn delta_of(note: &MapKey, released: bool, game_time: i64) -> (delta: u64)
    ensures
        delta == edge_delta(*note, released, game_time),
{
    if released {
        match note.time_end {
            Some(end) => {
                if note.time < game_time && game_time < end {
                    0
                } else {
                    distance(end, game_time)
                }
            },
            None => distance(note.time, game_time),
        }
    } else {
        distance(note.time, game_time)
    }
}

/// Reports whether an edge in `lane` can match the note.
pub fn is_awaiting(note: &MapKey, lane: KeyDirection, released: bool) -> (r: bool)
    ensures
        r == awaits(*note, lane, released),
{
    !note.hit && note.direction == lane && note.hit_start == released
}

/// The error that is scored for a note that an edge has matched.
pub fn error_of(note: &MapKey, released: bool, game_time: i64, tolerance: u32) -> (error: i64)
    ensures
        error == scored_error(*note, released, game_time, tolerance),
        magnitude(error as int) <= tolerance,
        in_window(*note, note.direction, released, game_time, tolerance) ==> error == edge_error(
            *note,
            released,
            game_time,
        ),
{
    proof {
        lemma_clamped(edge_error(*note, released, game_time), tolerance as int);
    }
    if released {
        match note.time_end {
            Some(end) => {
                if note.time < game_time && game_time < end {
                    clamp_error(game_time, game_time, tolerance)
                } else {
                    clamp_error(end, game_time, tolerance)
                }
            },
            None => clamp_error(note.time, game_time, tolerance),
        }
    } else {
        clamp_error(note.time, game_time, tolerance)
    }
}

/// Finds the note that an edge in `lane` at `game_time` resolves.
pub fn find_note(
    map: &Vec<MapKey>,
    lane: KeyDirection,
    released: bool,
    game_time: i64,
    tolerance: u32,
) -> (found: Option<usize>)
    ensures
        match found {
            Some(i) => selected(map@, lane, released, game_time, tolerance) == Some(i as int)
                && nearest(map@, i as int, lane, released, game_time, tolerance),
            None => selected(map@, lane, released, game_time, tolerance) is None && forall|j: int|
                0 <= j < map@.len() ==> !in_window(
                    #[trigger] map@[j],
                    lane,
                    released,
                    game_time,
                    tolerance,
                ),
        },
{
    let mut found: Option<usize> = None;
    let mut lowest: u64 = 0;
    let mut i: usize = 0;
    while i < map.len()
        invariant
            i <= map.len(),
            match found {
                Some(b) => nearest(
                    map@.subrange(0, i as int),
                    b as int,
                    lane,
                    released,
                    game_time,
                    tolerance,
                ) && lowest == edge_delta(map@[b as int], released, game_time),
                None => forall|j: int|
                    0 <= j < i ==> !in_window(
                        #[trigger] map@[j],
                        lane,
                        released,
                        game_time,
                        tolerance,
                    ),
            },
        decreases map.len() - i,
    {
        let ghost before = map@.subrange(0, i as int);
        let ghost after = map@.subrange(0, i + 1);
        assert(forall|j: int| 0 <= j < i ==> before[j] == after[j]);
        let note: &MapKey = &map[i];
        let delta: u64 = delta_of(note, released, game_time);
        let takes: bool = is_awaiting(note, lane, released) && delta < tolerance as u64 && match found {
            Some(_) => delta < lowest,
            None => true,
        };
        if takes {
            assert(nearest(after, i as int, lane, released, game_time, tolerance)) by {
                assert forall|j: int|
                    0 <= j < after.len() && in_window(
                        #[trigger] after[j],
                        lane,
                        released,
                        game_time,
                        tolerance,
                    ) implies edge_delta(after[i as int], released, game_time) < edge_delta(
                    after[j],
                    released,
                    game_time,
                ) || (edge_delta(after[i as int], released, game_time) == edge_delta(
                    after[j],
                    released,
                    game_time,
                ) && i <= j) by {
                    if j < i {
                        assert(in_window(before[j], lane, released, game_time, tolerance));
                    }
                }
            }
            found = Some(i);
            lowest = delta;
        } else {
            match found {
                Some(b) => {
                    assert(nearest(after, b as int, lane, released, game_time, tolerance)) by {
                        assert forall|j: int|
                            0 <= j < after.len() && in_window(
                                #[trigger] after[j],
                                lane,
                                released,
                                game_time,
                                tolerance,
                            ) implies edge_delta(after[b as int], released, game_time)
                            < edge_delta(after[j], released, game_time) || (edge_delta(
                            after[b as int],
                            released,
                            game_time,
                        ) == edge_delta(after[j], released, game_time) && b <= j) by {
                            if j < i {
                                assert(in_window(before[j], lane, released, game_time, tolerance));
                            }
                        }
                    }
                },
                None => {},
            }
        }
        i += 1;
    }
    assert(map@.subrange(0, i as int) =~= map@);
    proof {
        match found {
            Some(b) => {
                lemma_selected_is(map@, b as int, lane, released, game_time, tolerance);
            },
            None => {
                lemma_selected_none(map@, lane, released, game_time, tolerance);
            },
        }
    }
    found
}

} // verus!
