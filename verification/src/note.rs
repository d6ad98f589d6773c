//! The data that the engine works on: lanes, notes and judgments.

use vstd::prelude::*;

verus! {

/// One of the four input lanes.
#[derive(Debug, Clone, Copy, PartialEq, Eq, Structural)]
pub enum KeyDirection {
    Up,
    Down,
    Left,
    Right,
}

/// Quality of one resolved input, best first; `Miss` is the terminal tier
/// of an edge that matched nothing and of a note that expired unplayed.
#[derive(Debug, Clone, Copy, PartialEq, Eq, Structural)]
pub enum MessageVal {
    Perfect,
    Fantastic,
    Excellent,
    Great,
    Good,
    Mediocre,
    Awful,
    Miss,
}

/// A judgment shown to the player for a short while: its tier, the lane it
/// came from and the game time at which it was made.
#[derive(Debug, Clone, Copy, PartialEq, Eq)]
pub struct Message {
    pub val: MessageVal,
    pub direction: KeyDirection,
    pub time: i64,
}

/// One note of a chart.
///
/// `time_end` is `None` for a plain note and holds the release time of a
/// hold note. `hit` is set once the note is fully resolved; `hit_start` is
/// set once the start of a hold has been resolved.
#[derive(Debug, Clone, Copy, PartialEq, Eq)]
pub struct MapKey {
    pub direction: KeyDirection,
    pub time: i64,
    pub hit: bool,
    pub hit_start: bool,
    pub time_end: Option<i64>,
}

impl MapKey {
    /// A hold note carries a release time.
    pub open spec fn is_hold(self) -> bool {
        self.time_end is Some
    }

    /// The timing invariant of a note: it is either plain or it is released
    /// strictly after it starts.
    pub open spec fn well_timed(self) -> bool {
        match self.time_end {
            None => true,
            Some(end) => end > self.time,
        }
    }

    /// The phase invariant of a note: only a hold has a resolved start, and
    /// a resolved hold has had its start resolved.
    pub open spec fn well_phased(self) -> bool {
        &&& self.hit_start ==> self.is_hold()
        &&& self.hit && self.is_hold() ==> self.hit_start
    }

    /// Both invariants together.
    pub open spec fn wf(self) -> bool {
        self.well_timed() && self.well_phased()
    }

    /// A note that nothing has touched yet.
    pub open spec fn fresh(self) -> bool {
        !self.hit && !self.hit_start
    }

    /// A plain note at `time`.
    pub fn plain(direction: KeyDirection, time: i64) -> (note: MapKey)
        ensures
            note == (MapKey { direction, time, hit: false, hit_start: false, time_end: None }),
            note.wf(),
            note.fresh(),
    {
        MapKey { direction, time, hit: false, hit_start: false, time_end: None }
    }

    /// A hold note from `time` to `time_end`, or `None` where the release
    /// would not come after the start.
    pub fn hold(direction: KeyDirection, time: i64, time_end: i64) -> (note: Option<MapKey>)
        ensures
            time_end > time ==> note == Some(
                MapKey { direction, time, hit: false, hit_start: false, time_end: Some(time_end) },
            ),
            time_end <= time ==> note is None,
            note matches Some(n) ==> n.wf() && n.fresh(),
    {
        if time_end > time {
            Some(MapKey { direction, time, hit: false, hit_start: false, time_end: Some(time_end) })
        } else {
            None
        }
    }
}

} // verus!
