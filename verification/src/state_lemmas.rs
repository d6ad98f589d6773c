//! What holds of every tick: which notes an edge may touch, what it
//! scores, and what a run never does to its chart.

use vstd::prelude::*;
use crate::judge::{
    awaits, edge_delta, edge_error, in_window, lemma_selected, lemma_selected_is,
    lemma_selected_none, nearest, resolved, scored_error, selected,
};
use crate::note::{KeyDirection, MapKey, Message};
use crate::state::{
    clock_time, edge_judged, edges_judged, expired, is_expired, judged_time, lane_judged,
    miss_message, miss_of, swept, swept_note, ticked, Config, KeysPressed, StateView,
};
use crate::timing::{lemma_clamped, magnitude, score_plus, tier_of};

verus! {

/// A later state of a note: the note is the same note, a resolved note
/// stays as it is, a resolved start stays resolved, and a well-formed note
/// stays well formed.
pub open spec fn note_advanced(before: MapKey, after: MapKey) -> bool {
    &&& after.direction == before.direction
    &&& after.time == before.time
    &&& after.time_end == before.time_end
    &&& before.hit ==> after == before
    &&& before.hit_start ==> after.hit_start
    &&& before.wf() ==> after.wf()
}

/// A later state of a chart: the same notes in the same order, each in a
/// later state.
pub open spec fn chart_advanced(before: Seq<MapKey>, after: Seq<MapKey>) -> bool {
    &&& after.len() == before.len()
    &&& forall|i: int| 0 <= i < before.len() ==> note_advanced(#[trigger] before[i], after[i])
}

/// The smaller of two numbers.
pub open spec fn smaller(a: int, b: int) -> int {
    if a < b {
        a
    } else {
        b
    }
}

/// A press that resolves a plain note resolves that note and no other,
/// and the score grows by the distance between the press and the note,
/// which is less than the tolerance. (The score stops at the largest
/// value that it can hold.)
pub proof fn lemma_press_on_plain_note(
    s: StateView,
    lane: KeyDirection,
    game_time: i64,
    config: Config,
    i: int,
)
    requires
        nearest(s.map, i, lane, false, game_time, config.key_error_range),
        !s.map[i].is_hold(),
    ensures
        ({
            let after = edge_judged(s, lane, false, game_time, config);
            let delta = magnitude(s.map[i].time - game_time);
            let gain = smaller(delta, config.key_error_range as int);
            &&& after.map.len() == s.map.len()
            &&& !s.map[i].hit && after.map[i].hit
            &&& after.map[i] == (MapKey { hit: true, ..s.map[i] })
            &&& forall|j: int| 0 <= j < s.map.len() && j != i ==> after.map[j] == s.map[j]
            &&& gain == delta
            &&& after.score == score_plus(s.score, gain)
            &&& s.score + config.key_error_range <= u64::MAX ==> after.score == s.score + gain
            &&& after.errors == s.errors.push((s.map[i].time - game_time) as i64)
            &&& after.messages == s.messages.push(
                Message {
                    val: tier_of(delta, config.key_error_range as int),
                    direction: lane,
                    time: game_time,
                },
            )
        }),
{
    let tolerance = config.key_error_range;
    lemma_selected_is(s.map, i, lane, false, game_time, tolerance);
    lemma_clamped(edge_error(s.map[i], false, game_time), tolerance as int);
    assert(in_window(s.map[i], lane, false, game_time, tolerance));
}

/// An edge never matches a note that lies a whole tolerance or more away:
/// the window is open at both ends. The note stays as it is.
pub proof fn lemma_outside_window_not_matched(
    s: StateView,
    lane: KeyDirection,
    released: bool,
    game_time: i64,
    config: Config,
    i: int,
)
    requires
        0 <= i < s.map.len(),
        edge_delta(s.map[i], released, game_time) >= config.key_error_range,
    ensures
        selected(s.map, lane, released, game_time, config.key_error_range) != Some(i),
        edge_judged(s, lane, released, game_time, config).map[i] == s.map[i],
{
    let tolerance = config.key_error_range;
    lemma_selected(s.map, lane, released, game_time, tolerance);
}

/// An edge that finds no note inside the window is a miss: with the
/// penalty on, the whole tolerance is scored and one `Miss` is emitted;
/// with the penalty off nothing changes. No note is touched.
pub proof fn lemma_edge_without_match(
    s: StateView,
    lane: KeyDirection,
    released: bool,
    game_time: i64,
    config: Config,
)
    requires
        s.map.len() > 0,
        forall|j: int|
            0 <= j < s.map.len() ==> !in_window(
                #[trigger] s.map[j],
                lane,
                released,
                game_time,
                config.key_error_range,
            ),
    ensures
        ({
            let after = edge_judged(s, lane, released, game_time, config);
            &&& after.map == s.map
            &&& after.errors == s.errors
            &&& config.disable_miss_penalty ==> after == s
            &&& !config.disable_miss_penalty ==> after.score == score_plus(
                s.score,
                config.key_error_range as int,
            ) && after.messages == s.messages.push(miss_message(lane, game_time))
        }),
{
    lemma_selected_none(s.map, lane, released, game_time, config.key_error_range);
}

/// A release while the game time lies strictly inside a started hold has
/// the error 0, whatever the distance to the end of the hold.
pub proof fn lemma_release_inside_hold(note: MapKey, game_time: i64, tolerance: u32)
    requires
        note.time_end matches Some(end) && note.time < game_time < end,
    ensures
        edge_error(note, true, game_time) == 0,
        scored_error(note, true, game_time, tolerance) == 0,
        tolerance > 0 && awaits(note, note.direction, true) ==> in_window(
            note,
            note.direction,
            true,
            game_time,
            tolerance,
        ),
{
    lemma_clamped(0, tolerance as int);
}

/// Resolving a note that an edge can match leaves it the same note, in a
/// later state.
pub proof fn lemma_resolved_advances(note: MapKey, lane: KeyDirection, released: bool)
    requires
        awaits(note, lane, released),
    ensures
        note_advanced(note, resolved(note)),
        resolved(note) != note,
{
}

/// Judging an edge changes at most one note, emits at most one judgment,
/// and leaves the chart the same chart in a later state.
pub proof fn lemma_edge_judged(
    s: StateView,
    lane: KeyDirection,
    released: bool,
    game_time: i64,
    config: Config,
)
    ensures
        ({
            let after = edge_judged(s, lane, released, game_time, config);
            &&& chart_advanced(s.map, after.map)
            &&& forall|i: int, j: int|
                0 <= i < s.map.len() && 0 <= j < s.map.len() && after.map[i] != s.map[i]
                    && after.map[j] != s.map[j] ==> i == j
            &&& after.messages == s.messages || (after.messages.len() == s.messages.len() + 1
                && after.messages.drop_last() == s.messages && after.messages.last().direction
                == lane && after.messages.last().time == game_time)
            &&& after.score >= s.score
            &&& after.keys == s.keys && after.keys_released == s.keys_released
            &&& after.game_time == s.game_time && after.song_meta == s.song_meta
            &&& after.quit == s.quit && after.paused == s.paused && after.song_playing
                == s.song_playing
        }),
{
    let tolerance = config.key_error_range;
    let after = edge_judged(s, lane, released, game_time, config);
    lemma_selected(s.map, lane, released, game_time, tolerance);
    if s.map.len() > 0 {
        match selected(s.map, lane, released, game_time, tolerance) {
            Some(i) => {
                lemma_resolved_advances(s.map[i], lane, released);
                assert(after.messages.drop_last() =~= s.messages);
            },
            None => {
                if !config.disable_miss_penalty {
                    assert(after.messages.drop_last() =~= s.messages);
                }
            },
        }
    }
}

/// The sweep resolves exactly the expired notes, each with one `Miss`,
/// and leaves the chart the same chart in a later state, in which no note
/// is expired.
pub proof fn lemma_swept(s: StateView, game_time: i64, config: Config)
    ensures
        ({
            let after = swept(s, game_time, config);
            let tolerance = config.key_error_range;
            &&& chart_advanced(s.map, after.map)
            &&& forall|i: int|
                0 <= i < s.map.len() ==> (after.map[i] != s.map[i] <==> expired(
                    #[trigger] s.map[i],
                    game_time,
                    tolerance,
                ))
            &&& forall|i: int|
                0 <= i < s.map.len() && expired(#[trigger] s.map[i], game_time, tolerance)
                    ==> after.map[i].hit
            &&& forall|i: int|
                0 <= i < after.map.len() ==> !expired(#[trigger] after.map[i], game_time, tolerance)
            &&& after.messages.len() == s.messages.len() + s.map.filter(
                is_expired(game_time, tolerance),
            ).len()
            &&& after.score >= s.score
        }),
{
    let after = swept(s, game_time, config);
    let tolerance = config.key_error_range;
    let missed = s.map.filter(is_expired(game_time, tolerance));
    assert(missed.len() * tolerance >= 0) by (nonlinear_arith)
        requires
            missed.len() >= 0,
            tolerance >= 0,
    ;
    assert forall|i: int| 0 <= i < s.map.len() implies note_advanced(
        #[trigger] s.map[i],
        after.map[i],
    ) by {}
}

/// One sweep over a chart with exactly one expired note scores the whole
/// tolerance once and emits one `Miss` in the lane of that note.
pub proof fn lemma_sweep_of_one(s: StateView, game_time: i64, config: Config, i: int)
    requires
        0 <= i < s.map.len(),
        expired(s.map[i], game_time, config.key_error_range),
        forall|j: int|
            0 <= j < s.map.len() && j != i ==> !expired(
                #[trigger] s.map[j],
                game_time,
                config.key_error_range,
            ),
    ensures
        ({
            let after = swept(s, game_time, config);
            &&& after.map == s.map.update(i, swept_note(s.map[i]))
            &&& after.score == score_plus(s.score, config.key_error_range as int)
            &&& after.messages == s.messages.push(miss_message(s.map[i].direction, game_time))
        }),
{
    let tolerance = config.key_error_range;
    let pred = is_expired(game_time, tolerance);
    let after = swept(s, game_time, config);
    lemma_filter_one(s.map, pred, i);
    let missed = s.map.filter(pred);
    assert(missed =~= seq![s.map[i]]);
    assert(missed.map_values(miss_of(game_time)) =~= seq![
        miss_message(s.map[i].direction, game_time),
    ]);
    assert(after.messages =~= s.messages.push(miss_message(s.map[i].direction, game_time)));
    assert(after.map =~= s.map.update(i, swept_note(s.map[i])));
    assert(1 * tolerance == tolerance);
}

/// Where exactly one element satisfies a predicate, filtering leaves that
/// element alone.
pub proof fn lemma_filter_one<A>(s: Seq<A>, pred: spec_fn(A) -> bool, i: int)
    requires
        0 <= i < s.len(),
        pred(s[i]),
        forall|j: int| 0 <= j < s.len() && j != i ==> !pred(#[trigger] s[j]),
    ensures
        s.filter(pred) == seq![s[i]],
    decreases s.len(),
{
    reveal(Seq::filter);
    let init = s.drop_last();
    if i == s.len() - 1 {
        assert forall|j: int| 0 <= j < init.len() implies !pred(#[trigger] init[j]) by {
            assert(init[j] == s[j]);
        }
        init.lemma_all_neg_filter_empty(pred);
        assert(init.filter(pred).len() == 0);
        assert(s.filter(pred) =~= seq![s[i]]);
    } else {
        assert(init[i] == s[i]);
        assert forall|j: int| 0 <= j < init.len() && j != i implies !pred(#[trigger] init[j]) by {
            assert(init[j] == s[j]);
        }
        lemma_filter_one(init, pred, i);
        assert(!pred(s[s.len() - 1]));
    }
}

/// Lanes do not depend on each other: which note an edge resolves is the
/// same whether or not an edge in another lane has been judged before it.
pub proof fn lemma_lanes_independent(
    s: StateView,
    first: KeyDirection,
    first_released: bool,
    lane: KeyDirection,
    released: bool,
    game_time: i64,
    config: Config,
)
    requires
        first != lane,
    ensures
        selected(
            edge_judged(s, first, first_released, game_time, config).map,
            lane,
            released,
            game_time,
            config.key_error_range,
        ) == selected(s.map, lane, released, game_time, config.key_error_range),
{
    let tolerance = config.key_error_range;
    let after = edge_judged(s, first, first_released, game_time, config);
    lemma_edge_judged(s, first, first_released, game_time, config);
    lemma_selected(s.map, first, first_released, game_time, tolerance);
    assert forall|j: int| 0 <= j < s.map.len() implies in_window(
        #[trigger] after.map[j],
        lane,
        released,
        game_time,
        tolerance,
    ) == in_window(s.map[j], lane, released, game_time, tolerance) && edge_delta(
        after.map[j],
        released,
        game_time,
    ) == edge_delta(s.map[j], released, game_time) by {
        assert(note_advanced(s.map[j], after.map[j]));
        if after.map[j] != s.map[j] {
            assert(s.map[j].direction == first);
        }
    }
    lemma_selected(s.map, lane, released, game_time, tolerance);
    lemma_selected(after.map, lane, released, game_time, tolerance);
    match selected(s.map, lane, released, game_time, tolerance) {
        Some(i) => {
            assert(in_window(after.map[i], lane, released, game_time, tolerance));
            assert(nearest(after.map, i, lane, released, game_time, tolerance)) by {
                assert forall|j: int|
                    0 <= j < after.map.len() && in_window(
                        #[trigger] after.map[j],
                        lane,
                        released,
                        game_time,
                        tolerance,
                    ) implies edge_delta(after.map[i], released, game_time) < edge_delta(
                    after.map[j],
                    released,
                    game_time,
                ) || (edge_delta(after.map[i], released, game_time) == edge_delta(
                    after.map[j],
                    released,
                    game_time,
                ) && i <= j) by {
                    assert(in_window(s.map[j], lane, released, game_time, tolerance));
                }
            }
            lemma_selected_is(after.map, i, lane, released, game_time, tolerance);
        },
        None => {
            if let Some(k) = selected(after.map, lane, released, game_time, tolerance) {
                assert(in_window(after.map[k], lane, released, game_time, tolerance));
                assert(in_window(s.map[k], lane, released, game_time, tolerance));
            }
        },
    }
}

/// The game clock never runs backwards: a later reading of the wall clock
/// gives a game time that is no earlier.
pub proof fn lemma_clock_monotone(earlier: u64, later: u64, config: Config, delay: i64)
    requires
        earlier <= later,
    ensures
        clock_time(earlier, config, delay) <= clock_time(later, config, delay),
{
}

/// Being a later state of a chart carries over from step to step.
pub proof fn lemma_chart_advanced_twice(a: Seq<MapKey>, b: Seq<MapKey>, c: Seq<MapKey>)
    requires
        chart_advanced(a, b),
        chart_advanced(b, c),
    ensures
        chart_advanced(a, c),
{
    assert forall|i: int| 0 <= i < a.len() implies note_advanced(#[trigger] a[i], c[i]) by {
        assert(note_advanced(a[i], b[i]));
        assert(note_advanced(b[i], c[i]));
    }
}

/// What judging edges may do to a state: the chart moves to a later state,
/// at most `judgments` judgments are added behind those that were there,
/// the score does not fall, and nothing else changes.
pub open spec fn edges_step(before: StateView, after: StateView, judgments: int) -> bool {
    &&& chart_advanced(before.map, after.map)
    &&& before.messages.len() <= after.messages.len() <= before.messages.len() + judgments
    &&& before.messages.is_prefix_of(after.messages)
    &&& after.score >= before.score
    &&& after.keys == before.keys
    &&& after.keys_released == before.keys_released
    &&& after.game_time == before.game_time
    &&& after.song_meta == before.song_meta
    &&& after.quit == before.quit
    &&& after.paused == before.paused
    &&& after.song_playing == before.song_playing
}

/// Judging the edge of one lane, if one is pending, is a step with at most
/// one judgment.
pub proof fn lemma_lane_judged(
    s: StateView,
    pending: bool,
    lane: KeyDirection,
    released: bool,
    game_time: i64,
    config: Config,
)
    ensures
        edges_step(s, lane_judged(s, pending, lane, released, game_time, config), 1),
{
    if pending {
        lemma_edge_judged(s, lane, released, game_time, config);
        let after = edge_judged(s, lane, released, game_time, config);
        if after.messages != s.messages {
            assert(s.messages =~= after.messages.drop_last());
        }
    }
    assert(chart_advanced(s.map, s.map));
}

/// A step after steps is a step.
pub proof fn lemma_edges_step_twice(
    a: StateView,
    b: StateView,
    c: StateView,
    first: int,
    second: int,
)
    requires
        edges_step(a, b, first),
        edges_step(b, c, second),
    ensures
        edges_step(a, c, first + second),
{
    lemma_chart_advanced_twice(a.map, b.map, c.map);
}

/// The edges of one tick give at most eight judgments, one for each lane
/// and kind of edge, and leave no edge pending.
pub proof fn lemma_edges_judged(s: StateView, game_time: i64, config: Config)
    ensures
        ({
            let after = edges_judged(s, game_time, config);
            &&& edges_step(
                s,
                StateView { keys: s.keys, keys_released: s.keys_released, ..after },
                8,
            )
            &&& after.keys == KeysPressed::none()
            &&& after.keys_released == KeysPressed::none()
        }),
{
    let t = game_time;
    let s1 = lane_judged(s, s.keys.up, KeyDirection::Up, false, t, config);
    let s2 = lane_judged(s1, s.keys.down, KeyDirection::Down, false, t, config);
    let s3 = lane_judged(s2, s.keys.left, KeyDirection::Left, false, t, config);
    let s4 = lane_judged(s3, s.keys.right, KeyDirection::Right, false, t, config);
    let s5 = lane_judged(s4, s.keys_released.up, KeyDirection::Up, true, t, config);
    let s6 = lane_judged(s5, s.keys_released.down, KeyDirection::Down, true, t, config);
    let s7 = lane_judged(s6, s.keys_released.left, KeyDirection::Left, true, t, config);
    let s8 = lane_judged(s7, s.keys_released.right, KeyDirection::Right, true, t, config);
    lemma_lane_judged(s, s.keys.up, KeyDirection::Up, false, t, config);
    lemma_lane_judged(s1, s.keys.down, KeyDirection::Down, false, t, config);
    lemma_edges_step_twice(s, s1, s2, 1, 1);
    lemma_lane_judged(s2, s.keys.left, KeyDirection::Left, false, t, config);
    lemma_edges_step_twice(s, s2, s3, 2, 1);
    lemma_lane_judged(s3, s.keys.right, KeyDirection::Right, false, t, config);
    lemma_edges_step_twice(s, s3, s4, 3, 1);
    lemma_lane_judged(s4, s.keys_released.up, KeyDirection::Up, true, t, config);
    lemma_edges_step_twice(s, s4, s5, 4, 1);
    lemma_lane_judged(s5, s.keys_released.down, KeyDirection::Down, true, t, config);
    lemma_edges_step_twice(s, s5, s6, 5, 1);
    lemma_lane_judged(s6, s.keys_released.left, KeyDirection::Left, true, t, config);
    lemma_edges_step_twice(s, s6, s7, 6, 1);
    lemma_lane_judged(s7, s.keys_released.right, KeyDirection::Right, true, t, config);
    lemma_edges_step_twice(s, s7, s8, 7, 1);
    assert(s8 == (StateView {
        keys: s.keys,
        keys_released: s.keys_released,
        ..edges_judged(s, game_time, config)
    }));
}

/// A tick never adds, drops or reorders a note, never changes the lane or
/// the times of one, never touches a resolved note, and keeps every
/// well-formed note well formed. After it no input edge is pending, no
/// unresolved note is overdue, and the score has not fallen.
pub proof fn lemma_ticked(s: StateView, config: Config)
    ensures
        ({
            let after = ticked(s, config);
            let game_time = judged_time(s.game_time, config);
            &&& chart_advanced(s.map, after.map)
            &&& after.keys == KeysPressed::none()
            &&& after.keys_released == KeysPressed::none()
            &&& forall|i: int|
                0 <= i < after.map.len() ==> !expired(
                    #[trigger] after.map[i],
                    game_time,
                    config.key_error_range,
                )
            &&& after.score >= s.score
            &&& after.game_time == s.game_time
        }),
{
    let t = judged_time(s.game_time, config);
    let judged = edges_judged(s, t, config);
    lemma_edges_judged(s, t, config);
    lemma_swept(judged, t, config);
    lemma_chart_advanced_twice(s.map, judged.map, ticked(s, config).map);
}

} // verus!
