//! Timing and judgment engine of a four-lane rhythm game.
//!
//! The engine reads a chart, keeps the clock of a run, matches the edges of
//! the player's input against the notes of the chart, scores them, sweeps
//! the notes that were not played, and counts the timing errors into a
//! histogram. It does no input or output of its own: text comes in as
//! bytes, the clock as a count of microseconds, and input as flags.
//!
//! Every time is a whole number of milliseconds on the song clock, held in
//! an `i64`; the clock may be negative during a lead-in. A score is a sum
//! of error magnitudes, so a lower score is a better one.
//!
//! - [`note`]: lanes, notes and judgments.
//! - [`timing`]: distances, the clamped error and the tier of an error.
//! - [`judge`]: which note an input edge resolves.
//! - [`state`]: the state of a run, the tick and the clock.
//! - [`state_lemmas`]: what holds of every tick.
//! - [`histogram`]: the histogram of timing errors.
//! - [`sm`]: the chart format; [`tempo`], [`measure`] and [`difficulty`]
//!   are its parts.
//! - [`csv`]: the pre-converted chart format.
//! - [`folder`]: choosing the files of a map folder.
//! - [`text`], [`decimal`]: byte strings and numbers in text.
//! - [`error`]: why a chart is refused.

pub mod note;
pub mod timing;
pub mod judge;
pub mod state;
pub mod state_lemmas;
pub mod histogram;
pub mod text;
pub mod decimal;
pub mod error;
pub mod tempo;
pub mod measure;
pub mod difficulty;
pub mod sm;
pub mod csv;
pub mod folder;
