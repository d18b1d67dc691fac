//! What the debug window shows.

use vstd::prelude::*;

use crate::number::Real;

verus! {

/// How many frame times are shown.
pub const FRAME_TIME_HISTORY_LENGTH: usize = 256;

/// The bit pattern of 1.5.
pub const DEFAULT_INTERPOLATION_DELAY: u32 = 0x3fc0_0000;

/// State and options related to the debug window.
#[derive(Clone)]
pub struct DebugState {
    /// Whether to draw an overlay showing the most recently received
    /// snapshot.
    ///
    /// This is useful to debug the difference between the
    /// interpolated visual positions and the raw snapshots.
    pub draw_latest_snapshot: bool,
    /// The delay in multiples of the snapshot rate to buffer
    /// snapshots for interpolation.
    ///
    /// Increasing this will make things smoother in the presence of
    /// packet loss or jitter, but will increase visual latency.
    pub interpolation_delay: Real,
    pub frame_time_history: Vec<Real>,
}

/// The values of a history after one more: the oldest one is gone.
pub open spec fn shifted(history: Seq<Real>, value: Real) -> Seq<Real> {
    history.drop_first().push(value)
}

/// Makes a history of a given length, in which nothing has happened.
pub fn empty_history(length: usize) -> (history: Vec<Real>)
    ensures
        history@ == Seq::new(length as nat, |i: int| Real { bits: 0 }),
{
    let mut history: Vec<Real> = Vec::new();
    while history.len() < length
        invariant
            history@.len() <= length,
            history@ =~= Seq::new(history@.len(), |i: int| Real { bits: 0 }),
        decreases length - history@.len(),
    {
        history.push(Real { bits: 0 });
    }
    history
}

/// Shifts a history, to add one more value at its end.
pub fn shift(history: &mut Vec<Real>, value: Real)
    requires
        old(history)@.len() > 0,
    ensures
        final(history)@ == shifted(old(history)@, value),
{
    let ghost before = history@;
    let mut at: usize = 0;
    while at < history.len() - 1
        invariant
            before == old(history)@,
            before.len() > 0,
            history@.len() == before.len(),
            at <= before.len() - 1,
            forall|i: int| 0 <= i < at ==> #[trigger] history@[i] == before[i + 1],
            forall|i: int| at <= i < before.len() ==> #[trigger] history@[i] == before[i],
        decreases before.len() - at,
    {
        let next: Real = history[at + 1];
        history.set(at, next);
        at = at + 1;
    }
    history.set(at, value);
    assert(history@ =~= shifted(before, value));
}

impl Default for DebugState {
    fn default() -> (state: DebugState)
        ensures
            state.wf(),
            !state.draw_latest_snapshot,
            state.interpolation_delay.bits == DEFAULT_INTERPOLATION_DELAY,
            state.history() == Seq::new(
                FRAME_TIME_HISTORY_LENGTH as nat,
                |i: int| Real { bits: 0 },
            ),
    {
        DebugState {
            draw_latest_snapshot: false,
            interpolation_delay: Real { bits: DEFAULT_INTERPOLATION_DELAY },
            frame_time_history: empty_history(FRAME_TIME_HISTORY_LENGTH),
        }
    }
}

impl DebugState {
    /// The most recent frame times in milliseconds, the oldest first.
    pub open spec fn history(self) -> Seq<Real> {
        self.frame_time_history@
    }

    /// The history always has the same length.
    pub open spec fn wf(self) -> bool {
        self.history().len() == FRAME_TIME_HISTORY_LENGTH
    }

    /// Logs a frame time in milliseconds.
    pub fn log_frame_time(&mut self, frame_time: Real)
        requires
            old(self).wf(),
        ensures
            final(self).wf(),
            final(self).history() == shifted(old(self).history(), frame_time),
            final(self).draw_latest_snapshot == old(self).draw_latest_snapshot,
            final(self).interpolation_delay == old(self).interpolation_delay,
    {
        shift(&mut self.frame_time_history, frame_time);
    }

    /// Returns the most recent frame times in milliseconds, the oldest first.
    pub fn frame_times(&self) -> (times: &Vec<Real>)
        ensures
            times@ == self.history(),
    {
        &self.frame_time_history
    }
}

} // verus!
