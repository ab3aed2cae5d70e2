//! Engine-side bookkeeping: settings, errors, and the tick schedule.
//!
//! The engine drives the systems over the world, tick by tick.  The
//! schedule here decides the tick numbers of the frames a run hands to
//! its caller: strictly increasing, one per tick, with the last frame
//! marked completed.

use crate::snapshot::{SnapshotConfig, SnapshotError};
use vstd::prelude::*;

verus! {

/// What an engine is built from.
pub struct EngineConfig {
    pub snapshot: SnapshotConfig,
}

impl EngineConfig {
    pub fn with_snapshot_dir(self, dir: String) -> (r: Self)
        ensures
            r.snapshot.interval == self.snapshot.interval,
            r.snapshot.output_dir@ == dir@,
    {
        Self { snapshot: self.snapshot.with_output_dir(dir) }
    }
}

/// Settings of a running engine.
pub struct EngineSettings {
    pub scenario_name: String,
    pub seed: u64,
    pub snapshot_interval_ticks: u64,
    pub snapshot_dir: String,
}

/// A tick that could not complete.
#[derive(Debug)]
pub enum EngineError {
    Snapshot(SnapshotError),
}

/// A frame handed to the caller after one tick.
#[derive(Debug, Clone, Copy, PartialEq, Eq, Structural)]
pub struct FrameMark {
    /// The tick the frame describes; the first frame carries tick 1.
    pub tick: u64,
    /// True exactly on the final frame of the run.
    pub completed: bool,
}

/// The frame of the k-th tick of a run, counting from zero.
pub open spec fn spec_frame(total_ticks: u64, k: int) -> FrameMark {
    FrameMark { tick: (k + 1) as u64, completed: k + 1 == total_ticks }
}

/// Decides the frames of one engine run: `total_ticks` frames with
/// strictly increasing tick numbers, the last one marked completed.
pub struct TickSchedule {
    total_ticks: u64,
    emitted: u64,
}

impl TickSchedule {
    pub closed spec fn spec_total_ticks(&self) -> u64 {
        self.total_ticks
    }

    pub closed spec fn spec_emitted(&self) -> u64 {
        self.emitted
    }

    pub fn new(total_ticks: u64) -> (r: Self)
        ensures
            r.spec_total_ticks() == total_ticks,
            r.spec_emitted() == 0,
    {
        Self { total_ticks, emitted: 0 }
    }

    /// The mark of the next frame, if the run is not over.
    pub fn next_frame(&mut self) -> (r: Option<FrameMark>)
        ensures
            final (self).spec_total_ticks() == old(self).spec_total_ticks(),
            old(self).spec_emitted() < old(self).spec_total_ticks() ==> {
                &&& r == Some(
                    spec_frame(old(self).spec_total_ticks(), old(self).spec_emitted() as int),
                )
                &&& final (self).spec_emitted() == old(self).spec_emitted() + 1
            },
            old(self).spec_emitted() >= old(self).spec_total_ticks() ==> r is None && *final (self)
                == *old(self),
    {
        if self.emitted < self.total_ticks {
            self.emitted = self.emitted + 1;
            Some(FrameMark { tick: self.emitted, completed: self.emitted == self.total_ticks })
        } else {
            None
        }
    }
}

/// Frames of one run are strictly ordered by tick: an earlier frame
/// carries a smaller tick number, and only the last frame of the run is
/// marked completed.
pub proof fn lemma_frames_strictly_ordered(total_ticks: u64, i: int, j: int)
    requires
        0 <= i < j < total_ticks,
    ensures
        spec_frame(total_ticks, i).tick < spec_frame(total_ticks, j).tick,
        !spec_frame(total_ticks, i).completed,
        spec_frame(total_ticks, j).completed <==> j == total_ticks - 1,
{
}

} // verus!
