//! The storage device: a head that moves one track per step.

use crate::error::SimulationError;
use crate::schedulers::Schedulers;
use vstd::prelude::*;

verus! {

/// The device with its head, its counters and the trace of head movements.
#[derive(Debug)]
pub struct HardDriveDisk {
    pub number_of_tracks: u32,
    pub current_track: u32,
    pub seek_count: u32,
    pub time: u32,
    pub scan_right: bool,
    /// One sample `(time, track)` per head movement, oldest first.
    pub trace: Vec<(u32, u32)>,
}

/// The device as a mathematical value.
pub struct DiskState {
    pub number_of_tracks: u32,
    pub current_track: u32,
    pub seek_count: u32,
    pub time: u32,
    pub scan_right: bool,
    pub trace: Seq<(u32, u32)>,
}

impl View for HardDriveDisk {
    type V = DiskState;

    open spec fn view(&self) -> DiskState {
        DiskState {
            number_of_tracks: self.number_of_tracks,
            current_track: self.current_track,
            seek_count: self.seek_count,
            time: self.time,
            scan_right: self.scan_right,
            trace: self.trace@,
        }
    }
}

impl DiskState {
    /// The device as it is created: head on the middle track, sweeping
    /// rightward unless the middle track is already the last one.
    pub open spec fn initial(number_of_tracks: u32) -> DiskState {
        DiskState {
            number_of_tracks,
            current_track: number_of_tracks / 2,
            seek_count: 0,
            time: 0,
            scan_right: number_of_tracks / 2 < number_of_tracks - 1,
            trace: Seq::empty(),
        }
    }

    /// There are at least two tracks, the head is on one of them, and so was
    /// it at every sample of the trace.
    pub open spec fn wf(self) -> bool {
        &&& self.number_of_tracks >= 2
        &&& self.current_track < self.number_of_tracks
        &&& forall|i: int| 0 <= i < self.trace.len() ==> (#[trigger] self.trace[i]).1 < self.number_of_tracks
    }

    /// The sweep direction agrees with the head's position: the head is not
    /// on the last track while sweeping rightward, nor on the first while
    /// sweeping leftward.
    pub open spec fn oriented(self) -> bool {
        if self.scan_right {
            self.current_track < self.number_of_tracks - 1
        } else {
            self.current_track > 0
        }
    }

    /// Whether the next step of a sweep goes rightward. A head that stands
    /// on a boundary track has reached it, and turns before it steps.
    pub open spec fn sweeps_right(self) -> bool {
        if self.scan_right {
            self.current_track < self.number_of_tracks - 1
        } else {
            self.current_track == 0
        }
    }

    /// The track on which one step leaves the head.
    pub open spec fn track_after(self, target: u32, scheduler: Schedulers) -> u32 {
        match scheduler {
            Schedulers::Scan => if self.sweeps_right() {
                (self.current_track + 1) as u32
            } else {
                (self.current_track - 1) as u32
            },
            Schedulers::CScan => if self.current_track == self.number_of_tracks - 1 {
                0
            } else {
                (self.current_track + 1) as u32
            },
            _ => if self.current_track < target {
                (self.current_track + 1) as u32
            } else if self.current_track > target {
                (self.current_track - 1) as u32
            } else {
                self.current_track
            },
        }
    }

    /// The sweep direction after one step. Only a sweeping step changes it:
    /// reaching the last track turns the sweep leftward, reaching the first
    /// one turns it rightward.
    pub open spec fn direction_after(self, target: u32, scheduler: Schedulers) -> bool {
        match scheduler {
            Schedulers::Scan => {
                let track = self.track_after(target, scheduler);
                if track == self.number_of_tracks - 1 {
                    false
                } else if track == 0 {
                    true
                } else {
                    self.sweeps_right()
                }
            },
            _ => self.scan_right,
        }
    }

    /// The device after one head movement: the head has stepped, the seek
    /// counter and the clock have grown by one, and the trace has one more
    /// sample, made of the time at which the step began and of the new track.
    pub open spec fn moved(self, target: u32, scheduler: Schedulers) -> DiskState {
        let track = self.track_after(target, scheduler);
        DiskState {
            current_track: track,
            scan_right: self.direction_after(target, scheduler),
            seek_count: (self.seek_count + 1) as u32,
            time: (self.time + 1) as u32,
            trace: self.trace.push((self.time, track)),
            ..self
        }
    }

    /// The device one time unit later.
    pub open spec fn ticked(self) -> DiskState {
        DiskState { time: (self.time + 1) as u32, ..self }
    }

    /// The device with the current `(time, track)` appended to its trace.
    pub open spec fn sampled(self) -> DiskState {
        DiskState { trace: self.trace.push((self.time, self.current_track)), ..self }
    }

    /// The device after `steps` sweeping steps.
    pub open spec fn swept(self, steps: nat) -> DiskState
        decreases steps,
    {
        if steps == 0 {
            self
        } else {
            self.swept((steps - 1) as nat).moved(0, Schedulers::Scan)
        }
    }

    /// The device after `steps` circular steps.
    pub open spec fn circled(self, steps: nat) -> DiskState
        decreases steps,
    {
        if steps == 0 {
            self
        } else {
            self.circled((steps - 1) as nat).moved(0, Schedulers::CScan)
        }
    }
}

impl HardDriveDisk {
    /// A device with its head on the middle track, at time zero. A device
    /// with fewer than two tracks is refused.
    pub fn new(number_of_tracks: u32) -> (result: Result<HardDriveDisk, SimulationError>)
        ensures
            number_of_tracks <= 1 <==> result is Err,
            result matches Err(e) ==> e == SimulationError::DegenerateConfiguration,
            result matches Ok(hdd) ==> hdd@ == DiskState::initial(number_of_tracks) && hdd@.wf()
                && hdd@.oriented(),
    {
        if number_of_tracks <= 1 {
            return Err(SimulationError::DegenerateConfiguration);
        }
        Ok(
            HardDriveDisk {
                number_of_tracks,
                current_track: number_of_tracks / 2,
                seek_count: 0,
                time: 0,
                scan_right: number_of_tracks / 2 < number_of_tracks - 1,
                trace: Vec::new(),
            },
        )
    }

    /// Moves the head by one step, which takes one time unit, and records
    /// the step.
    ///
    /// Under `Scan` the head steps in the sweep direction and turns on the
    /// first and the last track. Under `CScan` it steps rightward and wraps
    /// from the last track to the first. Under every other policy it steps
    /// toward `target_track_number`, and stays where it is once there.
    pub fn move_head(&mut self, target_track_number: u32, scheduler: Schedulers)
        requires
            old(self)@.wf(),
            target_track_number < old(self).number_of_tracks,
            old(self).seek_count < u32::MAX,
            old(self).time < u32::MAX,
        ensures
            final(self)@ == old(self)@.moved(target_track_number, scheduler),
            final(self)@.wf(),
            final(self).current_track < final(self).number_of_tracks,
            final(self).trace@.last() == (old(self).time, final(self).current_track),
            final(self).time == old(self).time + 1,
            final(self).seek_count == old(self).seek_count + 1,
            scheduler == Schedulers::Scan ==> final(self)@.oriented(),
            scheduler == Schedulers::CScan ==> {
                ||| final(self).current_track == old(self).current_track + 1
                ||| (old(self).current_track == old(self).number_of_tracks - 1
                    && final(self).current_track == 0)
            },
    {
        self.seek_count += 1;
        match scheduler {
            Schedulers::Scan => {
                let rightward = if self.scan_right {
                    self.current_track < self.number_of_tracks - 1
                } else {
                    self.current_track == 0
                };
                if rightward {
                    self.current_track += 1;
                } else {
                    self.current_track -= 1;
                }
                if self.current_track == self.number_of_tracks - 1 {
                    self.scan_right = false;
                } else if self.current_track == 0 {
                    self.scan_right = true;
                } else {
                    self.scan_right = rightward;
                }
            },
            Schedulers::CScan => {
                if self.current_track == self.number_of_tracks - 1 {
                    self.current_track = 0;
                } else {
                    self.current_track += 1;
                }
            },
            _ => {
                if self.current_track < target_track_number {
                    self.current_track += 1;
                } else if self.current_track > target_track_number {
                    self.current_track -= 1;
                }
            },
        }
        assert forall|i: int| 0 <= i < self@.trace.len() implies (#[trigger] self@.trace[i]).1
            < self.number_of_tracks by {
            assert(self@.trace[i] == old(self)@.trace[i]);
        }
        self.write_to_file();
        self.time += 1;
    }

    /// Appends the sample `(time, current_track)` to the trace, from which
    /// the trace file is written.
    pub fn write_to_file(&mut self)
        requires
            old(self)@.wf(),
        ensures
            final(self)@ == old(self)@.sampled(),
            final(self)@.wf(),
    {
        self.trace.push((self.time, self.current_track));
        assert forall|i: int| 0 <= i < self.trace@.len() implies (#[trigger] self.trace@[i]).1
            < self.number_of_tracks by {
            if i < old(self).trace@.len() {
                assert(self.trace@[i] == old(self)@.trace[i]);
            }
        }
    }
}

/// A head movement keeps the head and the trace on the device.
pub proof fn lemma_moved(disk: DiskState, target: u32, scheduler: Schedulers)
    requires
        disk.wf(),
        target < disk.number_of_tracks,
    ensures
        disk.moved(target, scheduler).wf(),
        disk.moved(target, scheduler).number_of_tracks == disk.number_of_tracks,
{
    let after = disk.moved(target, scheduler);
    assert forall|i: int| 0 <= i < after.trace.len() implies (#[trigger] after.trace[i]).1
        < after.number_of_tracks by {
        if i < disk.trace.len() {
            assert(after.trace[i] == disk.trace[i]);
        }
    }
}

/// Between two turns a sweep is monotonic: as long as the direction stays
/// what it was, each step takes the head one track further in it.
pub proof fn sweep_is_monotonic_between_turns(disk: DiskState, steps: nat)
    requires
        disk.wf(),
        disk.oriented(),
        forall|j: nat| j <= steps ==> (#[trigger] disk.swept(j)).scan_right == disk.scan_right,
    ensures
        disk.swept(steps).wf(),
        disk.swept(steps).oriented(),
        disk.scan_right ==> disk.swept(steps).current_track == disk.current_track + steps,
        !disk.scan_right ==> disk.swept(steps).current_track == disk.current_track - steps,
    decreases steps,
{
    if steps > 0 {
        let before = (steps - 1) as nat;
        assert forall|j: nat| j <= before implies (#[trigger] disk.swept(j)).scan_right
            == disk.scan_right by {
            assert(j <= steps);
        }
        sweep_is_monotonic_between_turns(disk, before);
        assert(disk.swept(before).scan_right == disk.scan_right);
        assert(disk.swept(steps).scan_right == disk.scan_right);
    }
}

/// A circular sweep never takes the head to a lower track, but for the wrap
/// from the last track to the first.
pub proof fn circular_sweep_only_wraps_back(disk: DiskState, steps: nat)
    requires
        disk.wf(),
    ensures
        disk.circled(steps).wf(),
        disk.circled(steps).number_of_tracks == disk.number_of_tracks,
        ({
            let before = disk.circled(steps).current_track;
            let after = disk.circled(steps + 1).current_track;
            after == before + 1 || (before == disk.number_of_tracks - 1 && after == 0)
        }),
    decreases steps,
{
    if steps > 0 {
        circular_sweep_only_wraps_back(disk, (steps - 1) as nat);
    }
    assert(disk.circled(steps + 1) == disk.circled(steps).moved(0, Schedulers::CScan));
}

} // verus!
