//! The simulation driver.
//!
//! A simulation is a state machine. At each step it either decides (releases
//! what has arrived, gives up what has missed its deadline, and selects a
//! request, real-time work first), or moves the head one track toward the
//! request in service, or completes that request on arrival. A run repeats
//! the step until every request is served or missed.

use crate::error::SimulationError;
use crate::queues::accrue;
use crate::queues::all_marked;
use crate::queues::bounded;
use crate::queues::lemma_concat_bounded;
use crate::queues::lemma_concat_marked;
use crate::accounting::lemma_initial;
use crate::queues::lemma_marked_bounded;
use crate::queues::lemma_marked_same;
use crate::queues::lemma_remove_bounded;
use crate::queues::lemma_remove_marked;
use crate::queues::lemma_split;
use crate::queues::lemma_split_bounded;
use crate::queues::lemma_split_empty;
use crate::queues::lemma_split_marked;
use crate::queues::lemma_waited_bounded;
use crate::queues::lemma_waited_marked;
use crate::queues::marked;
use crate::queues::matching;
use crate::queues::remaining;
use crate::queues::split;
use crate::queues::waited;
use crate::liveness::run_ends_in_time;
use crate::liveness::time_bound;
use crate::queues::Filter;
use crate::request::Request;
use crate::request::RequestStatus;
use crate::schedulers::next_request_index;
use crate::schedulers::Schedulers;
use crate::storage_device::lemma_moved;
use crate::storage_device::DiskState;
use crate::storage_device::HardDriveDisk;
use vstd::prelude::*;

verus! {

/// The request toward which the head is moving.
#[derive(Clone, Copy, Debug, PartialEq, Eq, Structural)]
pub struct Service {
    pub request: Request,
    /// Whether the real-time policy selected the request.
    pub real_time: bool,
}

/// A simulation in progress: the policies, the device, and the requests,
/// each held by exactly one list or in service.
#[derive(Debug)]
pub struct Simulation {
    pub scheduler: Schedulers,
    pub rt_scheduler: Option<Schedulers>,
    pub hdd: HardDriveDisk,
    pub request_count: usize,
    /// Best-effort requests that have not arrived yet.
    pub normal_requests: Vec<Request>,
    /// Real-time requests that have not arrived yet.
    pub rt_requests: Vec<Request>,
    pub ready_requests: Vec<Request>,
    pub ready_rt_requests: Vec<Request>,
    pub done_requests: Vec<Request>,
    pub dead_requests: Vec<Request>,
    pub in_service: Option<Service>,
}

/// A simulation as a mathematical value.
pub struct SimulationState {
    pub scheduler: Schedulers,
    pub rt_scheduler: Option<Schedulers>,
    pub hdd: DiskState,
    pub request_count: usize,
    pub normal_requests: Seq<Request>,
    pub rt_requests: Seq<Request>,
    pub ready_requests: Seq<Request>,
    pub ready_rt_requests: Seq<Request>,
    pub done_requests: Seq<Request>,
    pub dead_requests: Seq<Request>,
    pub in_service: Option<Service>,
}

impl View for Simulation {
    type V = SimulationState;

    open spec fn view(&self) -> SimulationState {
        SimulationState {
            scheduler: self.scheduler,
            rt_scheduler: self.rt_scheduler,
            hdd: self.hdd@,
            request_count: self.request_count,
            normal_requests: self.normal_requests@,
            rt_requests: self.rt_requests@,
            ready_requests: self.ready_requests@,
            ready_rt_requests: self.ready_rt_requests@,
            done_requests: self.done_requests@,
            dead_requests: self.dead_requests@,
            in_service: self.in_service,
        }
    }
}

/// Every request of the workload is fresh and asks for a track of the device.
pub open spec fn valid_workload(requests: Seq<Request>, number_of_tracks: u32) -> bool {
    forall|i: int|
        0 <= i < requests.len() ==> (#[trigger] requests[i]).fresh() && requests[i].track_number
            < number_of_tracks
}

/// The workload can be run on the device: there are at least two tracks and
/// at least one request, and the workload is valid.
pub open spec fn accepted(number_of_tracks: u32, requests: Seq<Request>) -> bool {
    number_of_tracks >= 2 && requests.len() > 0 && valid_workload(requests, number_of_tracks)
}

impl SimulationState {
    /// The simulation before its first step. Without a real-time policy
    /// every request is best-effort; with one, the requests are parted by
    /// their class.
    pub open spec fn initial(
        scheduler: Schedulers,
        rt_scheduler: Option<Schedulers>,
        number_of_tracks: u32,
        requests: Seq<Request>,
    ) -> SimulationState {
        SimulationState {
            scheduler,
            rt_scheduler,
            hdd: DiskState::initial(number_of_tracks),
            request_count: requests.len() as usize,
            normal_requests: if rt_scheduler is Some {
                remaining(requests, Filter::RealTime)
            } else {
                requests
            },
            rt_requests: if rt_scheduler is Some {
                matching(requests, Filter::RealTime)
            } else {
                Seq::empty()
            },
            ready_requests: Seq::empty(),
            ready_rt_requests: Seq::empty(),
            done_requests: Seq::empty(),
            dead_requests: Seq::empty(),
            in_service: None,
        }
    }

    /// The number of requests that are completed or missed.
    pub open spec fn served(self) -> int {
        (self.done_requests.len() + self.dead_requests.len()) as int
    }

    /// The number of requests that are neither completed nor missed.
    pub open spec fn outstanding(self) -> int {
        let waiting: int = (self.normal_requests.len() + self.rt_requests.len()
            + self.ready_requests.len() + self.ready_rt_requests.len()) as int;
        if self.in_service is Some {
            waiting + 1
        } else {
            waiting
        }
    }

    /// Every request is completed or missed.
    pub open spec fn finished(self) -> bool {
        self.served() == self.request_count
    }

    /// What a finished run of `count` requests leaves: every request is
    /// completed or missed and has the status of its list, none is
    /// outstanding, and the trace has one sample for each head movement, each
    /// on a track of the device.
    pub open spec fn complete(self, count: nat) -> bool {
        &&& self.inv()
        &&& self.done_requests.len() + self.dead_requests.len() == count
        &&& self.outstanding() == 0
        &&& all_marked(self.done_requests, RequestStatus::Done)
        &&& all_marked(self.dead_requests, RequestStatus::Dead)
        &&& self.hdd.trace.len() == self.hdd.seek_count
        &&& forall|i: int|
            0 <= i < self.hdd.trace.len() ==> (#[trigger] self.hdd.trace[i]).1
                < self.hdd.number_of_tracks
    }

    /// The simulation can take a step: requests are outstanding and the clock
    /// has not reached its largest value.
    pub open spec fn running(self) -> bool {
        !self.finished() && self.hdd.time < u32::MAX
    }

    /// What holds of a simulation at every step: the head is on the device,
    /// as is every outstanding request; the trace has one sample for each
    /// head movement, and no head movement went without a time unit; no
    /// request has waited longer than the clock shows; every
    /// request that is ready, completed or missed has the status of its
    /// list; and the requests, outstanding and served, are as many as the
    /// workload.
    pub open spec fn inv(self) -> bool {
        &&& self.hdd.wf()
        &&& self.hdd.trace.len() == self.hdd.seek_count
        &&& self.hdd.seek_count <= self.hdd.time
        &&& bounded(self.normal_requests, self.hdd.number_of_tracks, self.hdd.time)
        &&& bounded(self.rt_requests, self.hdd.number_of_tracks, self.hdd.time)
        &&& bounded(self.ready_requests, self.hdd.number_of_tracks, self.hdd.time)
        &&& bounded(self.ready_rt_requests, self.hdd.number_of_tracks, self.hdd.time)
        &&& self.in_service matches Some(service) ==> service.request.track_number
            < self.hdd.number_of_tracks && (service.real_time ==> self.rt_scheduler is Some)
        &&& all_marked(self.ready_requests, RequestStatus::Ready)
        &&& all_marked(self.ready_rt_requests, RequestStatus::RealTimeReady)
        &&& all_marked(self.done_requests, RequestStatus::Done)
        &&& all_marked(self.dead_requests, RequestStatus::Dead)
        &&& self.outstanding() + self.served() == self.request_count
    }

    /// The simulation after release and expiry at the current time.
    ///
    /// Best-effort requests that have arrived become ready. Real-time
    /// requests whose deadline has come are missed, ready ones first; of
    /// the others, those that have arrived become ready.
    pub open spec fn arrived(self) -> SimulationState {
        let now = self.hdd.time;
        let alive = remaining(self.rt_requests, Filter::DueBy(now));
        SimulationState {
            normal_requests: remaining(self.normal_requests, Filter::ArrivedBy(now)),
            ready_requests: self.ready_requests + marked(
                matching(self.normal_requests, Filter::ArrivedBy(now)),
                RequestStatus::Ready,
            ),
            dead_requests: self.dead_requests + marked(
                matching(self.ready_rt_requests, Filter::DueBy(now)),
                RequestStatus::Dead,
            ) + marked(matching(self.rt_requests, Filter::DueBy(now)), RequestStatus::Dead),
            rt_requests: remaining(alive, Filter::ArrivedBy(now)),
            ready_rt_requests: remaining(self.ready_rt_requests, Filter::DueBy(now)) + marked(
                matching(alive, Filter::ArrivedBy(now)),
                RequestStatus::RealTimeReady,
            ),
            ..self
        }
    }

    /// The position of the ready real-time request that the real-time policy
    /// selects, if there is such a policy and it selects any.
    pub open spec fn rt_choice(self) -> Option<int> {
        match self.rt_scheduler {
            Some(policy) => policy.choice(self.hdd.head(), self.ready_rt_requests),
            None => None,
        }
    }

    /// The position of the ready best-effort request that the policy selects.
    pub open spec fn choice(self) -> Option<int> {
        self.scheduler.choice(self.hdd.head(), self.ready_requests)
    }

    /// With nothing ready, only the clock moves.
    pub open spec fn slept(self) -> SimulationState {
        SimulationState { hdd: self.hdd.ticked(), ..self }
    }

    /// The ready real-time request at position `i` is taken into service.
    pub open spec fn serving_rt(self, i: int) -> SimulationState {
        SimulationState {
            ready_rt_requests: self.ready_rt_requests.remove(i),
            in_service: Some(Service { request: self.ready_rt_requests[i], real_time: true }),
            ..self
        }
    }

    /// The ready best-effort request at position `i` is taken into service.
    pub open spec fn serving(self, i: int) -> SimulationState {
        SimulationState {
            ready_requests: self.ready_requests.remove(i),
            in_service: Some(Service { request: self.ready_requests[i], real_time: false }),
            ..self
        }
    }

    /// Neither tier selects: the ready best-effort requests wait one time
    /// unit, and a sweeping policy still moves the head one step.
    pub open spec fn idled(self) -> SimulationState {
        SimulationState {
            ready_requests: waited(self.ready_requests),
            hdd: if self.scheduler == Schedulers::Scan || self.scheduler == Schedulers::CScan {
                self.hdd.moved(0, self.scheduler)
            } else {
                self.hdd.ticked()
            },
            ..self
        }
    }

    /// A deciding step: after release and expiry, the real-time policy
    /// selects first, then the best-effort policy; if neither selects, the
    /// time unit passes idle.
    pub open spec fn decided(self) -> SimulationState {
        let now = self.arrived();
        if now.ready_requests.len() == 0 && now.ready_rt_requests.len() == 0 {
            now.slept()
        } else {
            match now.rt_choice() {
                Some(i) => now.serving_rt(i),
                None => match now.choice() {
                    Some(i) => now.serving(i),
                    None => now.idled(),
                },
            }
        }
    }

    /// The policy that moves the head for a request in service.
    pub open spec fn policy_for(self, service: Service) -> Schedulers {
        match self.rt_scheduler {
            Some(policy) => if service.real_time {
                policy
            } else {
                self.scheduler
            },
            None => self.scheduler,
        }
    }

    /// Whether the head, on its way to a request in service, completes the
    /// ready best-effort requests of the tracks it passes.
    pub open spec fn sweeps_for(self, service: Service) -> bool {
        service.real_time && self.rt_scheduler == Some(Schedulers::FeasibleDeadlineScan)
    }

    /// The head moves one step toward the request in service, which takes
    /// one time unit. The ready best-effort requests wait that time unit;
    /// where the head sweeps, those on the track it reaches are completed.
    pub open spec fn advanced(self, service: Service) -> SimulationState {
        let hdd = self.hdd.moved(service.request.track_number, self.policy_for(service));
        let ready = waited(self.ready_requests);
        if self.sweeps_for(service) {
            SimulationState {
                hdd,
                ready_requests: remaining(ready, Filter::OnTrack(hdd.current_track)),
                done_requests: self.done_requests + marked(
                    matching(ready, Filter::OnTrack(hdd.current_track)),
                    RequestStatus::Done,
                ),
                ..self
            }
        } else {
            SimulationState { hdd, ready_requests: ready, ..self }
        }
    }

    /// Whether the request in service is missed on arrival: it is real-time
    /// and the clock has passed its deadline.
    pub open spec fn misses(self, service: Service) -> bool {
        service.real_time && service.request.deadline_time < self.hdd.time
    }

    /// The head has arrived: the request in service is completed, or missed
    /// if it is real-time and its deadline has passed.
    pub open spec fn settled(self, service: Service) -> SimulationState {
        if self.misses(service) {
            SimulationState {
                dead_requests: self.dead_requests.push(
                    service.request.with_status(RequestStatus::Dead),
                ),
                in_service: None,
                ..self
            }
        } else {
            SimulationState {
                done_requests: self.done_requests.push(
                    service.request.with_status(RequestStatus::Done),
                ),
                in_service: None,
                ..self
            }
        }
    }

    /// One step of the simulation.
    pub open spec fn next(self) -> SimulationState {
        match self.in_service {
            Some(service) => if self.hdd.current_track == service.request.track_number {
                self.settled(service)
            } else {
                self.advanced(service)
            },
            None => self.decided(),
        }
    }

    /// The simulation after `steps` steps.
    pub open spec fn after(self, steps: nat) -> SimulationState
        decreases steps,
    {
        if steps == 0 {
            self
        } else {
            self.after((steps - 1) as nat).next()
        }
    }

    /// The simulation takes `steps` steps without coming to rest.
    pub open spec fn runs_for(self, steps: nat) -> bool {
        forall|j: nat| j < steps ==> (#[trigger] self.after(j)).running()
    }

    /// The simulation takes `steps` steps and then rests: every request is
    /// served or the clock has reached its largest value.
    pub open spec fn rests_after(self, steps: nat) -> bool {
        self.runs_for(steps) && !self.after(steps).running()
    }

    /// Whether a step has brought the simulation nearer to its end: more
    /// requests are served, or as many and the clock has advanced, or as many
    /// at the same time and a request was taken into service.
    pub open spec fn progressed_to(self, later: SimulationState) -> bool {
        ||| later.served() > self.served()
        ||| later.served() == self.served() && later.hdd.time > self.hdd.time
        ||| later.served() == self.served() && later.hdd.time == self.hdd.time
            && self.in_service is None && later.in_service is Some
    }
}

/// Release and expiry keep what holds of a simulation at every step, move
/// neither the head nor the clock, and serve no request back.
pub proof fn lemma_arrived(state: SimulationState)
    requires
        state.inv(),
        state.in_service is None,
    ensures
        state.arrived().inv(),
        state.arrived().hdd == state.hdd,
        state.arrived().in_service is None,
        state.arrived().served() >= state.served(),
        state.arrived().request_count == state.request_count,
{
    let now = state.hdd.time;
    let n = state.hdd.number_of_tracks;
    let arrived = Filter::ArrivedBy(now);
    let due = Filter::DueBy(now);
    let alive = remaining(state.rt_requests, due);
    lemma_split(state.normal_requests, arrived);
    lemma_split(state.ready_rt_requests, due);
    lemma_split(state.rt_requests, due);
    lemma_split(alive, arrived);
    lemma_split_bounded(state.normal_requests, arrived, n, now);
    lemma_split_bounded(state.ready_rt_requests, due, n, now);
    lemma_split_bounded(state.rt_requests, due, n, now);
    lemma_split_bounded(alive, arrived, n, now);
    lemma_marked_bounded(matching(state.normal_requests, arrived), RequestStatus::Ready, n, now);
    lemma_marked_bounded(matching(state.ready_rt_requests, due), RequestStatus::Dead, n, now);
    lemma_marked_bounded(matching(state.rt_requests, due), RequestStatus::Dead, n, now);
    lemma_marked_bounded(matching(alive, arrived), RequestStatus::RealTimeReady, n, now);
    lemma_concat_bounded(
        state.ready_requests,
        marked(matching(state.normal_requests, arrived), RequestStatus::Ready),
        n,
        now,
    );
    lemma_concat_bounded(
        remaining(state.ready_rt_requests, due),
        marked(matching(alive, arrived), RequestStatus::RealTimeReady),
        n,
        now,
    );
    lemma_split_marked(state.ready_rt_requests, due, RequestStatus::RealTimeReady);
    lemma_concat_marked(
        state.ready_requests,
        marked(matching(state.normal_requests, arrived), RequestStatus::Ready),
        RequestStatus::Ready,
    );
    lemma_concat_marked(
        remaining(state.ready_rt_requests, due),
        marked(matching(alive, arrived), RequestStatus::RealTimeReady),
        RequestStatus::RealTimeReady,
    );
    lemma_concat_marked(
        state.dead_requests,
        marked(matching(state.ready_rt_requests, due), RequestStatus::Dead),
        RequestStatus::Dead,
    );
    lemma_concat_marked(
        state.dead_requests + marked(matching(state.ready_rt_requests, due), RequestStatus::Dead),
        marked(matching(state.rt_requests, due), RequestStatus::Dead),
        RequestStatus::Dead,
    );
}

/// A step keeps what holds of a simulation at every step, and brings the
/// simulation nearer to its end.
pub proof fn lemma_next(state: SimulationState)
    requires
        state.inv(),
        state.running(),
    ensures
        state.next().inv(),
        state.progressed_to(state.next()),
        state.next().request_count == state.request_count,
        state.next().hdd.number_of_tracks == state.hdd.number_of_tracks,
        state.next().hdd.time >= state.hdd.time,
        state.next().served() >= state.served(),
{
    let n = state.hdd.number_of_tracks;
    match state.in_service {
        Some(service) => {
            if state.hdd.current_track != service.request.track_number {
                let now = state.hdd.time;
                let ready = waited(state.ready_requests);
                let later = (now + 1) as u32;
                let hdd = state.hdd.moved(service.request.track_number, state.policy_for(service));
                lemma_moved(state.hdd, service.request.track_number, state.policy_for(service));
                lemma_waited_bounded(state.ready_requests, n, now);
                let on_track = Filter::OnTrack(hdd.current_track);
                lemma_split(ready, on_track);
                lemma_split_bounded(ready, on_track, n, later);
                lemma_marked_bounded(matching(ready, on_track), RequestStatus::Done, n, later);
                lemma_waited_marked(state.ready_requests, RequestStatus::Ready);
                lemma_split_marked(ready, on_track, RequestStatus::Ready);
                lemma_concat_marked(
                    state.done_requests,
                    marked(matching(ready, on_track), RequestStatus::Done),
                    RequestStatus::Done,
                );
            } else {
                lemma_concat_marked(
                    state.done_requests,
                    seq![service.request.with_status(RequestStatus::Done)],
                    RequestStatus::Done,
                );
                lemma_concat_marked(
                    state.dead_requests,
                    seq![service.request.with_status(RequestStatus::Dead)],
                    RequestStatus::Dead,
                );
                assert(state.done_requests.push(service.request.with_status(RequestStatus::Done))
                    =~= state.done_requests + seq![
                    service.request.with_status(RequestStatus::Done),
                ]);
                assert(state.dead_requests.push(service.request.with_status(RequestStatus::Dead))
                    =~= state.dead_requests + seq![
                    service.request.with_status(RequestStatus::Dead),
                ]);
            }
        },
        None => {
            lemma_arrived(state);
            let now = state.arrived();
            let time = now.hdd.time;
            if now.ready_requests.len() == 0 && now.ready_rt_requests.len() == 0 {
            } else {
                match now.rt_choice() {
                    Some(i) => {
                        crate::schedulers::choice_is_selection(
                            now.rt_scheduler->0,
                            now.hdd.head(),
                            now.ready_rt_requests,
                        );
                        lemma_remove_bounded(now.ready_rt_requests, i, n, time);
                        lemma_remove_marked(now.ready_rt_requests, i, RequestStatus::RealTimeReady);
                    },
                    None => match now.choice() {
                        Some(i) => {
                            crate::schedulers::choice_is_selection(
                                now.scheduler,
                                now.hdd.head(),
                                now.ready_requests,
                            );
                            lemma_remove_bounded(now.ready_requests, i, n, time);
                            lemma_remove_marked(now.ready_requests, i, RequestStatus::Ready);
                        },
                        None => {
                            lemma_waited_bounded(now.ready_requests, n, time);
                            lemma_waited_marked(now.ready_requests, RequestStatus::Ready);
                            lemma_moved(now.hdd, 0, now.scheduler);
                        },
                    },
                }
            }
        },
    }
}

/// Moves the head one step toward the request, or along the sweep of a
/// sweeping policy, which takes one time unit.
pub fn step_to_request(scheduler: Schedulers, hdd: &mut HardDriveDisk, request: &Request)
    requires
        old(hdd)@.wf(),
        request.track_number < old(hdd).number_of_tracks,
        old(hdd).seek_count < u32::MAX,
        old(hdd).time < u32::MAX,
    ensures
        final(hdd)@ == old(hdd)@.moved(request.track_number, scheduler),
        final(hdd)@.wf(),
{
    hdd.move_head(request.track_number, scheduler);
}

/// Whether every request of the workload is fresh and on the device.
fn is_valid_workload(requests: &Vec<Request>, number_of_tracks: u32) -> (valid: bool)
    ensures
        valid == valid_workload(requests@, number_of_tracks),
{
    let mut i: usize = 0;
    while i < requests.len()
        invariant
            i <= requests@.len(),
            forall|j: int|
                0 <= j < i ==> (#[trigger] requests@[j]).fresh() && requests@[j].track_number
                    < number_of_tracks,
        decreases requests@.len() - i,
    {
        let request = &requests[i];
        let unreleased = match request.status {
            RequestStatus::Normal => true,
            RequestStatus::RealTime => true,
            _ => false,
        };
        if !unreleased || request.waiting_time != 0 || request.track_number >= number_of_tracks {
            assert(!(requests@[i as int].fresh() && requests@[i as int].track_number
                < number_of_tracks));
            return false;
        }
        i = i + 1;
    }
    true
}

impl Simulation {
    /// A simulation of the workload before its first step.
    ///
    /// A device with fewer than two tracks and an empty workload are refused
    /// as degenerate; a workload with a request that is not fresh or lies
    /// outside the device is refused as invalid.
    pub fn new(
        scheduler: Schedulers,
        rt_scheduler: Option<Schedulers>,
        number_of_tracks: u32,
        requests: Vec<Request>,
    ) -> (result: Result<Simulation, SimulationError>)
        ensures
            (number_of_tracks <= 1 || requests@.len() == 0) <==> (result matches Err(e) && e
                == SimulationError::DegenerateConfiguration),
            (number_of_tracks >= 2 && requests@.len() > 0 && !valid_workload(
                requests@,
                number_of_tracks,
            )) <==> (result matches Err(e) && e == SimulationError::InvalidRequest),
            result matches Err(e) ==> e == SimulationError::DegenerateConfiguration || e
                == SimulationError::InvalidRequest,
            result matches Ok(simulation) ==> simulation@ == SimulationState::initial(
                scheduler,
                rt_scheduler,
                number_of_tracks,
                requests@,
            ) && simulation@.inv(),
    {
        if requests.len() == 0 {
            return Err(SimulationError::DegenerateConfiguration);
        }
        let hdd = match HardDriveDisk::new(number_of_tracks) {
            Ok(hdd) => hdd,
            Err(e) => {
                return Err(e);
            },
        };
        if !is_valid_workload(&requests, number_of_tracks) {
            return Err(SimulationError::InvalidRequest);
        }
        let request_count = requests.len();
        let ghost all = requests@;
        let (rt_requests, normal_requests) = match rt_scheduler {
            Some(_) => split(&requests, Filter::RealTime, RequestStatus::RealTime),
            None => (Vec::new(), requests),
        };
        proof {
            lemma_split(all, Filter::RealTime);
            lemma_marked_same(matching(all, Filter::RealTime), RequestStatus::RealTime);
            lemma_initial(scheduler, rt_scheduler, number_of_tracks, all, 0);
        }
        Ok(
            Simulation {
                scheduler,
                rt_scheduler,
                hdd,
                request_count,
                normal_requests,
                rt_requests,
                ready_requests: Vec::new(),
                ready_rt_requests: Vec::new(),
                done_requests: Vec::new(),
                dead_requests: Vec::new(),
                in_service: None,
            },
        )
    }

    /// Whether every request is completed or missed.
    pub fn is_finished(&self) -> (finished: bool)
        ensures
            finished == self@.finished(),
    {
        let done = self.done_requests.len();
        done <= self.request_count && self.dead_requests.len() == self.request_count - done
    }

    /// Whether the simulation can take a step.
    pub fn is_running(&self) -> (running: bool)
        ensures
            running == self@.running(),
    {
        !self.is_finished() && self.hdd.time < u32::MAX
    }

    /// Releases the requests that have arrived and gives up the real-time
    /// requests whose deadline has come.
    fn arrive(&mut self)
        requires
            old(self)@.inv(),
            old(self)@.in_service is None,
        ensures
            final(self)@ == old(self)@.arrived(),
    {
        let now = self.hdd.time;
        let (mut arrived, waiting) = split(
            &self.normal_requests,
            Filter::ArrivedBy(now),
            RequestStatus::Ready,
        );
        self.ready_requests.append(&mut arrived);
        self.normal_requests = waiting;
        let (mut late_ready, alive_ready) = split(
            &self.ready_rt_requests,
            Filter::DueBy(now),
            RequestStatus::Dead,
        );
        let (mut late, alive) = split(&self.rt_requests, Filter::DueBy(now), RequestStatus::Dead);
        self.dead_requests.append(&mut late_ready);
        self.dead_requests.append(&mut late);
        let (mut arrived_rt, waiting_rt) = split(
            &alive,
            Filter::ArrivedBy(now),
            RequestStatus::RealTimeReady,
        );
        self.ready_rt_requests = alive_ready;
        self.ready_rt_requests.append(&mut arrived_rt);
        self.rt_requests = waiting_rt;
    }

    /// Takes a deciding step.
    fn decide(&mut self)
        requires
            old(self)@.inv(),
            old(self)@.running(),
            old(self)@.in_service is None,
        ensures
            final(self)@ == old(self)@.decided(),
    {
        self.arrive();
        proof {
            lemma_arrived(old(self)@);
        }
        if self.ready_requests.is_empty() && self.ready_rt_requests.is_empty() {
            self.hdd.time += 1;
            return ;
        }
        match self.rt_scheduler {
            Some(policy) => {
                match next_request_index(policy, self.ready_rt_requests.as_slice(), &self.hdd) {
                    Some(i) => {
                        let request = self.ready_rt_requests.remove(i);
                        self.in_service = Some(Service { request, real_time: true });
                        return ;
                    },
                    None => {},
                }
            },
            None => {},
        }
        match next_request_index(self.scheduler, self.ready_requests.as_slice(), &self.hdd) {
            Some(i) => {
                let request = self.ready_requests.remove(i);
                self.in_service = Some(Service { request, real_time: false });
            },
            None => {
                self.ready_requests = accrue(&self.ready_requests);
                match self.scheduler {
                    Schedulers::Scan => {
                        self.hdd.move_head(0, self.scheduler);
                    },
                    Schedulers::CScan => {
                        self.hdd.move_head(0, self.scheduler);
                    },
                    _ => {
                        self.hdd.time += 1;
                    },
                }
            },
        }
    }

    /// Moves the head one step toward the request in service.
    fn advance(&mut self, service: Service)
        requires
            old(self)@.inv(),
            old(self)@.running(),
            old(self)@.in_service == Some(service),
        ensures
            final(self)@ == old(self)@.advanced(service),
    {
        self.ready_requests = accrue(&self.ready_requests);
        let policy = match self.rt_scheduler {
            Some(policy) => if service.real_time {
                policy
            } else {
                self.scheduler
            },
            None => self.scheduler,
        };
        step_to_request(policy, &mut self.hdd, &service.request);
        let sweeps = service.real_time && match self.rt_scheduler {
            Some(Schedulers::FeasibleDeadlineScan) => true,
            _ => false,
        };
        if sweeps {
            let (mut passed, left) = split(
                &self.ready_requests,
                Filter::OnTrack(self.hdd.current_track),
                RequestStatus::Done,
            );
            self.done_requests.append(&mut passed);
            self.ready_requests = left;
        }
    }

    /// Completes the request in service, on whose track the head stands.
    fn settle(&mut self, service: Service)
        requires
            old(self)@.in_service == Some(service),
        ensures
            final(self)@ == old(self)@.settled(service),
    {
        let mut request = service.request;
        if service.real_time && request.deadline_time < self.hdd.time {
            request.set_status(RequestStatus::Dead);
            self.dead_requests.push(request);
        } else {
            request.set_status(RequestStatus::Done);
            self.done_requests.push(request);
        }
        self.in_service = None;
    }

    /// Takes one step: decides, moves the head toward the request in
    /// service, or completes that request on arrival.
    pub fn step(&mut self)
        requires
            old(self)@.inv(),
            old(self)@.running(),
        ensures
            final(self)@ == old(self)@.next(),
            final(self)@.inv(),
            old(self)@.progressed_to(final(self)@),
    {
        proof {
            lemma_next(self@);
        }
        match self.in_service {
            Some(service) => {
                if self.hdd.current_track == service.request.track_number {
                    self.settle(service);
                } else {
                    self.advance(service);
                }
            },
            None => {
                self.decide();
            },
        }
    }

    /// Runs the simulation until every request is completed or missed, or
    /// until the clock has reached its largest value, which is an error.
    pub fn run(&mut self) -> (result: Result<(), SimulationError>)
        requires
            old(self)@.inv(),
        ensures
            exists|steps: nat| old(self)@.rests_after(steps) && final(self)@ == old(self)@.after(steps),
            final(self)@.inv(),
            result is Ok <==> final(self)@.finished(),
            result matches Err(e) ==> e == SimulationError::ClockOverflow,
    {
        let ghost start = self@;
        let ghost mut steps: nat = 0;
        while self.is_running()
            invariant
                self@.inv(),
                start.runs_for(steps),
                self@ == start.after(steps),
            decreases
                    self@.request_count - self@.served(),
                    u32::MAX - self@.hdd.time,
                    (if self@.in_service is None { 1int } else { 0int }),
        {
            self.step();
            proof {
                steps = steps + 1;
            }
        }
        if self.is_finished() {
            Ok(())
        } else {
            Err(SimulationError::ClockOverflow)
        }
    }
}

/// The sum of the waiting times of the requests.
pub open spec fn total_waiting(requests: Seq<Request>) -> int
    decreases requests.len(),
{
    if requests.len() == 0 {
        0
    } else {
        total_waiting(requests.drop_last()) + requests.last().waiting_time
    }
}

/// The sum of the waiting times of the requests.
pub fn total_waiting_time(requests: &Vec<Request>) -> (total: u128)
    ensures
        total == total_waiting(requests@),
        total <= requests@.len() * 0xFFFF_FFFF,
{
    let mut total: u128 = 0;
    let mut i: usize = 0;
    while i < requests.len()
        invariant
            i <= requests@.len(),
            total == total_waiting(requests@.take(i as int)),
            total <= i * 0xFFFF_FFFF,
        decreases requests@.len() - i,
    {
        assert(requests@.take(i + 1).drop_last() =~= requests@.take(i as int));
        total = total + requests[i].waiting_time as u128;
        i = i + 1;
    }
    proof {
        assert(requests@.take(i as int) =~= requests@);
    }
    total
}

/// The average waiting time of the requests, rounded down to a whole number
/// of time units. An empty list has no average.
pub fn average_waiting_time(done_requests: &Vec<Request>) -> (average: Option<u32>)
    ensures
        average is None <==> done_requests@.len() == 0,
        average matches Some(a) ==> a == total_waiting(done_requests@) / (
        done_requests@.len() as int),
{
    let count = done_requests.len();
    if count == 0 {
        return None;
    }
    let total = total_waiting_time(done_requests);
    let average = total / (count as u128);
    assert(average <= 0xFFFF_FFFF) by (nonlinear_arith)
        requires
            average == total / (count as u128),
            count > 0,
            total <= count * 0xFFFF_FFFF,
    ;
    Some(average as u32)
}

/// What a finished simulation reports.
#[derive(Clone, Copy, Debug, PartialEq, Eq, Structural)]
pub struct Summary {
    /// Head movements made.
    pub seek_count: u32,
    /// The clock at the end.
    pub time: u32,
    /// Requests completed.
    pub completed: usize,
    /// Requests that missed their deadline.
    pub missed: usize,
    /// The sum of the waiting times of the completed requests.
    pub total_waiting_time: u128,
    /// Their average waiting time in whole time units, if any was completed.
    pub average_waiting_time: Option<u32>,
}

impl Simulation {
    /// The figures of the simulation as it stands.
    pub fn summary(&self) -> (summary: Summary)
        ensures
            summary.seek_count == self.hdd.seek_count,
            summary.time == self.hdd.time,
            summary.completed == self.done_requests@.len(),
            summary.missed == self.dead_requests@.len(),
            summary.total_waiting_time == total_waiting(self.done_requests@),
            summary.average_waiting_time is None <==> self.done_requests@.len() == 0,
            summary.average_waiting_time matches Some(a) ==> a == total_waiting(
                self.done_requests@,
            ) / (self.done_requests@.len() as int),
    {
        Summary {
            seek_count: self.hdd.seek_count,
            time: self.hdd.time,
            completed: self.done_requests.len(),
            missed: self.dead_requests.len(),
            total_waiting_time: total_waiting_time(&self.done_requests),
            average_waiting_time: average_waiting_time(&self.done_requests),
        }
    }
}

/// What a run of the workload comes to: the state in which the simulation
/// rests, and whether every request is served there.
pub open spec fn outcome_of(
    start: SimulationState,
    result: Result<Simulation, SimulationError>,
) -> bool {
    exists|steps: nat| #[trigger]
        start.rests_after(steps) && match result {
            Ok(simulation) => simulation@ == start.after(steps) && simulation@.finished(),
            Err(e) => e == SimulationError::ClockOverflow && !start.after(steps).finished(),
        }
}

/// Runs the workload with or without a real-time tier.
fn run_workload(
    scheduler: Schedulers,
    rt_scheduler: Option<Schedulers>,
    number_of_tracks: u32,
    requests: Vec<Request>,
) -> (result: Result<Simulation, SimulationError>)
    ensures
        (number_of_tracks <= 1 || requests@.len() == 0) <==> result matches Err(
            SimulationError::DegenerateConfiguration,
        ),
        (number_of_tracks >= 2 && requests@.len() > 0 && !valid_workload(
            requests@,
            number_of_tracks,
        )) <==> result matches Err(SimulationError::InvalidRequest),
        accepted(number_of_tracks, requests@) ==> outcome_of(
            SimulationState::initial(scheduler, rt_scheduler, number_of_tracks, requests@),
            result,
        ),
        accepted(number_of_tracks, requests@) && scheduler != Schedulers::FeasibleDeadlineScan
            && time_bound(number_of_tracks, requests@) < u32::MAX ==> result is Ok,
        result matches Ok(simulation) ==> simulation@.complete(requests@.len())
            && simulation.hdd.number_of_tracks == number_of_tracks,
{
    let ghost all = requests@;
    let ghost start = SimulationState::initial(scheduler, rt_scheduler, number_of_tracks, all);
    let count = requests.len();
    let mut simulation = match Simulation::new(scheduler, rt_scheduler, number_of_tracks, requests) {
        Ok(simulation) => simulation,
        Err(e) => {
            return Err(e);
        },
    };
    match simulation.run() {
        Ok(()) => {
            proof {
                let steps = choose|steps: nat|
                    start.rests_after(steps) && simulation@ == start.after(steps);
                assert(start.rests_after(steps));
                lemma_run(start, steps);
                assert(start.request_count == count);
            }
            Ok(simulation)
        },
        Err(e) => {
            proof {
                let steps = choose|steps: nat|
                    start.rests_after(steps) && simulation@ == start.after(steps);
                assert(start.rests_after(steps));
                if scheduler != Schedulers::FeasibleDeadlineScan {
                    run_ends_in_time(scheduler, rt_scheduler, number_of_tracks, all, steps);
                }
            }
            Err(e)
        },
    }
}

/// Runs the workload through a device of `number_of_tracks` tracks under one
/// policy, every request being best-effort, and returns the finished
/// simulation.
///
/// The result is `Err(DegenerateConfiguration)` for fewer than two tracks or
/// an empty workload, `Err(InvalidRequest)` for a workload with a request
/// that is not fresh or lies outside the device, and `Err(ClockOverflow)`
/// where the clock reaches its largest value with requests outstanding.
/// That does not happen where the best-effort policy is not
/// `FeasibleDeadlineScan` and the time bound of the workload fits the clock.
pub fn simulate(scheduler: Schedulers, number_of_tracks: u32, requests: Vec<Request>) -> (result:
    Result<Simulation, SimulationError>)
    ensures
        (number_of_tracks <= 1 || requests@.len() == 0) <==> result matches Err(
            SimulationError::DegenerateConfiguration,
        ),
        (number_of_tracks >= 2 && requests@.len() > 0 && !valid_workload(
            requests@,
            number_of_tracks,
        )) <==> result matches Err(SimulationError::InvalidRequest),
        accepted(number_of_tracks, requests@) ==> outcome_of(
            SimulationState::initial(scheduler, None, number_of_tracks, requests@),
            result,
        ),
        accepted(number_of_tracks, requests@) && scheduler != Schedulers::FeasibleDeadlineScan
            && time_bound(number_of_tracks, requests@) < u32::MAX ==> result is Ok,
        result matches Ok(simulation) ==> simulation@.complete(requests@.len())
            && simulation.hdd.number_of_tracks == number_of_tracks && simulation.dead_requests@.len() == 0,
{
    let result = run_workload(scheduler, None, number_of_tracks, requests);
    proof {
        if result is Ok {
            let start = SimulationState::initial(scheduler, None, number_of_tracks, requests@);
            let steps = choose|steps: nat| #[trigger]
                start.rests_after(steps) && result->Ok_0@ == start.after(steps);
            lemma_single_tier_misses_nothing(start, steps);
        }
    }
    result
}

/// Runs the workload through a device of `number_of_tracks` tracks with two
/// tiers: real-time requests under `rt_scheduler`, which is served first,
/// and best-effort requests under `scheduler`. Returns the finished
/// simulation.
///
/// The result is `Err(DegenerateConfiguration)` for fewer than two tracks or
/// an empty workload, `Err(InvalidRequest)` for a workload with a request
/// that is not fresh or lies outside the device, and `Err(ClockOverflow)`
/// where the clock reaches its largest value with requests outstanding.
/// That does not happen where the best-effort policy is not
/// `FeasibleDeadlineScan` and the time bound of the workload fits the clock.
pub fn simulate_with_rt(
    scheduler: Schedulers,
    rt_scheduler: Schedulers,
    number_of_tracks: u32,
    requests: Vec<Request>,
) -> (result: Result<Simulation, SimulationError>)
    ensures
        (number_of_tracks <= 1 || requests@.len() == 0) <==> result matches Err(
            SimulationError::DegenerateConfiguration,
        ),
        (number_of_tracks >= 2 && requests@.len() > 0 && !valid_workload(
            requests@,
            number_of_tracks,
        )) <==> result matches Err(SimulationError::InvalidRequest),
        accepted(number_of_tracks, requests@) ==> outcome_of(
            SimulationState::initial(scheduler, Some(rt_scheduler), number_of_tracks, requests@),
            result,
        ),
        accepted(number_of_tracks, requests@) && scheduler != Schedulers::FeasibleDeadlineScan
            && time_bound(number_of_tracks, requests@) < u32::MAX ==> result is Ok,
        result matches Ok(simulation) ==> simulation@.complete(requests@.len())
            && simulation.hdd.number_of_tracks == number_of_tracks,
{
    run_workload(scheduler, Some(rt_scheduler), number_of_tracks, requests)
}

impl SimulationState {
    /// The simulation holds no real-time request: none waits to be released,
    /// none is ready, none is in service for the real-time tier, and none
    /// was missed.
    pub open spec fn single_tier(self) -> bool {
        &&& self.rt_requests.len() == 0
        &&& self.ready_rt_requests.len() == 0
        &&& self.dead_requests.len() == 0
        &&& self.in_service matches Some(service) ==> !service.real_time
    }
}

/// Release and expiry bring no real-time request into a simulation that
/// holds none.
proof fn lemma_arrived_single_tier(state: SimulationState)
    requires
        state.single_tier(),
    ensures
        state.arrived().single_tier(),
{
    let now = state.hdd.time;
    lemma_split_empty(Filter::DueBy(now));
    lemma_split_empty(Filter::ArrivedBy(now));
    assert(state.rt_requests =~= Seq::<Request>::empty());
    assert(state.ready_rt_requests =~= Seq::<Request>::empty());
    assert(marked(Seq::<Request>::empty(), RequestStatus::Dead) =~= Seq::<Request>::empty());
    assert(marked(Seq::<Request>::empty(), RequestStatus::RealTimeReady) =~= Seq::<
        Request,
    >::empty());
}

/// A step brings no real-time request into a simulation that holds none.
proof fn lemma_next_single_tier(state: SimulationState)
    requires
        state.single_tier(),
    ensures
        state.next().single_tier(),
{
    if state.in_service is None {
        lemma_arrived_single_tier(state);
        let now = state.arrived();
        if now.rt_scheduler is Some {
            crate::schedulers::choice_is_selection(
                now.rt_scheduler->0,
                now.hdd.head(),
                now.ready_rt_requests,
            );
        }
    }
}

/// A simulation that holds no real-time request never misses a request.
pub proof fn lemma_single_tier_misses_nothing(start: SimulationState, steps: nat)
    requires
        start.single_tier(),
    ensures
        start.after(steps).single_tier(),
    decreases steps,
{
    if steps > 0 {
        lemma_single_tier_misses_nothing(start, (steps - 1) as nat);
        lemma_next_single_tier(start.after((steps - 1) as nat));
    }
}

/// A run keeps what holds of a simulation at every step.
pub proof fn lemma_run(start: SimulationState, steps: nat)
    requires
        start.inv(),
        start.runs_for(steps),
    ensures
        start.after(steps).inv(),
        start.after(steps).request_count == start.request_count,
        start.after(steps).hdd.number_of_tracks == start.hdd.number_of_tracks,
        start.after(steps).hdd.time >= start.hdd.time,
        start.after(steps).served() >= start.served(),
    decreases steps,
{
    if steps > 0 {
        let before = (steps - 1) as nat;
        assert(start.runs_for(before)) by {
            assert forall|j: nat| j < before implies (#[trigger] start.after(j)).running() by {
                assert(j < steps);
            }
        }
        lemma_run(start, before);
        assert(start.after(before).running());
        lemma_next(start.after(before));
    }
}

/// A run comes to rest at most once: the number of steps after which a
/// simulation rests is determined by its start.
pub proof fn rest_is_unique(start: SimulationState, first: nat, second: nat)
    requires
        start.rests_after(first),
        start.rests_after(second),
    ensures
        first == second,
{
    if first < second {
        assert(start.after(first).running());
    } else if second < first {
        assert(start.after(second).running());
    }
}

} // verus!
