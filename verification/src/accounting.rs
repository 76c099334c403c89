//! What a run conserves: the requests themselves, and the time that each of
//! them has waited.

use crate::queues::bounded;
use crate::queues::count_of;
use crate::queues::lemma_split;
use crate::queues::lemma_split_bounded;
use crate::queues::lemma_tally_concat;
use crate::queues::lemma_tally_marked;
use crate::queues::lemma_tally_of_member;
use crate::queues::lemma_tally_of_none;
use crate::queues::lemma_tally_push;
use crate::queues::lemma_tally_remove;
use crate::queues::lemma_tally_split;
use crate::queues::lemma_tally_waited;
use crate::queues::marked;
use crate::queues::matching;
use crate::queues::remaining;
use crate::queues::waited;
use crate::queues::waiting_of;
use crate::queues::Filter;
use crate::request::Request;
use crate::request::RequestGenerator;
use crate::request::RequestStatus;
use crate::schedulers::choice_is_selection;
use crate::schedulers::Schedulers;
use crate::simulation::lemma_arrived;
use crate::simulation::lemma_next;
use crate::simulation::lemma_run;
use crate::simulation::valid_workload;
use crate::simulation::SimulationState;
use vstd::prelude::*;

verus! {

impl SimulationState {
    /// How many requests with the identifier the simulation holds, in its
    /// lists and in service.
    pub open spec fn census(self, id: u32) -> nat {
        count_of(self.normal_requests, id) + count_of(self.rt_requests, id) + count_of(
            self.ready_requests,
            id,
        ) + count_of(self.ready_rt_requests, id) + count_of(self.done_requests, id) + count_of(
            self.dead_requests,
            id,
        ) + match self.in_service {
            Some(service) => if service.request.id == id {
                1nat
            } else {
                0nat
            },
            None => 0nat,
        }
    }

    /// The waiting time that the requests with the identifier have accrued.
    pub open spec fn waited_by(self, id: u32) -> nat {
        waiting_of(self.normal_requests, id) + waiting_of(self.rt_requests, id) + waiting_of(
            self.ready_requests,
            id,
        ) + waiting_of(self.ready_rt_requests, id) + waiting_of(self.done_requests, id)
            + waiting_of(self.dead_requests, id) + match self.in_service {
            Some(service) => if service.request.id == id {
                service.request.waiting_time as nat
            } else {
                0nat
            },
            None => 0nat,
        }
    }

    /// The simulation holds the request, in one of its lists or in service.
    pub open spec fn holds(self, request: Request) -> bool {
        ||| self.normal_requests.contains(request)
        ||| self.rt_requests.contains(request)
        ||| self.ready_requests.contains(request)
        ||| self.ready_rt_requests.contains(request)
        ||| self.done_requests.contains(request)
        ||| self.dead_requests.contains(request)
        ||| self.in_service matches Some(service) && service.request == request
    }

    /// The best-effort requests that spend the next step ready and waiting:
    /// the ready list while the head moves toward a request in service, and
    /// the ready list after release while a time unit passes idle. A step
    /// that takes no time lets no request wait.
    pub open spec fn waiting(self) -> Seq<Request> {
        match self.in_service {
            Some(service) => if self.hdd.current_track == service.request.track_number {
                Seq::empty()
            } else {
                self.ready_requests
            },
            None => {
                let now = self.arrived();
                if now.rt_choice() is Some || now.choice() is Some {
                    Seq::empty()
                } else {
                    now.ready_requests
                }
            },
        }
    }

    /// The number of time units that the request with the identifier spends
    /// ready and waiting during the first `steps` steps.
    pub open spec fn ready_ticks(self, id: u32, steps: nat) -> nat
        decreases steps,
    {
        if steps == 0 {
            0
        } else {
            self.ready_ticks(id, (steps - 1) as nat) + count_of(
                self.after((steps - 1) as nat).waiting(),
                id,
            )
        }
    }
}

/// Release and expiry neither lose nor make a request, and change no
/// waiting time.
proof fn lemma_arrived_tally(state: SimulationState, id: u32)
    ensures
        state.arrived().census(id) == state.census(id),
        state.arrived().waited_by(id) == state.waited_by(id),
{
    let now = state.hdd.time;
    let arrived = Filter::ArrivedBy(now);
    let due = Filter::DueBy(now);
    let alive = remaining(state.rt_requests, due);
    lemma_tally_split(state.normal_requests, arrived, id);
    lemma_tally_split(state.ready_rt_requests, due, id);
    lemma_tally_split(state.rt_requests, due, id);
    lemma_tally_split(alive, arrived, id);
    lemma_tally_marked(matching(state.normal_requests, arrived), RequestStatus::Ready, id);
    lemma_tally_marked(matching(state.ready_rt_requests, due), RequestStatus::Dead, id);
    lemma_tally_marked(matching(state.rt_requests, due), RequestStatus::Dead, id);
    lemma_tally_marked(matching(alive, arrived), RequestStatus::RealTimeReady, id);
    lemma_tally_concat(
        state.ready_requests,
        marked(matching(state.normal_requests, arrived), RequestStatus::Ready),
        id,
    );
    lemma_tally_concat(
        state.dead_requests,
        marked(matching(state.ready_rt_requests, due), RequestStatus::Dead),
        id,
    );
    lemma_tally_concat(
        state.dead_requests + marked(matching(state.ready_rt_requests, due), RequestStatus::Dead),
        marked(matching(state.rt_requests, due), RequestStatus::Dead),
        id,
    );
    lemma_tally_concat(
        remaining(state.ready_rt_requests, due),
        marked(matching(alive, arrived), RequestStatus::RealTimeReady),
        id,
    );
}

/// A bounded list can wait one more time unit before the clock's last value.
proof fn lemma_can_wait(requests: Seq<Request>, number_of_tracks: u32, time: u32)
    requires
        bounded(requests, number_of_tracks, time),
        time < u32::MAX,
    ensures
        forall|i: int| 0 <= i < requests.len() ==> (#[trigger] requests[i]).waiting_time < u32::MAX,
{
}

/// A step neither loses nor makes a request. It adds one time unit to the
/// waiting time of each request that spends the step ready and waiting, and
/// changes no other waiting time; and a step through which a request waits
/// takes one time unit.
pub proof fn step_accrues_waiting_time(state: SimulationState, id: u32)
    requires
        state.inv(),
        state.running(),
    ensures
        state.next().census(id) == state.census(id),
        state.next().waited_by(id) == state.waited_by(id) + count_of(state.waiting(), id),
        count_of(state.waiting(), id) <= state.census(id),
        state.waiting().len() > 0 ==> state.next().hdd.time == state.hdd.time + 1,
{
    let n = state.hdd.number_of_tracks;
    match state.in_service {
        Some(service) => {
            if state.hdd.current_track == service.request.track_number {
                lemma_tally_push(
                    state.dead_requests,
                    service.request.with_status(RequestStatus::Dead),
                    id,
                );
                lemma_tally_push(
                    state.done_requests,
                    service.request.with_status(RequestStatus::Done),
                    id,
                );
            } else {
                let ready = waited(state.ready_requests);
                let hdd = state.hdd.moved(service.request.track_number, state.policy_for(service));
                let on_track = Filter::OnTrack(hdd.current_track);
                lemma_can_wait(state.ready_requests, n, state.hdd.time);
                lemma_tally_waited(state.ready_requests, id);
                lemma_tally_split(ready, on_track, id);
                lemma_tally_marked(matching(ready, on_track), RequestStatus::Done, id);
                lemma_tally_concat(
                    state.done_requests,
                    marked(matching(ready, on_track), RequestStatus::Done),
                    id,
                );
            }
        },
        None => {
            lemma_arrived(state);
            lemma_arrived_tally(state, id);
            let now = state.arrived();
            match now.rt_choice() {
                Some(i) => {
                    choice_is_selection(now.rt_scheduler->0, now.hdd.head(), now.ready_rt_requests);
                    lemma_tally_remove(now.ready_rt_requests, i, id);
                },
                None => match now.choice() {
                    Some(i) => {
                        choice_is_selection(now.scheduler, now.hdd.head(), now.ready_requests);
                        lemma_tally_remove(now.ready_requests, i, id);
                    },
                    None => {
                        lemma_can_wait(now.ready_requests, n, now.hdd.time);
                        lemma_tally_waited(now.ready_requests, id);
                        if now.ready_requests.len() == 0 {
                            assert(waited(now.ready_requests) =~= now.ready_requests);
                        }
                    },
                },
            }
        },
    }
}

/// Conservation: a run neither loses nor makes a request. Whatever the
/// policies, after any number of steps the simulation holds each identifier
/// as often as at the start, and its requests, outstanding and served, are
/// as many as the workload; once it is finished, the completed and the
/// missed requests are the whole workload.
pub proof fn run_conserves_requests(start: SimulationState, steps: nat, id: u32)
    requires
        start.inv(),
        start.runs_for(steps),
    ensures
        start.after(steps).census(id) == start.census(id),
        start.after(steps).outstanding() + start.after(steps).served() == start.request_count,
        start.after(steps).finished() ==> start.after(steps).done_requests.len() + start.after(
            steps,
        ).dead_requests.len() == start.request_count && start.after(steps).outstanding() == 0,
    decreases steps,
{
    lemma_run(start, steps);
    if steps > 0 {
        let before = (steps - 1) as nat;
        assert(start.runs_for(before)) by {
            assert forall|j: nat| j < before implies (#[trigger] start.after(j)).running() by {
                assert(j < steps);
            }
        }
        run_conserves_requests(start, before, id);
        lemma_run(start, before);
        assert(start.after(before).running());
        step_accrues_waiting_time(start.after(before), id);
    }
}

/// Device bound: after any number of steps the head is on the device, and
/// so is the track of every sample of the trace.
pub proof fn run_keeps_head_on_device(start: SimulationState, steps: nat)
    requires
        start.inv(),
        start.runs_for(steps),
    ensures
        start.after(steps).hdd.number_of_tracks == start.hdd.number_of_tracks,
        start.after(steps).hdd.current_track < start.hdd.number_of_tracks,
        forall|i: int|
            0 <= i < start.after(steps).hdd.trace.len() ==> (#[trigger] start.after(
                steps,
            ).hdd.trace[i]).1 < start.hdd.number_of_tracks,
{
    lemma_run(start, steps);
}

/// The waiting time accrued under an identifier grows, step by step, by the
/// time that its requests spend ready and waiting.
proof fn lemma_run_accrues(start: SimulationState, steps: nat, id: u32)
    requires
        start.inv(),
        start.runs_for(steps),
    ensures
        start.after(steps).census(id) == start.census(id),
        start.after(steps).waited_by(id) == start.waited_by(id) + start.ready_ticks(id, steps),
    decreases steps,
{
    if steps > 0 {
        let before = (steps - 1) as nat;
        assert(start.runs_for(before)) by {
            assert forall|j: nat| j < before implies (#[trigger] start.after(j)).running() by {
                assert(j < steps);
            }
        }
        lemma_run_accrues(start, before, id);
        lemma_run(start, before);
        assert(start.after(before).running());
        step_accrues_waiting_time(start.after(before), id);
    }
}

/// Where a simulation holds a request whose identifier it holds only once,
/// the waiting time accrued under that identifier is that of the request.
proof fn lemma_waited_by_holder(state: SimulationState, request: Request)
    requires
        state.holds(request),
        state.census(request.id) <= 1,
    ensures
        state.census(request.id) == 1,
        state.waited_by(request.id) == request.waiting_time,
{
    let id = request.id;
    lemma_tally_of_none(state.normal_requests, id);
    lemma_tally_of_none(state.rt_requests, id);
    lemma_tally_of_none(state.ready_requests, id);
    lemma_tally_of_none(state.ready_rt_requests, id);
    lemma_tally_of_none(state.done_requests, id);
    lemma_tally_of_none(state.dead_requests, id);
    if state.normal_requests.contains(request) {
        lemma_tally_of_member(state.normal_requests, request);
    } else if state.rt_requests.contains(request) {
        lemma_tally_of_member(state.rt_requests, request);
    } else if state.ready_requests.contains(request) {
        lemma_tally_of_member(state.ready_requests, request);
    } else if state.ready_rt_requests.contains(request) {
        lemma_tally_of_member(state.ready_rt_requests, request);
    } else if state.done_requests.contains(request) {
        lemma_tally_of_member(state.done_requests, request);
    } else if state.dead_requests.contains(request) {
        lemma_tally_of_member(state.dead_requests, request);
    }
}

/// A list of requests that have not waited tallies no waiting time.
proof fn lemma_fresh_tally(requests: Seq<Request>, id: u32)
    requires
        forall|i: int| 0 <= i < requests.len() ==> (#[trigger] requests[i]).waiting_time == 0,
    ensures
        waiting_of(requests, id) == 0,
    decreases requests.len(),
{
    if requests.len() > 0 {
        let front = requests.drop_last();
        assert forall|i: int| 0 <= i < front.len() implies (#[trigger] front[i]).waiting_time
            == 0 by {
            assert(front[i] == requests[i]);
        }
        lemma_fresh_tally(front, id);
        assert(requests[requests.len() - 1].waiting_time == 0);
    }
}

/// The simulation of a valid workload starts as every step leaves it: with
/// what holds of a simulation at every step, holding each identifier as
/// often as the workload does, and with no waiting time accrued.
pub proof fn lemma_initial(
    scheduler: Schedulers,
    rt_scheduler: Option<Schedulers>,
    number_of_tracks: u32,
    requests: Seq<Request>,
    id: u32,
)
    requires
        number_of_tracks >= 2,
        requests.len() <= usize::MAX,
        valid_workload(requests, number_of_tracks),
    ensures
        SimulationState::initial(scheduler, rt_scheduler, number_of_tracks, requests).inv(),
        SimulationState::initial(scheduler, rt_scheduler, number_of_tracks, requests).census(id)
            == count_of(requests, id),
        SimulationState::initial(scheduler, rt_scheduler, number_of_tracks, requests).waited_by(
            id,
        ) == 0,
{
    let real_time = Filter::RealTime;
    assert(bounded(requests, number_of_tracks, 0));
    lemma_split(requests, real_time);
    lemma_split_bounded(requests, real_time, number_of_tracks, 0);
    lemma_tally_split(requests, real_time, id);
    lemma_fresh_tally(requests, id);
}

/// Waiting-time accrual: the waiting time of a request is the number of
/// time units that it has spent ready and waiting.
///
/// Take a valid workload in which the identifier of a request occurs once.
/// Whatever the policies, a request with that identifier which the
/// simulation holds after any number of steps (outstanding, completed or
/// missed) has waited exactly as many time units as it spent in the ready
/// list while the clock advanced.
pub proof fn waiting_time_is_time_spent_ready(
    scheduler: Schedulers,
    rt_scheduler: Option<Schedulers>,
    number_of_tracks: u32,
    requests: Seq<Request>,
    steps: nat,
    request: Request,
)
    requires
        number_of_tracks >= 2,
        requests.len() <= usize::MAX,
        valid_workload(requests, number_of_tracks),
        count_of(requests, request.id) <= 1,
        SimulationState::initial(scheduler, rt_scheduler, number_of_tracks, requests).runs_for(
            steps,
        ),
        SimulationState::initial(scheduler, rt_scheduler, number_of_tracks, requests).after(
            steps,
        ).holds(request),
    ensures
        request.waiting_time == SimulationState::initial(
            scheduler,
            rt_scheduler,
            number_of_tracks,
            requests,
        ).ready_ticks(request.id, steps),
{
    let start = SimulationState::initial(scheduler, rt_scheduler, number_of_tracks, requests);
    lemma_initial(scheduler, rt_scheduler, number_of_tracks, requests, request.id);
    lemma_run_accrues(start, steps, request.id);
    lemma_waited_by_holder(start.after(steps), request);
}

/// A list whose requests carry their positions as identifiers holds each
/// identifier once, up to its length.
proof fn lemma_count_by_position(requests: Seq<Request>, id: u32)
    requires
        forall|k: int| 0 <= k < requests.len() ==> (#[trigger] requests[k]).id == k,
    ensures
        count_of(requests, id) == if id < requests.len() {
            1nat
        } else {
            0nat
        },
    decreases requests.len(),
{
    if requests.len() > 0 {
        let front = requests.drop_last();
        assert forall|k: int| 0 <= k < front.len() implies (#[trigger] front[k]).id == k by {
            assert(front[k] == requests[k]);
        }
        lemma_count_by_position(front, id);
        assert(requests[requests.len() - 1].id == requests.len() - 1);
    }
}

/// A generated workload is valid for a device with the tracks of its
/// configuration, and holds each identifier at most once.
pub proof fn generated_workload_is_valid(
    generator: RequestGenerator,
    requests: Seq<Request>,
    id: u32,
)
    requires
        generator.well_formed(requests),
    ensures
        valid_workload(requests, generator.number_of_tracks),
        count_of(requests, id) <= 1,
{
    lemma_count_by_position(requests, id);
}

} // verus!
