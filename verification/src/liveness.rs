//! Why a run comes to its end: a bound on the clock.
//!
//! Under a real-time policy a request is served or gives up at its deadline.
//! Under a best-effort policy other than `FeasibleDeadlineScan` a ready
//! request is selected at once, or after the sweep has reached its next
//! turn. So each request costs at most two lengths of the device, and the
//! clock stays below the latest arrival or deadline plus that cost.

use crate::accounting::lemma_initial;
use crate::queues::lemma_split;
use crate::queues::marked;
use crate::queues::matching;
use crate::queues::remaining;
use crate::queues::waited;
use crate::queues::Filter;
use crate::request::Request;
use crate::request::RequestGenerator;
use crate::request::RequestStatus;
use crate::schedulers::choice_is_selection;
use crate::schedulers::distance;
use crate::schedulers::Schedulers;
use crate::simulation::lemma_arrived;
use crate::simulation::lemma_next;
use crate::simulation::valid_workload;
use crate::simulation::SimulationState;
use vstd::prelude::*;

verus! {

/// No request arrives, or has its deadline, later than `horizon`.
pub open spec fn within(requests: Seq<Request>, horizon: int) -> bool {
    forall|i: int|
        0 <= i < requests.len() ==> (#[trigger] requests[i]).arrival_time <= horizon
            && requests[i].deadline_time <= horizon
}

/// The latest arrival time or deadline of the requests.
pub open spec fn latest(requests: Seq<Request>) -> int
    decreases requests.len(),
{
    if requests.len() == 0 {
        0
    } else {
        let before = latest(requests.drop_last());
        let arrival = requests.last().arrival_time as int;
        let deadline = requests.last().deadline_time as int;
        if before >= arrival && before >= deadline {
            before
        } else if arrival >= deadline {
            arrival
        } else {
            deadline
        }
    }
}

/// The cost of a run on the clock: two lengths of the device for each
/// request, and for one more.
pub open spec fn budget(number_of_tracks: u32, served: int) -> int {
    2 * number_of_tracks * (served + 1)
}

/// The time by which a run of the workload is over.
pub open spec fn time_bound(number_of_tracks: u32, requests: Seq<Request>) -> int {
    latest(requests) + budget(number_of_tracks, requests.len() as int)
}

/// No request arrives or is due after the latest arrival or deadline.
pub proof fn lemma_latest(requests: Seq<Request>)
    ensures
        within(requests, latest(requests)),
        latest(requests) >= 0,
    decreases requests.len(),
{
    if requests.len() > 0 {
        let front = requests.drop_last();
        lemma_latest(front);
        assert forall|i: int| 0 <= i < requests.len() implies (#[trigger] requests[i]).arrival_time
            <= latest(requests) && requests[i].deadline_time <= latest(requests) by {
            if i < front.len() {
                assert(front[i] == requests[i]);
            }
        }
    }
}

/// The budget grows with each request served, by two lengths of the device.
proof fn lemma_budget(number_of_tracks: u32, served: int, later: int)
    requires
        0 <= served <= later,
    ensures
        budget(number_of_tracks, served) >= 2 * number_of_tracks,
        budget(number_of_tracks, later) >= budget(number_of_tracks, served),
        later > served ==> budget(number_of_tracks, later) >= budget(number_of_tracks, served) + 2
            * number_of_tracks,
{
    assert(2 * number_of_tracks * (served + 1) >= 2 * number_of_tracks) by (nonlinear_arith)
        requires
            served >= 0,
    ;
    assert(2 * number_of_tracks * (later + 1) >= 2 * number_of_tracks * (served + 1))
        by (nonlinear_arith)
        requires
            later >= served,
    ;
    assert(later > served ==> 2 * number_of_tracks * (later + 1) >= 2 * number_of_tracks * (served
        + 1) + 2 * number_of_tracks) by (nonlinear_arith);
}

impl Schedulers {
    /// Whether the policy moves the head along a sweep, whatever the target.
    pub open spec fn sweeps(self) -> bool {
        self == Schedulers::Scan || self == Schedulers::CScan
    }
}

impl SimulationState {
    /// The number of sweeping steps after which the best-effort policy
    /// admits every request: the steps to the next turn of a sweep, or to
    /// the wrap of a circular sweep. Other policies admit every request at
    /// once.
    pub open spec fn steps_to_turn(self) -> int {
        match self.scheduler {
            Schedulers::Scan => if self.hdd.sweeps_right() {
                self.hdd.number_of_tracks - 1 - self.hdd.current_track
            } else {
                self.hdd.current_track as int
            },
            Schedulers::CScan => self.hdd.number_of_tracks - self.hdd.current_track,
            _ => 0,
        }
    }

    /// The best-effort policy admits some ready request.
    pub open spec fn admits_some(self) -> bool {
        exists|i: int|
            0 <= i < self.ready_requests.len() && self.scheduler.admits(
                self.hdd.head(),
                #[trigger] self.ready_requests[i],
            )
    }

    /// The time that may still pass before a request is served: the way to
    /// the request in service, or else the longest way to a request, after
    /// the steps to the next turn where no ready request is admitted.
    pub open spec fn slack(self) -> int {
        match self.in_service {
            Some(service) => distance(self.hdd.current_track, service.request.track_number),
            None => self.hdd.number_of_tracks - 1 + if self.admits_some() {
                0
            } else {
                self.steps_to_turn()
            },
        }
    }

    /// The request in service lies where its policy takes the head: in the
    /// direction of a sweep, or rightward of a circular sweep.
    pub open spec fn on_course(self) -> bool {
        self.in_service matches Some(service) ==> match self.policy_for(service) {
            Schedulers::Scan => if self.hdd.scan_right {
                service.request.track_number >= self.hdd.current_track
            } else {
                service.request.track_number <= self.hdd.current_track
            },
            Schedulers::CScan => service.request.track_number >= self.hdd.current_track,
            _ => true,
        }
    }

    /// What holds at every step of a run that comes to its end by
    /// `horizon` and its budget.
    pub open spec fn live(self, horizon: int) -> bool {
        &&& self.inv()
        &&& self.scheduler != Schedulers::FeasibleDeadlineScan
        &&& within(self.normal_requests, horizon)
        &&& within(self.rt_requests, horizon)
        &&& within(self.ready_rt_requests, horizon)
        &&& self.on_course()
        &&& self.hdd.time + self.slack() <= horizon + budget(
            self.hdd.number_of_tracks,
            self.served(),
        )
    }
}

/// Where a request is served soonest, it is served within two lengths of
/// the device.
proof fn lemma_slack(state: SimulationState)
    requires
        state.inv(),
    ensures
        0 <= state.slack() <= 2 * state.hdd.number_of_tracks - 1,
        state.in_service is Some ==> state.slack() <= state.hdd.number_of_tracks - 1,
        state.in_service is None ==> state.slack() >= state.hdd.number_of_tracks - 1,
{
}

/// What release and expiry leave waiting: unreleased requests that arrive
/// later, and ready real-time requests whose deadline is yet to come, none
/// of them beyond the horizon.
proof fn lemma_arrived_within(state: SimulationState, horizon: int)
    requires
        within(state.normal_requests, horizon),
        within(state.rt_requests, horizon),
        within(state.ready_rt_requests, horizon),
    ensures
        within(state.arrived().normal_requests, horizon),
        within(state.arrived().rt_requests, horizon),
        within(state.arrived().ready_rt_requests, horizon),
        forall|i: int|
            0 <= i < state.arrived().normal_requests.len() ==> (
            #[trigger] state.arrived().normal_requests[i]).arrival_time > state.hdd.time,
        forall|i: int|
            0 <= i < state.arrived().rt_requests.len() ==> (
            #[trigger] state.arrived().rt_requests[i]).arrival_time > state.hdd.time,
        forall|i: int|
            0 <= i < state.arrived().ready_rt_requests.len() ==> (
            #[trigger] state.arrived().ready_rt_requests[i]).deadline_time > state.hdd.time,
{
    let now = state.hdd.time;
    let arrived = Filter::ArrivedBy(now);
    let due = Filter::DueBy(now);
    let alive = remaining(state.rt_requests, due);
    lemma_split(state.normal_requests, arrived);
    lemma_split(state.ready_rt_requests, due);
    lemma_split(state.rt_requests, due);
    lemma_split(alive, arrived);
    let still_ready = remaining(state.ready_rt_requests, due);
    let released = marked(matching(alive, arrived), RequestStatus::RealTimeReady);
    assert forall|i: int| 0 <= i < alive.len() implies (#[trigger] alive[i]).arrival_time
        <= horizon && alive[i].deadline_time <= horizon && alive[i].deadline_time > now by {
        assert(state.rt_requests.contains(alive[i]));
    }
    assert forall|i: int| 0 <= i < released.len() implies (#[trigger] released[i]).arrival_time
        <= horizon && released[i].deadline_time <= horizon && released[i].deadline_time > now by {
        let r = matching(alive, arrived)[i];
        assert(released[i] == r.with_status(RequestStatus::RealTimeReady));
        assert(alive.contains(r));
    }
    assert forall|i: int| 0 <= i < still_ready.len() implies (#[trigger] still_ready[i]).arrival_time
        <= horizon && still_ready[i].deadline_time <= horizon && still_ready[i].deadline_time
        > now by {
        assert(state.ready_rt_requests.contains(still_ready[i]));
    }
    let ready_rt = state.arrived().ready_rt_requests;
    assert(ready_rt == still_ready + released);
    assert forall|i: int| 0 <= i < ready_rt.len() implies (#[trigger] ready_rt[i]).arrival_time
        <= horizon && ready_rt[i].deadline_time <= horizon && ready_rt[i].deadline_time > now by {
        if i < still_ready.len() {
            assert(ready_rt[i] == still_ready[i]);
        } else {
            assert(ready_rt[i] == released[i - still_ready.len()]);
        }
    }
    let rt = state.arrived().rt_requests;
    assert forall|i: int| 0 <= i < rt.len() implies (#[trigger] rt[i]).arrival_time <= horizon
        && rt[i].deadline_time <= horizon && rt[i].arrival_time > now by {
        assert(alive.contains(rt[i]));
    }
    let normal = state.arrived().normal_requests;
    assert forall|i: int| 0 <= i < normal.len() implies (#[trigger] normal[i]).arrival_time
        <= horizon && normal[i].deadline_time <= horizon && normal[i].arrival_time > now by {
        assert(state.normal_requests.contains(normal[i]));
    }
}

/// A step toward the request in service takes the head one track nearer,
/// and leaves the request where its policy takes the head.
proof fn lemma_advanced_live(state: SimulationState, horizon: int)
    requires
        state.live(horizon),
        state.running(),
        state.in_service matches Some(service) && state.hdd.current_track
            != service.request.track_number,
    ensures
        state.next().on_course(),
        state.next().slack() == state.slack() - 1,
        state.next().hdd.time == state.hdd.time + 1,
        state.next().normal_requests == state.normal_requests,
        state.next().rt_requests == state.rt_requests,
        state.next().ready_rt_requests == state.ready_rt_requests,
{
}

/// An idle sweeping step with ready requests brings the next turn one step
/// nearer, or brings a ready request into the sweep.
proof fn lemma_idled_live(now: SimulationState)
    requires
        now.inv(),
        now.in_service is None,
        now.hdd.time < u32::MAX,
        now.scheduler != Schedulers::FeasibleDeadlineScan,
        now.ready_requests.len() > 0,
        now.choice() is None,
    ensures
        now.scheduler.sweeps(),
        !now.admits_some(),
        now.idled().slack() <= now.hdd.number_of_tracks - 1 + now.steps_to_turn() - 1,
{
    let head = now.hdd.head();
    let ready = now.ready_requests;
    choice_is_selection(now.scheduler, head, ready);
    assert(!now.scheduler.admits(head, ready[0]));
    let after = now.idled();
    let n = now.hdd.number_of_tracks;
    assert(after.ready_requests == waited(ready));
    assert(after.ready_requests[0] == ready[0].waited(1));
    assert(ready[0].track_number < n);
    if after.hdd.current_track == 0 || (now.scheduler == Schedulers::Scan
        && after.hdd.current_track == n - 1) {
        assert(after.scheduler.admits(after.hdd.head(), after.ready_requests[0]));
        assert(after.admits_some());
    }
}

/// Release keeps the ready requests that the best-effort policy admits.
proof fn lemma_arrived_admits(state: SimulationState)
    requires
        state.admits_some(),
    ensures
        state.arrived().admits_some(),
{
    let i = choose|i: int|
        0 <= i < state.ready_requests.len() && state.scheduler.admits(
            state.hdd.head(),
            #[trigger] state.ready_requests[i],
        );
    assert(state.arrived().ready_requests[i] == state.ready_requests[i]);
}

/// A step keeps what holds at every step of a run that comes to its end.
pub proof fn lemma_next_live(state: SimulationState, horizon: int)
    requires
        state.live(horizon),
        state.running(),
    ensures
        state.next().live(horizon),
{
    let next = state.next();
    let n = state.hdd.number_of_tracks;
    lemma_next(state);
    lemma_slack(state);
    lemma_slack(next);
    lemma_budget(n, state.served(), next.served());
    match state.in_service {
        Some(service) => {
            if state.hdd.current_track != service.request.track_number {
                lemma_advanced_live(state, horizon);
            }
        },
        None => {
            let now = state.arrived();
            lemma_arrived(state);
            lemma_arrived_within(state, horizon);
            lemma_budget(n, state.served(), now.served());
            lemma_budget(n, now.served(), next.served());
            if now.ready_requests.len() == 0 && now.ready_rt_requests.len() == 0 {
                if now.served() == state.served() {
                    assert(now.outstanding() > 0);
                    if now.normal_requests.len() > 0 {
                        assert(now.normal_requests[0].arrival_time > state.hdd.time);
                    } else {
                        assert(now.rt_requests[0].arrival_time > state.hdd.time);
                    }
                }
            } else {
                match now.rt_choice() {
                    Some(i) => {
                        choice_is_selection(
                            now.rt_scheduler->0,
                            now.hdd.head(),
                            now.ready_rt_requests,
                        );
                        assert(within(now.ready_rt_requests.remove(i), horizon)) by {
                            assert forall|j: int|
                                0 <= j < now.ready_rt_requests.remove(i).len() implies (
                            #[trigger] now.ready_rt_requests.remove(i)[j]).arrival_time <= horizon
                                && now.ready_rt_requests.remove(i)[j].deadline_time <= horizon by {
                                if j < i {
                                    assert(now.ready_rt_requests.remove(i)[j]
                                        == now.ready_rt_requests[j]);
                                } else {
                                    assert(now.ready_rt_requests.remove(i)[j]
                                        == now.ready_rt_requests[j + 1]);
                                }
                            }
                        }
                    },
                    None => match now.choice() {
                        Some(i) => {
                            choice_is_selection(now.scheduler, now.hdd.head(), now.ready_requests);
                        },
                        None => {
                            if now.ready_requests.len() == 0 {
                                if now.served() == state.served() {
                                    assert(now.ready_rt_requests[0].deadline_time > state.hdd.time);
                                }
                            } else {
                                lemma_idled_live(now);
                                if state.admits_some() {
                                    lemma_arrived_admits(state);
                                }
                                assert(state.steps_to_turn() == now.steps_to_turn());
                            }
                        },
                    },
                }
            }
        },
    }
}

/// A run keeps what holds at every step of a run that comes to its end.
pub proof fn lemma_run_live(start: SimulationState, horizon: int, steps: nat)
    requires
        start.live(horizon),
        start.runs_for(steps),
    ensures
        start.after(steps).live(horizon),
    decreases steps,
{
    if steps > 0 {
        let before = (steps - 1) as nat;
        assert(start.runs_for(before)) by {
            assert forall|j: nat| j < before implies (#[trigger] start.after(j)).running() by {
                assert(j < steps);
            }
        }
        lemma_run_live(start, horizon, before);
        assert(start.after(before).running());
        lemma_next_live(start.after(before), horizon);
    }
}

/// Termination: under every best-effort policy but `FeasibleDeadlineScan`,
/// and under every real-time policy, the clock of a run never exceeds the
/// time bound of its workload: the latest arrival or deadline, and two
/// lengths of the device for each request and for one more.
pub proof fn run_ends_in_time(
    scheduler: Schedulers,
    rt_scheduler: Option<Schedulers>,
    number_of_tracks: u32,
    requests: Seq<Request>,
    steps: nat,
)
    requires
        number_of_tracks >= 2,
        requests.len() <= usize::MAX,
        valid_workload(requests, number_of_tracks),
        scheduler != Schedulers::FeasibleDeadlineScan,
        SimulationState::initial(scheduler, rt_scheduler, number_of_tracks, requests).runs_for(
            steps,
        ),
    ensures
        SimulationState::initial(scheduler, rt_scheduler, number_of_tracks, requests).after(
            steps,
        ).hdd.time <= time_bound(number_of_tracks, requests),
{
    let start = SimulationState::initial(scheduler, rt_scheduler, number_of_tracks, requests);
    let horizon = latest(requests);
    lemma_initial(scheduler, rt_scheduler, number_of_tracks, requests, 0);
    lemma_latest(requests);
    lemma_split(requests, Filter::RealTime);
    lemma_slack(start);
    lemma_budget(number_of_tracks, 0, 0);
    assert(within(start.normal_requests, horizon)) by {
        assert forall|i: int| 0 <= i < start.normal_requests.len() implies (
        #[trigger] start.normal_requests[i]).arrival_time <= horizon
            && start.normal_requests[i].deadline_time <= horizon by {
            assert(requests.contains(start.normal_requests[i]));
        }
    }
    assert(within(start.rt_requests, horizon)) by {
        assert forall|i: int| 0 <= i < start.rt_requests.len() implies (
        #[trigger] start.rt_requests[i]).arrival_time <= horizon
            && start.rt_requests[i].deadline_time <= horizon by {
            assert(requests.contains(start.rt_requests[i]));
        }
    }
    assert(start.live(horizon));
    lemma_run_live(start, horizon, steps);
    let end = start.after(steps);
    lemma_slack(end);
    crate::simulation::lemma_run(start, steps);
    lemma_budget(number_of_tracks, end.served(), requests.len() as int);
}

/// A list of requests that arrive and are due by some time has its latest
/// arrival or deadline by that time.
proof fn lemma_latest_within(requests: Seq<Request>, horizon: int)
    requires
        within(requests, horizon),
        horizon >= 0,
    ensures
        latest(requests) <= horizon,
    decreases requests.len(),
{
    if requests.len() > 0 {
        let front = requests.drop_last();
        assert forall|i: int| 0 <= i < front.len() implies (#[trigger] front[i]).arrival_time
            <= horizon && front[i].deadline_time <= horizon by {
            assert(front[i] == requests[i]);
        }
        lemma_latest_within(front, horizon);
        assert(requests[requests.len() - 1].arrival_time <= horizon);
    }
}

/// The time bound of a generated workload follows from its configuration:
/// no request arrives or is due after the arrival window and the deadline
/// horizon.
pub proof fn generated_workload_ends_in_time(generator: RequestGenerator, requests: Seq<Request>)
    requires
        generator.fits(),
        generator.well_formed(requests),
    ensures
        latest(requests) <= generator.max_arrival_time - 1 + generator.deadline_time,
        time_bound(generator.number_of_tracks, requests) == latest(requests) + 2
            * generator.number_of_tracks * (generator.number_of_requests + 1),
{
    let horizon = generator.max_arrival_time - 1 + generator.deadline_time;
    assert(within(requests, horizon));
    lemma_latest_within(requests, horizon);
}

} // verus!
