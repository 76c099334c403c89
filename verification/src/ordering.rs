//! What a deciding step selects: real-time work first, and under
//! `FeasibleDeadlineScan` only what the head reaches by the deadline.

use crate::request::Request;
use crate::schedulers::choice_is_selection;
use crate::schedulers::distance;
use crate::schedulers::Schedulers;
use crate::simulation::lemma_arrived;
use crate::simulation::lemma_next;
use crate::simulation::valid_workload;
use crate::simulation::SimulationState;
use vstd::prelude::*;

verus! {

impl SimulationState {
    /// The real-time policy admits some real-time request that is ready
    /// after release and expiry.
    pub open spec fn admits_real_time(self) -> bool {
        self.rt_scheduler matches Some(policy) && exists|i: int|
            0 <= i < self.arrived().ready_rt_requests.len() && policy.admits(
                self.hdd.head(),
                #[trigger] self.arrived().ready_rt_requests[i],
            )
    }

    /// Under `FeasibleDeadlineScan`, the head reaches the real-time request
    /// in service by its deadline.
    pub open spec fn in_reach(self) -> bool {
        self.rt_scheduler == Some(Schedulers::FeasibleDeadlineScan) ==> (
        self.in_service matches Some(service) ==> service.real_time
            ==> service.request.deadline_time >= self.hdd.time + distance(
            service.request.track_number,
            self.hdd.current_track,
        ))
    }
}

/// Real-time priority: where the real-time policy admits a ready real-time
/// request, a deciding step takes the request that this policy selects into
/// service, whatever best-effort request is ready.
pub proof fn real_time_work_is_served_first(state: SimulationState)
    requires
        state.inv(),
        state.in_service is None,
        state.admits_real_time(),
    ensures
        state.next().in_service matches Some(service) && service.real_time && Some(
            service.request,
        ) == state.rt_scheduler->0.chosen(state.hdd.head(), state.arrived().ready_rt_requests),
{
    lemma_arrived(state);
    choice_is_selection(
        state.rt_scheduler->0,
        state.hdd.head(),
        state.arrived().ready_rt_requests,
    );
}

/// Best-effort work is served only where the real-time policy selects
/// nothing, and then the request taken into service is the one that the
/// best-effort policy selects among the ready requests.
pub proof fn best_effort_work_is_served_next(state: SimulationState)
    requires
        state.inv(),
        state.in_service is None,
        state.next().in_service matches Some(service) && !service.real_time,
    ensures
        !state.admits_real_time(),
        Some(state.next().in_service->0.request) == state.scheduler.chosen(
            state.hdd.head(),
            state.arrived().ready_requests,
        ),
{
    lemma_arrived(state);
    if state.rt_scheduler is Some {
        choice_is_selection(
            state.rt_scheduler->0,
            state.hdd.head(),
            state.arrived().ready_rt_requests,
        );
    }
}

/// A step keeps the request in service in reach of the head.
proof fn lemma_next_in_reach(state: SimulationState)
    requires
        state.inv(),
        state.running(),
        state.in_reach(),
    ensures
        state.next().inv(),
        state.next().in_reach(),
        state.next().rt_scheduler == state.rt_scheduler,
{
    lemma_next(state);
    if state.in_service is None {
        lemma_arrived(state);
        if state.rt_scheduler is Some {
            choice_is_selection(
                state.rt_scheduler->0,
                state.hdd.head(),
                state.arrived().ready_rt_requests,
            );
        }
    }
}

/// A run keeps the request in service in reach of the head.
proof fn lemma_run_in_reach(start: SimulationState, steps: nat)
    requires
        start.inv(),
        start.in_reach(),
        start.runs_for(steps),
    ensures
        start.after(steps).inv(),
        start.after(steps).in_reach(),
        start.after(steps).rt_scheduler == start.rt_scheduler,
    decreases steps,
{
    if steps > 0 {
        let before = (steps - 1) as nat;
        assert(start.runs_for(before)) by {
            assert forall|j: nat| j < before implies (#[trigger] start.after(j)).running() by {
                assert(j < steps);
            }
        }
        lemma_run_in_reach(start, before);
        assert(start.after(before).running());
        lemma_next_in_reach(start.after(before));
    }
}

/// Feasibility: under `FeasibleDeadlineScan` a real-time request is taken
/// into service only if the head reaches it by its deadline, it stays in
/// reach at every step of the way, and so it is completed on arrival: such a
/// run misses only requests that were never served.
pub proof fn feasible_deadline_scan_serves_what_it_reaches(
    scheduler: Schedulers,
    number_of_tracks: u32,
    requests: Seq<Request>,
    steps: nat,
)
    requires
        number_of_tracks >= 2,
        requests.len() <= usize::MAX,
        valid_workload(requests, number_of_tracks),
        SimulationState::initial(
            scheduler,
            Some(Schedulers::FeasibleDeadlineScan),
            number_of_tracks,
            requests,
        ).runs_for(steps),
    ensures
        ({
            let state = SimulationState::initial(
                scheduler,
                Some(Schedulers::FeasibleDeadlineScan),
                number_of_tracks,
                requests,
            ).after(steps);
            state.in_service matches Some(service) ==> service.real_time ==> {
                &&& service.request.deadline_time >= state.hdd.time + distance(
                    service.request.track_number,
                    state.hdd.current_track,
                )
                &&& !state.misses(service)
            }
        }),
{
    let start = SimulationState::initial(
        scheduler,
        Some(Schedulers::FeasibleDeadlineScan),
        number_of_tracks,
        requests,
    );
    crate::accounting::lemma_initial(
        scheduler,
        Some(Schedulers::FeasibleDeadlineScan),
        number_of_tracks,
        requests,
        0,
    );
    lemma_run_in_reach(start, steps);
}

} // verus!
