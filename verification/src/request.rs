//! Requests, their lifecycle status, and the seeded workload generator.

use crate::error::SimulationError;
use rand::rngs::StdRng;
use rand::Rng;
use rand::SeedableRng;
use vstd::prelude::*;

verus! {

/// Where a request stands in its lifecycle.
#[derive(Clone, Copy, Debug, PartialEq, Eq, Structural)]
pub enum RequestStatus {
    /// Best-effort, not yet arrived.
    Normal,
    /// Best-effort, arrived and waiting for service.
    Ready,
    /// Real-time, not yet arrived.
    RealTime,
    /// Real-time, arrived and waiting for service.
    RealTimeReady,
    /// Served.
    Done,
    /// Deadline missed.
    Dead,
}

/// One request for a track of the device.
#[derive(Clone, Copy, Debug, PartialEq, Eq, Structural)]
pub struct Request {
    pub id: u32,
    pub status: RequestStatus,
    pub track_number: u32,
    pub arrival_time: u32,
    pub waiting_time: u32,
    pub deadline_time: u32,
}

impl Request {
    /// The same request with another status.
    pub open spec fn with_status(self, status: RequestStatus) -> Request {
        Request { status, ..self }
    }

    /// The same request after `ticks` more time units of waiting.
    pub open spec fn waited(self, ticks: int) -> Request {
        Request { waiting_time: (self.waiting_time + ticks) as u32, ..self }
    }

    /// A request that has neither been released nor waited yet.
    pub open spec fn fresh(self) -> bool {
        &&& self.status == RequestStatus::Normal || self.status == RequestStatus::RealTime
        &&& self.waiting_time == 0
    }

    /// A new request that has not waited yet.
    pub fn new(
        id: u32,
        status: RequestStatus,
        track_number: u32,
        arrival_time: u32,
        deadline_time: u32,
    ) -> (request: Request)
        ensures
            request == (Request {
                id,
                status,
                track_number,
                arrival_time,
                waiting_time: 0,
                deadline_time,
            }),
    {
        Request { id, status, track_number, arrival_time, waiting_time: 0, deadline_time }
    }

    /// Moves the request to another lifecycle status; nothing else changes.
    pub fn set_status(&mut self, status: RequestStatus)
        ensures
            *final(self) == old(self).with_status(status),
    {
        self.status = status;
    }
}

/// The state of a `StdRng`, as bytes. Two generators in the same state
/// produce the same values.
pub uninterp spec fn generator_state(rng: StdRng) -> Seq<u8>;

/// The state in which `StdRng::seed_from_u64` leaves a new generator.
pub uninterp spec fn seeded_state(seed: u64) -> Seq<u8>;

/// What `gen_range(0..bound)` returns for a generator in the given state,
/// and the state in which it leaves the generator.
pub uninterp spec fn uniform_draw(state: Seq<u8>, bound: u32) -> (u32, Seq<u8>);

/// `rand::rngs::StdRng`, the seeded random generator. Nothing inside it is
/// visible here; what is said of it is said through `generator_state`.
#[verifier::external_type_specification]
#[verifier::external_body]
pub struct ExStdRng(rand::rngs::StdRng);

/// `StdRng::seed_from_u64`: the generator's state is determined by the seed
/// alone.
#[verifier::external_body]
fn seeded_rng(seed: u64) -> (rng: StdRng)
    ensures
        generator_state(rng) == seeded_state(seed),
{
    StdRng::seed_from_u64(seed)
}

/// `Rng::gen_range(0..bound)` on a `StdRng`: the value lies below `bound`,
/// and both the value and the generator's next state are determined by the
/// state before the call and by `bound`. An empty range, for which the call
/// panics, is excluded.
#[verifier::external_body]
fn draw_below(rng: &mut StdRng, bound: u32) -> (value: u32)
    requires
        bound > 0,
    ensures
        value == uniform_draw(generator_state(*old(rng)), bound).0,
        generator_state(*final(rng)) == uniform_draw(generator_state(*old(rng)), bound).1,
        value < bound,
{
    rng.gen_range(0..bound)
}

/// The seed used when no other is chosen.
pub const DEFAULT_SEED: u64 = 412123420;

/// The range from which the class of a request is drawn.
pub const CLASS_RANGE: u32 = 100;

/// Configuration of a synthetic workload.
#[derive(Clone, Copy, Debug, PartialEq, Eq, Structural)]
pub struct RequestGenerator {
    pub number_of_tracks: u32,
    pub number_of_requests: u32,
    pub max_arrival_time: u32,
    pub deadline_time: u32,
    /// Share of real-time requests, in percent.
    pub rt_percent: u32,
    pub seed: u64,
}

impl RequestGenerator {
    /// A configuration with the default seed.
    pub fn new(
        number_of_tracks: u32,
        number_of_requests: u32,
        max_arrival_time: u32,
        deadline_time: u32,
        rt_percent: u32,
    ) -> (generator: RequestGenerator)
        ensures
            generator == (RequestGenerator {
                number_of_tracks,
                number_of_requests,
                max_arrival_time,
                deadline_time,
                rt_percent,
                seed: DEFAULT_SEED,
            }),
    {
        RequestGenerator {
            number_of_tracks,
            number_of_requests,
            max_arrival_time,
            deadline_time,
            rt_percent,
            seed: DEFAULT_SEED,
        }
    }

    /// The same configuration with another seed.
    pub fn with_seed(self, seed: u64) -> (generator: RequestGenerator)
        ensures
            generator == (RequestGenerator { seed, ..self }),
    {
        RequestGenerator { seed, ..self }
    }

    /// Fewer than two tracks, or no request.
    pub open spec fn degenerate(&self) -> bool {
        self.number_of_tracks <= 1 || self.number_of_requests == 0
    }

    /// Arrival times can be drawn, and every deadline fits the clock.
    pub open spec fn fits(&self) -> bool {
        &&& self.max_arrival_time >= 1
        &&& self.max_arrival_time - 1 + self.deadline_time <= u32::MAX
    }

    /// The request made from three draws: a track, an arrival time and a
    /// class draw, which makes the request real-time when it lies below
    /// `rt_percent`.
    pub open spec fn request_from(&self, id: u32, track: u32, arrival: u32, class: u32) -> Request {
        Request {
            id,
            status: if class < self.rt_percent {
                RequestStatus::RealTime
            } else {
                RequestStatus::Normal
            },
            track_number: track,
            arrival_time: arrival,
            waiting_time: 0,
            deadline_time: (arrival + self.deadline_time) as u32,
        }
    }

    /// The state of the random generator after `k` requests were drawn.
    pub open spec fn state_after(&self, k: nat) -> Seq<u8>
        decreases k,
    {
        if k == 0 {
            seeded_state(self.seed)
        } else {
            let before = self.state_after((k - 1) as nat);
            let track = uniform_draw(before, self.number_of_tracks);
            let arrival = uniform_draw(track.1, self.max_arrival_time);
            uniform_draw(arrival.1, CLASS_RANGE).1
        }
    }

    /// The `k`-th request of the workload.
    pub open spec fn request_at(&self, k: nat) -> Request {
        let track = uniform_draw(self.state_after(k), self.number_of_tracks);
        let arrival = uniform_draw(track.1, self.max_arrival_time);
        let class = uniform_draw(arrival.1, CLASS_RANGE);
        self.request_from(k as u32, track.0, arrival.0, class.0)
    }

    /// The workload: `number_of_requests` requests in generation order.
    pub open spec fn requests(&self) -> Seq<Request> {
        Seq::new(self.number_of_requests as nat, |k: int| self.request_at(k as nat))
    }

    /// What holds of every workload of this configuration: each request lies
    /// on the device, arrives within the arrival window, is fresh, carries
    /// its position as identifier, and has its deadline one horizon after its
    /// arrival.
    pub open spec fn well_formed(&self, requests: Seq<Request>) -> bool {
        &&& requests.len() == self.number_of_requests
        &&& forall|k: int|
            0 <= k < requests.len() ==> {
                &&& (#[trigger] requests[k]).id == k
                &&& requests[k].track_number < self.number_of_tracks
                &&& requests[k].arrival_time < self.max_arrival_time
                &&& requests[k].fresh()
                &&& requests[k].deadline_time == requests[k].arrival_time + self.deadline_time
            }
    }

    /// Builds a request from its three draws.
    pub fn build_request(&self, id: u32, track: u32, arrival: u32, class: u32) -> (request: Request)
        requires
            arrival + self.deadline_time <= u32::MAX,
        ensures
            request == self.request_from(id, track, arrival, class),
    {
        let status = if class < self.rt_percent {
            RequestStatus::RealTime
        } else {
            RequestStatus::Normal
        };
        Request::new(id, status, track, arrival, arrival + self.deadline_time)
    }

    /// Generates the workload that the configuration and its seed determine.
    pub fn generate_requests(&self) -> (result: Result<Vec<Request>, SimulationError>)
        ensures
            self.degenerate() <==> result == Err::<Vec<Request>, _>(
                SimulationError::DegenerateConfiguration,
            ),
            !self.degenerate() && !self.fits() <==> result == Err::<Vec<Request>, _>(
                SimulationError::InvalidConfiguration,
            ),
            result is Ok <==> !self.degenerate() && self.fits(),
            result matches Ok(requests) ==> requests@ == self.requests() && self.well_formed(
                requests@,
            ),
    {
        if self.number_of_tracks <= 1 || self.number_of_requests == 0 {
            return Err(SimulationError::DegenerateConfiguration);
        }
        if self.max_arrival_time == 0 || self.deadline_time > u32::MAX - (self.max_arrival_time
            - 1) {
            return Err(SimulationError::InvalidConfiguration);
        }
        let mut requests: Vec<Request> = Vec::new();
        let mut rng = seeded_rng(self.seed);
        let mut i: u32 = 0;
        while i < self.number_of_requests
            invariant
                i <= self.number_of_requests,
                !self.degenerate(),
                self.fits(),
                generator_state(rng) == self.state_after(i as nat),
                requests@ == Seq::new(i as nat, |k: int| self.request_at(k as nat)),
                forall|k: int|
                    0 <= k < i ==> {
                        &&& (#[trigger] requests@[k]).id == k
                        &&& requests@[k].track_number < self.number_of_tracks
                        &&& requests@[k].arrival_time < self.max_arrival_time
                        &&& requests@[k].fresh()
                        &&& requests@[k].deadline_time == requests@[k].arrival_time
                            + self.deadline_time
                    },
            decreases self.number_of_requests - i,
        {
            let track_number = draw_below(&mut rng, self.number_of_tracks);
            let arrival_time = draw_below(&mut rng, self.max_arrival_time);
            let class = draw_below(&mut rng, CLASS_RANGE);
            let request = self.build_request(i, track_number, arrival_time, class);
            assert(request == self.request_at(i as nat));
            requests.push(request);
            i = i + 1;
        }
        Ok(requests)
    }
}

/// Generation is deterministic: two generators with the same configuration
/// and the same seed describe the same workload.
pub proof fn generation_is_deterministic(first: RequestGenerator, second: RequestGenerator)
    requires
        first == second,
    ensures
        first.requests() == second.requests(),
{
}

} // verus!
