//! The six selection policies.
//!
//! A policy looks at the ready requests of one tier and at the head of the
//! device, and selects at most one request. It admits some of the requests,
//! ranks those, and selects the one of least rank; among requests of equal
//! rank the list order decides.

use crate::request::Request;
use crate::storage_device::DiskState;
use crate::storage_device::HardDriveDisk;
use vstd::prelude::*;

verus! {

/// A scheduling policy.
#[derive(Clone, Copy, Debug, PartialEq, Eq, Structural)]
pub enum Schedulers {
    FirstComeFirstServed,
    ShortestSeekTimeFirst,
    Scan,
    CScan,
    EarliestDeadlineFirst,
    FeasibleDeadlineScan,
}

/// What a policy reads of the device.
pub struct Head {
    pub current_track: u32,
    pub time: u32,
    pub scan_right: bool,
}

impl DiskState {
    /// What the policies read of this device.
    pub open spec fn head(self) -> Head {
        Head { current_track: self.current_track, time: self.time, scan_right: self.scan_right }
    }
}

/// The number of tracks between two tracks.
pub open spec fn distance(from: u32, to: u32) -> int {
    if from <= to {
        to - from
    } else {
        from - to
    }
}

impl Schedulers {
    /// Whether the policy considers the request at all.
    ///
    /// `Scan` admits what lies in the sweep direction, the head's own track
    /// included; `CScan` what lies rightward; `FeasibleDeadlineScan` what the
    /// head can still reach by the deadline. The other policies admit every
    /// request.
    pub open spec fn admits(self, head: Head, request: Request) -> bool {
        match self {
            Schedulers::Scan => if head.scan_right {
                request.track_number >= head.current_track
            } else {
                request.track_number <= head.current_track
            },
            Schedulers::CScan => request.track_number >= head.current_track,
            Schedulers::FeasibleDeadlineScan => request.deadline_time >= head.time + distance(
                request.track_number,
                head.current_track,
            ),
            _ => true,
        }
    }

    /// The rank of a request under the policy: the least rank is served.
    pub open spec fn rank(self, head: Head, request: Request) -> int {
        match self {
            Schedulers::FirstComeFirstServed => request.arrival_time as int,
            Schedulers::ShortestSeekTimeFirst => distance(
                request.track_number,
                head.current_track,
            ),
            Schedulers::Scan => if head.scan_right {
                request.track_number as int
            } else {
                -(request.track_number as int)
            },
            Schedulers::CScan => request.track_number as int,
            Schedulers::EarliestDeadlineFirst => request.deadline_time as int,
            Schedulers::FeasibleDeadlineScan => request.deadline_time as int,
        }
    }

    /// Whether, among requests of equal rank, the last one in the list wins
    /// rather than the first. Only a leftward sweep does so.
    pub open spec fn prefers_later(self, head: Head) -> bool {
        self == Schedulers::Scan && !head.scan_right
    }

    /// Whether position `i` is the one the policy selects among the first
    /// `len` requests: the request there is admitted, no admitted request
    /// ranks lower, and among those of equal rank it stands first (or last,
    /// on a leftward sweep).
    pub open spec fn selects_among(self, head: Head, requests: Seq<Request>, len: int, i: int) -> bool {
        &&& 0 <= i < len <= requests.len()
        &&& self.admits(head, requests[i])
        &&& forall|j: int|
            0 <= j < len && self.admits(head, #[trigger] requests[j]) ==> {
                &&& self.rank(head, requests[i]) <= self.rank(head, requests[j])
                &&& self.rank(head, requests[j]) == self.rank(head, requests[i]) ==> if self.prefers_later(
                    head,
                ) {
                    j <= i
                } else {
                    i <= j
                }
            }
    }

    /// Whether position `i` is the one the policy selects.
    pub open spec fn selects(self, head: Head, requests: Seq<Request>, i: int) -> bool {
        self.selects_among(head, requests, requests.len() as int, i)
    }

    /// The position that the policy selects, if it selects any.
    pub open spec fn choice(self, head: Head, requests: Seq<Request>) -> Option<int> {
        if exists|i: int| self.selects(head, requests, i) {
            Some(choose|i: int| self.selects(head, requests, i))
        } else {
            None
        }
    }

    /// The request that the policy selects, if it selects any.
    pub open spec fn chosen(self, head: Head, requests: Seq<Request>) -> Option<Request> {
        match self.choice(head, requests) {
            Some(i) => Some(requests[i]),
            None => None,
        }
    }
}

/// A policy selects at most one position.
pub proof fn selection_is_unique(
    scheduler: Schedulers,
    head: Head,
    requests: Seq<Request>,
    i: int,
    j: int,
)
    requires
        scheduler.selects(head, requests, i),
        scheduler.selects(head, requests, j),
    ensures
        i == j,
{
}

/// A policy selects a position exactly when it admits some request, and the
/// position it selects is the one that `choice` names.
pub proof fn choice_is_selection(scheduler: Schedulers, head: Head, requests: Seq<Request>)
    ensures
        scheduler.choice(head, requests) matches Some(i) ==> scheduler.selects(head, requests, i),
        scheduler.choice(head, requests) is None ==> forall|j: int|
            0 <= j < requests.len() ==> !scheduler.admits(head, #[trigger] requests[j]),
        forall|i: int| #[trigger]
            scheduler.selects(head, requests, i) ==> scheduler.choice(head, requests) == Some(i),
{
    assert forall|i: int| #[trigger]
        scheduler.selects(head, requests, i) implies scheduler.choice(head, requests) == Some(
        i,
    ) by {
        let c = choose|c: int| scheduler.selects(head, requests, c);
        selection_is_unique(scheduler, head, requests, i, c);
    }
    if scheduler.choice(head, requests) is None {
        let len = requests.len() as int;
        lemma_some_admitted_is_selected(scheduler, head, requests, len);
        if exists|i: int| scheduler.selects_among(head, requests, len, i) {
            let i = choose|i: int| scheduler.selects_among(head, requests, len, i);
            assert(scheduler.selects(head, requests, i));
        }
    }
}

/// Among the first `len` requests, either none is admitted or one is selected.
proof fn lemma_some_admitted_is_selected(
    scheduler: Schedulers,
    head: Head,
    requests: Seq<Request>,
    len: int,
)
    requires
        0 <= len <= requests.len(),
    ensures
        (forall|j: int| 0 <= j < len ==> !scheduler.admits(head, #[trigger] requests[j])) || (
        exists|i: int| scheduler.selects_among(head, requests, len, i)),
    decreases len,
{
    if len > 0 {
        let last = len - 1;
        lemma_some_admitted_is_selected(scheduler, head, requests, last);
        if scheduler.admits(head, requests[last]) {
            if exists|i: int| scheduler.selects_among(head, requests, last, i) {
                let b = choose|i: int| scheduler.selects_among(head, requests, last, i);
                let rank_b = scheduler.rank(head, requests[b]);
                let rank_last = scheduler.rank(head, requests[last]);
                if rank_last < rank_b || (rank_last == rank_b && scheduler.prefers_later(head)) {
                    assert(scheduler.selects_among(head, requests, len, last));
                } else {
                    assert(scheduler.selects_among(head, requests, len, b));
                }
            } else {
                assert(scheduler.selects_among(head, requests, len, last));
            }
        } else {
            if exists|i: int| scheduler.selects_among(head, requests, last, i) {
                let b = choose|i: int| scheduler.selects_among(head, requests, last, i);
                assert(scheduler.selects_among(head, requests, len, b));
            }
        }
    }
}

/// The number of tracks between two tracks.
pub fn distance_between(from: u32, to: u32) -> (d: u32)
    ensures
        d == distance(from, to),
{
    if from <= to {
        to - from
    } else {
        from - to
    }
}

/// Whether the policy admits the request, for a head with the given
/// position, clock and sweep direction.
fn admitted(
    scheduler: Schedulers,
    request: &Request,
    current_track: u32,
    time: u32,
    scan_right: bool,
) -> (b: bool)
    ensures
        b == scheduler.admits(Head { current_track, time, scan_right }, *request),
{
    match scheduler {
        Schedulers::Scan => if scan_right {
            request.track_number >= current_track
        } else {
            request.track_number <= current_track
        },
        Schedulers::CScan => request.track_number >= current_track,
        Schedulers::FeasibleDeadlineScan => {
            let reach: u64 = time as u64 + distance_between(request.track_number, current_track) as u64;
            request.deadline_time as u64 >= reach
        },
        _ => true,
    }
}

/// The rank of the request under the policy. No policy ranks by the clock.
fn rank_of(scheduler: Schedulers, request: &Request, current_track: u32, scan_right: bool) -> (rank:
    i64)
    ensures
        forall|time: u32|
            rank == scheduler.rank(
                Head { current_track, time, scan_right },
                *request,
            ),
{
    match scheduler {
        Schedulers::FirstComeFirstServed => request.arrival_time as i64,
        Schedulers::ShortestSeekTimeFirst => distance_between(
            request.track_number,
            current_track,
        ) as i64,
        Schedulers::Scan => if scan_right {
            request.track_number as i64
        } else {
            -(request.track_number as i64)
        },
        Schedulers::CScan => request.track_number as i64,
        Schedulers::EarliestDeadlineFirst => request.deadline_time as i64,
        Schedulers::FeasibleDeadlineScan => request.deadline_time as i64,
    }
}

/// The position that the policy selects: the admitted request of least
/// rank, the first such in the list, or the last on a leftward sweep.
fn select(
    scheduler: Schedulers,
    requests: &[Request],
    current_track: u32,
    time: u32,
    scan_right: bool,
) -> (selected: Option<usize>)
    ensures
        selected matches Some(i) ==> scheduler.selects(
            Head { current_track, time, scan_right },
            requests@,
            i as int,
        ),
        selected is None ==> forall|j: int|
            0 <= j < requests@.len() ==> !scheduler.admits(
                Head { current_track, time, scan_right },
                #[trigger] requests@[j],
            ),
{
    let ghost head = Head { current_track, time, scan_right };
    let later = match scheduler {
        Schedulers::Scan => !scan_right,
        _ => false,
    };
    let mut selected: Option<usize> = None;
    let mut least: i64 = 0;
    let mut i: usize = 0;
    while i < requests.len()
        invariant
            i <= requests@.len(),
            head == (Head { current_track, time, scan_right }),
            later == scheduler.prefers_later(head),
            selected matches Some(b) ==> scheduler.selects_among(head, requests@, i as int, b as int)
                && least == scheduler.rank(head, requests@[b as int]),
            selected is None ==> forall|j: int|
                0 <= j < i ==> !scheduler.admits(head, #[trigger] requests@[j]),
        decreases requests@.len() - i,
    {
        if admitted(scheduler, &requests[i], current_track, time, scan_right) {
            let rank = rank_of(scheduler, &requests[i], current_track, scan_right);
            assert(rank == scheduler.rank(head, requests@[i as int]));
            match selected {
                None => {
                    selected = Some(i);
                    least = rank;
                },
                Some(_) => {
                    if rank < least || (later && rank == least) {
                        selected = Some(i);
                        least = rank;
                    }
                },
            }
        }
        i = i + 1;
    }
    selected
}

/// The position of the request that the policy selects from the ready list,
/// or nothing when it selects none.
pub fn next_request_index(scheduler: Schedulers, requests: &[Request], hdd: &HardDriveDisk) -> (selected:
    Option<usize>)
    ensures
        selected matches Some(i) ==> scheduler.choice(hdd@.head(), requests@) == Some(i as int),
        selected is None ==> scheduler.choice(hdd@.head(), requests@) is None,
        selected matches Some(i) ==> scheduler.selects(hdd@.head(), requests@, i as int),
{
    let selected = select(scheduler, requests, hdd.current_track, hdd.time, hdd.scan_right);
    proof {
        choice_is_selection(scheduler, hdd@.head(), requests@);
    }
    selected
}

/// The request that the policy selects from the ready list, or nothing when
/// it selects none. The list and the device are left as they are.
pub fn get_next_request(scheduler: Schedulers, requests: &[Request], hdd: &HardDriveDisk) -> (selected:
    Option<Request>)
    ensures
        selected == scheduler.chosen(hdd@.head(), requests@),
        selected is Some ==> requests@.contains(selected->0),
        selected is None <==> forall|j: int|
            0 <= j < requests@.len() ==> !scheduler.admits(hdd@.head(), #[trigger] requests@[j]),
{
    let selected = match scheduler {
        Schedulers::FirstComeFirstServed => fcfs(requests),
        Schedulers::ShortestSeekTimeFirst => sstf(requests, hdd),
        Schedulers::Scan => scan(requests, hdd),
        Schedulers::CScan => cscan(requests, hdd),
        Schedulers::EarliestDeadlineFirst => edf(requests),
        Schedulers::FeasibleDeadlineScan => fdscan(requests, hdd),
    };
    proof {
        choice_is_selection(scheduler, hdd@.head(), requests@);
        if selected is Some {
            let i = choose|i: int| scheduler.selects(hdd@.head(), requests@, i) && requests@[i] == selected->0;
            assert(requests@[i] == selected->0);
        }
    }
    selected
}

/// First come, first served: the request that arrived earliest, the first
/// such in the list.
pub fn fcfs(requests: &[Request]) -> (selected: Option<Request>)
    ensures
        selected is None <==> requests@.len() == 0,
        selected matches Some(r) ==> exists|i: int|
            {
                &&& 0 <= i < requests@.len()
                &&& #[trigger] requests@[i] == r
                &&& forall|j: int|
                    0 <= j < requests@.len() ==> r.arrival_time <= (#[trigger] requests@[j]).arrival_time
                &&& forall|j: int|
                    0 <= j < i ==> r.arrival_time < (#[trigger] requests@[j]).arrival_time
                &&& forall|head: Head|
                    Schedulers::FirstComeFirstServed.selects(head, requests@, i)
            },
{
    match select(Schedulers::FirstComeFirstServed, requests, 0, 0, true) {
        Some(i) => Some(requests[i]),
        None => {
            assert(requests@.len() == 0) by {
                if requests@.len() > 0 {
                    assert(Schedulers::FirstComeFirstServed.admits(
                        Head { current_track: 0, time: 0, scan_right: true },
                        requests@[0],
                    ));
                }
            }
            None
        },
    }
}

/// Shortest seek time first: the request nearest to the head, the first such
/// in the list.
pub fn sstf(requests: &[Request], hdd: &HardDriveDisk) -> (selected: Option<Request>)
    ensures
        selected == Schedulers::ShortestSeekTimeFirst.chosen(hdd@.head(), requests@),
        selected is None <==> requests@.len() == 0,
        selected matches Some(r) ==> requests@.contains(r) && forall|j: int|
            0 <= j < requests@.len() ==> distance(r.track_number, hdd.current_track) <= distance(
                (#[trigger] requests@[j]).track_number,
                hdd.current_track,
            ),
{
    let selected = policy(Schedulers::ShortestSeekTimeFirst, requests, hdd);
    proof {
        if requests@.len() > 0 {
            assert(Schedulers::ShortestSeekTimeFirst.admits(hdd@.head(), requests@[0]));
        }
    }
    selected
}

/// Scan: on a rightward sweep the lowest track at or right of the head, the
/// first such request in the list; on a leftward sweep the highest track at
/// or left of the head, the last such request in the list.
pub fn scan(requests: &[Request], hdd: &HardDriveDisk) -> (selected: Option<Request>)
    ensures
        selected == Schedulers::Scan.chosen(hdd@.head(), requests@),
        selected matches Some(r) ==> requests@.contains(r) && if hdd.scan_right {
            &&& r.track_number >= hdd.current_track
            &&& forall|j: int|
                0 <= j < requests@.len() && (#[trigger] requests@[j]).track_number
                    >= hdd.current_track ==> r.track_number <= requests@[j].track_number
        } else {
            &&& r.track_number <= hdd.current_track
            &&& forall|j: int|
                0 <= j < requests@.len() && (#[trigger] requests@[j]).track_number
                    <= hdd.current_track ==> r.track_number >= requests@[j].track_number
        },
        selected is None <==> forall|j: int|
            0 <= j < requests@.len() ==> !Schedulers::Scan.admits(hdd@.head(), #[trigger] requests@[j]),
{
    policy(Schedulers::Scan, requests, hdd)
}

/// Circular scan: the lowest track at or right of the head, the first such
/// request in the list.
pub fn cscan(requests: &[Request], hdd: &HardDriveDisk) -> (selected: Option<Request>)
    ensures
        selected == Schedulers::CScan.chosen(hdd@.head(), requests@),
        selected matches Some(r) ==> requests@.contains(r) && r.track_number >= hdd.current_track
            && forall|j: int|
            0 <= j < requests@.len() && (#[trigger] requests@[j]).track_number
                >= hdd.current_track ==> r.track_number <= requests@[j].track_number,
        selected is None <==> forall|j: int|
            0 <= j < requests@.len() ==> (#[trigger] requests@[j]).track_number < hdd.current_track,
{
    policy(Schedulers::CScan, requests, hdd)
}

/// Earliest deadline first: the request whose deadline comes first, the
/// first such in the list.
pub fn edf(requests: &[Request]) -> (selected: Option<Request>)
    ensures
        selected is None <==> requests@.len() == 0,
        selected matches Some(r) ==> exists|i: int|
            {
                &&& 0 <= i < requests@.len()
                &&& #[trigger] requests@[i] == r
                &&& forall|j: int|
                    0 <= j < requests@.len() ==> r.deadline_time <= (#[trigger] requests@[j]).deadline_time
                &&& forall|j: int|
                    0 <= j < i ==> r.deadline_time < (#[trigger] requests@[j]).deadline_time
                &&& forall|head: Head|
                    Schedulers::EarliestDeadlineFirst.selects(head, requests@, i)
            },
{
    match select(Schedulers::EarliestDeadlineFirst, requests, 0, 0, true) {
        Some(i) => Some(requests[i]),
        None => {
            assert(requests@.len() == 0) by {
                if requests@.len() > 0 {
                    assert(Schedulers::EarliestDeadlineFirst.admits(
                        Head { current_track: 0, time: 0, scan_right: true },
                        requests@[0],
                    ));
                }
            }
            None
        },
    }
}

/// Feasible deadline scan: among the requests that the head can still reach
/// by their deadline, the one whose deadline comes first, the first such in
/// the list.
pub fn fdscan(requests: &[Request], hdd: &HardDriveDisk) -> (selected: Option<Request>)
    ensures
        selected == Schedulers::FeasibleDeadlineScan.chosen(hdd@.head(), requests@),
        selected matches Some(r) ==> {
            &&& requests@.contains(r)
            &&& r.deadline_time >= hdd.time + distance(r.track_number, hdd.current_track)
            &&& forall|j: int|
                0 <= j < requests@.len() && (#[trigger] requests@[j]).deadline_time >= hdd.time
                    + distance(requests@[j].track_number, hdd.current_track) ==> r.deadline_time
                    <= requests@[j].deadline_time
        },
        selected is None <==> forall|j: int|
            0 <= j < requests@.len() ==> (#[trigger] requests@[j]).deadline_time < hdd.time
                + distance(requests@[j].track_number, hdd.current_track),
{
    policy(Schedulers::FeasibleDeadlineScan, requests, hdd)
}

/// The request that the policy selects.
fn policy(scheduler: Schedulers, requests: &[Request], hdd: &HardDriveDisk) -> (selected: Option<
    Request,
>)
    ensures
        selected == scheduler.chosen(hdd@.head(), requests@),
        selected matches Some(r) ==> exists|i: int|
            scheduler.selects(hdd@.head(), requests@, i) && #[trigger] requests@[i] == r,
        selected is None <==> forall|j: int|
            0 <= j < requests@.len() ==> !scheduler.admits(hdd@.head(), #[trigger] requests@[j]),
{
    match next_request_index(scheduler, requests, hdd) {
        Some(i) => Some(requests[i]),
        None => {
            proof {
                choice_is_selection(scheduler, hdd@.head(), requests@);
            }
            None
        },
    }
}

} // verus!
