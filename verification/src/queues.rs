//! Lists of requests, and the order-preserving operations by which requests
//! move from one list to another.

use crate::request::Request;
use crate::request::RequestStatus;
use vstd::prelude::*;

verus! {

/// A test by which a list of requests is split in two.
#[derive(Clone, Copy, Debug, PartialEq, Eq, Structural)]
pub enum Filter {
    /// The request has arrived by the given time.
    ArrivedBy(u32),
    /// The deadline of the request is not later than the given time.
    DueBy(u32),
    /// The request asks for the given track.
    OnTrack(u32),
    /// The request is real-time and not yet released.
    RealTime,
}

impl Filter {
    /// Whether the request passes the test.
    pub open spec fn holds(self, request: Request) -> bool {
        match self {
            Filter::ArrivedBy(time) => request.arrival_time <= time,
            Filter::DueBy(time) => request.deadline_time <= time,
            Filter::OnTrack(track) => request.track_number == track,
            Filter::RealTime => request.status == RequestStatus::RealTime,
        }
    }

    /// Whether the request passes the test.
    pub fn test(&self, request: &Request) -> (b: bool)
        ensures
            b == self.holds(*request),
    {
        match self {
            Filter::ArrivedBy(time) => request.arrival_time <= *time,
            Filter::DueBy(time) => request.deadline_time <= *time,
            Filter::OnTrack(track) => request.track_number == *track,
            Filter::RealTime => match request.status {
                RequestStatus::RealTime => true,
                _ => false,
            },
        }
    }
}

/// The requests that pass the test, in their order.
pub open spec fn matching(requests: Seq<Request>, filter: Filter) -> Seq<Request> {
    requests.filter(|r: Request| filter.holds(r))
}

/// The requests that fail the test, in their order.
pub open spec fn remaining(requests: Seq<Request>, filter: Filter) -> Seq<Request> {
    requests.filter(|r: Request| !filter.holds(r))
}

/// The same requests, each with the given status.
pub open spec fn marked(requests: Seq<Request>, status: RequestStatus) -> Seq<Request> {
    requests.map_values(|r: Request| r.with_status(status))
}

/// The same requests, each after one more time unit of waiting.
pub open spec fn waited(requests: Seq<Request>) -> Seq<Request> {
    requests.map_values(|r: Request| r.waited(1))
}

/// Every request asks for a track of a device with `number_of_tracks`
/// tracks, and none has waited longer than `time`.
pub open spec fn bounded(requests: Seq<Request>, number_of_tracks: u32, time: u32) -> bool {
    forall|i: int|
        0 <= i < requests.len() ==> (#[trigger] requests[i]).track_number < number_of_tracks
            && requests[i].waiting_time <= time
}

/// Every request has the given status.
pub open spec fn all_marked(requests: Seq<Request>, status: RequestStatus) -> bool {
    forall|i: int| 0 <= i < requests.len() ==> (#[trigger] requests[i]).status == status
}

/// An empty list splits into empty parts.
pub proof fn lemma_split_empty(filter: Filter)
    ensures
        matching(Seq::empty(), filter) == Seq::<Request>::empty(),
        remaining(Seq::empty(), filter) == Seq::<Request>::empty(),
{
    reveal(Seq::filter);
}

/// Splitting a list one request further.
pub proof fn lemma_split_push(requests: Seq<Request>, request: Request, filter: Filter)
    ensures
        matching(requests.push(request), filter) == if filter.holds(request) {
            matching(requests, filter).push(request)
        } else {
            matching(requests, filter)
        },
        remaining(requests.push(request), filter) == if filter.holds(request) {
            remaining(requests, filter)
        } else {
            remaining(requests, filter).push(request)
        },
{
    reveal(Seq::filter);
    assert(requests.push(request).drop_last() =~= requests);
}

/// A split loses no request and makes none: the two parts together are as
/// long as the list, and every request of a part is a request of the list
/// that passes, or fails, the test.
pub proof fn lemma_split(requests: Seq<Request>, filter: Filter)
    ensures
        matching(requests, filter).len() + remaining(requests, filter).len() == requests.len(),
        forall|i: int|
            0 <= i < matching(requests, filter).len() ==> requests.contains(
                #[trigger] matching(requests, filter)[i],
            ) && filter.holds(matching(requests, filter)[i]),
        forall|i: int|
            0 <= i < remaining(requests, filter).len() ==> requests.contains(
                #[trigger] remaining(requests, filter)[i],
            ) && !filter.holds(remaining(requests, filter)[i]),
    decreases requests.len(),
{
    if requests.len() == 0 {
        reveal(Seq::filter);
    } else {
        let front = requests.drop_last();
        let last = requests.last();
        lemma_split(front, filter);
        lemma_split_push(front, last, filter);
        assert(front.push(last) =~= requests);
        assert forall|i: int| 0 <= i < matching(requests, filter).len() implies requests.contains(
            #[trigger] matching(requests, filter)[i],
        ) && filter.holds(matching(requests, filter)[i]) by {
            if i < matching(front, filter).len() {
                let j = choose|j: int| 0 <= j < front.len() && front[j] == matching(front, filter)[i];
                assert(requests[j] == matching(requests, filter)[i]);
            } else {
                assert(requests[requests.len() - 1] == matching(requests, filter)[i]);
            }
        }
        assert forall|i: int| 0 <= i < remaining(requests, filter).len() implies requests.contains(
            #[trigger] remaining(requests, filter)[i],
        ) && !filter.holds(remaining(requests, filter)[i]) by {
            if i < remaining(front, filter).len() {
                let j = choose|j: int| 0 <= j < front.len() && front[j] == remaining(front, filter)[i];
                assert(requests[j] == remaining(requests, filter)[i]);
            } else {
                assert(requests[requests.len() - 1] == remaining(requests, filter)[i]);
            }
        }
    }
}

/// A split keeps the bounds of the list.
pub proof fn lemma_split_bounded(
    requests: Seq<Request>,
    filter: Filter,
    number_of_tracks: u32,
    time: u32,
)
    requires
        bounded(requests, number_of_tracks, time),
    ensures
        bounded(matching(requests, filter), number_of_tracks, time),
        bounded(remaining(requests, filter), number_of_tracks, time),
{
    lemma_split(requests, filter);
}

/// A new status changes no bound.
pub proof fn lemma_marked_bounded(
    requests: Seq<Request>,
    status: RequestStatus,
    number_of_tracks: u32,
    time: u32,
)
    requires
        bounded(requests, number_of_tracks, time),
    ensures
        bounded(marked(requests, status), number_of_tracks, time),
        marked(requests, status).len() == requests.len(),
        all_marked(marked(requests, status), status),
{
    assert forall|i: int| 0 <= i < marked(requests, status).len() implies (#[trigger] marked(
        requests,
        status,
    )[i]).track_number < number_of_tracks && marked(requests, status)[i].waiting_time <= time by {
        assert(marked(requests, status)[i] == requests[i].with_status(status));
    }
}

/// Two bounded lists make a bounded list.
pub proof fn lemma_concat_bounded(
    first: Seq<Request>,
    second: Seq<Request>,
    number_of_tracks: u32,
    time: u32,
)
    requires
        bounded(first, number_of_tracks, time),
        bounded(second, number_of_tracks, time),
    ensures
        bounded(first + second, number_of_tracks, time),
{
    assert forall|i: int| 0 <= i < (first + second).len() implies (#[trigger] (first + second)[i]).track_number
        < number_of_tracks && (first + second)[i].waiting_time <= time by {
        if i < first.len() {
            assert((first + second)[i] == first[i]);
        } else {
            assert((first + second)[i] == second[i - first.len()]);
        }
    }
}

/// One more time unit of waiting is within bounds one time unit later.
pub proof fn lemma_waited_bounded(requests: Seq<Request>, number_of_tracks: u32, time: u32)
    requires
        bounded(requests, number_of_tracks, time),
        time < u32::MAX,
    ensures
        bounded(waited(requests), number_of_tracks, (time + 1) as u32),
        waited(requests).len() == requests.len(),
{
    assert forall|i: int| 0 <= i < waited(requests).len() implies (#[trigger] waited(
        requests,
    )[i]).track_number < number_of_tracks && waited(requests)[i].waiting_time <= (time + 1) as u32 by {
        assert(waited(requests)[i] == requests[i].waited(1));
    }
}

/// Removing a request keeps the bounds.
pub proof fn lemma_remove_bounded(requests: Seq<Request>, i: int, number_of_tracks: u32, time: u32)
    requires
        bounded(requests, number_of_tracks, time),
        0 <= i < requests.len(),
    ensures
        bounded(requests.remove(i), number_of_tracks, time),
        requests.remove(i).len() == requests.len() - 1,
{
    assert forall|j: int| 0 <= j < requests.remove(i).len() implies (#[trigger] requests.remove(
        i,
    )[j]).track_number < number_of_tracks && requests.remove(i)[j].waiting_time <= time by {
        if j < i {
            assert(requests.remove(i)[j] == requests[j]);
        } else {
            assert(requests.remove(i)[j] == requests[j + 1]);
        }
    }
}

/// Splits a list by a test. The requests that pass come first in the result,
/// each with the given status; those that fail come second, unchanged. Both
/// parts keep the order of the list.
pub fn split(requests: &Vec<Request>, filter: Filter, status: RequestStatus) -> (parts: (
    Vec<Request>,
    Vec<Request>,
))
    ensures
        parts.0@ == marked(matching(requests@, filter), status),
        parts.1@ == remaining(requests@, filter),
{
    let mut taken: Vec<Request> = Vec::new();
    let mut left: Vec<Request> = Vec::new();
    let mut i: usize = 0;
    proof {
        reveal(Seq::filter);
        assert(requests@.take(0) =~= Seq::<Request>::empty());
        assert(marked(matching(requests@.take(0), filter), status) =~= Seq::<Request>::empty());
    }
    while i < requests.len()
        invariant
            i <= requests@.len(),
            taken@ == marked(matching(requests@.take(i as int), filter), status),
            left@ == remaining(requests@.take(i as int), filter),
        decreases requests@.len() - i,
    {
        let request = requests[i];
        proof {
            assert(requests@.take(i + 1) =~= requests@.take(i as int).push(request));
            lemma_split_push(requests@.take(i as int), request, filter);
        }
        if filter.test(&request) {
            let mut moved = request;
            moved.set_status(status);
            taken.push(moved);
            assert(taken@ =~= marked(matching(requests@.take(i + 1), filter), status));
        } else {
            left.push(request);
        }
        i = i + 1;
    }
    proof {
        assert(requests@.take(i as int) =~= requests@);
    }
    (taken, left)
}

/// Lets every request of the list wait one more time unit.
pub fn accrue(requests: &Vec<Request>) -> (result: Vec<Request>)
    requires
        forall|i: int| 0 <= i < requests@.len() ==> (#[trigger] requests@[i]).waiting_time < u32::MAX,
    ensures
        result@ == waited(requests@),
{
    let mut result: Vec<Request> = Vec::new();
    let mut i: usize = 0;
    while i < requests.len()
        invariant
            i <= requests@.len(),
            forall|i: int|
                0 <= i < requests@.len() ==> (#[trigger] requests@[i]).waiting_time < u32::MAX,
            result@ == waited(requests@.take(i as int)),
        decreases requests@.len() - i,
    {
        let mut request = requests[i];
        request.waiting_time = request.waiting_time + 1;
        result.push(request);
        assert(result@ =~= waited(requests@.take(i + 1)));
        i = i + 1;
    }
    proof {
        assert(requests@.take(i as int) =~= requests@);
    }
    result
}

/// Giving a list the status that its requests have changes nothing.
pub proof fn lemma_marked_same(requests: Seq<Request>, status: RequestStatus)
    requires
        all_marked(requests, status),
    ensures
        marked(requests, status) == requests,
{
    assert(marked(requests, status) =~= requests);
}

/// A split keeps the status that every request of the list has.
pub proof fn lemma_split_marked(requests: Seq<Request>, filter: Filter, status: RequestStatus)
    requires
        all_marked(requests, status),
    ensures
        all_marked(matching(requests, filter), status),
        all_marked(remaining(requests, filter), status),
{
    lemma_split(requests, filter);
}

/// Waiting changes no status.
pub proof fn lemma_waited_marked(requests: Seq<Request>, status: RequestStatus)
    requires
        all_marked(requests, status),
    ensures
        all_marked(waited(requests), status),
{
    assert forall|i: int| 0 <= i < waited(requests).len() implies (#[trigger] waited(
        requests,
    )[i]).status == status by {
        assert(waited(requests)[i] == requests[i].waited(1));
    }
}

/// Two lists of one status make a list of that status.
pub proof fn lemma_concat_marked(first: Seq<Request>, second: Seq<Request>, status: RequestStatus)
    requires
        all_marked(first, status),
        all_marked(second, status),
    ensures
        all_marked(first + second, status),
{
    assert forall|i: int| 0 <= i < (first + second).len() implies (#[trigger] (first
        + second)[i]).status == status by {
        if i < first.len() {
            assert((first + second)[i] == first[i]);
        } else {
            assert((first + second)[i] == second[i - first.len()]);
        }
    }
}

/// Removing a request keeps the status of the others.
pub proof fn lemma_remove_marked(requests: Seq<Request>, i: int, status: RequestStatus)
    requires
        all_marked(requests, status),
        0 <= i < requests.len(),
    ensures
        all_marked(requests.remove(i), status),
{
    assert forall|j: int| 0 <= j < requests.remove(i).len() implies (#[trigger] requests.remove(
        i,
    )[j]).status == status by {
        if j < i {
            assert(requests.remove(i)[j] == requests[j]);
        } else {
            assert(requests.remove(i)[j] == requests[j + 1]);
        }
    }
}

/// How many requests of the list carry the identifier.
pub open spec fn count_of(requests: Seq<Request>, id: u32) -> nat
    decreases requests.len(),
{
    if requests.len() == 0 {
        0
    } else {
        count_of(requests.drop_last(), id) + if requests.last().id == id {
            1nat
        } else {
            0nat
        }
    }
}

/// The waiting time that the requests of the list with the identifier have
/// accrued together.
pub open spec fn waiting_of(requests: Seq<Request>, id: u32) -> nat
    decreases requests.len(),
{
    if requests.len() == 0 {
        0
    } else {
        waiting_of(requests.drop_last(), id) + if requests.last().id == id {
            requests.last().waiting_time as nat
        } else {
            0nat
        }
    }
}

/// One more request counts for its own identifier, with its own waiting time.
pub proof fn lemma_tally_push(requests: Seq<Request>, request: Request, id: u32)
    ensures
        count_of(requests.push(request), id) == count_of(requests, id) + if request.id == id {
            1nat
        } else {
            0nat
        },
        waiting_of(requests.push(request), id) == waiting_of(requests, id) + if request.id == id {
            request.waiting_time as nat
        } else {
            0nat
        },
{
    assert(requests.push(request).drop_last() =~= requests);
}

/// Two lists one after the other count what they count apart.
pub proof fn lemma_tally_concat(first: Seq<Request>, second: Seq<Request>, id: u32)
    ensures
        count_of(first + second, id) == count_of(first, id) + count_of(second, id),
        waiting_of(first + second, id) == waiting_of(first, id) + waiting_of(second, id),
    decreases second.len(),
{
    if second.len() == 0 {
        assert(first + second =~= first);
    } else {
        lemma_tally_concat(first, second.drop_last(), id);
        assert((first + second).drop_last() =~= first + second.drop_last());
    }
}

/// The two parts of a split count what the list counts.
pub proof fn lemma_tally_split(requests: Seq<Request>, filter: Filter, id: u32)
    ensures
        count_of(matching(requests, filter), id) + count_of(remaining(requests, filter), id)
            == count_of(requests, id),
        waiting_of(matching(requests, filter), id) + waiting_of(remaining(requests, filter), id)
            == waiting_of(requests, id),
    decreases requests.len(),
{
    if requests.len() == 0 {
        lemma_split_empty(filter);
        assert(requests =~= Seq::<Request>::empty());
    } else {
        let front = requests.drop_last();
        let last = requests.last();
        lemma_tally_split(front, filter, id);
        lemma_split_push(front, last, filter);
        assert(front.push(last) =~= requests);
        lemma_tally_push(matching(front, filter), last, id);
        lemma_tally_push(remaining(front, filter), last, id);
    }
}

/// A new status changes neither the identifier nor the waiting time.
pub proof fn lemma_tally_marked(requests: Seq<Request>, status: RequestStatus, id: u32)
    ensures
        count_of(marked(requests, status), id) == count_of(requests, id),
        waiting_of(marked(requests, status), id) == waiting_of(requests, id),
    decreases requests.len(),
{
    if requests.len() > 0 {
        lemma_tally_marked(requests.drop_last(), status, id);
        assert(marked(requests, status).drop_last() =~= marked(requests.drop_last(), status));
    }
}

/// One more time unit of waiting adds one to the waiting time of each
/// request.
pub proof fn lemma_tally_waited(requests: Seq<Request>, id: u32)
    requires
        forall|i: int| 0 <= i < requests.len() ==> (#[trigger] requests[i]).waiting_time < u32::MAX,
    ensures
        count_of(waited(requests), id) == count_of(requests, id),
        waiting_of(waited(requests), id) == waiting_of(requests, id) + count_of(requests, id),
    decreases requests.len(),
{
    if requests.len() > 0 {
        let front = requests.drop_last();
        assert forall|i: int| 0 <= i < front.len() implies (#[trigger] front[i]).waiting_time
            < u32::MAX by {
            assert(front[i] == requests[i]);
        }
        lemma_tally_waited(front, id);
        assert(waited(requests).drop_last() =~= waited(front));
        assert(requests[requests.len() - 1].waiting_time < u32::MAX);
    }
}

/// A list counts what it counts without one of its requests, and that
/// request.
pub proof fn lemma_tally_remove(requests: Seq<Request>, i: int, id: u32)
    requires
        0 <= i < requests.len(),
    ensures
        count_of(requests, id) == count_of(requests.remove(i), id) + if requests[i].id == id {
            1nat
        } else {
            0nat
        },
        waiting_of(requests, id) == waiting_of(requests.remove(i), id) + if requests[i].id == id {
            requests[i].waiting_time as nat
        } else {
            0nat
        },
{
    let before = requests.subrange(0, i);
    let after = requests.subrange(i + 1, requests.len() as int);
    assert(requests =~= before.push(requests[i]) + after);
    lemma_tally_concat(before.push(requests[i]), after, id);
    lemma_tally_push(before, requests[i], id);
    lemma_tally_concat(before, after, id);
}

/// A list that holds a request counts it; if it counts no other of that
/// identifier, the waiting time it tallies is that of the request.
pub proof fn lemma_tally_of_member(requests: Seq<Request>, request: Request)
    requires
        requests.contains(request),
    ensures
        count_of(requests, request.id) >= 1,
        count_of(requests, request.id) == 1 ==> waiting_of(requests, request.id)
            == request.waiting_time,
{
    let i = choose|i: int| 0 <= i < requests.len() && requests[i] == request;
    lemma_tally_remove(requests, i, request.id);
    lemma_tally_of_none(requests.remove(i), request.id);
}

/// A list that counts no request of an identifier tallies no waiting time
/// for it.
pub proof fn lemma_tally_of_none(requests: Seq<Request>, id: u32)
    ensures
        count_of(requests, id) == 0 ==> waiting_of(requests, id) == 0,
    decreases requests.len(),
{
    if requests.len() > 0 {
        lemma_tally_of_none(requests.drop_last(), id);
    }
}

} // verus!
