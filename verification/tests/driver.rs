use disk_scheduling::error::SimulationError;
use disk_scheduling::queues::accrue;
use disk_scheduling::queues::split;
use disk_scheduling::queues::Filter;
use disk_scheduling::request::Request;
use disk_scheduling::request::RequestGenerator;
use disk_scheduling::request::RequestStatus;
use disk_scheduling::schedulers::Schedulers;
use disk_scheduling::simulation::average_waiting_time;
use disk_scheduling::simulation::simulate;
use disk_scheduling::simulation::simulate_with_rt;
use disk_scheduling::simulation::step_to_request;
use disk_scheduling::simulation::total_waiting_time;
use disk_scheduling::simulation::Simulation;
use disk_scheduling::storage_device::HardDriveDisk;

fn normal(id: u32, track: u32, arrival: u32) -> Request {
    Request::new(id, RequestStatus::Normal, track, arrival, arrival + 100)
}

fn real_time(id: u32, track: u32, arrival: u32, deadline: u32) -> Request {
    Request::new(id, RequestStatus::RealTime, track, arrival, deadline)
}

fn done(request: Request, waiting_time: u32) -> Request {
    Request { status: RequestStatus::Done, waiting_time, ..request }
}

fn dead(request: Request) -> Request {
    Request { status: RequestStatus::Dead, ..request }
}

const BEST_EFFORT: [Schedulers; 4] = [
    Schedulers::FirstComeFirstServed,
    Schedulers::ShortestSeekTimeFirst,
    Schedulers::Scan,
    Schedulers::CScan,
];

const REAL_TIME: [Schedulers; 2] =
    [Schedulers::EarliestDeadlineFirst, Schedulers::FeasibleDeadlineScan];

#[test]
fn split_parts_keep_the_order() {
    let requests = vec![normal(0, 1, 5), normal(1, 2, 2), normal(2, 3, 9), normal(3, 4, 0)];
    let (arrived, waiting) = split(&requests, Filter::ArrivedBy(4), RequestStatus::Ready);
    assert_eq!(
        arrived,
        vec![
            Request { status: RequestStatus::Ready, ..requests[1] },
            Request { status: RequestStatus::Ready, ..requests[3] },
        ]
    );
    assert_eq!(waiting, vec![requests[0], requests[2]]);
    let (due, alive) = split(&requests, Filter::DueBy(102), RequestStatus::Dead);
    assert_eq!(due.len(), 2);
    assert_eq!(due[0].id, 1);
    assert_eq!(due[1].id, 3);
    assert_eq!(alive.len(), 2);
    let (on_track, off_track) = split(&requests, Filter::OnTrack(3), RequestStatus::Done);
    assert_eq!(on_track, vec![Request { status: RequestStatus::Done, ..requests[2] }]);
    assert_eq!(off_track.len(), 3);
    let mixed = vec![normal(0, 1, 1), real_time(1, 1, 1, 2)];
    let (rt, rest) = split(&mixed, Filter::RealTime, RequestStatus::RealTime);
    assert_eq!(rt, vec![mixed[1]]);
    assert_eq!(rest, vec![mixed[0]]);
}

#[test]
fn accrue_adds_one_time_unit_to_each() {
    let mut first = normal(0, 1, 5);
    first.waiting_time = 7;
    let requests = vec![first, normal(1, 2, 2)];
    let waited = accrue(&requests);
    assert_eq!(waited.len(), 2);
    assert_eq!(waited[0], Request { waiting_time: 8, ..first });
    assert_eq!(waited[1], Request { waiting_time: 1, ..requests[1] });
    assert!(accrue(&Vec::new()).is_empty());
}

#[test]
fn step_to_request_moves_the_head_and_the_clock() {
    let mut hdd = HardDriveDisk::new(10).unwrap();
    let request = normal(0, 2, 0);
    step_to_request(Schedulers::FirstComeFirstServed, &mut hdd, &request);
    assert_eq!(hdd.current_track, 4);
    assert_eq!(hdd.time, 1);
    assert_eq!(hdd.seek_count, 1);
    assert_eq!(hdd.trace, vec![(0, 4)]);
    step_to_request(Schedulers::Scan, &mut hdd, &request);
    assert_eq!(hdd.current_track, 5);
    assert_eq!(hdd.time, 2);
    assert_eq!(hdd.trace, vec![(0, 4), (1, 5)]);
}

#[test]
fn waiting_totals_and_averages() {
    let requests = vec![done(normal(0, 1, 0), 3), done(normal(1, 1, 0), 4), done(normal(2, 1, 0), 1)];
    assert_eq!(total_waiting_time(&requests), 8);
    assert_eq!(average_waiting_time(&requests), Some(2));
    assert_eq!(total_waiting_time(&Vec::new()), 0);
    assert_eq!(average_waiting_time(&Vec::new()), None);
    let long = vec![done(normal(0, 1, 0), u32::MAX), done(normal(1, 1, 0), u32::MAX)];
    assert_eq!(total_waiting_time(&long), 2 * (u32::MAX as u128));
    assert_eq!(average_waiting_time(&long), Some(u32::MAX));
}

#[test]
fn degenerate_runs_are_refused() {
    let requests = vec![normal(0, 0, 0)];
    assert_eq!(
        simulate(Schedulers::FirstComeFirstServed, 1, requests.clone()).err(),
        Some(SimulationError::DegenerateConfiguration)
    );
    assert_eq!(
        simulate(Schedulers::FirstComeFirstServed, 0, requests.clone()).err(),
        Some(SimulationError::DegenerateConfiguration)
    );
    assert_eq!(
        simulate(Schedulers::Scan, 10, Vec::new()).err(),
        Some(SimulationError::DegenerateConfiguration)
    );
    assert_eq!(
        simulate_with_rt(Schedulers::Scan, Schedulers::EarliestDeadlineFirst, 10, Vec::new()).err(),
        Some(SimulationError::DegenerateConfiguration)
    );
    assert_eq!(
        simulate_with_rt(Schedulers::Scan, Schedulers::EarliestDeadlineFirst, 1, requests).err(),
        Some(SimulationError::DegenerateConfiguration)
    );
    assert_eq!(
        Simulation::new(Schedulers::Scan, None, 1, Vec::new()).err(),
        Some(SimulationError::DegenerateConfiguration)
    );
}

#[test]
fn invalid_requests_are_refused() {
    let off_device = vec![normal(0, 3, 0), normal(1, 10, 0)];
    assert_eq!(
        simulate(Schedulers::FirstComeFirstServed, 10, off_device).err(),
        Some(SimulationError::InvalidRequest)
    );
    let released = vec![Request { status: RequestStatus::Ready, ..normal(0, 3, 0) }];
    assert_eq!(
        simulate(Schedulers::FirstComeFirstServed, 10, released).err(),
        Some(SimulationError::InvalidRequest)
    );
    let served = vec![Request { status: RequestStatus::Done, ..normal(0, 3, 0) }];
    assert_eq!(
        simulate_with_rt(
            Schedulers::FirstComeFirstServed,
            Schedulers::EarliestDeadlineFirst,
            10,
            served
        )
        .err(),
        Some(SimulationError::InvalidRequest)
    );
    let waited = vec![Request { waiting_time: 1, ..normal(0, 3, 0) }];
    assert_eq!(
        simulate(Schedulers::FirstComeFirstServed, 10, waited).err(),
        Some(SimulationError::InvalidRequest)
    );
    let last_track = vec![normal(0, 9, 0)];
    assert!(simulate(Schedulers::FirstComeFirstServed, 10, last_track).is_ok());
}

#[test]
fn clock_overflow_is_reported() {
    let requests = vec![Request::new(0, RequestStatus::Normal, 0, u32::MAX, u32::MAX)];
    let mut simulation =
        Simulation::new(Schedulers::FirstComeFirstServed, None, 10, requests).unwrap();
    simulation.hdd.time = u32::MAX - 3;
    assert!(simulation.is_running());
    assert_eq!(simulation.run(), Err(SimulationError::ClockOverflow));
    assert_eq!(simulation.hdd.time, u32::MAX);
    assert!(!simulation.is_finished());
    assert!(!simulation.is_running());
    assert_eq!(simulation.normal_requests.len(), 1);
}

#[test]
fn a_run_ends_at_the_last_clock_value_if_it_can() {
    let requests = vec![Request::new(0, RequestStatus::Normal, 5, u32::MAX - 1, u32::MAX)];
    let mut simulation =
        Simulation::new(Schedulers::FirstComeFirstServed, None, 10, requests).unwrap();
    simulation.hdd.time = u32::MAX - 2;
    assert_eq!(simulation.run(), Ok(()));
    assert!(simulation.is_finished());
    assert_eq!(simulation.hdd.time, u32::MAX - 1);
    assert_eq!(simulation.done_requests.len(), 1);
}

#[test]
fn new_simulation_parts_the_workload_by_class() {
    let requests = vec![normal(0, 1, 0), real_time(1, 2, 0, 9), normal(2, 3, 4), real_time(3, 4, 1, 5)];
    let dual = Simulation::new(
        Schedulers::Scan,
        Some(Schedulers::EarliestDeadlineFirst),
        10,
        requests.clone(),
    )
    .unwrap();
    assert_eq!(dual.normal_requests, vec![requests[0], requests[2]]);
    assert_eq!(dual.rt_requests, vec![requests[1], requests[3]]);
    assert_eq!(dual.request_count, 4);
    assert_eq!(dual.hdd.current_track, 5);
    assert!(dual.ready_requests.is_empty());
    assert!(dual.in_service.is_none());
    assert!(dual.is_running());
    let single = Simulation::new(Schedulers::Scan, None, 10, requests.clone()).unwrap();
    assert_eq!(single.normal_requests, requests);
    assert!(single.rt_requests.is_empty());
    assert_eq!(single.scheduler, Schedulers::Scan);
    assert_eq!(single.rt_scheduler, None);
}

#[test]
fn fcfs_serves_in_order_of_arrival() {
    let a = normal(0, 2, 0);
    let b = normal(1, 8, 5);
    let simulation = simulate(Schedulers::FirstComeFirstServed, 10, vec![a, b]).unwrap();
    assert_eq!(simulation.done_requests, vec![done(a, 0), done(b, 0)]);
    assert!(simulation.dead_requests.is_empty());
    assert_eq!(simulation.hdd.time, 11);
    assert_eq!(simulation.hdd.seek_count, 9);
    assert_eq!(simulation.hdd.current_track, 8);
    assert_eq!(
        simulation.hdd.trace,
        vec![(0, 4), (1, 3), (2, 2), (5, 3), (6, 4), (7, 5), (8, 6), (9, 7), (10, 8)]
    );
    let summary = simulation.summary();
    assert_eq!(summary.seek_count, 9);
    assert_eq!(summary.time, 11);
    assert_eq!(summary.completed, 2);
    assert_eq!(summary.missed, 0);
    assert_eq!(summary.total_waiting_time, 0);
    assert_eq!(summary.average_waiting_time, Some(0));
}

#[test]
fn ready_requests_wait_while_another_is_served() {
    let a = normal(0, 2, 0);
    let b = normal(1, 8, 0);
    let simulation = simulate(Schedulers::FirstComeFirstServed, 10, vec![a, b]).unwrap();
    assert_eq!(simulation.done_requests, vec![done(a, 0), done(b, 3)]);
    assert_eq!(simulation.hdd.time, 9);
    assert_eq!(simulation.hdd.seek_count, 9);
    let summary = simulation.summary();
    assert_eq!(summary.total_waiting_time, 3);
    assert_eq!(summary.average_waiting_time, Some(1));
}

#[test]
fn sstf_serves_the_nearest_first() {
    let a = normal(0, 0, 0);
    let b = normal(1, 7, 0);
    let c = normal(2, 9, 0);
    let simulation = simulate(Schedulers::ShortestSeekTimeFirst, 10, vec![a, b, c]).unwrap();
    assert_eq!(simulation.done_requests, vec![done(b, 0), done(c, 2), done(a, 4)]);
    assert_eq!(simulation.hdd.time, 13);
    assert_eq!(simulation.hdd.seek_count, 13);
}

#[test]
fn a_request_on_the_head_track_is_served_at_once() {
    let a = normal(0, 5, 0);
    let simulation = simulate(Schedulers::ShortestSeekTimeFirst, 10, vec![a]).unwrap();
    assert_eq!(simulation.done_requests, vec![done(a, 0)]);
    assert_eq!(simulation.hdd.time, 0);
    assert_eq!(simulation.hdd.seek_count, 0);
    assert!(simulation.hdd.trace.is_empty());
}

#[test]
fn scan_sweeps_idle_until_the_request_is_in_its_direction() {
    let a = normal(0, 3, 0);
    let simulation = simulate(Schedulers::Scan, 10, vec![a]).unwrap();
    assert_eq!(simulation.done_requests, vec![done(a, 4)]);
    assert_eq!(simulation.hdd.time, 10);
    assert_eq!(simulation.hdd.seek_count, 10);
    assert_eq!(simulation.hdd.current_track, 3);
    assert!(!simulation.hdd.scan_right);
    assert_eq!(
        simulation.hdd.trace,
        vec![(0, 6), (1, 7), (2, 8), (3, 9), (4, 8), (5, 7), (6, 6), (7, 5), (8, 4), (9, 3)]
    );
}

#[test]
fn cscan_wraps_idle_until_the_request_is_ahead() {
    let a = normal(0, 3, 0);
    let simulation = simulate(Schedulers::CScan, 10, vec![a]).unwrap();
    assert_eq!(simulation.done_requests, vec![done(a, 5)]);
    assert_eq!(simulation.hdd.time, 8);
    assert_eq!(simulation.hdd.seek_count, 8);
    assert_eq!(
        simulation.hdd.trace,
        vec![(0, 6), (1, 7), (2, 8), (3, 9), (4, 0), (5, 1), (6, 2), (7, 3)]
    );
}

#[test]
fn the_head_rests_while_nothing_has_arrived() {
    let a = normal(0, 6, 4);
    let simulation = simulate(Schedulers::Scan, 10, vec![a]).unwrap();
    assert_eq!(simulation.done_requests, vec![done(a, 0)]);
    assert_eq!(simulation.hdd.time, 5);
    assert_eq!(simulation.hdd.seek_count, 1);
    assert_eq!(simulation.hdd.trace, vec![(4, 6)]);
}

#[test]
fn single_tier_treats_every_request_as_best_effort() {
    let a = real_time(0, 0, 0, 1);
    let simulation = simulate(Schedulers::FirstComeFirstServed, 10, vec![a]).unwrap();
    assert_eq!(simulation.done_requests, vec![done(a, 0)]);
    assert!(simulation.dead_requests.is_empty());
    assert_eq!(simulation.hdd.time, 5);
}

#[test]
fn a_late_real_time_request_is_still_sought_and_then_missed() {
    let r = real_time(0, 0, 0, 3);
    let simulation = simulate_with_rt(
        Schedulers::FirstComeFirstServed,
        Schedulers::EarliestDeadlineFirst,
        10,
        vec![r],
    )
    .unwrap();
    assert!(simulation.done_requests.is_empty());
    assert_eq!(simulation.dead_requests, vec![dead(r)]);
    assert_eq!(simulation.hdd.time, 5);
    assert_eq!(simulation.hdd.seek_count, 5);
    assert_eq!(simulation.hdd.current_track, 0);
    assert_eq!(simulation.hdd.trace, vec![(0, 4), (1, 3), (2, 2), (3, 1), (4, 0)]);
    let summary = simulation.summary();
    assert_eq!(summary.completed, 0);
    assert_eq!(summary.missed, 1);
    assert_eq!(summary.average_waiting_time, None);
}

#[test]
fn a_real_time_request_that_arrives_on_its_deadline_is_completed() {
    let r = real_time(0, 0, 0, 5);
    let simulation = simulate_with_rt(
        Schedulers::FirstComeFirstServed,
        Schedulers::EarliestDeadlineFirst,
        10,
        vec![r],
    )
    .unwrap();
    assert_eq!(simulation.done_requests, vec![done(r, 0)]);
    assert!(simulation.dead_requests.is_empty());
    assert_eq!(simulation.hdd.time, 5);
}

#[test]
fn an_infeasible_request_is_not_sought_and_expires() {
    let r = real_time(0, 0, 0, 3);
    let simulation = simulate_with_rt(
        Schedulers::FirstComeFirstServed,
        Schedulers::FeasibleDeadlineScan,
        10,
        vec![r],
    )
    .unwrap();
    assert!(simulation.done_requests.is_empty());
    assert_eq!(simulation.dead_requests, vec![dead(r)]);
    assert_eq!(simulation.hdd.seek_count, 0);
    assert_eq!(simulation.hdd.current_track, 5);
    assert_eq!(simulation.hdd.time, 4);
}

#[test]
fn an_unreleased_request_expires_without_becoming_ready() {
    let r = real_time(0, 0, 7, 2);
    let simulation = simulate_with_rt(
        Schedulers::FirstComeFirstServed,
        Schedulers::EarliestDeadlineFirst,
        10,
        vec![r],
    )
    .unwrap();
    assert_eq!(simulation.dead_requests, vec![dead(r)]);
    assert_eq!(simulation.hdd.seek_count, 0);
    assert_eq!(simulation.hdd.time, 3);
}

#[test]
fn real_time_work_is_served_before_best_effort_work() {
    let n = normal(0, 6, 0);
    let r = real_time(1, 9, 0, 50);
    let simulation = simulate_with_rt(
        Schedulers::ShortestSeekTimeFirst,
        Schedulers::EarliestDeadlineFirst,
        10,
        vec![n, r],
    )
    .unwrap();
    assert_eq!(simulation.done_requests, vec![done(r, 0), done(n, 4)]);
    assert_eq!(simulation.hdd.time, 7);
    assert_eq!(simulation.hdd.seek_count, 7);
}

#[test]
fn feasible_deadline_scan_completes_what_the_head_passes() {
    let r = real_time(0, 9, 0, 10);
    let n = normal(1, 7, 0);
    let simulation = simulate_with_rt(
        Schedulers::FirstComeFirstServed,
        Schedulers::FeasibleDeadlineScan,
        10,
        vec![r, n],
    )
    .unwrap();
    assert_eq!(simulation.done_requests, vec![done(n, 2), done(r, 0)]);
    assert_eq!(simulation.hdd.time, 4);
    assert_eq!(simulation.hdd.seek_count, 4);
}

#[test]
fn earliest_deadline_first_passes_without_completing() {
    let r = real_time(0, 9, 0, 10);
    let n = normal(1, 7, 0);
    let simulation = simulate_with_rt(
        Schedulers::FirstComeFirstServed,
        Schedulers::EarliestDeadlineFirst,
        10,
        vec![r, n],
    )
    .unwrap();
    assert_eq!(simulation.done_requests, vec![done(r, 0), done(n, 4)]);
    assert_eq!(simulation.hdd.time, 6);
    assert_eq!(simulation.hdd.seek_count, 6);
}

#[test]
fn real_time_requests_do_not_accrue_waiting_time() {
    let n = normal(0, 0, 0);
    let r = real_time(1, 9, 1, 100);
    let simulation = simulate_with_rt(
        Schedulers::FirstComeFirstServed,
        Schedulers::EarliestDeadlineFirst,
        10,
        vec![n, r],
    )
    .unwrap();
    assert_eq!(simulation.done_requests, vec![done(n, 0), done(r, 0)]);
    assert_eq!(simulation.hdd.time, 14);
}

#[test]
fn stepping_by_hand_gives_what_a_run_gives() {
    let requests =
        RequestGenerator::new(50, 40, 300, 150, 50).with_seed(11).generate_requests().unwrap();
    let run = simulate_with_rt(
        Schedulers::Scan,
        Schedulers::FeasibleDeadlineScan,
        50,
        requests.clone(),
    )
    .unwrap();
    let mut stepped = Simulation::new(
        Schedulers::Scan,
        Some(Schedulers::FeasibleDeadlineScan),
        50,
        requests,
    )
    .unwrap();
    let mut clock = 0;
    while stepped.is_running() {
        stepped.step();
        assert!(stepped.hdd.time >= clock);
        assert!(stepped.hdd.time <= clock + 1);
        clock = stepped.hdd.time;
    }
    assert!(stepped.is_finished());
    assert_eq!(stepped.done_requests, run.done_requests);
    assert_eq!(stepped.dead_requests, run.dead_requests);
    assert_eq!(stepped.hdd.trace, run.hdd.trace);
    assert_eq!(stepped.summary(), run.summary());
}

fn check_finished(simulation: &Simulation, requests: &[Request], tracks: u32) {
    assert!(simulation.is_finished());
    assert_eq!(simulation.done_requests.len() + simulation.dead_requests.len(), requests.len());
    assert!(simulation.normal_requests.is_empty());
    assert!(simulation.rt_requests.is_empty());
    assert!(simulation.ready_requests.is_empty());
    assert!(simulation.ready_rt_requests.is_empty());
    assert!(simulation.in_service.is_none());
    assert!(simulation.done_requests.iter().all(|r| r.status == RequestStatus::Done));
    assert!(simulation.dead_requests.iter().all(|r| r.status == RequestStatus::Dead));
    let mut ids: Vec<u32> = simulation
        .done_requests
        .iter()
        .chain(simulation.dead_requests.iter())
        .map(|r| r.id)
        .collect();
    ids.sort();
    let mut expected: Vec<u32> = requests.iter().map(|r| r.id).collect();
    expected.sort();
    assert_eq!(ids, expected);
    assert_eq!(simulation.hdd.trace.len(), simulation.hdd.seek_count as usize);
    assert!(simulation.hdd.seek_count <= simulation.hdd.time);
    assert!(simulation.hdd.current_track < tracks);
    let mut previous: Option<(u32, u32)> = None;
    for sample in &simulation.hdd.trace {
        assert!(sample.1 < tracks);
        if let Some((time, _)) = previous {
            assert!(sample.0 > time);
        }
        previous = Some(*sample);
    }
    for request in &simulation.done_requests {
        assert!(request.waiting_time <= simulation.hdd.time - request.arrival_time);
    }
}

#[test]
fn every_request_ends_completed_under_each_policy() {
    let requests = RequestGenerator::new(500, 100, 25_000, 15_000, 50).generate_requests().unwrap();
    for scheduler in BEST_EFFORT {
        let simulation = simulate(scheduler, 500, requests.clone()).unwrap();
        check_finished(&simulation, &requests, 500);
        assert_eq!(simulation.done_requests.len(), 100);
        assert!(simulation.dead_requests.is_empty());
    }
}

#[test]
fn every_request_ends_completed_or_missed_under_each_pair_of_policies() {
    let requests = RequestGenerator::new(500, 100, 25_000, 15_000, 50).generate_requests().unwrap();
    let real_time_count =
        requests.iter().filter(|r| r.status == RequestStatus::RealTime).count();
    for scheduler in BEST_EFFORT {
        for rt_scheduler in REAL_TIME {
            let simulation = simulate_with_rt(scheduler, rt_scheduler, 500, requests.clone()).unwrap();
            check_finished(&simulation, &requests, 500);
            assert!(simulation.dead_requests.len() <= real_time_count);
            for request in &simulation.dead_requests {
                assert_eq!(requests[request.id as usize].status, RequestStatus::RealTime);
            }
        }
    }
}

#[test]
fn a_crowded_small_device_is_served_completely() {
    let requests =
        RequestGenerator::new(2, 60, 5, 1, 30).with_seed(3).generate_requests().unwrap();
    for scheduler in BEST_EFFORT {
        let single = simulate(scheduler, 2, requests.clone()).unwrap();
        check_finished(&single, &requests, 2);
        for rt_scheduler in REAL_TIME {
            let dual = simulate_with_rt(scheduler, rt_scheduler, 2, requests.clone()).unwrap();
            check_finished(&dual, &requests, 2);
        }
    }
}

#[test]
fn runs_are_reproducible() {
    let requests = RequestGenerator::new(100, 50, 1_000, 200, 40).generate_requests().unwrap();
    let first =
        simulate_with_rt(Schedulers::CScan, Schedulers::EarliestDeadlineFirst, 100, requests.clone())
            .unwrap();
    let second =
        simulate_with_rt(Schedulers::CScan, Schedulers::EarliestDeadlineFirst, 100, requests)
            .unwrap();
    assert_eq!(first.done_requests, second.done_requests);
    assert_eq!(first.dead_requests, second.dead_requests);
    assert_eq!(first.hdd.trace, second.hdd.trace);
    assert_eq!(first.summary(), second.summary());
}

#[test]
fn the_default_workload_has_its_known_figures() {
    let requests = RequestGenerator::new(500, 100, 25_000, 15_000, 50).generate_requests().unwrap();
    let summary = simulate(Schedulers::FirstComeFirstServed, 500, requests.clone()).unwrap().summary();
    assert_eq!(summary.seek_count, 16_308);
    assert_eq!(summary.time, 25_265);
    assert_eq!(summary.completed, 100);
    assert_eq!(summary.missed, 0);
    assert_eq!(summary.total_waiting_time, 8_684);
    assert_eq!(summary.average_waiting_time, Some(86));
    let scan = simulate(Schedulers::Scan, 500, requests).unwrap().summary();
    assert_eq!(scan.seek_count, 19_180);
    assert_eq!(scan.time, 25_305);
    assert_eq!(scan.total_waiting_time, 19_168);
    assert_eq!(scan.average_waiting_time, Some(191));
}

#[test]
fn waiting_time_is_the_time_spent_ready() {
    let requests =
        RequestGenerator::new(40, 30, 200, 100, 40).with_seed(7).generate_requests().unwrap();
    for scheduler in BEST_EFFORT {
        for rt_scheduler in REAL_TIME {
            let mut simulation =
                Simulation::new(scheduler, Some(rt_scheduler), 40, requests.clone()).unwrap();
            let mut ticks = vec![0u32; requests.len()];
            while simulation.is_running() {
                let before = simulation.hdd.time;
                let was_ready: Vec<u32> = simulation.ready_requests.iter().map(|r| r.id).collect();
                let deciding = simulation.in_service.is_none();
                simulation.step();
                if simulation.hdd.time > before {
                    if deciding {
                        for request in &simulation.ready_requests {
                            ticks[request.id as usize] += 1;
                        }
                    } else {
                        for id in was_ready {
                            ticks[id as usize] += 1;
                        }
                    }
                }
            }
            assert!(simulation.is_finished());
            for request in simulation.done_requests.iter().chain(simulation.dead_requests.iter()) {
                assert_eq!(request.waiting_time, ticks[request.id as usize]);
            }
        }
    }
}

#[test]
fn runs_end_within_their_time_bound() {
    let tracks: u32 = 30;
    let requests =
        RequestGenerator::new(tracks, 60, 400, 50, 50).with_seed(23).generate_requests().unwrap();
    let latest = requests.iter().map(|r| r.arrival_time.max(r.deadline_time)).max().unwrap() as u64;
    let bound = latest + 2 * tracks as u64 * (requests.len() as u64 + 1);
    for scheduler in BEST_EFFORT {
        let single = simulate(scheduler, tracks, requests.clone()).unwrap();
        assert!(single.hdd.time as u64 <= bound);
        for rt_scheduler in REAL_TIME {
            let dual = simulate_with_rt(scheduler, rt_scheduler, tracks, requests.clone()).unwrap();
            assert!(dual.hdd.time as u64 <= bound);
        }
    }
    let edf = simulate(Schedulers::EarliestDeadlineFirst, tracks, requests.clone()).unwrap();
    assert!(edf.hdd.time as u64 <= bound);
    assert_eq!(edf.done_requests.len(), 60);
}

#[test]
fn a_single_request_takes_at_most_its_way() {
    for track in 0..10 {
        for scheduler in BEST_EFFORT {
            let request = normal(0, track, 0);
            let simulation = simulate(scheduler, 10, vec![request]).unwrap();
            assert_eq!(simulation.done_requests.len(), 1);
            assert_eq!(simulation.done_requests[0].id, 0);
            assert!(simulation.hdd.time <= 100 + 2 * 10 * 2);
            assert_eq!(simulation.hdd.current_track, track);
        }
    }
}
