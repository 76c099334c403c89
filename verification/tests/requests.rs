use disk_scheduling::error::SimulationError;
use disk_scheduling::request::Request;
use disk_scheduling::request::RequestGenerator;
use disk_scheduling::request::RequestStatus;
use disk_scheduling::request::DEFAULT_SEED;

#[test]
fn new_request_has_not_waited() {
    let request = Request::new(7, RequestStatus::RealTime, 12, 30, 45);
    assert_eq!(request.id, 7);
    assert_eq!(request.status, RequestStatus::RealTime);
    assert_eq!(request.track_number, 12);
    assert_eq!(request.arrival_time, 30);
    assert_eq!(request.waiting_time, 0);
    assert_eq!(request.deadline_time, 45);
}

#[test]
fn set_status_changes_only_the_status() {
    let mut request = Request::new(1, RequestStatus::Normal, 3, 4, 5);
    request.waiting_time = 9;
    request.set_status(RequestStatus::Ready);
    assert_eq!(
        request,
        Request {
            id: 1,
            status: RequestStatus::Ready,
            track_number: 3,
            arrival_time: 4,
            waiting_time: 9,
            deadline_time: 5,
        }
    );
    request.set_status(RequestStatus::Done);
    assert_eq!(request.status, RequestStatus::Done);
    assert_eq!(request.waiting_time, 9);
}

#[test]
fn generator_keeps_its_configuration() {
    let generator = RequestGenerator::new(500, 100, 25_000, 15_000, 50);
    assert_eq!(generator.number_of_tracks, 500);
    assert_eq!(generator.number_of_requests, 100);
    assert_eq!(generator.max_arrival_time, 25_000);
    assert_eq!(generator.deadline_time, 15_000);
    assert_eq!(generator.rt_percent, 50);
    assert_eq!(generator.seed, DEFAULT_SEED);
    assert_eq!(DEFAULT_SEED, 412123420);
    let reseeded = generator.with_seed(5);
    assert_eq!(reseeded.seed, 5);
    assert_eq!(reseeded.number_of_tracks, 500);
    assert_eq!(reseeded.rt_percent, 50);
}

#[test]
fn build_request_classifies_by_the_class_draw() {
    let generator = RequestGenerator::new(500, 100, 25_000, 15_000, 50);
    let real_time = generator.build_request(3, 250, 1_000, 49);
    assert_eq!(
        real_time,
        Request {
            id: 3,
            status: RequestStatus::RealTime,
            track_number: 250,
            arrival_time: 1_000,
            waiting_time: 0,
            deadline_time: 16_000,
        }
    );
    let best_effort = generator.build_request(4, 0, 24_999, 50);
    assert_eq!(best_effort.status, RequestStatus::Normal);
    assert_eq!(best_effort.deadline_time, 39_999);
    assert_eq!(best_effort.track_number, 0);
}

#[test]
fn build_request_with_extreme_shares() {
    let never = RequestGenerator::new(10, 1, 10, 5, 0);
    assert_eq!(never.build_request(0, 1, 1, 0).status, RequestStatus::Normal);
    let always = RequestGenerator::new(10, 1, 10, 5, 100);
    assert_eq!(always.build_request(0, 1, 1, 99).status, RequestStatus::RealTime);
}

#[test]
fn generation_is_deterministic() {
    let generator = RequestGenerator::new(500, 100, 25_000, 15_000, 50);
    let first = generator.generate_requests().unwrap();
    let second = generator.generate_requests().unwrap();
    assert_eq!(first, second);
    let copy = RequestGenerator::new(500, 100, 25_000, 15_000, 50).with_seed(DEFAULT_SEED);
    assert_eq!(copy.generate_requests().unwrap(), first);
}

#[test]
fn generation_depends_on_the_seed() {
    let generator = RequestGenerator::new(500, 100, 25_000, 15_000, 50);
    let first = generator.generate_requests().unwrap();
    let other = generator.with_seed(1).generate_requests().unwrap();
    assert_ne!(first, other);
    assert_eq!(other, generator.with_seed(1).generate_requests().unwrap());
}

#[test]
fn generated_requests_are_well_formed() {
    let generator = RequestGenerator::new(500, 100, 25_000, 15_000, 50);
    let requests = generator.generate_requests().unwrap();
    assert_eq!(requests.len(), 100);
    let mut real_time = 0;
    for (k, request) in requests.iter().enumerate() {
        assert_eq!(request.id as usize, k);
        assert!(request.track_number < 500);
        assert!(request.arrival_time < 25_000);
        assert_eq!(request.waiting_time, 0);
        assert_eq!(request.deadline_time, request.arrival_time + 15_000);
        assert!(matches!(request.status, RequestStatus::Normal | RequestStatus::RealTime));
        if request.status == RequestStatus::RealTime {
            real_time += 1;
        }
    }
    assert!(real_time > 0);
    assert!(real_time < 100);
}

#[test]
fn generated_requests_vary() {
    let requests = RequestGenerator::new(500, 100, 25_000, 15_000, 50).generate_requests().unwrap();
    let first = requests[0];
    assert!(requests.iter().any(|r| r.track_number != first.track_number));
    assert!(requests.iter().any(|r| r.arrival_time != first.arrival_time));
}

#[test]
fn generated_tracks_stay_on_a_small_device() {
    let requests = RequestGenerator::new(2, 200, 1, 0, 50).generate_requests().unwrap();
    assert_eq!(requests.len(), 200);
    for request in &requests {
        assert!(request.track_number < 2);
        assert_eq!(request.arrival_time, 0);
        assert_eq!(request.deadline_time, 0);
    }
    assert!(requests.iter().any(|r| r.track_number == 0));
    assert!(requests.iter().any(|r| r.track_number == 1));
}

#[test]
fn share_of_zero_generates_no_real_time_request() {
    let requests = RequestGenerator::new(50, 100, 100, 10, 0).generate_requests().unwrap();
    assert!(requests.iter().all(|r| r.status == RequestStatus::Normal));
}

#[test]
fn share_of_one_hundred_generates_only_real_time_requests() {
    let requests = RequestGenerator::new(50, 100, 100, 10, 100).generate_requests().unwrap();
    assert!(requests.iter().all(|r| r.status == RequestStatus::RealTime));
}

#[test]
fn degenerate_configurations_are_refused() {
    let too_few_tracks = RequestGenerator::new(1, 100, 25_000, 15_000, 50);
    assert_eq!(too_few_tracks.generate_requests(), Err(SimulationError::DegenerateConfiguration));
    let no_tracks = RequestGenerator::new(0, 100, 25_000, 15_000, 50);
    assert_eq!(no_tracks.generate_requests(), Err(SimulationError::DegenerateConfiguration));
    let no_requests = RequestGenerator::new(500, 0, 25_000, 15_000, 50);
    assert_eq!(no_requests.generate_requests(), Err(SimulationError::DegenerateConfiguration));
    let both = RequestGenerator::new(1, 0, 0, 15_000, 50);
    assert_eq!(both.generate_requests(), Err(SimulationError::DegenerateConfiguration));
}

#[test]
fn configurations_that_do_not_fit_are_refused() {
    let empty_window = RequestGenerator::new(500, 100, 0, 15_000, 50);
    assert_eq!(empty_window.generate_requests(), Err(SimulationError::InvalidConfiguration));
    let late = RequestGenerator::new(500, 100, 2, u32::MAX, 50);
    assert_eq!(late.generate_requests(), Err(SimulationError::InvalidConfiguration));
    let just_fits = RequestGenerator::new(500, 3, 2, u32::MAX - 1, 50);
    let requests = just_fits.generate_requests().unwrap();
    assert_eq!(requests.len(), 3);
    for request in &requests {
        assert_eq!(request.deadline_time as u64, request.arrival_time as u64 + u32::MAX as u64 - 1);
    }
}

#[test]
fn default_seed_gives_the_known_workload() {
    let requests = RequestGenerator::new(500, 100, 25_000, 15_000, 50).generate_requests().unwrap();
    assert_eq!(requests[0], Request::new(0, RequestStatus::Normal, 470, 2_709, 17_709));
    assert_eq!(requests[1], Request::new(1, RequestStatus::RealTime, 441, 20_355, 35_355));
    assert_eq!(requests[2], Request::new(2, RequestStatus::RealTime, 151, 24_817, 39_817));
    let real_time = requests.iter().filter(|r| r.status == RequestStatus::RealTime).count();
    assert_eq!(real_time, 41);
}

#[test]
fn another_seed_gives_another_known_workload() {
    let requests = RequestGenerator::new(500, 100, 25_000, 15_000, 50)
        .with_seed(1)
        .generate_requests()
        .unwrap();
    assert_eq!(requests[0], Request::new(0, RequestStatus::Normal, 412, 24_356, 39_356));
    assert_eq!(requests[1], Request::new(1, RequestStatus::RealTime, 345, 4_910, 19_910));
}
