use disk_scheduling::error::SimulationError;
use disk_scheduling::schedulers::Schedulers;
use disk_scheduling::storage_device::HardDriveDisk;

#[test]
fn new_device_has_its_head_in_the_middle() {
    let hdd = HardDriveDisk::new(500).unwrap();
    assert_eq!(hdd.number_of_tracks, 500);
    assert_eq!(hdd.current_track, 250);
    assert_eq!(hdd.seek_count, 0);
    assert_eq!(hdd.time, 0);
    assert!(hdd.scan_right);
    assert!(hdd.trace.is_empty());
    assert_eq!(HardDriveDisk::new(3).unwrap().current_track, 1);
    assert!(HardDriveDisk::new(3).unwrap().scan_right);
}

#[test]
fn device_of_two_tracks_starts_on_the_last_track_sweeping_leftward() {
    let hdd = HardDriveDisk::new(2).unwrap();
    assert_eq!(hdd.current_track, 1);
    assert!(!hdd.scan_right);
}

#[test]
fn too_small_a_device_is_refused() {
    assert_eq!(HardDriveDisk::new(0).err(), Some(SimulationError::DegenerateConfiguration));
    assert_eq!(HardDriveDisk::new(1).err(), Some(SimulationError::DegenerateConfiguration));
    assert!(HardDriveDisk::new(2).is_ok());
}

#[test]
fn greedy_move_steps_toward_the_target() {
    let mut hdd = HardDriveDisk::new(10).unwrap();
    hdd.move_head(8, Schedulers::FirstComeFirstServed);
    assert_eq!(hdd.current_track, 6);
    assert_eq!(hdd.seek_count, 1);
    assert_eq!(hdd.time, 1);
    assert_eq!(hdd.trace, vec![(0, 6)]);
    hdd.move_head(0, Schedulers::ShortestSeekTimeFirst);
    hdd.move_head(0, Schedulers::EarliestDeadlineFirst);
    hdd.move_head(0, Schedulers::FeasibleDeadlineScan);
    assert_eq!(hdd.current_track, 3);
    assert_eq!(hdd.seek_count, 4);
    assert_eq!(hdd.time, 4);
    assert_eq!(hdd.trace, vec![(0, 6), (1, 5), (2, 4), (3, 3)]);
    assert!(hdd.scan_right);
}

#[test]
fn greedy_move_stays_on_the_target() {
    let mut hdd = HardDriveDisk::new(10).unwrap();
    hdd.move_head(5, Schedulers::FirstComeFirstServed);
    assert_eq!(hdd.current_track, 5);
    assert_eq!(hdd.seek_count, 1);
    assert_eq!(hdd.time, 1);
    assert_eq!(hdd.trace, vec![(0, 5)]);
}

#[test]
fn scan_turns_on_the_last_and_on_the_first_track() {
    let mut hdd = HardDriveDisk::new(4).unwrap();
    assert_eq!(hdd.current_track, 2);
    let mut seen = Vec::new();
    for _ in 0..8 {
        hdd.move_head(0, Schedulers::Scan);
        seen.push((hdd.current_track, hdd.scan_right));
    }
    assert_eq!(
        seen,
        vec![
            (3, false),
            (2, false),
            (1, false),
            (0, true),
            (1, true),
            (2, true),
            (3, false),
            (2, false),
        ]
    );
    assert_eq!(hdd.seek_count, 8);
}

#[test]
fn scan_is_monotonic_between_turns() {
    let mut hdd = HardDriveDisk::new(50).unwrap();
    let mut previous = hdd.current_track;
    let mut direction = hdd.scan_right;
    for _ in 0..300 {
        hdd.move_head(7, Schedulers::Scan);
        assert!(hdd.current_track < 50);
        if hdd.scan_right == direction {
            if direction {
                assert_eq!(hdd.current_track, previous + 1);
            } else {
                assert_eq!(hdd.current_track + 1, previous);
            }
        }
        previous = hdd.current_track;
        direction = hdd.scan_right;
    }
}

#[test]
fn scan_turns_before_it_would_leave_the_device() {
    let mut hdd = HardDriveDisk::new(10).unwrap();
    hdd.current_track = 9;
    hdd.scan_right = true;
    hdd.move_head(0, Schedulers::Scan);
    assert_eq!(hdd.current_track, 8);
    assert!(!hdd.scan_right);
    hdd.current_track = 0;
    hdd.scan_right = false;
    hdd.move_head(0, Schedulers::Scan);
    assert_eq!(hdd.current_track, 1);
    assert!(hdd.scan_right);
}

#[test]
fn scan_on_two_tracks_alternates() {
    let mut hdd = HardDriveDisk::new(2).unwrap();
    let mut seen = Vec::new();
    for _ in 0..4 {
        hdd.move_head(0, Schedulers::Scan);
        seen.push((hdd.current_track, hdd.scan_right));
    }
    assert_eq!(seen, vec![(0, true), (1, false), (0, true), (1, false)]);
}

#[test]
fn cscan_wraps_from_the_last_track_to_the_first() {
    let mut hdd = HardDriveDisk::new(4).unwrap();
    let mut seen = Vec::new();
    for _ in 0..6 {
        hdd.move_head(1, Schedulers::CScan);
        seen.push(hdd.current_track);
    }
    assert_eq!(seen, vec![3, 0, 1, 2, 3, 0]);
    assert!(hdd.scan_right);
    assert_eq!(hdd.seek_count, 6);
    assert_eq!(hdd.trace.len(), 6);
}

#[test]
fn cscan_never_steps_back_but_for_the_wrap() {
    let mut hdd = HardDriveDisk::new(17).unwrap();
    let mut previous = hdd.current_track;
    let mut wraps = 0;
    for _ in 0..17 {
        hdd.move_head(0, Schedulers::CScan);
        if hdd.current_track < previous {
            assert_eq!(previous, 16);
            assert_eq!(hdd.current_track, 0);
            wraps += 1;
        } else {
            assert_eq!(hdd.current_track, previous + 1);
        }
        previous = hdd.current_track;
    }
    assert_eq!(wraps, 1);
}

#[test]
fn samples_carry_the_clock_of_the_move() {
    let mut hdd = HardDriveDisk::new(10).unwrap();
    hdd.time = 41;
    hdd.move_head(9, Schedulers::FirstComeFirstServed);
    hdd.time = 42;
    hdd.move_head(9, Schedulers::FirstComeFirstServed);
    assert_eq!(hdd.trace, vec![(41, 6), (42, 7)]);
    for sample in &hdd.trace {
        assert!(sample.1 < hdd.number_of_tracks);
    }
}

#[test]
fn write_to_file_appends_the_current_sample() {
    let mut hdd = HardDriveDisk::new(10).unwrap();
    hdd.time = 3;
    hdd.write_to_file();
    assert_eq!(hdd.trace, vec![(3, 5)]);
    assert_eq!(hdd.seek_count, 0);
    assert_eq!(hdd.time, 3);
    assert_eq!(hdd.current_track, 5);
}
