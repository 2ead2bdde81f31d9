use luau_sifter::driver::{Action, Event, ParallelDriver, Phase, DEFAULT_WORKERS, HEADROOM};

fn run(regions: usize, workers: Option<u64>, burst_over: impl Fn(usize) -> bool) -> (Vec<usize>, usize) {
    let mut d = ParallelDriver::new(regions, workers);
    let mut spawned = Vec::new();
    let mut peak = 0usize;
    let mut running = 0usize;
    let mut steps = 0usize;
    let mut action = d.begin();
    loop {
        steps += 1;
        assert!(steps < 10_000);
        match action {
            Action::Spawn(i) => {
                spawned.push(i);
                running += 1;
                peak = peak.max(running);
                assert_eq!(d.in_flight, running);
                action = d.step(Event::Spawned);
            }
            Action::Join { .. } => {
                assert!(running > 0);
                running -= 1;
                action = d.step(Event::Joined { burst_over: burst_over(steps) });
                let about_to_start = if matches!(action, Action::Spawn(_)) { 1 } else { 0 };
                assert_eq!(d.in_flight, running + about_to_start);
            }
            Action::Finish => break,
        }
    }
    assert_eq!(running, 0);
    assert_eq!(d.phase, Phase::Done);
    assert_eq!(d.next, regions);
    (spawned, peak)
}

#[test]
fn no_region_finishes_at_once() {
    let mut d = ParallelDriver::new(0, None);
    assert_eq!(d.max_workers as u64, DEFAULT_WORKERS);
    assert_eq!(d.begin(), Action::Finish);
    assert_eq!(d.phase, Phase::Done);
    assert_eq!(d.in_flight, 0);
    let (spawned, peak) = run(0, Some(3), |_| true);
    assert!(spawned.is_empty());
    assert_eq!(peak, 0);
}

#[test]
fn regions_are_handed_out_in_order_each_once() {
    for workers in [1u64, 2, 3, 10, 30] {
        for regions in [1usize, 2, 5, 17, 64] {
            let (spawned, peak) = run(regions, Some(workers), |s| s % 3 == 0);
            assert_eq!(spawned, (0..regions).collect::<Vec<_>>());
            assert!(peak as u64 <= workers);
            let (spawned, peak) = run(regions, Some(workers), |_| false);
            assert_eq!(spawned, (0..regions).collect::<Vec<_>>());
            assert!(peak as u64 <= workers);
        }
    }
}

#[test]
fn a_limit_of_zero_lets_one_worker_run() {
    let (spawned, peak) = run(4, Some(0), |_| true);
    assert_eq!(spawned, vec![0, 1, 2, 3]);
    assert_eq!(peak, 1);
}

#[test]
fn at_the_limit_the_driver_waits_in_bursts() {
    let mut d = ParallelDriver::new(20, None);
    for i in 0..10 {
        let a = if i == 0 { d.begin() } else { d.step(Event::Spawned) };
        assert_eq!(a, Action::Spawn(i));
    }
    assert_eq!(d.in_flight, 10);
    assert_eq!(d.step(Event::Spawned), Action::Join { new_burst: true });
    assert_eq!(d.phase, Phase::FirstBurst);
    assert_eq!(d.step(Event::Joined { burst_over: false }), Action::Join { new_burst: false });
    assert_eq!(d.in_flight, 9);
    assert_eq!(d.step(Event::Joined { burst_over: true }), Action::Join { new_burst: true });
    assert_eq!(d.phase, Phase::SecondBurst);
    assert_eq!(d.in_flight, 8);
    assert_eq!(d.step(Event::Joined { burst_over: false }), Action::Join { new_burst: false });
    assert_eq!(d.step(Event::Joined { burst_over: true }), Action::Spawn(10));
    assert_eq!(d.phase, Phase::Admitting);
    assert_eq!(d.in_flight, 7);
    assert_eq!(d.next, 11);
}

#[test]
fn below_the_low_mark_no_second_burst_is_waited() {
    assert_eq!(HEADROOM, 5);
    let mut d = ParallelDriver {
        regions: 40,
        next: 12,
        in_flight: 6,
        max_workers: 10,
        phase: Phase::FirstBurst,
    };
    assert_eq!(d.step(Event::Joined { burst_over: true }), Action::Spawn(12));
    let mut at_mark = ParallelDriver {
        regions: 40,
        next: 12,
        in_flight: 7,
        max_workers: 10,
        phase: Phase::FirstBurst,
    };
    assert_eq!(at_mark.step(Event::Joined { burst_over: true }), Action::Join { new_burst: true });
    let mut small = ParallelDriver {
        regions: 40,
        next: 12,
        in_flight: 2,
        max_workers: 3,
        phase: Phase::FirstBurst,
    };
    assert_eq!(small.step(Event::Joined { burst_over: true }), Action::Join { new_burst: true });
    assert_eq!(small.phase, Phase::SecondBurst);
}

#[test]
fn after_the_last_region_the_driver_waits_for_every_worker() {
    let mut d = ParallelDriver::new(2, Some(4));
    assert_eq!(d.begin(), Action::Spawn(0));
    assert_eq!(d.step(Event::Spawned), Action::Spawn(1));
    assert_eq!(d.step(Event::Spawned), Action::Join { new_burst: true });
    assert_eq!(d.phase, Phase::Finishing);
    assert_eq!(d.step(Event::Joined { burst_over: true }), Action::Join { new_burst: false });
    assert_eq!(d.step(Event::Joined { burst_over: false }), Action::Finish);
    assert_eq!(d.phase, Phase::Done);
    assert_eq!(d.step(Event::Spawned), Action::Finish);
}

#[test]
fn thread_limit_is_the_one_given() {
    assert_eq!(ParallelDriver::new(1, Some(7)).max_workers, 7);
    assert_eq!(ParallelDriver::new(1, None).max_workers, 10);
    assert_eq!(ParallelDriver::new(1, Some(u64::MAX)).max_workers, usize::MAX);
}
