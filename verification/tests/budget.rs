use tribler_feeder::tmdb_budget::{
    Acquire, Lease, TmdbBudget, DEFAULT_TMDB_BURST, DEFAULT_TMDB_REFILL_PER_SEC,
};

const NANO: u64 = 1_000_000_000;

fn secs(n: u64) -> u64 {
    n * NANO
}

/// Waits on a simulated clock until the wait is over.
fn acquire(b: &mut TmdbBudget, clock: &mut u64, deadline_nanos: u64) -> Lease {
    let give_up_at = *clock as u128 + deadline_nanos as u128;
    let mut woken = false;
    loop {
        match b.acquire(*clock, give_up_at, woken) {
            Acquire::Done(lease) => return lease,
            Acquire::Wait(nanos) => *clock += nanos as u64,
        }
        woken = true;
    }
}

#[test]
fn grants_up_to_capacity_immediately() {
    let mut clock = 0;
    let mut b = TmdbBudget::new(secs(3), secs(3), clock);
    for _ in 0..3 {
        assert_eq!(acquire(&mut b, &mut clock, secs(10)), Lease::Granted);
    }
    assert_eq!(clock, 0);
}

#[test]
fn fourth_token_waits_for_refill() {
    let mut clock = 5;
    let mut b = TmdbBudget::new(secs(2), secs(2), clock);
    for _ in 0..2 {
        assert_eq!(acquire(&mut b, &mut clock, secs(10)), Lease::Granted);
    }
    let start = clock;
    assert_eq!(acquire(&mut b, &mut clock, secs(10)), Lease::Granted);
    let waited = clock - start;
    assert!(
        waited >= 450_000_000,
        "expected to wait ~0.5s for refill, waited {waited:?}"
    );
    assert_eq!(waited, 500_000_000);
}

#[test]
fn deadline_exceeded_when_drained() {
    let mut clock = 0;
    let mut b = TmdbBudget::new(1_000_000, secs(1), clock);
    assert_eq!(acquire(&mut b, &mut clock, secs(1)), Lease::Granted);
    assert_eq!(
        acquire(&mut b, &mut clock, 200_000_000),
        Lease::DeadlineExceeded
    );
}

#[test]
fn note_429_pauses_grants_globally() {
    let mut clock = 0;
    let mut b = TmdbBudget::new(secs(100), secs(100), clock);
    b.note_429(clock, secs(2) as u128);
    assert_eq!(
        acquire(&mut b, &mut clock, 500_000_000),
        Lease::DeadlineExceeded
    );
    assert_eq!(acquire(&mut b, &mut clock, secs(5)), Lease::Granted);
    assert_eq!(clock, secs(2));
}

#[test]
fn pause_is_extended_but_not_shortened() {
    let mut b = TmdbBudget::new(secs(1), secs(1), 0);
    b.note_429(0, secs(10) as u128);
    b.note_429(0, secs(1) as u128);
    assert_eq!(b.acquire(secs(5), secs(60) as u128, false), Acquire::Wait(secs(5) as u128));
    b.note_429(secs(5), secs(20) as u128);
    assert_eq!(b.acquire(secs(10), secs(60) as u128, false), Acquire::Wait(secs(15) as u128));
    assert_eq!(
        b.acquire(secs(25), secs(60) as u128, true),
        Acquire::Done(Lease::Granted)
    );
}

#[test]
fn pause_may_last_part_of_a_second() {
    let mut b = TmdbBudget::new(secs(1), secs(1), 0);
    b.note_429(0, 250_000_000);
    assert_eq!(b.acquire(0, secs(1) as u128, false), Acquire::Wait(250_000_000));
    assert_eq!(b.acquire(250_000_000, secs(1) as u128, true), Acquire::Done(Lease::Granted));
}

#[test]
fn bucket_never_overflows_its_capacity() {
    let mut b = TmdbBudget::new(DEFAULT_TMDB_REFILL_PER_SEC, DEFAULT_TMDB_BURST, 0);
    let far = u64::MAX;
    for _ in 0..6 {
        assert_eq!(b.acquire(far, far as u128, false), Acquire::Done(Lease::Granted));
    }
    assert_eq!(
        b.acquire(far, far as u128, false),
        Acquire::Done(Lease::DeadlineExceeded)
    );
}

#[test]
fn throttle_bounds_grants_over_time() {
    let mut b = TmdbBudget::new(secs(3), secs(6), 0);
    let mut granted = 0;
    for tick in 0..=100u64 {
        let now = tick * 100_000_000;
        while b.acquire(now, now as u128, false) == Acquire::Done(Lease::Granted) {
            granted += 1;
        }
    }
    assert_eq!(granted, 6 + 30);
}

#[test]
fn no_refill_waits_for_the_deadline() {
    let mut b = TmdbBudget::new(0, secs(1), 0);
    assert_eq!(b.acquire(0, 10, false), Acquire::Done(Lease::Granted));
    assert_eq!(b.acquire(0, 10, false), Acquire::Wait(10));
    assert_eq!(b.acquire(10, 10, true), Acquire::Done(Lease::DeadlineExceeded));
}

#[test]
fn a_late_wake_gives_up_even_with_tokens() {
    let mut b = TmdbBudget::new(secs(1), secs(1), 0);
    assert_eq!(b.acquire(20, 10, true), Acquire::Done(Lease::DeadlineExceeded));
    assert_eq!(b.acquire(20, 10, false), Acquire::Done(Lease::Granted));
}

#[test]
fn waits_are_rounded_up() {
    let mut b = TmdbBudget::new(secs(3), secs(1), 0);
    assert_eq!(b.acquire(0, 0, false), Acquire::Done(Lease::Granted));
    assert_eq!(b.acquire(0, secs(9) as u128, false), Acquire::Wait(333_333_334));
    assert_eq!(
        b.acquire(333_333_334, secs(9) as u128, true),
        Acquire::Done(Lease::Granted)
    );
}
