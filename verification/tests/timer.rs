use navagfx_engine::Timer;
use std::time::Duration;
use std::time::Instant;

#[test]
fn elapsed_until_is_the_difference_of_the_two_readings() {
    let before = Instant::now();
    let timer = Timer::new();
    let after = Instant::now();
    let later = after + Duration::from_millis(250);
    let elapsed = timer.elapsed_until(&later);
    assert!(elapsed >= Duration::from_millis(250));
    assert!(elapsed <= later.duration_since(before));
}

#[test]
fn elapsed_until_an_earlier_reading_is_zero() {
    let earlier = Instant::now();
    let timer = Timer::new();
    assert_eq!(timer.elapsed_until(&earlier), Duration::ZERO);
    if let Some(long_ago) = earlier.checked_sub(Duration::from_secs(1)) {
        assert_eq!(timer.elapsed_until(&long_ago), Duration::ZERO);
    }
}

fn wait(span: Duration) {
    let start = Instant::now();
    while start.elapsed() < span {
        std::hint::spin_loop();
    }
}

#[test]
fn elapsed_grows_with_time() {
    let timer = Timer::new();
    let first = timer.elapsed();
    wait(Duration::from_millis(5));
    let second = timer.elapsed();
    assert!(second >= first);
    assert!(second >= Duration::from_millis(5));
}

#[test]
fn restart_returns_the_elapsed_time_and_starts_anew() {
    let mut timer = Timer::new();
    wait(Duration::from_millis(20));
    let elapsed = timer.restart();
    assert!(elapsed >= Duration::from_millis(20));
    let after = timer.elapsed();
    assert!(after < elapsed);
}

#[test]
fn restart_at_counts_from_the_given_reading() {
    let mut timer = Timer::new();
    let start = Instant::now();
    timer.restart_at(start);
    let later = start + Duration::from_millis(40);
    assert_eq!(timer.elapsed_until(&later), Duration::from_millis(40));
    let elapsed = timer.restart_at(later);
    assert_eq!(elapsed, Duration::from_millis(40));
    assert_eq!(timer.elapsed_until(&later), Duration::ZERO);
    let much_later = later + Duration::from_secs(2);
    assert_eq!(timer.restart_at(much_later), Duration::from_secs(2));
}
