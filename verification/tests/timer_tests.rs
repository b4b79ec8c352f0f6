use arena_sim::timer::Timer;
use arena_sim::timer::TimerMode;
use arena_sim::timer::NANOS_PER_SECOND;

#[test]
fn new_timer_is_at_zero_and_has_not_fired() {
    let t = Timer::new(2 * NANOS_PER_SECOND, TimerMode::Repeating);
    assert_eq!(t.elapsed(), 0);
    assert_eq!(t.period, 2_000_000_000);
    assert_eq!(t.mode, TimerMode::Repeating);
    assert!(!t.finished());
}

#[test]
fn repeating_timer_fires_on_fourth_half_second_tick_with_no_residue() {
    let mut t = Timer::new(2_000_000_000, TimerMode::Repeating);
    for tick in 1..=3u64 {
        t.tick(500_000_000);
        assert!(!t.finished(), "tick {}", tick);
        assert_eq!(t.elapsed(), tick * 500_000_000);
    }
    t.tick(500_000_000);
    assert!(t.finished());
    assert_eq!(t.elapsed(), 0);
}

#[test]
fn repeating_timer_fires_on_third_tick_and_keeps_the_overshoot() {
    let mut t = Timer::new(2_000_000_000, TimerMode::Repeating);
    t.tick(750_000_000);
    assert!(!t.finished());
    t.tick(750_000_000);
    assert!(!t.finished());
    assert_eq!(t.elapsed(), 1_500_000_000);
    t.tick(750_000_000);
    assert!(t.finished());
    assert_eq!(t.elapsed(), 250_000_000);
}

#[test]
fn repeating_timer_reports_the_firing_for_one_tick_only() {
    let mut t = Timer::new(2_000_000_000, TimerMode::Repeating);
    for _ in 0..3 {
        t.tick(750_000_000);
    }
    assert!(t.finished());
    t.tick(750_000_000);
    assert!(!t.finished());
    assert_eq!(t.elapsed(), 1_000_000_000);
}

#[test]
fn repeating_timer_shows_total_modulo_period_over_many_ticks() {
    let period: u64 = 2_000_000_000;
    let delta: u64 = 750_000_000;
    let mut t = Timer::new(period, TimerMode::Repeating);
    let mut fires = 0u64;
    for k in 1..=40u64 {
        t.tick(delta);
        assert_eq!(t.elapsed(), (k * delta) % period);
        assert_eq!(t.finished(), (k * delta) / period > ((k - 1) * delta) / period);
        if t.finished() {
            fires += 1;
        }
    }
    assert_eq!(fires, 15);
}

#[test]
fn repeating_timer_gives_up_one_period_at_a_time() {
    let mut t = Timer::new(1_000, TimerMode::Repeating);
    t.tick(2_500);
    assert!(t.finished());
    assert_eq!(t.elapsed(), 1_500);
    t.tick(0);
    assert!(t.finished());
    assert_eq!(t.elapsed(), 500);
    t.tick(0);
    assert!(!t.finished());
    assert_eq!(t.elapsed(), 500);
}

#[test]
fn once_timer_stays_finished() {
    let mut t = Timer::new(1_000, TimerMode::Once);
    t.tick(400);
    assert!(!t.finished());
    t.tick(600);
    assert!(t.finished());
    assert_eq!(t.elapsed(), 1_000);
    t.tick(1);
    assert!(t.finished());
    t.tick(5_000);
    assert!(t.finished());
    assert_eq!(t.elapsed(), 6_001);
}

#[test]
fn zero_tick_leaves_an_unfinished_timer_alone() {
    let mut t = Timer::new(1_000, TimerMode::Repeating);
    t.tick(300);
    let before = t;
    t.tick(0);
    assert_eq!(t, before);
}

#[test]
fn can_tick_tells_when_the_clock_would_overflow() {
    let once = Timer { elapsed: u64::MAX - 5, period: 10, mode: TimerMode::Once, fired: true };
    assert!(once.can_tick(5));
    assert!(!once.can_tick(6));
    let repeating =
        Timer { elapsed: u64::MAX - 5, period: 10, mode: TimerMode::Repeating, fired: false };
    assert!(repeating.can_tick(6));
    assert!(repeating.can_tick(15));
    assert!(!repeating.can_tick(16));
    let mut t = repeating;
    t.tick(15);
    assert_eq!(t.elapsed(), u64::MAX);
    assert!(t.finished());
}
