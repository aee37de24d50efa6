use countdown::schedule::{clamp_interval, Countdown, Event};
use countdown::span::Span;

#[test]
fn zero_interval_is_raised_to_a_millisecond() {
    assert_eq!(clamp_interval(&Span::zero()), (Span::new(0, 1_000_000), true));
    assert_eq!(clamp_interval(&Span::new(0, 999_999)), (Span::new(0, 1_000_000), true));
}

#[test]
fn long_enough_interval_is_kept() {
    assert_eq!(clamp_interval(&Span::from_millis(1)), (Span::from_millis(1), false));
    assert_eq!(clamp_interval(&Span::from_secs(2)), (Span::from_secs(2), false));
}

#[test]
fn three_seconds_by_one() {
    let mut c = Countdown::new(&Span::from_secs(3), &Span::from_secs(1));
    assert_eq!(c.start(), "\r3s");
    assert_eq!(c.step(Event::Tick), "\r2s");
    assert_eq!(c.step(Event::Tick), "\r1s");
    assert_eq!(c.step(Event::Deadline), "\r0s");
    assert!(c.finished);
    assert_eq!(c.step(Event::Tick), "");
}

#[test]
fn interval_longer_than_total() {
    let mut c = Countdown::new(&Span::from_secs(1), &Span::from_secs(2));
    assert_eq!(c.start(), "\r1s");
    assert_eq!(c.step(Event::Deadline), "\r0s");
    assert_eq!(c.remaining, Span::zero());
}

#[test]
fn tick_saturates_at_zero() {
    let mut c = Countdown::new(&Span::from_millis(1500), &Span::from_secs(1));
    assert_eq!(c.start(), "\r1.5s");
    assert_eq!(c.step(Event::Tick), "\r0.5s");
    assert_eq!(c.step(Event::Tick), "\r0.0s");
    assert_eq!(c.remaining, Span::zero());
}

#[test]
fn deadline_shows_plain_zero() {
    let mut c = Countdown::new(&Span::from_millis(2250), &Span::from_secs(1));
    assert_eq!(c.start(), "\r2.25s");
    assert_eq!(c.step(Event::Deadline), "\r0s   ");
    assert_eq!(c.printer.max_decimals, 0);
}

#[test]
fn span_arithmetic() {
    assert_eq!(Span::from_millis(2500), Span::new(2, 500_000_000));
    assert_eq!(Span::new(3, 100).saturating_sub(&Span::new(1, 200)), Span::new(1, 999_999_900));
    assert_eq!(Span::new(1, 0).saturating_sub(&Span::new(1, 1)), Span::zero());
    assert!(Span::new(1, 5).lt(&Span::new(2, 0)));
    assert!(!Span::new(2, 0).lt(&Span::new(2, 0)));
    assert_eq!(Span::new(7, 123_456_789).subsec_millis(), 123);
}
