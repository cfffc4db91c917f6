use bytebeat::event::{TickClock, POLL_TIMEOUT_US, TICK_FPS, TICK_INTERVAL_US};

#[test]
fn the_tick_rate_is_thirty_a_second() {
    assert_eq!(TICK_FPS, 30);
    assert_eq!(TICK_INTERVAL_US, 1_000_000 / TICK_FPS);
    assert_eq!(POLL_TIMEOUT_US, 100_000);
}

#[test]
fn timeout_lasts_until_the_next_tick() {
    let clock = TickClock::new(TICK_INTERVAL_US, 1_000);
    assert_eq!(clock.timeout(1_000), 33_333);
    assert_eq!(clock.timeout(11_000), 23_333);
    assert_eq!(clock.timeout(34_332), 1);
    assert_eq!(clock.timeout(34_333), 0);
    assert_eq!(clock.timeout(1_000_000), 0);
    // a clock that went back waits a whole interval
    assert_eq!(clock.timeout(0), 33_333);
}

#[test]
fn timeout_is_never_longer_than_the_poll() {
    let clock = TickClock::new(1_000_000, 0);
    assert_eq!(clock.timeout(0), 100_000);
    assert_eq!(clock.timeout(899_999), 100_000);
    assert_eq!(clock.timeout(900_000), 100_000);
    assert_eq!(clock.timeout(900_001), 99_999);
    assert_eq!(clock.timeout(u64::MAX), 0);
    let clock = TickClock::new(u64::MAX, u64::MAX);
    assert_eq!(clock.timeout(u64::MAX), 100_000);
}

#[test]
fn a_tick_is_due_once_an_interval() {
    let mut clock = TickClock::new(TICK_INTERVAL_US, 0);
    assert!(!clock.due(0));
    assert!(!clock.due(33_332));
    assert!(clock.due(33_333));
    assert!(!clock.due(33_333));
    assert!(!clock.due(66_665));
    assert!(clock.due(70_000));
    // it counts from the tick, not from when it was due
    assert!(!clock.due(103_332));
    assert!(clock.due(103_333));
    assert!(!clock.due(5));
}

#[test]
fn a_burst_of_input_does_not_hold_ticks_up() {
    // input every millisecond for a second: the poll returns each time
    let mut clock = TickClock::new(TICK_INTERVAL_US, 0);
    let mut ticks = 0;
    let mut now = 0;
    while now < 1_000_000 {
        assert!(clock.timeout(now) <= TICK_INTERVAL_US);
        if clock.due(now) {
            ticks += 1;
        }
        now += 1_000;
    }
    assert_eq!(ticks, 29);

    // no input at all: the poll lasts as long as the timeout says
    let mut clock = TickClock::new(TICK_INTERVAL_US, 0);
    let mut ticks = 0;
    let mut now = 0;
    while now < 1_000_000 {
        now += clock.timeout(now);
        assert_eq!(clock.timeout(now), 0);
        assert!(clock.due(now));
        ticks += 1;
    }
    assert_eq!(ticks, 31);
}
