use rotation_copilot::clock::{millis_of, millis_passed, now_ms, now_seconds};

#[test]
fn the_clock_tells_milliseconds() {
    let told = || {
        std::time::SystemTime::now()
            .duration_since(std::time::UNIX_EPOCH)
            .unwrap()
            .as_millis() as u64
    };
    let before = told();
    let now = now_ms();
    let after = told();
    assert!(before <= now && now <= after);
}

#[test]
fn the_clock_tells_seconds() {
    let before = now_ms() / 1000;
    let now = now_seconds();
    assert!(before <= now && now <= now_ms() / 1000);
}

#[test]
fn times_wrap() {
    assert_eq!(millis_of(2), 2000);
    assert_eq!(millis_of(u64::MAX), u64::MAX.wrapping_mul(1000));
    assert_eq!(millis_passed(5, 9), 4);
    assert_eq!(millis_passed(9, 5), u64::MAX - 3);
}
