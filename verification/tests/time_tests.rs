use std::time::Duration;

use microbench::time::FineDuration;

#[test]
fn duration_from_max() {
    let max_picos = Duration::MAX.as_nanos().checked_mul(1_000);
    let max_duration = FineDuration::from(Duration::MAX);
    assert_eq!(Some(max_duration.picos), max_picos);
}

#[test]
fn duration_from_scales_nanoseconds() {
    let d = FineDuration::from(Duration::from_nanos(5));
    assert_eq!(d.picos, 5_000);
    let d = FineDuration::from(Duration::from_secs(1));
    assert_eq!(d.picos, 1_000_000_000_000);
}

#[test]
fn durations_order_numerically() {
    assert!(FineDuration { picos: 3 } < FineDuration { picos: 5 });
    assert!(FineDuration { picos: 5 } <= FineDuration { picos: 5 });
    assert!(FineDuration { picos: 9 } > FineDuration { picos: 5 });
    assert_eq!(FineDuration { picos: 7 }, FineDuration { picos: 7 });
}

#[test]
fn duration_default_is_zero() {
    let d: FineDuration = Default::default();
    assert_eq!(d.picos, 0);
}
