use handterm::clock::Span;
use handterm::profiling::{duration_from_timeval, ProcessCpuTime};

#[test]
fn delta_since_saturates_each_component() {
    let earlier = ProcessCpuTime {
        user: Span::from_millis(8),
        system: Span::from_millis(5),
    };
    let later = ProcessCpuTime {
        user: Span::from_millis(11),
        system: Span::from_millis(3),
    };

    let delta = later.delta_since(earlier);
    assert_eq!(delta.user, Span::from_millis(3));
    assert_eq!(delta.system, Span::from_nanos(0));
    assert_eq!(delta.total(), Span::from_millis(3));
}

#[test]
fn total_saturates() {
    let cpu = ProcessCpuTime {
        user: Span::from_nanos(u64::MAX - 1),
        system: Span::from_nanos(5),
    };
    assert_eq!(cpu.total(), Span::from_nanos(u64::MAX));
}

#[test]
fn timeval_converts_with_clamped_parts() {
    assert_eq!(duration_from_timeval(1, 500).nanos, 1_000_500_000);
    assert_eq!(duration_from_timeval(-3, -1).nanos, 0);
    assert_eq!(duration_from_timeval(0, 5_000_000).nanos, 999_999_000);
    assert_eq!(duration_from_timeval(i64::MAX, 0).nanos, u64::MAX);
}
