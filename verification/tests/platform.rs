use handterm::platform::{
    initial_window_position, WindowPosition, WindowPositionPreset, CASCADE_STEP_PX, CASCADE_WRAP,
};

fn monitor_1080p() -> Option<((i32, i32), (u32, u32))> {
    Some(((0, 0), (1920, 1080)))
}

#[test]
fn auto_defers_to_os_placement() {
    let pos = initial_window_position(
        WindowPosition::Preset(WindowPositionPreset::Auto),
        (800, 600),
        monitor_1080p(),
        0,
    );
    assert_eq!(pos, None);
}

#[test]
fn center_centers_first_window_on_monitor() {
    let pos = initial_window_position(WindowPosition::default(), (800, 600), monitor_1080p(), 0)
        .expect("centered position should resolve");
    assert_eq!(pos, ((1920 - 800) / 2, (1080 - 600) / 2));
}

#[test]
fn center_respects_monitor_origin_on_secondary_display() {
    let monitor = Some(((1920, 200), (1920, 1080)));
    let pos = initial_window_position(WindowPosition::default(), (800, 600), monitor, 0)
        .expect("centered position should resolve");
    assert_eq!(pos, (1920 + (1920 - 800) / 2, 200 + (1080 - 600) / 2));
}

#[test]
fn center_cascades_additional_windows() {
    let first =
        initial_window_position(WindowPosition::default(), (800, 600), monitor_1080p(), 0).unwrap();
    let second =
        initial_window_position(WindowPosition::default(), (800, 600), monitor_1080p(), 1).unwrap();
    assert_eq!(second.0 - first.0, CASCADE_STEP_PX);
    assert_eq!(second.1 - first.1, CASCADE_STEP_PX);
}

#[test]
fn cascade_wraps_back_to_center() {
    let first = initial_window_position(WindowPosition::default(), (800, 600), monitor_1080p(), 0);
    let wrapped = initial_window_position(
        WindowPosition::default(),
        (800, 600),
        monitor_1080p(),
        CASCADE_WRAP,
    );
    assert_eq!(first, wrapped);
}

#[test]
fn center_clamps_oversized_window_to_monitor_origin() {
    let pos = initial_window_position(WindowPosition::default(), (4000, 3000), monitor_1080p(), 0)
        .expect("clamped position should resolve");
    assert_eq!(pos, (0, 0));
}

#[test]
fn center_clamps_cascade_to_stay_on_monitor() {
    let pos = initial_window_position(WindowPosition::default(), (1900, 1060), monitor_1080p(), 3)
        .expect("clamped position should resolve");
    assert_eq!(pos, (20, 20));
}

#[test]
fn center_without_monitor_falls_back_to_os_placement() {
    let pos = initial_window_position(WindowPosition::default(), (800, 600), None, 0);
    assert_eq!(pos, None);
}

#[test]
fn fixed_position_is_relative_to_monitor_origin() {
    let monitor = Some(((1920, 0), (1920, 1080)));
    let pos = initial_window_position(WindowPosition::Fixed(100, 50), (800, 600), monitor, 0);
    assert_eq!(pos, Some((2020, 50)));
}

#[test]
fn fixed_position_without_monitor_uses_global_origin() {
    let pos = initial_window_position(WindowPosition::Fixed(100, 50), (800, 600), None, 0);
    assert_eq!(pos, Some((100, 50)));
}

#[test]
fn odd_overhang_rounds_towards_zero() {
    // (1000 - 1001) / 2 is 0 in Rust's truncating division; clamped at the origin.
    let pos = initial_window_position(WindowPosition::default(), (1001, 11), Some(((5, 5), (1000, 10))), 0);
    assert_eq!(pos, Some((5, 5)));
    let pos = initial_window_position(WindowPosition::default(), (11, 11), Some(((0, 0), (100, 100))), 0);
    assert_eq!(pos, Some((44, 44)));
}
