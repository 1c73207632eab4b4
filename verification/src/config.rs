//! Configuration sections that hold no colours or sizes in points.
use vstd::prelude::*;

verus! {

/// The initial window size and window behaviour.
#[derive(Debug, Clone, Copy, PartialEq, Eq, Structural)]
pub struct WindowConfig {
    pub columns: u16,
    pub rows: u16,
    pub remember_window_size: bool,
    pub confirm_os_window_close: bool,
}

impl Default for WindowConfig {
    fn default() -> (c: Self)
        ensures
            c == (WindowConfig {
                columns: 80,
                rows: 24,
                remember_window_size: false,
                confirm_os_window_close: false,
            }),
    {
        WindowConfig {
            columns: 80,
            rows: 24,
            remember_window_size: false,
            confirm_os_window_close: false,
        }
    }
}

/// Repaint and input latency settings.
#[derive(Debug, Clone, Copy, PartialEq, Eq, Structural)]
pub struct PerformanceConfig {
    pub repaint_delay_ms: u8,
    pub input_delay_ms: u8,
    pub sync_to_monitor: bool,
}

impl Default for PerformanceConfig {
    fn default() -> (c: Self)
        ensures
            c == (PerformanceConfig { repaint_delay_ms: 5, input_delay_ms: 0, sync_to_monitor: true }),
    {
        PerformanceConfig { repaint_delay_ms: 5, input_delay_ms: 0, sync_to_monitor: true }
    }
}

} // verus!
