//! Where a new window is placed on the screen.
use vstd::prelude::*;

verus! {

/// Offset between successive centered windows, so that they cascade.
pub const CASCADE_STEP_PX: i32 = 32;

/// After this many cascaded windows, placement starts again at the centre.
pub const CASCADE_WRAP: usize = 8;

/// A placement policy that needs no coordinates.
#[derive(Debug, Clone, Copy, PartialEq, Eq, Structural)]
pub enum WindowPositionPreset {
    /// Let the window system place the window.
    Auto,
    /// Centre the window on the monitor, cascading further windows.
    Center,
}

/// Where new windows go: a preset, or a position relative to the monitor.
#[derive(Debug, Clone, Copy, PartialEq, Eq, Structural)]
pub enum WindowPosition {
    Preset(WindowPositionPreset),
    Fixed(i32, i32),
}

impl Default for WindowPosition {
    fn default() -> (p: Self)
        ensures
            p == WindowPosition::Preset(WindowPositionPreset::Center),
    {
        WindowPosition::Preset(WindowPositionPreset::Center)
    }
}

/// Integer division by two rounding towards zero, as Rust's `/` does.
pub open spec fn half_toward_zero(n: int) -> int {
    if n >= 0 {
        n / 2
    } else {
        -((-n) / 2)
    }
}

pub open spec fn clamp_int(v: int, lo: int, hi: int) -> int {
    if v < lo {
        lo
    } else if v > hi {
        hi
    } else {
        v
    }
}

/// The top-left corner of a window of size `ww` by `wh` centred on a monitor
/// at (`mx`, `my`) of size `mw` by `mh`, moved down and right by the cascade
/// step of the window's index, and kept on the monitor (at its origin when
/// the window is larger).
pub open spec fn centered_position(
    mx: int,
    my: int,
    mw: int,
    mh: int,
    ww: int,
    wh: int,
    cascade_index: int,
) -> (int, int) {
    let step = (cascade_index % (CASCADE_WRAP as int)) * (CASCADE_STEP_PX as int);
    let x = mx + half_toward_zero(mw - ww) + step;
    let y = my + half_toward_zero(mh - wh) + step;
    let max_x = mx + if mw - ww > 0 {
        mw - ww
    } else {
        0
    };
    let max_y = my + if mh - wh > 0 {
        mh - wh
    } else {
        0
    };
    (clamp_int(x, mx, max_x), clamp_int(y, my, max_y))
}

/// Where a new window goes, in physical pixels, or `None` to leave it to the
/// window system: `Auto` never places; `Fixed` is relative to the monitor's
/// origin (the global origin without a monitor); `Center` needs a monitor.
pub open spec fn window_position(
    position: WindowPosition,
    window: (u32, u32),
    monitor: Option<((i32, i32), (u32, u32))>,
    cascade_index: usize,
) -> Option<(int, int)> {
    match position {
        WindowPosition::Preset(WindowPositionPreset::Auto) => None,
        WindowPosition::Fixed(x, y) => match monitor {
            Some(((mx, my), _)) => Some((mx + x, my + y)),
            None => Some((x as int, y as int)),
        },
        WindowPosition::Preset(WindowPositionPreset::Center) => match monitor {
            Some(((mx, my), (mw, mh))) => Some(
                centered_position(
                    mx as int,
                    my as int,
                    mw as int,
                    mh as int,
                    window.0 as int,
                    window.1 as int,
                    cascade_index as int,
                ),
            ),
            None => None,
        },
    }
}

/// The placement arithmetic stays within 32-bit signed integers.
pub open spec fn placement_fits(
    position: WindowPosition,
    window: (u32, u32),
    monitor: Option<((i32, i32), (u32, u32))>,
) -> bool {
    let small = |v: int| i32::MIN <= v <= i32::MAX;
    match monitor {
        None => true,
        Some(((mx, my), (mw, mh))) => match position {
            WindowPosition::Fixed(x, y) => small(mx + x) && small(my + y),
            _ => {
                &&& mw <= i32::MAX && mh <= i32::MAX && window.0 <= i32::MAX && window.1 <= i32::MAX
                &&& small(mx + half_toward_zero(mw - window.0))
                &&& small(mx + half_toward_zero(mw - window.0) + 7 * CASCADE_STEP_PX)
                &&& small(my + half_toward_zero(mh - window.1))
                &&& small(my + half_toward_zero(mh - window.1) + 7 * CASCADE_STEP_PX)
                &&& small(mx + mw)
                &&& small(my + mh)
            },
        },
    }
}

fn clamp_i32(v: i32, lo: i32, hi: i32) -> (r: i32)
    requires
        lo <= hi,
    ensures
        r == clamp_int(v as int, lo as int, hi as int),
{
    if v < lo {
        lo
    } else if v > hi {
        hi
    } else {
        v
    }
}

/// The top-left corner for a new window, or `None` to let the window system
/// place it. `monitor` is the target monitor's origin and size;
/// `cascade_index` is the number of windows already open.
pub fn initial_window_position(
    position: WindowPosition,
    window: (u32, u32),
    monitor: Option<((i32, i32), (u32, u32))>,
    cascade_index: usize,
) -> (r: Option<(i32, i32)>)
    requires
        placement_fits(position, window, monitor),
    ensures
        match r {
            Some((x, y)) => window_position(position, window, monitor, cascade_index) == Some(
                (x as int, y as int),
            ),
            None => window_position(position, window, monitor, cascade_index) is None,
        },
{
    match position {
        WindowPosition::Preset(WindowPositionPreset::Auto) => None,
        WindowPosition::Fixed(x, y) => {
            let (ox, oy) = match monitor {
                Some((origin, _)) => origin,
                None => (0, 0),
            };
            Some((ox + x, oy + y))
        },
        WindowPosition::Preset(WindowPositionPreset::Center) => {
            let ((mx, my), (mw, mh)) = match monitor {
                Some(m) => m,
                None => return None,
            };
            let step = ((cascade_index % CASCADE_WRAP) as i32) * CASCADE_STEP_PX;
            let dw = mw as i32 - window.0 as i32;
            let dh = mh as i32 - window.1 as i32;
            let x = mx + dw / 2 + step;
            let y = my + dh / 2 + step;
            let max_x = mx + if dw > 0 {
                dw
            } else {
                0
            };
            let max_y = my + if dh > 0 {
                dh
            } else {
                0
            };
            Some((clamp_i32(x, mx, max_x), clamp_i32(y, my, max_y)))
        },
    }
}

} // verus!
