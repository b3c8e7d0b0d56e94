//! Where the quick-paste overlay window opens.
use vstd::prelude::*;

verus! {

/// The width of the overlay window, in physical pixels.
pub const OVERLAY_WIDTH: i32 = 340;

/// The height of the overlay window, in physical pixels.
pub const OVERLAY_HEIGHT: i32 = 480;

/// Where the overlay opens on a monitor of the given physical size: centred
/// across, a third of the way down, never left of or above the monitor's
/// corner.
pub fn overlay_position(monitor_width: i32, monitor_height: i32) -> (p: (i32, i32))
    ensures
        p.0 == (if monitor_width / 2 - OVERLAY_WIDTH / 2 > 0 { monitor_width / 2 - OVERLAY_WIDTH / 2 } else { 0 }),
        p.1 == (if monitor_height / 3 > 0 { monitor_height / 3 } else { 0 }),
{
    let x = monitor_width / 2 - OVERLAY_WIDTH / 2;
    let y = monitor_height / 3;
    (if x > 0 { x } else { 0 }, if y > 0 { y } else { 0 })
}

} // verus!
