//! Frame statistics ([`RefreshStats`]), the one-second performance window ([`PerfMonitor`])
//! and memory statistics ([`MemInfo`]).
use vstd::prelude::*;
use crate::time::Instant;

verus! {

/// Statistics of the most recent frame of a display.
#[derive(Clone, Copy, Debug, PartialEq, Eq, Structural, Default)]
pub struct RefreshStats {
    /// Frame number (1 = first frame of the display).
    pub frame: u32,
    pub frame_time_us: u32,
    pub render_us: u32,
    pub flush_us: u32,
    pub flush_wait_us: u32,
    pub dirty_areas: u16,
    pub dirty_px: u32,
    pub chunks: u16,
    pub nodes_drawn: u32,
    /// Frames per second over the last complete one-second window.
    pub fps: u16,
    /// Busy time in percent of the last window.
    pub cpu_percent: u8,
    pub mem_used: u32,
    pub mem_peak: u32,
}

/// Memory statistics reported by the application's allocator.
#[derive(Clone, Copy, Debug, PartialEq, Eq, Structural, Default)]
pub struct MemInfo {
    pub used: u32,
    pub peak: u32,
    pub free: u32,
}

/// The length of a performance window in microseconds.
pub const WINDOW_US: u64 = 1_000_000;

/// Accumulates frames and busy time over one-second windows (LVGL's `sysmon` performance
/// monitor): `fps` = frames per window, `cpu_percent` = busy time / wall time.
#[derive(Clone, Copy, Debug, PartialEq, Eq, Structural, Default)]
pub struct PerfMonitor {
    pub window_start: Option<Instant>,
    pub frames: u32,
    pub busy_us: u64,
    pub fps: u16,
    pub cpu: u8,
}

impl PerfMonitor {
    /// Records a frame at `now` that kept the CPU busy for `busy_us` (the first frame opens
    /// the window).
    pub fn frame(&mut self, now: Instant, busy_us: u64)
        requires
            old(self).frames < u32::MAX,
            old(self).busy_us + busy_us <= u64::MAX,
        ensures
            final(self).window_start == (if old(self).window_start is None { Some(now) } else { old(self).window_start }),
            final(self).frames == old(self).frames + 1,
            final(self).busy_us == old(self).busy_us + busy_us,
            final(self).fps == old(self).fps && final(self).cpu == old(self).cpu,
    {
        if self.window_start.is_none() {
            self.window_start = Some(now);
        }
        self.frames = self.frames + 1;
        self.busy_us = self.busy_us + busy_us;
    }

    /// Closes the window if it is at least one second old at `now`: `fps` = frames per second
    /// (at most `u16::MAX`) and `cpu_percent` = busy time per wall time in percent (at most
    /// 100); a new window starts at `now`. Returns whether a window was closed.
    pub fn window_done(&mut self, now: Instant) -> (r: bool)
        ensures
            ({
                let o = *old(self);
                match o.window_start {
                    None => !r && *final(self) == o,
                    Some(s) => {
                        let wall: int = if now.us >= s.us { now.us - s.us } else { 0 };
                        if wall < WINDOW_US {
                            !r && *final(self) == o
                        } else {
                            let fps = o.frames * 1_000_000 / wall;
                            let cpu = o.busy_us * 100 / wall;
                            &&& r
                            &&& final(self).fps == (if fps < u16::MAX { fps } else { u16::MAX as int })
                            &&& final(self).cpu == (if cpu < 100 { cpu } else { 100 })
                            &&& final(self).window_start == Some(now)
                            &&& final(self).frames == 0 && final(self).busy_us == 0
                        }
                    },
                }
            }),
    {
        let start = match self.window_start {
            None => {
                return false;
            },
            Some(s) => s,
        };
        let wall = now.saturating_duration_since(start).as_micros();
        if wall < WINDOW_US {
            return false;
        }
        let fps: u64 = (self.frames as u64) * 1_000_000 / wall;
        let busy: u128 = (self.busy_us as u128) * 100 / (wall as u128);
        self.fps = if fps < u16::MAX as u64 { fps as u16 } else { u16::MAX };
        self.cpu = if busy < 100 { busy as u8 } else { 100 };
        self.window_start = Some(now);
        self.frames = 0;
        self.busy_us = 0;
        true
    }

    /// Frames per second of the last closed window.
    pub fn fps(&self) -> (r: u16)
        ensures
            r == self.fps,
    {
        self.fps
    }

    /// CPU load in percent of the last closed window.
    pub fn cpu_percent(&self) -> (r: u8)
        ensures
            r == self.cpu,
    {
        self.cpu
    }
}

/// What the last layout pass did.
#[derive(Clone, Copy, Debug, PartialEq, Eq, Structural, Default)]
pub struct LayoutStats {
    /// Subtrees laid out (summed over the iterations).
    pub roots: u32,
    /// Nodes whose rectangle changed (summed over the iterations).
    pub moved: u32,
    /// Layout iterations (0 when nothing was dirty).
    pub iterations: u8,
    /// Whether the pass stopped at the iteration limit with work left.
    pub converged: bool,
}

} // verus!
