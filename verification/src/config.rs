//! [`EngineConfig`]: the tunables of the engine, with LVGL-like defaults.
use vstd::prelude::*;
use crate::error::EngineError;
use crate::input::Timing;
use crate::time::Duration;

verus! {

/// The engine's configuration (the application's allocator statistics, high resolution
/// timer and default font are kept by the application).
#[derive(Clone, Copy, Debug, PartialEq, Eq, Structural)]
pub struct EngineConfig {
    pub refr_period: Duration,
    pub max_dirty_areas: usize,
    pub cooperative_flush: bool,
    pub debug_refresh: bool,
    pub layer_buf_bytes: usize,
    pub glyph_cache_bytes: usize,
    pub image_cache_bytes: usize,
    pub circle_cache_entries: u8,
    pub gradient_cache_entries: u8,
    pub shadow_cache_entries: u8,
    pub perf_log_period: Duration,
    pub long_press_time: Duration,
    pub long_press_repeat: Duration,
    pub scroll_limit: i32,
    pub scroll_throw: u8,
    pub gesture_limit: i32,
    pub gesture_min_velocity: i32,
    pub multi_click_time: Duration,
    pub multi_click_distance: i32,
    pub read_period: Duration,
}

/// The renderer's cache budgets derived from a configuration.
#[derive(Clone, Copy, Debug, PartialEq, Eq, Structural)]
pub struct RenderBudget {
    pub circle_cache_entries: u8,
    pub shadow_cache_entries: u8,
    pub gradient_cache_entries: u8,
    pub layer_buf_bytes: u32,
}

impl Default for EngineConfig {
    fn default() -> (c: EngineConfig)
        ensures
            c.refr_period.us == 16_000 && c.max_dirty_areas == 32 && !c.cooperative_flush && !c.debug_refresh,
            c.layer_buf_bytes == 24 * 1024 && c.glyph_cache_bytes == 8 * 1024 && c.image_cache_bytes == 0,
            c.circle_cache_entries == 4 && c.gradient_cache_entries == 4 && c.shadow_cache_entries == 1,
            c.perf_log_period.us == 5_000_000 && c.long_press_time.us == 400_000 && c.long_press_repeat.us == 100_000,
            c.scroll_limit == 10 && c.scroll_throw == 10 && c.gesture_limit == 50 && c.gesture_min_velocity == 3,
            c.multi_click_time.us == 300_000 && c.multi_click_distance == 5 && c.read_period.us == 30_000,
    {
        EngineConfig {
            refr_period: Duration::ms(16),
            max_dirty_areas: 32,
            cooperative_flush: false,
            debug_refresh: false,
            layer_buf_bytes: 24 * 1024,
            glyph_cache_bytes: 8 * 1024,
            image_cache_bytes: 0,
            circle_cache_entries: 4,
            gradient_cache_entries: 4,
            shadow_cache_entries: 1,
            perf_log_period: Duration::secs(5),
            long_press_time: Duration::ms(400),
            long_press_repeat: Duration::ms(100),
            scroll_limit: 10,
            scroll_throw: 10,
            gesture_limit: 50,
            gesture_min_velocity: 3,
            multi_click_time: Duration::ms(300),
            multi_click_distance: 5,
            read_period: Duration::ms(30),
        }
    }
}

impl EngineConfig {
    /// Checks the values: `refr_period > 0`, `max_dirty_areas` in `1..=32`,
    /// `layer_buf_bytes ≥ 4096`, in this order.
    pub fn validate(&self) -> (r: Result<(), EngineError>)
        ensures
            self.refr_period.us == 0 ==> r == Err::<(), EngineError>(EngineError::InvalidConfig("refr_period must be > 0")),
            self.refr_period.us != 0 && !(1 <= self.max_dirty_areas <= 32)
                ==> r == Err::<(), EngineError>(EngineError::InvalidConfig("max_dirty_areas must be in 1..=32")),
            self.refr_period.us != 0 && 1 <= self.max_dirty_areas <= 32 && self.layer_buf_bytes < 4096
                ==> r == Err::<(), EngineError>(EngineError::InvalidConfig("layer_buf_bytes must be >= 4096")),
            r is Ok <==> self.refr_period.us != 0 && 1 <= self.max_dirty_areas <= 32 && self.layer_buf_bytes >= 4096,
    {
        if self.refr_period.as_micros() == 0 {
            return Err(EngineError::InvalidConfig("refr_period must be > 0"));
        }
        if !(1 <= self.max_dirty_areas && self.max_dirty_areas <= 32) {
            return Err(EngineError::InvalidConfig("max_dirty_areas must be in 1..=32"));
        }
        if self.layer_buf_bytes < 4 * 1024 {
            return Err(EngineError::InvalidConfig("layer_buf_bytes must be >= 4096"));
        }
        Ok(())
    }

    /// The renderer's cache budgets (the layer buffer size saturates at `u32::MAX`).
    pub fn render_config(&self) -> (r: RenderBudget)
        ensures
            r.circle_cache_entries == self.circle_cache_entries,
            r.shadow_cache_entries == self.shadow_cache_entries,
            r.gradient_cache_entries == self.gradient_cache_entries,
            r.layer_buf_bytes == (if self.layer_buf_bytes <= u32::MAX { self.layer_buf_bytes as u32 } else { u32::MAX }),
    {
        RenderBudget {
            circle_cache_entries: self.circle_cache_entries,
            shadow_cache_entries: self.shadow_cache_entries,
            gradient_cache_entries: self.gradient_cache_entries,
            layer_buf_bytes: if self.layer_buf_bytes as u64 <= u32::MAX as u64 { self.layer_buf_bytes as u32 } else { u32::MAX },
        }
    }

    /// The timing configuration of the input processors.
    pub fn input_timing(&self) -> (t: Timing)
        ensures
            t == (Timing {
                long_press: self.long_press_time,
                long_press_repeat: self.long_press_repeat,
                multi_click: self.multi_click_time,
                multi_click_distance: self.multi_click_distance,
                scroll_limit: self.scroll_limit,
                scroll_throw: self.scroll_throw,
                gesture_limit: self.gesture_limit,
                gesture_min_velocity: self.gesture_min_velocity,
            }),
    {
        Timing {
            long_press: self.long_press_time,
            long_press_repeat: self.long_press_repeat,
            multi_click: self.multi_click_time,
            multi_click_distance: self.multi_click_distance,
            scroll_limit: self.scroll_limit,
            scroll_throw: self.scroll_throw,
            gesture_limit: self.gesture_limit,
            gesture_min_velocity: self.gesture_min_velocity,
        }
    }
}

} // verus!
