//! Shell rendering state: readiness, mode, colors and the layout cache.
//!
//! The drawing itself belongs to an external surface; these records carry
//! what it needs.

use vstd::prelude::*;

use crate::types::Size;

verus! {

/// Rendering readiness of the shell.
pub struct UIState {
    /// Whether the shell is ready to render.
    pub ready: bool,
    /// Current rendering mode.
    pub render_mode: RenderMode,
    /// Whether a redraw is pending.
    pub needs_redraw: bool,
}

impl UIState {
    /// A fresh state: not ready, basic mode, redraw pending.
    pub fn new() -> (r: UIState)
        ensures
            !r.ready,
            r.render_mode == RenderMode::Basic,
            r.needs_redraw,
    {
        UIState { ready: false, render_mode: RenderMode::Basic, needs_redraw: true }
    }
}

/// Rendering modes of the shell.
#[derive(Debug, Clone, Copy, PartialEq, Eq, Structural)]
pub enum RenderMode {
    /// Basic software rendering.
    Basic,
    /// Richer two-dimensional rendering.
    Advanced2D,
    /// Hardware-accelerated rendering.
    HardwareAccelerated,
}

/// A packed color scheme for the shell, one 32-bit value per role.
#[derive(Debug, Clone, PartialEq, Eq, Structural)]
pub struct ColorScheme {
    pub tab_bar_bg: u32,
    pub tab_active_bg: u32,
    pub tab_inactive_bg: u32,
    pub tab_active_text: u32,
    pub tab_inactive_text: u32,
    pub toolbar_bg: u32,
    pub content_bg: u32,
    pub accent_color: u32,
    pub success_color: u32,
    pub warning_color: u32,
    pub error_color: u32,
}

impl Default for ColorScheme {
    /// The dark theme.
    fn default() -> (r: ColorScheme)
        ensures
            r == spec_dark_scheme(),
    {
        ColorScheme {
            tab_bar_bg: 0xFF2D2D2D,
            tab_active_bg: 0xFF404040,
            tab_inactive_bg: 0xFF2D2D2D,
            tab_active_text: 0xFFFFFFFF,
            tab_inactive_text: 0xFFCCCCCC,
            toolbar_bg: 0xFF404040,
            content_bg: 0xFF1E1E1E,
            accent_color: 0xFF4A90E2,
            success_color: 0xFF7ED321,
            warning_color: 0xFFF5A623,
            error_color: 0xFFFF6B6B,
        }
    }
}

/// The dark scheme's values.
pub open spec fn spec_dark_scheme() -> ColorScheme {
    ColorScheme {
        tab_bar_bg: 0xFF2D2D2D,
        tab_active_bg: 0xFF404040,
        tab_inactive_bg: 0xFF2D2D2D,
        tab_active_text: 0xFFFFFFFF,
        tab_inactive_text: 0xFFCCCCCC,
        toolbar_bg: 0xFF404040,
        content_bg: 0xFF1E1E1E,
        accent_color: 0xFF4A90E2,
        success_color: 0xFF7ED321,
        warning_color: 0xFFF5A623,
        error_color: 0xFFFF6B6B,
    }
}

/// The light scheme's values.
pub open spec fn spec_light_scheme() -> ColorScheme {
    ColorScheme {
        tab_bar_bg: 0xFFE0E0E0,
        tab_active_bg: 0xFFFFFFFF,
        tab_inactive_bg: 0xFFD0D0D0,
        tab_active_text: 0xFF000000,
        tab_inactive_text: 0xFF666666,
        toolbar_bg: 0xFFF0F0F0,
        content_bg: 0xFFFFFFFF,
        accent_color: 0xFF4A90E2,
        success_color: 0xFF7ED321,
        warning_color: 0xFFF5A623,
        error_color: 0xFFFF6B6B,
    }
}

impl ColorScheme {
    /// The light theme.
    pub fn light() -> (r: ColorScheme)
        ensures
            r == spec_light_scheme(),
    {
        ColorScheme {
            tab_bar_bg: 0xFFE0E0E0,
            tab_active_bg: 0xFFFFFFFF,
            tab_inactive_bg: 0xFFD0D0D0,
            tab_active_text: 0xFF000000,
            tab_inactive_text: 0xFF666666,
            toolbar_bg: 0xFFF0F0F0,
            content_bg: 0xFFFFFFFF,
            accent_color: 0xFF4A90E2,
            success_color: 0xFF7ED321,
            warning_color: 0xFFF5A623,
            error_color: 0xFFFF6B6B,
        }
    }

    /// The dark theme.
    pub fn dark() -> (r: ColorScheme)
        ensures
            r == spec_dark_scheme(),
    {
        ColorScheme::default()
    }

    /// The system theme; without a detector, the dark theme.
    pub fn system() -> (r: ColorScheme)
        ensures
            r == spec_dark_scheme(),
    {
        ColorScheme::dark()
    }
}

/// Cached shell layout metrics for rendering.
pub struct UILayoutCache {
    /// Window size.
    pub window_size: Size,
    /// Tab bar height.
    pub tab_bar_height: i64,
    /// Toolbar height.
    pub toolbar_height: i64,
    /// Content area: left, top, width and height.
    pub content_area: (i64, i64, i64, i64),
}

impl UILayoutCache {
    /// The default cache: a 1280 by 720 window with 40 and 50 unit bars.
    pub fn new() -> (r: UILayoutCache)
        ensures
            r.window_size == (Size { width: 1280, height: 720 }),
            r.tab_bar_height == 40,
            r.toolbar_height == 50,
            r.content_area.0 == 0 && r.content_area.1 == 90 && r.content_area.2 == 1280
                && r.content_area.3 == 630,
    {
        UILayoutCache {
            window_size: Size::new(1280, 720),
            tab_bar_height: 40,
            toolbar_height: 50,
            content_area: (0, 90, 1280, 630),
        }
    }

    /// Recomputes the cache for a window size.
    pub fn update(&mut self, window_size: Size)
        requires
            crate::types::size_ok(window_size),
            0 <= old(self).tab_bar_height <= crate::types::MAX_COORD,
            0 <= old(self).toolbar_height <= crate::types::MAX_COORD,
        ensures
            final(self).window_size == window_size,
            final(self).tab_bar_height == old(self).tab_bar_height,
            final(self).toolbar_height == old(self).toolbar_height,
            final(self).content_area.0 == 0,
            final(self).content_area.1 == old(self).tab_bar_height + old(self).toolbar_height,
            final(self).content_area.2 == window_size.width,
            final(self).content_area.3 == window_size.height - (old(self).tab_bar_height + old(
                self).toolbar_height),
    {
        self.window_size = window_size;
        let content_y = self.tab_bar_height + self.toolbar_height;
        let content_height = window_size.height - content_y;
        self.content_area = (0, content_y, window_size.width, content_height);
    }
}

} // verus!
