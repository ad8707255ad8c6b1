//! Platform-facing configuration; windows and surfaces themselves belong to
//! an external collaborator.

use vstd::prelude::*;

verus! {

/// Graphics configuration handed to the external surface.
#[derive(Debug, Clone, PartialEq)]
pub struct GraphicsConfig {
    /// Whether presentation waits for the vertical blank.
    pub vsync: bool,
    /// Anti-aliasing sample count.
    pub antialiasing: u32,
    /// Frame-rate cap, when one is set.
    pub max_fps: Option<u32>,
}

impl Default for GraphicsConfig {
    /// Defaults: vertical sync on, four samples, no cap.
    fn default() -> (r: GraphicsConfig)
        ensures
            r == (GraphicsConfig { vsync: true, antialiasing: 4, max_fps: None }),
    {
        GraphicsConfig { vsync: true, antialiasing: 4, max_fps: None }
    }
}

} // verus!
