//! Paint-facing state: renderer placeholders whose real work belongs to an
//! external raster collaborator.

use vstd::prelude::*;

use crate::errors::VeloraResult;
use crate::strings::spec_contains;
use crate::types::{Color, Point, Rect, Size};

verus! {

/// Software frame renderer placeholder.
#[derive(Debug)]
pub struct Renderer {
    initialized: bool,
}

impl Renderer {
    /// The initialization flag (ghost).
    pub closed spec fn spec_initialized(self) -> bool {
        self.initialized
    }

    /// Creates an uninitialized renderer.
    pub fn new() -> (r: VeloraResult<Renderer>)
        ensures
            r is Ok,
            !r->Ok_0.spec_initialized(),
    {
        Ok(Renderer { initialized: false })
    }

    /// Marks the renderer initialized for the given surface size.
    pub fn initialize(&mut self, size: Size) -> (r: VeloraResult<()>)
        ensures
            r is Ok,
            final(self).spec_initialized(),
    {
        let _ = size;
        self.initialized = true;
        Ok(())
    }

    /// Accepts a frame; the raster work belongs to the collaborator.
    pub fn render(&mut self) -> (r: VeloraResult<()>)
        ensures
            r is Ok,
            final(self).spec_initialized() == old(self).spec_initialized(),
    {
        Ok(())
    }
}

/// Shape renderer: carries the current drawing color.
#[derive(Debug)]
pub struct ShapeRenderer {
    /// Current drawing color.
    pub color: Color,
}

impl ShapeRenderer {
    /// Creates a renderer drawing in black.
    pub fn new() -> (r: VeloraResult<ShapeRenderer>)
        ensures
            r is Ok,
            r->Ok_0.color == (Color { r: 0, g: 0, b: 0, a: 255 }),
    {
        Ok(ShapeRenderer { color: Color::black() })
    }

    /// Sets the drawing color.
    pub fn set_color(&mut self, color: Color)
        ensures
            final(self).color == color,
    {
        self.color = color;
    }

    /// Accepts a rectangle to draw.
    pub fn draw_rect(&self, rect: Rect) -> (r: VeloraResult<()>)
        ensures
            r is Ok,
    {
        let _ = rect;
        Ok(())
    }

    /// Accepts a circle to draw.
    pub fn draw_circle(&self, center: Point, radius: i64) -> (r: VeloraResult<()>)
        ensures
            r is Ok,
    {
        let _ = center;
        let _ = radius;
        Ok(())
    }
}

/// Text renderer: carries a font-name cache.
#[derive(Debug)]
pub struct TextRenderer {
    fonts: Vec<String>,
}

impl TextRenderer {
    /// The cached font names (ghost).
    pub closed spec fn spec_fonts(self) -> Seq<String> {
        self.fonts@
    }

    /// Creates a renderer with an empty font cache.
    pub fn new() -> (r: VeloraResult<TextRenderer>)
        ensures
            r is Ok,
            r->Ok_0.spec_fonts().len() == 0,
    {
        Ok(TextRenderer { fonts: Vec::new() })
    }

    /// Accepts text to draw at a position.
    pub fn render_text(&self, text: &str, position: Point, color: Color) -> (r: VeloraResult<()>)
        ensures
            r is Ok,
    {
        let _ = text;
        let _ = position;
        let _ = color;
        Ok(())
    }
}

/// Image renderer: carries a loaded-image path cache.
#[derive(Debug)]
pub struct ImageRenderer {
    images: Vec<String>,
}

impl ImageRenderer {
    /// The cached image paths (ghost).
    pub closed spec fn spec_images(self) -> Seq<Seq<char>> {
        self.images.deep_view()
    }

    /// Creates a renderer with an empty image cache.
    pub fn new() -> (r: VeloraResult<ImageRenderer>)
        ensures
            r is Ok,
            r->Ok_0.spec_images().len() == 0,
    {
        Ok(ImageRenderer { images: Vec::new() })
    }

    /// Records an image path in the cache; the decode belongs to the
    /// collaborator.
    pub fn load_image(&mut self, path: &str) -> (r: VeloraResult<()>)
        ensures
            r is Ok,
            final(self).spec_images() == old(self).spec_images().push(path@),
    {
        self.images.push(path.to_owned());
        proof {
            assert(self.images.deep_view() =~= old(self).images.deep_view().push(path@));
        }
        Ok(())
    }

    /// Accepts an image to draw into a rectangle.
    pub fn draw_image(&self, image_id: &str, rect: Rect) -> (r: VeloraResult<()>)
        ensures
            r is Ok,
    {
        let _ = image_id;
        let _ = rect;
        Ok(())
    }
}

/// Paint entry point of the placeholder raster pipeline; accepts every frame.
pub fn paint() -> (r: Result<(), PaintError>)
    ensures
        r is Ok,
{
    Ok(())
}

/// Error of the placeholder raster pipeline.
#[derive(Debug, Clone, PartialEq)]
pub enum PaintError {
    Generic,
}

} // verus!
