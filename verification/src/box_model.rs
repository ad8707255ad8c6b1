//! The box model: per-node geometry as four rectangles.
//!
//! Padding, border and margin hold only the extra thickness on each side;
//! `content` holds the resolved content rectangle. Derived boxes inflate the
//! content rectangle layer by layer, while `total_size` sums the four layers'
//! dimensions independently per axis.

use vstd::prelude::*;

use crate::errors::{LayoutError, VeloraError, VeloraResult};
use crate::types::{rect_ok, size_ok, Rect, Size};

verus! {

/// Box-sizing mode for `calculate_with_sizing`.
#[derive(Debug, Clone, Copy, PartialEq, Eq, Structural)]
pub enum BoxSizing {
    ContentBox,
    BorderBox,
}

/// Box model with content, padding, border and margin rectangles.
#[derive(Debug, Clone, Copy, PartialEq, Eq, Structural)]
pub struct BoxModel {
    /// Resolved content rectangle.
    pub content: Rect,
    /// Padding thickness.
    pub padding: Rect,
    /// Border thickness.
    pub border: Rect,
    /// Margin thickness.
    pub margin: Rect,
}

/// A box model whose coordinates layout arithmetic accepts.
pub open spec fn box_ok(b: BoxModel) -> bool {
    rect_ok(b.content) && rect_ok(b.padding) && rect_ok(b.border) && rect_ok(b.margin)
}

impl BoxModel {
    /// A box model around `content`, with zero padding, border and margin.
    pub fn new(content: Rect) -> (r: BoxModel)
        ensures
            r.content == content,
            r.padding == (Rect { x: 0, y: 0, width: 0, height: 0 }),
            r.border == (Rect { x: 0, y: 0, width: 0, height: 0 }),
            r.margin == (Rect { x: 0, y: 0, width: 0, height: 0 }),
    {
        BoxModel { content, padding: Rect::zero(), border: Rect::zero(), margin: Rect::zero() }
    }

    /// Total size: the four layers' dimensions summed independently per axis.
    pub fn total_size(&self) -> (r: Size)
        requires
            box_ok(*self),
        ensures
            r.width == self.content.width + self.padding.width + self.border.width
                + self.margin.width,
            r.height == self.content.height + self.padding.height + self.border.height
                + self.margin.height,
    {
        Size::new(
            self.content.width + self.padding.width + self.border.width + self.margin.width,
            self.content.height + self.padding.height + self.border.height + self.margin.height,
        )
    }

    /// Replaces the padding thickness.
    pub fn set_padding(&mut self, padding: Rect)
        ensures
            *final(self) == (BoxModel { padding, ..*old(self) }),
    {
        self.padding = padding;
    }

    /// Replaces the border thickness.
    pub fn set_border(&mut self, border: Rect)
        ensures
            *final(self) == (BoxModel { border, ..*old(self) }),
    {
        self.border = border;
    }

    /// Replaces the margin thickness.
    pub fn set_margin(&mut self, margin: Rect)
        ensures
            *final(self) == (BoxModel { margin, ..*old(self) }),
    {
        self.margin = margin;
    }

    /// The content rectangle.
    pub fn content_area(&self) -> (r: Rect)
        ensures
            r == self.content,
    {
        self.content
    }

    /// The padding box: the content rectangle inflated by the padding.
    pub fn padding_box(&self) -> (r: Rect)
        requires
            box_ok(*self),
        ensures
            r.x == self.content.x - self.padding.x,
            r.y == self.content.y - self.padding.y,
            r.width == self.content.width + self.padding.width,
            r.height == self.content.height + self.padding.height,
    {
        Rect::new(
            self.content.x - self.padding.x,
            self.content.y - self.padding.y,
            self.content.width + self.padding.width,
            self.content.height + self.padding.height,
        )
    }

    /// The border box: the padding box inflated by the border.
    pub fn border_box(&self) -> (r: Rect)
        requires
            box_ok(*self),
        ensures
            r.x == self.content.x - self.padding.x - self.border.x,
            r.y == self.content.y - self.padding.y - self.border.y,
            r.width == self.content.width + self.padding.width + self.border.width,
            r.height == self.content.height + self.padding.height + self.border.height,
    {
        let padding_box = self.padding_box();
        Rect::new(
            padding_box.x - self.border.x,
            padding_box.y - self.border.y,
            padding_box.width + self.border.width,
            padding_box.height + self.border.height,
        )
    }

    /// The margin box: the border box inflated by the margin.
    pub fn margin_box(&self) -> (r: Rect)
        requires
            box_ok(*self),
        ensures
            r.x == self.content.x - self.padding.x - self.border.x - self.margin.x,
            r.y == self.content.y - self.padding.y - self.border.y - self.margin.y,
            r.width == self.content.width + self.padding.width + self.border.width
                + self.margin.width,
            r.height == self.content.height + self.padding.height + self.border.height
                + self.margin.height,
    {
        let border_box = self.border_box();
        Rect::new(
            border_box.x - self.margin.x,
            border_box.y - self.margin.y,
            border_box.width + self.margin.width,
            border_box.height + self.margin.height,
        )
    }

    /// Resolves the content size available under `sizing`:
    /// `ContentBox` carves padding, border and margin out of the available
    /// size; `BorderBox` carves out the margin only. Fails exactly when a
    /// resulting dimension would be negative.
    pub fn calculate_with_sizing(&self, sizing: BoxSizing, available_size: Size) -> (r:
        VeloraResult<Size>)
        requires
            box_ok(*self),
            size_ok(available_size),
        ensures
            ({
                let w = if sizing is ContentBox {
                    available_size.width - self.padding.width - self.border.width
                        - self.margin.width
                } else {
                    available_size.width - self.margin.width
                };
                let h = if sizing is ContentBox {
                    available_size.height - self.padding.height - self.border.height
                        - self.margin.height
                } else {
                    available_size.height - self.margin.height
                };
                if w < 0 || h < 0 {
                    r matches Err(VeloraError::Layout(LayoutError::InvalidConstraints(_)))
                } else {
                    r is Ok && r->Ok_0.width == w && r->Ok_0.height == h
                }
            }),
    {
        match sizing {
            BoxSizing::ContentBox => {
                let content_width = available_size.width - self.padding.width - self.border.width
                    - self.margin.width;
                let content_height = available_size.height - self.padding.height
                    - self.border.height - self.margin.height;
                if content_width < 0 || content_height < 0 {
                    return Err(
                        VeloraError::Layout(
                            LayoutError::InvalidConstraints(
                                "available size too small for box model".to_owned(),
                            ),
                        ),
                    );
                }
                Ok(Size::new(content_width, content_height))
            },
            BoxSizing::BorderBox => {
                let content_width = available_size.width - self.margin.width;
                let content_height = available_size.height - self.margin.height;
                if content_width < 0 || content_height < 0 {
                    return Err(
                        VeloraError::Layout(
                            LayoutError::InvalidConstraints(
                                "available size too small for box model".to_owned(),
                            ),
                        ),
                    );
                }
                Ok(Size::new(content_width, content_height))
            },
        }
    }
}

} // verus!
