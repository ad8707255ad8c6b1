//! Core value types: identifiers, geometry, colors and shared enumerations.
//!
//! Geometry is carried in signed 64-bit coordinates. Layout arithmetic asks
//! callers to stay within `MAX_COORD` on each coordinate so that the sums and
//! products the layout algorithms form never overflow.

use vstd::prelude::*;

verus! {

/// Unique identifier for document nodes.
#[derive(Debug, Clone, Copy, PartialEq, Eq, Hash, Structural)]
pub struct NodeId(pub u64);

/// Unique identifier for document elements.
#[derive(Debug, Clone, Copy, PartialEq, Eq, Hash, Structural)]
pub struct ElementId(pub u64);

/// Unique identifier for style rules.
#[derive(Debug, Clone, Copy, PartialEq, Eq, Hash, Structural)]
pub struct StyleId(pub u64);

/// Unique identifier for layout boxes.
#[derive(Debug, Clone, Copy, PartialEq, Eq, Hash, Structural)]
pub struct LayoutId(pub u64);

/// Unique identifier for paint operations.
#[derive(Debug, Clone, Copy, PartialEq, Eq, Hash, Structural)]
pub struct PaintId(pub u64);

/// Unique identifier for network resources.
#[derive(Debug, Clone, Copy, PartialEq, Eq, Hash, Structural)]
pub struct ResourceId(pub u64);

/// Unique identifier for script contexts.
#[derive(Debug, Clone, Copy, PartialEq, Eq, Hash, Structural)]
pub struct JsContextId(pub u64);

/// Bound on the coordinates that layout arithmetic accepts; sums of a few
/// in-bound coordinates, and products of an in-bound coordinate with an
/// in-bound count, stay well inside `i64`.
pub const MAX_COORD: i64 = 1073741824;

/// A coordinate that layout arithmetic accepts.
pub open spec fn coord_ok(v: i64) -> bool {
    -MAX_COORD <= v <= MAX_COORD
}

/// 2D point.
#[derive(Debug, Clone, Copy, PartialEq, Eq, Structural)]
pub struct Point {
    pub x: i64,
    pub y: i64,
}

impl Point {
    pub fn new(x: i64, y: i64) -> (r: Point)
        ensures
            r == (Point { x, y }),
    {
        Point { x, y }
    }

    /// The origin.
    pub fn zero() -> (r: Point)
        ensures
            r == (Point { x: 0, y: 0 }),
    {
        Point { x: 0, y: 0 }
    }
}

/// 2D size.
#[derive(Debug, Clone, Copy, PartialEq, Eq, Structural)]
pub struct Size {
    pub width: i64,
    pub height: i64,
}

/// A size whose dimensions layout arithmetic accepts.
pub open spec fn size_ok(s: Size) -> bool {
    coord_ok(s.width) && coord_ok(s.height)
}

impl Size {
    pub fn new(width: i64, height: i64) -> (r: Size)
        ensures
            r == (Size { width, height }),
    {
        Size { width, height }
    }

    /// The empty size.
    pub fn zero() -> (r: Size)
        ensures
            r == (Size { width: 0, height: 0 }),
    {
        Size { width: 0, height: 0 }
    }
}

/// 2D rectangle: position and size.
#[derive(Debug, Clone, Copy, PartialEq, Eq, Structural)]
pub struct Rect {
    pub x: i64,
    pub y: i64,
    pub width: i64,
    pub height: i64,
}

/// A rectangle whose coordinates layout arithmetic accepts.
pub open spec fn rect_ok(r: Rect) -> bool {
    coord_ok(r.x) && coord_ok(r.y) && coord_ok(r.width) && coord_ok(r.height)
}

impl Rect {
    pub fn new(x: i64, y: i64, width: i64, height: i64) -> (r: Rect)
        ensures
            r == (Rect { x, y, width, height }),
    {
        Rect { x, y, width, height }
    }

    pub fn from_point_size(point: Point, size: Size) -> (r: Rect)
        ensures
            r == (Rect { x: point.x, y: point.y, width: size.width, height: size.height }),
    {
        Rect { x: point.x, y: point.y, width: size.width, height: size.height }
    }

    /// The empty rectangle at the origin.
    pub fn zero() -> (r: Rect)
        ensures
            r == (Rect { x: 0, y: 0, width: 0, height: 0 }),
    {
        Rect { x: 0, y: 0, width: 0, height: 0 }
    }

    /// Whether `point` lies in the rectangle, borders included.
    pub fn contains(&self, point: Point) -> (r: bool)
        requires
            rect_ok(*self),
        ensures
            r == (point.x >= self.x && point.x <= self.x + self.width && point.y >= self.y
                && point.y <= self.y + self.height),
    {
        point.x >= self.x && point.x <= self.x + self.width && point.y >= self.y && point.y
            <= self.y + self.height
    }

    /// Whether the two rectangles overlap on a region of positive extent.
    pub fn intersects(&self, other: &Rect) -> (r: bool)
        requires
            rect_ok(*self),
            rect_ok(*other),
        ensures
            r == !(self.x + self.width <= other.x || other.x + other.width <= self.x || self.y
                + self.height <= other.y || other.y + other.height <= self.y),
    {
        !(self.x + self.width <= other.x || other.x + other.width <= self.x || self.y
            + self.height <= other.y || other.y + other.height <= self.y)
    }
}

/// Color with red, green, blue and alpha components.
#[derive(Debug, Clone, Copy, PartialEq, Eq, Structural)]
pub struct Color {
    pub r: u8,
    pub g: u8,
    pub b: u8,
    pub a: u8,
}

impl Color {
    pub fn new(r: u8, g: u8, b: u8, a: u8) -> (c: Color)
        ensures
            c == (Color { r, g, b, a }),
    {
        Color { r, g, b, a }
    }

    /// An opaque color from its red, green and blue components.
    pub fn rgb(r: u8, g: u8, b: u8) -> (c: Color)
        ensures
            c == (Color { r, g, b, a: 255 }),
    {
        Color { r, g, b, a: 255 }
    }

    pub fn rgba(r: u8, g: u8, b: u8, a: u8) -> (c: Color)
        ensures
            c == (Color { r, g, b, a }),
    {
        Color { r, g, b, a }
    }

    pub fn black() -> (c: Color)
        ensures
            c == (Color { r: 0, g: 0, b: 0, a: 255 }),
    {
        Color::rgb(0, 0, 0)
    }

    pub fn white() -> (c: Color)
        ensures
            c == (Color { r: 255, g: 255, b: 255, a: 255 }),
    {
        Color::rgb(255, 255, 255)
    }

    pub fn transparent() -> (c: Color)
        ensures
            c == (Color { r: 0, g: 0, b: 0, a: 0 }),
    {
        Color::rgba(0, 0, 0, 0)
    }
}

/// CSS length units.
#[derive(Debug, Clone, Copy, PartialEq, Eq, Structural)]
pub enum CssUnit {
    Px,
    Em,
    Rem,
    Vw,
    Vh,
    Percent,
    Auto,
    NoUnit,
}

/// Display property values.
#[derive(Debug, Clone, Copy, PartialEq, Eq, Structural)]
pub enum Display {
    Block,
    Inline,
    InlineBlock,
    Flex,
    Grid,
    NoDisplay,
}

/// Position property values.
#[derive(Debug, Clone, Copy, PartialEq, Eq, Structural)]
pub enum Position {
    Static,
    Relative,
    Absolute,
    Fixed,
    Sticky,
}

/// Flex main-axis direction.
#[derive(Debug, Clone, Copy, PartialEq, Eq, Structural)]
pub enum FlexDirection {
    Row,
    RowReverse,
    Column,
    ColumnReverse,
}

/// Justify-content alignment.
#[derive(Debug, Clone, Copy, PartialEq, Eq, Structural)]
pub enum JustifyContent {
    FlexStart,
    FlexEnd,
    Center,
    SpaceBetween,
    SpaceAround,
    SpaceEvenly,
}

/// Align-items alignment.
#[derive(Debug, Clone, Copy, PartialEq, Eq, Structural)]
pub enum AlignItems {
    FlexStart,
    FlexEnd,
    Center,
    Baseline,
    Stretch,
}

/// Event kinds that the surrounding application can dispatch.
#[derive(Debug, Clone, PartialEq)]
pub enum EventType {
    Click,
    MouseDown,
    MouseUp,
    MouseMove,
    KeyDown,
    KeyUp,
    Load,
    Unload,
    Scroll,
    Resize,
    Custom(String),
}

/// HTTP request method.
#[derive(Debug, Clone, PartialEq)]
pub enum HttpMethod {
    Get,
    Post,
    Put,
    Delete,
    Head,
    Options,
    Patch,
}

/// HTTP status code with its reason phrase.
#[derive(Debug, Clone, PartialEq)]
pub struct HttpStatus {
    pub code: u16,
    pub reason: String,
}

impl HttpStatus {
    pub fn new(code: u16, reason: String) -> (r: HttpStatus)
        ensures
            r.code == code,
            r.reason@ == reason@,
    {
        HttpStatus { code, reason }
    }

    /// Status 200.
    pub fn ok() -> (r: HttpStatus)
        ensures
            r.code == 200,
            r.reason@ == "OK"@,
    {
        HttpStatus::new(200, "OK".to_owned())
    }

    /// Status 404.
    pub fn not_found() -> (r: HttpStatus)
        ensures
            r.code == 404,
            r.reason@ == "Not Found"@,
    {
        HttpStatus::new(404, "Not Found".to_owned())
    }

    /// Status 500.
    pub fn internal_server_error() -> (r: HttpStatus)
        ensures
            r.code == 500,
            r.reason@ == "Internal Server Error"@,
    {
        HttpStatus::new(500, "Internal Server Error".to_owned())
    }

    /// Whether the code lies in the 2xx range.
    pub fn is_success(&self) -> (r: bool)
        ensures
            r == (200 <= self.code < 300),
    {
        self.code >= 200 && self.code < 300
    }

    /// Whether the code lies in the 4xx range.
    pub fn is_client_error(&self) -> (r: bool)
        ensures
            r == (400 <= self.code < 500),
    {
        self.code >= 400 && self.code < 500
    }

    /// Whether the code lies in the 5xx range.
    pub fn is_server_error(&self) -> (r: bool)
        ensures
            r == (500 <= self.code < 600),
    {
        self.code >= 500 && self.code < 600
    }
}

} // verus!
