//! Velora: a verified document-tree and layout core.
//!
//! The crate models a structured document as an arena of identifier-addressed
//! nodes and computes a geometric layout tree from it: identifier generation,
//! node store and document tree, a best-effort markup parser, a box model, and
//! flex/grid flow strategies feeding a recursive layout resolution.

pub mod assoc;
pub mod box_model;
pub mod css;
pub mod document;
pub mod element;
pub mod errors;
pub mod flexbox;
pub mod grid;
pub mod ids;
pub mod input;
pub mod jsrt;
pub mod json;
pub mod layout_tree;
pub mod markup;
pub mod net;
pub mod node;
pub mod paint;
pub mod platform;
pub mod strings;
pub mod tree;
pub mod types;
pub mod ui;
pub mod ui_render;
pub mod urlq;

pub use document::Document;
pub use element::Element;
pub use errors::{VeloraError, VeloraResult};
pub use ids::IdGenerator;
pub use markup::HtmlParser;
pub use node::{Node, NodeType};
pub use tree::DomTree;
pub use types::{ElementId, NodeId, Rect, Size};
