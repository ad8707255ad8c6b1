//! Error taxonomy.
//!
//! Every fallible operation returns an explicit result carrying one of these
//! kinds. Malformed markup never raises an error (parsing is best-effort);
//! structural misuse — unknown identifiers, impossible geometry — fails fast.

use vstd::prelude::*;

verus! {

/// Document-tree errors.
#[derive(Debug, Clone, PartialEq)]
pub enum DomError {
    /// An operation requiring an element node met another node kind.
    InvalidNodeType,
    /// An identifier was referenced but is absent from the store.
    NodeNotFound(String),
    /// An attribute name or value was rejected.
    InvalidAttribute(String),
    /// A detected violation of the tree's own invariants.
    TreeCorruption(String),
}

/// Parsing errors.
#[derive(Debug, Clone, PartialEq)]
pub enum ParserError {
    HtmlParsing(String),
    CssParsing(String),
    JsParsing(String),
    /// The raw input was not valid UTF-8.
    InvalidEncoding(String),
    UnexpectedEof,
}

/// Layout errors.
#[derive(Debug, Clone, PartialEq)]
pub enum LayoutError {
    CalculationFailed(String),
    /// Layout arithmetic would produce a negative or otherwise impossible
    /// dimension, or a grid template is degenerate.
    InvalidConstraints(String),
    Overflow(String),
    CircularDependency,
}

/// Paint errors.
#[derive(Debug, Clone, PartialEq)]
pub enum PaintError {
    RenderingFailed(String),
    GraphicsContext(String),
    InvalidOperation(String),
    ResourceAllocation(String),
}

/// Network errors.
#[derive(Debug, Clone, PartialEq)]
pub enum NetworkError {
    RequestFailed(String),
    Timeout,
    InvalidResponse(String),
    SslError(String),
    RedirectLimitExceeded,
}

/// Script-runtime errors.
#[derive(Debug, Clone, PartialEq)]
pub enum JsRuntimeError {
    ExecutionFailed(String),
    ModuleLoading(String),
    MemoryAllocation,
    InvalidScript(String),
}

/// Platform errors.
#[derive(Debug, Clone, PartialEq)]
pub enum PlatformError {
    WindowCreation(String),
    GraphicsInit(String),
    InputHandling(String),
    NotSupported(String),
}

/// Top-level error: one of the subsystem kinds, or a free-form condition.
#[derive(Debug, Clone, PartialEq)]
pub enum VeloraError {
    Dom(DomError),
    Parser(ParserError),
    Layout(LayoutError),
    Paint(PaintError),
    Network(NetworkError),
    JsRuntime(JsRuntimeError),
    Platform(PlatformError),
    InvalidUrl(String),
    ResourceNotFound(String),
    InvalidState(String),
    Unknown(String),
}

/// Result type for all fallible operations of this crate.
pub type VeloraResult<T> = Result<T, VeloraError>;

} // verus!
