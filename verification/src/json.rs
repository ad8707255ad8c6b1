//! Declaration of the dynamic JSON value type.
//!
//! Nodes and elements carry an open-ended key/value side-table whose values
//! are `serde_json::Value`. The crate stores such values and hands them back;
//! it never reads inside one, so the type is declared opaque.

use vstd::prelude::*;

verus! {

#[verifier::external_type_specification]
#[verifier::external_body]
pub struct ExJsonValue(serde_json::Value);

/// Relies on serde_json::Value::clone, a derived clone of the whole value
/// tree: the copy equals the original.
pub assume_specification[ <serde_json::Value as Clone>::clone ](
    v: &serde_json::Value,
) -> (r: serde_json::Value)
    ensures
        r == *v,
;

} // verus!
