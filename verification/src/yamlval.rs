//! Declarations for the opaque document values.
//!
//! Fields the engine never interprets (the `other` entries of a package
//! snapshot) are carried through as `serde_yaml::Value`.  The engine only
//! moves and clones such values; it never looks inside one.

use vstd::prelude::*;

verus! {

/// Declares serde_yaml's `Value` type so that opaque pass-through fields
/// can stand in the document model.
#[verifier::external_type_specification]
#[verifier::external_body]
pub struct ExYamlValue(serde_yaml::Value);

/// Relies on serde_yaml::Value's derived `Clone`: the clone equals the
/// original value.
pub assume_specification[ <serde_yaml::Value as Clone>::clone ](v: &serde_yaml::Value) -> (r:
    serde_yaml::Value)
    ensures
        r == *v,
;

} // verus!
