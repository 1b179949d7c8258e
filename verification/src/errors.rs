//! Errors detected while building the schema and the binding table.
//!
//! All of these are startup failures: none is ever produced while serving
//! a request.

use vstd::prelude::*;

verus! {

/// A construction-time error, naming the offending route, type or field.
#[derive(Debug, PartialEq, Eq)]
pub enum ConstructionError {
    /// A referenced type name is not in the registry.
    UnknownType { name: Vec<u8> },
    /// A second registration under an already registered type name.
    DuplicateType { name: Vec<u8> },
    /// Two route alternatives share a path and a method.
    AmbiguousRoute { route: usize },
    /// One path declares the same capture name twice.
    DuplicateCapture { name: Vec<u8> },
    /// A route alternative was given no handler.
    MissingHandler { route: usize },
    /// A handler's shape disagrees with its route; names the first field
    /// that disagrees.
    ShapeMismatch { route: usize, field: Vec<u8> },
    /// Two handlers were bound to the same route identity.
    DuplicateBinding { route: usize },
}

} // verus!
