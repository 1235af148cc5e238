//! The subregisters that are read.
use vstd::prelude::*;

verus! {

/// Profile items (lens manifests).
pub const PROFILES: &'static str = "profiles";

/// Unit items (registered unit identity).
pub const UNITS: &'static str = "units";

/// Transform items (registered rule packages and code-list mappings).
pub const TRANSFORMS: &'static str = "transforms";

} // verus!
