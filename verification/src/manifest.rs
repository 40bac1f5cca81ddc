//! The route manifest.

use vstd::prelude::*;

verus! {

/// One route of the manifest.
pub struct RouteEntry {
    pub method: String,
    pub pattern: String,
    pub handler_id: u32,
    pub dto_class: Option<String>,
    pub max_body_size: Option<usize>,
}

} // verus!
