//! Duplicate-file detection: enumeration filtering, size-then-hash duplicate
//! grouping, and the scan-session logic that drives a worker loop.

pub mod file_scanner;
pub mod file_utils;
pub mod preview;

use vstd::prelude::*;

verus! {

} // verus!
