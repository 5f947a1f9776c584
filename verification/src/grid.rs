//! A plain cell-by-cell diff of the sheets two workbooks share by name, with
//! a unified-diff presentation.

pub mod diff;
pub mod unified_format;
pub mod utils;
