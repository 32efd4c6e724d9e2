//! Line-oriented patch engine: fuzzy marker location and whole-file splicing.
//!
//! An edit instruction names the lines it expects to find in a file (its
//! marker), possibly reformatted.  The locator reconciles that approximate
//! reference against the file's actual lines with a bounded edit-distance
//! search, and the applicator derives the new file content by splicing.

pub mod apply;
pub mod distance;
pub mod lines;
pub mod locate;
pub mod record;
pub mod text;
