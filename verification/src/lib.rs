//! Extraction engine for a documentation crawler: locates entity-bearing
//! regions in a DOM tree, applies naming heuristics to decide which anchors
//! and rows denote real entities, and derives structured `Service` and
//! `Action` records, together with the JSON cache codec for both.
pub mod actions;
pub mod codec;
pub mod dom;
pub mod records;
pub mod services;
pub mod text;
