//! Discovery and classification of git working copies under a root
//! directory.
//!
//! The discoverer walks a depth-bounded directory tree, records every
//! directory that carries repository metadata, prunes the subtree below
//! each one, and returns the roots in lexicographic order.  The classifier
//! inspects each root independently — working-tree dirtiness, configured
//! remotes, and, on request, the commit count ahead of the upstream
//! tracking branch — and the report layer filters the records, decides
//! what an empty report means, and prepares paths and summary counts for
//! display.

pub mod classify;
pub mod discover;
pub mod gitio;
pub mod order;
pub mod report;
pub mod tree;
