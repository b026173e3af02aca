//! Tracks which open file each descriptor refers to and how many tracked
//! descriptors reference each file, so that the last close of a file can be
//! reported exactly once.

pub mod identity;
pub mod descriptor_table;
pub mod refs;
pub mod tracker;
pub mod ref_counts;
pub mod laws;
pub mod commands;
