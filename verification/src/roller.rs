//! The two halves of the work: finding the commits that bracket a change,
//! and reproducing both states of the tree.

pub mod gitlog;
pub mod stash;
