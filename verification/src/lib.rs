//! Resolves named changes of a source tree to the pair of commits that
//! bracket each of them, and decides, step by step, how both states of the
//! tree are copied, pinned, built and cleaned up.

pub mod cli;
pub mod text;
pub mod calendar;
pub mod roller;
