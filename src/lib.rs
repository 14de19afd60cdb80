//! Mirror a source tree into a destination tree, skipping placeholder
//! ("dataless") files and files already present at the destination.
//!
//! The library holds the decisions: how a file is classified from the
//! signals gathered about it, what happens to each file, the run's counters,
//! the text of the decision log, and a model of a whole run over which the
//! mirror's guarantees are proved.

pub mod text;
pub mod classify;
pub mod engine;
pub mod journal;
pub mod logfile;
pub mod mirror;
