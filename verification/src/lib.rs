//! Decision logic of a per-thread CPU "burning" detector, together with the
//! small parsers and planners used by its demo programs.

pub mod monitor;
pub mod text;
