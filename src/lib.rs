//! Turns a parsed note document into a graph of typed nodes and edges.

pub mod citation;
pub mod classify;
pub mod compile;
pub mod def;
pub mod external;
pub mod outline;
pub mod utils;
