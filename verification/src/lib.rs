//! An Earley chart parser for context-free grammars.
//!
//! The chart engine discovers "edges" (dotted grammar rules matched against a
//! span of the input) by a worklist-driven predict/scan/complete loop, with
//! structural deduplication of edges, and reconstructs derivation trees from
//! the recorded edge histories.

pub mod chart;
pub mod derivation;
pub mod edge;
pub mod grammar;
pub mod tree;

pub use chart::Chart;
pub use edge::ChartEdge;
pub use grammar::DottedRule;
pub use grammar::Production;
pub use grammar::Symbol;
pub use tree::Tree;
