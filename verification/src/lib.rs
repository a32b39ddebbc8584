//! Control-flow graphs of functions written as flat streams of labels and
//! instructions.
//!
//! A function is a list of labels, control transfers (conditional branches,
//! jumps and returns) and other instructions. [`to_cfg`] turns it into a
//! directed multigraph of basic blocks with one entry and one exit block, in
//! which every return is an edge into the exit block.
//!
//! - [`ir`] holds the input, and [`cfg`] the graph.
//! - [`builder`] grows a graph node by node and edge by edge, over the graph
//!   store of [`graph`].
//! - [`lower`] walks a function once and drives the builder; [`commit`]
//!   tells which functions it takes.
//! - [`model`] says what graph a function has, and [`steps`] and [`laws`]
//!   prove what holds of every such graph.
pub mod builder;
pub mod cfg;
pub mod commit;
pub mod error;
pub mod graph;
pub mod ir;
pub mod laws;
pub mod lower;
pub mod model;
pub mod steps;

pub use crate::cfg::{BasicBlock, BlockName, Branch, BranchOp, Cfg};
pub use crate::error::RvsdgError;
pub use crate::lower::{to_cfg, try_to_cfg};
