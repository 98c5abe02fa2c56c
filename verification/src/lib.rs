//! An incremental build engine.
//!
//! A build is a graph of nodes, each known by the path of the file it
//! stands for and by a tag that tells its kind, joined by edges from each
//! node to the nodes that depend on it. A run copies the roots from the
//! source tree into a sandbox, lets nodes add nodes and edges, looks into
//! files for further dependencies, builds what is ready, and repeats all
//! this until nothing changes any more. What a run finds unchanged since
//! the previous run is not built again.
//!
//! The engine decides; it touches no file and runs no build. Whoever drives
//! a run does the work the engine asks for and tells it what came of it.
pub mod c_nodes;
pub mod c_project;
pub mod calm;
pub mod command;
pub mod digest;
pub mod error;
pub mod expand;
pub mod graph;
pub mod helpers;
pub mod laws;
pub mod make;
pub mod mermaid;
pub mod model;
pub mod mount;
pub mod report;
pub mod roots;
pub mod rules;
pub mod runs;
pub mod scan;
pub mod scanner;
pub mod schedule;
pub mod state;
pub mod status;
pub mod summary;
pub mod text;
