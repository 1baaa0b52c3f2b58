//! Third-party license attribution from a Cargo dependency tree: which packages are
//! attributed, under which licenses, with which texts and notices, and whether the output
//! on disk is current.

// texts
pub mod number;
pub mod paths;
pub mod scan;
pub mod sets;
pub mod text;
pub mod versions;

// policy
pub mod config;
pub mod expression;
pub mod graph;
pub mod policy;
pub mod resolve;
pub mod warnings;

// what packages ship
pub mod audit;
pub mod bundle;
pub mod harvest;

// output
pub mod json;
pub mod manifest;
pub mod notices;
pub mod report;
pub mod resolution;

// a run
pub mod cli;
pub mod plan;
pub mod roundtrip;
pub mod run;
pub mod stale;

// what all of that is for
pub mod laws;
