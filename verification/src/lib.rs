//! Deployment topologies: hosts, a tree of software nodes, and the
//! configuration of each node, resolved from a nested document and checked.

pub mod order;
pub mod sorted_map;
pub mod value;
pub mod json;
pub mod path;
pub mod topology;
pub mod location;
pub mod resolve;
pub mod validate;
pub mod tree;
pub mod names;
pub mod laws;
