//! Planning of ZFS dataset changes: compares a declared specification of datasets and
//! their properties with what `zfs get` reports, and computes the `zfs` commands that
//! bring the pool in line with the specification.

pub mod text;
pub mod property;
pub mod keyed;
pub mod prefix_paths;
pub mod zfs_specification;
pub mod zfs_list_output;
pub mod actions;
pub mod producer;
pub mod order;
pub mod planner;
pub mod laws;
pub mod fractions;
