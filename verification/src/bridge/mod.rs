//! Conversion of flow graphs into the plugin contracts of a dataflow
//! executor: manifests, routes and schemas.

pub mod contract;
pub mod types;
pub mod convert;
pub mod example;
pub mod inproc;
pub mod json;
