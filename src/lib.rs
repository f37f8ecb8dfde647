//! Durable-state layer of a self-custodial payment node: a namespaced key-value
//! store with a validation guard, fixed record locations and codecs for the
//! records kept there, and the one-time relocation of legacy spendable-output
//! records into an output tracker.

pub mod entropy;
pub mod migration;
pub mod namespace;
pub mod records;
pub mod store;
