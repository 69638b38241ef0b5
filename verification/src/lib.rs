//! Deployment orchestration for CosmWasm contract workspaces.
//!
//! The crate models the deployment lifecycle of a set of smart contracts
//! against a Cosmos-SDK chain: a persisted registry maps each contract name
//! to its stored code id and instantiated address, scoped per deployment
//! environment; a message-assembly pass resolves `&name` cross-references
//! between contracts; and a stage engine turns a contract set plus a
//! deployment stage into the exact batch of chain requests to submit, then
//! folds the chain's positional response back into the registry.
//!
//! All network and file I/O stays outside this crate: callers read artifact
//! bytes, submit the planned batches, and hand the committed responses back
//! to the `apply_*` functions.

pub mod config;
pub mod contract;
pub mod deployment;
pub mod error;
pub mod json;
pub mod key;
pub mod msg;
pub mod request;
pub mod response;
pub mod settings;
pub mod utils;
