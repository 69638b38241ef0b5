//! The error taxonomy of the deployment engine.

use vstd::prelude::*;

verus! {

/// Ghost mirror of [`DeployError`] with string fields abstracted to
/// character sequences; contracts throughout the crate speak of this view.
pub enum DeployErrorV {
    Generic(Seq<char>),
    UnsupportedShell,
    ChainAlreadyExists,
    ContractAlreadyExists,
    ContractNotFound { contract_name: Seq<char> },
    EnvAlreadyExists,
    InvalidDir,
    KeyAlreadyExists,
    KeyNotFound { key_name: Seq<char> },
    CodeIdNotFound,
    EnvNotFound,
    ChainConfigNotFound,
    AddrNotFound { name: Seq<char> },
    ConfigNotFound,
    MissingClient,
    MissingGRpc,
    MissingRpc,
    TraitNotImplemented,
    SettingsUninitialized,
    EmptyResponse,
    ChainError { code: u32, log: Seq<char> },
}

/// Everything that can go wrong while planning or applying a deployment
/// stage, or while editing the persisted configuration.
///
/// Configuration errors abort a command before any network call;
/// registry-state errors mean a stage precondition was not met (for
/// example instantiating before storing code); `ChainError` wraps a
/// non-zero response code together with the chain's log line.
#[derive(Clone, Debug)]
pub enum DeployError {
    Generic(String),
    UnsupportedShell,
    ChainAlreadyExists,
    ContractAlreadyExists,
    ContractNotFound { contract_name: String },
    EnvAlreadyExists,
    InvalidDir,
    KeyAlreadyExists,
    KeyNotFound { key_name: String },
    CodeIdNotFound,
    EnvNotFound,
    ChainConfigNotFound,
    AddrNotFound { name: String },
    ConfigNotFound,
    MissingClient,
    MissingGRpc,
    MissingRpc,
    TraitNotImplemented,
    SettingsUninitialized,
    EmptyResponse,
    ChainError { code: u32, log: String },
}

impl DeepView for DeployError {
    type V = DeployErrorV;

    open spec fn deep_view(&self) -> DeployErrorV {
        match self {
            DeployError::Generic(s) => DeployErrorV::Generic(s@),
            DeployError::UnsupportedShell => DeployErrorV::UnsupportedShell,
            DeployError::ChainAlreadyExists => DeployErrorV::ChainAlreadyExists,
            DeployError::ContractAlreadyExists => DeployErrorV::ContractAlreadyExists,
            DeployError::ContractNotFound { contract_name } => DeployErrorV::ContractNotFound {
                contract_name: contract_name@,
            },
            DeployError::EnvAlreadyExists => DeployErrorV::EnvAlreadyExists,
            DeployError::InvalidDir => DeployErrorV::InvalidDir,
            DeployError::KeyAlreadyExists => DeployErrorV::KeyAlreadyExists,
            DeployError::KeyNotFound { key_name } => DeployErrorV::KeyNotFound {
                key_name: key_name@,
            },
            DeployError::CodeIdNotFound => DeployErrorV::CodeIdNotFound,
            DeployError::EnvNotFound => DeployErrorV::EnvNotFound,
            DeployError::ChainConfigNotFound => DeployErrorV::ChainConfigNotFound,
            DeployError::AddrNotFound { name } => DeployErrorV::AddrNotFound { name: name@ },
            DeployError::ConfigNotFound => DeployErrorV::ConfigNotFound,
            DeployError::MissingClient => DeployErrorV::MissingClient,
            DeployError::MissingGRpc => DeployErrorV::MissingGRpc,
            DeployError::MissingRpc => DeployErrorV::MissingRpc,
            DeployError::TraitNotImplemented => DeployErrorV::TraitNotImplemented,
            DeployError::SettingsUninitialized => DeployErrorV::SettingsUninitialized,
            DeployError::EmptyResponse => DeployErrorV::EmptyResponse,
            DeployError::ChainError { code, log } => DeployErrorV::ChainError {
                code: *code,
                log: log@,
            },
        }
    }
}

/// Alias kept from the public surface of the engine.
pub type DeployResult<T> = core::result::Result<T, DeployError>;

} // verus!
