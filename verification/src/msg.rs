//! Plain mirrors of the wasm-module protocol messages the engine's
//! transactions carry, with account ids held as bech32 strings; the wire
//! encoding to and from the protobuf types happens outside the crate.

use vstd::prelude::*;

verus! {

/// A stored contract code's reference number.
pub type ContractCodeId = u64;

/// MsgStoreCode submits wasm code to the chain.
#[derive(Clone, Debug, PartialEq)]
pub struct MsgStoreCode {
    /// The actor that signed the message.
    pub sender: String,
    /// Raw or gzip-compressed wasm bytes.
    pub wasm_byte_code: Vec<u8>,
    /// Optional access control to apply on contract creation.
    pub instantiate_permission: Option<()>,
}

/// MsgStoreCodeResponse returns the store result.
#[derive(Clone, Copy, Debug, PartialEq)]
pub struct MsgStoreCodeResponse {
    /// The reference to the stored wasm code.
    pub code_id: ContractCodeId,
}

/// MsgMigrateContract runs a code upgrade or downgrade for a contract.
#[derive(Clone, Debug, PartialEq)]
pub struct MsgMigrateContract {
    /// The actor that signed the message.
    pub sender: String,
    /// Address of the contract being migrated.
    pub contract: String,
    /// Reference to the new wasm code.
    pub code_id: ContractCodeId,
    /// JSON-encoded message passed to the contract on migration.
    pub msg: Vec<u8>,
}

/// MsgMigrateContractResponse returns the raw bytes the contract
/// returned from its migration entry point; may be empty.
#[derive(Clone, Debug, PartialEq)]
pub struct MsgMigrateContractResponse {
    pub data: Vec<u8>,
}

/// CodeInfoResponse carries a stored code's metadata.
#[derive(Clone, Debug, PartialEq)]
pub struct CodeInfoResponse {
    /// Reference of the stored contract code.
    pub code_id: ContractCodeId,
    /// Bech32 address of the creator of this code.
    pub creator: String,
    /// Checksum of the stored code, as the chain reports it.
    pub data_hash: Vec<u8>,
}

} // verus!
