//! Signing-key records owned by the configuration.
//!
//! The key material itself is only carried here; deriving addresses and
//! signing transactions happens outside the crate.

use vstd::prelude::*;

verus! {

/// Ghost mirror of [`KeyringParams`].
#[verifier::ext_equal]
pub struct KeyringParamsV {
    pub service: Seq<char>,
    pub user_name: Seq<char>,
}

/// Parameters locating a key in the operating system keyring.
#[derive(Clone, Debug, PartialEq)]
pub struct KeyringParams {
    pub service: String,
    pub user_name: String,
}

impl DeepView for KeyringParams {
    type V = KeyringParamsV;

    open spec fn deep_view(&self) -> KeyringParamsV {
        KeyringParamsV { service: self.service@, user_name: self.user_name@ }
    }
}

/// Ghost mirror of [`Key`].
pub enum KeyV {
    Mnemonic { phrase: Seq<char> },
    Keyring { params: KeyringParamsV },
}

/// The variants of key material a signing key can carry.
#[derive(Clone, Debug, PartialEq)]
pub enum Key {
    /// The private key's mnemonic words, stored in the clear.
    Mnemonic { phrase: String },
    /// A reference into the operating system keyring.
    Keyring { params: KeyringParams },
}

impl DeepView for Key {
    type V = KeyV;

    open spec fn deep_view(&self) -> KeyV {
        match self {
            Key::Mnemonic { phrase } => KeyV::Mnemonic { phrase: phrase@ },
            Key::Keyring { params } => KeyV::Keyring { params: params.deep_view() },
        }
    }
}

/// Ghost mirror of [`UserKey`].
#[verifier::ext_equal]
pub struct UserKeyV {
    pub name: Seq<char>,
    pub key: KeyV,
}

/// A named signing key; environments reference it by name.
#[derive(Clone, Debug, PartialEq)]
pub struct UserKey {
    /// Human readable key name.
    pub name: String,
    /// Key material associated with `name`.
    pub key: Key,
}

impl DeepView for UserKey {
    type V = UserKeyV;

    open spec fn deep_view(&self) -> UserKeyV {
        UserKeyV { name: self.name@, key: self.key.deep_view() }
    }
}

} // verus!
