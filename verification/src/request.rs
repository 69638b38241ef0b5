//! The typed chain requests the engine assembles.
//!
//! One batch of these goes into one signed transaction; the caller encodes
//! them onto the wire and preserves their order end-to-end.

use vstd::prelude::*;

use crate::json::{Json, JsonModel};

verus! {

/// Ghost mirror of [`Coin`].
#[verifier::ext_equal]
pub struct CoinV {
    pub denom: Seq<char>,
    pub amount: u64,
}

/// An amount of one denomination, attached to a request as funds.
#[derive(Clone, Debug, PartialEq)]
pub struct Coin {
    pub denom: String,
    pub amount: u64,
}

impl DeepView for Coin {
    type V = CoinV;

    open spec fn deep_view(&self) -> CoinV {
        CoinV { denom: self.denom@, amount: self.amount }
    }
}

/// Ghost mirror of [`InstantiateRequest`].
#[verifier::ext_equal]
pub struct InstantiateRequestV {
    pub code_id: u64,
    pub msg: JsonModel,
    pub label: Seq<char>,
    pub admin: Option<Seq<char>>,
    pub funds: Seq<CoinV>,
}

/// One instantiate sub-request: turn a stored code id into a live contract.
#[derive(Debug)]
pub struct InstantiateRequest {
    pub code_id: u64,
    pub msg: Json,
    pub label: String,
    pub admin: Option<String>,
    pub funds: Vec<Coin>,
}

impl DeepView for InstantiateRequest {
    type V = InstantiateRequestV;

    open spec fn deep_view(&self) -> InstantiateRequestV {
        InstantiateRequestV {
            code_id: self.code_id,
            msg: self.msg.deep_view(),
            label: self.label@,
            admin: match self.admin {
                Option::Some(a) => Option::Some(a@),
                Option::None => Option::None,
            },
            funds: self.funds.deep_view(),
        }
    }
}

/// Ghost mirror of [`ExecRequest`].
#[verifier::ext_equal]
pub struct ExecRequestV {
    pub msg: JsonModel,
    pub funds: Seq<CoinV>,
    pub address: Seq<char>,
}

/// One execute sub-request against a live contract address.
#[derive(Debug)]
pub struct ExecRequest {
    pub msg: Json,
    pub funds: Vec<Coin>,
    pub address: String,
}

impl DeepView for ExecRequest {
    type V = ExecRequestV;

    open spec fn deep_view(&self) -> ExecRequestV {
        ExecRequestV {
            msg: self.msg.deep_view(),
            funds: self.funds.deep_view(),
            address: self.address@,
        }
    }
}

/// Ghost mirror of [`MigrateRequest`].
#[verifier::ext_equal]
pub struct MigrateRequestV {
    pub msg: JsonModel,
    pub address: Seq<char>,
    pub new_code_id: u64,
}

/// One migrate sub-request: repoint an address at a new code id.
#[derive(Debug)]
pub struct MigrateRequest {
    pub msg: Json,
    pub address: String,
    pub new_code_id: u64,
}

impl DeepView for MigrateRequest {
    type V = MigrateRequestV;

    open spec fn deep_view(&self) -> MigrateRequestV {
        MigrateRequestV {
            msg: self.msg.deep_view(),
            address: self.address@,
            new_code_id: self.new_code_id,
        }
    }
}

} // verus!
