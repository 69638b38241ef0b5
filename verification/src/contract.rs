//! Contract descriptors: what the user's own contract enumeration supplies
//! to the engine for each deployable contract.

use vstd::prelude::*;

use crate::json::{Json, JsonModel};

verus! {

/// The name an outside case conversion gives a string: lower case with
/// underscores between the original word boundaries.
pub uninterp spec fn snake_of(s: Seq<char>) -> Seq<char>;

/// Relies on convert_case's `Casing::to_case` with `Case::Snake`: the
/// result depends on the input characters alone.
#[verifier::external_body]
fn to_snake_case(s: &str) -> (r: String)
    ensures
        r@ == snake_of(s@),
{
    convert_case::Casing::to_case(&s, convert_case::Case::Snake)
}

/// A message payload producer: the extension point user code implements to
/// hand its own typed messages to the engine.
pub trait Msg {
    /// The message as a JSON tree.
    fn to_json(&self) -> Json;
}

impl Msg for Json {
    fn to_json(&self) -> Json {
        self.clone()
    }
}

/// Ghost mirror of [`ExternalInstantiate`].
#[verifier::ext_equal]
pub struct ExternalInstantiateV {
    pub msg: JsonModel,
    pub code_id: u64,
    pub name: Seq<char>,
}

/// A request to instantiate an already-stored code id alongside a
/// contract, registered under its own name.
#[derive(Debug)]
pub struct ExternalInstantiate {
    pub msg: Json,
    pub code_id: u64,
    pub name: String,
}

impl DeepView for ExternalInstantiate {
    type V = ExternalInstantiateV;

    open spec fn deep_view(&self) -> ExternalInstantiateV {
        ExternalInstantiateV {
            msg: self.msg.deep_view(),
            code_id: self.code_id,
            name: self.name@,
        }
    }
}

/// Ghost mirror of [`ContractDescriptor`].
#[verifier::ext_equal]
pub struct ContractDescriptorV {
    pub name: Seq<char>,
    pub package_id: Option<Seq<char>>,
    pub admin: Seq<char>,
    pub instantiate_msg: Option<JsonModel>,
    pub migrate_msg: Option<JsonModel>,
    pub set_config_msg: Option<JsonModel>,
    pub set_up_msgs: Seq<JsonModel>,
    pub external_instantiate_msgs: Seq<ExternalInstantiateV>,
}

impl ContractDescriptorV {
    /// The cargo package id: the explicit one, or the contract name.
    pub open spec fn package(self) -> Seq<char> {
        match self.package_id {
            Option::Some(p) => p,
            Option::None => self.name,
        }
    }
}

/// Everything the engine needs to know about one deployable contract,
/// immutable per invocation: its stable name, its admin address, and its
/// preprogrammed stage messages. A stage message left `None` makes the
/// contract skip that stage without error.
#[derive(Debug)]
pub struct ContractDescriptor {
    /// Stable name; also the registry key and the instantiate label.
    pub name: String,
    /// Cargo package id, where it differs from the name.
    pub package_id: Option<String>,
    /// Admin address used when instantiating.
    pub admin: String,
    pub instantiate_msg: Option<Json>,
    pub migrate_msg: Option<Json>,
    pub set_config_msg: Option<Json>,
    /// Post-instantiate execute messages, submitted in this order.
    pub set_up_msgs: Vec<Json>,
    /// Co-instantiations of already-stored code ids.
    pub external_instantiate_msgs: Vec<ExternalInstantiate>,
}

impl DeepView for ContractDescriptor {
    type V = ContractDescriptorV;

    open spec fn deep_view(&self) -> ContractDescriptorV {
        ContractDescriptorV {
            name: self.name@,
            package_id: match self.package_id {
                Option::Some(p) => Option::Some(p@),
                Option::None => Option::None,
            },
            admin: self.admin@,
            instantiate_msg: match self.instantiate_msg {
                Option::Some(m) => Option::Some(m.deep_view()),
                Option::None => Option::None,
            },
            migrate_msg: match self.migrate_msg {
                Option::Some(m) => Option::Some(m.deep_view()),
                Option::None => Option::None,
            },
            set_config_msg: match self.set_config_msg {
                Option::Some(m) => Option::Some(m.deep_view()),
                Option::None => Option::None,
            },
            set_up_msgs: self.set_up_msgs.deep_view(),
            external_instantiate_msgs: self.external_instantiate_msgs.deep_view(),
        }
    }
}

impl ContractDescriptor {
    /// The cargo package id: the explicit one, or the contract name.
    pub fn package_id(&self) -> (r: &String)
        ensures
            r@ == self.deep_view().package(),
    {
        match &self.package_id {
            Option::Some(p) => p,
            Option::None => &self.name,
        }
    }

    /// The compiled binary's name: the package id in snake case.
    pub fn bin_name(&self) -> (r: String)
        ensures
            r@ == snake_of(self.deep_view().package()),
    {
        to_snake_case(self.package_id().as_str())
    }
}

} // verus!
