//! The deployment stage engine.
//!
//! Each invocation executes exactly one stage. The engine is split into
//! pure planning — turn the contract set and the registry into the exact
//! batch of requests for one transaction, or the error that forbids it —
//! and pure application — fold the chain's positional response back into
//! the registry. The caller submits each planned batch as one signed
//! transaction, skips the network call entirely when a batch is empty, and
//! persists the configuration after every applied response.

use vstd::prelude::*;

use crate::config::{lemma_lookup_upsert, lookup_contract, upsert_contract_spec, Config,
    ContractInfo, ContractInfoV, EnvV};
use crate::contract::{ContractDescriptor, ContractDescriptorV};
use crate::error::{DeployError, DeployErrorV};
use crate::request::{ExecRequest, ExecRequestV, InstantiateRequest, InstantiateRequestV,
    MigrateRequest, MigrateRequestV};
use crate::utils::{replace_strings, subst, subst_missing, subst_ok};

verus! {

/// The stage an invocation of the engine executes; terminal on completion
/// or failure, with no persisted transition between stages.
#[derive(Clone, Copy, Debug, PartialEq, Eq, Structural)]
pub enum DeploymentStage {
    StoreCode,
    Instantiate { interactive: bool },
    ExternalInstantiate,
    Migrate { interactive: bool },
    SetConfig,
    SetUp,
}

/// What one contract contributes to an instantiate batch: nothing if it
/// brings no message, one request otherwise; its registry entry must carry
/// a code id, and every `&`-reference in the message must resolve.
pub open spec fn inst_step(reg: Seq<ContractInfoV>, d: ContractDescriptorV) -> Result<
    Seq<InstantiateRequestV>,
    DeployErrorV,
> {
    match d.instantiate_msg {
        Option::None => Ok(Seq::empty()),
        Option::Some(m) => if !subst_ok(m, reg) {
            Err(DeployErrorV::AddrNotFound { name: subst_missing(m, reg) })
        } else {
            match lookup_contract(reg, d.name) {
                Option::None => Err(DeployErrorV::ContractNotFound { contract_name: d.name }),
                Option::Some(c) => match c.code_id {
                    Option::None => Err(DeployErrorV::CodeIdNotFound),
                    Option::Some(id) => Ok(
                        seq![
                            InstantiateRequestV {
                                code_id: id,
                                msg: subst(m, reg),
                                label: d.name,
                                admin: Option::Some(d.admin),
                                funds: Seq::empty(),
                            },
                        ],
                    ),
                },
            }
        },
    }
}

/// The instantiate batch for a contract set, built in call order; the
/// first failing contract's error wins.
pub open spec fn plan_instantiate_spec(reg: Seq<ContractInfoV>, ds: Seq<ContractDescriptorV>) -> Result<
    Seq<InstantiateRequestV>,
    DeployErrorV,
>
    decreases ds.len(),
{
    if ds.len() == 0 {
        Ok(Seq::empty())
    } else {
        match plan_instantiate_spec(reg, ds.drop_last()) {
            Err(e) => Err(e),
            Ok(prev) => match inst_step(reg, ds.last()) {
                Err(e) => Err(e),
                Ok(xs) => Ok(prev + xs),
            },
        }
    }
}

/// A failed prefix settles the whole plan.
pub proof fn lemma_plan_instantiate_err(reg: Seq<ContractInfoV>, ds: Seq<ContractDescriptorV>, i: int)
    requires
        0 <= i <= ds.len(),
        plan_instantiate_spec(reg, ds.subrange(0, i)) is Err,
    ensures
        plan_instantiate_spec(reg, ds) == plan_instantiate_spec(reg, ds.subrange(0, i)),
    decreases ds.len() - i,
{
    if i < ds.len() {
        assert(ds.subrange(0, i + 1).drop_last() =~= ds.subrange(0, i));
        lemma_plan_instantiate_err(reg, ds, i + 1);
    } else {
        assert(ds.subrange(0, i) =~= ds);
    }
}

/// What one contract contributes to a set-config batch: nothing if it
/// brings no message, one execute request against its own address
/// otherwise.
pub open spec fn set_config_step(reg: Seq<ContractInfoV>, d: ContractDescriptorV) -> Result<
    Seq<ExecRequestV>,
    DeployErrorV,
> {
    match d.set_config_msg {
        Option::None => Ok(Seq::empty()),
        Option::Some(m) => if !subst_ok(m, reg) {
            Err(DeployErrorV::AddrNotFound { name: subst_missing(m, reg) })
        } else {
            match lookup_contract(reg, d.name) {
                Option::None => Err(DeployErrorV::ContractNotFound { contract_name: d.name }),
                Option::Some(c) => match c.addr {
                    Option::None => Err(DeployErrorV::AddrNotFound { name: d.name }),
                    Option::Some(a) => Ok(
                        seq![
                            ExecRequestV { msg: subst(m, reg), funds: Seq::empty(), address: a },
                        ],
                    ),
                },
            }
        },
    }
}

/// The set-config batch for a contract set, in call order.
pub open spec fn plan_set_config_spec(reg: Seq<ContractInfoV>, ds: Seq<ContractDescriptorV>) -> Result<
    Seq<ExecRequestV>,
    DeployErrorV,
>
    decreases ds.len(),
{
    if ds.len() == 0 {
        Ok(Seq::empty())
    } else {
        match plan_set_config_spec(reg, ds.drop_last()) {
            Err(e) => Err(e),
            Ok(prev) => match set_config_step(reg, ds.last()) {
                Err(e) => Err(e),
                Ok(xs) => Ok(prev + xs),
            },
        }
    }
}

/// A failed prefix settles the whole plan.
pub proof fn lemma_plan_set_config_err(reg: Seq<ContractInfoV>, ds: Seq<ContractDescriptorV>, i: int)
    requires
        0 <= i <= ds.len(),
        plan_set_config_spec(reg, ds.subrange(0, i)) is Err,
    ensures
        plan_set_config_spec(reg, ds) == plan_set_config_spec(reg, ds.subrange(0, i)),
    decreases ds.len() - i,
{
    if i < ds.len() {
        assert(ds.subrange(0, i + 1).drop_last() =~= ds.subrange(0, i));
        lemma_plan_set_config_err(reg, ds, i + 1);
    } else {
        assert(ds.subrange(0, i) =~= ds);
    }
}

/// The instantiate requests one contract's external co-instantiations
/// contribute, in list order: each uses its own given code id and is
/// labelled with its own declared name, under the owning contract's admin.
pub open spec fn ext_reqs(
    reg: Seq<ContractInfoV>,
    admin: Seq<char>,
    es: Seq<crate::contract::ExternalInstantiateV>,
) -> Result<Seq<InstantiateRequestV>, DeployErrorV>
    decreases es.len(),
{
    if es.len() == 0 {
        Ok(Seq::empty())
    } else {
        match ext_reqs(reg, admin, es.drop_last()) {
            Err(e) => Err(e),
            Ok(prev) => {
                let x = es.last();
                if !subst_ok(x.msg, reg) {
                    Err(DeployErrorV::AddrNotFound { name: subst_missing(x.msg, reg) })
                } else {
                    Ok(
                        prev.push(
                            InstantiateRequestV {
                                code_id: x.code_id,
                                msg: subst(x.msg, reg),
                                label: x.name,
                                admin: Option::Some(admin),
                                funds: Seq::empty(),
                            },
                        ),
                    )
                }
            },
        }
    }
}

/// A failed prefix settles a contract's external requests.
pub proof fn lemma_ext_reqs_err(
    reg: Seq<ContractInfoV>,
    admin: Seq<char>,
    es: Seq<crate::contract::ExternalInstantiateV>,
    i: int,
)
    requires
        0 <= i <= es.len(),
        ext_reqs(reg, admin, es.subrange(0, i)) is Err,
    ensures
        ext_reqs(reg, admin, es) == ext_reqs(reg, admin, es.subrange(0, i)),
    decreases es.len() - i,
{
    if i < es.len() {
        assert(es.subrange(0, i + 1).drop_last() =~= es.subrange(0, i));
        lemma_ext_reqs_err(reg, admin, es, i + 1);
    } else {
        assert(es.subrange(0, i) =~= es);
    }
}

/// What one contract contributes to an external-instantiate batch.
pub open spec fn ext_step(reg: Seq<ContractInfoV>, d: ContractDescriptorV) -> Result<
    Seq<InstantiateRequestV>,
    DeployErrorV,
> {
    ext_reqs(reg, d.admin, d.external_instantiate_msgs)
}

/// The external-instantiate batch: every contract's co-instantiations,
/// flattened in contract order then list order.
pub open spec fn plan_external_spec(reg: Seq<ContractInfoV>, ds: Seq<ContractDescriptorV>) -> Result<
    Seq<InstantiateRequestV>,
    DeployErrorV,
>
    decreases ds.len(),
{
    if ds.len() == 0 {
        Ok(Seq::empty())
    } else {
        match plan_external_spec(reg, ds.drop_last()) {
            Err(e) => Err(e),
            Ok(prev) => match ext_step(reg, ds.last()) {
                Err(e) => Err(e),
                Ok(xs) => Ok(prev + xs),
            },
        }
    }
}

/// A failed prefix settles the whole plan.
pub proof fn lemma_plan_external_err(reg: Seq<ContractInfoV>, ds: Seq<ContractDescriptorV>, i: int)
    requires
        0 <= i <= ds.len(),
        plan_external_spec(reg, ds.subrange(0, i)) is Err,
    ensures
        plan_external_spec(reg, ds) == plan_external_spec(reg, ds.subrange(0, i)),
    decreases ds.len() - i,
{
    if i < ds.len() {
        assert(ds.subrange(0, i + 1).drop_last() =~= ds.subrange(0, i));
        lemma_plan_external_err(reg, ds, i + 1);
    } else {
        assert(ds.subrange(0, i) =~= ds);
    }
}

/// What one contract contributes to a migrate batch: nothing if it brings
/// no migrate message, one request otherwise; its registry entry must
/// carry both an address and a code id.
pub open spec fn migrate_step(reg: Seq<ContractInfoV>, d: ContractDescriptorV) -> Result<
    Seq<MigrateRequestV>,
    DeployErrorV,
> {
    match d.migrate_msg {
        Option::None => Ok(Seq::empty()),
        Option::Some(m) => if !subst_ok(m, reg) {
            Err(DeployErrorV::AddrNotFound { name: subst_missing(m, reg) })
        } else {
            match lookup_contract(reg, d.name) {
                Option::None => Err(DeployErrorV::ContractNotFound { contract_name: d.name }),
                Option::Some(c) => match c.addr {
                    Option::None => Err(DeployErrorV::AddrNotFound { name: d.name }),
                    Option::Some(a) => match c.code_id {
                        Option::None => Err(DeployErrorV::CodeIdNotFound),
                        Option::Some(id) => Ok(
                            seq![
                                MigrateRequestV {
                                    msg: subst(m, reg),
                                    address: a,
                                    new_code_id: id,
                                },
                            ],
                        ),
                    },
                },
            }
        },
    }
}

/// The migrate batch for a contract set, in call order.
pub open spec fn plan_migrate_spec(reg: Seq<ContractInfoV>, ds: Seq<ContractDescriptorV>) -> Result<
    Seq<MigrateRequestV>,
    DeployErrorV,
>
    decreases ds.len(),
{
    if ds.len() == 0 {
        Ok(Seq::empty())
    } else {
        match plan_migrate_spec(reg, ds.drop_last()) {
            Err(e) => Err(e),
            Ok(prev) => match migrate_step(reg, ds.last()) {
                Err(e) => Err(e),
                Ok(xs) => Ok(prev + xs),
            },
        }
    }
}

/// A failed prefix settles the whole plan.
pub proof fn lemma_plan_migrate_err(reg: Seq<ContractInfoV>, ds: Seq<ContractDescriptorV>, i: int)
    requires
        0 <= i <= ds.len(),
        plan_migrate_spec(reg, ds.subrange(0, i)) is Err,
    ensures
        plan_migrate_spec(reg, ds) == plan_migrate_spec(reg, ds.subrange(0, i)),
    decreases ds.len() - i,
{
    if i < ds.len() {
        assert(ds.subrange(0, i + 1).drop_last() =~= ds.subrange(0, i));
        lemma_plan_migrate_err(reg, ds, i + 1);
    } else {
        assert(ds.subrange(0, i) =~= ds);
    }
}

/// The execute requests one contract's set-up messages contribute, in
/// list order, each against the contract's own address.
pub open spec fn setup_msgs(
    reg: Seq<ContractInfoV>,
    name: Seq<char>,
    msgs: Seq<crate::json::JsonModel>,
) -> Result<Seq<ExecRequestV>, DeployErrorV>
    decreases msgs.len(),
{
    if msgs.len() == 0 {
        Ok(Seq::empty())
    } else {
        match setup_msgs(reg, name, msgs.drop_last()) {
            Err(e) => Err(e),
            Ok(prev) => {
                let m = msgs.last();
                if !subst_ok(m, reg) {
                    Err(DeployErrorV::AddrNotFound { name: subst_missing(m, reg) })
                } else {
                    match lookup_contract(reg, name) {
                        Option::None => Err(
                            DeployErrorV::ContractNotFound { contract_name: name },
                        ),
                        Option::Some(c) => match c.addr {
                            Option::None => Err(DeployErrorV::AddrNotFound { name }),
                            Option::Some(a) => Ok(
                                prev.push(
                                    ExecRequestV {
                                        msg: subst(m, reg),
                                        funds: Seq::empty(),
                                        address: a,
                                    },
                                ),
                            ),
                        },
                    }
                }
            },
        }
    }
}

/// A failed prefix settles a contract's set-up requests.
pub proof fn lemma_setup_msgs_err(
    reg: Seq<ContractInfoV>,
    name: Seq<char>,
    msgs: Seq<crate::json::JsonModel>,
    i: int,
)
    requires
        0 <= i <= msgs.len(),
        setup_msgs(reg, name, msgs.subrange(0, i)) is Err,
    ensures
        setup_msgs(reg, name, msgs) == setup_msgs(reg, name, msgs.subrange(0, i)),
    decreases msgs.len() - i,
{
    if i < msgs.len() {
        assert(msgs.subrange(0, i + 1).drop_last() =~= msgs.subrange(0, i));
        lemma_setup_msgs_err(reg, name, msgs, i + 1);
    } else {
        assert(msgs.subrange(0, i) =~= msgs);
    }
}

/// What one contract contributes to a set-up batch.
pub open spec fn setup_step(reg: Seq<ContractInfoV>, d: ContractDescriptorV) -> Result<
    Seq<ExecRequestV>,
    DeployErrorV,
> {
    setup_msgs(reg, d.name, d.set_up_msgs)
}

/// The set-up batch: every contract's ordered message list, flattened as
/// contract order crossed with within-contract message order.
pub open spec fn plan_set_up_spec(reg: Seq<ContractInfoV>, ds: Seq<ContractDescriptorV>) -> Result<
    Seq<ExecRequestV>,
    DeployErrorV,
>
    decreases ds.len(),
{
    if ds.len() == 0 {
        Ok(Seq::empty())
    } else {
        match plan_set_up_spec(reg, ds.drop_last()) {
            Err(e) => Err(e),
            Ok(prev) => match setup_step(reg, ds.last()) {
                Err(e) => Err(e),
                Ok(xs) => Ok(prev + xs),
            },
        }
    }
}

/// A failed prefix settles the whole plan.
pub proof fn lemma_plan_set_up_err(reg: Seq<ContractInfoV>, ds: Seq<ContractDescriptorV>, i: int)
    requires
        0 <= i <= ds.len(),
        plan_set_up_spec(reg, ds.subrange(0, i)) is Err,
    ensures
        plan_set_up_spec(reg, ds) == plan_set_up_spec(reg, ds.subrange(0, i)),
    decreases ds.len() - i,
{
    if i < ds.len() {
        assert(ds.subrange(0, i + 1).drop_last() =~= ds.subrange(0, i));
        lemma_plan_set_up_err(reg, ds, i + 1);
    } else {
        assert(ds.subrange(0, i) =~= ds);
    }
}

/// Build the instantiate batch: one request per contract that brings an
/// instantiate message, in contract order, with `&`-references resolved,
/// each contract's registered code id, its name as the label and its admin
/// address. Also returns, in the same order, the names of the contracts
/// that contributed a request: the chain's `addresses` land back on
/// exactly these.
///
/// Fails with `EnvNotFound` before anything else if no environment is
/// active; planning performs no network call.
#[verifier::loop_isolation(false)]
pub fn plan_instantiate(config: &Config, contracts: &Vec<ContractDescriptor>) -> (r: Result<
    (Vec<InstantiateRequest>, Vec<String>),
    DeployError,
>)
    requires
        config.deep_view().wf(),
    ensures
        !config.deep_view().has_active() ==> (r matches Err(e) && e.deep_view()
            == DeployErrorV::EnvNotFound),
        config.deep_view().has_active() ==> match plan_instantiate_spec(
            config.deep_view().active_env().contracts,
            contracts.deep_view(),
        ) {
            Ok(reqs) => r matches Ok(p) && p.0.deep_view() == reqs && p.1.deep_view().len()
                == reqs.len() && (forall|k: int|
                0 <= k < reqs.len() ==> p.1.deep_view()[k] == (#[trigger] reqs[k]).label),
            Err(e) => r matches Err(err) && err.deep_view() == e,
        },
{
    let env = match config.get_active_env() {
        Ok(e) => e,
        Err(e) => {
            return Err(e);
        },
    };
    let ghost reg: Seq<ContractInfoV> = config.deep_view().active_env().contracts;
    let ghost ds: Seq<ContractDescriptorV> = contracts.deep_view();
    let mut reqs: Vec<InstantiateRequest> = Vec::new();
    let mut names: Vec<String> = Vec::new();
    proof {
        assert(reqs.deep_view() =~= Seq::<InstantiateRequestV>::empty());
        assert(names.deep_view() =~= Seq::<Seq<char>>::empty());
    }
    let mut i: usize = 0;
    while i < contracts.len()
        invariant
            0 <= i <= ds.len(),
            plan_instantiate_spec(reg, ds.subrange(0, i as int)) == Ok::<_, DeployErrorV>(
                reqs.deep_view(),
            ),
            names.deep_view().len() == reqs.deep_view().len(),
            forall|k: int|
                0 <= k < reqs.deep_view().len() ==> names.deep_view()[k] == (
                #[trigger] reqs.deep_view()[k]).label,
        decreases ds.len() - i,
    {
        let ghost prev: Seq<InstantiateRequestV> = reqs.deep_view();
        proof {
            assert(ds.subrange(0, i + 1).drop_last() =~= ds.subrange(0, i as int));
            assert(ds.subrange(0, i + 1).last() == ds[i as int]);
        }
        let d = &contracts[i];
        match &d.instantiate_msg {
            Option::None => {
                proof {
                    assert(prev + Seq::<InstantiateRequestV>::empty() =~= prev);
                }
            },
            Option::Some(m) => {
                match replace_strings(m, &env.contracts) {
                    Err(e) => {
                        proof {
                            lemma_plan_instantiate_err(reg, ds, i + 1);
                        }
                        return Err(e);
                    },
                    Ok(newmsg) => {
                        match config.get_contract(&d.name) {
                            Err(e) => {
                                proof {
                                    lemma_plan_instantiate_err(reg, ds, i + 1);
                                }
                                return Err(e);
                            },
                            Ok(ci) => match ci.code_id {
                                Option::None => {
                                    proof {
                                        lemma_plan_instantiate_err(reg, ds, i + 1);
                                    }
                                    return Err(DeployError::CodeIdNotFound);
                                },
                                Option::Some(id) => {
                                    let req = InstantiateRequest {
                                        code_id: id,
                                        msg: newmsg,
                                        label: d.name.clone(),
                                        admin: Option::Some(d.admin.clone()),
                                        funds: Vec::new(),
                                    };
                                    proof {
                                        assert(prev + seq![req.deep_view()] =~= prev.push(
                                            req.deep_view(),
                                        ));
                                    }
                                    proof {
                                        assert(req.deep_view() =~= (InstantiateRequestV {
                                            code_id: id,
                                            msg: subst(m.deep_view(), reg),
                                            label: d.name@,
                                            admin: Option::Some(d.admin@),
                                            funds: Seq::empty(),
                                        }));
                                    }
                                    let ghost reqv = req.deep_view();
                                    reqs.push(req);
                                    names.push(d.name.clone());
                                    proof {
                                        assert(reqs.deep_view() =~= prev.push(reqv));
                                        assert(names.deep_view() =~= names.deep_view().drop_last().push(
                                            d.name@,
                                        ));
                                    }
                                },
                            },
                        }
                    },
                }
            },
        }
        i += 1;
    }
    proof {
        assert(ds.subrange(0, ds.len() as int) =~= ds);
    }
    Ok((reqs, names))
}

/// Build the set-config batch: one execute request per contract that
/// brings a set-config message, against that contract's own address, in
/// contract order, with `&`-references resolved.
///
/// A contract set in which every contract returns no set-config message
/// yields the empty batch and success: the caller then skips the chain
/// call entirely.
#[verifier::loop_isolation(false)]
pub fn plan_set_config(config: &Config, contracts: &Vec<ContractDescriptor>) -> (r: Result<
    Vec<ExecRequest>,
    DeployError,
>)
    requires
        config.deep_view().wf(),
    ensures
        !config.deep_view().has_active() ==> (r matches Err(e) && e.deep_view()
            == DeployErrorV::EnvNotFound),
        config.deep_view().has_active() ==> match plan_set_config_spec(
            config.deep_view().active_env().contracts,
            contracts.deep_view(),
        ) {
            Ok(reqs) => r matches Ok(p) && p.deep_view() == reqs,
            Err(e) => r matches Err(err) && err.deep_view() == e,
        },
{
    let env = match config.get_active_env() {
        Ok(e) => e,
        Err(e) => {
            return Err(e);
        },
    };
    let ghost reg: Seq<ContractInfoV> = config.deep_view().active_env().contracts;
    let ghost ds: Seq<ContractDescriptorV> = contracts.deep_view();
    let mut reqs: Vec<ExecRequest> = Vec::new();
    proof {
        assert(reqs.deep_view() =~= Seq::<ExecRequestV>::empty());
    }
    let mut i: usize = 0;
    while i < contracts.len()
        invariant
            0 <= i <= ds.len(),
            plan_set_config_spec(reg, ds.subrange(0, i as int)) == Ok::<_, DeployErrorV>(
                reqs.deep_view(),
            ),
        decreases ds.len() - i,
    {
        let ghost prev: Seq<ExecRequestV> = reqs.deep_view();
        proof {
            assert(ds.subrange(0, i + 1).drop_last() =~= ds.subrange(0, i as int));
            assert(ds.subrange(0, i + 1).last() == ds[i as int]);
        }
        let d = &contracts[i];
        match &d.set_config_msg {
            Option::None => {
                proof {
                    assert(prev + Seq::<ExecRequestV>::empty() =~= prev);
                }
            },
            Option::Some(m) => {
                match replace_strings(m, &env.contracts) {
                    Err(e) => {
                        proof {
                            lemma_plan_set_config_err(reg, ds, i + 1);
                        }
                        return Err(e);
                    },
                    Ok(newmsg) => {
                        match config.get_contract_addr(&d.name) {
                            Err(e) => {
                                proof {
                                    lemma_plan_set_config_err(reg, ds, i + 1);
                                }
                                return Err(e);
                            },
                            Ok(addr) => {
                                let req = ExecRequest {
                                    msg: newmsg,
                                    funds: Vec::new(),
                                    address: addr.clone(),
                                };
                                proof {
                                    assert(prev + seq![req.deep_view()] =~= prev.push(
                                        req.deep_view(),
                                    ));
                                }
                                proof {
                                    assert(req.deep_view().funds =~= Seq::<crate::request::CoinV>::empty());
                                }
                                let ghost reqv = req.deep_view();
                                reqs.push(req);
                                proof {
                                    assert(reqs.deep_view() =~= prev.push(reqv));
                                }
                            },
                        }
                    },
                }
            },
        }
        i += 1;
    }
    proof {
        assert(ds.subrange(0, ds.len() as int) =~= ds);
    }
    Ok(reqs)
}

/// Build the external-instantiate batch: every contract's
/// co-instantiation triples, flattened into one request list in contract
/// order then list order, each request using its *given* code id and
/// labelled with its own declared name. An empty batch means the caller
/// skips the chain call entirely: a no-op, not an error.
#[verifier::loop_isolation(false)]
pub fn plan_external_instantiate(config: &Config, contracts: &Vec<ContractDescriptor>) -> (r:
    Result<Vec<InstantiateRequest>, DeployError>)
    requires
        config.deep_view().wf(),
    ensures
        !config.deep_view().has_active() ==> (r matches Err(e) && e.deep_view()
            == DeployErrorV::EnvNotFound),
        config.deep_view().has_active() ==> match plan_external_spec(
            config.deep_view().active_env().contracts,
            contracts.deep_view(),
        ) {
            Ok(reqs) => r matches Ok(p) && p.deep_view() == reqs,
            Err(e) => r matches Err(err) && err.deep_view() == e,
        },
{
    let env = match config.get_active_env() {
        Ok(e) => e,
        Err(e) => {
            return Err(e);
        },
    };
    let ghost reg: Seq<ContractInfoV> = config.deep_view().active_env().contracts;
    let ghost ds: Seq<ContractDescriptorV> = contracts.deep_view();
    let mut reqs: Vec<InstantiateRequest> = Vec::new();
    proof {
        assert(reqs.deep_view() =~= Seq::<InstantiateRequestV>::empty());
    }
    let mut i: usize = 0;
    while i < contracts.len()
        invariant
            0 <= i <= ds.len(),
            plan_external_spec(reg, ds.subrange(0, i as int)) == Ok::<_, DeployErrorV>(
                reqs.deep_view(),
            ),
        decreases ds.len() - i,
    {
        let ghost prev: Seq<InstantiateRequestV> = reqs.deep_view();
        proof {
            assert(ds.subrange(0, i + 1).drop_last() =~= ds.subrange(0, i as int));
            assert(ds.subrange(0, i + 1).last() == ds[i as int]);
        }
        let d = &contracts[i];
        let ghost es = d.deep_view().external_instantiate_msgs;
        let ghost adm: Seq<char> = d.deep_view().admin;
        let mut xs: Vec<InstantiateRequest> = Vec::new();
        proof {
            assert(xs.deep_view() =~= Seq::<InstantiateRequestV>::empty());
        }
        let mut k: usize = 0;
        while k < d.external_instantiate_msgs.len()
            invariant
                0 <= k <= es.len(),
                ext_reqs(reg, adm, es.subrange(0, k as int)) == Ok::<_, DeployErrorV>(
                    xs.deep_view(),
                ),
            decreases es.len() - k,
        {
            let ghost xprev: Seq<InstantiateRequestV> = xs.deep_view();
            proof {
                assert(es.subrange(0, k + 1).drop_last() =~= es.subrange(0, k as int));
                assert(es.subrange(0, k + 1).last() == es[k as int]);
            }
            let x = &d.external_instantiate_msgs[k];
            match replace_strings(&x.msg, &env.contracts) {
                Err(e) => {
                    proof {
                        lemma_ext_reqs_err(reg, adm, es, k + 1);
                        lemma_plan_external_err(reg, ds, i + 1);
                    }
                    return Err(e);
                },
                Ok(newmsg) => {
                    let req = InstantiateRequest {
                        code_id: x.code_id,
                        msg: newmsg,
                        label: x.name.clone(),
                        admin: Option::Some(d.admin.clone()),
                        funds: Vec::new(),
                    };
                    proof {
                        assert(req.deep_view() =~= (InstantiateRequestV {
                            code_id: es[k as int].code_id,
                            msg: subst(es[k as int].msg, reg),
                            label: es[k as int].name,
                            admin: Option::Some(adm),
                            funds: Seq::empty(),
                        }));
                    }
                    let ghost reqv = req.deep_view();
                    xs.push(req);
                    proof {
                        assert(xs.deep_view() =~= xprev.push(reqv));
                    }
                },
            }
            k += 1;
        }
        proof {
            assert(es.subrange(0, es.len() as int) =~= es);
        }
        let ghost xsv: Seq<InstantiateRequestV> = xs.deep_view();
        let mut xs_moved = xs;
        reqs.append(&mut xs_moved);
        proof {
            assert(reqs.deep_view() =~= prev + xsv);
        }
        i += 1;
    }
    proof {
        assert(ds.subrange(0, ds.len() as int) =~= ds);
    }
    Ok(reqs)
}

/// Build the migrate batch: one request per contract that brings a
/// migrate message, repointing the contract's registered address at its
/// registered code id — presumed already updated by a prior store-code.
/// Migrating mutates no registry state.
#[verifier::loop_isolation(false)]
pub fn plan_migrate(config: &Config, contracts: &Vec<ContractDescriptor>) -> (r: Result<
    Vec<MigrateRequest>,
    DeployError,
>)
    requires
        config.deep_view().wf(),
    ensures
        !config.deep_view().has_active() ==> (r matches Err(e) && e.deep_view()
            == DeployErrorV::EnvNotFound),
        config.deep_view().has_active() ==> match plan_migrate_spec(
            config.deep_view().active_env().contracts,
            contracts.deep_view(),
        ) {
            Ok(reqs) => r matches Ok(p) && p.deep_view() == reqs,
            Err(e) => r matches Err(err) && err.deep_view() == e,
        },
{
    let env = match config.get_active_env() {
        Ok(e) => e,
        Err(e) => {
            return Err(e);
        },
    };
    let ghost reg: Seq<ContractInfoV> = config.deep_view().active_env().contracts;
    let ghost ds: Seq<ContractDescriptorV> = contracts.deep_view();
    let mut reqs: Vec<MigrateRequest> = Vec::new();
    proof {
        assert(reqs.deep_view() =~= Seq::<MigrateRequestV>::empty());
    }
    let mut i: usize = 0;
    while i < contracts.len()
        invariant
            0 <= i <= ds.len(),
            plan_migrate_spec(reg, ds.subrange(0, i as int)) == Ok::<_, DeployErrorV>(
                reqs.deep_view(),
            ),
        decreases ds.len() - i,
    {
        let ghost prev: Seq<MigrateRequestV> = reqs.deep_view();
        proof {
            assert(ds.subrange(0, i + 1).drop_last() =~= ds.subrange(0, i as int));
            assert(ds.subrange(0, i + 1).last() == ds[i as int]);
        }
        let d = &contracts[i];
        match &d.migrate_msg {
            Option::None => {
                proof {
                    assert(prev + Seq::<MigrateRequestV>::empty() =~= prev);
                }
            },
            Option::Some(m) => {
                match replace_strings(m, &env.contracts) {
                    Err(e) => {
                        proof {
                            lemma_plan_migrate_err(reg, ds, i + 1);
                        }
                        return Err(e);
                    },
                    Ok(newmsg) => {
                        match config.get_contract(&d.name) {
                            Err(e) => {
                                proof {
                                    lemma_plan_migrate_err(reg, ds, i + 1);
                                }
                                return Err(e);
                            },
                            Ok(ci) => match &ci.addr {
                                Option::None => {
                                    proof {
                                        lemma_plan_migrate_err(reg, ds, i + 1);
                                    }
                                    return Err(
                                        DeployError::AddrNotFound { name: d.name.clone() },
                                    );
                                },
                                Option::Some(addr) => match ci.code_id {
                                    Option::None => {
                                        proof {
                                            lemma_plan_migrate_err(reg, ds, i + 1);
                                        }
                                        return Err(DeployError::CodeIdNotFound);
                                    },
                                    Option::Some(id) => {
                                        let req = MigrateRequest {
                                            msg: newmsg,
                                            address: addr.clone(),
                                            new_code_id: id,
                                        };
                                        proof {
                                            assert(prev + seq![req.deep_view()] =~= prev.push(
                                                req.deep_view(),
                                            ));
                                        }
                                        let ghost reqv = req.deep_view();
                                        reqs.push(req);
                                        proof {
                                            assert(reqs.deep_view() =~= prev.push(reqv));
                                        }
                                    },
                                },
                            },
                        }
                    },
                }
            },
        }
        i += 1;
    }
    proof {
        assert(ds.subrange(0, ds.len() as int) =~= ds);
    }
    Ok(reqs)
}

/// Build the set-up batch: every contract's ordered set-up messages,
/// flattened as contract order crossed with within-contract message
/// order, each against the contract's own address. The whole batch still
/// lands in one atomic transaction, so every message must be valid
/// against pre-transaction state.
#[verifier::loop_isolation(false)]
pub fn plan_set_up(config: &Config, contracts: &Vec<ContractDescriptor>) -> (r: Result<
    Vec<ExecRequest>,
    DeployError,
>)
    requires
        config.deep_view().wf(),
    ensures
        !config.deep_view().has_active() ==> (r matches Err(e) && e.deep_view()
            == DeployErrorV::EnvNotFound),
        config.deep_view().has_active() ==> match plan_set_up_spec(
            config.deep_view().active_env().contracts,
            contracts.deep_view(),
        ) {
            Ok(reqs) => r matches Ok(p) && p.deep_view() == reqs,
            Err(e) => r matches Err(err) && err.deep_view() == e,
        },
{
    let env = match config.get_active_env() {
        Ok(e) => e,
        Err(e) => {
            return Err(e);
        },
    };
    let ghost reg: Seq<ContractInfoV> = config.deep_view().active_env().contracts;
    let ghost ds: Seq<ContractDescriptorV> = contracts.deep_view();
    let mut reqs: Vec<ExecRequest> = Vec::new();
    proof {
        assert(reqs.deep_view() =~= Seq::<ExecRequestV>::empty());
    }
    let mut i: usize = 0;
    while i < contracts.len()
        invariant
            0 <= i <= ds.len(),
            plan_set_up_spec(reg, ds.subrange(0, i as int)) == Ok::<_, DeployErrorV>(
                reqs.deep_view(),
            ),
        decreases ds.len() - i,
    {
        let ghost prev: Seq<ExecRequestV> = reqs.deep_view();
        proof {
            assert(ds.subrange(0, i + 1).drop_last() =~= ds.subrange(0, i as int));
            assert(ds.subrange(0, i + 1).last() == ds[i as int]);
        }
        let d = &contracts[i];
        let ghost msgs = d.deep_view().set_up_msgs;
        let ghost dname: Seq<char> = d.deep_view().name;
        let mut xs: Vec<ExecRequest> = Vec::new();
        proof {
            assert(xs.deep_view() =~= Seq::<ExecRequestV>::empty());
        }
        let mut k: usize = 0;
        while k < d.set_up_msgs.len()
            invariant
                0 <= k <= msgs.len(),
                setup_msgs(reg, dname, msgs.subrange(0, k as int)) == Ok::<_, DeployErrorV>(
                    xs.deep_view(),
                ),
            decreases msgs.len() - k,
        {
            let ghost xprev: Seq<ExecRequestV> = xs.deep_view();
            proof {
                assert(msgs.subrange(0, k + 1).drop_last() =~= msgs.subrange(0, k as int));
                assert(msgs.subrange(0, k + 1).last() == msgs[k as int]);
            }
            match replace_strings(&d.set_up_msgs[k], &env.contracts) {
                Err(e) => {
                    proof {
                        lemma_setup_msgs_err(reg, dname, msgs, k + 1);
                        lemma_plan_set_up_err(reg, ds, i + 1);
                    }
                    return Err(e);
                },
                Ok(newmsg) => {
                    match config.get_contract_addr(&d.name) {
                        Err(e) => {
                            proof {
                                lemma_setup_msgs_err(reg, dname, msgs, k + 1);
                                lemma_plan_set_up_err(reg, ds, i + 1);
                            }
                            return Err(e);
                        },
                        Ok(addr) => {
                            let req = ExecRequest {
                                msg: newmsg,
                                funds: Vec::new(),
                                address: addr.clone(),
                            };
                            proof {
                                assert(req.deep_view().funds =~= Seq::<
                                    crate::request::CoinV,
                                >::empty());
                            }
                            let ghost reqv = req.deep_view();
                            xs.push(req);
                            proof {
                                assert(xs.deep_view() =~= xprev.push(reqv));
                            }
                        },
                    }
                },
            }
            k += 1;
        }
        proof {
            assert(msgs.subrange(0, msgs.len() as int) =~= msgs);
        }
        let ghost xsv: Seq<ExecRequestV> = xs.deep_view();
        let mut xs_moved = xs;
        reqs.append(&mut xs_moved);
        proof {
            assert(reqs.deep_view() =~= prev + xsv);
        }
        i += 1;
    }
    proof {
        assert(ds.subrange(0, ds.len() as int) =~= ds);
    }
    Ok(reqs)
}

/// Ghost mirror of [`StoreChunk`].
#[verifier::ext_equal]
pub struct StoreChunkV {
    pub names: Seq<Seq<char>>,
    pub paths: Seq<Seq<char>>,
}

/// One store-code chunk: the contracts whose code goes into one
/// transaction, and the artifact file to read for each, positionally.
#[derive(Debug)]
pub struct StoreChunk {
    pub names: Vec<String>,
    pub paths: Vec<String>,
}

impl DeepView for StoreChunk {
    type V = StoreChunkV;

    open spec fn deep_view(&self) -> StoreChunkV {
        StoreChunkV { names: self.names.deep_view(), paths: self.paths.deep_view() }
    }
}

/// Where a contract's compiled-and-gzipped artifact lives.
pub open spec fn artifact_path_spec(dir: Seq<char>, d: ContractDescriptorV) -> Seq<char> {
    dir + "/"@ + crate::contract::snake_of(d.package()) + ".wasm.gz"@
}

/// The artifact file the store-code stage reads for one contract.
pub fn artifact_path(artifacts_dir: &String, d: &ContractDescriptor) -> (r: String)
    ensures
        r@ == artifact_path_spec(artifacts_dir@, d.deep_view()),
{
    let mut s = artifacts_dir.clone();
    s.append("/");
    let b = d.bin_name();
    s.append(b.as_str());
    s.append(".wasm.gz");
    proof {
        assert(s@ =~= artifact_path_spec(artifacts_dir@, d.deep_view()));
    }
    s
}

/// How many chunks a batch of `n` splits into at `size` per chunk.
pub open spec fn chunk_count(n: int, size: int) -> int {
    if n == 0 {
        0
    } else {
        ((n - 1) / size) + 1
    }
}

/// How long chunk `ci` is: `size`, except a shorter final chunk.
pub open spec fn chunk_len(n: int, size: int, ci: int) -> int {
    if (ci + 1) * size <= n {
        size
    } else {
        n - ci * size
    }
}

/// Partition the contract set into store-code chunks of at most
/// `chunk_size` contracts, in order: chunk `ci` holds the contracts at
/// positions `ci * chunk_size` onward, each with its artifact path. The
/// caller submits one chunk per transaction, sequentially, and persists
/// the registry after each, so a later chunk's failure cannot lose an
/// earlier chunk's progress.
#[verifier::loop_isolation(false)]
pub fn plan_store_code(
    contracts: &Vec<ContractDescriptor>,
    artifacts_dir: &String,
    chunk_size: usize,
) -> (r: Vec<StoreChunk>)
    requires
        chunk_size >= 1,
    ensures
        ({
            let n = contracts@.len() as int;
            let cs = chunk_size as int;
            let ds = contracts.deep_view();
            &&& r@.len() == chunk_count(n, cs)
            &&& forall|ci: int|
                0 <= ci < r@.len() ==> (#[trigger] r@[ci]).deep_view().names.len() == chunk_len(
                    n,
                    cs,
                    ci,
                ) && r@[ci].deep_view().paths.len() == chunk_len(n, cs, ci)
            &&& forall|ci: int, off: int|
                0 <= ci < r@.len() && 0 <= off < chunk_len(n, cs, ci) ==> (
                #[trigger] r@[ci].deep_view().names[off]) == ds[ci * cs + off].name
            &&& forall|ci: int, off: int|
                0 <= ci < r@.len() && 0 <= off < chunk_len(n, cs, ci) ==> (
                #[trigger] r@[ci].deep_view().paths[off]) == artifact_path_spec(
                    artifacts_dir@,
                    ds[ci * cs + off],
                )
        }),
{
    let n: usize = contracts.len();
    let ghost cs: int = chunk_size as int;
    let ghost ds = contracts.deep_view();
    let mut out: Vec<StoreChunk> = Vec::new();
    let mut start: usize = 0;
    while start < n
        invariant
            0 <= start <= n,
            n == contracts@.len(),
            start == out@.len() * cs || (start == n && out@.len() == chunk_count(n as int, cs)),
            forall|ci: int|
                0 <= ci < out@.len() ==> (#[trigger] out@[ci]).deep_view().names.len()
                    == chunk_len(n as int, cs, ci) && out@[ci].deep_view().paths.len()
                    == chunk_len(n as int, cs, ci),
            forall|ci: int, off: int|
                0 <= ci < out@.len() && 0 <= off < chunk_len(n as int, cs, ci) ==> (
                #[trigger] out@[ci].deep_view().names[off]) == ds[ci * cs + off].name,
            forall|ci: int, off: int|
                0 <= ci < out@.len() && 0 <= off < chunk_len(n as int, cs, ci) ==> (
                #[trigger] out@[ci].deep_view().paths[off]) == artifact_path_spec(
                    artifacts_dir@,
                    ds[ci * cs + off],
                ),
        decreases n - start,
    {
        let ghost ci: int = out@.len() as int;
        proof {
            assert(start == ci * cs);
        }
        let end: usize = if n - start < chunk_size {
            n
        } else {
            start + chunk_size
        };
        proof {
            assert(start < end <= n);
            assert(end - start <= cs);
            assert(end == n || end - start == cs);
            assert(chunk_len(n as int, cs, ci) == end - start) by (nonlinear_arith)
                requires
                    start == ci * cs,
                    cs >= 1,
                    start < end <= n,
                    end == n || end - start == cs,
                    end - start <= cs,
            ;
        }
        let mut names: Vec<String> = Vec::new();
        let mut paths: Vec<String> = Vec::new();
        let mut j: usize = start;
        while j < end
            invariant
                start <= j <= end,
                names@.len() == j - start,
                paths@.len() == j - start,
                forall|off: int|
                    0 <= off < j - start ==> (#[trigger] names.deep_view()[off]) == ds[start
                        + off].name,
                forall|off: int|
                    0 <= off < j - start ==> (#[trigger] paths.deep_view()[off])
                        == artifact_path_spec(artifacts_dir@, ds[start + off]),
            decreases end - j,
        {
            let ghost pnames = names.deep_view();
            let ghost ppaths = paths.deep_view();
            names.push(contracts[j].name.clone());
            paths.push(artifact_path(artifacts_dir, &contracts[j]));
            proof {
                assert(names.deep_view() =~= pnames.push(ds[j as int].name));
                assert(paths.deep_view() =~= ppaths.push(
                    artifact_path_spec(artifacts_dir@, ds[j as int]),
                ));
            }
            j += 1;
        }
        let chunk = StoreChunk { names, paths };
        out.push(chunk);
        proof {
            if end < n {
                assert(end == start + chunk_size);
                assert(end == (ci + 1) * cs) by (nonlinear_arith)
                    requires
                        start == ci * cs,
                        end == start + cs,
                ;
            } else {
                assert(end == n);
                if end - start == cs {
                    assert(n == (ci + 1) * cs) by (nonlinear_arith)
                        requires
                            start == ci * cs,
                            n == start + cs,
                    ;
                    assert(chunk_count(n as int, cs) == ci + 1) by (nonlinear_arith)
                        requires
                            n == (ci + 1) * cs,
                            cs >= 1,
                            n > 0,
                            ci >= 0,
                    ;
                } else {
                    assert(chunk_count(n as int, cs) == ci + 1) by (nonlinear_arith)
                        requires
                            start == ci * cs,
                            cs >= 1,
                            ci >= 0,
                            start < n,
                            n - start < cs,
                    ;
                }
            }
        }
        start = end;
    }
    proof {
        if n == 0 {
            assert(out@.len() * cs == 0);
            assert(out@.len() == 0) by (nonlinear_arith)
                requires
                    out@.len() * cs == 0,
                    cs >= 1,
            ;
        } else {
            if start == out@.len() * cs {
                let m = out@.len() as int;
                assert(chunk_count(n as int, cs) == m) by (nonlinear_arith)
                    requires
                        n as int == m * cs,
                        cs >= 1,
                        n > 0,
                        m >= 0,
                ;
            }
        }
    }
    out
}

/// The entry a store-code response writes for `name`: the existing entry
/// with its code id overwritten, or a fresh entry with no address.
pub open spec fn store_entry(s: Seq<ContractInfoV>, name: Seq<char>, id: u64) -> ContractInfoV {
    match lookup_contract(s, name) {
        Option::Some(c) => ContractInfoV { code_id: Option::Some(id), ..c },
        Option::None => ContractInfoV { name, addr: Option::None, code_id: Option::Some(id) },
    }
}

/// The registry after a store-code response: `code_ids[i]` lands on
/// `names[i]`, in order.
pub open spec fn apply_codes(s: Seq<ContractInfoV>, names: Seq<Seq<char>>, ids: Seq<u64>) -> Seq<
    ContractInfoV,
>
    decreases names.len(),
{
    if names.len() == 0 {
        s
    } else {
        let prev = apply_codes(s, names.drop_last(), ids.drop_last());
        upsert_contract_spec(prev, store_entry(prev, names.last(), ids.last()))
    }
}

/// The entry an instantiate response writes for `name`: the existing
/// entry with its address overwritten.
pub open spec fn addr_entry(s: Seq<ContractInfoV>, name: Seq<char>, a: Seq<char>) -> ContractInfoV {
    match lookup_contract(s, name) {
        Option::Some(c) => ContractInfoV { addr: Option::Some(a), ..c },
        Option::None => ContractInfoV { name, addr: Option::Some(a), code_id: Option::None },
    }
}

/// The registry after an instantiate response: `addrs[i]` lands on
/// `names[i]`, in order.
pub open spec fn apply_addrs(s: Seq<ContractInfoV>, names: Seq<Seq<char>>, addrs: Seq<Seq<char>>) -> Seq<
    ContractInfoV,
>
    decreases names.len(),
{
    if names.len() == 0 {
        s
    } else {
        let prev = apply_addrs(s, names.drop_last(), addrs.drop_last());
        upsert_contract_spec(prev, addr_entry(prev, names.last(), addrs.last()))
    }
}

/// The registry after an external-instantiate response: each declared
/// name is registered with its given code id and returned address.
pub open spec fn apply_external(
    s: Seq<ContractInfoV>,
    names: Seq<Seq<char>>,
    ids: Seq<u64>,
    addrs: Seq<Seq<char>>,
) -> Seq<ContractInfoV>
    decreases names.len(),
{
    if names.len() == 0 {
        s
    } else {
        upsert_contract_spec(
            apply_external(s, names.drop_last(), ids.drop_last(), addrs.drop_last()),
            ContractInfoV {
                name: names.last(),
                addr: Option::Some(addrs.last()),
                code_id: Option::Some(ids.last()),
            },
        )
    }
}

/// First position whose name has no entry in `s`, if any.
pub open spec fn first_missing_from(s: Seq<ContractInfoV>, names: Seq<Seq<char>>, i: int) -> Option<
    int,
>
    decreases names.len() - i,
    when 0 <= i <= names.len()
{
    if i >= names.len() {
        Option::None
    } else if lookup_contract(s, names[i]) is None {
        Option::Some(i)
    } else {
        first_missing_from(s, names, i + 1)
    }
}

/// What `first_missing_from` returns, spelled out index-wise.
pub proof fn lemma_first_missing_from(s: Seq<ContractInfoV>, names: Seq<Seq<char>>, i: int)
    requires
        0 <= i <= names.len(),
    ensures
        match first_missing_from(s, names, i) {
            Option::Some(j) => i <= j < names.len() && lookup_contract(s, names[j]) is None && (
            forall|k: int| i <= k < j ==> lookup_contract(s, #[trigger] names[k]) is Some),
            Option::None => forall|k: int|
                i <= k < names.len() ==> lookup_contract(s, #[trigger] names[k]) is Some,
        },
    decreases names.len() - i,
{
    if i < names.len() && lookup_contract(s, names[i]) is Some {
        lemma_first_missing_from(s, names, i + 1);
    }
}

/// Applying addresses never removes a registered name.
pub proof fn lemma_apply_addrs_preserves_found(
    s: Seq<ContractInfoV>,
    names: Seq<Seq<char>>,
    addrs: Seq<Seq<char>>,
    n: Seq<char>,
)
    requires
        lookup_contract(s, n) is Some,
    ensures
        lookup_contract(apply_addrs(s, names, addrs), n) is Some,
    decreases names.len(),
{
    if names.len() > 0 {
        lemma_apply_addrs_preserves_found(s, names.drop_last(), addrs.drop_last(), n);
        let prev = apply_addrs(s, names.drop_last(), addrs.drop_last());
        lemma_lookup_upsert(prev, addr_entry(prev, names.last(), addrs.last()), n);
    }
}

/// Duplicate one registry entry, field by field.
fn clone_contract_info(c: &ContractInfo) -> (r: ContractInfo)
    ensures
        r.deep_view() == c.deep_view(),
{
    ContractInfo {
        name: c.name.clone(),
        addr: match &c.addr {
            Option::Some(a) => Option::Some(a.clone()),
            Option::None => Option::None,
        },
        code_id: c.code_id,
    }
}

/// Fold a committed store-code response back into the registry:
/// `code_ids[i]` is recorded for `names[i]` — the i-th contract of the
/// submitted chunk, in the order the requests were built. An entry is
/// created for a contract stored for the first time; a re-stored
/// contract keeps its address and gets the new code id.
///
/// On any error the configuration is left unchanged; the caller persists
/// it after every applied chunk, so an earlier chunk's progress survives
/// a later chunk's failure.
#[verifier::loop_isolation(false)]
pub fn apply_store_code(config: &mut Config, names: &Vec<String>, code_ids: &Vec<u64>) -> (r:
    Result<(), DeployError>)
    requires
        old(config).deep_view().wf(),
        names@.len() == code_ids@.len(),
    ensures
        !old(config).deep_view().has_active() ==> (r matches Err(e) && e.deep_view()
            == DeployErrorV::EnvNotFound && *final(config) == *old(config)),
        old(config).deep_view().has_active() ==> (r is Ok && final(config).deep_view() == old(
            config,
        ).deep_view().with_active_contracts(
            apply_codes(
                old(config).deep_view().active_env().contracts,
                names.deep_view(),
                code_ids@,
            ),
        ) && final(config).deep_view().wf() && final(config).deep_view().has_active()),
{
    let ghost c0 = old(config).deep_view();
    match config.get_active_env() {
        Err(e) => {
            return Err(e);
        },
        Ok(_) => {},
    }
    let ghost s0: Seq<ContractInfoV> = c0.active_env().contracts;
    let ghost nv: Seq<Seq<char>> = names.deep_view();
    let ghost iv: Seq<u64> = code_ids@;
    proof {
        assert(apply_codes(s0, nv.subrange(0, 0), iv.subrange(0, 0)) == s0);
        assert(c0.with_active_contracts(s0).envs =~= c0.envs) by {
            assert(EnvV { contracts: c0.active_env().contracts, ..c0.active_env() }
                =~= c0.active_env());
        }
        assert(c0.with_active_contracts(s0) =~= c0);
    }
    let mut i: usize = 0;
    while i < names.len()
        invariant
            0 <= i <= nv.len(),
            config.deep_view() == c0.with_active_contracts(
                apply_codes(s0, nv.subrange(0, i as int), iv.subrange(0, i as int)),
            ),
            config.deep_view().wf(),
            config.deep_view().has_active(),
            config.deep_view().active_idx() == c0.active_idx(),
            config.deep_view().active_env() == (EnvV {
                contracts: apply_codes(s0, nv.subrange(0, i as int), iv.subrange(0, i as int)),
                ..c0.active_env()
            }),
        decreases nv.len() - i,
    {
        let ghost cur = config.deep_view();
        let ghost scur: Seq<ContractInfoV> = cur.active_env().contracts;
        proof {
            assert(nv.subrange(0, i + 1).drop_last() =~= nv.subrange(0, i as int));
            assert(iv.subrange(0, i + 1).drop_last() =~= iv.subrange(0, i as int));
        }
        let entry: ContractInfo = match config.get_contract(&names[i]) {
            Ok(ci) => {
                let mut e = clone_contract_info(ci);
                e.code_id = Option::Some(code_ids[i]);
                e
            },
            Err(_) => ContractInfo {
                name: names[i].clone(),
                addr: Option::None,
                code_id: Option::Some(code_ids[i]),
            },
        };
        proof {
            assert(entry.deep_view() =~= store_entry(scur, nv[i as int], iv[i as int]));
            crate::config::lemma_upsert_wf(cur, entry.deep_view());
        }
        match config.add_contract_from(entry) {
            Ok(_) => {},
            Err(e) => {
                proof {
                    assert(false);
                }
                return Err(e);
            },
        }
        proof {
            let snext = apply_codes(s0, nv.subrange(0, i + 1), iv.subrange(0, i + 1));
            assert(snext == upsert_contract_spec(scur, store_entry(scur, nv[i as int], iv[i as int])));
            assert(config.deep_view().envs =~= c0.with_active_contracts(snext).envs);
            assert(config.deep_view() =~= c0.with_active_contracts(snext));
            assert(config.deep_view().active_env() =~= (EnvV {
                contracts: snext,
                ..c0.active_env()
            }));
        }
        i += 1;
    }
    proof {
        assert(nv.subrange(0, nv.len() as int) =~= nv);
        assert(iv.subrange(0, iv.len() as int) =~= iv);
    }
    Ok(())
}

/// Fold a committed instantiate response back into the registry:
/// `addresses[i]` is recorded for `names[i]` — the i-th contract that
/// contributed a request, so contracts skipped for want of a message
/// consume no response slot.
///
/// Every named contract must already be registered; otherwise nothing is
/// changed and `ContractNotFound` names the first one missing.
#[verifier::loop_isolation(false)]
pub fn apply_instantiate(config: &mut Config, names: &Vec<String>, addresses: &Vec<String>) -> (r:
    Result<(), DeployError>)
    requires
        old(config).deep_view().wf(),
        names@.len() == addresses@.len(),
    ensures
        !old(config).deep_view().has_active() ==> (r matches Err(e) && e.deep_view()
            == DeployErrorV::EnvNotFound && *final(config) == *old(config)),
        old(config).deep_view().has_active() ==> match first_missing_from(
            old(config).deep_view().active_env().contracts,
            names.deep_view(),
            0,
        ) {
            Option::Some(k) => r matches Err(e) && e.deep_view()
                == (DeployErrorV::ContractNotFound { contract_name: names.deep_view()[k] })
                && *final(config) == *old(config),
            Option::None => r is Ok && final(config).deep_view() == old(
                config,
            ).deep_view().with_active_contracts(
                apply_addrs(
                    old(config).deep_view().active_env().contracts,
                    names.deep_view(),
                    addresses.deep_view(),
                ),
            ) && final(config).deep_view().wf() && final(config).deep_view().has_active(),
        },
{
    let ghost c0 = old(config).deep_view();
    match config.get_active_env() {
        Err(e) => {
            return Err(e);
        },
        Ok(_) => {},
    }
    let ghost s0: Seq<ContractInfoV> = c0.active_env().contracts;
    let ghost nv: Seq<Seq<char>> = names.deep_view();
    let ghost av: Seq<Seq<char>> = addresses.deep_view();
    let mut k: usize = 0;
    while k < names.len()
        invariant
            0 <= k <= nv.len(),
            *config == *old(config),
            first_missing_from(s0, nv, 0) == first_missing_from(s0, nv, k as int),
        decreases nv.len() - k,
    {
        match config.get_contract(&names[k]) {
            Ok(_) => {},
            Err(e) => {
                return Err(e);
            },
        }
        k += 1;
    }
    proof {
        lemma_first_missing_from(s0, nv, 0);
        assert(apply_addrs(s0, nv.subrange(0, 0), av.subrange(0, 0)) == s0);
        assert(c0.with_active_contracts(s0).envs =~= c0.envs) by {
            assert(EnvV { contracts: c0.active_env().contracts, ..c0.active_env() }
                =~= c0.active_env());
        }
        assert(c0.with_active_contracts(s0) =~= c0);
    }
    let mut i: usize = 0;
    while i < names.len()
        invariant
            0 <= i <= nv.len(),
            first_missing_from(s0, nv, 0) is None,
            config.deep_view() == c0.with_active_contracts(
                apply_addrs(s0, nv.subrange(0, i as int), av.subrange(0, i as int)),
            ),
            config.deep_view().wf(),
            config.deep_view().has_active(),
            config.deep_view().active_idx() == c0.active_idx(),
            config.deep_view().active_env() == (EnvV {
                contracts: apply_addrs(s0, nv.subrange(0, i as int), av.subrange(0, i as int)),
                ..c0.active_env()
            }),
        decreases nv.len() - i,
    {
        let ghost cur = config.deep_view();
        let ghost scur: Seq<ContractInfoV> = cur.active_env().contracts;
        proof {
            assert(nv.subrange(0, i + 1).drop_last() =~= nv.subrange(0, i as int));
            assert(av.subrange(0, i + 1).drop_last() =~= av.subrange(0, i as int));
            lemma_first_missing_from(s0, nv, 0);
            lemma_apply_addrs_preserves_found(
                s0,
                nv.subrange(0, i as int),
                av.subrange(0, i as int),
                nv[i as int],
            );
        }
        let entry: ContractInfo = match config.get_contract(&names[i]) {
            Ok(ci) => {
                let mut e = clone_contract_info(ci);
                e.addr = Option::Some(addresses[i].clone());
                e
            },
            Err(e) => {
                proof {
                    assert(false);
                }
                return Err(e);
            },
        };
        proof {
            assert(entry.deep_view() =~= addr_entry(scur, nv[i as int], av[i as int]));
            crate::config::lemma_upsert_wf(cur, entry.deep_view());
        }
        match config.add_contract_from(entry) {
            Ok(_) => {},
            Err(e) => {
                proof {
                    assert(false);
                }
                return Err(e);
            },
        }
        proof {
            let snext = apply_addrs(s0, nv.subrange(0, i + 1), av.subrange(0, i + 1));
            assert(snext == upsert_contract_spec(scur, addr_entry(scur, nv[i as int], av[i as int])));
            assert(config.deep_view().envs =~= c0.with_active_contracts(snext).envs);
            assert(config.deep_view() =~= c0.with_active_contracts(snext));
            assert(config.deep_view().active_env() =~= (EnvV {
                contracts: snext,
                ..c0.active_env()
            }));
        }
        i += 1;
    }
    proof {
        assert(nv.subrange(0, nv.len() as int) =~= nv);
        assert(av.subrange(0, av.len() as int) =~= av);
    }
    Ok(())
}

/// Fold a committed external-instantiate response back into the
/// registry: each declared name is registered — created or overwritten —
/// with its given code id and the address the chain returned for it,
/// positionally.
#[verifier::loop_isolation(false)]
pub fn apply_external_instantiate(
    config: &mut Config,
    names: &Vec<String>,
    code_ids: &Vec<u64>,
    addresses: &Vec<String>,
) -> (r: Result<(), DeployError>)
    requires
        old(config).deep_view().wf(),
        names@.len() == code_ids@.len(),
        names@.len() == addresses@.len(),
    ensures
        !old(config).deep_view().has_active() ==> (r matches Err(e) && e.deep_view()
            == DeployErrorV::EnvNotFound && *final(config) == *old(config)),
        old(config).deep_view().has_active() ==> (r is Ok && final(config).deep_view() == old(
            config,
        ).deep_view().with_active_contracts(
            apply_external(
                old(config).deep_view().active_env().contracts,
                names.deep_view(),
                code_ids@,
                addresses.deep_view(),
            ),
        ) && final(config).deep_view().wf() && final(config).deep_view().has_active()),
{
    let ghost c0 = old(config).deep_view();
    match config.get_active_env() {
        Err(e) => {
            return Err(e);
        },
        Ok(_) => {},
    }
    let ghost s0: Seq<ContractInfoV> = c0.active_env().contracts;
    let ghost nv: Seq<Seq<char>> = names.deep_view();
    let ghost iv: Seq<u64> = code_ids@;
    let ghost av: Seq<Seq<char>> = addresses.deep_view();
    proof {
        assert(apply_external(s0, nv.subrange(0, 0), iv.subrange(0, 0), av.subrange(0, 0)) == s0);
        assert(c0.with_active_contracts(s0).envs =~= c0.envs) by {
            assert(EnvV { contracts: c0.active_env().contracts, ..c0.active_env() }
                =~= c0.active_env());
        }
        assert(c0.with_active_contracts(s0) =~= c0);
    }
    let mut i: usize = 0;
    while i < names.len()
        invariant
            0 <= i <= nv.len(),
            config.deep_view() == c0.with_active_contracts(
                apply_external(
                    s0,
                    nv.subrange(0, i as int),
                    iv.subrange(0, i as int),
                    av.subrange(0, i as int),
                ),
            ),
            config.deep_view().wf(),
            config.deep_view().has_active(),
            config.deep_view().active_idx() == c0.active_idx(),
            config.deep_view().active_env() == (EnvV {
                contracts: apply_external(
                    s0,
                    nv.subrange(0, i as int),
                    iv.subrange(0, i as int),
                    av.subrange(0, i as int),
                ),
                ..c0.active_env()
            }),
        decreases nv.len() - i,
    {
        let ghost cur = config.deep_view();
        let ghost scur: Seq<ContractInfoV> = cur.active_env().contracts;
        proof {
            assert(nv.subrange(0, i + 1).drop_last() =~= nv.subrange(0, i as int));
            assert(iv.subrange(0, i + 1).drop_last() =~= iv.subrange(0, i as int));
            assert(av.subrange(0, i + 1).drop_last() =~= av.subrange(0, i as int));
        }
        let entry = ContractInfo {
            name: names[i].clone(),
            addr: Option::Some(addresses[i].clone()),
            code_id: Option::Some(code_ids[i]),
        };
        proof {
            assert(entry.deep_view() =~= (ContractInfoV {
                name: nv[i as int],
                addr: Option::Some(av[i as int]),
                code_id: Option::Some(iv[i as int]),
            }));
            crate::config::lemma_upsert_wf(cur, entry.deep_view());
        }
        match config.add_contract_from(entry) {
            Ok(_) => {},
            Err(e) => {
                proof {
                    assert(false);
                }
                return Err(e);
            },
        }
        proof {
            let snext = apply_external(
                s0,
                nv.subrange(0, i + 1),
                iv.subrange(0, i + 1),
                av.subrange(0, i + 1),
            );
            assert(config.deep_view().envs =~= c0.with_active_contracts(snext).envs);
            assert(config.deep_view() =~= c0.with_active_contracts(snext));
            assert(config.deep_view().active_env() =~= (EnvV {
                contracts: snext,
                ..c0.active_env()
            }));
        }
        i += 1;
    }
    proof {
        assert(nv.subrange(0, nv.len() as int) =~= nv);
        assert(iv.subrange(0, iv.len() as int) =~= iv);
        assert(av.subrange(0, av.len() as int) =~= av);
    }
    Ok(())
}

/// The stage order of a full deployment: build output is stored, the
/// contracts and their external co-instantiations come alive, then the
/// post-instantiate configuration and set-up messages run.
pub fn deploy_stages() -> (r: Vec<DeploymentStage>)
    ensures
        r@ == seq![
            DeploymentStage::StoreCode,
            DeploymentStage::Instantiate { interactive: false },
            DeploymentStage::ExternalInstantiate,
            DeploymentStage::SetConfig,
            DeploymentStage::SetUp,
        ],
{
    let mut v: Vec<DeploymentStage> = Vec::new();
    v.push(DeploymentStage::StoreCode);
    v.push(DeploymentStage::Instantiate { interactive: false });
    v.push(DeploymentStage::ExternalInstantiate);
    v.push(DeploymentStage::SetConfig);
    v.push(DeploymentStage::SetUp);
    proof {
        assert(v@ =~= seq![
            DeploymentStage::StoreCode,
            DeploymentStage::Instantiate { interactive: false },
            DeploymentStage::ExternalInstantiate,
            DeploymentStage::SetConfig,
            DeploymentStage::SetUp,
        ]);
    }
    v
}

/// The stage order of a migration: the new code is stored first, so the
/// migrate requests pick up the fresh code ids.
pub fn migrate_stages(interactive: bool) -> (r: Vec<DeploymentStage>)
    ensures
        r@ == seq![
            DeploymentStage::StoreCode,
            DeploymentStage::Migrate { interactive },
        ],
{
    let mut v: Vec<DeploymentStage> = Vec::new();
    v.push(DeploymentStage::StoreCode);
    v.push(DeploymentStage::Migrate { interactive });
    proof {
        assert(v@ =~= seq![
            DeploymentStage::StoreCode,
            DeploymentStage::Migrate { interactive },
        ]);
    }
    v
}

/// A store-code response leaves every contract it does not name exactly
/// as it was: a later chunk's outcome cannot disturb an earlier chunk's
/// already-recorded code ids.
pub proof fn law_store_code_frame(
    s: Seq<ContractInfoV>,
    names: Seq<Seq<char>>,
    ids: Seq<u64>,
    n: Seq<char>,
)
    requires
        names.len() == ids.len(),
        forall|k: int| 0 <= k < names.len() ==> (#[trigger] names[k]) != n,
    ensures
        lookup_contract(apply_codes(s, names, ids), n) == lookup_contract(s, n),
    decreases names.len(),
{
    if names.len() > 0 {
        assert(forall|k: int|
            0 <= k < names.len() - 1 ==> (#[trigger] names.drop_last()[k]) == names[k]);
        law_store_code_frame(s, names.drop_last(), ids.drop_last(), n);
        let prev = apply_codes(s, names.drop_last(), ids.drop_last());
        let entry = store_entry(prev, names.last(), ids.last());
        crate::config::lemma_find_contract_from(prev, names.last(), 0);
        assert(entry.name == names.last());
        lemma_lookup_upsert(prev, entry, n);
    }
}

/// Positional zip correctness: after a store-code response for distinct
/// names, the i-th name's entry carries exactly `code_ids[i]`, and keeps
/// the address it had before — or none, if it is new.
pub proof fn law_store_code_positional(
    s: Seq<ContractInfoV>,
    names: Seq<Seq<char>>,
    ids: Seq<u64>,
    i: int,
)
    requires
        names.len() == ids.len(),
        0 <= i < names.len(),
        forall|a: int, b: int| 0 <= a < b < names.len() ==> names[a] != names[b],
    ensures
        lookup_contract(apply_codes(s, names, ids), names[i]) == Option::Some(
            ContractInfoV {
                name: names[i],
                addr: match lookup_contract(s, names[i]) {
                    Option::Some(c) => c.addr,
                    Option::None => Option::None,
                },
                code_id: Option::Some(ids[i]),
            },
        ),
    decreases names.len(),
{
    let m = names.len() - 1;
    let prev = apply_codes(s, names.drop_last(), ids.drop_last());
    let entry = store_entry(prev, names.last(), ids.last());
    crate::config::lemma_find_contract_from(prev, names.last(), 0);
    crate::config::lemma_find_contract_from(s, names.last(), 0);
    lemma_lookup_upsert(prev, entry, names[i]);
    assert(forall|k: int|
        0 <= k < names.len() - 1 ==> (#[trigger] names.drop_last()[k]) == names[k]);
    if i == m {
        assert(forall|k: int| 0 <= k < names.drop_last().len() ==> names.drop_last()[k] != names[m]);
        law_store_code_frame(s, names.drop_last(), ids.drop_last(), names[m]);
        assert(lookup_contract(prev, names[m]) == lookup_contract(s, names[m]));
        assert(entry =~= (ContractInfoV {
            name: names[m],
            addr: match lookup_contract(s, names[m]) {
                Option::Some(c) => c.addr,
                Option::None => Option::None,
            },
            code_id: Option::Some(ids[m]),
        }));
    } else {
        assert(names[i] != names[m]);
        law_store_code_positional(s, names.drop_last(), ids.drop_last(), i);
    }
}

/// An instantiate response leaves every contract it does not name
/// exactly as it was.
pub proof fn law_instantiate_frame(
    s: Seq<ContractInfoV>,
    names: Seq<Seq<char>>,
    addrs: Seq<Seq<char>>,
    n: Seq<char>,
)
    requires
        names.len() == addrs.len(),
        forall|k: int| 0 <= k < names.len() ==> (#[trigger] names[k]) != n,
    ensures
        lookup_contract(apply_addrs(s, names, addrs), n) == lookup_contract(s, n),
    decreases names.len(),
{
    if names.len() > 0 {
        assert(forall|k: int|
            0 <= k < names.len() - 1 ==> (#[trigger] names.drop_last()[k]) == names[k]);
        law_instantiate_frame(s, names.drop_last(), addrs.drop_last(), n);
        let prev = apply_addrs(s, names.drop_last(), addrs.drop_last());
        let entry = addr_entry(prev, names.last(), addrs.last());
        crate::config::lemma_find_contract_from(prev, names.last(), 0);
        assert(entry.name == names.last());
        lemma_lookup_upsert(prev, entry, n);
    }
}

/// Positional zip correctness for instantiate: after a response for
/// distinct names, the i-th name's entry carries exactly `addrs[i]` and
/// keeps the code id it had before.
pub proof fn law_instantiate_positional(
    s: Seq<ContractInfoV>,
    names: Seq<Seq<char>>,
    addrs: Seq<Seq<char>>,
    i: int,
)
    requires
        names.len() == addrs.len(),
        0 <= i < names.len(),
        forall|a: int, b: int| 0 <= a < b < names.len() ==> names[a] != names[b],
    ensures
        lookup_contract(apply_addrs(s, names, addrs), names[i]) == Option::Some(
            ContractInfoV {
                name: names[i],
                addr: Option::Some(addrs[i]),
                code_id: match lookup_contract(s, names[i]) {
                    Option::Some(c) => c.code_id,
                    Option::None => Option::None,
                },
            },
        ),
    decreases names.len(),
{
    let m = names.len() - 1;
    let prev = apply_addrs(s, names.drop_last(), addrs.drop_last());
    let entry = addr_entry(prev, names.last(), addrs.last());
    crate::config::lemma_find_contract_from(prev, names.last(), 0);
    crate::config::lemma_find_contract_from(s, names.last(), 0);
    lemma_lookup_upsert(prev, entry, names[i]);
    assert(forall|k: int|
        0 <= k < names.len() - 1 ==> (#[trigger] names.drop_last()[k]) == names[k]);
    if i == m {
        assert(forall|k: int| 0 <= k < names.drop_last().len() ==> names.drop_last()[k] != names[m]);
        law_instantiate_frame(s, names.drop_last(), addrs.drop_last(), names[m]);
        assert(lookup_contract(prev, names[m]) == lookup_contract(s, names[m]));
        assert(entry =~= (ContractInfoV {
            name: names[m],
            addr: Option::Some(addrs[m]),
            code_id: match lookup_contract(s, names[m]) {
                Option::Some(c) => c.code_id,
                Option::None => Option::None,
            },
        }));
    } else {
        assert(names[i] != names[m]);
        law_instantiate_positional(s, names.drop_last(), addrs.drop_last(), i);
    }
}

/// Idempotent re-store: storing the same contracts twice leaves each
/// entry with only the most recent code id — never a stale one — and
/// with the address it had before either call.
pub proof fn law_restore_latest(
    s: Seq<ContractInfoV>,
    names: Seq<Seq<char>>,
    ids1: Seq<u64>,
    ids2: Seq<u64>,
    i: int,
)
    requires
        names.len() == ids1.len(),
        names.len() == ids2.len(),
        0 <= i < names.len(),
        forall|a: int, b: int| 0 <= a < b < names.len() ==> names[a] != names[b],
    ensures
        lookup_contract(apply_codes(apply_codes(s, names, ids1), names, ids2), names[i])
            == Option::Some(
            ContractInfoV {
                name: names[i],
                addr: match lookup_contract(s, names[i]) {
                    Option::Some(c) => c.addr,
                    Option::None => Option::None,
                },
                code_id: Option::Some(ids2[i]),
            },
        ),
{
    let once = apply_codes(s, names, ids1);
    law_store_code_positional(s, names, ids1, i);
    law_store_code_positional(once, names, ids2, i);
}

/// Empty-batch no-op: a contract set in which every contract returns no
/// set-config message plans the empty batch and succeeds, so the caller
/// makes no chain call at all.
pub proof fn law_set_config_skip(reg: Seq<ContractInfoV>, ds: Seq<ContractDescriptorV>)
    requires
        forall|k: int| 0 <= k < ds.len() ==> (#[trigger] ds[k]).set_config_msg is None,
    ensures
        plan_set_config_spec(reg, ds) == Ok::<Seq<ExecRequestV>, DeployErrorV>(Seq::empty()),
    decreases ds.len(),
{
    if ds.len() > 0 {
        assert(forall|k: int| 0 <= k < ds.len() - 1 ==> (#[trigger] ds.drop_last()[k]) == ds[k]);
        law_set_config_skip(reg, ds.drop_last());
        assert(Seq::<ExecRequestV>::empty() + Seq::<ExecRequestV>::empty() =~= Seq::<
            ExecRequestV,
        >::empty());
    }
}

/// Precondition enforcement: a contract whose registry entry carries no
/// code id fails the instantiate plan with `CodeIdNotFound`, provided the
/// contracts before it plan cleanly; no request batch — and so no network
/// call — ever comes out of it.
pub proof fn law_instantiate_missing_code(
    reg: Seq<ContractInfoV>,
    ds: Seq<ContractDescriptorV>,
    p: int,
)
    requires
        0 <= p < ds.len(),
        plan_instantiate_spec(reg, ds.subrange(0, p)) is Ok,
        ds[p].instantiate_msg is Some,
        subst_ok(ds[p].instantiate_msg->0, reg),
        lookup_contract(reg, ds[p].name) is Some,
        lookup_contract(reg, ds[p].name)->0.code_id is None,
    ensures
        plan_instantiate_spec(reg, ds) == Err::<Seq<InstantiateRequestV>, DeployErrorV>(
            DeployErrorV::CodeIdNotFound,
        ),
{
    assert(inst_step(reg, ds[p]) == Err::<Seq<InstantiateRequestV>, DeployErrorV>(
        DeployErrorV::CodeIdNotFound,
    ));
    assert(ds.subrange(0, p + 1).drop_last() =~= ds.subrange(0, p));
    assert(ds.subrange(0, p + 1).last() == ds[p]);
    assert(plan_instantiate_spec(reg, ds.subrange(0, p + 1)) == Err::<
        Seq<InstantiateRequestV>,
        DeployErrorV,
    >(DeployErrorV::CodeIdNotFound));
    lemma_plan_instantiate_err(reg, ds, p + 1);
}

} // verus!
