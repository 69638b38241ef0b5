//! The persisted configuration: chains, environments, keys, settings, and
//! the per-environment contract registry.
//!
//! A [`Config`] is read from disk by the caller at command start and written
//! back after every mutating step; this module holds the data model and the
//! verified lookup and update operations on it.

use vstd::prelude::*;

use crate::error::{DeployError, DeployErrorV};
use crate::key::{UserKey, UserKeyV};

verus! {

/// Ghost mirror of [`ContractInfo`].
#[verifier::ext_equal]
pub struct ContractInfoV {
    pub name: Seq<char>,
    pub addr: Option<Seq<char>>,
    pub code_id: Option<u64>,
}

/// One registry entry: what the chain knows about a contract by this name.
///
/// `code_id` is set by the first successful store-code, `addr` by the first
/// successful instantiate; both are overwritten in place on re-runs.
#[derive(Clone, Debug, PartialEq)]
pub struct ContractInfo {
    pub name: String,
    pub addr: Option<String>,
    pub code_id: Option<u64>,
}

impl DeepView for ContractInfo {
    type V = ContractInfoV;

    open spec fn deep_view(&self) -> ContractInfoV {
        ContractInfoV {
            name: self.name@,
            addr: match self.addr {
                Option::Some(a) => Option::Some(a@),
                Option::None => Option::None,
            },
            code_id: self.code_id,
        }
    }
}

/// Ghost mirror of [`Env`].
#[verifier::ext_equal]
pub struct EnvV {
    pub is_active: bool,
    pub env_id: Seq<char>,
    pub chain_label: Seq<char>,
    pub contracts: Seq<ContractInfoV>,
    pub key_name: Seq<char>,
}

/// A named deployment environment: its chain, its signing key, and its own
/// contract registry. At most one environment is active at a time.
#[derive(Clone, Debug, PartialEq)]
pub struct Env {
    pub is_active: bool,
    pub env_id: String,
    pub chain_label: String,
    pub contracts: Vec<ContractInfo>,
    pub key_name: String,
}

impl DeepView for Env {
    type V = EnvV;

    open spec fn deep_view(&self) -> EnvV {
        EnvV {
            is_active: self.is_active,
            env_id: self.env_id@,
            chain_label: self.chain_label@,
            contracts: self.contracts.deep_view(),
            key_name: self.key_name@,
        }
    }
}

/// Ghost mirror of [`ChainInfo`].
#[verifier::ext_equal]
pub struct ChainInfoV {
    pub denom: Seq<char>,
    pub chain_id: Seq<char>,
    pub rpc_endpoint: Option<Seq<char>>,
    pub grpc_endpoint: Option<Seq<char>>,
    pub gas_price: Seq<char>,
    pub gas_adjustment: Seq<char>,
    pub prefix: Seq<char>,
    pub derivation_path: Seq<char>,
}

/// Connection and economic parameters of one chain.
///
/// Gas price and adjustment are carried as the decimal strings the user
/// entered; nothing in the engine computes with them.
#[derive(Clone, Debug, PartialEq)]
pub struct ChainInfo {
    pub denom: String,
    pub chain_id: String,
    pub rpc_endpoint: Option<String>,
    pub grpc_endpoint: Option<String>,
    pub gas_price: String,
    pub gas_adjustment: String,
    pub prefix: String,
    pub derivation_path: String,
}

impl DeepView for ChainInfo {
    type V = ChainInfoV;

    open spec fn deep_view(&self) -> ChainInfoV {
        ChainInfoV {
            denom: self.denom@,
            chain_id: self.chain_id@,
            rpc_endpoint: match self.rpc_endpoint {
                Option::Some(e) => Option::Some(e@),
                Option::None => Option::None,
            },
            grpc_endpoint: match self.grpc_endpoint {
                Option::Some(e) => Option::Some(e@),
                Option::None => Option::None,
            },
            gas_price: self.gas_price@,
            gas_adjustment: self.gas_adjustment@,
            prefix: self.prefix@,
            derivation_path: self.derivation_path@,
        }
    }
}

/// Ghost mirror of [`ChainEntry`].
#[verifier::ext_equal]
pub struct ChainEntryV {
    pub label: Seq<char>,
    pub info: ChainInfoV,
}

/// A chain under the label environments refer to it by.
#[derive(Clone, Debug, PartialEq)]
pub struct ChainEntry {
    pub label: String,
    pub info: ChainInfo,
}

impl DeepView for ChainEntry {
    type V = ChainEntryV;

    open spec fn deep_view(&self) -> ChainEntryV {
        ChainEntryV { label: self.label@, info: self.info.deep_view() }
    }
}

/// User-tunable settings.
#[derive(Clone, Debug, PartialEq)]
pub struct UserSettings {
    /// How many store-code requests go into one transaction.
    pub store_code_chunk_size: usize,
}

impl Default for UserSettings {
    /// A chunk size of two keeps a store-code transaction well under common
    /// chain payload and gas limits.
    fn default() -> (res: UserSettings)
        ensures
            res.store_code_chunk_size == 2,
    {
        UserSettings { store_code_chunk_size: 2 }
    }
}

/// Ghost mirror of [`Config`].
#[verifier::ext_equal]
pub struct ConfigV {
    pub store_code_chunk_size: usize,
    pub shell_completion_dir: Option<Seq<char>>,
    pub chains: Seq<ChainEntryV>,
    pub envs: Seq<EnvV>,
    pub keys: Seq<UserKeyV>,
}

/// The top-level persisted aggregate: every chain, environment and key the
/// workspace knows, plus user settings.
#[derive(Clone, Debug, PartialEq)]
pub struct Config {
    pub settings: UserSettings,
    pub shell_completion_dir: Option<String>,
    pub chains: Vec<ChainEntry>,
    pub envs: Vec<Env>,
    pub keys: Vec<UserKey>,
}

impl DeepView for Config {
    type V = ConfigV;

    open spec fn deep_view(&self) -> ConfigV {
        ConfigV {
            store_code_chunk_size: self.settings.store_code_chunk_size,
            shell_completion_dir: match self.shell_completion_dir {
                Option::Some(d) => Option::Some(d@),
                Option::None => Option::None,
            },
            chains: self.chains.deep_view(),
            envs: self.envs.deep_view(),
            keys: self.keys.deep_view(),
        }
    }
}

/// First index at or after `i` of an active environment.
pub open spec fn find_active_from(s: Seq<EnvV>, i: int) -> Option<int>
    decreases s.len() - i,
    when 0 <= i <= s.len()
{
    if i >= s.len() {
        Option::None
    } else if s[i].is_active {
        Option::Some(i)
    } else {
        find_active_from(s, i + 1)
    }
}

/// What `find_active_from` returns, spelled out index-wise.
pub proof fn lemma_find_active_from(s: Seq<EnvV>, i: int)
    requires
        0 <= i <= s.len(),
    ensures
        match find_active_from(s, i) {
            Option::Some(j) => i <= j < s.len() && s[j].is_active && (forall|k: int|
                i <= k < j ==> !(#[trigger] s[k]).is_active),
            Option::None => forall|k: int| i <= k < s.len() ==> !(#[trigger] s[k]).is_active,
        },
    decreases s.len() - i,
{
    if i < s.len() && !s[i].is_active {
        lemma_find_active_from(s, i + 1);
    }
}

/// First index at or after `i` whose environment has id `env_id`.
pub open spec fn find_env_id_from(s: Seq<EnvV>, env_id: Seq<char>, i: int) -> Option<int>
    decreases s.len() - i,
    when 0 <= i <= s.len()
{
    if i >= s.len() {
        Option::None
    } else if s[i].env_id == env_id {
        Option::Some(i)
    } else {
        find_env_id_from(s, env_id, i + 1)
    }
}

/// What `find_env_id_from` returns, spelled out index-wise.
pub proof fn lemma_find_env_id_from(s: Seq<EnvV>, env_id: Seq<char>, i: int)
    requires
        0 <= i <= s.len(),
    ensures
        match find_env_id_from(s, env_id, i) {
            Option::Some(j) => i <= j < s.len() && s[j].env_id == env_id && (forall|k: int|
                i <= k < j ==> (#[trigger] s[k]).env_id != env_id),
            Option::None => forall|k: int| i <= k < s.len() ==> (#[trigger] s[k]).env_id != env_id,
        },
    decreases s.len() - i,
{
    if i < s.len() && s[i].env_id != env_id {
        lemma_find_env_id_from(s, env_id, i + 1);
    }
}

/// First index at or after `i` whose chain carries `label`.
pub open spec fn find_chain_from(s: Seq<ChainEntryV>, label: Seq<char>, i: int) -> Option<int>
    decreases s.len() - i,
    when 0 <= i <= s.len()
{
    if i >= s.len() {
        Option::None
    } else if s[i].label == label {
        Option::Some(i)
    } else {
        find_chain_from(s, label, i + 1)
    }
}

/// First chain index labelled `label`, if any.
pub open spec fn find_chain(s: Seq<ChainEntryV>, label: Seq<char>) -> Option<int> {
    find_chain_from(s, label, 0)
}

/// What `find_chain_from` returns, spelled out index-wise.
pub proof fn lemma_find_chain_from(s: Seq<ChainEntryV>, label: Seq<char>, i: int)
    requires
        0 <= i <= s.len(),
    ensures
        match find_chain_from(s, label, i) {
            Option::Some(j) => i <= j < s.len() && s[j].label == label && (forall|k: int|
                i <= k < j ==> (#[trigger] s[k]).label != label),
            Option::None => forall|k: int| i <= k < s.len() ==> (#[trigger] s[k]).label != label,
        },
    decreases s.len() - i,
{
    if i < s.len() && s[i].label != label {
        lemma_find_chain_from(s, label, i + 1);
    }
}

/// First index at or after `i` whose key is named `name`.
pub open spec fn find_key_from(s: Seq<UserKeyV>, name: Seq<char>, i: int) -> Option<int>
    decreases s.len() - i,
    when 0 <= i <= s.len()
{
    if i >= s.len() {
        Option::None
    } else if s[i].name == name {
        Option::Some(i)
    } else {
        find_key_from(s, name, i + 1)
    }
}

/// First key index named `name`, if any.
pub open spec fn find_key(s: Seq<UserKeyV>, name: Seq<char>) -> Option<int> {
    find_key_from(s, name, 0)
}

/// What `find_key_from` returns, spelled out index-wise.
pub proof fn lemma_find_key_from(s: Seq<UserKeyV>, name: Seq<char>, i: int)
    requires
        0 <= i <= s.len(),
    ensures
        match find_key_from(s, name, i) {
            Option::Some(j) => i <= j < s.len() && s[j].name == name && (forall|k: int|
                i <= k < j ==> (#[trigger] s[k]).name != name),
            Option::None => forall|k: int| i <= k < s.len() ==> (#[trigger] s[k]).name != name,
        },
    decreases s.len() - i,
{
    if i < s.len() && s[i].name != name {
        lemma_find_key_from(s, name, i + 1);
    }
}

/// First index at or after `i` whose entry is named `name`.
pub open spec fn find_contract_from(s: Seq<ContractInfoV>, name: Seq<char>, i: int) -> Option<int>
    decreases s.len() - i,
    when 0 <= i <= s.len()
{
    if i >= s.len() {
        Option::None
    } else if s[i].name == name {
        Option::Some(i)
    } else {
        find_contract_from(s, name, i + 1)
    }
}

/// First registry index named `name`, if any.
pub open spec fn find_contract(s: Seq<ContractInfoV>, name: Seq<char>) -> Option<int> {
    find_contract_from(s, name, 0)
}

/// What `find_contract_from` returns, spelled out index-wise.
pub proof fn lemma_find_contract_from(s: Seq<ContractInfoV>, name: Seq<char>, i: int)
    requires
        0 <= i <= s.len(),
    ensures
        match find_contract_from(s, name, i) {
            Option::Some(j) => i <= j < s.len() && s[j].name == name && (forall|k: int|
                i <= k < j ==> (#[trigger] s[k]).name != name),
            Option::None => forall|k: int| i <= k < s.len() ==> (#[trigger] s[k]).name != name,
        },
    decreases s.len() - i,
{
    if i < s.len() && s[i].name != name {
        lemma_find_contract_from(s, name, i + 1);
    }
}

/// The converse characterization: a first match determines the scan.
pub proof fn lemma_find_contract_is_first(s: Seq<ContractInfoV>, name: Seq<char>, j: int)
    requires
        0 <= j < s.len(),
        s[j].name == name,
        forall|k: int| 0 <= k < j ==> (#[trigger] s[k]).name != name,
    ensures
        find_contract(s, name) == Option::Some(j),
{
    lemma_find_contract_from(s, name, 0);
    match find_contract(s, name) {
        Option::Some(m) => {
            if m < j {
                assert(s[m].name != name);
            } else if j < m {
                assert(s[j].name != name);
            }
        },
        Option::None => {
            assert(s[j].name != name);
        },
    }
}

/// The registry entry named `name` in `s`, if any.
pub open spec fn lookup_contract(s: Seq<ContractInfoV>, name: Seq<char>) -> Option<ContractInfoV> {
    match find_contract(s, name) {
        Option::Some(j) => Option::Some(s[j]),
        Option::None => Option::None,
    }
}

/// Replace the first entry named like `c`, or append `c` if none is.
pub open spec fn upsert_contract_spec(s: Seq<ContractInfoV>, c: ContractInfoV) -> Seq<
    ContractInfoV,
> {
    match find_contract(s, c.name) {
        Option::Some(j) => s.update(j, c),
        Option::None => s.push(c),
    }
}

/// How one upsert changes lookups: the upserted name now finds the new
/// entry, every other name finds what it found before.
pub proof fn lemma_lookup_upsert(s: Seq<ContractInfoV>, c: ContractInfoV, n: Seq<char>)
    ensures
        lookup_contract(upsert_contract_spec(s, c), n) == (if n == c.name {
            Option::Some(c)
        } else {
            lookup_contract(s, n)
        }),
{
    lemma_find_contract_from(s, c.name, 0);
    lemma_find_contract_from(s, n, 0);
    let s2 = upsert_contract_spec(s, c);
    match find_contract(s, c.name) {
        Option::Some(j) => {
            assert(s2 =~= s.update(j, c));
            if n == c.name {
                lemma_find_contract_is_first(s2, n, j);
            } else {
                match find_contract(s, n) {
                    Option::Some(m) => {
                        assert(s2[m].name == n);
                        assert(forall|k: int| 0 <= k < m ==> (#[trigger] s2[k]).name != n);
                        lemma_find_contract_is_first(s2, n, m);
                    },
                    Option::None => {
                        lemma_find_contract_from(s2, n, 0);
                        match find_contract(s2, n) {
                            Option::Some(m2) => {
                                assert(s[m2].name != n);
                                assert(false);
                            },
                            Option::None => {},
                        }
                    },
                }
            }
        },
        Option::None => {
            assert(s2 =~= s.push(c));
            if n == c.name {
                assert(forall|k: int| 0 <= k < s.len() ==> (#[trigger] s[k]).name != n);
                assert(forall|k: int| 0 <= k < s.len() ==> (#[trigger] s2[k]).name != n);
                lemma_find_contract_is_first(s2, n, s.len() as int);
            } else {
                match find_contract(s, n) {
                    Option::Some(m) => {
                        assert(s2[m].name == n);
                        assert(forall|k: int| 0 <= k < m ==> (#[trigger] s2[k]).name != n);
                        lemma_find_contract_is_first(s2, n, m);
                    },
                    Option::None => {
                        lemma_find_contract_from(s2, n, 0);
                        match find_contract(s2, n) {
                            Option::Some(m2) => {
                                if m2 < s.len() {
                                    assert(s[m2].name != n);
                                }
                                assert(false);
                            },
                            Option::None => {},
                        }
                    },
                }
            }
        },
    }
}

impl EnvV {
    /// Contract names are pairwise distinct within an environment.
    pub open spec fn wf(self) -> bool {
        forall|i: int, j: int|
            0 <= i < j < self.contracts.len() ==> (#[trigger] self.contracts[i]).name != (
            #[trigger] self.contracts[j]).name
    }
}

impl ConfigV {
    /// This aggregate with the active environment's registry replaced.
    pub open spec fn with_active_contracts(self, newc: Seq<ContractInfoV>) -> ConfigV {
        ConfigV {
            envs: self.envs.update(
                self.active_idx(),
                EnvV { contracts: newc, ..self.active_env() },
            ),
            ..self
        }
    }

    /// Some environment is marked active.
    pub open spec fn has_active(self) -> bool {
        exists|i: int| 0 <= i < self.envs.len() && (#[trigger] self.envs[i]).is_active
    }

    /// The index of the active environment; meaningful under `has_active`
    /// and `wf`, which makes it unique.
    pub open spec fn active_idx(self) -> int {
        choose|i: int| 0 <= i < self.envs.len() && (#[trigger] self.envs[i]).is_active
    }

    /// The active environment; meaningful under `has_active`.
    pub open spec fn active_env(self) -> EnvV {
        self.envs[self.active_idx()]
    }

    /// Well-formedness of the whole aggregate: environment ids, chain
    /// labels and key names are pairwise distinct, at most one environment
    /// is active, and each environment is itself well formed.
    pub open spec fn wf(self) -> bool {
        &&& forall|i: int, j: int|
            0 <= i < j < self.envs.len() ==> (#[trigger] self.envs[i]).env_id != (
            #[trigger] self.envs[j]).env_id
        &&& forall|i: int, j: int|
            0 <= i < j < self.envs.len() ==> !((#[trigger] self.envs[i]).is_active && (
            #[trigger] self.envs[j]).is_active)
        &&& forall|i: int, j: int|
            0 <= i < j < self.chains.len() ==> (#[trigger] self.chains[i]).label != (
            #[trigger] self.chains[j]).label
        &&& forall|i: int, j: int|
            0 <= i < j < self.keys.len() ==> (#[trigger] self.keys[i]).name != (
            #[trigger] self.keys[j]).name
        &&& forall|i: int| 0 <= i < self.envs.len() ==> (#[trigger] self.envs[i]).wf()
    }
}

impl Config {
    /// Index of the active environment, if one is marked active.
    #[verifier::loop_isolation(false)]
    fn active_index(&self) -> (r: Option<usize>)
        ensures
            match r {
                Option::Some(i) => find_active_from(self.deep_view().envs, 0) == Option::Some(
                    i as int,
                ) && i < self.envs@.len(),
                Option::None => find_active_from(self.deep_view().envs, 0) is None,
            },
    {
        let ghost ev: Seq<EnvV> = self.deep_view().envs;
        let mut i: usize = 0;
        while i < self.envs.len()
            invariant
                0 <= i <= self.envs@.len(),
                find_active_from(ev, 0) == find_active_from(ev, i as int),
            decreases self.envs@.len() - i,
        {
            if self.envs[i].is_active {
                return Option::Some(i);
            }
            i += 1;
        }
        Option::None
    }

    /// The active environment, or `EnvNotFound` if none is marked active.
    pub fn get_active_env(&self) -> (r: Result<&Env, DeployError>)
        requires
            self.deep_view().wf(),
        ensures
            self.deep_view().has_active() ==> (r matches Ok(e) && e.deep_view()
                == self.deep_view().active_env()),
            !self.deep_view().has_active() ==> (r matches Err(e) && e.deep_view()
                == DeployErrorV::EnvNotFound),
    {
        proof {
            lemma_find_active_from(self.deep_view().envs, 0);
        }
        match self.active_index() {
            Option::Some(i) => {
                proof {
                    let c = self.deep_view();
                    assert(c.envs[i as int].is_active);
                    let a = c.active_idx();
                    assert(0 <= a < c.envs.len() && c.envs[a].is_active);
                    if a != i as int {
                        if a < i as int {
                            assert(!(c.envs[a].is_active && c.envs[i as int].is_active));
                        } else {
                            assert(!(c.envs[i as int].is_active && c.envs[a].is_active));
                        }
                    }
                }
                Ok(&self.envs[i])
            },
            Option::None => {
                proof {
                    let c = self.deep_view();
                    if c.has_active() {
                        let a = c.active_idx();
                        assert(0 <= a < c.envs.len() && c.envs[a].is_active);
                    }
                }
                Err(DeployError::EnvNotFound)
            },
        }
    }

    /// The registry entry of `name` in the active environment.
    ///
    /// Fails with `EnvNotFound` if no environment is active, and with
    /// `ContractNotFound` if the active registry has no entry by that name.
    #[verifier::loop_isolation(false)]
    pub fn get_contract(&self, name: &String) -> (r: Result<&ContractInfo, DeployError>)
        requires
            self.deep_view().wf(),
        ensures
            !self.deep_view().has_active() ==> (r matches Err(e) && e.deep_view()
                == DeployErrorV::EnvNotFound),
            self.deep_view().has_active() ==> match lookup_contract(
                self.deep_view().active_env().contracts,
                name@,
            ) {
                Option::Some(c) => (r matches Ok(ci) && ci.deep_view() == c),
                Option::None => (r matches Err(e) && e.deep_view()
                    == (DeployErrorV::ContractNotFound { contract_name: name@ })),
            },
    {
        let env: &Env = match self.get_active_env() {
            Ok(e) => e,
            Err(e) => {
                return Err(e);
            },
        };
        let ghost cv: Seq<ContractInfoV> = env.deep_view().contracts;
        let mut j: usize = 0;
        while j < env.contracts.len()
            invariant
                0 <= j <= env.contracts@.len(),
                cv.len() == env.contracts@.len(),
                find_contract(cv, name@) == find_contract_from(cv, name@, j as int),
            decreases env.contracts@.len() - j,
        {
            if env.contracts[j].name == *name {
                return Ok(&env.contracts[j]);
            }
            j += 1;
        }
        Err(DeployError::ContractNotFound { contract_name: name.clone() })
    }

    /// The on-chain address of `name` in the active environment.
    ///
    /// Fails with `AddrNotFound` if the entry exists but carries no
    /// address yet.
    pub fn get_contract_addr(&self, name: &String) -> (r: Result<&String, DeployError>)
        requires
            self.deep_view().wf(),
        ensures
            !self.deep_view().has_active() ==> (r matches Err(e) && e.deep_view()
                == DeployErrorV::EnvNotFound),
            self.deep_view().has_active() ==> match lookup_contract(
                self.deep_view().active_env().contracts,
                name@,
            ) {
                Option::Some(c) => match c.addr {
                    Option::Some(a) => (r matches Ok(s) && s@ == a),
                    Option::None => (r matches Err(e) && e.deep_view()
                        == (DeployErrorV::AddrNotFound { name: name@ })),
                },
                Option::None => (r matches Err(e) && e.deep_view()
                    == (DeployErrorV::ContractNotFound { contract_name: name@ })),
            },
    {
        match self.get_contract(name) {
            Ok(contract) => match &contract.addr {
                Option::Some(a) => Ok(a),
                Option::None => Err(DeployError::AddrNotFound { name: name.clone() }),
            },
            Err(e) => Err(e),
        }
    }

    /// The stored code id of `name` in the active environment.
    ///
    /// Fails with `CodeIdNotFound` if the entry exists but no code has
    /// been stored for it yet.
    pub fn get_code_id(&self, name: &String) -> (r: Result<u64, DeployError>)
        requires
            self.deep_view().wf(),
        ensures
            !self.deep_view().has_active() ==> (r matches Err(e) && e.deep_view()
                == DeployErrorV::EnvNotFound),
            self.deep_view().has_active() ==> match lookup_contract(
                self.deep_view().active_env().contracts,
                name@,
            ) {
                Option::Some(c) => match c.code_id {
                    Option::Some(id) => r == Ok::<u64, DeployError>(id),
                    Option::None => (r matches Err(e) && e.deep_view()
                        == DeployErrorV::CodeIdNotFound),
                },
                Option::None => (r matches Err(e) && e.deep_view()
                    == (DeployErrorV::ContractNotFound { contract_name: name@ })),
            },
    {
        match self.get_contract(name) {
            Ok(contract) => match contract.code_id {
                Option::Some(id) => Ok(id),
                Option::None => Err(DeployError::CodeIdNotFound),
            },
            Err(e) => Err(e),
        }
    }

    /// Where shell completion scripts are installed, if configured.
    pub fn get_shell_completion_dir(&self) -> (r: &Option<String>)
        ensures
            r == self.shell_completion_dir,
    {
        &self.shell_completion_dir
    }

    /// The chain the active environment points at.
    ///
    /// Fails with `ChainConfigNotFound` if the environment's label matches
    /// no configured chain.
    #[verifier::loop_isolation(false)]
    pub fn get_active_chain_info(&self) -> (r: Result<&ChainInfo, DeployError>)
        requires
            self.deep_view().wf(),
        ensures
            !self.deep_view().has_active() ==> (r matches Err(e) && e.deep_view()
                == DeployErrorV::EnvNotFound),
            self.deep_view().has_active() ==> match find_chain(
                self.deep_view().chains,
                self.deep_view().active_env().chain_label,
            ) {
                Option::Some(j) => (r matches Ok(ci) && ci.deep_view()
                    == self.deep_view().chains[j].info),
                Option::None => (r matches Err(e) && e.deep_view()
                    == DeployErrorV::ChainConfigNotFound),
            },
    {
        let env: &Env = match self.get_active_env() {
            Ok(e) => e,
            Err(e) => {
                return Err(e);
            },
        };
        let ghost hv: Seq<ChainEntryV> = self.deep_view().chains;
        let ghost label: Seq<char> = env.deep_view().chain_label;
        let mut j: usize = 0;
        while j < self.chains.len()
            invariant
                0 <= j <= self.chains@.len(),
                hv.len() == self.chains@.len(),
                find_chain(hv, label) == find_chain_from(hv, label, j as int),
            decreases self.chains@.len() - j,
        {
            if self.chains[j].label == env.chain_label {
                return Ok(&self.chains[j].info);
            }
            j += 1;
        }
        Err(DeployError::ChainConfigNotFound)
    }

    /// The signing key the active environment names.
    ///
    /// Fails with `KeyNotFound` if no key carries that name.
    #[verifier::loop_isolation(false)]
    pub fn get_active_key(&self) -> (r: Result<&UserKey, DeployError>)
        requires
            self.deep_view().wf(),
        ensures
            !self.deep_view().has_active() ==> (r matches Err(e) && e.deep_view()
                == DeployErrorV::EnvNotFound),
            self.deep_view().has_active() ==> match find_key(
                self.deep_view().keys,
                self.deep_view().active_env().key_name,
            ) {
                Option::Some(j) => (r matches Ok(k) && k.deep_view() == self.deep_view().keys[j]),
                Option::None => (r matches Err(e) && e.deep_view() == (DeployErrorV::KeyNotFound {
                    key_name: self.deep_view().active_env().key_name,
                })),
            },
    {
        let env: &Env = match self.get_active_env() {
            Ok(e) => e,
            Err(e) => {
                return Err(e);
            },
        };
        let ghost kv: Seq<UserKeyV> = self.deep_view().keys;
        let ghost kname: Seq<char> = env.deep_view().key_name;
        let mut j: usize = 0;
        while j < self.keys.len()
            invariant
                0 <= j <= self.keys@.len(),
                kv.len() == self.keys@.len(),
                find_key(kv, kname) == find_key_from(kv, kname, j as int),
            decreases self.keys@.len() - j,
        {
            if self.keys[j].name == env.key_name {
                return Ok(&self.keys[j]);
            }
            j += 1;
        }
        Err(DeployError::KeyNotFound { key_name: env.key_name.clone() })
    }
}

/// Whether contract names are pairwise distinct, by a quadratic scan.
#[verifier::loop_isolation(false)]
fn contracts_distinct(v: &Vec<ContractInfo>) -> (r: bool)
    ensures
        r == (EnvV {
            is_active: false,
            env_id: Seq::empty(),
            chain_label: Seq::empty(),
            contracts: v.deep_view(),
            key_name: Seq::empty(),
        }).wf(),
{
    let ghost cv: Seq<ContractInfoV> = v.deep_view();
    let mut i: usize = 0;
    while i < v.len()
        invariant
            0 <= i <= cv.len(),
            forall|a: int, b: int|
                0 <= a < b < cv.len() && a < i ==> (#[trigger] cv[a]).name != (
                #[trigger] cv[b]).name,
        decreases cv.len() - i,
    {
        let mut j: usize = i + 1;
        while j < v.len()
            invariant
                i < j <= cv.len(),
                i < cv.len(),
                forall|b: int| i < b < j ==> (#[trigger] cv[b]).name != cv[i as int].name,
            decreases cv.len() - j,
        {
            if v[i].name == v[j].name {
                proof {
                    assert(cv[i as int].name == cv[j as int].name);
                }
                return false;
            }
            j += 1;
        }
        i += 1;
    }
    true
}

impl Config {
    /// Whether the aggregate satisfies its invariant: run this on any
    /// configuration read from outside before handing it to the engine.
    #[verifier::loop_isolation(false)]
    pub fn is_well_formed(&self) -> (r: bool)
        ensures
            r == self.deep_view().wf(),
    {
        let ghost c = self.deep_view();
        let mut i: usize = 0;
        while i < self.envs.len()
            invariant
                0 <= i <= c.envs.len(),
                forall|a: int, b: int|
                    0 <= a < b < c.envs.len() && a < i ==> (#[trigger] c.envs[a]).env_id != (
                    #[trigger] c.envs[b]).env_id,
                forall|a: int, b: int|
                    0 <= a < b < c.envs.len() && a < i ==> !((#[trigger] c.envs[a]).is_active && (
                    #[trigger] c.envs[b]).is_active),
                forall|a: int| 0 <= a < i ==> (#[trigger] c.envs[a]).wf(),
            decreases c.envs.len() - i,
        {
            if !contracts_distinct(&self.envs[i].contracts) {
                proof {
                    assert(!c.envs[i as int].wf());
                }
                return false;
            }
            let mut j: usize = i + 1;
            while j < self.envs.len()
                invariant
                    i < j <= c.envs.len(),
                    i < c.envs.len(),
                    forall|b: int| i < b < j ==> (#[trigger] c.envs[b]).env_id != c.envs[i as int].env_id,
                    forall|b: int|
                        i < b < j ==> !(c.envs[i as int].is_active && (
                        #[trigger] c.envs[b]).is_active),
                decreases c.envs.len() - j,
            {
                if self.envs[i].env_id == self.envs[j].env_id {
                    proof {
                        assert(c.envs[i as int].env_id == c.envs[j as int].env_id);
                    }
                    return false;
                }
                if self.envs[i].is_active && self.envs[j].is_active {
                    proof {
                        assert(c.envs[i as int].is_active && c.envs[j as int].is_active);
                    }
                    return false;
                }
                j += 1;
            }
            i += 1;
        }
        let mut i2: usize = 0;
        while i2 < self.chains.len()
            invariant
                0 <= i2 <= c.chains.len(),
                forall|a: int, b: int|
                    0 <= a < b < c.chains.len() && a < i2 ==> (#[trigger] c.chains[a]).label != (
                    #[trigger] c.chains[b]).label,
                forall|a: int, b: int|
                    0 <= a < b < c.envs.len() ==> (#[trigger] c.envs[a]).env_id != (
                    #[trigger] c.envs[b]).env_id,
                forall|a: int, b: int|
                    0 <= a < b < c.envs.len() ==> !((#[trigger] c.envs[a]).is_active && (
                    #[trigger] c.envs[b]).is_active),
                forall|a: int| 0 <= a < c.envs.len() ==> (#[trigger] c.envs[a]).wf(),
            decreases c.chains.len() - i2,
        {
            let mut j: usize = i2 + 1;
            while j < self.chains.len()
                invariant
                    i2 < j <= c.chains.len(),
                    i2 < c.chains.len(),
                    forall|b: int|
                        i2 < b < j ==> (#[trigger] c.chains[b]).label != c.chains[i2 as int].label,
                decreases c.chains.len() - j,
            {
                if self.chains[i2].label == self.chains[j].label {
                    proof {
                        assert(c.chains[i2 as int].label == c.chains[j as int].label);
                    }
                    return false;
                }
                j += 1;
            }
            i2 += 1;
        }
        let mut i3: usize = 0;
        while i3 < self.keys.len()
            invariant
                0 <= i3 <= c.keys.len(),
                forall|a: int, b: int|
                    0 <= a < b < c.keys.len() && a < i3 ==> (#[trigger] c.keys[a]).name != (
                    #[trigger] c.keys[b]).name,
                forall|a: int, b: int|
                    0 <= a < b < c.chains.len() ==> (#[trigger] c.chains[a]).label != (
                    #[trigger] c.chains[b]).label,
                forall|a: int, b: int|
                    0 <= a < b < c.envs.len() ==> (#[trigger] c.envs[a]).env_id != (
                    #[trigger] c.envs[b]).env_id,
                forall|a: int, b: int|
                    0 <= a < b < c.envs.len() ==> !((#[trigger] c.envs[a]).is_active && (
                    #[trigger] c.envs[b]).is_active),
                forall|a: int| 0 <= a < c.envs.len() ==> (#[trigger] c.envs[a]).wf(),
            decreases c.keys.len() - i3,
        {
            let mut j: usize = i3 + 1;
            while j < self.keys.len()
                invariant
                    i3 < j <= c.keys.len(),
                    i3 < c.keys.len(),
                    forall|b: int|
                        i3 < b < j ==> (#[trigger] c.keys[b]).name != c.keys[i3 as int].name,
                decreases c.keys.len() - j,
            {
                if self.keys[i3].name == self.keys[j].name {
                    proof {
                        assert(c.keys[i3 as int].name == c.keys[j as int].name);
                    }
                    return false;
                }
                j += 1;
            }
            i3 += 1;
        }
        true
    }
}

/// Under well-formedness, any two active indices coincide, so `active_idx`
/// is the one active index.
pub proof fn lemma_active_unique(c: ConfigV, i: int)
    requires
        c.wf(),
        0 <= i < c.envs.len(),
        c.envs[i].is_active,
    ensures
        c.has_active(),
        c.active_idx() == i,
{
    let a = c.active_idx();
    assert(0 <= a < c.envs.len() && c.envs[a].is_active);
    if a < i {
        assert(!(c.envs[a].is_active && c.envs[i].is_active));
    } else if i < a {
        assert(!(c.envs[i].is_active && c.envs[a].is_active));
    }
}

/// Upserting keeps registry names pairwise distinct and the rest of the
/// aggregate well formed; the same environment stays active.
pub proof fn lemma_upsert_wf(c: ConfigV, nc: ContractInfoV)
    requires
        c.wf(),
        c.has_active(),
    ensures
        ({
            let c2 = c.with_active_contracts(
                upsert_contract_spec(c.active_env().contracts, nc),
            );
            c2.wf() && c2.has_active() && c2.active_idx() == c.active_idx() && c2.active_env()
                == EnvV {
                contracts: upsert_contract_spec(c.active_env().contracts, nc),
                ..c.active_env()
            }
        }),
{
    let a = c.active_idx();
    assert(0 <= a < c.envs.len() && c.envs[a].is_active);
    let s = c.active_env().contracts;
    let s2 = upsert_contract_spec(s, nc);
    let e2 = EnvV { contracts: s2, ..c.active_env() };
    let c2 = c.with_active_contracts(s2);
    lemma_find_contract_from(s, nc.name, 0);
    assert(c.envs[a].wf());
    assert forall|i: int, j: int| 0 <= i < j < s2.len() implies (#[trigger] s2[i]).name != (
    #[trigger] s2[j]).name by {
        match find_contract(s, nc.name) {
            Option::Some(m) => {
                assert(s2 =~= s.update(m, nc));
                assert(s[m].name == nc.name);
            },
            Option::None => {
                assert(s2 =~= s.push(nc));
            },
        }
    }
    assert(e2.wf());
    assert(c2.envs =~= c.envs.update(a, e2));
    assert(c2.envs[a].is_active);
    lemma_active_unique(c2, a);
    assert(c2.wf());
}

/// Replace the entry named like `new_contract`, or append it.
#[verifier::loop_isolation(false)]
fn upsert_contract(env: &mut Env, new_contract: ContractInfo)
    ensures
        final(env).deep_view() == (EnvV {
            contracts: upsert_contract_spec(
                old(env).deep_view().contracts,
                new_contract.deep_view(),
            ),
            ..old(env).deep_view()
        }),
{
    let ghost cv: Seq<ContractInfoV> = env.deep_view().contracts;
    let ghost target: ContractInfoV = new_contract.deep_view();
    let mut j: usize = 0;
    while j < env.contracts.len()
        invariant
            0 <= j <= cv.len(),
            *env == *old(env),
            find_contract(cv, target.name) == find_contract_from(cv, target.name, j as int),
        decreases cv.len() - j,
    {
        if env.contracts[j].name == new_contract.name {
            let slot: &mut ContractInfo = &mut env.contracts[j];
            *slot = new_contract;
            proof {
                assert(find_contract(cv, target.name) == Option::Some(j as int));
                assert(final(env).deep_view().contracts =~= cv.update(j as int, target));
            }
            return ;
        }
        j += 1;
    }
    env.contracts.push(new_contract);
    proof {
        assert(find_contract(cv, target.name) is None);
        assert(final(env).deep_view().contracts =~= cv.push(target));
    }
}

impl Config {
    /// Add a contract to the active environment's registry, or replace the
    /// entry of the same name; callers read, modify and write whole
    /// entries, there is no partial-field merge.
    pub fn add_contract_from(&mut self, new_contract: ContractInfo) -> (r: Result<
        ContractInfo,
        DeployError,
    >)
        requires
            old(self).deep_view().wf(),
        ensures
            !old(self).deep_view().has_active() ==> (r matches Err(e) && e.deep_view()
                == DeployErrorV::EnvNotFound && *final(self) == *old(self)),
            old(self).deep_view().has_active() ==> (r is Ok && final(self).deep_view() == old(
                self,
            ).deep_view().with_active_contracts(
                upsert_contract_spec(
                    old(self).deep_view().active_env().contracts,
                    new_contract.deep_view(),
                ),
            ) && final(self).deep_view().wf()),
    {
        let ghost c = self.deep_view();
        proof {
            lemma_find_active_from(c.envs, 0);
        }
        match self.active_index() {
            Option::None => {
                proof {
                    if c.has_active() {
                        let a = c.active_idx();
                        assert(0 <= a < c.envs.len() && c.envs[a].is_active);
                    }
                }
                Err(DeployError::EnvNotFound)
            },
            Option::Some(i) => {
                proof {
                    lemma_active_unique(c, i as int);
                    lemma_upsert_wf(c, new_contract.deep_view());
                }
                let ret = new_contract.clone();
                let env: &mut Env = &mut self.envs[i];
                upsert_contract(env, new_contract);
                proof {
                    let c2 = c.with_active_contracts(
                        upsert_contract_spec(c.active_env().contracts, new_contract.deep_view()),
                    );
                    assert(final(self).envs@ == self.envs@);
                    assert(final(self).deep_view().envs =~= c2.envs);
                }
                Ok(ret)
            },
        }
    }

    /// Register a chain under a fresh label.
    #[verifier::loop_isolation(false)]
    pub fn add_chain_from(&mut self, label: String, chain_info: ChainInfo) -> (r: Result<
        ChainInfo,
        DeployError,
    >)
        requires
            old(self).deep_view().wf(),
        ensures
            match find_chain(old(self).deep_view().chains, label@) {
                Option::Some(_) => r matches Err(e) && e.deep_view()
                    == DeployErrorV::ChainAlreadyExists && *final(self) == *old(self),
                Option::None => r is Ok && final(self).deep_view() == (ConfigV {
                    chains: old(self).deep_view().chains.push(
                        ChainEntryV { label: label@, info: chain_info.deep_view() },
                    ),
                    ..old(self).deep_view()
                }) && final(self).deep_view().wf(),
            },
    {
        let ghost c = self.deep_view();
        let ghost hv: Seq<ChainEntryV> = c.chains;
        let mut j: usize = 0;
        while j < self.chains.len()
            invariant
                0 <= j <= hv.len(),
                *self == *old(self),
                find_chain(hv, label@) == find_chain_from(hv, label@, j as int),
            decreases hv.len() - j,
        {
            if self.chains[j].label == label {
                return Err(DeployError::ChainAlreadyExists);
            }
            j += 1;
        }
        proof {
            lemma_find_chain_from(hv, label@, 0);
        }
        let ret = chain_info.clone();
        let ghost entry = ChainEntryV { label: label@, info: chain_info.deep_view() };
        self.chains.push(ChainEntry { label, info: chain_info });
        proof {
            assert(final(self).deep_view().chains =~= hv.push(entry));
            let c2 = final(self).deep_view();
            assert forall|i: int, k: int| 0 <= i < k < c2.chains.len() implies (
            #[trigger] c2.chains[i]).label != (#[trigger] c2.chains[k]).label by {
                if k == hv.len() as int {
                    assert(hv[i].label != label@);
                }
            }
        }
        Ok(ret)
    }

    /// Register a signing key under a fresh name.
    #[verifier::loop_isolation(false)]
    pub fn add_key_from(&mut self, key: UserKey) -> (r: Result<UserKey, DeployError>)
        requires
            old(self).deep_view().wf(),
        ensures
            match find_key(old(self).deep_view().keys, key.name@) {
                Option::Some(_) => r matches Err(e) && e.deep_view()
                    == DeployErrorV::KeyAlreadyExists && *final(self) == *old(self),
                Option::None => r is Ok && final(self).deep_view() == (ConfigV {
                    keys: old(self).deep_view().keys.push(key.deep_view()),
                    ..old(self).deep_view()
                }) && final(self).deep_view().wf(),
            },
    {
        let ghost c = self.deep_view();
        let ghost kv: Seq<UserKeyV> = c.keys;
        let mut j: usize = 0;
        while j < self.keys.len()
            invariant
                0 <= j <= kv.len(),
                *self == *old(self),
                find_key(kv, key.name@) == find_key_from(kv, key.name@, j as int),
            decreases kv.len() - j,
        {
            if self.keys[j].name == key.name {
                return Err(DeployError::KeyAlreadyExists);
            }
            j += 1;
        }
        proof {
            lemma_find_key_from(kv, key.name@, 0);
        }
        let ret = key.clone();
        let ghost entry = key.deep_view();
        self.keys.push(key);
        proof {
            assert(final(self).deep_view().keys =~= kv.push(entry));
            let c2 = final(self).deep_view();
            assert forall|i: int, k: int| 0 <= i < k < c2.keys.len() implies (
            #[trigger] c2.keys[i]).name != (#[trigger] c2.keys[k]).name by {
                if k == kv.len() as int {
                    assert(kv[i].name != entry.name);
                }
            }
        }
        Ok(ret)
    }

    /// Add a deployment environment under a fresh id. An environment that
    /// arrives marked active displaces whichever one was active before.
    #[verifier::loop_isolation(false)]
    pub fn add_env_from(&mut self, env: Env) -> (r: Result<(), DeployError>)
        requires
            old(self).deep_view().wf(),
            env.deep_view().wf(),
        ensures
            match find_env_id_from(old(self).deep_view().envs, env.env_id@, 0) {
                Option::Some(_) => r matches Err(e) && e.deep_view()
                    == DeployErrorV::EnvAlreadyExists && *final(self) == *old(self),
                Option::None => r is Ok && final(self).deep_view() == (ConfigV {
                    envs: (if env.is_active {
                        deactivate_all(old(self).deep_view().envs)
                    } else {
                        old(self).deep_view().envs
                    }).push(env.deep_view()),
                    ..old(self).deep_view()
                }) && final(self).deep_view().wf(),
            },
    {
        let ghost c = self.deep_view();
        let ghost ev: Seq<EnvV> = c.envs;
        let mut j: usize = 0;
        while j < self.envs.len()
            invariant
                0 <= j <= ev.len(),
                *self == *old(self),
                find_env_id_from(ev, env.env_id@, 0) == find_env_id_from(ev, env.env_id@, j as int),
            decreases ev.len() - j,
        {
            if self.envs[j].env_id == env.env_id {
                return Err(DeployError::EnvAlreadyExists);
            }
            j += 1;
        }
        proof {
            lemma_find_env_id_from(ev, env.env_id@, 0);
        }
        if env.is_active {
            let n: usize = self.envs.len();
            let mut k: usize = 0;
            while k < n
                invariant
                    0 <= k <= n,
                    n == self.envs@.len(),
                    self.envs@.len() == old(self).envs@.len(),
                    self.chains == old(self).chains,
                    self.keys == old(self).keys,
                    self.settings == old(self).settings,
                    self.shell_completion_dir == old(self).shell_completion_dir,
                    forall|m: int| k <= m < n ==> self.envs@[m] == old(self).envs@[m],
                    forall|m: int|
                        0 <= m < k ==> (#[trigger] self.envs@[m]).deep_view() == (EnvV {
                            is_active: false,
                            ..old(self).envs@[m].deep_view()
                        }),
                decreases n - k,
            {
                let e: &mut Env = &mut self.envs[k];
                e.is_active = false;
                k += 1;
            }
            proof {
                assert(self.deep_view().envs =~= deactivate_all(ev));
            }
        }
        let ghost entry = env.deep_view();
        self.envs.push(env);
        proof {
            let base: Seq<EnvV> = if entry.is_active {
                deactivate_all(ev)
            } else {
                ev
            };
            assert(final(self).deep_view().envs =~= base.push(entry));
            let c2 = final(self).deep_view();
            assert forall|i: int, k: int| 0 <= i < k < c2.envs.len() implies (
            #[trigger] c2.envs[i]).env_id != (#[trigger] c2.envs[k]).env_id by {
                if k == ev.len() as int {
                    assert(ev[i].env_id != entry.env_id);
                }
            }
            assert forall|i: int, k: int| 0 <= i < k < c2.envs.len() implies !((
            #[trigger] c2.envs[i]).is_active && (#[trigger] c2.envs[k]).is_active) by {
                if entry.is_active {
                    if k < ev.len() as int {
                        assert(!c2.envs[k].is_active);
                    } else {
                        assert(!c2.envs[i].is_active);
                    }
                }
            }
            assert forall|i: int| 0 <= i < c2.envs.len() implies (#[trigger] c2.envs[i]).wf() by {
                if i < ev.len() as int {
                    assert(ev[i].wf());
                    assert(c2.envs[i].contracts == ev[i].contracts);
                }
            }
        }
        Ok(())
    }

    /// Make the environment with id `env_id` the active one; setting one
    /// flag necessarily clears all the others.
    #[verifier::loop_isolation(false)]
    pub fn change_env_to(&mut self, env_id: &String) -> (r: Result<(), DeployError>)
        requires
            old(self).deep_view().wf(),
        ensures
            match find_env_id_from(old(self).deep_view().envs, env_id@, 0) {
                Option::None => r matches Err(e) && e.deep_view() == DeployErrorV::EnvNotFound
                    && *final(self) == *old(self),
                Option::Some(j) => r is Ok && final(self).deep_view() == (ConfigV {
                    envs: activate_only(old(self).deep_view().envs, env_id@),
                    ..old(self).deep_view()
                }) && final(self).deep_view().wf() && final(self).deep_view().has_active()
                    && final(self).deep_view().active_idx() == j,
            },
    {
        let ghost c = self.deep_view();
        let ghost ev: Seq<EnvV> = c.envs;
        let mut j: usize = 0;
        let mut found: bool = false;
        while j < self.envs.len()
            invariant
                0 <= j <= ev.len(),
                *self == *old(self),
                !found,
                find_env_id_from(ev, env_id@, 0) == find_env_id_from(ev, env_id@, j as int),
            decreases ev.len() - j,
        {
            if self.envs[j].env_id == *env_id {
                found = true;
                break ;
            }
            j += 1;
        }
        if !found {
            return Err(DeployError::EnvNotFound);
        }
        proof {
            lemma_find_env_id_from(ev, env_id@, 0);
        }
        let n: usize = self.envs.len();
        let mut k: usize = 0;
        while k < n
            invariant
                0 <= k <= n,
                n == self.envs@.len(),
                self.envs@.len() == old(self).envs@.len(),
                self.chains == old(self).chains,
                self.keys == old(self).keys,
                self.settings == old(self).settings,
                self.shell_completion_dir == old(self).shell_completion_dir,
                forall|m: int| k <= m < n ==> self.envs@[m] == old(self).envs@[m],
                forall|m: int|
                    0 <= m < k ==> (#[trigger] self.envs@[m]).deep_view() == (EnvV {
                        is_active: old(self).envs@[m].deep_view().env_id == env_id@,
                        ..old(self).envs@[m].deep_view()
                    }),
            decreases n - k,
        {
            let e: &mut Env = &mut self.envs[k];
            let act: bool = e.env_id == *env_id;
            e.is_active = act;
            k += 1;
        }
        proof {
            assert(final(self).deep_view().envs =~= activate_only(ev, env_id@));
            let c2 = final(self).deep_view();
            let jj = find_env_id_from(ev, env_id@, 0)->0;
            assert forall|i: int, m: int| 0 <= i < m < c2.envs.len() implies !((
            #[trigger] c2.envs[i]).is_active && (#[trigger] c2.envs[m]).is_active) by {
                if c2.envs[i].is_active && c2.envs[m].is_active {
                    assert(ev[i].env_id == env_id@ && ev[m].env_id == env_id@);
                }
            }
            assert forall|i: int| 0 <= i < c2.envs.len() implies (#[trigger] c2.envs[i]).wf() by {
                assert(ev[i].wf());
                assert(c2.envs[i].contracts == ev[i].contracts);
            }
            assert(c2.envs[jj].is_active);
            lemma_active_unique(c2, jj);
        }
        Ok(())
    }
}

/// The standard Cosmos Hub derivation path, assumed for configurations
/// that predate an explicit one.
pub fn default_derivation_path() -> (r: String)
    ensures
        r@ == "m/44'/118'/0'/0/0"@,
{
    "m/44'/118'/0'/0/0".to_owned()
}

/// Replace the chain under `e`'s label, or append `e`.
pub open spec fn upsert_chain_spec(s: Seq<ChainEntryV>, e: ChainEntryV) -> Seq<ChainEntryV> {
    match find_chain(s, e.label) {
        Option::Some(j) => s.update(j, e),
        Option::None => s.push(e),
    }
}

/// The labelled chain set an old-format chain list denotes: each chain
/// keyed by its own chain id, a later entry with the same id replacing an
/// earlier one.
pub open spec fn chains_from_list_spec(list: Seq<ChainInfoV>) -> Seq<ChainEntryV>
    decreases list.len(),
{
    if list.len() == 0 {
        Seq::empty()
    } else {
        upsert_chain_spec(
            chains_from_list_spec(list.drop_last()),
            ChainEntryV { label: list.last().chain_id, info: list.last() },
        )
    }
}

/// Duplicate one chain's parameters, field by field.
fn clone_chain_info(c: &ChainInfo) -> (r: ChainInfo)
    ensures
        r.deep_view() == c.deep_view(),
{
    ChainInfo {
        denom: c.denom.clone(),
        chain_id: c.chain_id.clone(),
        rpc_endpoint: match &c.rpc_endpoint {
            Option::Some(e) => Option::Some(e.clone()),
            Option::None => Option::None,
        },
        grpc_endpoint: match &c.grpc_endpoint {
            Option::Some(e) => Option::Some(e.clone()),
            Option::None => Option::None,
        },
        gas_price: c.gas_price.clone(),
        gas_adjustment: c.gas_adjustment.clone(),
        prefix: c.prefix.clone(),
        derivation_path: c.derivation_path.clone(),
    }
}

/// First chain index labelled `label`, by a linear scan.
#[verifier::loop_isolation(false)]
fn find_chain_index(chains: &Vec<ChainEntry>, label: &String) -> (r: Option<usize>)
    ensures
        match r {
            Option::Some(j) => find_chain(chains.deep_view(), label@) == Option::Some(j as int)
                && j < chains@.len(),
            Option::None => find_chain(chains.deep_view(), label@) is None,
        },
{
    let ghost hv: Seq<ChainEntryV> = chains.deep_view();
    let mut j: usize = 0;
    while j < chains.len()
        invariant
            0 <= j <= hv.len(),
            hv.len() == chains@.len(),
            find_chain(hv, label@) == find_chain_from(hv, label@, j as int),
        decreases hv.len() - j,
    {
        if chains[j].label == *label {
            return Option::Some(j);
        }
        j += 1;
    }
    Option::None
}

/// Upgrade the old list-of-chains format into the labelled form, keyed
/// by chain id; decoding the old on-disk format is the caller's job.
#[verifier::loop_isolation(false)]
pub fn chains_from_list(list: Vec<ChainInfo>) -> (r: Vec<ChainEntry>)
    ensures
        r.deep_view() == chains_from_list_spec(list.deep_view()),
{
    let ghost lv: Seq<ChainInfoV> = list.deep_view();
    let mut out: Vec<ChainEntry> = Vec::new();
    proof {
        assert(out.deep_view() =~= Seq::<ChainEntryV>::empty());
    }
    let mut i: usize = 0;
    while i < list.len()
        invariant
            0 <= i <= lv.len(),
            out.deep_view() == chains_from_list_spec(lv.subrange(0, i as int)),
        decreases lv.len() - i,
    {
        let ghost prev: Seq<ChainEntryV> = out.deep_view();
        proof {
            assert(lv.subrange(0, i + 1).drop_last() =~= lv.subrange(0, i as int));
            assert(lv.subrange(0, i + 1).last() == lv[i as int]);
        }
        let entry = ChainEntry { label: list[i].chain_id.clone(), info: clone_chain_info(&list[i]) };
        let ghost ev: ChainEntryV = entry.deep_view();
        proof {
            assert(ev =~= (ChainEntryV { label: lv[i as int].chain_id, info: lv[i as int] }));
        }
        let found: Option<usize> = find_chain_index(&out, &entry.label);
        match found {
            Option::Some(j2) => {
                proof {
                    assert(find_chain(prev, ev.label) == Option::Some(j2 as int));
                }
                let slot: &mut ChainEntry = &mut out[j2];
                *slot = entry;
                proof {
                    assert(out.deep_view() =~= prev.update(j2 as int, ev));
                }
            },
            Option::None => {
                proof {
                    assert(find_chain(prev, ev.label) is None);
                }
                out.push(entry);
                proof {
                    assert(out.deep_view() =~= prev.push(ev));
                }
            },
        }
        i += 1;
    }
    proof {
        assert(lv.subrange(0, lv.len() as int) =~= lv);
    }
    out
}

/// Every environment with its active flag cleared.
pub open spec fn deactivate_all(s: Seq<EnvV>) -> Seq<EnvV> {
    Seq::new(s.len(), |k: int| EnvV { is_active: false, ..s[k] })
}

/// Exactly the environments with id `env_id` marked active.
pub open spec fn activate_only(s: Seq<EnvV>, env_id: Seq<char>) -> Seq<EnvV> {
    Seq::new(s.len(), |k: int| EnvV { is_active: s[k].env_id == env_id, ..s[k] })
}

} // verus!
