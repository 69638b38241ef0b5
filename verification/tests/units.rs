use wasm_deploy::config::{
    chains_from_list, default_derivation_path, ChainEntry, ChainInfo, Config, ContractInfo, Env,
    UserSettings,
};
use wasm_deploy::contract::{ContractDescriptor, Msg};
use wasm_deploy::deployment::{artifact_path, deploy_stages, migrate_stages, DeploymentStage};
use wasm_deploy::error::DeployError;
use wasm_deploy::json::Json;
use wasm_deploy::key::{Key, KeyringParams, UserKey};
use wasm_deploy::response::{find_attribute, find_event, parse_u64, Attribute, ChainResponse, Event};
use wasm_deploy::settings::WorkspaceSettings;
use wasm_deploy::utils::replace_strings;

fn entry(name: &str, addr: Option<&str>, code_id: Option<u64>) -> ContractInfo {
    ContractInfo {
        name: name.to_string(),
        addr: addr.map(|a| a.to_string()),
        code_id,
    }
}

fn chain(chain_id: &str, rpc: Option<&str>) -> ChainInfo {
    ChainInfo {
        denom: "uatom".to_string(),
        chain_id: chain_id.to_string(),
        rpc_endpoint: rpc.map(|r| r.to_string()),
        grpc_endpoint: None,
        gas_price: "0.025".to_string(),
        gas_adjustment: "1.3".to_string(),
        prefix: "cosmos".to_string(),
        derivation_path: default_derivation_path(),
    }
}

fn empty_config() -> Config {
    Config {
        settings: UserSettings::default(),
        shell_completion_dir: None,
        chains: Vec::new(),
        envs: Vec::new(),
        keys: Vec::new(),
    }
}

fn test_send_sync<T: Send + Sync>(_: T) {}

#[test]
fn test_deploy_error() {
    test_send_sync(DeployError::Generic("".to_string()));
}

#[test]
fn substitution_replaces_whole_string() {
    // "prefix&other_contract" with other_contract.addr = "addr123"
    // becomes exactly "addr123".
    let contracts = vec![entry("other_contract", Some("addr123"), None)];
    let msg = Json::Str("prefix&other_contract".to_string());
    let out = replace_strings(&msg, &contracts).unwrap();
    assert_eq!(out, Json::Str("addr123".to_string()));
}

#[test]
fn substitution_fails_without_address() {
    let contracts = vec![entry("other_contract", None, Some(4))];
    let msg = Json::Str("prefix&other_contract".to_string());
    let err = replace_strings(&msg, &contracts).unwrap_err();
    assert!(matches!(err, DeployError::AddrNotFound { name } if name == "other_contract"));
}

#[test]
fn substitution_walks_arrays_and_objects() {
    let contracts = vec![entry("pool", Some("cosmos1pool"), None)];
    let msg = Json::Object(vec![
        (
            "targets".to_string(),
            Json::Array(vec![Json::Str("&pool".to_string()), Json::Int(3)]),
        ),
        ("note".to_string(), Json::Str("no reference here".to_string())),
    ]);
    let out = replace_strings(&msg, &contracts).unwrap();
    assert_eq!(
        out,
        Json::Object(vec![
            (
                "targets".to_string(),
                Json::Array(vec![Json::Str("cosmos1pool".to_string()), Json::Int(3)]),
            ),
            ("note".to_string(), Json::Str("no reference here".to_string())),
        ])
    );
}

#[test]
fn substitution_splits_on_first_ampersand() {
    // The suffix after the *first* `&` must name a contract exactly;
    // otherwise the string passes through untouched.
    let contracts = vec![entry("pool", Some("cosmos1pool"), None)];
    let untouched = Json::Str("a&b&pool".to_string());
    let out = replace_strings(&untouched, &contracts).unwrap();
    assert_eq!(out, Json::Str("a&b&pool".to_string()));
    let nested = Json::Str("x&&pool".to_string());
    let out2 = replace_strings(&nested, &contracts).unwrap();
    assert_eq!(out2, Json::Str("x&&pool".to_string()));
}

#[test]
fn substitution_without_reference_is_identity() {
    let contracts = vec![entry("pool", Some("cosmos1pool"), None)];
    let msg = Json::Str("plain".to_string());
    assert_eq!(
        replace_strings(&msg, &contracts).unwrap(),
        Json::Str("plain".to_string())
    );
}

#[test]
fn json_to_json_is_deep_copy() {
    let v = Json::Array(vec![
        Json::Null,
        Json::Bool(true),
        Json::Int(-7),
        Json::Object(vec![("k".to_string(), Json::Str("v".to_string()))]),
    ]);
    assert_eq!(v.to_json(), v);
    assert_eq!(v.clone(), v);
}

#[test]
fn registry_lookup_errors() {
    let mut config = empty_config();
    assert!(matches!(
        config.get_contract(&"alpha".to_string()),
        Err(DeployError::EnvNotFound)
    ));
    config.envs.push(Env {
        is_active: true,
        env_id: "dev".to_string(),
        chain_label: "local".to_string(),
        contracts: vec![entry("alpha", None, Some(1))],
        key_name: "k".to_string(),
    });
    assert!(matches!(
        config.get_contract(&"missing".to_string()),
        Err(DeployError::ContractNotFound { contract_name }) if contract_name == "missing"
    ));
    assert!(matches!(
        config.get_contract_addr(&"alpha".to_string()),
        Err(DeployError::AddrNotFound { name }) if name == "alpha"
    ));
}

#[test]
fn upsert_replaces_in_place_and_appends() {
    let mut config = empty_config();
    config.envs.push(Env {
        is_active: true,
        env_id: "dev".to_string(),
        chain_label: "local".to_string(),
        contracts: vec![entry("a", None, Some(1)), entry("b", None, Some(2))],
        key_name: "k".to_string(),
    });
    config
        .add_contract_from(entry("a", Some("cosmos1a"), Some(10)))
        .unwrap();
    config.add_contract_from(entry("c", None, Some(3))).unwrap();
    let env = config.get_active_env().unwrap();
    assert_eq!(env.contracts.len(), 3);
    assert_eq!(env.contracts[0], entry("a", Some("cosmos1a"), Some(10)));
    assert_eq!(env.contracts[1], entry("b", None, Some(2)));
    assert_eq!(env.contracts[2], entry("c", None, Some(3)));
}

#[test]
fn chain_and_key_registration_rejects_duplicates() {
    let mut config = empty_config();
    config
        .add_chain_from("local".to_string(), chain("test-1", Some("http://localhost:26657")))
        .unwrap();
    assert!(matches!(
        config.add_chain_from("local".to_string(), chain("test-2", None)),
        Err(DeployError::ChainAlreadyExists)
    ));
    let key = UserKey {
        name: "validator".to_string(),
        key: Key::Keyring {
            params: KeyringParams {
                service: "svc".to_string(),
                user_name: "me".to_string(),
            },
        },
    };
    config.add_key_from(key.clone()).unwrap();
    assert!(matches!(
        config.add_key_from(key),
        Err(DeployError::KeyAlreadyExists)
    ));
}

#[test]
fn env_activation_is_exclusive() {
    let mut config = empty_config();
    let mk = |id: &str, active: bool| Env {
        is_active: active,
        env_id: id.to_string(),
        chain_label: "local".to_string(),
        contracts: Vec::new(),
        key_name: "k".to_string(),
    };
    config.add_env_from(mk("dev", true)).unwrap();
    config.add_env_from(mk("prod", true)).unwrap();
    assert!(!config.envs[0].is_active);
    assert!(config.envs[1].is_active);
    assert!(matches!(
        config.add_env_from(mk("dev", false)),
        Err(DeployError::EnvAlreadyExists)
    ));
    config.change_env_to(&"dev".to_string()).unwrap();
    assert!(config.envs[0].is_active);
    assert!(!config.envs[1].is_active);
    assert_eq!(config.get_active_env().unwrap().env_id, "dev".to_string());
    assert!(matches!(
        config.change_env_to(&"missing".to_string()),
        Err(DeployError::EnvNotFound)
    ));
}

#[test]
fn active_chain_and_key_lookups() {
    let mut config = empty_config();
    config
        .add_chain_from("local".to_string(), chain("test-1", Some("http://localhost:26657")))
        .unwrap();
    config
        .add_key_from(UserKey {
            name: "validator".to_string(),
            key: Key::Mnemonic {
                phrase: "orbit tunnel maple lens".to_string(),
            },
        })
        .unwrap();
    config.envs.push(Env {
        is_active: true,
        env_id: "dev".to_string(),
        chain_label: "local".to_string(),
        contracts: Vec::new(),
        key_name: "validator".to_string(),
    });
    assert_eq!(
        config.get_active_chain_info().unwrap().chain_id,
        "test-1".to_string()
    );
    assert_eq!(config.get_active_key().unwrap().name, "validator".to_string());
    config.envs[0].chain_label = "missing".to_string();
    assert!(matches!(
        config.get_active_chain_info(),
        Err(DeployError::ChainConfigNotFound)
    ));
    config.envs[0].key_name = "missing".to_string();
    assert!(matches!(
        config.get_active_key(),
        Err(DeployError::KeyNotFound { key_name }) if key_name == "missing"
    ));
}

#[test]
fn old_chain_list_upgrades_keyed_by_id_later_wins() {
    let list = vec![
        chain("test-1", Some("http://a")),
        chain("test-2", None),
        chain("test-1", Some("http://b")),
    ];
    let chains: Vec<ChainEntry> = chains_from_list(list);
    assert_eq!(chains.len(), 2);
    assert_eq!(chains[0].label, "test-1".to_string());
    assert_eq!(chains[0].info.rpc_endpoint, Some("http://b".to_string()));
    assert_eq!(chains[1].label, "test-2".to_string());
}

#[test]
fn bin_name_is_snake_cased_package_id() {
    let mut d = ContractDescriptor {
        name: "MyContract".to_string(),
        package_id: None,
        admin: "cosmos1admin".to_string(),
        instantiate_msg: None,
        migrate_msg: None,
        set_config_msg: None,
        set_up_msgs: Vec::new(),
        external_instantiate_msgs: Vec::new(),
    };
    assert_eq!(d.bin_name(), "my_contract".to_string());
    d.package_id = Some("SharedCode".to_string());
    assert_eq!(d.bin_name(), "shared_code".to_string());
    assert_eq!(
        artifact_path(&"/ws/artifacts".to_string(), &d),
        "/ws/artifacts/shared_code.wasm.gz".to_string()
    );
}

#[test]
fn workspace_settings_join_defaults() {
    let s = WorkspaceSettings::new("/ws".to_string()).unwrap();
    assert_eq!(s.config_path, "/ws/.wasm-deploy/config.json".to_string());
    assert_eq!(s.target_dir, "/ws/target".to_string());
    assert_eq!(s.deployment_dir, "/ws/deployment".to_string());
    assert_eq!(s.artifacts_dir, "/ws/artifacts".to_string());
    let s2 = s.set_artifacts_dir("/elsewhere".to_string());
    assert_eq!(s2.artifacts_dir, "/elsewhere".to_string());
    assert!(matches!(
        WorkspaceSettings::new("relative/path".to_string()),
        Err(DeployError::Generic(_))
    ));
}

#[test]
fn default_chunk_size_is_two() {
    assert_eq!(UserSettings::default().store_code_chunk_size, 2);
}

#[test]
fn stage_sequences() {
    assert_eq!(
        deploy_stages(),
        vec![
            DeploymentStage::StoreCode,
            DeploymentStage::Instantiate { interactive: false },
            DeploymentStage::ExternalInstantiate,
            DeploymentStage::SetConfig,
            DeploymentStage::SetUp,
        ]
    );
    assert_eq!(
        migrate_stages(true),
        vec![
            DeploymentStage::StoreCode,
            DeploymentStage::Migrate { interactive: true },
        ]
    );
}

#[test]
fn chain_response_success_is_zero_code() {
    let ok = ChainResponse {
        code: 0,
        data: None,
        log: String::new(),
        gas_wanted: 100,
        gas_used: 90,
    };
    assert!(ok.success());
    let failed = ChainResponse { code: 5, ..ok };
    assert!(!failed.success());
}

#[test]
fn event_lookup_and_code_id_extraction() {
    let events = vec![
        Event {
            kind: "message".to_string(),
            attributes: Vec::new(),
        },
        Event {
            kind: "store_code".to_string(),
            attributes: vec![
                Attribute {
                    key: "sender".to_string(),
                    value: "cosmos1admin".to_string(),
                },
                Attribute {
                    key: "code_id".to_string(),
                    value: "42".to_string(),
                },
            ],
        },
    ];
    let event = find_event(&events, &"store_code".to_string()).unwrap();
    let raw = find_attribute(event, &"code_id".to_string()).unwrap();
    assert_eq!(parse_u64(raw.as_str()), Some(42));
    assert!(find_event(&events, &"instantiate".to_string()).is_none());
    assert!(find_attribute(event, &"missing".to_string()).is_none());
}

#[test]
fn parse_u64_bounds_and_rejects() {
    assert_eq!(parse_u64("0"), Some(0));
    assert_eq!(parse_u64("123"), Some(123));
    assert_eq!(parse_u64("18446744073709551615"), Some(u64::MAX));
    assert_eq!(parse_u64("18446744073709551616"), None);
    assert_eq!(parse_u64(""), None);
    assert_eq!(parse_u64("12a"), None);
    assert_eq!(parse_u64("-5"), None);
}
