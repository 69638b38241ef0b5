use wasm_deploy::config::{Config, ContractInfo, Env, UserSettings};
use wasm_deploy::contract::{ContractDescriptor, ExternalInstantiate};
use wasm_deploy::deployment::{
    apply_external_instantiate, apply_instantiate, apply_store_code, plan_external_instantiate,
    plan_instantiate, plan_migrate, plan_set_config, plan_set_up, plan_store_code,
};
use wasm_deploy::error::DeployError;
use wasm_deploy::json::Json;

fn entry(name: &str, addr: Option<&str>, code_id: Option<u64>) -> ContractInfo {
    ContractInfo {
        name: name.to_string(),
        addr: addr.map(|a| a.to_string()),
        code_id,
    }
}

fn config_with(contracts: Vec<ContractInfo>) -> Config {
    Config {
        settings: UserSettings {
            store_code_chunk_size: 2,
        },
        shell_completion_dir: None,
        chains: Vec::new(),
        envs: vec![Env {
            is_active: true,
            env_id: "dev".to_string(),
            chain_label: "local".to_string(),
            contracts,
            key_name: "validator".to_string(),
        }],
        keys: Vec::new(),
    }
}

fn descriptor(name: &str) -> ContractDescriptor {
    ContractDescriptor {
        name: name.to_string(),
        package_id: None,
        admin: "cosmos1admin".to_string(),
        instantiate_msg: None,
        migrate_msg: None,
        set_config_msg: None,
        set_up_msgs: Vec::new(),
        external_instantiate_msgs: Vec::new(),
    }
}

fn lookup<'a>(config: &'a Config, name: &str) -> &'a ContractInfo {
    config.get_contract(&name.to_string()).unwrap()
}

#[test]
fn store_code_two_contracts_one_chunk() {
    // Contracts ["alpha","beta"], chunk size 2: the chain answers
    // code_ids=[10,11] and the registry records them positionally.
    let mut config = config_with(Vec::new());
    let contracts = vec![descriptor("alpha"), descriptor("beta")];
    let chunks = plan_store_code(&contracts, &"/ws/artifacts".to_string(), 2);
    assert_eq!(chunks.len(), 1);
    assert_eq!(chunks[0].names, vec!["alpha".to_string(), "beta".to_string()]);
    assert_eq!(
        chunks[0].paths,
        vec![
            "/ws/artifacts/alpha.wasm.gz".to_string(),
            "/ws/artifacts/beta.wasm.gz".to_string()
        ]
    );
    let code_ids: Vec<u64> = vec![10, 11];
    apply_store_code(&mut config, &chunks[0].names, &code_ids).unwrap();
    assert_eq!(lookup(&config, "alpha"), &entry("alpha", None, Some(10)));
    assert_eq!(lookup(&config, "beta"), &entry("beta", None, Some(11)));
}

#[test]
fn store_code_zip_is_positional() {
    // A permutation-detectable response lands on the contracts in the
    // original call order, never reordered.
    let mut config = config_with(Vec::new());
    let names = vec!["a".to_string(), "b".to_string(), "c".to_string()];
    let code_ids: Vec<u64> = vec![31, 7, 19];
    apply_store_code(&mut config, &names, &code_ids).unwrap();
    assert_eq!(lookup(&config, "a").code_id, Some(31));
    assert_eq!(lookup(&config, "b").code_id, Some(7));
    assert_eq!(lookup(&config, "c").code_id, Some(19));
}

#[test]
fn re_store_keeps_only_latest_code_id() {
    // Storing twice leaves only the most recent code id, and an address
    // set in between survives the re-store.
    let mut config = config_with(Vec::new());
    let names = vec!["alpha".to_string()];
    apply_store_code(&mut config, &names, &vec![1u64]).unwrap();
    apply_instantiate(&mut config, &names, &vec!["cosmos1alpha".to_string()]).unwrap();
    apply_store_code(&mut config, &names, &vec![2u64]).unwrap();
    assert_eq!(
        lookup(&config, "alpha"),
        &entry("alpha", Some("cosmos1alpha"), Some(2))
    );
}

#[test]
fn store_code_chunk_failure_keeps_earlier_chunks() {
    // Five contracts, chunk size 2: the adapter fails on the second
    // chunk, so the first two contracts keep their new code ids and the
    // remaining three stay exactly as they were.
    let mut config = config_with(vec![
        entry("c0", None, Some(100)),
        entry("c1", None, Some(101)),
        entry("c2", None, Some(102)),
        entry("c3", None, Some(103)),
        entry("c4", None, Some(104)),
    ]);
    let contracts = vec![
        descriptor("c0"),
        descriptor("c1"),
        descriptor("c2"),
        descriptor("c3"),
        descriptor("c4"),
    ];
    let chunks = plan_store_code(&contracts, &"/ws/artifacts".to_string(), 2);
    assert_eq!(chunks.len(), 3);
    assert_eq!(chunks[0].names.len(), 2);
    assert_eq!(chunks[1].names.len(), 2);
    assert_eq!(chunks[2].names.len(), 1);
    let mut submitted = 0usize;
    for (idx, chunk) in chunks.iter().enumerate() {
        if idx == 1 {
            // The chain rejects this transaction: the whole stage stops
            // here, and nothing from this chunk reaches the registry.
            break;
        }
        let code_ids: Vec<u64> = (0..chunk.names.len() as u64).map(|k| 200 + k).collect();
        apply_store_code(&mut config, &chunk.names, &code_ids).unwrap();
        submitted += 1;
    }
    assert_eq!(submitted, 1);
    assert_eq!(lookup(&config, "c0").code_id, Some(200));
    assert_eq!(lookup(&config, "c1").code_id, Some(201));
    assert_eq!(lookup(&config, "c2"), &entry("c2", None, Some(102)));
    assert_eq!(lookup(&config, "c3"), &entry("c3", None, Some(103)));
    assert_eq!(lookup(&config, "c4"), &entry("c4", None, Some(104)));
}

#[test]
fn instantiate_without_code_id_fails_without_network_call() {
    // The registry knows the contract but no code has been stored: the
    // plan fails with CodeIdNotFound before any request is built.
    let config = config_with(vec![entry("alpha", None, None)]);
    let mut alpha = descriptor("alpha");
    alpha.instantiate_msg = Some(Json::Object(vec![(
        "count".to_string(),
        Json::Int(0),
    )]));
    let contracts = vec![alpha];
    let mut chain_calls = 0usize;
    match plan_instantiate(&config, &contracts) {
        Ok(_) => {
            chain_calls += 1;
        }
        Err(e) => {
            assert!(matches!(e, DeployError::CodeIdNotFound));
        }
    }
    assert_eq!(chain_calls, 0);
}

#[test]
fn instantiate_substitutes_sibling_address() {
    // Instantiate alpha with {"admin":"&beta"} where beta's address is
    // "cosmos1beta": the submitted message is {"admin":"cosmos1beta"}.
    let config = config_with(vec![
        entry("alpha", None, Some(5)),
        entry("beta", Some("cosmos1beta"), Some(6)),
    ]);
    let mut alpha = descriptor("alpha");
    alpha.instantiate_msg = Some(Json::Object(vec![(
        "admin".to_string(),
        Json::Str("&beta".to_string()),
    )]));
    let (reqs, names) = plan_instantiate(&config, &vec![alpha]).unwrap();
    assert_eq!(names, vec!["alpha".to_string()]);
    assert_eq!(reqs.len(), 1);
    assert_eq!(reqs[0].code_id, 5);
    assert_eq!(reqs[0].label, "alpha".to_string());
    assert_eq!(reqs[0].admin, Some("cosmos1admin".to_string()));
    assert!(reqs[0].funds.is_empty());
    assert_eq!(
        reqs[0].msg,
        Json::Object(vec![(
            "admin".to_string(),
            Json::Str("cosmos1beta".to_string())
        )])
    );
}

#[test]
fn instantiate_skips_contracts_without_message() {
    // Contracts without an instantiate message consume no response
    // slot: the returned addresses land only on the contributors.
    let mut config = config_with(vec![
        entry("alpha", None, Some(1)),
        entry("beta", None, Some(2)),
    ]);
    let mut beta = descriptor("beta");
    beta.instantiate_msg = Some(Json::Object(Vec::new()));
    let contracts = vec![descriptor("alpha"), beta];
    let (reqs, names) = plan_instantiate(&config, &contracts).unwrap();
    assert_eq!(reqs.len(), 1);
    assert_eq!(names, vec!["beta".to_string()]);
    let addresses = vec!["cosmos1beta".to_string()];
    apply_instantiate(&mut config, &names, &addresses).unwrap();
    assert_eq!(lookup(&config, "alpha").addr, None);
    assert_eq!(lookup(&config, "beta").addr, Some("cosmos1beta".to_string()));
}

#[test]
fn external_instantiate_registers_under_own_name() {
    let mut config = config_with(vec![entry("alpha", Some("cosmos1alpha"), Some(1))]);
    let mut alpha = descriptor("alpha");
    alpha.external_instantiate_msgs = vec![ExternalInstantiate {
        msg: Json::Object(vec![("owner".to_string(), Json::Str("&alpha".to_string()))]),
        code_id: 77,
        name: "oracle".to_string(),
    }];
    let reqs = plan_external_instantiate(&config, &vec![alpha]).unwrap();
    assert_eq!(reqs.len(), 1);
    assert_eq!(reqs[0].code_id, 77);
    assert_eq!(reqs[0].label, "oracle".to_string());
    assert_eq!(
        reqs[0].msg,
        Json::Object(vec![(
            "owner".to_string(),
            Json::Str("cosmos1alpha".to_string())
        )])
    );
    let names: Vec<String> = reqs.iter().map(|r| r.label.clone()).collect();
    let code_ids: Vec<u64> = reqs.iter().map(|r| r.code_id).collect();
    let addresses = vec!["cosmos1oracle".to_string()];
    apply_external_instantiate(&mut config, &names, &code_ids, &addresses).unwrap();
    assert_eq!(
        lookup(&config, "oracle"),
        &entry("oracle", Some("cosmos1oracle"), Some(77))
    );
}

#[test]
fn external_instantiate_empty_set_is_no_op() {
    let config = config_with(vec![entry("alpha", None, Some(1))]);
    let reqs = plan_external_instantiate(&config, &vec![descriptor("alpha")]).unwrap();
    assert!(reqs.is_empty());
}

#[test]
fn set_config_all_none_makes_zero_chain_calls() {
    // Every contract returns None for its config message: the plan is
    // the empty batch, the driver submits nothing, and the stage
    // succeeds.
    let config = config_with(vec![
        entry("alpha", Some("cosmos1alpha"), Some(1)),
        entry("beta", Some("cosmos1beta"), Some(2)),
    ]);
    let contracts = vec![descriptor("alpha"), descriptor("beta")];
    let reqs = plan_set_config(&config, &contracts).unwrap();
    let mut chain_calls = 0usize;
    if !reqs.is_empty() {
        chain_calls += 1;
    }
    assert_eq!(chain_calls, 0);
}

#[test]
fn set_config_targets_own_address() {
    let config = config_with(vec![entry("alpha", Some("cosmos1alpha"), Some(1))]);
    let mut alpha = descriptor("alpha");
    alpha.set_config_msg = Some(Json::Object(vec![(
        "paused".to_string(),
        Json::Bool(false),
    )]));
    let reqs = plan_set_config(&config, &vec![alpha]).unwrap();
    assert_eq!(reqs.len(), 1);
    assert_eq!(reqs[0].address, "cosmos1alpha".to_string());
    assert!(reqs[0].funds.is_empty());
}

#[test]
fn set_config_without_address_fails() {
    let config = config_with(vec![entry("alpha", None, Some(1))]);
    let mut alpha = descriptor("alpha");
    alpha.set_config_msg = Some(Json::Object(Vec::new()));
    let err = plan_set_config(&config, &vec![alpha]).unwrap_err();
    assert!(matches!(err, DeployError::AddrNotFound { name } if name == "alpha"));
}

#[test]
fn set_up_flattens_in_contract_then_message_order() {
    let config = config_with(vec![
        entry("alpha", Some("cosmos1alpha"), Some(1)),
        entry("beta", Some("cosmos1beta"), Some(2)),
    ]);
    let mut alpha = descriptor("alpha");
    alpha.set_up_msgs = vec![Json::Int(1), Json::Int(2)];
    let mut beta = descriptor("beta");
    beta.set_up_msgs = vec![Json::Int(3)];
    let reqs = plan_set_up(&config, &vec![alpha, beta]).unwrap();
    assert_eq!(reqs.len(), 3);
    assert_eq!(reqs[0].msg, Json::Int(1));
    assert_eq!(reqs[0].address, "cosmos1alpha".to_string());
    assert_eq!(reqs[1].msg, Json::Int(2));
    assert_eq!(reqs[1].address, "cosmos1alpha".to_string());
    assert_eq!(reqs[2].msg, Json::Int(3));
    assert_eq!(reqs[2].address, "cosmos1beta".to_string());
}

#[test]
fn migrate_without_message_is_skipped() {
    // Migrate alpha with no migrate message defined: the stage completes
    // with zero submitted requests and returns success.
    let config = config_with(vec![entry("alpha", Some("cosmos1alpha"), Some(3))]);
    let reqs = plan_migrate(&config, &vec![descriptor("alpha")]).unwrap();
    assert!(reqs.is_empty());
}

#[test]
fn migrate_uses_registered_address_and_code_id() {
    let config = config_with(vec![entry("alpha", Some("cosmos1alpha"), Some(9))]);
    let mut alpha = descriptor("alpha");
    alpha.migrate_msg = Some(Json::Object(Vec::new()));
    let reqs = plan_migrate(&config, &vec![alpha]).unwrap();
    assert_eq!(reqs.len(), 1);
    assert_eq!(reqs[0].address, "cosmos1alpha".to_string());
    assert_eq!(reqs[0].new_code_id, 9);
}

#[test]
fn migrate_without_address_fails() {
    let config = config_with(vec![entry("alpha", None, Some(9))]);
    let mut alpha = descriptor("alpha");
    alpha.migrate_msg = Some(Json::Object(Vec::new()));
    let err = plan_migrate(&config, &vec![alpha]).unwrap_err();
    assert!(matches!(err, DeployError::AddrNotFound { name } if name == "alpha"));
}

#[test]
fn planning_without_active_env_fails() {
    let mut config = config_with(Vec::new());
    config.envs[0].is_active = false;
    let err = plan_instantiate(&config, &vec![descriptor("alpha")]).unwrap_err();
    assert!(matches!(err, DeployError::EnvNotFound));
}

#[test]
fn unknown_contract_fails_instantiate_plan() {
    let config = config_with(Vec::new());
    let mut alpha = descriptor("alpha");
    alpha.instantiate_msg = Some(Json::Object(Vec::new()));
    let err = plan_instantiate(&config, &vec![alpha]).unwrap_err();
    assert!(matches!(err, DeployError::ContractNotFound { contract_name } if contract_name == "alpha"));
}

#[test]
fn apply_instantiate_unknown_name_changes_nothing() {
    let mut config = config_with(vec![entry("alpha", None, Some(1))]);
    let before = config.clone();
    let names = vec!["alpha".to_string(), "ghost".to_string()];
    let addresses = vec!["cosmos1a".to_string(), "cosmos1g".to_string()];
    let err = apply_instantiate(&mut config, &names, &addresses).unwrap_err();
    assert!(matches!(err, DeployError::ContractNotFound { contract_name } if contract_name == "ghost"));
    assert_eq!(config, before);
}

#[test]
fn well_formedness_check_flags_duplicates() {
    let mut config = config_with(vec![entry("alpha", None, None)]);
    assert!(config.is_well_formed());
    config.envs[0].contracts.push(entry("alpha", None, Some(2)));
    assert!(!config.is_well_formed());
    config.envs[0].contracts.pop();
    assert!(config.is_well_formed());
    let mut dup_env = config.envs[0].clone();
    dup_env.is_active = false;
    config.envs.push(dup_env);
    assert!(!config.is_well_formed());
    config.envs[1].env_id = "other".to_string();
    assert!(config.is_well_formed());
    config.envs[1].is_active = true;
    assert!(!config.is_well_formed());
}

#[test]
fn code_id_lookup_reports_missing_store() {
    let mut config = config_with(vec![entry("alpha", None, None)]);
    assert!(matches!(
        config.get_code_id(&"alpha".to_string()),
        Err(DeployError::CodeIdNotFound)
    ));
    apply_store_code(&mut config, &vec!["alpha".to_string()], &vec![12u64]).unwrap();
    assert_eq!(config.get_code_id(&"alpha".to_string()).unwrap(), 12);
}

#[test]
fn store_code_chunks_respect_odd_sizes() {
    let contracts = vec![descriptor("a"), descriptor("b"), descriptor("c")];
    let chunks = plan_store_code(&contracts, &"/art".to_string(), 5);
    assert_eq!(chunks.len(), 1);
    assert_eq!(chunks[0].names.len(), 3);
    let none: Vec<ContractDescriptor> = Vec::new();
    let empty = plan_store_code(&none, &"/art".to_string(), 2);
    assert!(empty.is_empty());
}
