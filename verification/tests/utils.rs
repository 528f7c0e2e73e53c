use foundry_cli::nonce::{starting_nonce, DEFAULT_NONCE};
use foundry_cli::utils::{
    artifact_location, dapp_json_path, evmodin_cfg, revision, rpc_url, sputnik_cfg,
    ArtifactLocation, EvmVersion, Revision, DAPP_JSON, LOCAL_RPC_URL,
};

#[test]
fn rpc_url_falls_back_to_the_local_node() {
    assert_eq!(rpc_url(None), "http://127.0.0.1:8545");
    assert_eq!(rpc_url(None), LOCAL_RPC_URL);
    assert_eq!(rpc_url(Some("https://node.example".to_string())), "https://node.example");
    assert_eq!(rpc_url(Some(String::new())), "");
}

#[test]
fn artifacts_are_stored_under_out() {
    assert_eq!(dapp_json_path(), "./out/dapp.sol.json");
    assert_eq!(DAPP_JSON, "./out/dapp.sol.json");
}

#[test]
fn artifact_is_looked_up_nested_or_flat() {
    match artifact_location(true, "src/A.sol", "A") {
        ArtifactLocation::Nested { path, name } => {
            assert_eq!(path, "src/A.sol");
            assert_eq!(name, "A");
        }
        _ => panic!("expected a nested location"),
    }
    match artifact_location(false, "src/A.sol", "A") {
        ArtifactLocation::Flat { key } => assert_eq!(key, "src/A.sol:A"),
        _ => panic!("expected a flat location"),
    }
}

#[test]
fn supported_versions_have_a_revision() {
    assert_eq!(revision(EvmVersion::Istanbul), Some(Revision::Istanbul));
    assert_eq!(revision(EvmVersion::Berlin), Some(Revision::Berlin));
    assert_eq!(revision(EvmVersion::London), Some(Revision::London));
    assert_eq!(revision(EvmVersion::Homestead), None);
    assert_eq!(revision(EvmVersion::TangerineWhistle), None);
    assert_eq!(revision(EvmVersion::SpuriousDragon), None);
    assert_eq!(revision(EvmVersion::Byzantium), None);
    assert_eq!(revision(EvmVersion::Constantinople), None);
    assert_eq!(revision(EvmVersion::Petersburg), None);
    assert_eq!(sputnik_cfg(&EvmVersion::Istanbul), Revision::Istanbul);
    assert_eq!(sputnik_cfg(&EvmVersion::Berlin), Revision::Berlin);
    assert_eq!(sputnik_cfg(&EvmVersion::London), Revision::London);
    assert_eq!(evmodin_cfg(EvmVersion::Istanbul), Revision::Istanbul);
    assert_eq!(evmodin_cfg(EvmVersion::Berlin), Revision::Berlin);
    assert_eq!(evmodin_cfg(EvmVersion::London), Revision::London);
}

#[test]
fn nonce_starts_behind_the_transaction_count() {
    assert_eq!(DEFAULT_NONCE, 1);
    assert_eq!(starting_nonce(false, None), 1);
    assert_eq!(starting_nonce(false, Some(41)), 1);
    assert_eq!(starting_nonce(true, None), 1);
    assert_eq!(starting_nonce(true, Some(0)), 1);
    assert_eq!(starting_nonce(true, Some(41)), 42);
    assert_eq!(starting_nonce(true, Some(u64::MAX - 1)), u64::MAX);
    assert_eq!(starting_nonce(true, Some(u64::MAX)), u64::MAX);
}
