use foundry_cli::address::Address;
use foundry_cli::artifact::{Abi, BytecodeObject, CompiledContract, Placeholder};
use foundry_cli::index::{index_artifacts, ArtifactIndex, NamedContract, SourceContracts};
use foundry_cli::linker::LinkError;
use foundry_cli::run::{
    with_cheatcodes, BuildError, BuildOutput, CompilerOutput, EvmArgs, RunArgs, SourceFile,
};
use foundry_cli::target::{resolve_target, TargetError};

const ACCOUNT: [u8; 20] = [0x22; 20];

fn created(nonce: u64) -> [u8; 20] {
    ethers::utils::get_contract_address(
        ethers::types::H160(ACCOUNT),
        ethers::types::U256::from(nonce),
    )
    .0
}

fn abi_of(functions: &[&str]) -> Abi {
    Abi { functions: functions.iter().map(|f| f.to_string()).collect(), json: format!("{:?}", functions) }
}

fn ready(code: Vec<u8>) -> CompiledContract {
    CompiledContract {
        abi: Some(abi_of(&["run"])),
        bytecode: Some(BytecodeObject::Linked(code.clone())),
        deployed_bytecode: Some(BytecodeObject::Linked(code)),
    }
}

fn needing(len: usize, libraries: &[(&str, &str, usize)]) -> CompiledContract {
    let holes = |_: ()| -> Vec<Placeholder> {
        libraries
            .iter()
            .map(|(file, library, offset)| Placeholder {
                file: file.to_string(),
                library: library.to_string(),
                offset: *offset,
            })
            .collect()
    };
    CompiledContract {
        abi: Some(abi_of(&["run", "setUp"])),
        bytecode: Some(BytecodeObject::Unlinked { code: vec![0xc0; len], placeholders: holes(()) }),
        deployed_bytecode: Some(BytecodeObject::Unlinked {
            code: vec![0xd0; len],
            placeholders: holes(()),
        }),
    }
}

fn source(file: &str, contracts: Vec<(&str, CompiledContract)>) -> SourceContracts {
    SourceContracts {
        file: file.to_string(),
        contracts: contracts
            .into_iter()
            .map(|(name, contract)| NamedContract { name: name.to_string(), contract })
            .collect(),
    }
}

fn args(path: &str, target: Option<&str>) -> RunArgs {
    RunArgs {
        path: path.to_string(),
        evm_opts: EvmArgs {
            sender: Address::new(ACCOUNT),
            fork_url: None,
            fork_block_number: None,
            verbosity: 0,
            debug: false,
        },
        target_contract: target.map(|t| t.to_string()),
        sig: None,
    }
}

fn output(contracts: Vec<SourceContracts>) -> CompilerOutput {
    CompilerOutput {
        sources: vec![
            SourceFile { id: 0, path: "/p/Foo.sol".to_string() },
            SourceFile { id: 1, path: "/p/Lib.sol".to_string() },
        ],
        contracts,
    }
}

fn two_in_one_file() -> Vec<SourceContracts> {
    vec![
        source(
            "/p/Foo.sol",
            vec![
                ("A", needing(40, &[("/p/Lib.sol", "L", 0)])),
                ("B", needing(40, &[("/p/Lib.sol", "M", 20)])),
            ],
        ),
        source("/p/Lib.sol", vec![("L", ready(vec![0x0a])), ("M", ready(vec![0x0b]))]),
    ]
}

fn keys_of(index: &ArtifactIndex) -> Vec<&str> {
    index.entries.iter().map(|e| e.key.as_str()).collect()
}

fn code_of(object: &Option<BytecodeObject>) -> Vec<u8> {
    match object {
        Some(BytecodeObject::Linked(code)) => code.clone(),
        _ => panic!("expected linked code"),
    }
}

fn built(outcome: Result<BuildOutput, BuildError>) -> BuildOutput {
    match outcome {
        Ok(out) => out,
        Err(e) => panic!("expected a build, got {:?}", e),
    }
}

#[test]
fn index_is_keyed_by_file_and_name() {
    let index = index_artifacts(&two_in_one_file());
    assert_eq!(
        keys_of(&index),
        vec!["/p/Foo.sol:A", "/p/Foo.sol:B", "/p/Lib.sol:L", "/p/Lib.sol:M"]
    );
    assert_eq!(index.len(), 4);
    assert_eq!(index.position(&"/p/Lib.sol:L".to_string()), Some(2));
    assert_eq!(index.position(&"/p/Lib.sol:N".to_string()), None);
    assert!(index.get(&"/p/Lib.sol:N".to_string()).is_none());
    assert_eq!(code_of(&index.get(&"/p/Lib.sol:M".to_string()).unwrap().bytecode), vec![0x0b]);
    assert_eq!(code_of(&index.entries[3].contract.bytecode), vec![0x0b]);
    assert!(index_artifacts(&vec![]).entries.is_empty());
}

#[test]
fn later_contract_takes_the_place_of_an_earlier_one() {
    let index = index_artifacts(&vec![
        source("a", vec![("b:c", ready(vec![1])), ("x", ready(vec![2]))]),
        source("a:b", vec![("c", ready(vec![3]))]),
    ]);
    assert_eq!(keys_of(&index), vec!["a:b:c", "a:x"]);
    assert_eq!(code_of(&index.entries[0].contract.bytecode), vec![3]);
    let mut by_hand = ArtifactIndex::new();
    by_hand.insert("k".to_string(), ready(vec![1]));
    by_hand.insert("l".to_string(), ready(vec![2]));
    by_hand.insert("k".to_string(), ready(vec![3]));
    assert_eq!(keys_of(&by_hand), vec!["k", "l"]);
    assert_eq!(code_of(&by_hand.entries[0].contract.bytecode), vec![3]);
}

#[test]
fn two_contracts_in_the_path_are_ambiguous() {
    let index = index_artifacts(&two_in_one_file());
    let path = "/p/Foo.sol".to_string();
    assert_eq!(resolve_target(&index, &path, &None), Err(TargetError::Ambiguous));
    assert_eq!(resolve_target(&index, &path, &Some("A".to_string())), Ok(0));
    assert_eq!(resolve_target(&index, &path, &Some("B".to_string())), Ok(1));
    assert_eq!(resolve_target(&index, &path, &Some("C".to_string())), Err(TargetError::NotFound));
    assert_eq!(
        resolve_target(&index, &"/p/Bar.sol".to_string(), &None),
        Err(TargetError::NotFound)
    );
    assert_eq!(
        resolve_target(&index, &"/p/Foo".to_string(), &None),
        Err(TargetError::NotFound)
    );
}

#[test]
fn interfaces_and_incomplete_contracts_do_not_count() {
    let interface = ready(vec![]);
    let no_abi = CompiledContract { abi: None, ..ready(vec![1]) };
    let no_runtime = CompiledContract { deployed_bytecode: None, ..ready(vec![1]) };
    let no_code = CompiledContract { bytecode: None, ..ready(vec![1]) };
    let index = index_artifacts(&vec![source(
        "/p/S.sol",
        vec![
            ("I", interface),
            ("NoAbi", no_abi),
            ("NoRuntime", no_runtime),
            ("NoCode", no_code),
            ("Script", ready(vec![1])),
        ],
    )]);
    let path = "/p/S.sol".to_string();
    assert_eq!(resolve_target(&index, &path, &None), Ok(4));
    assert_eq!(resolve_target(&index, &path, &Some("I".to_string())), Err(TargetError::NotFound));
    assert_eq!(
        resolve_target(&index, &path, &Some("NoAbi".to_string())),
        Err(TargetError::NotFound)
    );
    assert!(!index.entries[0].contract.is_runnable());
    assert!(!index.entries[1].contract.is_runnable());
    assert!(!index.entries[2].contract.is_runnable());
    assert!(!index.entries[3].contract.is_runnable());
    assert!(index.entries[4].contract.is_runnable());
    assert!(needing(0, &[]).is_runnable());
}

#[test]
fn build_without_a_name_is_ambiguous() {
    match args("/p/Foo.sol", None).build(output(two_in_one_file()), None) {
        Err(BuildError::Target(TargetError::Ambiguous)) => {}
        other => panic!("expected an ambiguous target, got {:?}", other.map(|_| ())),
    }
}

#[test]
fn build_with_a_name_selects_that_contract_and_its_libraries() {
    let out = built(args("/p/Foo.sol", Some("A")).build(output(two_in_one_file()), None));
    assert_eq!(out.predeploy_libraries.len(), 1);
    assert_eq!(out.predeploy_libraries[0].key, "/p/Lib.sol:L");
    assert_eq!(out.predeploy_libraries[0].bytecode, vec![0x0a]);
    assert_eq!(out.predeploy_libraries[0].address.bytes, created(1));
    let mut creation = vec![0xc0; 40];
    creation[0..20].copy_from_slice(&created(1));
    assert_eq!(code_of(&out.contract.bytecode), creation);
    let mut runtime = vec![0xd0; 40];
    runtime[0..20].copy_from_slice(&created(1));
    assert_eq!(code_of(&out.contract.deployed_bytecode), runtime);
    assert_eq!(out.contract.abi.as_ref().unwrap().functions, vec!["run", "setUp"]);
    assert!(out.contract.abi.as_ref().unwrap().needs_setup());
    assert_eq!(keys_of(&out.highlevel_known_contracts), vec!["A", "B", "L", "M"]);
    let mut b_runtime = vec![0xd0; 40];
    b_runtime[20..40].copy_from_slice(&created(1));
    assert_eq!(
        code_of(&out.highlevel_known_contracts.entries[1].contract.deployed_bytecode),
        b_runtime
    );
    assert_eq!(out.sources.len(), 2);
    assert_eq!(out.sources[1].id, 1);
    assert_eq!(out.sources[1].path, "/p/Lib.sol");

    let other = built(args("/p/Foo.sol", Some("B")).build(output(two_in_one_file()), None));
    assert_eq!(other.predeploy_libraries.len(), 1);
    assert_eq!(other.predeploy_libraries[0].key, "/p/Lib.sol:M");
}

#[test]
fn build_selects_the_only_contract_of_the_path() {
    let contracts = vec![
        source("/p/Foo.sol", vec![("I", ready(vec![])), ("A", needing(20, &[("/p/Lib.sol", "L", 0)]))]),
        source("/p/Lib.sol", vec![("L", ready(vec![0x0a]))]),
    ];
    let out = built(args("/p/Foo.sol", None).build(output(contracts), None));
    assert_eq!(code_of(&out.contract.bytecode), created(1).to_vec());
    assert_eq!(keys_of(&out.highlevel_known_contracts), vec!["A", "L"]);
}

#[test]
fn build_derives_addresses_from_the_answered_count() {
    let mut with_node = args("/p/Foo.sol", Some("A"));
    with_node.evm_opts.fork_url = Some("http://localhost:8545".to_string());
    assert!(with_node.asks_for_nonce());
    let out = built(with_node.build(output(two_in_one_file()), Some(6)));
    assert_eq!(out.predeploy_libraries[0].address.bytes, created(7));
    let unanswered = built(with_node.build(output(two_in_one_file()), None));
    assert_eq!(unanswered.predeploy_libraries[0].address.bytes, created(1));
    let without_node = args("/p/Foo.sol", Some("A"));
    assert!(!without_node.asks_for_nonce());
    let ignored = built(without_node.build(output(two_in_one_file()), Some(6)));
    assert_eq!(ignored.predeploy_libraries[0].address.bytes, created(1));
}

#[test]
fn build_fails_where_no_contract_fits() {
    match args("/p/Nowhere.sol", None).build(output(two_in_one_file()), None) {
        Err(BuildError::Target(TargetError::NotFound)) => {}
        other => panic!("expected no target, got {:?}", other.map(|_| ())),
    }
    match args("/p/Foo.sol", Some("Z")).build(output(two_in_one_file()), None) {
        Err(BuildError::Target(TargetError::NotFound)) => {}
        other => panic!("expected no target, got {:?}", other.map(|_| ())),
    }
    match args("/p/Foo.sol", None).build(output(vec![]), None) {
        Err(BuildError::Target(TargetError::NotFound)) => {}
        other => panic!("expected no target, got {:?}", other.map(|_| ())),
    }
}

#[test]
fn build_fails_where_any_contract_does_not_link() {
    let contracts = vec![
        source("/p/Foo.sol", vec![("A", ready(vec![1]))]),
        source("/p/Other.sol", vec![("B", needing(20, &[("/p/Gone.sol", "G", 0)]))]),
    ];
    match args("/p/Foo.sol", None).build(output(contracts), None) {
        Err(BuildError::Link(LinkError::MissingArtifact { key })) => {
            assert_eq!(key, "/p/Gone.sol:G")
        }
        other => panic!("expected a link error, got {:?}", other.map(|_| ())),
    }
    let cyclic = vec![source(
        "/p/Foo.sol",
        vec![
            ("A", needing(20, &[("/p/Foo.sol", "B", 0)])),
            ("B", needing(20, &[("/p/Foo.sol", "A", 0)])),
        ],
    )];
    match args("/p/Foo.sol", None).build(output(cyclic), None) {
        Err(BuildError::Link(LinkError::Cycle { key })) => assert_eq!(key, "/p/Foo.sol:A"),
        other => panic!("expected a cycle, got {:?}", other.map(|_| ())),
    }
}

#[test]
fn known_contracts_go_by_name_and_the_later_wins() {
    let contracts = vec![
        source("/p/A.sol", vec![("Same", ready(vec![1]))]),
        source("/p/B.sol", vec![("Same", ready(vec![2])), ("Other", ready(vec![3]))]),
    ];
    let out = built(args("/p/A.sol", None).build(output(contracts), None));
    assert_eq!(keys_of(&out.highlevel_known_contracts), vec!["Same", "Other"]);
    assert_eq!(code_of(&out.highlevel_known_contracts.entries[0].contract.bytecode), vec![2]);
    assert_eq!(code_of(&out.contract.bytecode), vec![1]);
}

#[test]
fn signature_defaults_to_run() {
    assert_eq!(args("/p/Foo.sol", None).signature(), "run()");
    let mut given = args("/p/Foo.sol", None);
    given.sig = Some("deploy(uint256)".to_string());
    assert_eq!(given.signature(), "deploy(uint256)");
}

#[test]
fn interface_text_is_handed_on() {
    let out = built(args("/p/Foo.sol", Some("A")).build(output(two_in_one_file()), None));
    assert_eq!(out.contract.abi.as_ref().unwrap().json, "[\"run\", \"setUp\"]");
    assert_eq!(
        out.highlevel_known_contracts.entries[2].contract.abi.as_ref().unwrap().json,
        "[\"run\"]"
    );
}

#[test]
fn cheatcode_contracts_join_the_known_contracts() {
    let mut known = ArtifactIndex::new();
    known.insert("Script".to_string(), ready(vec![1]));
    known.insert("CONSOLE".to_string(), ready(vec![2]));
    let all = with_cheatcodes(known, abi_of(&["a"]), abi_of(&["b"]), abi_of(&["c"]));
    assert_eq!(keys_of(&all), vec!["Script", "CONSOLE", "VM", "VM_CONSOLE"]);
    assert_eq!(all.entries[1].contract.abi.as_ref().unwrap().functions, vec!["c"]);
    assert!(all.entries[1].contract.bytecode.is_none());
    assert_eq!(code_of(&all.entries[1].contract.deployed_bytecode), Vec::<u8>::new());
    assert_eq!(all.entries[2].contract.abi.as_ref().unwrap().functions, vec!["a"]);
    assert_eq!(all.entries[3].contract.abi.as_ref().unwrap().functions, vec!["b"]);
    assert_eq!(code_of(&all.entries[0].contract.bytecode), vec![1]);
}

#[test]
fn build_errors_have_their_messages() {
    assert_eq!(
        BuildError::Target(TargetError::Ambiguous).message(),
        "Multiple contracts in the target path. Please specify the contract name with `-t ContractName`"
    );
    assert_eq!(TargetError::NotFound.message(), "No contract to run in the target path");
    assert_eq!(
        BuildError::Link(LinkError::MissingArtifact { key: "L.sol:L".to_string() }).message(),
        "No contract found for library L.sol:L"
    );
    assert_eq!(
        LinkError::MissingBytecode { key: "L.sol:L".to_string() }.message(),
        "No bytecode for contract L.sol:L"
    );
    assert_eq!(
        LinkError::Cycle { key: "L.sol:L".to_string() }.message(),
        "Library links to itself: L.sol:L"
    );
    assert_eq!(
        LinkError::PlaceholderOutOfRange { key: "A.sol:A".to_string(), offset: 1234 }.message(),
        "Placeholder outside the code of A.sol:A at offset 1234"
    );
}
