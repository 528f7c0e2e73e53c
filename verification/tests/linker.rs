use foundry_cli::address::Address;
use foundry_cli::artifact::{Abi, BytecodeObject, CompiledContract, Placeholder};
use foundry_cli::index::ArtifactIndex;
use foundry_cli::link_tree::link_tree;
use foundry_cli::linker::{link, link_entry, link_entry_with, patch, LinkError};

const SENDER: [u8; 20] = [0x11; 20];

fn expected_address(nonce: u64) -> [u8; 20] {
    ethers::utils::get_contract_address(
        ethers::types::H160(SENDER),
        ethers::types::U256::from(nonce),
    )
    .0
}

fn linked(code: Vec<u8>) -> CompiledContract {
    CompiledContract {
        abi: Some(Abi { functions: vec![], json: "[]".to_string() }),
        bytecode: Some(BytecodeObject::Linked(code.clone())),
        deployed_bytecode: Some(BytecodeObject::Linked(code)),
    }
}

fn holes(places: &[(&str, &str, usize)]) -> Vec<Placeholder> {
    places
        .iter()
        .map(|(file, library, offset)| Placeholder {
            file: file.to_string(),
            library: library.to_string(),
            offset: *offset,
        })
        .collect()
}

fn unlinked(len: usize, creation: &[(&str, &str, usize)], runtime: &[(&str, &str, usize)]) -> CompiledContract {
    CompiledContract {
        abi: Some(Abi { functions: vec![], json: "[]".to_string() }),
        bytecode: Some(BytecodeObject::Unlinked {
            code: vec![0xee; len],
            placeholders: holes(creation),
        }),
        deployed_bytecode: Some(BytecodeObject::Unlinked {
            code: vec![0xdd; len],
            placeholders: holes(runtime),
        }),
    }
}

fn bytes_of(object: &BytecodeObject) -> Vec<u8> {
    match object {
        BytecodeObject::Linked(code) => code.clone(),
        BytecodeObject::Unlinked { .. } => panic!("expected linked code"),
    }
}

fn index_of(entries: Vec<(&str, CompiledContract)>) -> ArtifactIndex {
    let mut index = ArtifactIndex::new();
    for (key, contract) in entries {
        index.insert(key.to_string(), contract);
    }
    index
}

#[test]
fn derived_address_is_the_created_address() {
    let sender = Address::new(SENDER);
    let created = sender.created_with(1);
    assert_eq!(created.bytes, expected_address(1));
    assert_ne!(created.bytes, SENDER);
    assert_ne!(sender.created_with(2).bytes, created.bytes);
    // the well-known first contract of the zero-nonce account 0x6ac7ea33...
    let known = Address::new([
        0x6a, 0xc7, 0xea, 0x33, 0xf8, 0x83, 0x1e, 0xa9, 0xdc, 0xc5, 0x33, 0x93, 0xaa, 0xa8, 0x8b,
        0x25, 0xa7, 0x85, 0xdb, 0xf0,
    ]);
    assert_eq!(
        known.created_with(0).bytes,
        [
            0xcd, 0x23, 0x4a, 0x47, 0x1b, 0x72, 0xba, 0x2f, 0x1c, 0xcf, 0x0a, 0x70, 0xfc, 0xab,
            0xa6, 0x48, 0xa5, 0xee, 0xcd, 0x8d,
        ]
    );
}

#[test]
fn linked_contract_needs_no_library() {
    let index = index_of(vec![("A.sol:A", linked(vec![1, 2, 3]))]);
    let out = link_entry(&index, 0, &Address::new(SENDER), 1).unwrap();
    assert!(out.dependencies.is_empty());
    assert_eq!(out.bytecode, vec![1, 2, 3]);
    assert_eq!(bytes_of(&out.deployed_bytecode), vec![1, 2, 3]);
}

#[test]
fn unlinked_contract_without_placeholders_is_unchanged() {
    let index = index_of(vec![
        ("A.sol:A", unlinked(30, &[], &[])),
        ("L.sol:L", linked(vec![9])),
    ]);
    let out = link_entry(&index, 0, &Address::new(SENDER), 5).unwrap();
    assert!(out.dependencies.is_empty());
    assert_eq!(out.bytecode, vec![0xee; 30]);
    assert_eq!(bytes_of(&out.deployed_bytecode), vec![0xdd; 30]);
}

#[test]
fn library_referenced_twice_is_deployed_once() {
    let index = index_of(vec![
        ("A.sol:A", unlinked(50, &[("L.sol", "L", 2), ("L.sol", "L", 28)], &[("L.sol", "L", 5)])),
        ("L.sol:L", linked(vec![0xaa, 0xbb])),
    ]);
    let out = link_entry(&index, 0, &Address::new(SENDER), 7).unwrap();
    assert_eq!(out.dependencies.len(), 1);
    assert_eq!(out.dependencies[0].key, "L.sol:L");
    assert_eq!(out.dependencies[0].bytecode, vec![0xaa, 0xbb]);
    let address = expected_address(7);
    assert_eq!(out.dependencies[0].address.bytes, address);
    assert_eq!(&out.bytecode[2..22], &address[..]);
    assert_eq!(&out.bytecode[28..48], &address[..]);
    assert_eq!(&out.bytecode[0..2], &[0xee, 0xee][..]);
    assert_eq!(&out.bytecode[22..28], &[0xee; 6][..]);
    assert_eq!(&out.bytecode[48..], &[0xee, 0xee][..]);
    assert_eq!(out.bytecode.len(), 50);
    let deployed = bytes_of(&out.deployed_bytecode);
    assert_eq!(&deployed[5..25], &address[..]);
    assert_eq!(&deployed[..5], &[0xdd; 5][..]);
    assert_eq!(&deployed[25..], &[0xdd; 25][..]);
}

#[test]
fn diamond_deploys_the_shared_library_once_and_first() {
    let index = index_of(vec![
        ("A.sol:A", unlinked(60, &[("L1.sol", "L1", 0), ("L2.sol", "L2", 20)], &[("L1.sol", "L1", 0), ("L2.sol", "L2", 20)])),
        ("L1.sol:L1", unlinked(25, &[("L3.sol", "L3", 1)], &[("L3.sol", "L3", 2)])),
        ("L2.sol:L2", unlinked(26, &[("L3.sol", "L3", 3)], &[("L3.sol", "L3", 4)])),
        ("L3.sol:L3", linked(vec![3, 3, 3])),
    ]);
    let out = link_entry(&index, 0, &Address::new(SENDER), 10).unwrap();
    let keys: Vec<&str> = out.dependencies.iter().map(|d| d.key.as_str()).collect();
    assert_eq!(keys, vec!["L3.sol:L3", "L1.sol:L1", "L2.sol:L2"]);
    for (i, library) in out.dependencies.iter().enumerate() {
        assert_eq!(library.address.bytes, expected_address(10 + i as u64));
    }
    let l3 = expected_address(10);
    let l1 = expected_address(11);
    let l2 = expected_address(12);
    assert_eq!(out.dependencies[0].bytecode, vec![3, 3, 3]);
    let mut l1_code = vec![0xee; 25];
    l1_code[1..21].copy_from_slice(&l3);
    assert_eq!(out.dependencies[1].bytecode, l1_code);
    let mut l2_code = vec![0xee; 26];
    l2_code[3..23].copy_from_slice(&l3);
    assert_eq!(out.dependencies[2].bytecode, l2_code);
    let mut creation = vec![0xee; 60];
    creation[0..20].copy_from_slice(&l1);
    creation[20..40].copy_from_slice(&l2);
    assert_eq!(out.bytecode, creation);
    let mut runtime = vec![0xdd; 60];
    runtime[0..20].copy_from_slice(&l1);
    runtime[20..40].copy_from_slice(&l2);
    assert_eq!(bytes_of(&out.deployed_bytecode), runtime);
}

#[test]
fn chain_is_deployed_deepest_first() {
    let index = index_of(vec![
        ("C.sol:C", linked(vec![0xc])),
        ("B.sol:B", unlinked(20, &[("C.sol", "C", 0)], &[])),
        ("A.sol:A", unlinked(20, &[("B.sol", "B", 0)], &[])),
    ]);
    let out = link_entry(&index, 2, &Address::new(SENDER), 1).unwrap();
    assert_eq!(out.dependencies.len(), 2);
    assert_eq!(out.dependencies[0].key, "C.sol:C");
    assert_eq!(out.dependencies[0].address.bytes, expected_address(1));
    assert_eq!(out.dependencies[1].key, "B.sol:B");
    assert_eq!(out.dependencies[1].address.bytes, expected_address(2));
    assert_eq!(out.dependencies[1].bytecode, expected_address(1).to_vec());
    assert_eq!(out.bytecode, expected_address(2).to_vec());
}

#[test]
fn mutual_reference_is_a_cycle() {
    let index = index_of(vec![
        ("A.sol:A", unlinked(40, &[("B.sol", "B", 0)], &[])),
        ("B.sol:B", unlinked(40, &[("A.sol", "A", 0)], &[])),
    ]);
    match link_entry(&index, 0, &Address::new(SENDER), 1) {
        Err(LinkError::Cycle { key }) => assert_eq!(key, "A.sol:A"),
        other => panic!("expected a cycle, got {:?}", other.map(|l| l.dependencies.len())),
    }
    match link_entry(&index, 1, &Address::new(SENDER), 1) {
        Err(LinkError::Cycle { key }) => assert_eq!(key, "B.sol:B"),
        other => panic!("expected a cycle, got {:?}", other.map(|l| l.dependencies.len())),
    }
}

#[test]
fn self_reference_is_a_cycle() {
    let index = index_of(vec![("A.sol:A", unlinked(40, &[("A.sol", "A", 0)], &[]))]);
    match link_entry(&index, 0, &Address::new(SENDER), 1) {
        Err(LinkError::Cycle { key }) => assert_eq!(key, "A.sol:A"),
        other => panic!("expected a cycle, got {:?}", other.map(|l| l.dependencies.len())),
    }
}

#[test]
fn longer_cycle_below_the_target_is_reported() {
    let index = index_of(vec![
        ("A.sol:A", unlinked(40, &[("B.sol", "B", 0)], &[])),
        ("B.sol:B", unlinked(40, &[("C.sol", "C", 0)], &[])),
        ("C.sol:C", unlinked(40, &[("D.sol", "D", 0)], &[])),
        ("D.sol:D", unlinked(40, &[("B.sol", "B", 0)], &[])),
    ]);
    match link_entry(&index, 0, &Address::new(SENDER), 1) {
        Err(LinkError::Cycle { key }) => assert_eq!(key, "B.sol:B"),
        other => panic!("expected a cycle, got {:?}", other.map(|l| l.dependencies.len())),
    }
}

#[test]
fn missing_library_is_an_error() {
    let index = index_of(vec![("A.sol:A", unlinked(40, &[("Gone.sol", "Gone", 0)], &[]))]);
    match link_entry(&index, 0, &Address::new(SENDER), 1) {
        Err(LinkError::MissingArtifact { key }) => assert_eq!(key, "Gone.sol:Gone"),
        other => panic!("expected a missing artifact, got {:?}", other.map(|l| l.dependencies.len())),
    }
}

#[test]
fn library_without_code_is_an_error() {
    let bare = CompiledContract { abi: None, bytecode: None, deployed_bytecode: None };
    let index = index_of(vec![
        ("A.sol:A", unlinked(40, &[("L.sol", "L", 0)], &[])),
        ("L.sol:L", bare),
    ]);
    match link_entry(&index, 0, &Address::new(SENDER), 1) {
        Err(LinkError::MissingBytecode { key }) => assert_eq!(key, "L.sol:L"),
        other => panic!("expected missing code, got {:?}", other.map(|l| l.dependencies.len())),
    }
}

#[test]
fn placeholder_beyond_the_code_is_an_error() {
    let index = index_of(vec![
        ("A.sol:A", unlinked(40, &[("L.sol", "L", 20), ("L.sol", "L", 21)], &[])),
        ("L.sol:L", linked(vec![1])),
    ]);
    match link_entry(&index, 0, &Address::new(SENDER), 1) {
        Err(LinkError::PlaceholderOutOfRange { key, offset }) => {
            assert_eq!(key, "A.sol:A");
            assert_eq!(offset, 21);
        }
        other => panic!("expected an offset error, got {:?}", other.map(|l| l.dependencies.len())),
    }
    let huge = index_of(vec![
        ("A.sol:A", unlinked(40, &[("L.sol", "L", usize::MAX)], &[])),
        ("L.sol:L", linked(vec![1])),
    ]);
    assert!(matches!(
        link_entry(&huge, 0, &Address::new(SENDER), 1),
        Err(LinkError::PlaceholderOutOfRange { offset: usize::MAX, .. })
    ));
}

#[test]
fn patch_writes_twenty_bytes_at_the_offset() {
    let address = Address::new([7; 20]);
    let mut code = vec![0u8; 24];
    assert!(patch(&mut code, 3, &address));
    let mut expected = vec![0u8; 24];
    for byte in expected.iter_mut().skip(3).take(20) {
        *byte = 7;
    }
    assert_eq!(code, expected);
    let mut exact = vec![1u8; 20];
    assert!(patch(&mut exact, 0, &address));
    assert_eq!(exact, vec![7u8; 20]);
}

#[test]
fn patch_leaves_short_code_alone() {
    let address = Address::new([7; 20]);
    let mut code = vec![0u8; 24];
    assert!(!patch(&mut code, 5, &address));
    assert_eq!(code, vec![0u8; 24]);
    let mut short = vec![0u8; 19];
    assert!(!patch(&mut short, 0, &address));
    assert_eq!(short, vec![0u8; 19]);
    let mut empty: Vec<u8> = vec![];
    assert!(!patch(&mut empty, 0, &address));
}

#[test]
fn link_tree_lists_each_placeholder() {
    let index = index_of(vec![
        ("A.sol:A", unlinked(60, &[("L1.sol", "L1", 0), ("L2.sol", "L2", 20)], &[("L1.sol", "L1", 7)])),
        ("L1.sol:L1", linked(vec![1])),
        ("L2.sol:L2", linked(vec![2])),
    ]);
    let tree = link_tree(&index);
    assert_eq!(tree.references.len(), 3);
    let of_a: Vec<(&str, &str, &str, &str)> = tree.references[0]
        .iter()
        .map(|r| (r.contract.as_str(), r.file.as_str(), r.library.as_str(), r.key.as_str()))
        .collect();
    assert_eq!(
        of_a,
        vec![
            ("A.sol:A", "L1.sol", "L1", "L1.sol:L1"),
            ("A.sol:A", "L2.sol", "L2", "L2.sol:L2"),
            ("A.sol:A", "L1.sol", "L1", "L1.sol:L1"),
        ]
    );
    assert!(tree.references[1].is_empty());
    assert!(tree.references[2].is_empty());
    let out = link_entry_with(&index, &tree, 0, &Address::new(SENDER), 1).unwrap();
    assert_eq!(out.dependencies.len(), 2);
}

#[test]
fn every_contract_links_from_the_same_nonce() {
    let index = index_of(vec![
        ("A.sol:A", unlinked(20, &[("L.sol", "L", 0)], &[])),
        ("B.sol:B", unlinked(20, &[("L.sol", "L", 0)], &[])),
        ("L.sol:L", linked(vec![1])),
    ]);
    let a = link_entry(&index, 0, &Address::new(SENDER), 4).unwrap();
    let b = link_entry(&index, 1, &Address::new(SENDER), 4).unwrap();
    assert_eq!(a.dependencies[0].address.bytes, expected_address(4));
    assert_eq!(b.dependencies[0].address.bytes, expected_address(4));
    assert_eq!(a.bytecode, b.bytecode);
}

#[test]
fn largest_nonce_does_not_overflow() {
    let index = index_of(vec![
        ("A.sol:A", unlinked(40, &[("L.sol", "L", 0), ("M.sol", "M", 20)], &[])),
        ("L.sol:L", linked(vec![1])),
        ("M.sol:M", linked(vec![2])),
    ]);
    let out = link_entry(&index, 0, &Address::new(SENDER), u64::MAX).unwrap();
    assert_eq!(out.dependencies[0].address.bytes, expected_address(u64::MAX));
    let above = ethers::utils::get_contract_address(
        ethers::types::H160(SENDER),
        ethers::types::U256::from(u64::MAX) + ethers::types::U256::from(1u64),
    );
    assert_eq!(out.dependencies[1].address.bytes, above.0);
}

#[test]
fn link_finds_the_contract_by_its_key() {
    let index = index_of(vec![
        ("L.sol:L", linked(vec![1])),
        ("A.sol:A", unlinked(20, &[("L.sol", "L", 0)], &[])),
    ]);
    let out = link(&index, &"A.sol:A".to_string(), &Address::new(SENDER), 3).unwrap();
    assert_eq!(out.dependencies.len(), 1);
    assert_eq!(out.bytecode, expected_address(3).to_vec());
    match link(&index, &"A.sol:B".to_string(), &Address::new(SENDER), 3) {
        Err(LinkError::MissingArtifact { key }) => assert_eq!(key, "A.sol:B"),
        other => panic!("expected a missing artifact, got {:?}", other.map(|l| l.dependencies.len())),
    }
}

#[test]
fn linked_creation_code_comes_back_at_once() {
    let odd = CompiledContract {
        abi: Some(Abi { functions: vec![], json: "[]".to_string() }),
        bytecode: Some(BytecodeObject::Linked(vec![1, 2, 3])),
        deployed_bytecode: Some(BytecodeObject::Unlinked {
            code: vec![0xdd; 30],
            placeholders: holes(&[("L.sol", "L", 4), ("Gone.sol", "Gone", 900)]),
        }),
    };
    let index = index_of(vec![("A.sol:A", odd), ("L.sol:L", linked(vec![9]))]);
    let out = link_entry(&index, 0, &Address::new(SENDER), 1).unwrap();
    assert!(out.dependencies.is_empty());
    assert_eq!(out.bytecode, vec![1, 2, 3]);
    match &out.deployed_bytecode {
        BytecodeObject::Unlinked { code, placeholders } => {
            assert_eq!(code, &vec![0xdd; 30]);
            assert_eq!(placeholders.len(), 2);
            assert_eq!(placeholders[0].library, "L");
            assert_eq!(placeholders[1].offset, 900);
        }
        BytecodeObject::Linked(_) => panic!("expected the runtime code as it was"),
    }
}

#[test]
fn library_with_linked_creation_code_is_deployed_as_it_is() {
    let library = CompiledContract {
        abi: None,
        bytecode: Some(BytecodeObject::Linked(vec![7, 7])),
        deployed_bytecode: Some(BytecodeObject::Unlinked {
            code: vec![8; 20],
            placeholders: holes(&[("Gone.sol", "Gone", 0)]),
        }),
    };
    let index = index_of(vec![
        ("A.sol:A", unlinked(20, &[("L.sol", "L", 0)], &[])),
        ("L.sol:L", library),
    ]);
    let out = link_entry(&index, 0, &Address::new(SENDER), 1).unwrap();
    assert_eq!(out.dependencies.len(), 1);
    assert_eq!(out.dependencies[0].bytecode, vec![7, 7]);
}
