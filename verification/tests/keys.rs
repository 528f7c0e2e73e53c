use foundry_cli::artifact::artifact_key;
use foundry_cli::keys::{contract_name_of, find_colon, get_contract_name, source_file_of};

#[test]
fn key_joins_file_and_name() {
    assert_eq!(artifact_key("src/Foo.sol", "Foo"), "src/Foo.sol:Foo");
    assert_eq!(artifact_key("", ""), ":");
}

#[test]
fn contract_name_of_an_artifact_identifier() {
    assert_eq!(
        "SafeTransferLibTest",
        get_contract_name("SafeTransferLibTest.json:SafeTransferLibTest")
    );
    assert_eq!(get_contract_name("NoColon"), "NoColon");
    assert_eq!(get_contract_name("a:b:c"), "c");
    assert_eq!(get_contract_name("trailing:"), "");
    assert_eq!(get_contract_name(""), "");
    assert_eq!(get_contract_name("für:Größe"), "Größe");
}

#[test]
fn source_file_is_what_stands_before_the_first_colon() {
    assert_eq!(source_file_of("/abs/Foo.sol:A"), "/abs/Foo.sol");
    assert_eq!(source_file_of("Foo.sol"), "Foo.sol");
    assert_eq!(source_file_of("a:b:c"), "a");
    assert_eq!(source_file_of(":x"), "");
    assert_eq!(source_file_of("ü.sol:Ä"), "ü.sol");
}

#[test]
fn contract_name_is_the_second_part() {
    assert_eq!(contract_name_of("/abs/Foo.sol:A"), "A");
    assert_eq!(contract_name_of("Foo.sol"), "Foo.sol");
    assert_eq!(contract_name_of("a:b:c"), "b");
    assert_eq!(contract_name_of("a:"), "");
    assert_eq!(contract_name_of("ü.sol:Ärger"), "Ärger");
}

#[test]
fn find_colon_counts_characters() {
    assert_eq!(find_colon("ab:cd:e", 0), 2);
    assert_eq!(find_colon("ab:cd:e", 2), 2);
    assert_eq!(find_colon("ab:cd:e", 3), 5);
    assert_eq!(find_colon("ab:cd:e", 6), 7);
    assert_eq!(find_colon("ab:cd:e", 100), 7);
    assert_eq!(find_colon("üü:x", 0), 2);
}
