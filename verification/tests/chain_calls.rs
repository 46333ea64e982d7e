use nft_bridge::domain::bridge::MintError;
use nft_bridge::infrastructure::starknet::{
    mint_from, parse_token, query_from, zero, ContractCall, EntryPoint, MintRequest,
    OnChainStartknetManager, MAX_DECIMAL_LEN,
};

fn felt(last: u8) -> Vec<u8> {
    let mut bytes = vec![0u8; 32];
    bytes[31] = last;
    bytes
}

#[test]
fn zero_is_thirty_two_zero_bytes() {
    assert_eq!(zero(), vec![0u8; 32]);
}

#[test]
fn query_is_assembled_from_parsed_elements() {
    assert_eq!(
        query_from(Some(felt(1)), Some(felt(7))),
        Some(ContractCall { to: felt(1), entry_point: EntryPoint::OwnerOf, calldata: vec![felt(7), felt(0)] })
    );
    assert_eq!(query_from(None, Some(felt(7))), None);
    assert_eq!(query_from(Some(felt(1)), None), None);
}

#[test]
fn mint_is_assembled_from_parsed_elements() {
    let request = mint_from(Some(felt(9)), Some(felt(8)), Some(felt(3)), Some(felt(1)), Some(felt(7)));
    assert!(request
        == Ok(MintRequest {
            signer_key: felt(9),
            account: felt(8),
            call: ContractCall {
                to: felt(1),
                entry_point: EntryPoint::Mint,
                calldata: vec![felt(3), felt(7), felt(0)],
            },
        }));
}

#[test]
fn mint_fails_when_an_element_is_missing() {
    assert!(mint_from(None, Some(felt(8)), Some(felt(3)), Some(felt(1)), Some(felt(7))) == Err(MintError::Failure));
    assert!(mint_from(Some(felt(9)), None, Some(felt(3)), Some(felt(1)), Some(felt(7))) == Err(MintError::Failure));
    assert!(mint_from(Some(felt(9)), Some(felt(8)), None, Some(felt(1)), Some(felt(7))) == Err(MintError::Failure));
    assert!(mint_from(Some(felt(9)), Some(felt(8)), Some(felt(3)), None, Some(felt(7))) == Err(MintError::Failure));
    assert!(mint_from(Some(felt(9)), Some(felt(8)), Some(felt(3)), Some(felt(1)), None) == Err(MintError::Failure));
}

#[test]
fn query_reads_hexadecimal_project_and_decimal_token() {
    let manager = OnChainStartknetManager::new("0x8", "0x9");
    assert_eq!(manager.account_address(), "0x8");
    assert_eq!(
        manager.ownership_query("0x10", "10"),
        Some(ContractCall { to: felt(16), entry_point: EntryPoint::OwnerOf, calldata: vec![felt(10), felt(0)] })
    );
}

#[test]
fn query_of_unreadable_identifiers_is_none() {
    let manager = OnChainStartknetManager::new("0x8", "0x9");
    assert_eq!(manager.ownership_query("projA", "7"), None);
    assert_eq!(manager.ownership_query("0x1", "seven"), None);
    assert_eq!(manager.ownership_query("", "7"), None);
    assert_eq!(manager.ownership_query("0x1", ""), None);
}

#[test]
fn mint_request_reads_every_identifier() {
    let manager = OnChainStartknetManager::new("0x8", "0x9");
    let request = manager.mint_request("0x1", "7", "0xff");
    assert!(request
        == Ok(MintRequest {
            signer_key: felt(9),
            account: felt(8),
            call: ContractCall {
                to: felt(1),
                entry_point: EntryPoint::Mint,
                calldata: vec![felt(255), felt(7), felt(0)],
            },
        }));
}

#[test]
fn mint_request_of_unreadable_identifiers_fails() {
    let manager = OnChainStartknetManager::new("0x8", "0x9");
    assert!(manager.mint_request("projA", "7", "0xff") == Err(MintError::Failure));
    assert!(manager.mint_request("0x1", "0x7", "0xff") == Err(MintError::Failure));
    assert!(manager.mint_request("0x1", "7", "0xG") == Err(MintError::Failure));
    let unreadable = OnChainStartknetManager::new("account", "0x9");
    assert!(unreadable.mint_request("0x1", "7", "0xff") == Err(MintError::Failure));
    let keyless = OnChainStartknetManager::new("0x8", "");
    assert!(keyless.mint_request("0x1", "7", "0xff") == Err(MintError::Failure));
}

#[test]
fn every_failure_counts_as_token_missing() {
    assert!(OnChainStartknetManager::token_found(Some(true)));
    assert!(!OnChainStartknetManager::token_found(Some(false)));
    assert!(!OnChainStartknetManager::token_found(None));
}

#[test]
fn accepted_mint_gives_the_hash() {
    assert_eq!(
        OnChainStartknetManager::mint_result("7", Some("0xabc".to_string())),
        Ok(("7".to_string(), Some("0xabc".to_string())))
    );
    assert_eq!(OnChainStartknetManager::mint_result("7", None), Err(MintError::Failure));
}

#[test]
fn token_id_is_read_as_decimal() {
    assert_eq!(parse_token("7"), Some(felt(7)));
    assert_eq!(parse_token("255"), Some(felt(255)));
    assert_eq!(parse_token("0x7"), None);
    assert_eq!(parse_token(""), None);
    let mut two_five_six = vec![0u8; 32];
    two_five_six[30] = 1;
    assert_eq!(parse_token("256"), Some(two_five_six));
}

#[test]
fn overlong_token_id_is_not_read() {
    let longest = format!("{}7", "0".repeat(MAX_DECIMAL_LEN - 1));
    assert_eq!(longest.len(), 77);
    assert_eq!(parse_token(&longest), Some(felt(7)));
    let too_long = format!("{}7", "0".repeat(MAX_DECIMAL_LEN));
    assert_eq!(parse_token(&too_long), None);
    let manager = OnChainStartknetManager::new("0x8", "0x9");
    assert_eq!(manager.ownership_query("0x1", &too_long), None);
    assert!(manager.mint_request("0x1", &too_long, "0xff") == Err(MintError::Failure));
    let large = "9".repeat(MAX_DECIMAL_LEN);
    assert_eq!(parse_token(&large).map(|bytes| bytes.len()), Some(32));
}
