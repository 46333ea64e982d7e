use nft_bridge::domain::bridge::{
    MsgTypes, PubKey, SignedHash, SignedHashValidatorError, Transaction, TransferNft,
};
use nft_bridge::domain::save_customer_data::{merge_into, CustomerKeys, SaveCustomerDataError};
use nft_bridge::infrastructure::in_memory::{
    InMemoryDataRepository, InMemoryStarknetTransactionManager, InMemoryTransactionRepository,
    TestSignedHashValidator,
};
use nft_bridge::text::{clone_option, clone_texts, contains_text, same_text};

fn texts(items: &[&str]) -> Vec<String> {
    items.iter().map(|s| s.to_string()).collect()
}

fn keys(wallet: &str, project: &str, tokens: &[&str]) -> CustomerKeys {
    CustomerKeys {
        keplr_wallet_pubkey: wallet.to_string(),
        project_id: project.to_string(),
        token_ids: texts(tokens),
    }
}

fn signed(signature: &str) -> SignedHash {
    SignedHash {
        pub_key: PubKey { key_type: "tendermint/PubKeySecp256k1".to_string(), value: "A1".to_string() },
        signature: signature.to_string(),
    }
}

fn transfer(contract: &str, token: &str, recipient: &str) -> Transaction {
    Transaction {
        contract: contract.to_string(),
        msg: MsgTypes::TransferNft(TransferNft {
            recipient: recipient.to_string(),
            token_id: token.to_string(),
        }),
    }
}

#[test]
fn same_text_compares_characters() {
    assert!(same_text("abc", "abc"));
    assert!(!same_text("abc", "abd"));
    assert!(!same_text("abc", "ab"));
    assert!(same_text("", ""));
}

#[test]
fn text_copies_keep_content_and_order() {
    assert_eq!(clone_option(&Some("h".to_string())), Some("h".to_string()));
    assert_eq!(clone_option(&None), None);
    assert_eq!(clone_texts(&texts(&["2", "1", "2"])), texts(&["2", "1", "2"]));
    assert!(contains_text(&texts(&["1", "2"]), "2"));
    assert!(!contains_text(&texts(&["1", "2"]), "3"));
    assert!(!contains_text(&texts(&[]), ""));
}

#[test]
fn valid_signature_is_returned() {
    let validator = TestSignedHashValidator {};
    assert_eq!(validator.verify(&signed("sig123"), "0xD", "W"), Ok("sig123".to_string()));
}

#[test]
fn invalid_signature_is_rejected() {
    let validator = TestSignedHashValidator {};
    assert_eq!(
        validator.verify(&signed("anInvalidHash"), "0xD", "W"),
        Err(SignedHashValidatorError::FailedToVerifyHash)
    );
}

#[test]
fn signature_check_ignores_case_and_neighbours() {
    let validator = TestSignedHashValidator {};
    assert_eq!(validator.verify(&signed("aninvalidhash"), "0xD", "W"), Ok("aninvalidhash".to_string()));
    assert_eq!(validator.verify(&signed("anInvalidHash "), "0xD", "W"), Ok("anInvalidHash ".to_string()));
    assert_eq!(validator.verify(&signed(""), "0xD", "W"), Ok("".to_string()));
}

#[test]
fn merge_into_appends_new_tokens_once() {
    let mut held = texts(&["1", "2"]);
    merge_into(&mut held, &texts(&["2", "3", "3", "1", "4"]));
    assert_eq!(held, texts(&["1", "2", "3", "4"]));
}

#[test]
fn merge_into_empty_removes_repeats() {
    let mut held: Vec<String> = Vec::new();
    merge_into(&mut held, &texts(&["5", "5", "6"]));
    assert_eq!(held, texts(&["5", "6"]));
    merge_into(&mut held, &texts(&[]));
    assert_eq!(held, texts(&["5", "6"]));
}

#[test]
fn customer_keys_merge_across_saves() {
    let mut repository = InMemoryDataRepository::new();
    assert_eq!(repository.save_customer_keys(keys("wallet", "project", &["1", "2"])), Ok(()));
    assert_eq!(repository.save_customer_keys(keys("wallet", "project", &["2", "3"])), Ok(()));
    let found = repository.get_customer_keys("wallet", "project").unwrap();
    assert_eq!(found, keys("wallet", "project", &["1", "2", "3"]));
}

#[test]
fn unknown_customer_is_not_found() {
    let repository = InMemoryDataRepository::new();
    assert_eq!(
        repository.get_customer_keys("unknownkey", "anyproject"),
        Err(SaveCustomerDataError::NotFound)
    );
}

#[test]
fn unknown_project_of_known_wallet_is_not_found() {
    let mut repository = InMemoryDataRepository::new();
    repository.save_customer_keys(keys("wallet", "project", &["1"])).unwrap();
    assert_eq!(
        repository.get_customer_keys("wallet", "other"),
        Err(SaveCustomerDataError::NotFound)
    );
    assert_eq!(
        repository.get_customer_keys("other", "project"),
        Err(SaveCustomerDataError::NotFound)
    );
}

#[test]
fn customer_keys_are_kept_per_wallet_and_project() {
    let mut repository = InMemoryDataRepository::new();
    repository.save_customer_keys(keys("w1", "p1", &["1"])).unwrap();
    repository.save_customer_keys(keys("w1", "p2", &["2"])).unwrap();
    repository.save_customer_keys(keys("w2", "p1", &["3"])).unwrap();
    repository.save_customer_keys(keys("w1", "p1", &["4"])).unwrap();
    assert_eq!(repository.get_customer_keys("w1", "p1").unwrap(), keys("w1", "p1", &["1", "4"]));
    assert_eq!(repository.get_customer_keys("w1", "p2").unwrap(), keys("w1", "p2", &["2"]));
    assert_eq!(repository.get_customer_keys("w2", "p1").unwrap(), keys("w2", "p1", &["3"]));
}

#[test]
fn saving_no_tokens_creates_an_empty_record() {
    let mut repository = InMemoryDataRepository::new();
    repository.save_customer_keys(keys("w", "p", &[])).unwrap();
    assert_eq!(repository.get_customer_keys("w", "p").unwrap(), keys("w", "p", &[]));
}

#[test]
fn customer_keys_clone_is_equal() {
    let first = keys("w", "p", &["1", "2"]);
    assert_eq!(first.clone(), first);
}

#[test]
fn transactions_are_filtered_by_contract_and_token() {
    let repository = InMemoryTransactionRepository::new(vec![
        transfer("projA", "7", "alice"),
        transfer("projB", "7", "bob"),
        transfer("projA", "8", "carol"),
        transfer("projA", "7", "dave"),
    ]);
    let found = repository.get_transactions_for_contract("projA", "7").unwrap();
    assert_eq!(found, vec![transfer("projA", "7", "alice"), transfer("projA", "7", "dave")]);
}

#[test]
fn transactions_of_unknown_token_are_empty() {
    let repository = InMemoryTransactionRepository::new(vec![transfer("projA", "7", "alice")]);
    assert_eq!(repository.get_transactions_for_contract("projA", "9"), Ok(vec![]));
    assert_eq!(repository.get_transactions_for_contract("projC", "7"), Ok(vec![]));
    let empty = InMemoryTransactionRepository::new(vec![]);
    assert_eq!(empty.get_transactions_for_contract("projA", "7"), Ok(vec![]));
}

#[test]
fn transaction_repository_keeps_what_it_was_given() {
    let repository = InMemoryTransactionRepository::new(vec![transfer("projA", "7", "alice")]);
    assert_eq!(repository.transactions, vec![transfer("projA", "7", "alice")]);
    assert_eq!(repository.transactions[0].clone(), transfer("projA", "7", "alice"));
}

#[test]
fn minted_token_is_found_afterwards() {
    let mut chain = InMemoryStarknetTransactionManager::new();
    assert!(!chain.project_has_token("projA", "7"));
    assert_eq!(chain.mint_project_token("projA", "7", "0xD"), Ok(("7".to_string(), None)));
    assert!(chain.project_has_token("projA", "7"));
    assert!(chain.project_has_token("projA", "7"));
    assert!(!chain.project_has_token("projA", "8"));
    assert!(!chain.project_has_token("projB", "7"));
}

#[test]
fn minting_again_keeps_one_token() {
    let mut chain = InMemoryStarknetTransactionManager::new();
    chain.mint_project_token("projA", "7", "0xD").unwrap();
    assert_eq!(chain.mint_project_token("projA", "7", "0xE"), Ok(("7".to_string(), None)));
    chain.mint_project_token("projB", "7", "0xD").unwrap();
    assert!(chain.project_has_token("projA", "7"));
    assert!(chain.project_has_token("projB", "7"));
}
