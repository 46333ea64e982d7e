use nft_bridge::domain::bridge::{
    MintError, PubKey, QueueError, QueueItem, QueueStatus, SignedHash, SignedHashValidatorError,
};
use nft_bridge::domain::save_customer_data::{CustomerKeys, SaveCustomerDataError};
use nft_bridge::infrastructure::in_memory::{
    InMemoryDataRepository, InMemoryStarknetTransactionManager, TestSignedHashValidator,
};
use nft_bridge::infrastructure::in_memory_queue::InMemoryQueueManager;
use nft_bridge::infrastructure::starknet::OnChainStartknetManager;
use nft_bridge::worker::{after_check, after_mint, keys_to_save, process_job, report, Outcome};

fn job(wallet: &str, project: &str, token: &str, hash: Option<&str>, status: QueueStatus) -> QueueItem {
    QueueItem {
        keplr_wallet_pubkey: wallet.to_string(),
        project_id: project.to_string(),
        token_id: token.to_string(),
        transaction_hash: hash.map(|h| h.to_string()),
        status,
    }
}

fn signed(signature: &str) -> SignedHash {
    SignedHash {
        pub_key: PubKey { key_type: "tendermint/PubKeySecp256k1".to_string(), value: "A1".to_string() },
        signature: signature.to_string(),
    }
}

#[test]
fn token_that_is_there_ends_the_job() {
    assert_eq!(after_check(true), Some(Outcome::AlreadyMinted));
    assert_eq!(after_check(false), None);
}

#[test]
fn mint_result_decides_the_outcome() {
    assert_eq!(
        after_mint(Ok(("7".to_string(), Some("0xabc".to_string())))),
        Outcome::Minted { transaction_hash: Some("0xabc".to_string()) }
    );
    assert_eq!(after_mint(Ok(("7".to_string(), None))), Outcome::Minted { transaction_hash: None });
    assert_eq!(after_mint(Err(MintError::Failure)), Outcome::Failed);
}

#[test]
fn only_a_mint_saves_keys() {
    let claimed = job("W", "projA", "7", None, QueueStatus::Processing);
    assert_eq!(
        keys_to_save(&claimed, &Outcome::Minted { transaction_hash: None }),
        Some(CustomerKeys {
            keplr_wallet_pubkey: "W".to_string(),
            project_id: "projA".to_string(),
            token_ids: vec!["7".to_string()],
        })
    );
    assert_eq!(keys_to_save(&claimed, &Outcome::AlreadyMinted), None);
    assert_eq!(keys_to_save(&claimed, &Outcome::Failed), None);
}

#[test]
fn end_to_end_with_a_chain_that_gives_a_hash() {
    let validator = TestSignedHashValidator {};
    let mut queue = InMemoryQueueManager::new(5);
    let mut chain = InMemoryStarknetTransactionManager::new();
    let mut data = InMemoryDataRepository::new();

    assert_eq!(validator.verify(&signed("sig123"), "0xD", "W"), Ok("sig123".to_string()));
    let queued = queue.enqueue("W", "projA", vec!["7".to_string()]).unwrap();
    assert_eq!(queued, vec![job("W", "projA", "7", None, QueueStatus::Pending)]);

    let batch = queue.get_batch().unwrap();
    assert_eq!(batch.len(), 1);
    let claimed = &batch[0];
    assert!(!chain.project_has_token("projA", "7"));
    assert_eq!(after_check(false), None);
    let outcome = after_mint(OnChainStartknetManager::mint_result("7", Some("0xabc".to_string())));
    let keys = keys_to_save(claimed, &outcome).unwrap();
    data.save_customer_keys(keys).unwrap();
    let hash = match outcome {
        Outcome::Minted { transaction_hash } => transaction_hash,
        _ => panic!("the mint went through"),
    };
    let done = queue.mark_success("W", "projA", "7", hash).unwrap();

    assert_eq!(done, job("W", "projA", "7", Some("0xabc"), QueueStatus::Success));
    assert_eq!(
        queue.get_customer_migration_state("W", "projA"),
        vec![job("W", "projA", "7", Some("0xabc"), QueueStatus::Success)]
    );
    assert!(data.get_customer_keys("W", "projA").unwrap().token_ids.contains(&"7".to_string()));
}

#[test]
fn rejected_signature_queues_nothing() {
    let validator = TestSignedHashValidator {};
    let mut queue = InMemoryQueueManager::new(5);
    let checked = validator.verify(&signed("anInvalidHash"), "0xD", "W");
    assert_eq!(checked, Err(SignedHashValidatorError::FailedToVerifyHash));
    if checked.is_ok() {
        queue.enqueue("W", "projA", vec!["7".to_string()]).unwrap();
    }
    assert_eq!(queue.len(), 0);
    assert_eq!(queue.get_customer_migration_state("W", "projA"), vec![]);
}

#[test]
fn process_job_mints_a_missing_token() {
    let mut queue = InMemoryQueueManager::new(5);
    let mut chain = InMemoryStarknetTransactionManager::new();
    let mut data = InMemoryDataRepository::new();
    queue.enqueue("W", "projA", vec!["7".to_string()]).unwrap();
    let batch = queue.get_batch().unwrap();
    let done = process_job(&batch[0], "0xD", &mut queue, &mut chain, &mut data);
    assert_eq!(done, Ok(job("W", "projA", "7", None, QueueStatus::Success)));
    assert!(chain.project_has_token("projA", "7"));
    assert_eq!(data.get_customer_keys("W", "projA").unwrap().token_ids, vec!["7".to_string()]);
    assert_eq!(
        queue.get_customer_migration_state("W", "projA"),
        vec![job("W", "projA", "7", None, QueueStatus::Success)]
    );
}

#[test]
fn second_worker_does_not_mint_again() {
    let mut queue = InMemoryQueueManager::new(5);
    let mut chain = InMemoryStarknetTransactionManager::new();
    let mut data = InMemoryDataRepository::new();
    queue.enqueue("W", "projA", vec!["7".to_string()]).unwrap();
    queue.enqueue("V", "projA", vec!["7".to_string()]).unwrap();
    let batch = queue.get_batch().unwrap();
    assert_eq!(batch.len(), 2);
    process_job(&batch[0], "0xD", &mut queue, &mut chain, &mut data).unwrap();
    let second = process_job(&batch[1], "0xE", &mut queue, &mut chain, &mut data);
    assert_eq!(second, Ok(job("V", "projA", "7", None, QueueStatus::Success)));
    assert_eq!(data.get_customer_keys("V", "projA"), Err(SaveCustomerDataError::NotFound));
    assert_eq!(data.get_customer_keys("W", "projA").unwrap().token_ids, vec!["7".to_string()]);
}

#[test]
fn process_job_needs_a_claim() {
    let mut queue = InMemoryQueueManager::new(5);
    let mut chain = InMemoryStarknetTransactionManager::new();
    let mut data = InMemoryDataRepository::new();
    let queued = queue.enqueue("W", "projA", vec!["7".to_string()]).unwrap();
    let refused = process_job(&queued[0], "0xD", &mut queue, &mut chain, &mut data);
    assert_eq!(refused, Err(QueueError::NotProcessing));
    assert!(!chain.project_has_token("projA", "7"));
    assert_eq!(data.get_customer_keys("W", "projA"), Err(SaveCustomerDataError::NotFound));
    assert_eq!(
        queue.get_customer_migration_state("W", "projA"),
        vec![job("W", "projA", "7", None, QueueStatus::Pending)]
    );
}

#[test]
fn process_job_merges_into_keys_already_held() {
    let mut queue = InMemoryQueueManager::new(5);
    let mut chain = InMemoryStarknetTransactionManager::new();
    let mut data = InMemoryDataRepository::new();
    queue.enqueue("W", "projA", vec!["1".to_string(), "2".to_string()]).unwrap();
    let batch = queue.get_batch().unwrap();
    for claimed in &batch {
        process_job(claimed, "0xD", &mut queue, &mut chain, &mut data).unwrap();
    }
    assert_eq!(
        data.get_customer_keys("W", "projA").unwrap().token_ids,
        vec!["1".to_string(), "2".to_string()]
    );
}

#[test]
fn report_applies_each_outcome() {
    let mut queue = InMemoryQueueManager::new(5);
    queue
        .enqueue("W", "projA", vec!["1".to_string(), "2".to_string(), "3".to_string()])
        .unwrap();
    let batch = queue.get_batch().unwrap();
    assert_eq!(
        report(&mut queue, &batch[0], Outcome::Minted { transaction_hash: Some("0x1".to_string()) }),
        Ok(job("W", "projA", "1", Some("0x1"), QueueStatus::Success))
    );
    assert_eq!(
        report(&mut queue, &batch[1], Outcome::AlreadyMinted),
        Ok(job("W", "projA", "2", None, QueueStatus::Success))
    );
    assert_eq!(
        report(&mut queue, &batch[2], Outcome::Failed),
        Ok(job("W", "projA", "3", None, QueueStatus::Error))
    );
    assert_eq!(report(&mut queue, &batch[2], Outcome::Failed), Err(QueueError::NotProcessing));
}
