use nft_bridge::domain::bridge::{QueueError, QueueItem, QueueStatus};
use nft_bridge::domain::save_customer_data::{CustomerKeys, SaveCustomerDataError};
use nft_bridge::infrastructure::postgresql::{
    after_insert, after_update, batch_result, customer_keys_result, customer_migration_state,
    enqueue_result, jobs_to_insert, keys_to_store, queue_item_from_row, queue_items_from_rows,
    DecodeError, PostgresQueueStatus, QueueRow, SaveStep, MAX_POOL_SIZE,
};

fn texts(items: &[&str]) -> Vec<String> {
    items.iter().map(|s| s.to_string()).collect()
}

fn keys(wallet: &str, project: &str, tokens: &[&str]) -> CustomerKeys {
    CustomerKeys {
        keplr_wallet_pubkey: wallet.to_string(),
        project_id: project.to_string(),
        token_ids: texts(tokens),
    }
}

fn row(token: &str, hash: Option<&str>, status: PostgresQueueStatus) -> QueueRow {
    QueueRow {
        keplr_wallet_pubkey: "W".to_string(),
        project_id: "projA".to_string(),
        token_id: token.to_string(),
        transaction_hash: hash.map(|h| h.to_string()),
        status,
    }
}

fn job(token: &str, hash: Option<&str>, status: QueueStatus) -> QueueItem {
    QueueItem {
        keplr_wallet_pubkey: "W".to_string(),
        project_id: "projA".to_string(),
        token_id: token.to_string(),
        transaction_hash: hash.map(|h| h.to_string()),
        status,
    }
}

#[test]
fn pool_size() {
    assert_eq!(MAX_POOL_SIZE, 16);
}

#[test]
fn stored_status_converts_to_status() {
    assert_eq!(QueueStatus::from(PostgresQueueStatus::Pending), QueueStatus::Pending);
    assert_eq!(QueueStatus::from(PostgresQueueStatus::Processing), QueueStatus::Processing);
    assert_eq!(QueueStatus::from(PostgresQueueStatus::Success), QueueStatus::Success);
    assert_eq!(QueueStatus::from(PostgresQueueStatus::Error), QueueStatus::Error);
}

#[test]
fn status_converts_to_stored_and_back() {
    for status in [QueueStatus::Pending, QueueStatus::Processing, QueueStatus::Success, QueueStatus::Error] {
        assert_eq!(QueueStatus::from(PostgresQueueStatus::stored(status)), status);
    }
}

#[test]
fn status_labels() {
    assert_eq!(PostgresQueueStatus::Pending.label(), "pending");
    assert_eq!(PostgresQueueStatus::Processing.label(), "processing");
    assert_eq!(PostgresQueueStatus::Success.label(), "success");
    assert_eq!(PostgresQueueStatus::Error.label(), "error");
}

#[test]
fn labels_are_read_back() {
    assert_eq!(PostgresQueueStatus::from_label("pending"), Ok(PostgresQueueStatus::Pending));
    assert_eq!(PostgresQueueStatus::from_label("processing"), Ok(PostgresQueueStatus::Processing));
    assert_eq!(PostgresQueueStatus::from_label("success"), Ok(PostgresQueueStatus::Success));
    assert_eq!(PostgresQueueStatus::from_label("error"), Ok(PostgresQueueStatus::Error));
}

#[test]
fn unknown_label_is_an_error() {
    assert_eq!(PostgresQueueStatus::from_label("done"), Err(DecodeError::UnknownStatus));
    assert_eq!(PostgresQueueStatus::from_label("Pending"), Err(DecodeError::UnknownStatus));
    assert_eq!(PostgresQueueStatus::from_label(""), Err(DecodeError::UnknownStatus));
}

#[test]
fn row_becomes_job() {
    assert_eq!(
        queue_item_from_row(&row("7", Some("0xabc"), PostgresQueueStatus::Success)),
        job("7", Some("0xabc"), QueueStatus::Success)
    );
    assert_eq!(
        queue_items_from_rows(&vec![
            row("1", None, PostgresQueueStatus::Pending),
            row("2", None, PostgresQueueStatus::Error),
        ]),
        vec![job("1", None, QueueStatus::Pending), job("2", None, QueueStatus::Error)]
    );
}

#[test]
fn request_inserts_one_pending_job_per_token() {
    assert_eq!(
        jobs_to_insert("W", "projA", &texts(&["1", "2"])),
        vec![job("1", None, QueueStatus::Pending), job("2", None, QueueStatus::Pending)]
    );
    assert_eq!(jobs_to_insert("W", "projA", &texts(&[])), vec![]);
}

#[test]
fn request_fails_as_a_whole_without_commit() {
    let jobs = jobs_to_insert("W", "projA", &texts(&["1", "2"]));
    assert_eq!(enqueue_result(jobs.clone(), true), Ok(jobs.clone()));
    assert_eq!(enqueue_result(jobs, false), Err(QueueError::FailedToEnqueue));
}

#[test]
fn failed_claim_is_an_error() {
    assert_eq!(batch_result(None), Err(QueueError::FailedToGetBatch));
    assert_eq!(
        batch_result(Some(vec![row("1", None, PostgresQueueStatus::Processing)])),
        Ok(vec![job("1", None, QueueStatus::Processing)])
    );
    assert_eq!(batch_result(Some(vec![])), Ok(vec![]));
}

#[test]
fn failed_poll_shows_nothing() {
    assert_eq!(customer_migration_state(None), vec![]);
    assert_eq!(
        customer_migration_state(Some(vec![row("1", Some("0x1"), PostgresQueueStatus::Success)])),
        vec![job("1", Some("0x1"), QueueStatus::Success)]
    );
}

#[test]
fn insert_decides_the_next_step() {
    assert_eq!(after_insert(Some(1)), SaveStep::Done(Ok(())));
    assert_eq!(after_insert(None), SaveStep::Merge);
    assert_eq!(after_insert(Some(0)), SaveStep::Done(Err(SaveCustomerDataError::NotImpled)));
    assert_eq!(after_insert(Some(2)), SaveStep::Done(Err(SaveCustomerDataError::NotImpled)));
}

#[test]
fn update_decides_the_result() {
    assert_eq!(after_update(true), Ok(()));
    assert_eq!(after_update(false), Err(SaveCustomerDataError::FailedToPersistToDatabase));
}

#[test]
fn stored_keys_are_merged() {
    let held = texts(&["1", "2"]);
    assert_eq!(
        keys_to_store(Some(&held), &keys("W", "projA", &["2", "3"])),
        keys("W", "projA", &["1", "2", "3"])
    );
    assert_eq!(keys_to_store(None, &keys("W", "projA", &["2", "2"])), keys("W", "projA", &["2"]));
}

#[test]
fn lookup_result() {
    assert_eq!(customer_keys_result(None), Err(SaveCustomerDataError::FailedToFetch));
    assert_eq!(customer_keys_result(Some(vec![])), Err(SaveCustomerDataError::NotFound));
    assert_eq!(
        customer_keys_result(Some(vec![keys("W", "projA", &["1"]), keys("W", "projA", &["2"])])),
        Ok(keys("W", "projA", &["1"]))
    );
}
