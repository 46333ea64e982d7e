//! The decisions of the relational stores: what is written, how a row is
//! read, and what each answer of the database comes to. Running the
//! statements is left to the caller.

use vstd::prelude::*;
use crate::domain::bridge::{QueueError, QueueItem, QueueItemView, QueueStatus};
use crate::domain::queue::pending_jobs;
use crate::domain::save_customer_data::{
    merge_into, merge_tokens, CustomerKeys, CustomerKeysView, SaveCustomerDataError,
};
use crate::text::{clone_option, clone_texts, option_view, same_text};

verus! {

/// The most connections that the pool keeps open.
pub const MAX_POOL_SIZE: usize = 16;

/// A status as the `migration_queue` table stores it.
#[derive(Clone, Copy, Debug, PartialEq, Eq, Structural)]
pub enum PostgresQueueStatus {
    Pending,
    Processing,
    Success,
    Error,
}

/// The status that a stored status stands for.
pub open spec fn status_of(value: PostgresQueueStatus) -> QueueStatus {
    match value {
        PostgresQueueStatus::Pending => QueueStatus::Pending,
        PostgresQueueStatus::Processing => QueueStatus::Processing,
        PostgresQueueStatus::Success => QueueStatus::Success,
        PostgresQueueStatus::Error => QueueStatus::Error,
    }
}

impl From<PostgresQueueStatus> for QueueStatus {
    fn from(value: PostgresQueueStatus) -> (r: Self) {
        match value {
            PostgresQueueStatus::Pending => QueueStatus::Pending,
            PostgresQueueStatus::Processing => QueueStatus::Processing,
            PostgresQueueStatus::Success => QueueStatus::Success,
            PostgresQueueStatus::Error => QueueStatus::Error,
        }
    }
}

impl vstd::std_specs::convert::FromSpecImpl<PostgresQueueStatus> for QueueStatus {
    open spec fn obeys_from_spec() -> bool {
        true
    }

    open spec fn from_spec(value: PostgresQueueStatus) -> Self {
        status_of(value)
    }
}

/// The name under which the database knows a status.
pub open spec fn label_of(value: PostgresQueueStatus) -> Seq<char> {
    match value {
        PostgresQueueStatus::Pending => "pending"@,
        PostgresQueueStatus::Processing => "processing"@,
        PostgresQueueStatus::Success => "success"@,
        PostgresQueueStatus::Error => "error"@,
    }
}

/// No two statuses share a name.
pub proof fn lemma_labels_differ(a: PostgresQueueStatus, b: PostgresQueueStatus)
    ensures
        label_of(a) == label_of(b) ==> a == b,
{
    reveal_strlit("pending");
    reveal_strlit("processing");
    reveal_strlit("success");
    reveal_strlit("error");
    if label_of(a) == label_of(b) {
        assert(label_of(a).len() == label_of(b).len());
        assert(label_of(a)[0] == label_of(b)[0]);
    }
}

/// Why a stored value could not be read.
#[derive(Clone, Copy, Debug, PartialEq, Eq, Structural)]
pub enum DecodeError {
    UnknownStatus,
}

impl PostgresQueueStatus {
    /// The stored form of a status.
    pub fn stored(status: QueueStatus) -> (r: Self)
        ensures
            status_of(r) == status,
    {
        match status {
            QueueStatus::Pending => PostgresQueueStatus::Pending,
            QueueStatus::Processing => PostgresQueueStatus::Processing,
            QueueStatus::Success => PostgresQueueStatus::Success,
            QueueStatus::Error => PostgresQueueStatus::Error,
        }
    }

    /// The name under which the database knows this status.
    pub fn label(&self) -> (r: &'static str)
        ensures
            r@ == label_of(*self),
    {
        match self {
            PostgresQueueStatus::Pending => "pending",
            PostgresQueueStatus::Processing => "processing",
            PostgresQueueStatus::Success => "success",
            PostgresQueueStatus::Error => "error",
        }
    }

    /// The status that the database knows under `label`. Any other text
    /// is an error, never a status picked by default.
    pub fn from_label(label: &str) -> (r: Result<Self, DecodeError>)
        ensures
            match r {
                Ok(value) => label@ == label_of(value),
                Err(e) => e == DecodeError::UnknownStatus && forall|value: PostgresQueueStatus|
                    label@ != #[trigger] label_of(value),
            },
    {
        if same_text(label, "pending") {
            Ok(PostgresQueueStatus::Pending)
        } else if same_text(label, "processing") {
            Ok(PostgresQueueStatus::Processing)
        } else if same_text(label, "success") {
            Ok(PostgresQueueStatus::Success)
        } else if same_text(label, "error") {
            Ok(PostgresQueueStatus::Error)
        } else {
            Err(DecodeError::UnknownStatus)
        }
    }
}

/// A row of the `migration_queue` table, column by column.
#[derive(Debug, PartialEq, Eq)]
pub struct QueueRow {
    pub keplr_wallet_pubkey: String,
    pub project_id: String,
    pub token_id: String,
    pub transaction_hash: Option<String>,
    pub status: PostgresQueueStatus,
}

impl View for QueueRow {
    type V = QueueItemView;

    open spec fn view(&self) -> QueueItemView {
        QueueItemView {
            wallet: self.keplr_wallet_pubkey@,
            project: self.project_id@,
            token: self.token_id@,
            transaction_hash: option_view(self.transaction_hash),
            status: status_of(self.status),
        }
    }
}

impl DeepView for QueueRow {
    type V = QueueItemView;

    open spec fn deep_view(&self) -> QueueItemView {
        self@
    }
}

/// The job that a row records.
pub fn queue_item_from_row(row: &QueueRow) -> (r: QueueItem)
    ensures
        r@ == row@,
{
    QueueItem {
        keplr_wallet_pubkey: row.keplr_wallet_pubkey.clone(),
        project_id: row.project_id.clone(),
        token_id: row.token_id.clone(),
        transaction_hash: clone_option(&row.transaction_hash),
        status: QueueStatus::from(row.status),
    }
}

/// The jobs that rows record, in their order.
pub fn queue_items_from_rows(rows: &Vec<QueueRow>) -> (r: Vec<QueueItem>)
    ensures
        r.deep_view() == rows.deep_view(),
{
    let mut items: Vec<QueueItem> = Vec::new();
    let mut i: usize = 0;
    while i < rows.len()
        invariant
            i <= rows.len(),
            items.len() == i,
            forall|k: int| 0 <= k < i ==> (#[trigger] items[k])@ == rows[k]@,
        decreases rows.len() - i,
    {
        items.push(queue_item_from_row(&rows[i]));
        i = i + 1;
    }
    assert(items.deep_view() =~= rows.deep_view());
    items
}

/// The jobs to insert for a request: one pending job per token, in the
/// order given.
pub fn jobs_to_insert(keplr_wallet_pubkey: &str, project_id: &str, token_ids: &Vec<String>) -> (r: Vec<
    QueueItem,
>)
    ensures
        r.deep_view() == pending_jobs(keplr_wallet_pubkey@, project_id@, token_ids.deep_view()),
{
    let mut jobs: Vec<QueueItem> = Vec::new();
    let mut i: usize = 0;
    while i < token_ids.len()
        invariant
            i <= token_ids.len(),
            jobs.len() == i,
            forall|k: int|
                0 <= k < i ==> (#[trigger] jobs[k])@ == QueueItemView::pending(
                    keplr_wallet_pubkey@,
                    project_id@,
                    token_ids[k]@,
                ),
        decreases token_ids.len() - i,
    {
        jobs.push(QueueItem::new(keplr_wallet_pubkey, project_id, token_ids[i].clone()));
        i = i + 1;
    }
    assert(jobs.deep_view() =~= pending_jobs(keplr_wallet_pubkey@, project_id@, token_ids.deep_view()));
    jobs
}

/// What a request comes to once its transaction has ended: the jobs if
/// it was committed, `FailedToEnqueue` if not. A transaction that is not
/// committed records none of the jobs.
pub fn enqueue_result(jobs: Vec<QueueItem>, committed: bool) -> (r: Result<Vec<QueueItem>, QueueError>)
    ensures
        committed ==> r == Ok::<Vec<QueueItem>, QueueError>(jobs),
        !committed ==> r == Err::<Vec<QueueItem>, QueueError>(QueueError::FailedToEnqueue),
{
    if committed {
        Ok(jobs)
    } else {
        Err(QueueError::FailedToEnqueue)
    }
}

/// The batch that a claim comes to: the jobs of the rows that the
/// claiming statement gave back, or `FailedToGetBatch` where it failed.
pub fn batch_result(claimed: Option<Vec<QueueRow>>) -> (r: Result<Vec<QueueItem>, QueueError>)
    ensures
        match claimed {
            Some(rows) => r matches Ok(jobs) && jobs.deep_view() == rows.deep_view(),
            None => r == Err::<Vec<QueueItem>, QueueError>(QueueError::FailedToGetBatch),
        },
{
    match claimed {
        Some(rows) => Ok(queue_items_from_rows(&rows)),
        None => Err(QueueError::FailedToGetBatch),
    }
}

/// The state shown to a customer who polls: the jobs of the rows that
/// were read, or nothing where the read failed. Only this read may hide
/// a failure.
pub fn customer_migration_state(read: Option<Vec<QueueRow>>) -> (r: Vec<QueueItem>)
    ensures
        match read {
            Some(rows) => r.deep_view() == rows.deep_view(),
            None => r.len() == 0,
        },
{
    match read {
        Some(rows) => queue_items_from_rows(&rows),
        None => Vec::new(),
    }
}

/// What follows an attempt to insert a customer's record.
#[derive(Clone, Copy, Debug, PartialEq, Eq)]
pub enum SaveStep {
    /// The save is over, with this result.
    Done(Result<(), SaveCustomerDataError>),
    /// A record is there already: merge into it and update it.
    Merge,
}

/// The step after the insert, given the number of rows it wrote, or
/// `None` where the database refused it.
pub fn after_insert(inserted: Option<u64>) -> (r: SaveStep)
    ensures
        r == match inserted {
            None => SaveStep::Merge,
            Some(rows) => if rows == 1 {
                SaveStep::Done(Ok(()))
            } else {
                SaveStep::Done(Err(SaveCustomerDataError::NotImpled))
            },
        },
{
    match inserted {
        None => SaveStep::Merge,
        Some(rows) => if rows == 1 {
            SaveStep::Done(Ok(()))
        } else {
            SaveStep::Done(Err(SaveCustomerDataError::NotImpled))
        },
    }
}

/// The result of the save after the update, given whether the database
/// accepted it.
pub fn after_update(updated: bool) -> (r: Result<(), SaveCustomerDataError>)
    ensures
        r == if updated {
            Ok::<(), SaveCustomerDataError>(())
        } else {
            Err::<(), SaveCustomerDataError>(SaveCustomerDataError::FailedToPersistToDatabase)
        },
{
    if updated {
        Ok(())
    } else {
        Err(SaveCustomerDataError::FailedToPersistToDatabase)
    }
}

/// The record to write for `keys`: the tokens `held` so far, where a
/// record is there, with those of `keys` merged in.
pub fn keys_to_store(held: Option<&Vec<String>>, keys: &CustomerKeys) -> (r: CustomerKeys)
    ensures
        r@ == (CustomerKeysView {
            wallet: keys@.wallet,
            project: keys@.project,
            tokens: merge_tokens(
                match held {
                    Some(tokens) => tokens.deep_view(),
                    None => Seq::empty(),
                },
                keys@.tokens,
            ),
        }),
{
    let mut tokens: Vec<String> = match held {
        Some(held_tokens) => clone_texts(held_tokens),
        None => {
            let empty: Vec<String> = Vec::new();
            assert(empty.deep_view() =~= Seq::<Seq<char>>::empty());
            empty
        },
    };
    merge_into(&mut tokens, &keys.token_ids);
    CustomerKeys {
        keplr_wallet_pubkey: keys.keplr_wallet_pubkey.clone(),
        project_id: keys.project_id.clone(),
        token_ids: tokens,
    }
}

/// The customer's keys that a lookup comes to: the first record read,
/// `NotFound` where none was read, and `FailedToFetch` where the read
/// itself failed.
pub fn customer_keys_result(read: Option<Vec<CustomerKeys>>) -> (r: Result<
    CustomerKeys,
    SaveCustomerDataError,
>)
    ensures
        match read {
            None => r == Err::<CustomerKeys, SaveCustomerDataError>(SaveCustomerDataError::FailedToFetch),
            Some(records) => if records.len() == 0 {
                r == Err::<CustomerKeys, SaveCustomerDataError>(SaveCustomerDataError::NotFound)
            } else {
                r matches Ok(keys) && keys@ == records[0]@
            },
        },
{
    match read {
        None => Err(SaveCustomerDataError::FailedToFetch),
        Some(records) => {
            if records.len() == 0 {
                Err(SaveCustomerDataError::NotFound)
            } else {
                Ok(records[0].clone())
            }
        },
    }
}

} // verus!
