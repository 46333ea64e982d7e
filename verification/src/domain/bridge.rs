//! Queue items, their life cycle, and the values exchanged with the
//! source and destination chains.

use vstd::prelude::*;
use crate::text::{clone_option, option_view};

verus! {

/// Where a job stands. `Pending` is initial; `Success` and `Error` are
/// terminal.
#[derive(Clone, Copy, Debug, PartialEq, Eq, Structural)]
pub enum QueueStatus {
    Pending,
    Processing,
    Success,
    Error,
}

/// The moves a job may make: a worker claims a pending job, then reports
/// it done or failed; a claim whose worker never reports is handed back.
pub open spec fn allowed(from: QueueStatus, to: QueueStatus) -> bool {
    match (from, to) {
        (QueueStatus::Pending, QueueStatus::Processing) => true,
        (QueueStatus::Processing, QueueStatus::Success) => true,
        (QueueStatus::Processing, QueueStatus::Error) => true,
        (QueueStatus::Processing, QueueStatus::Pending) => true,
        _ => false,
    }
}

impl QueueStatus {
    /// A terminal status is never left again.
    pub open spec fn terminal(self) -> bool {
        self == QueueStatus::Success || self == QueueStatus::Error
    }

    pub fn is_terminal(&self) -> (r: bool)
        ensures
            r == self.terminal(),
    {
        match self {
            QueueStatus::Success => true,
            QueueStatus::Error => true,
            _ => false,
        }
    }

    /// Whether a job in this status may move to `next`.
    pub fn can_become(&self, next: QueueStatus) -> (r: bool)
        ensures
            r == allowed(*self, next),
    {
        match (*self, next) {
            (QueueStatus::Pending, QueueStatus::Processing) => true,
            (QueueStatus::Processing, QueueStatus::Success) => true,
            (QueueStatus::Processing, QueueStatus::Error) => true,
            (QueueStatus::Processing, QueueStatus::Pending) => true,
            _ => false,
        }
    }
}

/// No move leaves a terminal status, and none skips `Processing`.
pub proof fn lemma_terminal_is_final(from: QueueStatus, to: QueueStatus)
    ensures
        from.terminal() ==> !allowed(from, to),
        from == QueueStatus::Pending && allowed(from, to) ==> to == QueueStatus::Processing,
        to.terminal() && allowed(from, to) ==> from == QueueStatus::Processing,
{
}

/// One job: the move of one token of one project for one wallet.
#[derive(Debug, PartialEq, Eq)]
pub struct QueueItem {
    pub keplr_wallet_pubkey: String,
    pub project_id: String,
    pub token_id: String,
    pub transaction_hash: Option<String>,
    pub status: QueueStatus,
}

/// What a `QueueItem` says, character by character.
pub struct QueueItemView {
    pub wallet: Seq<char>,
    pub project: Seq<char>,
    pub token: Seq<char>,
    pub transaction_hash: Option<Seq<char>>,
    pub status: QueueStatus,
}

impl QueueItemView {
    /// A freshly recorded job.
    pub open spec fn pending(wallet: Seq<char>, project: Seq<char>, token: Seq<char>) -> Self {
        QueueItemView {
            wallet,
            project,
            token,
            transaction_hash: None,
            status: QueueStatus::Pending,
        }
    }

    /// Whether this job moves `token` of `project` for `wallet`.
    pub open spec fn is_job(self, wallet: Seq<char>, project: Seq<char>, token: Seq<char>) -> bool {
        self.wallet == wallet && self.project == project && self.token == token
    }

    /// Whether two jobs move the same token of the same project for the
    /// same wallet.
    pub open spec fn same_job(self, other: Self) -> bool {
        self.is_job(other.wallet, other.project, other.token)
    }

    /// A job is live until it has failed: a live job stands for an
    /// attempt that is wanted, under way, or done.
    pub open spec fn live(self) -> bool {
        self.status != QueueStatus::Error
    }

    /// The same job in another status.
    pub open spec fn with_status(self, status: QueueStatus) -> Self {
        QueueItemView { status, ..self }
    }

    /// The job reported done. A hash that is known is recorded; an
    /// unknown one leaves what was recorded before.
    pub open spec fn succeeded(self, hash: Option<Seq<char>>) -> Self {
        QueueItemView {
            status: QueueStatus::Success,
            transaction_hash: if hash is Some { hash } else { self.transaction_hash },
            ..self
        }
    }
}

impl View for QueueItem {
    type V = QueueItemView;

    open spec fn view(&self) -> QueueItemView {
        QueueItemView {
            wallet: self.keplr_wallet_pubkey@,
            project: self.project_id@,
            token: self.token_id@,
            transaction_hash: option_view(self.transaction_hash),
            status: self.status,
        }
    }
}

impl DeepView for QueueItem {
    type V = QueueItemView;

    open spec fn deep_view(&self) -> QueueItemView {
        self@
    }
}

impl Clone for QueueItem {
    fn clone(&self) -> (r: Self)
        ensures
            r@ == self@,
    {
        QueueItem {
            keplr_wallet_pubkey: self.keplr_wallet_pubkey.clone(),
            project_id: self.project_id.clone(),
            token_id: self.token_id.clone(),
            transaction_hash: clone_option(&self.transaction_hash),
            status: self.status,
        }
    }
}

impl QueueItem {
    /// A pending job with no transaction hash.
    pub fn new(keplr_wallet_pubkey: &str, project_id: &str, token_id: String) -> (r: Self)
        ensures
            r@ == QueueItemView::pending(keplr_wallet_pubkey@, project_id@, token_id@),
    {
        QueueItem {
            keplr_wallet_pubkey: keplr_wallet_pubkey.to_owned(),
            project_id: project_id.to_owned(),
            token_id,
            transaction_hash: None,
            status: QueueStatus::Pending,
        }
    }

    /// A copy of this job in another status.
    pub fn with_status(&self, status: QueueStatus) -> (r: Self)
        ensures
            r@ == self@.with_status(status),
    {
        QueueItem {
            keplr_wallet_pubkey: self.keplr_wallet_pubkey.clone(),
            project_id: self.project_id.clone(),
            token_id: self.token_id.clone(),
            transaction_hash: clone_option(&self.transaction_hash),
            status,
        }
    }

    /// A copy of this job reported done, with `hash` recorded if known.
    pub fn succeeded(&self, hash: &Option<String>) -> (r: Self)
        ensures
            r@ == self@.succeeded(option_view(*hash)),
    {
        let recorded = match hash {
            Some(h) => Some(h.clone()),
            None => clone_option(&self.transaction_hash),
        };
        QueueItem {
            keplr_wallet_pubkey: self.keplr_wallet_pubkey.clone(),
            project_id: self.project_id.clone(),
            token_id: self.token_id.clone(),
            transaction_hash: recorded,
            status: QueueStatus::Success,
        }
    }
}

/// The payload of a transfer on the source chain.
#[derive(Debug, PartialEq, Eq)]
pub struct TransferNft {
    pub recipient: String,
    pub token_id: String,
}

/// The messages of the source chain that this crate reads.
#[derive(Debug, PartialEq, Eq)]
pub enum MsgTypes {
    TransferNft(TransferNft),
}

/// A transfer recorded on the source chain. Never changed once recorded.
#[derive(Debug, PartialEq, Eq)]
pub struct Transaction {
    pub contract: String,
    pub msg: MsgTypes,
}

/// What a `Transaction` says, character by character.
pub struct TransactionView {
    pub contract: Seq<char>,
    pub recipient: Seq<char>,
    pub token: Seq<char>,
}

impl TransactionView {
    /// Whether this transfer moved `token` of the contract `project`.
    pub open spec fn concerns(self, project: Seq<char>, token: Seq<char>) -> bool {
        self.contract == project && self.token == token
    }
}

impl View for Transaction {
    type V = TransactionView;

    open spec fn view(&self) -> TransactionView {
        match self.msg {
            MsgTypes::TransferNft(transfer) => TransactionView {
                contract: self.contract@,
                recipient: transfer.recipient@,
                token: transfer.token_id@,
            },
        }
    }
}

impl DeepView for Transaction {
    type V = TransactionView;

    open spec fn deep_view(&self) -> TransactionView {
        self@
    }
}

impl Clone for Transaction {
    fn clone(&self) -> (r: Self)
        ensures
            r@ == self@,
    {
        match &self.msg {
            MsgTypes::TransferNft(transfer) => Transaction {
                contract: self.contract.clone(),
                msg: MsgTypes::TransferNft(
                    TransferNft {
                        recipient: transfer.recipient.clone(),
                        token_id: transfer.token_id.clone(),
                    },
                ),
            },
        }
    }
}

/// The public key that a wallet signed with.
#[derive(Debug, PartialEq, Eq)]
pub struct PubKey {
    pub key_type: String,
    pub value: String,
}

/// A wallet's proof that a destination account may receive its tokens.
#[derive(Debug, PartialEq, Eq)]
pub struct SignedHash {
    pub pub_key: PubKey,
    pub signature: String,
}

/// Why a proof was turned down.
#[derive(Clone, Copy, Debug, PartialEq, Eq, Structural)]
pub enum SignedHashValidatorError {
    FailedToVerifyHash,
}

/// Why recorded transfers could not be read.
#[derive(Debug, PartialEq, Eq)]
pub enum TransactionFetchError {
    FetchError(String),
}

/// Why a token was not minted. The destination chain tells no more.
#[derive(Clone, Copy, Debug, PartialEq, Eq, Structural)]
pub enum MintError {
    Failure,
}

/// Why the queue turned a request down.
#[derive(Clone, Copy, Debug, PartialEq, Eq, Structural)]
pub enum QueueError {
    FailedToEnqueue,
    FailedToGetBatch,
    NotProcessing,
}

/// A mint that went through: the token id, and the hash of the
/// destination transaction where the chain gave one.
pub type MintTransactionResult = (String, Option<String>);

} // verus!
