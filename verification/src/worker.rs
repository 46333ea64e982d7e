//! What a worker does with a claimed job: look for the token on the
//! destination side, mint it only where it is missing, and report the
//! outcome. The decisions are plain functions, for a worker that talks to
//! a real chain and database; `process_job` runs them against the stores
//! held in memory.

use vstd::prelude::*;
use crate::domain::bridge::{
    MintError, MintTransactionResult, QueueError, QueueItem, QueueItemView, QueueStatus,
};
use crate::domain::queue::{after_report, in_progress, progress_place, settled};
use crate::domain::save_customer_data::{merge_tokens, CustomerKeys, CustomerKeysView};
use crate::infrastructure::in_memory::{InMemoryDataRepository, InMemoryStarknetTransactionManager};
use crate::infrastructure::in_memory_queue::InMemoryQueueManager;
use crate::text::option_view;

verus! {

/// How a claimed job ended.
#[derive(Debug, PartialEq, Eq)]
pub enum Outcome {
    /// The token was on the destination side already; nothing was minted.
    AlreadyMinted,
    /// The token was minted, under this transaction hash where one is
    /// known.
    Minted { transaction_hash: Option<String> },
    /// The mint was refused.
    Failed,
}

/// What an `Outcome` says, character by character.
pub enum OutcomeView {
    AlreadyMinted,
    Minted { transaction_hash: Option<Seq<char>> },
    Failed,
}

impl View for Outcome {
    type V = OutcomeView;

    open spec fn view(&self) -> OutcomeView {
        match self {
            Outcome::AlreadyMinted => OutcomeView::AlreadyMinted,
            Outcome::Minted { transaction_hash } => OutcomeView::Minted {
                transaction_hash: option_view(*transaction_hash),
            },
            Outcome::Failed => OutcomeView::Failed,
        }
    }
}

impl OutcomeView {
    /// The status that the job takes.
    pub open spec fn status(self) -> QueueStatus {
        match self {
            OutcomeView::Failed => QueueStatus::Error,
            _ => QueueStatus::Success,
        }
    }

    /// The transaction hash that is recorded on the job, if any.
    pub open spec fn hash(self) -> Option<Seq<char>> {
        match self {
            OutcomeView::Minted { transaction_hash } => transaction_hash,
            _ => None,
        }
    }

    /// Whether the token is added to the customer's keys: only a mint
    /// that went through does so.
    pub open spec fn saves_keys(self) -> bool {
        self is Minted
    }
}

/// The customer's keys that a finished mint of `job`'s token adds.
pub open spec fn minted_keys(job: QueueItemView) -> CustomerKeysView {
    CustomerKeysView { wallet: job.wallet, project: job.project, tokens: seq![job.token] }
}

/// The step after the destination side was asked for the token. A token
/// that is there ends the job without a mint; one that is missing has
/// no outcome yet and must be minted.
pub fn after_check(has_token: bool) -> (r: Option<Outcome>)
    ensures
        has_token ==> r == Some(Outcome::AlreadyMinted),
        !has_token ==> r is None,
{
    if has_token {
        Some(Outcome::AlreadyMinted)
    } else {
        None
    }
}

/// The outcome of a mint that was tried.
pub fn after_mint(result: Result<MintTransactionResult, MintError>) -> (r: Outcome)
    ensures
        match result {
            Ok(minted) => r@ == (OutcomeView::Minted { transaction_hash: option_view(minted.1) }),
            Err(_) => r == Outcome::Failed,
        },
{
    match result {
        Ok(minted) => Outcome::Minted { transaction_hash: minted.1 },
        Err(_) => Outcome::Failed,
    }
}

/// The keys to merge into the customer's record for this outcome: the
/// job's token after a mint that went through, nothing otherwise.
pub fn keys_to_save(job: &QueueItem, outcome: &Outcome) -> (r: Option<CustomerKeys>)
    ensures
        outcome@.saves_keys() ==> (r matches Some(keys) && keys@ == minted_keys(job@)),
        !outcome@.saves_keys() ==> r is None,
{
    match outcome {
        Outcome::Minted { .. } => {
            let mut tokens: Vec<String> = Vec::new();
            tokens.push(job.token_id.clone());
            assert(tokens.deep_view() =~= seq![job@.token]);
            Some(
                CustomerKeys {
                    keplr_wallet_pubkey: job.keplr_wallet_pubkey.clone(),
                    project_id: job.project_id.clone(),
                    token_ids: tokens,
                },
            )
        },
        _ => None,
    }
}

/// Reports `outcome` for the claimed job of `job`'s token: the job takes
/// the status of the outcome, and the hash of a mint, where one is
/// known, is recorded on it. Without a claimed job for the token nothing
/// changes and `NotProcessing` comes back.
pub fn report(queue: &mut InMemoryQueueManager, job: &QueueItem, outcome: Outcome) -> (r: Result<
    QueueItem,
    QueueError,
>)
    requires
        old(queue).wf(),
    ensures
        final(queue).wf(),
        final(queue).limit() == old(queue).limit(),
        match r {
            Ok(done) => {
                &&& in_progress(old(queue)@, job@.wallet, job@.project, job@.token)
                &&& final(queue)@ == after_report(
                    old(queue)@,
                    job@.wallet,
                    job@.project,
                    job@.token,
                    outcome@.status(),
                    outcome@.hash(),
                )
                &&& done@ == settled(
                    old(queue)@[progress_place(old(queue)@, job@.wallet, job@.project, job@.token)],
                    outcome@.status(),
                    outcome@.hash(),
                )
            },
            Err(e) => {
                &&& e == QueueError::NotProcessing
                &&& !in_progress(old(queue)@, job@.wallet, job@.project, job@.token)
                &&& final(queue)@ == old(queue)@
            },
        },
{
    let wallet = job.keplr_wallet_pubkey.as_str();
    let project = job.project_id.as_str();
    let token = job.token_id.as_str();
    match outcome {
        Outcome::Failed => queue.mark_error(wallet, project, token),
        Outcome::AlreadyMinted => queue.mark_success(wallet, project, token, None),
        Outcome::Minted { transaction_hash } => queue.mark_success(
            wallet,
            project,
            token,
            transaction_hash,
        ),
    }
}

/// The destination side after a worker is done with a token: minted to
/// `destination` if it was missing, untouched if it was there.
pub open spec fn chain_after(
    chain: Map<(Seq<char>, Seq<char>), Seq<char>>,
    project: Seq<char>,
    token: Seq<char>,
    destination: Seq<char>,
) -> Map<(Seq<char>, Seq<char>), Seq<char>> {
    if chain.contains_key((project, token)) {
        chain
    } else {
        chain.insert((project, token), destination)
    }
}

/// The customer's keys after a worker is done with a token: the token
/// merged in if it was minted now, untouched if it was there already.
pub open spec fn keys_after(
    keys: Map<(Seq<char>, Seq<char>), Seq<Seq<char>>>,
    chain: Map<(Seq<char>, Seq<char>), Seq<char>>,
    job: QueueItemView,
) -> Map<(Seq<char>, Seq<char>), Seq<Seq<char>>> {
    if chain.contains_key((job.project, job.token)) {
        keys
    } else {
        keys.insert(
            (job.wallet, job.project),
            merge_tokens(
                if keys.contains_key((job.wallet, job.project)) {
                    keys[(job.wallet, job.project)]
                } else {
                    Seq::empty()
                },
                seq![job.token],
            ),
        )
    }
}

/// A token is minted at most once: once one worker is done with it, a
/// second worker finds it there and changes nothing, whatever account it
/// would have minted to.
pub proof fn lemma_second_worker_does_not_mint(
    chain: Map<(Seq<char>, Seq<char>), Seq<char>>,
    project: Seq<char>,
    token: Seq<char>,
    first: Seq<char>,
    second: Seq<char>,
)
    ensures
        chain_after(chain, project, token, first).contains_key((project, token)),
        chain_after(chain_after(chain, project, token, first), project, token, second) == chain_after(
            chain,
            project,
            token,
            first,
        ),
{
}

/// Runs one claimed job to its end against the stores held in memory.
///
/// Without a claimed job for the token of `job`, nothing is touched and
/// `NotProcessing` comes back. Otherwise the destination side is asked
/// for the token. If it is there, the job becomes `Success` and nothing
/// is minted or saved. If it is missing, it is minted to `destination`,
/// the job becomes `Success`, and the token is merged into the keys of
/// the job's wallet and project. The job as it then stands comes back.
pub fn process_job(
    job: &QueueItem,
    destination: &str,
    queue: &mut InMemoryQueueManager,
    chain: &mut InMemoryStarknetTransactionManager,
    data: &mut InMemoryDataRepository,
) -> (r: Result<QueueItem, QueueError>)
    requires
        old(queue).wf(),
        old(chain).wf(),
        old(data).wf(),
    ensures
        final(queue).wf(),
        final(chain).wf(),
        final(data).wf(),
        final(queue).limit() == old(queue).limit(),
        match r {
            Ok(done) => {
                &&& in_progress(old(queue)@, job@.wallet, job@.project, job@.token)
                &&& final(queue)@ == after_report(
                    old(queue)@,
                    job@.wallet,
                    job@.project,
                    job@.token,
                    QueueStatus::Success,
                    None,
                )
                &&& done@ == old(queue)@[progress_place(
                    old(queue)@,
                    job@.wallet,
                    job@.project,
                    job@.token,
                )].succeeded(None)
                &&& final(chain)@ == chain_after(old(chain)@, job@.project, job@.token, destination@)
                &&& final(data)@ == keys_after(old(data)@, old(chain)@, job@)
            },
            Err(e) => {
                &&& e == QueueError::NotProcessing
                &&& !in_progress(old(queue)@, job@.wallet, job@.project, job@.token)
                &&& final(queue)@ == old(queue)@
                &&& final(chain)@ == old(chain)@
                &&& final(data)@ == old(data)@
            },
        },
{
    let wallet = job.keplr_wallet_pubkey.as_str();
    let project = job.project_id.as_str();
    let token = job.token_id.as_str();
    if !queue.is_claimed(wallet, project, token) {
        return Err(QueueError::NotProcessing);
    }
    let outcome = match after_check(chain.project_has_token(project, token)) {
        Some(outcome) => outcome,
        None => after_mint(chain.mint_project_token(project, token, destination)),
    };
    match keys_to_save(job, &outcome) {
        Some(keys) => {
            let _ = data.save_customer_keys(keys);
        },
        None => {},
    }
    report(queue, job, outcome)
}

} // verus!
