//! The queue held in memory: one owned list of jobs, kept in the order
//! in which they were recorded and never shortened.

use vstd::prelude::*;
use crate::domain::bridge::{QueueError, QueueItem, QueueItemView, QueueStatus};
use crate::domain::queue::{
    advanced, after_claim, after_report, batch, batch_upto, claims, customer_state, enqueue_all, enqueue_one,
    in_progress, lemma_batch_len, lemma_claim_advances, lemma_enqueue_extends,
    lemma_enqueue_keeps_one_live_job_each, lemma_progress_place, one_live_job_each, progress_place,
    settled, tracks,
};
use crate::text::{option_view, same_text};

verus! {

/// The jobs of every customer, and how many a worker may claim at once.
#[derive(Debug)]
pub struct InMemoryQueueManager {
    items: Vec<QueueItem>,
    batch_size: u8,
}

impl View for InMemoryQueueManager {
    type V = Seq<QueueItemView>;

    closed spec fn view(&self) -> Seq<QueueItemView> {
        self.items.deep_view()
    }
}

impl InMemoryQueueManager {
    /// No token has two live jobs. Every queue made and changed through
    /// this module is well formed.
    pub closed spec fn wf(&self) -> bool {
        one_live_job_each(self.items.deep_view())
    }

    /// The most jobs that one claim hands out.
    pub closed spec fn limit(&self) -> nat {
        self.batch_size as nat
    }

    /// An empty queue whose claims hand out at most `batch_size` jobs.
    pub fn new(batch_size: u8) -> (r: Self)
        ensures
            r.wf(),
            r.limit() == batch_size,
            r@ == Seq::<QueueItemView>::empty(),
    {
        let r = InMemoryQueueManager { items: Vec::new(), batch_size };
        assert(r@ =~= Seq::<QueueItemView>::empty());
        r
    }

    /// The most jobs that one claim hands out.
    pub fn batch_size(&self) -> (r: u8)
        ensures
            r == self.limit(),
    {
        self.batch_size
    }

    /// Whether a claimed job for the token is queued.
    pub fn is_claimed(&self, keplr_wallet_pubkey: &str, project_id: &str, token_id: &str) -> (r: bool)
        ensures
            r == in_progress(self@, keplr_wallet_pubkey@, project_id@, token_id@),
    {
        match self.find(keplr_wallet_pubkey, project_id, token_id, true) {
            Some(at) => {
                assert(self@[at as int] == self.items[at as int]@);
                assert(self@[at as int].is_job(keplr_wallet_pubkey@, project_id@, token_id@));
                true
            },
            None => false,
        }
    }

    /// How many jobs were ever recorded.
    pub fn len(&self) -> (r: usize)
        ensures
            r == self@.len(),
    {
        self.items.len()
    }

    fn find(&self, wallet: &str, project: &str, token: &str, claimed_only: bool) -> (r: Option<usize>)
        ensures
            match r {
                Some(i) => i < self.items.len() && self.items[i as int]@.is_job(wallet@, project@, token@)
                    && if claimed_only {
                    self.items[i as int]@.status == QueueStatus::Processing
                } else {
                    self.items[i as int]@.live()
                },
                None => if claimed_only {
                    !in_progress(self@, wallet@, project@, token@)
                } else {
                    !tracks(self@, wallet@, project@, token@)
                },
            },
    {
        let mut i: usize = 0;
        while i < self.items.len()
            invariant
                i <= self.items.len(),
                forall|k: int|
                    0 <= k < i ==> !((#[trigger] self.items[k])@.is_job(wallet@, project@, token@)
                        && if claimed_only {
                        self.items[k]@.status == QueueStatus::Processing
                    } else {
                        self.items[k]@.live()
                    }),
            decreases self.items.len() - i,
        {
            let item = &self.items[i];
            let wanted = match item.status {
                QueueStatus::Processing => true,
                QueueStatus::Error => false,
                _ => !claimed_only,
            };
            if wanted && same_text(item.keplr_wallet_pubkey.as_str(), wallet) && same_text(
                item.project_id.as_str(),
                project,
            ) && same_text(item.token_id.as_str(), token) {
                return Some(i);
            }
            i = i + 1;
        }
        assert forall|k: int| 0 <= k < self@.len() implies !(#[trigger] self@[k].is_job(
            wallet@,
            project@,
            token@,
        ) && if claimed_only {
            self@[k].status == QueueStatus::Processing
        } else {
            self@[k].live()
        }) by {
            assert(self@[k] == self.items[k]@);
        }
        None
    }

    /// Records one pending job for each token of `token_ids` that has no
    /// live job yet, in the order given, and gives back, token by token,
    /// the live job that now stands for it: the new one, or the one that
    /// was there. The whole request is recorded in one step. Never fails.
    pub fn enqueue(&mut self, keplr_wallet_pubkey: &str, project_id: &str, token_ids: Vec<String>) -> (r:
        Result<Vec<QueueItem>, QueueError>)
        requires
            old(self).wf(),
        ensures
            final(self).wf(),
            final(self).limit() == old(self).limit(),
            final(self)@ == enqueue_all(
                old(self)@,
                keplr_wallet_pubkey@,
                project_id@,
                token_ids.deep_view(),
            ),
            advanced(old(self)@, final(self)@),
            r matches Ok(jobs) && jobs.len() == token_ids.len() && forall|k: int|
                0 <= k < jobs.len() ==> final(self)@.contains((#[trigger] jobs[k])@) && jobs[k]@.is_job(
                    keplr_wallet_pubkey@,
                    project_id@,
                    token_ids[k]@,
                ) && jobs[k]@.live(),
    {
        let ghost start = self@;
        let ghost tokens = token_ids.deep_view();
        let mut jobs: Vec<QueueItem> = Vec::new();
        let mut i: usize = 0;
        assert(tokens.take(0) =~= Seq::<Seq<char>>::empty());
        while i < token_ids.len()
            invariant
                i <= token_ids.len(),
                tokens == token_ids.deep_view(),
                self.batch_size == old(self).batch_size,
                self@ == enqueue_all(start, keplr_wallet_pubkey@, project_id@, tokens.take(i as int)),
                jobs.len() == i,
                forall|k: int|
                    0 <= k < i ==> self@.contains((#[trigger] jobs[k])@) && jobs[k]@.is_job(
                        keplr_wallet_pubkey@,
                        project_id@,
                        token_ids[k]@,
                    ) && jobs[k]@.live(),
            decreases token_ids.len() - i,
        {
            let ghost before = self@;
            let ghost earlier = jobs@;
            assert(tokens.take(i + 1).drop_last() =~= tokens.take(i as int));
            assert(tokens.take(i + 1).last() == token_ids[i as int]@);
            match self.find(keplr_wallet_pubkey, project_id, token_ids[i].as_str(), false) {
                Some(at) => {
                    assert(before[at as int] == self.items[at as int]@);
                    assert(tracks(before, keplr_wallet_pubkey@, project_id@, token_ids[i as int]@));
                    jobs.push(self.items[at].clone());
                },
                None => {
                    let job = QueueItem::new(keplr_wallet_pubkey, project_id, token_ids[i].clone());
                    jobs.push(job.clone());
                    self.items.push(job);
                    assert(self@ =~= before.push(
                        QueueItemView::pending(keplr_wallet_pubkey@, project_id@, token_ids[i as int]@),
                    ));
                    assert(self@[before.len() as int] == jobs[i as int]@);
                },
            }
            assert(self@ == enqueue_one(before, keplr_wallet_pubkey@, project_id@, token_ids[i as int]@));
            assert forall|k: int| 0 <= k < i implies self@.contains((#[trigger] jobs[k])@) by {
                assert(jobs[k] == earlier[k]);
                let at = choose|at: int| 0 <= at < before.len() && before[at] == earlier[k]@;
                assert(self@[at] == before[at]);
            }
            i = i + 1;
        }
        proof {
            assert(tokens.take(i as int) =~= tokens);
            lemma_enqueue_keeps_one_live_job_each(start, keplr_wallet_pubkey@, project_id@, tokens);
            lemma_enqueue_extends(start, keplr_wallet_pubkey@, project_id@, tokens);
        }
        Ok(jobs)
    }

    /// Claims the first pending jobs, at most `batch_size` of them: each
    /// becomes `Processing` in the queue and is handed out as it then
    /// stands. A job handed out is pending no more, so no later claim
    /// hands it out again. Never fails.
    pub fn get_batch(&mut self) -> (r: Result<Vec<QueueItem>, QueueError>)
        requires
            old(self).wf(),
        ensures
            final(self).wf(),
            final(self).limit() == old(self).limit(),
            final(self)@ == after_claim(old(self)@, old(self).limit()),
            advanced(old(self)@, final(self)@),
            r matches Ok(jobs) && jobs.deep_view() == batch(old(self)@, old(self).limit()) && jobs.len()
                <= old(self).limit(),
    {
        let ghost start = self@;
        let ghost limit = self.limit();
        let mut jobs: Vec<QueueItem> = Vec::new();
        let mut i: usize = 0;
        assert(jobs.deep_view() =~= Seq::<QueueItemView>::empty());
        while i < self.items.len()
            invariant
                i <= self.items.len(),
                self.items.len() == start.len(),
                self.batch_size == old(self).batch_size,
                limit == self.batch_size,
                jobs.deep_view() == batch_upto(start, limit, i as int),
                forall|k: int| 0 <= k < i ==> (#[trigger] self@[k]) == after_claim(start, limit)[k],
                forall|k: int| i <= k < start.len() ==> (#[trigger] self@[k]) == start[k],
            decreases self.items.len() - i,
        {
            let ghost before = self@;
            let ghost earlier = jobs.deep_view();
            proof {
                lemma_batch_len(start, limit, i as int);
                assert(before[i as int] == self.items[i as int]@);
                assert(jobs.deep_view().len() == jobs.len());
            }
            let pending = match self.items[i].status {
                QueueStatus::Pending => true,
                _ => false,
            };
            if pending && jobs.len() < self.batch_size as usize {
                assert(claims(start, limit, i as int));
                let claimed = self.items[i].with_status(QueueStatus::Processing);
                jobs.push(claimed.clone());
                self.items.set(i, claimed);
                assert(jobs.deep_view() =~= earlier.push(start[i as int].with_status(QueueStatus::Processing)));
                assert(self@ =~= before.update(i as int, start[i as int].with_status(QueueStatus::Processing)));
            } else {
                assert(!claims(start, limit, i as int));
            }
            i = i + 1;
        }
        proof {
            assert(self@ =~= after_claim(start, limit));
            lemma_claim_advances(start, limit);
            lemma_batch_len(start, limit, start.len() as int);
            assert(jobs.deep_view().len() == jobs.len());
        }
        Ok(jobs)
    }

    /// The jobs of one wallet and project, in the order in which they
    /// were recorded. Reads only.
    pub fn get_customer_migration_state(&self, keplr_wallet_pubkey: &str, project_id: &str) -> (r: Vec<
        QueueItem,
    >)
        ensures
            r.deep_view() == customer_state(self@, keplr_wallet_pubkey@, project_id@),
    {
        let ghost all = self@;
        let mut found: Vec<QueueItem> = Vec::new();
        let mut i: usize = 0;
        assert(all.take(0) =~= Seq::<QueueItemView>::empty());
        assert(found.deep_view() =~= Seq::<QueueItemView>::empty());
        while i < self.items.len()
            invariant
                i <= self.items.len(),
                all == self@,
                found.deep_view() == customer_state(all.take(i as int), keplr_wallet_pubkey@, project_id@),
            decreases self.items.len() - i,
        {
            let ghost before = found.deep_view();
            assert(all.take(i + 1).drop_last() =~= all.take(i as int));
            assert(all.take(i + 1).last() == self.items[i as int]@);
            let item = &self.items[i];
            if same_text(item.keplr_wallet_pubkey.as_str(), keplr_wallet_pubkey) && same_text(
                item.project_id.as_str(),
                project_id,
            ) {
                found.push(item.clone());
                assert(found.deep_view() =~= before.push(self.items[i as int]@));
            }
            i = i + 1;
        }
        assert(all.take(i as int) =~= all);
        found
    }

    fn settle(
        &mut self,
        wallet: &str,
        project: &str,
        token: &str,
        to: QueueStatus,
        hash: &Option<String>,
    ) -> (r: Result<QueueItem, QueueError>)
        requires
            old(self).wf(),
            to != QueueStatus::Processing,
        ensures
            final(self).wf(),
            final(self).limit() == old(self).limit(),
            advanced(old(self)@, final(self)@),
            match r {
                Ok(job) => in_progress(old(self)@, wallet@, project@, token@) && final(self)@
                    == after_report(old(self)@, wallet@, project@, token@, to, option_view(*hash))
                    && job@ == settled(
                    old(self)@[progress_place(old(self)@, wallet@, project@, token@)],
                    to,
                    option_view(*hash),
                ),
                Err(e) => e == QueueError::NotProcessing && !in_progress(
                    old(self)@,
                    wallet@,
                    project@,
                    token@,
                ) && final(self)@ == old(self)@,
            },
    {
        let ghost before = self@;
        match self.find(wallet, project, token, true) {
            Some(at) => {
                proof {
                    assert(before[at as int] == self.items[at as int]@);
                    lemma_progress_place(before, at as int);
                }
                let updated = match to {
                    QueueStatus::Success => self.items[at].succeeded(hash),
                    _ => self.items[at].with_status(to),
                };
                let job = updated.clone();
                self.items.set(at, updated);
                proof {
                    let after = self@;
                    assert(after =~= before.update(at as int, job@));
                    assert forall|i: int, j: int|
                        0 <= i < j < after.len() && #[trigger] after[i].live() && #[trigger] after[j].live() implies !after[i].same_job(
                        after[j],
                    ) by {
                        assert(before[i].live() && before[j].live());
                    }
                }
                Ok(job)
            },
            None => Err(QueueError::NotProcessing),
        }
    }

    /// Reports the claimed job for the token done. The job becomes
    /// `Success`, and `transaction_hash`, where known, is recorded on it.
    /// Without a claimed job for the token nothing changes and
    /// `NotProcessing` comes back.
    pub fn mark_success(
        &mut self,
        keplr_wallet_pubkey: &str,
        project_id: &str,
        token_id: &str,
        transaction_hash: Option<String>,
    ) -> (r: Result<QueueItem, QueueError>)
        requires
            old(self).wf(),
        ensures
            final(self).wf(),
            final(self).limit() == old(self).limit(),
            advanced(old(self)@, final(self)@),
            match r {
                Ok(job) => in_progress(old(self)@, keplr_wallet_pubkey@, project_id@, token_id@)
                    && final(self)@ == after_report(
                    old(self)@,
                    keplr_wallet_pubkey@,
                    project_id@,
                    token_id@,
                    QueueStatus::Success,
                    option_view(transaction_hash),
                ) && job@ == old(self)@[progress_place(
                    old(self)@,
                    keplr_wallet_pubkey@,
                    project_id@,
                    token_id@,
                )].succeeded(option_view(transaction_hash)),
                Err(e) => e == QueueError::NotProcessing && !in_progress(
                    old(self)@,
                    keplr_wallet_pubkey@,
                    project_id@,
                    token_id@,
                ) && final(self)@ == old(self)@,
            },
    {
        self.settle(keplr_wallet_pubkey, project_id, token_id, QueueStatus::Success, &transaction_hash)
    }

    /// Reports the claimed job for the token failed. The job becomes
    /// `Error` and stays in the queue as a record; the token may then be
    /// requested again. Without a claimed job for the token nothing
    /// changes and `NotProcessing` comes back.
    pub fn mark_error(&mut self, keplr_wallet_pubkey: &str, project_id: &str, token_id: &str) -> (r: Result<
        QueueItem,
        QueueError,
    >)
        requires
            old(self).wf(),
        ensures
            final(self).wf(),
            final(self).limit() == old(self).limit(),
            advanced(old(self)@, final(self)@),
            match r {
                Ok(job) => in_progress(old(self)@, keplr_wallet_pubkey@, project_id@, token_id@)
                    && final(self)@ == after_report(
                    old(self)@,
                    keplr_wallet_pubkey@,
                    project_id@,
                    token_id@,
                    QueueStatus::Error,
                    None,
                ) && job@ == old(self)@[progress_place(
                    old(self)@,
                    keplr_wallet_pubkey@,
                    project_id@,
                    token_id@,
                )].with_status(QueueStatus::Error),
                Err(e) => e == QueueError::NotProcessing && !in_progress(
                    old(self)@,
                    keplr_wallet_pubkey@,
                    project_id@,
                    token_id@,
                ) && final(self)@ == old(self)@,
            },
    {
        let none: Option<String> = None;
        self.settle(keplr_wallet_pubkey, project_id, token_id, QueueStatus::Error, &none)
    }

    /// Hands the claimed job for the token back: it becomes `Pending`
    /// again, for a later claim to take. For a job whose worker never
    /// reported. Without a claimed job for the token nothing changes and
    /// `NotProcessing` comes back.
    pub fn release(&mut self, keplr_wallet_pubkey: &str, project_id: &str, token_id: &str) -> (r: Result<
        QueueItem,
        QueueError,
    >)
        requires
            old(self).wf(),
        ensures
            final(self).wf(),
            final(self).limit() == old(self).limit(),
            advanced(old(self)@, final(self)@),
            match r {
                Ok(job) => in_progress(old(self)@, keplr_wallet_pubkey@, project_id@, token_id@)
                    && final(self)@ == after_report(
                    old(self)@,
                    keplr_wallet_pubkey@,
                    project_id@,
                    token_id@,
                    QueueStatus::Pending,
                    None,
                ) && job@ == old(self)@[progress_place(
                    old(self)@,
                    keplr_wallet_pubkey@,
                    project_id@,
                    token_id@,
                )].with_status(QueueStatus::Pending),
                Err(e) => e == QueueError::NotProcessing && !in_progress(
                    old(self)@,
                    keplr_wallet_pubkey@,
                    project_id@,
                    token_id@,
                ) && final(self)@ == old(self)@,
            },
    {
        let none: Option<String> = None;
        self.settle(keplr_wallet_pubkey, project_id, token_id, QueueStatus::Pending, &none)
    }
}

} // verus!
