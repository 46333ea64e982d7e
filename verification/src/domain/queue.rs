//! The queue as mathematics: what enqueueing, claiming a batch and
//! reporting an outcome do to a sequence of jobs, and the laws that hold
//! of them. The stores are verified against these functions.

use vstd::prelude::*;
use crate::domain::bridge::{allowed, QueueItemView, QueueStatus};

verus! {

/// Whether a live job for `token` of `project` and `wallet` is queued.
pub open spec fn tracks(
    queue: Seq<QueueItemView>,
    wallet: Seq<char>,
    project: Seq<char>,
    token: Seq<char>,
) -> bool {
    exists|i: int| 0 <= i < queue.len() && #[trigger] queue[i].is_job(wallet, project, token) && queue[i].live()
}

/// No token of a project and wallet has two live jobs. Failed jobs stay
/// as a record and may share their token with one live job.
pub open spec fn one_live_job_each(queue: Seq<QueueItemView>) -> bool {
    forall|i: int, j: int|
        0 <= i < j < queue.len() && #[trigger] queue[i].live() && #[trigger] queue[j].live()
            ==> !queue[i].same_job(queue[j])
}

/// The pending jobs for `tokens`, in their order.
pub open spec fn pending_jobs(wallet: Seq<char>, project: Seq<char>, tokens: Seq<Seq<char>>) -> Seq<
    QueueItemView,
> {
    Seq::new(tokens.len(), |k: int| QueueItemView::pending(wallet, project, tokens[k]))
}

/// The queue after a request for one token: a new pending job at the
/// end, unless a live job for the token is queued already.
pub open spec fn enqueue_one(
    queue: Seq<QueueItemView>,
    wallet: Seq<char>,
    project: Seq<char>,
    token: Seq<char>,
) -> Seq<QueueItemView> {
    if tracks(queue, wallet, project, token) {
        queue
    } else {
        queue.push(QueueItemView::pending(wallet, project, token))
    }
}

/// The queue after a request for `tokens`, taken one by one in order.
pub open spec fn enqueue_all(
    queue: Seq<QueueItemView>,
    wallet: Seq<char>,
    project: Seq<char>,
    tokens: Seq<Seq<char>>,
) -> Seq<QueueItemView>
    decreases tokens.len(),
{
    if tokens.len() == 0 {
        queue
    } else {
        enqueue_one(enqueue_all(queue, wallet, project, tokens.drop_last()), wallet, project, tokens.last())
    }
}

/// The jobs of one wallet and project, in queue order.
pub open spec fn customer_state(queue: Seq<QueueItemView>, wallet: Seq<char>, project: Seq<char>) -> Seq<
    QueueItemView,
>
    decreases queue.len(),
{
    if queue.len() == 0 {
        Seq::empty()
    } else {
        let before = customer_state(queue.drop_last(), wallet, project);
        if queue.last().wallet == wallet && queue.last().project == project {
            before.push(queue.last())
        } else {
            before
        }
    }
}

/// How many of the first `n` jobs are pending.
pub open spec fn pending_before(queue: Seq<QueueItemView>, n: int) -> nat
    decreases n,
{
    if n <= 0 {
        0
    } else {
        pending_before(queue, n - 1) + if queue[n - 1].status == QueueStatus::Pending {
            1nat
        } else {
            0nat
        }
    }
}

/// Whether a claim of at most `limit` jobs takes the job at `i`: the
/// first `limit` pending jobs are taken, in queue order.
pub open spec fn claims(queue: Seq<QueueItemView>, limit: nat, i: int) -> bool {
    0 <= i < queue.len() && queue[i].status == QueueStatus::Pending && pending_before(queue, i) < limit
}

/// The queue after a claim of at most `limit` jobs: the claimed jobs are
/// `Processing`, the others as before.
pub open spec fn after_claim(queue: Seq<QueueItemView>, limit: nat) -> Seq<QueueItemView> {
    Seq::new(
        queue.len(),
        |i: int|
            if claims(queue, limit, i) {
                queue[i].with_status(QueueStatus::Processing)
            } else {
                queue[i]
            },
    )
}

/// The jobs that a claim of at most `limit` takes among the first `n`,
/// as they stand after the claim.
pub open spec fn batch_upto(queue: Seq<QueueItemView>, limit: nat, n: int) -> Seq<QueueItemView>
    decreases n,
{
    if n <= 0 {
        Seq::empty()
    } else {
        let before = batch_upto(queue, limit, n - 1);
        if claims(queue, limit, n - 1) {
            before.push(queue[n - 1].with_status(QueueStatus::Processing))
        } else {
            before
        }
    }
}

/// The batch handed to the worker by a claim of at most `limit` jobs.
pub open spec fn batch(queue: Seq<QueueItemView>, limit: nat) -> Seq<QueueItemView> {
    batch_upto(queue, limit, queue.len() as int)
}

/// Whether a claimed job for the token is queued.
pub open spec fn in_progress(
    queue: Seq<QueueItemView>,
    wallet: Seq<char>,
    project: Seq<char>,
    token: Seq<char>,
) -> bool {
    exists|i: int|
        0 <= i < queue.len() && #[trigger] queue[i].is_job(wallet, project, token) && queue[i].status
            == QueueStatus::Processing
}

/// Where the claimed job for the token stands.
pub open spec fn progress_place(
    queue: Seq<QueueItemView>,
    wallet: Seq<char>,
    project: Seq<char>,
    token: Seq<char>,
) -> int {
    choose|i: int|
        0 <= i < queue.len() && #[trigger] queue[i].is_job(wallet, project, token) && queue[i].status
            == QueueStatus::Processing
}

/// A job as it stands once its outcome is reported.
pub open spec fn settled(job: QueueItemView, to: QueueStatus, hash: Option<Seq<char>>) -> QueueItemView {
    if to == QueueStatus::Success {
        job.succeeded(hash)
    } else {
        job.with_status(to)
    }
}

/// The queue after the claimed job for the token is settled.
pub open spec fn after_report(
    queue: Seq<QueueItemView>,
    wallet: Seq<char>,
    project: Seq<char>,
    token: Seq<char>,
    to: QueueStatus,
    hash: Option<Seq<char>>,
) -> Seq<QueueItemView> {
    let place = progress_place(queue, wallet, project, token);
    queue.update(place, settled(queue[place], to, hash))
}

/// A report settles one job and touches no other: the jobs of the
/// same wallet and project go on independently.
pub proof fn lemma_report_touches_one_job(
    queue: Seq<QueueItemView>,
    wallet: Seq<char>,
    project: Seq<char>,
    token: Seq<char>,
    to: QueueStatus,
    hash: Option<Seq<char>>,
    i: int,
)
    requires
        in_progress(queue, wallet, project, token),
        0 <= i < queue.len(),
        i != progress_place(queue, wallet, project, token),
    ensures
        after_report(queue, wallet, project, token, to, hash).len() == queue.len(),
        after_report(queue, wallet, project, token, to, hash)[i] == queue[i],
{
}

/// Every job is still there, still the same job, and has moved only as
/// the life cycle allows; jobs may have been added at the end.
pub open spec fn advanced(before: Seq<QueueItemView>, after: Seq<QueueItemView>) -> bool {
    &&& before.len() <= after.len()
    &&& forall|i: int|
        0 <= i < before.len() ==> (#[trigger] after[i]).same_job(before[i]) && (after[i].status
            == before[i].status || allowed(before[i].status, after[i].status))
}

/// In a well-formed queue the claimed job for a token is at one place
/// only.
pub proof fn lemma_progress_place(queue: Seq<QueueItemView>, i: int)
    requires
        one_live_job_each(queue),
        0 <= i < queue.len(),
        queue[i].status == QueueStatus::Processing,
    ensures
        in_progress(queue, queue[i].wallet, queue[i].project, queue[i].token),
        progress_place(queue, queue[i].wallet, queue[i].project, queue[i].token) == i,
{
    assert(queue[i].is_job(queue[i].wallet, queue[i].project, queue[i].token));
    let j = progress_place(queue, queue[i].wallet, queue[i].project, queue[i].token);
    if j < i {
        assert(queue[j].live() && queue[i].live());
    }
    if i < j {
        assert(queue[i].live() && queue[j].live());
    }
}

/// A request leaves the jobs already queued as they were.
pub proof fn lemma_enqueue_extends(
    queue: Seq<QueueItemView>,
    wallet: Seq<char>,
    project: Seq<char>,
    tokens: Seq<Seq<char>>,
)
    ensures
        queue.len() <= enqueue_all(queue, wallet, project, tokens).len(),
        enqueue_all(queue, wallet, project, tokens).take(queue.len() as int) == queue,
        advanced(queue, enqueue_all(queue, wallet, project, tokens)),
        forall|i: int|
            queue.len() <= i < enqueue_all(queue, wallet, project, tokens).len() ==> (
            #[trigger] enqueue_all(queue, wallet, project, tokens)[i]).status == QueueStatus::Pending
                && enqueue_all(queue, wallet, project, tokens)[i].wallet == wallet && enqueue_all(
                queue,
                wallet,
                project,
                tokens,
            )[i].project == project,
    decreases tokens.len(),
{
    if tokens.len() > 0 {
        let mid = enqueue_all(queue, wallet, project, tokens.drop_last());
        lemma_enqueue_extends(queue, wallet, project, tokens.drop_last());
        let end = enqueue_all(queue, wallet, project, tokens);
        assert(end.take(queue.len() as int) =~= mid.take(queue.len() as int));
        assert forall|i: int| 0 <= i < queue.len() implies (#[trigger] end[i]).same_job(queue[i])
            && end[i].status == queue[i].status by {
            assert(end[i] == mid[i]);
        }
        assert forall|i: int| queue.len() <= i < end.len() implies (#[trigger] end[i]).status
            == QueueStatus::Pending && end[i].wallet == wallet && end[i].project == project by {
            if i < mid.len() {
                assert(end[i] == mid[i]);
            }
        }
    } else {
        assert(queue.take(queue.len() as int) =~= queue);
    }
}

/// A request keeps the queue well formed.
pub proof fn lemma_enqueue_keeps_one_live_job_each(
    queue: Seq<QueueItemView>,
    wallet: Seq<char>,
    project: Seq<char>,
    tokens: Seq<Seq<char>>,
)
    requires
        one_live_job_each(queue),
    ensures
        one_live_job_each(enqueue_all(queue, wallet, project, tokens)),
    decreases tokens.len(),
{
    if tokens.len() > 0 {
        let mid = enqueue_all(queue, wallet, project, tokens.drop_last());
        lemma_enqueue_keeps_one_live_job_each(queue, wallet, project, tokens.drop_last());
        let end = enqueue_all(queue, wallet, project, tokens);
        if !tracks(mid, wallet, project, tokens.last()) {
            assert forall|i: int, j: int|
                0 <= i < j < end.len() && #[trigger] end[i].live() && #[trigger] end[j].live() implies !end[i].same_job(
                end[j],
            ) by {
                if j == mid.len() {
                    assert(end[i] == mid[i]);
                    if end[i].same_job(end[j]) {
                        assert(mid[i].is_job(wallet, project, tokens.last()));
                    }
                } else {
                    assert(end[i] == mid[i] && end[j] == mid[j]);
                    assert(mid[i].live() && mid[j].live());
                }
            }
        }
    }
}

/// After a request a live job is queued for each of its tokens, and
/// every token that had one keeps it.
pub proof fn lemma_enqueue_tracks(
    queue: Seq<QueueItemView>,
    wallet: Seq<char>,
    project: Seq<char>,
    tokens: Seq<Seq<char>>,
)
    ensures
        forall|k: int|
            0 <= k < tokens.len() ==> tracks(
                enqueue_all(queue, wallet, project, tokens),
                wallet,
                project,
                #[trigger] tokens[k],
            ),
        forall|w: Seq<char>, p: Seq<char>, t: Seq<char>| #[trigger]
            tracks(queue, w, p, t) ==> tracks(enqueue_all(queue, wallet, project, tokens), w, p, t),
    decreases tokens.len(),
{
    let end = enqueue_all(queue, wallet, project, tokens);
    lemma_enqueue_extends(queue, wallet, project, tokens);
    assert forall|w: Seq<char>, p: Seq<char>, t: Seq<char>| #[trigger] tracks(queue, w, p, t) implies tracks(
        end,
        w,
        p,
        t,
    ) by {
        let i = choose|i: int| 0 <= i < queue.len() && #[trigger] queue[i].is_job(w, p, t) && queue[i].live();
        assert(end.take(queue.len() as int)[i] == end[i]);
        assert(end[i].is_job(w, p, t) && end[i].live());
    }
    if tokens.len() > 0 {
        let front = tokens.drop_last();
        let mid = enqueue_all(queue, wallet, project, front);
        lemma_enqueue_tracks(queue, wallet, project, front);
        assert forall|k: int| 0 <= k < tokens.len() implies tracks(
            end,
            wallet,
            project,
            #[trigger] tokens[k],
        ) by {
            if k < front.len() {
                assert(front[k] == tokens[k]);
                assert(tracks(mid, wallet, project, tokens[k]));
                if !tracks(mid, wallet, project, tokens.last()) {
                    let i = choose|i: int|
                        0 <= i < mid.len() && #[trigger] mid[i].is_job(wallet, project, tokens[k])
                            && mid[i].live();
                    assert(end[i] == mid[i]);
                    assert(end[i].is_job(wallet, project, tokens[k]) && end[i].live());
                }
            } else {
                assert(tokens[k] == tokens.last());
                if !tracks(mid, wallet, project, tokens.last()) {
                    assert(end[mid.len() as int].is_job(wallet, project, tokens.last()) && end[mid.len() as int].live());
                }
            }
        }
    }
}

/// A request for tokens that all have a live job changes nothing: a
/// token whose job is pending, claimed or done is not queued again.
pub proof fn lemma_enqueue_again(
    queue: Seq<QueueItemView>,
    wallet: Seq<char>,
    project: Seq<char>,
    tokens: Seq<Seq<char>>,
)
    requires
        forall|k: int| 0 <= k < tokens.len() ==> tracks(queue, wallet, project, #[trigger] tokens[k]),
    ensures
        enqueue_all(queue, wallet, project, tokens) == queue,
    decreases tokens.len(),
{
    if tokens.len() > 0 {
        let front = tokens.drop_last();
        assert forall|k: int| 0 <= k < front.len() implies tracks(queue, wallet, project, #[trigger] front[k]) by {
            assert(front[k] == tokens[k]);
        }
        lemma_enqueue_again(queue, wallet, project, front);
        assert(tokens.last() == tokens[tokens.len() - 1]);
    }
}

/// A token whose job is done is not queued a second time: the request
/// leaves the queue as it is.
pub proof fn lemma_done_token_is_not_requeued(queue: Seq<QueueItemView>, i: int)
    requires
        0 <= i < queue.len(),
        queue[i].status == QueueStatus::Success,
    ensures
        enqueue_all(queue, queue[i].wallet, queue[i].project, seq![queue[i].token]) == queue,
{
    let tokens = seq![queue[i].token];
    assert(queue[i].is_job(queue[i].wallet, queue[i].project, queue[i].token) && queue[i].live());
    assert forall|k: int| 0 <= k < tokens.len() implies tracks(
        queue,
        queue[i].wallet,
        queue[i].project,
        #[trigger] tokens[k],
    ) by {
        assert(tokens[k] == queue[i].token);
    }
    lemma_enqueue_again(queue, queue[i].wallet, queue[i].project, tokens);
}

/// The same request made twice queues nothing the second time.
pub proof fn lemma_enqueue_twice(
    queue: Seq<QueueItemView>,
    wallet: Seq<char>,
    project: Seq<char>,
    tokens: Seq<Seq<char>>,
)
    ensures
        enqueue_all(enqueue_all(queue, wallet, project, tokens), wallet, project, tokens) == enqueue_all(
            queue,
            wallet,
            project,
            tokens,
        ),
{
    lemma_enqueue_tracks(queue, wallet, project, tokens);
    lemma_enqueue_again(enqueue_all(queue, wallet, project, tokens), wallet, project, tokens);
}

/// A job appended to the queue shows in its customer's state, and in no
/// other.
pub proof fn lemma_customer_state_push(
    queue: Seq<QueueItemView>,
    job: QueueItemView,
    wallet: Seq<char>,
    project: Seq<char>,
)
    ensures
        customer_state(queue.push(job), wallet, project) == if job.wallet == wallet && job.project
            == project {
            customer_state(queue, wallet, project).push(job)
        } else {
            customer_state(queue, wallet, project)
        },
{
    assert(queue.push(job).drop_last() =~= queue);
}

/// A request for `n` distinct tokens, none of which has a live job,
/// appends exactly `n` pending jobs, one per token in order, and the
/// customer's state then shows them after what it showed before.
pub proof fn lemma_enqueue_fresh(
    queue: Seq<QueueItemView>,
    wallet: Seq<char>,
    project: Seq<char>,
    tokens: Seq<Seq<char>>,
)
    requires
        tokens.no_duplicates(),
        forall|k: int| 0 <= k < tokens.len() ==> !tracks(queue, wallet, project, #[trigger] tokens[k]),
    ensures
        enqueue_all(queue, wallet, project, tokens) == queue + pending_jobs(wallet, project, tokens),
        enqueue_all(queue, wallet, project, tokens).len() == queue.len() + tokens.len(),
        customer_state(enqueue_all(queue, wallet, project, tokens), wallet, project) == customer_state(
            queue,
            wallet,
            project,
        ) + pending_jobs(wallet, project, tokens),
    decreases tokens.len(),
{
    if tokens.len() == 0 {
        assert(queue + pending_jobs(wallet, project, tokens) =~= queue);
        assert(customer_state(queue, wallet, project) + pending_jobs(wallet, project, tokens)
            =~= customer_state(queue, wallet, project));
    } else {
        let front = tokens.drop_last();
        let last = tokens.last();
        assert forall|k: int| 0 <= k < front.len() implies !tracks(queue, wallet, project, #[trigger] front[k]) by {
            assert(front[k] == tokens[k]);
        }
        assert(front.no_duplicates()) by {
            assert forall|a: int, b: int| 0 <= a < front.len() && 0 <= b < front.len() && a != b implies front[a]
                != front[b] by {
                assert(front[a] == tokens[a] && front[b] == tokens[b]);
            }
        }
        lemma_enqueue_fresh(queue, wallet, project, front);
        let mid = enqueue_all(queue, wallet, project, front);
        assert(!tracks(mid, wallet, project, last)) by {
            if tracks(mid, wallet, project, last) {
                let i = choose|i: int| 0 <= i < mid.len() && #[trigger] mid[i].is_job(wallet, project, last) && mid[i].live();
                if i < queue.len() {
                    assert(mid[i] == queue[i]);
                    assert(queue[i].is_job(wallet, project, tokens[tokens.len() - 1]));
                    assert(tracks(queue, wallet, project, tokens[tokens.len() - 1]));
                } else {
                    let k = i - queue.len();
                    assert(mid[i] == pending_jobs(wallet, project, front)[k]);
                    assert(front[k] == tokens[k]);
                    assert(tokens[k] == tokens[tokens.len() - 1]);
                }
            }
        }
        let job = QueueItemView::pending(wallet, project, last);
        assert(mid.push(job) =~= queue + pending_jobs(wallet, project, tokens));
        lemma_customer_state_push(mid, job, wallet, project);
        assert(customer_state(queue, wallet, project) + pending_jobs(wallet, project, tokens) =~= (
        customer_state(queue, wallet, project) + pending_jobs(wallet, project, front)).push(job));
    }
}

/// A claim takes as many jobs as are pending, up to its limit.
pub proof fn lemma_batch_len(queue: Seq<QueueItemView>, limit: nat, n: int)
    requires
        0 <= n <= queue.len(),
    ensures
        batch_upto(queue, limit, n).len() == if pending_before(queue, n) < limit {
            pending_before(queue, n)
        } else {
            limit
        },
    decreases n,
{
    if n > 0 {
        lemma_batch_len(queue, limit, n - 1);
    }
}

/// The batch holds the claimed jobs and nothing else, each as it stands
/// after the claim.
pub proof fn lemma_batch_members(queue: Seq<QueueItemView>, limit: nat, n: int, job: QueueItemView)
    requires
        0 <= n <= queue.len(),
    ensures
        batch_upto(queue, limit, n).contains(job) <==> exists|i: int|
            0 <= i < n && #[trigger] claims(queue, limit, i) && job == queue[i].with_status(
                QueueStatus::Processing,
            ),
    decreases n,
{
    if n > 0 {
        lemma_batch_members(queue, limit, n - 1, job);
        let before = batch_upto(queue, limit, n - 1);
        let now = batch_upto(queue, limit, n);
        let taken = queue[n - 1].with_status(QueueStatus::Processing);
        if now.contains(job) {
            let k = choose|k: int| 0 <= k < now.len() && now[k] == job;
            if k < before.len() {
                assert(before[k] == job);
                let i = choose|i: int|
                    0 <= i < n - 1 && #[trigger] claims(queue, limit, i) && job == queue[i].with_status(
                        QueueStatus::Processing,
                    );
                assert(0 <= i < n && claims(queue, limit, i));
            } else {
                assert(claims(queue, limit, n - 1) && job == taken);
            }
        }
        if exists|i: int|
            0 <= i < n && #[trigger] claims(queue, limit, i) && job == queue[i].with_status(
                QueueStatus::Processing,
            ) {
            let i = choose|i: int|
                0 <= i < n && #[trigger] claims(queue, limit, i) && job == queue[i].with_status(
                    QueueStatus::Processing,
                );
            if i < n - 1 {
                assert(before.contains(job));
                let k = choose|k: int| 0 <= k < before.len() && before[k] == job;
                assert(now[k] == job);
            } else {
                assert(now[before.len() as int] == job);
            }
        }
    }
}

/// A claim moves jobs from `Pending` to `Processing` only, and keeps the
/// queue well formed.
pub proof fn lemma_claim_advances(queue: Seq<QueueItemView>, limit: nat)
    ensures
        advanced(queue, after_claim(queue, limit)),
        after_claim(queue, limit).len() == queue.len(),
        one_live_job_each(queue) ==> one_live_job_each(after_claim(queue, limit)),
{
    let after = after_claim(queue, limit);
    if one_live_job_each(queue) {
        assert forall|i: int, j: int|
            0 <= i < j < after.len() && #[trigger] after[i].live() && #[trigger] after[j].live() implies !after[i].same_job(
            after[j],
        ) by {
            assert(queue[i].live() && queue[j].live());
        }
    }
}

/// No job is handed out twice: a job in the batch of one claim is in the
/// batch of no later claim, as long as it is not handed back.
pub proof fn lemma_claims_are_exclusive(
    queue: Seq<QueueItemView>,
    first: nat,
    second: nat,
    job: QueueItemView,
    other: QueueItemView,
)
    requires
        one_live_job_each(queue),
        batch(queue, first).contains(job),
        batch(after_claim(queue, first), second).contains(other),
    ensures
        !job.same_job(other),
{
    let after = after_claim(queue, first);
    lemma_batch_members(queue, first, queue.len() as int, job);
    lemma_batch_members(after, second, after.len() as int, other);
    let i = choose|i: int|
        0 <= i < queue.len() && #[trigger] claims(queue, first, i) && job == queue[i].with_status(
            QueueStatus::Processing,
        );
    let j = choose|j: int|
        0 <= j < after.len() && #[trigger] claims(after, second, j) && other == after[j].with_status(
            QueueStatus::Processing,
        );
    assert(after[j].status == QueueStatus::Pending);
    assert(after[i].status == QueueStatus::Processing);
    assert(i != j);
    assert(after[j] == queue[j]);
    assert(queue[i].live() && queue[j].live());
    if i < j {
        assert(!queue[i].same_job(queue[j]));
    } else {
        assert(!queue[j].same_job(queue[i]));
    }
}

} // verus!
