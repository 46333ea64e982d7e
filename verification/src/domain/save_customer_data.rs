//! The tokens a customer has claimed, per wallet and project, and how a
//! new claim is merged into what is already held.

use vstd::prelude::*;
use crate::text::{clone_texts, contains_text};

verus! {

/// The tokens of one project that one wallet has claimed.
#[derive(Debug, PartialEq, Eq)]
pub struct CustomerKeys {
    pub keplr_wallet_pubkey: String,
    pub project_id: String,
    pub token_ids: Vec<String>,
}

/// What a `CustomerKeys` says, character by character.
pub struct CustomerKeysView {
    pub wallet: Seq<char>,
    pub project: Seq<char>,
    pub tokens: Seq<Seq<char>>,
}

impl View for CustomerKeys {
    type V = CustomerKeysView;

    open spec fn view(&self) -> CustomerKeysView {
        CustomerKeysView {
            wallet: self.keplr_wallet_pubkey@,
            project: self.project_id@,
            tokens: self.token_ids.deep_view(),
        }
    }
}

impl DeepView for CustomerKeys {
    type V = CustomerKeysView;

    open spec fn deep_view(&self) -> CustomerKeysView {
        self@
    }
}

impl Clone for CustomerKeys {
    fn clone(&self) -> (r: Self)
        ensures
            r@ == self@,
    {
        CustomerKeys {
            keplr_wallet_pubkey: self.keplr_wallet_pubkey.clone(),
            project_id: self.project_id.clone(),
            token_ids: clone_texts(&self.token_ids),
        }
    }
}

/// Why customer data could not be saved or found.
#[derive(Clone, Copy, Debug, PartialEq, Eq, Structural)]
pub enum SaveCustomerDataError {
    FailedToFetch,
    FailedToPersistToDatabase,
    NotFound,
    NotImpled,
}

/// `held` followed by those tokens of `added` that it lacks, each once,
/// in the order in which they first occur.
pub open spec fn merge_tokens(held: Seq<Seq<char>>, added: Seq<Seq<char>>) -> Seq<Seq<char>>
    decreases added.len(),
{
    if added.len() == 0 {
        held
    } else {
        let before = merge_tokens(held, added.drop_last());
        if before.contains(added.last()) {
            before
        } else {
            before.push(added.last())
        }
    }
}

/// Merging is a union: a token is held afterwards exactly if it was held
/// before or was added.
pub proof fn lemma_merge_is_union(held: Seq<Seq<char>>, added: Seq<Seq<char>>, token: Seq<char>)
    ensures
        merge_tokens(held, added).contains(token) <==> held.contains(token) || added.contains(token),
    decreases added.len(),
{
    if added.len() > 0 {
        let front = added.drop_last();
        let before = merge_tokens(held, front);
        lemma_merge_is_union(held, front, token);
        assert(added =~= front.push(added.last()));
        if added.contains(token) {
            let k = choose|k: int| 0 <= k < added.len() && added[k] == token;
            if k < front.len() {
                assert(front[k] == token);
            }
        }
        if front.contains(token) {
            let k = choose|k: int| 0 <= k < front.len() && front[k] == token;
            assert(added[k] == token);
        }
        assert(added[added.len() - 1] == added.last());
        if !before.contains(added.last()) {
            let after = before.push(added.last());
            assert(after[before.len() as int] == added.last());
            if before.contains(token) {
                let k = choose|k: int| 0 <= k < before.len() && before[k] == token;
                assert(after[k] == token);
            }
            if after.contains(token) {
                let k = choose|k: int| 0 <= k < after.len() && after[k] == token;
                if k < before.len() {
                    assert(before[k] == token);
                }
            }
        }
    }
}

/// Two merges in a row hold what was held before and what either added,
/// and nothing else.
pub proof fn lemma_two_merges(
    held: Seq<Seq<char>>,
    first: Seq<Seq<char>>,
    second: Seq<Seq<char>>,
    token: Seq<char>,
)
    ensures
        merge_tokens(merge_tokens(held, first), second).contains(token) <==> held.contains(token)
            || first.contains(token) || second.contains(token),
{
    lemma_merge_is_union(held, first, token);
    lemma_merge_is_union(merge_tokens(held, first), second, token);
}

/// Merging never holds a token twice, provided none was held twice
/// before.
pub proof fn lemma_merge_keeps_distinct(held: Seq<Seq<char>>, added: Seq<Seq<char>>)
    requires
        held.no_duplicates(),
    ensures
        merge_tokens(held, added).no_duplicates(),
    decreases added.len(),
{
    if added.len() > 0 {
        lemma_merge_keeps_distinct(held, added.drop_last());
    }
}

/// Merging only appends: what was held stays where it was.
pub proof fn lemma_merge_extends(held: Seq<Seq<char>>, added: Seq<Seq<char>>)
    ensures
        held.len() <= merge_tokens(held, added).len(),
        merge_tokens(held, added).take(held.len() as int) == held,
    decreases added.len(),
{
    if added.len() > 0 {
        lemma_merge_extends(held, added.drop_last());
        let before = merge_tokens(held, added.drop_last());
        assert(before.push(added.last()).take(held.len() as int) =~= before.take(held.len() as int));
    } else {
        assert(held.take(held.len() as int) =~= held);
    }
}

/// Merging the same tokens a second time changes nothing.
pub proof fn lemma_merge_twice(held: Seq<Seq<char>>, added: Seq<Seq<char>>)
    ensures
        merge_tokens(merge_tokens(held, added), added) == merge_tokens(held, added),
{
    let once = merge_tokens(held, added);
    assert forall|k: int| 0 <= k < added.len() implies once.contains(#[trigger] added[k]) by {
        lemma_merge_is_union(held, added, added[k]);
    }
    lemma_merge_of_held(once, added);
}

/// Merging tokens that are all held already changes nothing.
pub proof fn lemma_merge_of_held(held: Seq<Seq<char>>, added: Seq<Seq<char>>)
    requires
        forall|k: int| 0 <= k < added.len() ==> held.contains(#[trigger] added[k]),
    ensures
        merge_tokens(held, added) == held,
    decreases added.len(),
{
    if added.len() > 0 {
        let front = added.drop_last();
        assert forall|k: int| 0 <= k < front.len() implies held.contains(#[trigger] front[k]) by {
            assert(front[k] == added[k]);
        }
        lemma_merge_of_held(held, front);
        assert(added.last() == added[added.len() - 1]);
    }
}

/// Appends to `held` the tokens of `added` that it lacks.
pub fn merge_into(held: &mut Vec<String>, added: &Vec<String>)
    ensures
        final(held).deep_view() == merge_tokens(old(held).deep_view(), added.deep_view()),
{
    let ghost start = held.deep_view();
    let ghost wanted = added.deep_view();
    let mut i: usize = 0;
    assert(wanted.take(0) =~= Seq::<Seq<char>>::empty());
    while i < added.len()
        invariant
            i <= added.len(),
            wanted == added.deep_view(),
            held.deep_view() == merge_tokens(start, wanted.take(i as int)),
        decreases added.len() - i,
    {
        let ghost before = held.deep_view();
        assert(wanted.take(i + 1).drop_last() =~= wanted.take(i as int));
        assert(wanted.take(i + 1).last() == added[i as int]@);
        if !contains_text(held, added[i].as_str()) {
            held.push(added[i].clone());
            assert(held.deep_view() =~= before.push(added[i as int]@));
        }
        i = i + 1;
    }
    assert(wanted.take(i as int) =~= wanted);
}

} // verus!
