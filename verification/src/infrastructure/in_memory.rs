//! Stores held in memory. Each is an owned value: whoever holds it
//! mutably is the only writer, so every operation is atomic.

use vstd::prelude::*;
use crate::domain::save_customer_data::{
    merge_into, merge_tokens, CustomerKeys, CustomerKeysView, SaveCustomerDataError,
};
use crate::domain::bridge::{
    MintError, MintTransactionResult, SignedHash, SignedHashValidatorError, Transaction,
    TransactionFetchError, TransactionView,
};
use crate::text::{clone_texts, same_text};

verus! {

/// Whether some record is kept for `wallet` and `project`.
spec fn keeps(records: Seq<CustomerKeysView>, wallet: Seq<char>, project: Seq<char>) -> bool {
    exists|i: int| 0 <= i < records.len() && #[trigger] records[i].wallet == wallet && records[i].project == project
}

/// Where the record for `wallet` and `project` is kept.
spec fn place(records: Seq<CustomerKeysView>, wallet: Seq<char>, project: Seq<char>) -> int {
    choose|i: int| 0 <= i < records.len() && #[trigger] records[i].wallet == wallet && records[i].project == project
}

/// No two records are kept for the same wallet and project, and no
/// record holds a token twice.
spec fn one_record_each(records: Seq<CustomerKeysView>) -> bool {
    &&& forall|i: int, j: int|
        0 <= i < j < records.len() ==> !(#[trigger] records[i].wallet == #[trigger] records[j].wallet
            && records[i].project == records[j].project)
    &&& forall|i: int| 0 <= i < records.len() ==> (#[trigger] records[i]).tokens.no_duplicates()
}

/// The tokens held per wallet and project.
spec fn holdings(records: Seq<CustomerKeysView>) -> Map<(Seq<char>, Seq<char>), Seq<Seq<char>>> {
    Map::new(
        |k: (Seq<char>, Seq<char>)| keeps(records, k.0, k.1),
        |k: (Seq<char>, Seq<char>)| records[place(records, k.0, k.1)].tokens,
    )
}

proof fn lemma_place(records: Seq<CustomerKeysView>, i: int)
    requires
        one_record_each(records),
        0 <= i < records.len(),
    ensures
        keeps(records, records[i].wallet, records[i].project),
        place(records, records[i].wallet, records[i].project) == i,
{
    let j = place(records, records[i].wallet, records[i].project);
    if j < i {
        assert(!(records[j].wallet == records[i].wallet && records[j].project == records[i].project));
    }
    if i < j {
        assert(!(records[i].wallet == records[j].wallet && records[i].project == records[j].project));
    }
}

/// Customer keys per wallet and project, held in memory.
#[derive(Debug)]
pub struct InMemoryDataRepository {
    data: Vec<CustomerKeys>,
}

impl View for InMemoryDataRepository {
    type V = Map<(Seq<char>, Seq<char>), Seq<Seq<char>>>;

    closed spec fn view(&self) -> Map<(Seq<char>, Seq<char>), Seq<Seq<char>>> {
        holdings(self.data.deep_view())
    }
}

impl InMemoryDataRepository {
    /// No wallet and project has two records, and no record holds a
    /// token twice. Every repository made and changed through this
    /// module is well formed.
    pub closed spec fn wf(&self) -> bool {
        one_record_each(self.data.deep_view())
    }

    /// A repository that holds nothing.
    pub fn new() -> (r: Self)
        ensures
            r.wf(),
            r@ == Map::<(Seq<char>, Seq<char>), Seq<Seq<char>>>::empty(),
    {
        let r = InMemoryDataRepository { data: Vec::new() };
        assert(r@ =~= Map::<(Seq<char>, Seq<char>), Seq<Seq<char>>>::empty());
        r
    }

    fn find(&self, wallet: &str, project: &str) -> (r: Option<usize>)
        ensures
            match r {
                Some(i) => i < self.data.len() && self.data[i as int]@.wallet == wallet@
                    && self.data[i as int]@.project == project@,
                None => !keeps(self.data.deep_view(), wallet@, project@),
            },
    {
        let mut i: usize = 0;
        while i < self.data.len()
            invariant
                i <= self.data.len(),
                forall|k: int| 0 <= k < i ==> !(self.data[k]@.wallet == wallet@ && self.data[k]@.project
                    == project@),
            decreases self.data.len() - i,
        {
            if same_text(self.data[i].keplr_wallet_pubkey.as_str(), wallet) && same_text(
                self.data[i].project_id.as_str(),
                project,
            ) {
                return Some(i);
            }
            i = i + 1;
        }
        assert forall|k: int| 0 <= k < self.data.deep_view().len() implies !(
        #[trigger] self.data.deep_view()[k].wallet == wallet@ && self.data.deep_view()[k].project
            == project@) by {
            assert(self.data.deep_view()[k] == self.data[k]@);
        }
        None
    }

    /// Merges `keys` into what is held for its wallet and project: the
    /// tokens already held stay, and those of `keys` that are new are
    /// appended, each once. A wallet or project not seen before gets a
    /// record of its own. Never fails.
    pub fn save_customer_keys(&mut self, keys: CustomerKeys) -> (r: Result<(), SaveCustomerDataError>)
        requires
            old(self).wf(),
        ensures
            final(self).wf(),
            r is Ok,
            final(self)@ == old(self)@.insert(
                (keys@.wallet, keys@.project),
                merge_tokens(
                    if old(self)@.contains_key((keys@.wallet, keys@.project)) {
                        old(self)@[(keys@.wallet, keys@.project)]
                    } else {
                        Seq::empty()
                    },
                    keys@.tokens,
                ),
            ),
    {
        let ghost before = self.data.deep_view();
        let ghost key = (keys@.wallet, keys@.project);
        let found = self.find(keys.keplr_wallet_pubkey.as_str(), keys.project_id.as_str());
        match found {
            Some(i) => {
                proof {
                    assert(before[i as int] == self.data[i as int]@);
                    lemma_place(before, i as int);
                }
                let mut tokens = clone_texts(&self.data[i].token_ids);
                merge_into(&mut tokens, &keys.token_ids);
                let merged = CustomerKeys {
                    keplr_wallet_pubkey: keys.keplr_wallet_pubkey,
                    project_id: keys.project_id,
                    token_ids: tokens,
                };
                let ghost record = merged@;
                self.data.set(i, merged);
                proof {
                    let after = self.data.deep_view();
                    assert(after =~= before.update(i as int, record));
                    crate::domain::save_customer_data::lemma_merge_keeps_distinct(
                        before[i as int].tokens,
                        keys@.tokens,
                    );
                    assert(one_record_each(after));
                    assert forall|k: (Seq<char>, Seq<char>)| keeps(after, k.0, k.1) == keeps(
                        before,
                        k.0,
                        k.1,
                    ) by {
                        if keeps(before, k.0, k.1) {
                            let j = place(before, k.0, k.1);
                            assert(after[j].wallet == k.0 && after[j].project == k.1);
                        }
                        if keeps(after, k.0, k.1) {
                            let j = place(after, k.0, k.1);
                            assert(before[j].wallet == k.0 && before[j].project == k.1);
                        }
                    }
                    assert forall|k: (Seq<char>, Seq<char>)| keeps(after, k.0, k.1) implies holdings(
                        after,
                    )[k] == holdings(before).insert(key, record.tokens)[k] by {
                        let j = place(after, k.0, k.1);
                        lemma_place(after, j);
                        lemma_place(before, j);
                        lemma_place(after, i as int);
                    }
                    assert(holdings(after) =~= holdings(before).insert(key, record.tokens));
                }
            },
            None => {
                let mut tokens: Vec<String> = Vec::new();
                assert(tokens.deep_view() =~= Seq::<Seq<char>>::empty());
                merge_into(&mut tokens, &keys.token_ids);
                let fresh = CustomerKeys {
                    keplr_wallet_pubkey: keys.keplr_wallet_pubkey,
                    project_id: keys.project_id,
                    token_ids: tokens,
                };
                let ghost record = fresh@;
                self.data.push(fresh);
                proof {
                    let after = self.data.deep_view();
                    assert(after =~= before.push(record));
                    crate::domain::save_customer_data::lemma_merge_keeps_distinct(
                        Seq::<Seq<char>>::empty(),
                        keys@.tokens,
                    );
                    assert(one_record_each(after)) by {
                        assert forall|a: int, b: int| 0 <= a < b < after.len() implies !(
                        #[trigger] after[a].wallet == #[trigger] after[b].wallet && after[a].project
                            == after[b].project) by {
                            if b == before.len() {
                                assert(before[a].wallet == after[a].wallet);
                            }
                        }
                    }
                    lemma_place(after, before.len() as int);
                    assert forall|k: (Seq<char>, Seq<char>)| keeps(after, k.0, k.1) == (keeps(
                        before,
                        k.0,
                        k.1,
                    ) || k == key) by {
                        if keeps(before, k.0, k.1) {
                            let j = place(before, k.0, k.1);
                            assert(after[j].wallet == k.0 && after[j].project == k.1);
                        }
                        if keeps(after, k.0, k.1) && k != key {
                            let j = place(after, k.0, k.1);
                            assert(before[j].wallet == k.0 && before[j].project == k.1);
                        }
                    }
                    assert forall|k: (Seq<char>, Seq<char>)| keeps(after, k.0, k.1) implies holdings(
                        after,
                    )[k] == holdings(before).insert(key, record.tokens)[k] by {
                        let j = place(after, k.0, k.1);
                        lemma_place(after, j);
                        if j < before.len() {
                            lemma_place(before, j);
                        }
                    }
                    assert(holdings(after) =~= holdings(before).insert(key, record.tokens));
                }
            },
        }
        Ok(())
    }

    /// The tokens held for `keplr_wallet_pubkey` and `project_id`, or
    /// `NotFound` where the wallet, or the project under it, is unknown.
    pub fn get_customer_keys(&self, keplr_wallet_pubkey: &str, project_id: &str) -> (r: Result<
        CustomerKeys,
        SaveCustomerDataError,
    >)
        requires
            self.wf(),
        ensures
            match r {
                Ok(keys) => self@.contains_key((keplr_wallet_pubkey@, project_id@)) && keys@ == (
                CustomerKeysView {
                    wallet: keplr_wallet_pubkey@,
                    project: project_id@,
                    tokens: self@[(keplr_wallet_pubkey@, project_id@)],
                }),
                Err(e) => e == SaveCustomerDataError::NotFound && !self@.contains_key(
                    (keplr_wallet_pubkey@, project_id@),
                ),
            },
    {
        match self.find(keplr_wallet_pubkey, project_id) {
            Some(i) => {
                proof {
                    assert(self.data.deep_view()[i as int] == self.data[i as int]@);
                    lemma_place(self.data.deep_view(), i as int);
                }
                Ok(
                    CustomerKeys {
                        keplr_wallet_pubkey: keplr_wallet_pubkey.to_owned(),
                        project_id: project_id.to_owned(),
                        token_ids: clone_texts(&self.data[i].token_ids),
                    },
                )
            },
            None => Err(SaveCustomerDataError::NotFound),
        }
    }
}

/// The one signature that `TestSignedHashValidator` turns down.
pub open spec fn rejected_signature() -> Seq<char> {
    "anInvalidHash"@
}

/// A validator that accepts every proof but one. It checks no
/// cryptography and reads neither address.
#[derive(Debug, Clone, Copy)]
pub struct TestSignedHashValidator {}

impl TestSignedHashValidator {
    /// The signature itself, unless it is the rejected one.
    pub fn verify(
        &self,
        signed_hash: &SignedHash,
        starknet_account_addrr: &str,
        keplr_wallet_pubkey: &str,
    ) -> (r: Result<String, SignedHashValidatorError>)
        ensures
            match r {
                Ok(signature) => signature@ == signed_hash.signature@ && signed_hash.signature@
                    != rejected_signature(),
                Err(e) => e == SignedHashValidatorError::FailedToVerifyHash && signed_hash.signature@
                    == rejected_signature(),
            },
    {
        if same_text(signed_hash.signature.as_str(), "anInvalidHash") {
            Err(SignedHashValidatorError::FailedToVerifyHash)
        } else {
            Ok(signed_hash.signature.clone())
        }
    }
}

/// The transfers among `all`, in their order, that moved `token` of the
/// contract `project`.
pub open spec fn transfers_of(all: Seq<TransactionView>, project: Seq<char>, token: Seq<char>) -> Seq<
    TransactionView,
>
    decreases all.len(),
{
    if all.len() == 0 {
        Seq::empty()
    } else {
        let before = transfers_of(all.drop_last(), project, token);
        if all.last().concerns(project, token) {
            before.push(all.last())
        } else {
            before
        }
    }
}

/// The filtered set is complete and holds nothing else: a transfer is
/// among `transfers_of` exactly if it is recorded and concerns the
/// project and token.
pub proof fn lemma_transfers_of_complete(
    all: Seq<TransactionView>,
    project: Seq<char>,
    token: Seq<char>,
    transfer: TransactionView,
)
    ensures
        transfers_of(all, project, token).contains(transfer) <==> all.contains(transfer)
            && transfer.concerns(project, token),
    decreases all.len(),
{
    if all.len() > 0 {
        let front = all.drop_last();
        let before = transfers_of(front, project, token);
        lemma_transfers_of_complete(front, project, token, transfer);
        assert(all =~= front.push(all.last()));
        assert(all[all.len() - 1] == all.last());
        if all.contains(transfer) {
            let k = choose|k: int| 0 <= k < all.len() && all[k] == transfer;
            if k < front.len() {
                assert(front[k] == transfer);
            }
        }
        if front.contains(transfer) {
            let k = choose|k: int| 0 <= k < front.len() && front[k] == transfer;
            assert(all[k] == transfer);
        }
        if all.last().concerns(project, token) {
            let after = before.push(all.last());
            assert(after[before.len() as int] == all.last());
            if before.contains(transfer) {
                let k = choose|k: int| 0 <= k < before.len() && before[k] == transfer;
                assert(after[k] == transfer);
            }
            if after.contains(transfer) {
                let k = choose|k: int| 0 <= k < after.len() && after[k] == transfer;
                if k < before.len() {
                    assert(before[k] == transfer);
                }
            }
        }
    }
}

/// Transfers recorded on the source chain, held in memory in the order
/// in which they were recorded.
#[derive(Debug)]
pub struct InMemoryTransactionRepository {
    pub transactions: Vec<Transaction>,
}

impl View for InMemoryTransactionRepository {
    type V = Seq<TransactionView>;

    open spec fn view(&self) -> Seq<TransactionView> {
        self.transactions.deep_view()
    }
}

impl InMemoryTransactionRepository {
    pub fn new(transactions: Vec<Transaction>) -> (r: Self)
        ensures
            r@ == transactions.deep_view(),
    {
        InMemoryTransactionRepository { transactions }
    }

    /// The recorded transfers of `token_id` under the contract
    /// `project_id`, in the order of recording. Reads only; never fails.
    pub fn get_transactions_for_contract(&self, project_id: &str, token_id: &str) -> (r: Result<
        Vec<Transaction>,
        TransactionFetchError,
    >)
        ensures
            r matches Ok(found) && found.deep_view() == transfers_of(self@, project_id@, token_id@),
    {
        let ghost all = self.transactions.deep_view();
        let mut found: Vec<Transaction> = Vec::new();
        let mut i: usize = 0;
        assert(all.take(0) =~= Seq::<TransactionView>::empty());
        assert(found.deep_view() =~= Seq::<TransactionView>::empty());
        while i < self.transactions.len()
            invariant
                i <= self.transactions.len(),
                all == self.transactions.deep_view(),
                found.deep_view() == transfers_of(all.take(i as int), project_id@, token_id@),
            decreases self.transactions.len() - i,
        {
            let ghost before = found.deep_view();
            assert(all.take(i + 1).drop_last() =~= all.take(i as int));
            assert(all.take(i + 1).last() == self.transactions[i as int]@);
            let transaction = &self.transactions[i];
            let wanted = match &transaction.msg {
                crate::domain::bridge::MsgTypes::TransferNft(transfer) => same_text(
                    transaction.contract.as_str(),
                    project_id,
                ) && same_text(token_id, transfer.token_id.as_str()),
            };
            if wanted {
                found.push(transaction.clone());
                assert(found.deep_view() =~= before.push(self.transactions[i as int]@));
            }
            i = i + 1;
        }
        assert(all.take(i as int) =~= all);
        Ok(found)
    }
}

/// A token that exists on the destination side, and who holds it.
#[derive(Debug)]
struct MintedToken {
    project_id: String,
    token_id: String,
    owner: String,
}

/// What a `MintedToken` says, character by character.
struct MintedTokenView {
    project: Seq<char>,
    token: Seq<char>,
    owner: Seq<char>,
}

impl View for MintedToken {
    type V = MintedTokenView;

    closed spec fn view(&self) -> MintedTokenView {
        MintedTokenView { project: self.project_id@, token: self.token_id@, owner: self.owner@ }
    }
}

impl DeepView for MintedToken {
    type V = MintedTokenView;

    closed spec fn deep_view(&self) -> MintedTokenView {
        self@
    }
}

/// Whether `token` of `project` is among `minted`.
spec fn minted_has(minted: Seq<MintedTokenView>, project: Seq<char>, token: Seq<char>) -> bool {
    exists|i: int| 0 <= i < minted.len() && #[trigger] minted[i].project == project && minted[i].token == token
}

/// Where `token` of `project` stands among `minted`.
spec fn minted_place(minted: Seq<MintedTokenView>, project: Seq<char>, token: Seq<char>) -> int {
    choose|i: int| 0 <= i < minted.len() && #[trigger] minted[i].project == project && minted[i].token == token
}

/// No token of a project is minted twice.
spec fn minted_once(minted: Seq<MintedTokenView>) -> bool {
    forall|i: int, j: int|
        0 <= i < j < minted.len() ==> !(#[trigger] minted[i].project == #[trigger] minted[j].project
            && minted[i].token == minted[j].token)
}

/// The holder of each minted token, per project and token id.
spec fn owners(minted: Seq<MintedTokenView>) -> Map<(Seq<char>, Seq<char>), Seq<char>> {
    Map::new(
        |k: (Seq<char>, Seq<char>)| minted_has(minted, k.0, k.1),
        |k: (Seq<char>, Seq<char>)| minted[minted_place(minted, k.0, k.1)].owner,
    )
}

proof fn lemma_minted_place(minted: Seq<MintedTokenView>, i: int)
    requires
        minted_once(minted),
        0 <= i < minted.len(),
    ensures
        minted_has(minted, minted[i].project, minted[i].token),
        minted_place(minted, minted[i].project, minted[i].token) == i,
{
    let j = minted_place(minted, minted[i].project, minted[i].token);
    if j < i {
        assert(!(minted[j].project == minted[i].project && minted[j].token == minted[i].token));
    }
    if i < j {
        assert(!(minted[i].project == minted[j].project && minted[i].token == minted[j].token));
    }
}

/// A stand-in for the destination chain: which tokens exist per project,
/// and who holds each.
#[derive(Debug)]
pub struct InMemoryStarknetTransactionManager {
    nfts: Vec<MintedToken>,
}

impl View for InMemoryStarknetTransactionManager {
    type V = Map<(Seq<char>, Seq<char>), Seq<char>>;

    closed spec fn view(&self) -> Map<(Seq<char>, Seq<char>), Seq<char>> {
        owners(self.nfts.deep_view())
    }
}

impl InMemoryStarknetTransactionManager {
    /// No token of a project is held twice. Every manager made and
    /// changed through this module is well formed.
    pub closed spec fn wf(&self) -> bool {
        minted_once(self.nfts.deep_view())
    }

    /// A chain on which nothing is minted.
    pub fn new() -> (r: Self)
        ensures
            r.wf(),
            r@ == Map::<(Seq<char>, Seq<char>), Seq<char>>::empty(),
    {
        let r = InMemoryStarknetTransactionManager { nfts: Vec::new() };
        assert(r@ =~= Map::<(Seq<char>, Seq<char>), Seq<char>>::empty());
        r
    }

    fn find(&self, project: &str, token: &str) -> (r: Option<usize>)
        ensures
            match r {
                Some(i) => i < self.nfts.len() && self.nfts[i as int]@.project == project@
                    && self.nfts[i as int]@.token == token@,
                None => !minted_has(self.nfts.deep_view(), project@, token@),
            },
    {
        let mut i: usize = 0;
        while i < self.nfts.len()
            invariant
                i <= self.nfts.len(),
                forall|k: int| 0 <= k < i ==> !(self.nfts[k]@.project == project@ && self.nfts[k]@.token
                    == token@),
            decreases self.nfts.len() - i,
        {
            if same_text(self.nfts[i].project_id.as_str(), project) && same_text(
                self.nfts[i].token_id.as_str(),
                token,
            ) {
                return Some(i);
            }
            i = i + 1;
        }
        assert forall|k: int| 0 <= k < self.nfts.deep_view().len() implies !(
        #[trigger] self.nfts.deep_view()[k].project == project@ && self.nfts.deep_view()[k].token
            == token@) by {
            assert(self.nfts.deep_view()[k] == self.nfts[k]@);
        }
        None
    }

    /// Whether `token_id` exists under `project_id`. Reads only, so it
    /// may be asked any number of times.
    pub fn project_has_token(&self, project_id: &str, token_id: &str) -> (r: bool)
        requires
            self.wf(),
        ensures
            r == self@.contains_key((project_id@, token_id@)),
    {
        match self.find(project_id, token_id) {
            Some(i) => {
                assert(self.nfts.deep_view()[i as int] == self.nfts[i as int]@);
                true
            },
            None => false,
        }
    }

    /// Mints `token_id` under `project_id` to `starknet_account_addr`.
    /// A token that exists already stays one token and passes to the new
    /// holder. Gives back the token id, and no transaction hash: there is
    /// no chain behind this manager. Never fails.
    pub fn mint_project_token(
        &mut self,
        project_id: &str,
        token_id: &str,
        starknet_account_addr: &str,
    ) -> (r: Result<MintTransactionResult, MintError>)
        requires
            old(self).wf(),
        ensures
            final(self).wf(),
            r matches Ok(minted) && minted.0@ == token_id@ && minted.1 is None,
            final(self)@ == old(self)@.insert((project_id@, token_id@), starknet_account_addr@),
    {
        let ghost before = self.nfts.deep_view();
        let ghost key = (project_id@, token_id@);
        let entry = MintedToken {
            project_id: project_id.to_owned(),
            token_id: token_id.to_owned(),
            owner: starknet_account_addr.to_owned(),
        };
        let ghost record = entry@;
        match self.find(project_id, token_id) {
            Some(i) => {
                proof {
                    assert(before[i as int] == self.nfts[i as int]@);
                }
                self.nfts.set(i, entry);
                proof {
                    let after = self.nfts.deep_view();
                    assert(after =~= before.update(i as int, record));
                    assert(minted_once(after));
                    assert forall|k: (Seq<char>, Seq<char>)| minted_has(after, k.0, k.1) == minted_has(
                        before,
                        k.0,
                        k.1,
                    ) by {
                        if minted_has(before, k.0, k.1) {
                            let j = minted_place(before, k.0, k.1);
                            assert(after[j].project == k.0 && after[j].token == k.1);
                        }
                        if minted_has(after, k.0, k.1) {
                            let j = minted_place(after, k.0, k.1);
                            assert(before[j].project == k.0 && before[j].token == k.1);
                        }
                    }
                    lemma_minted_place(before, i as int);
                    assert forall|k: (Seq<char>, Seq<char>)| minted_has(after, k.0, k.1) implies owners(
                        after,
                    )[k] == owners(before).insert(key, record.owner)[k] by {
                        let j = minted_place(after, k.0, k.1);
                        lemma_minted_place(after, j);
                        lemma_minted_place(before, j);
                        lemma_minted_place(after, i as int);
                    }
                    assert(owners(after) =~= owners(before).insert(key, record.owner));
                }
            },
            None => {
                self.nfts.push(entry);
                proof {
                    let after = self.nfts.deep_view();
                    assert(after =~= before.push(record));
                    assert(minted_once(after)) by {
                        assert forall|a: int, b: int| 0 <= a < b < after.len() implies !(
                        #[trigger] after[a].project == #[trigger] after[b].project && after[a].token
                            == after[b].token) by {
                            if b == before.len() {
                                assert(before[a].project == after[a].project);
                            }
                        }
                    }
                    lemma_minted_place(after, before.len() as int);
                    assert forall|k: (Seq<char>, Seq<char>)| minted_has(after, k.0, k.1) == (minted_has(
                        before,
                        k.0,
                        k.1,
                    ) || k == key) by {
                        if minted_has(before, k.0, k.1) {
                            let j = minted_place(before, k.0, k.1);
                            assert(after[j].project == k.0 && after[j].token == k.1);
                        }
                        if minted_has(after, k.0, k.1) && k != key {
                            let j = minted_place(after, k.0, k.1);
                            assert(before[j].project == k.0 && before[j].token == k.1);
                        }
                    }
                    assert forall|k: (Seq<char>, Seq<char>)| minted_has(after, k.0, k.1) implies owners(
                        after,
                    )[k] == owners(before).insert(key, record.owner)[k] by {
                        let j = minted_place(after, k.0, k.1);
                        lemma_minted_place(after, j);
                        if j < before.len() {
                            lemma_minted_place(before, j);
                        }
                    }
                    assert(owners(after) =~= owners(before).insert(key, record.owner));
                }
            },
        }
        Ok((token_id.to_owned(), None))
    }
}

} // verus!
