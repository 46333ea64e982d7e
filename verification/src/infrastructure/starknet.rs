//! The calls that reach the destination chain. This module turns
//! identifiers into field elements and assembles what is sent; sending is
//! left to the caller, who hands back what the chain answered.

use vstd::prelude::*;
use crate::domain::bridge::{MintError, MintTransactionResult};
use crate::text::option_view;

verus! {

/// The field element that a hexadecimal text denotes, as 32 big-endian
/// bytes, or `None` where the text denotes none.
pub uninterp spec fn felt_of_hex(text: Seq<char>) -> Option<Seq<u8>>;

/// The field element that a decimal text denotes, as 32 big-endian
/// bytes, or `None` where the text denotes none.
pub uninterp spec fn felt_of_dec(text: Seq<char>) -> Option<Seq<u8>>;

/// The longest decimal text that is read as a number. Every number of so
/// many digits is below 2^256, while a token id is below 2^251.
pub const MAX_DECIMAL_LEN: usize = 77;

/// The element that a token id denotes: that of its decimal text, where
/// the text is not longer than `MAX_DECIMAL_LEN`.
pub open spec fn token_element(text: Seq<char>) -> Option<Seq<u8>> {
    if text.len() <= MAX_DECIMAL_LEN {
        felt_of_dec(text)
    } else {
        None
    }
}

/// The bytes of an optional byte string.
pub open spec fn option_bytes(o: Option<Vec<u8>>) -> Option<Seq<u8>> {
    match o {
        Some(bytes) => Some(bytes@),
        None => None,
    }
}

/// Calls `Felt::from_hex` of the `starknet` crate and, where it parses,
/// `Felt::to_bytes_be` on the element. Trusted: the result depends on
/// the text alone, and a parsed element comes back as 32 bytes.
#[verifier::external_body]
fn parse_hex(text: &str) -> (r: Option<Vec<u8>>)
    ensures
        option_bytes(r) == felt_of_hex(text@),
        r matches Some(bytes) ==> bytes.len() == 32,
{
    match starknet::core::types::Felt::from_hex(text) {
        Ok(felt) => Some(felt.to_bytes_be().to_vec()),
        Err(_) => None,
    }
}

/// Calls `Felt::from_dec_str` of the `starknet` crate and, where it
/// parses, `Felt::to_bytes_be` on the element. Trusted: the result
/// depends on the text alone, and a parsed element comes back as 32
/// bytes. Longer texts are left out: on a number of 2^256 or more the
/// outside function adds with overflow, which a build with debug
/// assertions turns into a panic.
#[verifier::external_body]
fn parse_dec(text: &str) -> (r: Option<Vec<u8>>)
    requires
        text@.len() <= MAX_DECIMAL_LEN,
    ensures
        option_bytes(r) == felt_of_dec(text@),
        r matches Some(bytes) ==> bytes.len() == 32,
{
    match starknet::core::types::Felt::from_dec_str(text) {
        Ok(felt) => Some(felt.to_bytes_be().to_vec()),
        Err(_) => None,
    }
}

/// Reads a token id: a decimal text of at most `MAX_DECIMAL_LEN`
/// characters. A longer text is no token id.
pub fn parse_token(text: &str) -> (r: Option<Vec<u8>>)
    ensures
        option_bytes(r) == token_element(text@),
        r matches Some(bytes) ==> bytes.len() == 32,
{
    if text.unicode_len() <= MAX_DECIMAL_LEN {
        parse_dec(text)
    } else {
        None
    }
}

/// The element zero: the high half of a token id, which is sent as two
/// elements.
pub open spec fn zero_felt() -> Seq<u8> {
    Seq::new(32, |i: int| 0u8)
}

/// The element zero as 32 bytes.
pub fn zero() -> (r: Vec<u8>)
    ensures
        r@ == zero_felt(),
{
    let mut bytes: Vec<u8> = Vec::new();
    let mut i: usize = 0;
    while i < 32
        invariant
            i <= 32,
            bytes.len() == i,
            forall|k: int| 0 <= k < i ==> bytes[k] == 0u8,
        decreases 32 - i,
    {
        bytes.push(0u8);
        i = i + 1;
    }
    assert(bytes@ =~= zero_felt());
    bytes
}

/// The entry points of a token contract that this crate calls.
#[derive(Clone, Copy, Debug, PartialEq, Eq, Structural)]
pub enum EntryPoint {
    OwnerOf,
    Mint,
}

/// A call to a contract on the destination chain, every element as 32
/// big-endian bytes.
#[derive(Debug, PartialEq, Eq)]
pub struct ContractCall {
    pub to: Vec<u8>,
    pub entry_point: EntryPoint,
    pub calldata: Vec<Vec<u8>>,
}

/// What a `ContractCall` holds.
pub struct ContractCallView {
    pub to: Seq<u8>,
    pub entry_point: EntryPoint,
    pub calldata: Seq<Seq<u8>>,
}

impl View for ContractCall {
    type V = ContractCallView;

    open spec fn view(&self) -> ContractCallView {
        ContractCallView {
            to: self.to@,
            entry_point: self.entry_point,
            calldata: self.calldata.deep_view(),
        }
    }
}

/// A mint, ready to be signed and sent: the signing key and address of
/// the minting account, and the call.
#[derive(PartialEq, Eq)]
pub struct MintRequest {
    pub signer_key: Vec<u8>,
    pub account: Vec<u8>,
    pub call: ContractCall,
}

/// What a `MintRequest` holds.
pub struct MintRequestView {
    pub signer_key: Seq<u8>,
    pub account: Seq<u8>,
    pub call: ContractCallView,
}

impl View for MintRequest {
    type V = MintRequestView;

    open spec fn view(&self) -> MintRequestView {
        MintRequestView { signer_key: self.signer_key@, account: self.account@, call: self.call@ }
    }
}

/// The view of an optional call.
pub open spec fn option_call(o: Option<ContractCall>) -> Option<ContractCallView> {
    match o {
        Some(call) => Some(call@),
        None => None,
    }
}

/// The query for the owner of a token: `ownerOf` on the project's
/// contract with the token id as low and high half. There is none where
/// the project or the token id denotes no element.
pub open spec fn planned_query(project: Option<Seq<u8>>, token: Option<Seq<u8>>) -> Option<
    ContractCallView,
> {
    match (project, token) {
        (Some(to), Some(id)) => Some(
            ContractCallView { to, entry_point: EntryPoint::OwnerOf, calldata: seq![id, zero_felt()] },
        ),
        _ => None,
    }
}

/// The mint of a token: `mint` on the project's contract with the
/// recipient and the token id as low and high half, signed by the
/// minting account. There is none where any of the five texts denotes no
/// element.
pub open spec fn planned_mint(
    signer_key: Option<Seq<u8>>,
    account: Option<Seq<u8>>,
    recipient: Option<Seq<u8>>,
    project: Option<Seq<u8>>,
    token: Option<Seq<u8>>,
) -> Option<MintRequestView> {
    match (signer_key, account, recipient, project, token) {
        (Some(key), Some(address), Some(to), Some(contract), Some(id)) => Some(
            MintRequestView {
                signer_key: key,
                account: address,
                call: ContractCallView {
                    to: contract,
                    entry_point: EntryPoint::Mint,
                    calldata: seq![to, id, zero_felt()],
                },
            },
        ),
        _ => None,
    }
}

/// Assembles the owner query from the parsed project and token id.
pub fn query_from(project: Option<Vec<u8>>, token: Option<Vec<u8>>) -> (r: Option<ContractCall>)
    ensures
        option_call(r) == planned_query(option_bytes(project), option_bytes(token)),
{
    match (project, token) {
        (Some(to), Some(id)) => {
            let mut calldata: Vec<Vec<u8>> = Vec::new();
            let ghost low = id@;
            calldata.push(id);
            calldata.push(zero());
            assert(calldata.deep_view() =~~= seq![low, zero_felt()]);
            Some(ContractCall { to, entry_point: EntryPoint::OwnerOf, calldata })
        },
        _ => None,
    }
}

/// Assembles the mint from the five parsed elements, or fails with the
/// one error that a mint knows where any of them is missing.
pub fn mint_from(
    signer_key: Option<Vec<u8>>,
    account: Option<Vec<u8>>,
    recipient: Option<Vec<u8>>,
    project: Option<Vec<u8>>,
    token: Option<Vec<u8>>,
) -> (r: Result<MintRequest, MintError>)
    ensures
        match r {
            Ok(request) => planned_mint(
                option_bytes(signer_key),
                option_bytes(account),
                option_bytes(recipient),
                option_bytes(project),
                option_bytes(token),
            ) == Some(request@),
            Err(e) => e == MintError::Failure && planned_mint(
                option_bytes(signer_key),
                option_bytes(account),
                option_bytes(recipient),
                option_bytes(project),
                option_bytes(token),
            ) is None,
        },
{
    match (signer_key, account, recipient, project, token) {
        (Some(key), Some(address), Some(to), Some(contract), Some(id)) => {
            let mut calldata: Vec<Vec<u8>> = Vec::new();
            let ghost first = to@;
            let ghost low = id@;
            calldata.push(to);
            calldata.push(id);
            calldata.push(zero());
            assert(calldata.deep_view() =~~= seq![first, low, zero_felt()]);
            Ok(
                MintRequest {
                    signer_key: key,
                    account: address,
                    call: ContractCall { to: contract, entry_point: EntryPoint::Mint, calldata },
                },
            )
        },
        _ => Err(MintError::Failure),
    }
}

/// The account that mints on the destination chain: its address and its
/// signing key, both as hexadecimal text.
pub struct OnChainStartknetManager {
    account_address: String,
    account_private_key: String,
}

impl OnChainStartknetManager {
    /// The address of the minting account.
    pub closed spec fn address(&self) -> Seq<char> {
        self.account_address@
    }

    /// The signing key of the minting account.
    pub closed spec fn private_key(&self) -> Seq<char> {
        self.account_private_key@
    }

    pub fn new(account_addr: &str, account_pk: &str) -> (r: Self)
        ensures
            r.address() == account_addr@,
            r.private_key() == account_pk@,
    {
        OnChainStartknetManager {
            account_address: account_addr.to_owned(),
            account_private_key: account_pk.to_owned(),
        }
    }

    /// The address of the minting account.
    pub fn account_address(&self) -> (r: &str)
        ensures
            r@ == self.address(),
    {
        self.account_address.as_str()
    }

    /// The query that tells whether `token_id` exists under
    /// `project_id`: the project read as a hexadecimal address, the token
    /// id as a decimal number of at most `MAX_DECIMAL_LEN` characters.
    /// `None` where either cannot be read.
    pub fn ownership_query(&self, project_id: &str, token_id: &str) -> (r: Option<ContractCall>)
        ensures
            option_call(r) == planned_query(felt_of_hex(project_id@), token_element(token_id@)),
    {
        query_from(parse_hex(project_id), parse_token(token_id))
    }

    /// Whether the token counts as existing, given what came of the
    /// query: `None` where no query could be made or sent, else whether
    /// the chain named an owner. Every failure counts as "not there".
    pub fn token_found(answer: Option<bool>) -> (r: bool)
        ensures
            r == (answer == Some(true)),
    {
        match answer {
            Some(found) => found,
            None => false,
        }
    }

    /// The mint of `token_id` under `project_id` to
    /// `starknet_account_addr`, signed by this account. Addresses and the
    /// key are read as hexadecimal, the token id as decimal. Fails where
    /// any of them cannot be read.
    pub fn mint_request(&self, project_id: &str, token_id: &str, starknet_account_addr: &str) -> (r:
        Result<MintRequest, MintError>)
        ensures
            match r {
                Ok(request) => planned_mint(
                    felt_of_hex(self.private_key()),
                    felt_of_hex(self.address()),
                    felt_of_hex(starknet_account_addr@),
                    felt_of_hex(project_id@),
                    token_element(token_id@),
                ) == Some(request@),
                Err(e) => e == MintError::Failure && planned_mint(
                    felt_of_hex(self.private_key()),
                    felt_of_hex(self.address()),
                    felt_of_hex(starknet_account_addr@),
                    felt_of_hex(project_id@),
                    token_element(token_id@),
                ) is None,
            },
    {
        mint_from(
            parse_hex(self.account_private_key.as_str()),
            parse_hex(self.account_address.as_str()),
            parse_hex(starknet_account_addr),
            parse_hex(project_id),
            parse_token(token_id),
        )
    }

    /// What a mint of `token_id` comes to, given the hash of the
    /// transaction that the chain accepted, or `None` where it accepted
    /// none.
    pub fn mint_result(token_id: &str, accepted: Option<String>) -> (r: Result<
        MintTransactionResult,
        MintError,
    >)
        ensures
            match r {
                Ok(minted) => minted.0@ == token_id@ && accepted is Some && option_view(minted.1)
                    == option_view(accepted),
                Err(e) => e == MintError::Failure && accepted is None,
            },
    {
        match accepted {
            Some(hash) => Ok((token_id.to_owned(), Some(hash))),
            None => Err(MintError::Failure),
        }
    }
}

} // verus!
