//! Requests to an RPC node and what its replies come to.

use crate::accounts::Pubkey;
use crate::archive::{keep_ok, lemma_oks_positions, oks};
use crate::client::EpochClient;
use crate::positions::ascending;
use solana_rpc_client_api::filter::Memcmp;
use vstd::prelude::*;

verus! {

/// A condition on the data of an account: certain bytes at an offset.
#[verifier::external_type_specification]
#[verifier::external_body]
pub struct ExMemcmp(Memcmp);

/// The condition that the data holds `bytes` at `offset`, with the bytes in
/// base 58: what `Memcmp::new_base58_encoded` gives for them.
pub uninterp spec fn base58_memcmp(offset: usize, bytes: Seq<u8>) -> Memcmp;

/// `Memcmp::new_base58_encoded` builds the condition from the offset and the
/// bytes alone. How the bytes read in base 58 is not spelled out. The text is
/// first given one and a half times the room of the bytes, which must not be
/// more than a vector can have.
pub assume_specification[ Memcmp::new_base58_encoded ](offset: usize, bytes: &[u8]) -> (condition:
    Memcmp)
    requires
        bytes@.len() + (bytes@.len() + 1) / 2 <= isize::MAX,
    ensures
        condition == base58_memcmp(offset, bytes@),
;

/// How a node is to encode account data in its reply.
#[derive(Debug, Clone, Copy, PartialEq, Eq, Structural)]
pub enum AccountEncoding {
    Binary,
    Base58,
    Base64,
    JsonParsed,
    Base64Zstd,
}

/// How settled the state that a node answers from must be.
#[derive(Debug, Clone, Copy, PartialEq, Eq, Structural)]
pub enum Commitment {
    Processed,
    Confirmed,
    Finalized,
}

/// A request for the accounts of a program. What it leaves open is up to the
/// node.
#[derive(Debug)]
pub struct ProgramAccountsRequest {
    pub owner: Pubkey,
    /// The conditions that an account must meet.
    pub filters: Vec<Memcmp>,
    pub encoding: AccountEncoding,
    pub commitment: Commitment,
}

impl ProgramAccountsRequest {
    /// The request for the confirmed accounts of `owner` that meet
    /// `condition`.
    pub fn matching(owner: Pubkey, condition: Memcmp) -> (request: Self)
        ensures
            request.owner == owner,
            request.filters@ == seq![condition],
            request.encoding == AccountEncoding::Base64,
            request.commitment == Commitment::Confirmed,
    {
        let mut filters: Vec<Memcmp> = Vec::new();
        filters.push(condition);
        assert(filters@ =~= seq![condition]);
        ProgramAccountsRequest {
            owner,
            filters,
            encoding: AccountEncoding::Base64,
            commitment: Commitment::Confirmed,
        }
    }
}

/// How the body of a response is to be read.
#[derive(Debug, Clone, Copy, PartialEq, Eq, Structural)]
pub enum BodyForm {
    /// As bytes, to be decoded.
    Bytes,
    /// As text, which says what went wrong.
    Text,
}

/// The body of a response, as reading it came out.
pub enum ResponseBody<T, E> {
    /// The bytes, decoded.
    Decoded(Result<T, E>),
    Text(Result<String, E>),
}

/// Why a response has no value.
#[derive(Debug, PartialEq, Eq)]
pub enum ResponseError<E> {
    /// The body could not be read or decoded.
    Unreadable(E),
    /// The server refused the request, with this text.
    Refused(String),
}

/// The status of a request that was served.
pub const STATUS_OK: u16 = 200;

/// How the body of a response with `status` is to be read.
pub open spec fn body_form(status: u16) -> BodyForm {
    if status == STATUS_OK {
        BodyForm::Bytes
    } else {
        BodyForm::Text
    }
}

impl<T, E> ResponseBody<T, E> {
    /// The form in which the body was read.
    pub open spec fn form(self) -> BodyForm {
        match self {
            ResponseBody::Decoded(_) => BodyForm::Bytes,
            ResponseBody::Text(_) => BodyForm::Text,
        }
    }
}

impl EpochClient {
    /// UNIX timestamp (in seconds) of a slot. `block_time` is what the node
    /// answered for the slot's block: an error, or the block's time if the
    /// block has one.
    pub fn get_slot_timestamp<E>(block_time: Result<Option<i64>, E>) -> (timestamp: Option<i64>)
        ensures
            timestamp == match block_time {
                Ok(time) => time,
                Err(_) => None,
            },
    {
        match block_time {
            Ok(time) => time,
            Err(_) => None,
        }
    }

    /// The request for the accounts of `owner` whose data starts with
    /// `discriminator`.
    pub fn get_program_accounts(owner: Pubkey, discriminator: &[u8; 8]) -> (request:
        ProgramAccountsRequest)
        ensures
            request.owner == owner,
            request.filters@ == seq![base58_memcmp(0, discriminator@)],
            request.encoding == AccountEncoding::Base64,
            request.commitment == Commitment::Confirmed,
    {
        let condition = Memcmp::new_base58_encoded(0, discriminator.as_slice());
        ProgramAccountsRequest::matching(owner, condition)
    }

    /// The accounts of a node's reply that deserialize, in their order. `reply`
    /// is its error, or the accounts as their deserializations came out.
    pub fn program_accounts<A, E, F>(reply: Result<Vec<Result<A, F>>, E>) -> (accounts: Result<
        Vec<A>,
        E,
    >)
        ensures
            match reply {
                Err(e) => accounts == Err::<Vec<A>, E>(e),
                Ok(rows) => accounts is Ok && accounts->Ok_0@ == oks(rows@),
            },
    {
        match reply {
            Err(e) => Err(e),
            Ok(rows) => Ok(keep_ok(rows)),
        }
    }

    /// How the body of a response with `status` is to be read.
    pub fn response_form(status: u16) -> (form: BodyForm)
        ensures
            form == body_form(status),
    {
        if status == STATUS_OK {
            BodyForm::Bytes
        } else {
            BodyForm::Text
        }
    }

    /// The value of a response, or why it has none.
    pub fn parse_borsh_response<T, E>(status: u16, body: ResponseBody<T, E>) -> (parsed: Result<
        T,
        ResponseError<E>,
    >)
        requires
            body.form() == body_form(status),
        ensures
            parsed == match body {
                ResponseBody::Decoded(Ok(value)) => Ok(value),
                ResponseBody::Decoded(Err(e)) => Err(ResponseError::Unreadable(e)),
                ResponseBody::Text(Ok(text)) => Err(ResponseError::Refused(text)),
                ResponseBody::Text(Err(e)) => Err(ResponseError::Unreadable(e)),
            },
            parsed is Ok ==> status == STATUS_OK,
    {
        match body {
            ResponseBody::Decoded(Ok(value)) => Ok(value),
            ResponseBody::Decoded(Err(e)) => Err(ResponseError::Unreadable(e)),
            ResponseBody::Text(Ok(text)) => Err(ResponseError::Refused(text)),
            ResponseBody::Text(Err(e)) => Err(ResponseError::Unreadable(e)),
        }
    }
}

/// A slot has the timestamp that its block has, in the block's own seconds;
/// where the node answers with an error, it has none.
pub proof fn law_timestamp_is_the_blocks<E>(
    block_time: Result<Option<i64>, E>,
    timestamp: Option<i64>,
)
    requires
        call_ensures(EpochClient::get_slot_timestamp::<E>, (block_time,), timestamp),
    ensures
        call_requires(EpochClient::get_slot_timestamp::<E>, (block_time,)),
        forall|seconds: i64|
            timestamp == Some(seconds) <==> block_time == Ok::<Option<i64>, E>(Some(seconds)),
{
}

/// A request for program accounts goes to the given program. Its one condition
/// is the discriminator at the very start of the data; the data is to come in
/// base 64, from confirmed state.
pub proof fn law_request_asks_for_the_discriminator(
    owner: Pubkey,
    discriminator: [u8; 8],
    request: ProgramAccountsRequest,
)
    requires
        call_ensures(EpochClient::get_program_accounts, (owner, &discriminator), request),
    ensures
        call_requires(EpochClient::get_program_accounts, (owner, &discriminator)),
        forall|k: int| 0 <= k < 32 ==> #[trigger] request.owner.0[k] == owner.0[k],
        request.filters@.len() == 1,
        forall|bytes: Seq<u8>|
            bytes.len() == 8 && (forall|k: int| 0 <= k < 8 ==> bytes[k] == discriminator[k])
                ==> request.filters@[0] == #[trigger] base58_memcmp(0, bytes),
        request.encoding is Base64,
        request.commitment is Confirmed,
{
    assert forall|bytes: Seq<u8>|
        bytes.len() == 8 && (forall|k: int| 0 <= k < 8 ==> bytes[k] == discriminator[k]) implies
        request.filters@[0] == #[trigger] base58_memcmp(0, bytes) by {
        assert(bytes =~= discriminator@);
    }
}

/// A request for accounts that meet a condition has the given program and the
/// condition alone; the data is to come in base 64, from confirmed state.
pub proof fn law_request_has_the_condition(
    owner: Pubkey,
    condition: Memcmp,
    request: ProgramAccountsRequest,
)
    requires
        call_ensures(ProgramAccountsRequest::matching, (owner, condition), request),
    ensures
        call_requires(ProgramAccountsRequest::matching, (owner, condition)),
        forall|k: int| 0 <= k < 32 ==> #[trigger] request.owner.0[k] == owner.0[k],
        request.filters@.len() == 1,
        request.filters@[0] == condition,
        request.encoding is Base64,
        request.commitment is Confirmed,
{
}

/// The accounts of a reply are what deserializes, each in its turn; an account
/// that is not among them failed to. The node's error is handed on.
pub proof fn law_program_accounts_are_the_good_ones<A, E, F>(
    reply: Result<Vec<Result<A, F>>, E>,
    accounts: Result<Vec<A>, E>,
)
    requires
        call_ensures(EpochClient::program_accounts::<A, E, F>, (reply,), accounts),
    ensures
        call_requires(EpochClient::program_accounts::<A, E, F>, (reply,)),
        reply matches Err(e) ==> accounts == Err::<Vec<A>, E>(e),
        reply is Ok ==> accounts is Ok,
        reply matches Ok(list) ==> exists|at: Seq<int>|
            {
                &&& #[trigger] ascending(at, list@.len())
                &&& at.len() == accounts->Ok_0@.len()
                &&& forall|j: int|
                    0 <= j < at.len() ==> list@[#[trigger] at[j]] == Ok::<A, F>(
                        accounts->Ok_0@[j],
                    )
                &&& forall|i: int|
                    0 <= i < list@.len() && !(#[trigger] at.contains(i)) ==> list@[i] is Err
            },
{
    if let Ok(list) = reply {
        let _ = lemma_oks_positions(list@);
    }
}

/// A body is read as bytes exactly if the status is 200.
pub proof fn law_only_status_200_is_bytes(status: u16, form: BodyForm)
    requires
        call_ensures(EpochClient::response_form, (status,), form),
    ensures
        call_requires(EpochClient::response_form, (status,)),
        form is Bytes <==> status == 200,
        form is Text <==> status != 200,
{
}

/// A response has the value that its bytes decode to. A body that could not be
/// read or decoded is an error of its own, and a text is the reason of the
/// refusal, word for word.
pub proof fn law_response_is_its_body<T, E>(
    status: u16,
    body: ResponseBody<T, E>,
    parsed: Result<T, ResponseError<E>>,
)
    requires
        call_ensures(EpochClient::parse_borsh_response::<T, E>, (status, body), parsed),
        body is Decoded <==> status == 200,
    ensures
        call_requires(EpochClient::parse_borsh_response::<T, E>, (status, body)),
        parsed is Ok ==> status == 200,
        forall|value: T|
            parsed == Ok::<T, ResponseError<E>>(value) <==> body == ResponseBody::<T, E>::Decoded(
                Ok(value),
            ),
        forall|text: String|
            parsed == Err::<T, ResponseError<E>>(ResponseError::Refused(text)) <==> body
                == ResponseBody::<T, E>::Text(Ok(text)),
        forall|e: E|
            parsed == Err::<T, ResponseError<E>>(ResponseError::Unreadable(e)) <==> body
                == ResponseBody::<T, E>::Text(Err(e)) || body == ResponseBody::<T, E>::Decoded(
                Err(e),
            ),
{
}

} // verus!
