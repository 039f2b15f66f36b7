//! Replies of the archive: rows, and the slots that it reaches from and to.

use crate::accounts::{DecodedEpochAccount, EpochAccount, Pubkey};
use crate::client::EpochClient;
use crate::decode::{
    after, all_events, can_be_named, decoded_rows, law_outcomes_are_decoded_rows,
    law_run_decodes_rows, lemma_decoded_rows_positions, outcomes, somes, DecodeRun, DecodeState,
};
use crate::order::{
    descends, law_newest_first_descends, law_newest_first_permutes, lemma_newest_first_positions,
    newest_first, sort_newest_first,
};
use crate::positions::{ascending, lemma_filter_map_positions};
use vstd::prelude::*;

verus! {

/// What the rows that came out well hold, in their order.
pub open spec fn oks<A, E>(rows: Seq<Result<A, E>>) -> Seq<A> {
    rows.filter_map(
        |row: Result<A, E>|
            match row {
                Ok(a) => Some(a),
                Err(_) => None,
            },
    )
}

/// Drops the rows that failed.
pub fn keep_ok<A, E>(rows: Vec<Result<A, E>>) -> (kept: Vec<A>)
    ensures
        kept@ == oks(rows@),
{
    let ghost all = rows@;
    let ghost ok = |row: Result<A, E>|
        match row {
            Ok(a) => Some(a),
            Err(_) => None,
        };
    let mut kept: Vec<A> = Vec::new();
    for row in it: rows
        invariant
            it.seq() == all,
            kept@ == all.take(it.index()).filter_map(ok),
            ok == (|row: Result<A, E>|
                match row {
                    Ok(a) => Some(a),
                    Err(_) => None,
                }),
    {
        proof {
            all.lemma_filter_map_take_succ(ok, it.index());
        }
        if let Ok(a) = row {
            kept.push(a);
        }
    }
    assert(all.take(all.len() as int) =~= all);
    kept
}

/// A slot as the archive stores it, taken as unsigned: a negative number wraps
/// around.
pub open spec fn slot_number(stored: i64) -> int {
    if stored >= 0 {
        stored as int
    } else {
        stored + 0x1_0000_0000_0000_0000
    }
}

fn to_slot(stored: i64) -> (slot: u64)
    ensures
        slot == slot_number(stored),
{
    assert(stored >= 0 ==> #[verifier::truncate] (stored as u64) == stored) by (bit_vector);
    assert(stored < 0 ==> #[verifier::truncate] (stored as u64) == stored
        + 0x1_0000_0000_0000_0000) by (bit_vector);
    #[verifier::truncate]
    (stored as u64)
}

/// A stored slot as the client returns it.
pub open spec fn slot_reply<E>(stored: Result<Option<i64>, E>) -> Result<Option<u64>, E> {
    match stored {
        Err(e) => Err(e),
        Ok(None) => Ok(None),
        Ok(Some(s)) => Ok(Some(slot_number(s) as u64)),
    }
}

fn to_slot_reply<E>(stored: Result<Option<i64>, E>) -> (slot: Result<Option<u64>, E>)
    ensures
        slot == slot_reply(stored),
{
    match stored {
        Err(e) => Err(e),
        Ok(Some(s)) => Ok(Some(to_slot(s))),
        Ok(None) => Ok(None),
    }
}

impl EpochClient {
    /// The account of one archive row. `row` is the archive's reply: its
    /// error, no row, or the row as its conversion came out.
    pub fn account_id<A, E>(row: Result<Option<Result<A, E>>, E>) -> (account: Result<Option<A>, E>)
        ensures
            account == match row {
                Err(e) => Err(e),
                Ok(None) => Ok(None),
                Ok(Some(Err(e))) => Err(e),
                Ok(Some(Ok(a))) => Ok(Some(a)),
            },
    {
        match row {
            Err(e) => Err(e),
            Ok(None) => Ok(None),
            Ok(Some(Err(e))) => Err(e),
            Ok(Some(Ok(a))) => Ok(Some(a)),
        }
    }

    /// The accounts of the archive rows that convert, in their order. `rows` is
    /// the archive's reply: its error, or the rows as their conversions came
    /// out.
    pub fn accounts<A, E, F>(rows: Result<Vec<Result<A, F>>, E>) -> (accounts: Result<Vec<A>, E>)
        ensures
            match rows {
                Err(e) => accounts == Err::<Vec<A>, E>(e),
                Ok(rows) => accounts is Ok && accounts->Ok_0@ == oks(rows@),
            },
    {
        match rows {
            Err(e) => Err(e),
            Ok(rows) => Ok(keep_ok(rows)),
        }
    }

    /// The accounts that the archive rows decode to, in the order of the rows.
    /// A row that does not convert, has no name or does not decode is passed
    /// over.
    ///
    /// `rows` is the archive's reply: its error, or the rows as their
    /// conversions came out. `name_of` tells the account type that a
    /// discriminant stands for among the accounts of `owner`, and `decode`
    /// decodes data as such a type.
    pub fn borsh_decoded_accounts<D, E, F, N, G>(
        owner: Pubkey,
        rows: Result<Vec<Result<EpochAccount, F>>, E>,
        name_of: N,
        decode: G,
    ) -> (accounts: Result<Vec<DecodedEpochAccount<D>>, E>) where
        N: Fn(&Pubkey, [u8; 8]) -> Option<String>,
        G: Fn(&Pubkey, &String, &Vec<u8>) -> Result<D, F>,

        requires
            forall|o: &Pubkey, d: [u8; 8]| call_requires(name_of, (o, d)),
            forall|o: &Pubkey, n: &String, d: &Vec<u8>| call_requires(decode, (o, n, d)),
            rows matches Ok(rows) ==> forall|i: int|
                0 <= i < rows@.len() ==> can_be_named(#[trigger] rows@[i]),
        ensures
            match rows {
                Err(e) => accounts == Err::<Vec<DecodedEpochAccount<D>>, E>(e),
                Ok(rows) => {
                    &&& accounts is Ok
                    &&& exists|outs: Seq<Option<DecodedEpochAccount<D>>>|
                        {
                            &&& outcomes(owner, rows@, name_of, decode, outs)
                            &&& accounts->Ok_0@ == #[trigger] somes(outs)
                        }
                },
            },
    {
        match rows {
            Err(e) => Err(e),
            Ok(rows) => {
                let run = DecodeRun::over(owner, rows, name_of, decode);
                Ok(run.finish())
            },
        }
    }

    /// The accounts that the archive rows decode to, the highest slot first; of
    /// one slot, in the reverse order of the rows. A row that does not convert,
    /// has no name or does not decode is passed over.
    ///
    /// `rows` is the archive's reply: its error, or the rows as their
    /// conversions came out. `name_of` tells the account type that a
    /// discriminant stands for among the accounts of `owner`, and `decode`
    /// decodes data as such a type.
    pub fn json_decoded_accounts<D, E, F, N, G>(
        owner: Pubkey,
        rows: Result<Vec<Result<EpochAccount, F>>, E>,
        name_of: N,
        decode: G,
    ) -> (accounts: Result<Vec<DecodedEpochAccount<D>>, E>) where
        N: Fn(&Pubkey, [u8; 8]) -> Option<String>,
        G: Fn(&Pubkey, &String, &Vec<u8>) -> Result<D, F>,

        requires
            forall|o: &Pubkey, d: [u8; 8]| call_requires(name_of, (o, d)),
            forall|o: &Pubkey, n: &String, d: &Vec<u8>| call_requires(decode, (o, n, d)),
            rows matches Ok(rows) ==> forall|i: int|
                0 <= i < rows@.len() ==> can_be_named(#[trigger] rows@[i]),
        ensures
            match rows {
                Err(e) => accounts == Err::<Vec<DecodedEpochAccount<D>>, E>(e),
                Ok(rows) => {
                    &&& accounts is Ok
                    &&& exists|outs: Seq<Option<DecodedEpochAccount<D>>>|
                        {
                            &&& outcomes(owner, rows@, name_of, decode, outs)
                            &&& accounts->Ok_0@ == newest_first(#[trigger] somes(outs))
                        }
                },
            },
    {
        match rows {
            Err(e) => Err(e),
            Ok(rows) => {
                let run = DecodeRun::over(owner, rows, name_of, decode);
                Ok(sort_newest_first(run.finish()))
            },
        }
    }

    /// The highest slot in the archive, if it holds any.
    pub fn highest_slot<E>(stored: Result<Option<i64>, E>) -> (slot: Result<Option<u64>, E>)
        ensures
            slot == slot_reply(stored),
    {
        to_slot_reply(stored)
    }

    /// The lowest slot in the archive, if it holds any.
    pub fn lowest_slot<E>(stored: Result<Option<i64>, E>) -> (slot: Result<Option<u64>, E>)
        ensures
            slot == slot_reply(stored),
    {
        to_slot_reply(stored)
    }
}

/// Rows are kept or dropped one by one: what is kept of two lists in a row is
/// what is kept of the first, then what is kept of the second.
pub proof fn law_rows_are_independent<A, E>(a: Seq<Result<A, E>>, b: Seq<Result<A, E>>)
    ensures
        oks(a + b) == oks(a) + oks(b),
    decreases b.len(),
{
    if b.len() == 0 {
        assert(a + b =~= a);
        assert(oks(a) + oks(b) =~= oks(a));
    } else {
        law_rows_are_independent(a, b.drop_last());
        assert((a + b).drop_last() =~= a + b.drop_last());
        assert(oks(a + b) =~= oks(a) + oks(b));
    }
}

/// Where no row fails, nothing is dropped.
pub proof fn law_good_rows_all_stay<A, E>(rows: Seq<Result<A, E>>)
    requires
        forall|i: int| 0 <= i < rows.len() ==> (#[trigger] rows[i]) is Ok,
    ensures
        oks(rows).len() == rows.len(),
        forall|i: int| 0 <= i < rows.len() ==> rows[i] == Ok::<A, E>(#[trigger] oks(rows)[i]),
    decreases rows.len(),
{
    if rows.len() > 0 {
        let init = rows.drop_last();
        law_good_rows_all_stay(init);
        assert(rows[rows.len() - 1] is Ok);
        assert forall|i: int| 0 <= i < rows.len() implies rows[i] == Ok::<A, E>(
            #[trigger] oks(rows)[i],
        ) by {
            if i < init.len() {
                assert(init[i] == Ok::<A, E>(oks(init)[i]));
            }
        }
    }
}

/// A stored slot that is not negative is returned as it is, and stored slots
/// that differ stay apart.
pub proof fn law_slots_are_kept(a: i64, b: i64)
    ensures
        a >= 0 ==> slot_number(a) == a,
        0 <= slot_number(a) <= u64::MAX,
        slot_number(a) == slot_number(b) ==> a == b,
{
}

/// Of two stored slots that are not negative, the higher is returned as the
/// higher: the lowest slot is never above the highest.
pub proof fn law_slots_keep_their_order(lowest: i64, highest: i64)
    requires
        0 <= lowest <= highest,
    ensures
        slot_number(lowest) <= slot_number(highest),
{
}

/// A JSON run over `rows` returns what the rows decode to, no more and no less,
/// with the highest slot first and the accounts of one slot in reverse.
pub proof fn law_json_run_orders_rows<D, E>(
    owner: Pubkey,
    rows: Seq<Result<EpochAccount, E>>,
    names: spec_fn(Pubkey, Seq<u8>) -> Option<String>,
    decode: spec_fn(Pubkey, String, Seq<u8>) -> Result<D, E>,
)
    requires
        forall|i: int| 0 <= i < rows.len() ==> can_be_named(#[trigger] rows[i]),
    ensures
        ({
            let end = after(
                DecodeState::<D>::start(owner),
                all_events(owner, rows, names, decode),
            );
            let returned = newest_first(end.decoded);
            &&& returned == newest_first(decoded_rows(owner, rows, names, decode))
            &&& returned.to_multiset() == decoded_rows(owner, rows, names, decode).to_multiset()
            &&& descends(returned)
        }),
{
    law_run_decodes_rows(owner, rows, names, decode);
    law_newest_first_permutes(decoded_rows(owner, rows, names, decode));
    law_newest_first_descends(decoded_rows(owner, rows, names, decode));
}

/// The highest slot is the stored one where that is not negative, and wraps
/// around where it is. There is none exactly if the archive has none, and the
/// archive's error is handed on.
pub proof fn law_highest_slot_is_as_stored<E>(
    stored: Result<Option<i64>, E>,
    slot: Result<Option<u64>, E>,
)
    requires
        call_ensures(EpochClient::highest_slot::<E>, (stored,), slot),
    ensures
        call_requires(EpochClient::highest_slot::<E>, (stored,)),
        stored matches Err(e) ==> slot == Err::<Option<u64>, E>(e),
        stored is Ok ==> slot is Ok,
        stored is Ok ==> (slot->Ok_0 is None <==> stored->Ok_0 is None),
        stored matches Ok(Some(s)) ==> s >= 0 ==> slot->Ok_0->0 == s,
        stored matches Ok(Some(s)) ==> s < 0 ==> slot->Ok_0->0 == s + 0x1_0000_0000_0000_0000,
{
}

/// The lowest slot is the stored one where that is not negative, and wraps
/// around where it is. There is none exactly if the archive has none, and the
/// archive's error is handed on.
pub proof fn law_lowest_slot_is_as_stored<E>(
    stored: Result<Option<i64>, E>,
    slot: Result<Option<u64>, E>,
)
    requires
        call_ensures(EpochClient::lowest_slot::<E>, (stored,), slot),
    ensures
        call_requires(EpochClient::lowest_slot::<E>, (stored,)),
        stored matches Err(e) ==> slot == Err::<Option<u64>, E>(e),
        stored is Ok ==> slot is Ok,
        stored is Ok ==> (slot->Ok_0 is None <==> stored->Ok_0 is None),
        stored matches Ok(Some(s)) ==> s >= 0 ==> slot->Ok_0->0 == s,
        stored matches Ok(Some(s)) ==> s < 0 ==> slot->Ok_0->0 == s + 0x1_0000_0000_0000_0000,
{
}

/// What is kept of a list of rows is what its successful rows hold, each in its
/// turn; a row that is not kept failed.
pub proof fn law_kept_rows_are_the_good_ones<A, E>(rows: Vec<Result<A, E>>, kept: Vec<A>)
    requires
        call_ensures(keep_ok::<A, E>, (rows,), kept),
    ensures
        call_requires(keep_ok::<A, E>, (rows,)),
        exists|at: Seq<int>|
            {
                &&& #[trigger] ascending(at, rows@.len())
                &&& at.len() == kept@.len()
                &&& forall|j: int|
                    0 <= j < at.len() ==> rows@[#[trigger] at[j]] == Ok::<A, E>(kept@[j])
                &&& forall|i: int|
                    0 <= i < rows@.len() && !(#[trigger] at.contains(i)) ==> rows@[i] is Err
            },
{
    let _ = lemma_oks_positions(rows@);
}

/// Where the rows that came out well stand: what is kept comes from the rows at
/// `at`, in turn, and every other row failed.
pub proof fn lemma_oks_positions<A, E>(rows: Seq<Result<A, E>>) -> (at: Seq<int>)
    ensures
        ascending(at, rows.len()),
        at.len() == oks(rows).len(),
        forall|j: int| 0 <= j < at.len() ==> rows[#[trigger] at[j]] == Ok::<A, E>(oks(rows)[j]),
        forall|i: int| 0 <= i < rows.len() && !(#[trigger] at.contains(i)) ==> rows[i] is Err,
{
    let f = |row: Result<A, E>|
        match row {
            Ok(a) => Some(a),
            Err(_) => None,
        };
    let at = lemma_filter_map_positions(rows, f);
    assert forall|j: int| 0 <= j < at.len() implies rows[#[trigger] at[j]] == Ok::<A, E>(
        oks(rows)[j],
    ) by {
        assert(f(rows[at[j]]) == Some(oks(rows)[j]));
    }
    assert forall|i: int| 0 <= i < rows.len() && !(#[trigger] at.contains(i)) implies rows[
        i
    ] is Err by {
        assert(f(rows[i]) is None);
    }
    at
}

/// The accounts are what the rows that convert hold, each in its turn; a row
/// that gives no account failed to convert. The archive's error is handed on.
pub proof fn law_accounts_are_the_good_rows<A, E, F>(
    rows: Result<Vec<Result<A, F>>, E>,
    accounts: Result<Vec<A>, E>,
)
    requires
        call_ensures(EpochClient::accounts::<A, E, F>, (rows,), accounts),
    ensures
        call_requires(EpochClient::accounts::<A, E, F>, (rows,)),
        rows matches Err(e) ==> accounts == Err::<Vec<A>, E>(e),
        rows is Ok ==> accounts is Ok,
        rows matches Ok(list) ==> exists|at: Seq<int>|
            {
                &&& #[trigger] ascending(at, list@.len())
                &&& at.len() == accounts->Ok_0@.len()
                &&& forall|j: int|
                    0 <= j < at.len() ==> list@[#[trigger] at[j]] == Ok::<A, F>(
                        accounts->Ok_0@[j],
                    )
                &&& forall|i: int|
                    0 <= i < list@.len() && !(#[trigger] at.contains(i)) ==> list@[i] is Err
            },
{
    if let Ok(list) = rows {
        let _ = lemma_oks_positions(list@);
    }
}

/// A row that converts is the account returned, a row that does not is the
/// error, and nothing is returned exactly if the archive found nothing.
pub proof fn law_account_id_is_the_row<A, E>(
    row: Result<Option<Result<A, E>>, E>,
    account: Result<Option<A>, E>,
)
    requires
        call_ensures(EpochClient::account_id::<A, E>, (row,), account),
    ensures
        call_requires(EpochClient::account_id::<A, E>, (row,)),
        forall|a: A|
            row == Ok::<Option<Result<A, E>>, E>(Some(Ok::<A, E>(a))) <==> account == Ok::<
                Option<A>,
                E,
            >(Some(a)),
        row == Ok::<Option<Result<A, E>>, E>(None) <==> account == Ok::<Option<A>, E>(None),
        forall|e: E|
            row == Err::<Option<Result<A, E>>, E>(e) || row == Ok::<Option<Result<A, E>>, E>(
                Some(Err::<A, E>(e)),
            ) <==> account == Err::<Option<A>, E>(e),
{
}

/// The archive's error is handed on, and any rows may be handed in that are at
/// least eight bytes long where they convert, with a decoder that takes any
/// question.
pub proof fn law_borsh_decoded_accounts_take_any_reply<D, E, F, N, G>(
    owner: Pubkey,
    rows: Result<Vec<Result<EpochAccount, F>>, E>,
    name_of: N,
    decode: G,
    accounts: Result<Vec<DecodedEpochAccount<D>>, E>,
) where
    N: Fn(&Pubkey, [u8; 8]) -> Option<String>,
    G: Fn(&Pubkey, &String, &Vec<u8>) -> Result<D, F>,

    requires
        forall|o: &Pubkey, d: [u8; 8]| call_requires(name_of, (o, d)),
        forall|o: &Pubkey, n: &String, d: &Vec<u8>| call_requires(decode, (o, n, d)),
        rows matches Ok(list) ==> forall|i: int|
            0 <= i < list@.len() ==> (#[trigger] list@[i] matches Ok(account)
                ==> account.data@.len() >= 8),
    ensures
        call_requires(
            EpochClient::borsh_decoded_accounts::<D, E, F, N, G>,
            (owner, rows, name_of, decode),
        ),
        call_ensures(
            EpochClient::borsh_decoded_accounts::<D, E, F, N, G>,
            (owner, rows, name_of, decode),
            accounts,
        ) ==> match rows {
            Err(e) => accounts == Err::<Vec<DecodedEpochAccount<D>>, E>(e),
            Ok(_) => accounts is Ok,
        },
{
    if let Ok(list) = rows {
        assert forall|i: int| 0 <= i < list@.len() implies can_be_named(#[trigger] list@[i]) by {}
    }
}

/// The archive's error is handed on, and any rows may be handed in that are at
/// least eight bytes long where they convert, with a decoder that takes any
/// question.
pub proof fn law_json_decoded_accounts_take_any_reply<D, E, F, N, G>(
    owner: Pubkey,
    rows: Result<Vec<Result<EpochAccount, F>>, E>,
    name_of: N,
    decode: G,
    accounts: Result<Vec<DecodedEpochAccount<D>>, E>,
) where
    N: Fn(&Pubkey, [u8; 8]) -> Option<String>,
    G: Fn(&Pubkey, &String, &Vec<u8>) -> Result<D, F>,

    requires
        forall|o: &Pubkey, d: [u8; 8]| call_requires(name_of, (o, d)),
        forall|o: &Pubkey, n: &String, d: &Vec<u8>| call_requires(decode, (o, n, d)),
        rows matches Ok(list) ==> forall|i: int|
            0 <= i < list@.len() ==> (#[trigger] list@[i] matches Ok(account)
                ==> account.data@.len() >= 8),
    ensures
        call_requires(
            EpochClient::json_decoded_accounts::<D, E, F, N, G>,
            (owner, rows, name_of, decode),
        ),
        call_ensures(
            EpochClient::json_decoded_accounts::<D, E, F, N, G>,
            (owner, rows, name_of, decode),
            accounts,
        ) ==> match rows {
            Err(e) => accounts == Err::<Vec<DecodedEpochAccount<D>>, E>(e),
            Ok(_) => accounts is Ok,
        },
{
    if let Ok(list) = rows {
        assert forall|i: int| 0 <= i < list@.len() implies can_be_named(#[trigger] list@[i]) by {}
    }
}

/// Where the decoder answers by `names` and `decoding`, there is one account for
/// each row that converts, has a name by its first eight bytes and decodes, and
/// for no other row. The accounts stand in the order of their rows and have key,
/// slot and owner of the row.
pub proof fn law_borsh_accounts_are_what_can_be_decoded<D, E, F, N, G>(
    owner: Pubkey,
    rows: Vec<Result<EpochAccount, F>>,
    name_of: N,
    decode: G,
    accounts: Result<Vec<DecodedEpochAccount<D>>, E>,
    names: spec_fn(Pubkey, Seq<u8>) -> Option<String>,
    decoding: spec_fn(Pubkey, String, Seq<u8>) -> Result<D, F>,
) where
    N: Fn(&Pubkey, [u8; 8]) -> Option<String>,
    G: Fn(&Pubkey, &String, &Vec<u8>) -> Result<D, F>,

    requires
        call_ensures(
            EpochClient::borsh_decoded_accounts::<D, E, F, N, G>,
            (owner, Ok::<Vec<Result<EpochAccount, F>>, E>(rows), name_of, decode),
            accounts,
        ),
        forall|o: &Pubkey, d: [u8; 8], name: Option<String>| #[trigger]
            call_ensures(name_of, (o, d), name) ==> name == names(*o, d@),
        forall|o: &Pubkey, n: &String, d: &Vec<u8>, reply: Result<D, F>| #[trigger]
            call_ensures(decode, (o, n, d), reply) ==> reply == decoding(*o, *n, d@),
    ensures
        accounts is Ok,
        exists|at: Seq<int>|
            {
                let out = accounts->Ok_0@;
                &&& #[trigger] ascending(at, rows@.len())
                &&& at.len() == out.len()
                &&& forall|j: int|
                    0 <= j < at.len() ==> {
                        &&& rows@[#[trigger] at[j]] matches Ok(source)
                        &&& names(owner, source.data@.take(8)) matches Some(name)
                        &&& decoding(owner, name, source.data@) == Ok::<D, F>(out[j].decoded)
                        &&& out[j].key == source.key
                        &&& out[j].slot == source.slot
                        &&& out[j].owner == source.owner
                    }
                &&& forall|i: int|
                    0 <= i < rows@.len() && !(#[trigger] at.contains(i)) ==> {
                        rows@[i] matches Ok(source) ==> names(owner, source.data@.take(8)) matches Some(
                            name,
                        ) ==> decoding(owner, name, source.data@) is Err
                    }
            },
{
    let outs = choose|outs: Seq<Option<DecodedEpochAccount<D>>>|
        outcomes(owner, rows@, name_of, decode, outs) && accounts->Ok_0@ == #[trigger] somes(outs);
    law_outcomes_are_decoded_rows(owner, rows@, name_of, decode, outs, names, decoding);
    let at = lemma_decoded_rows_positions(owner, rows@, names, decoding);
    assert(ascending(at, rows@.len()));
}

/// The accounts `out` come from the rows at `at`, no row twice. A higher slot
/// comes before a lower one; of two accounts with one slot, that whose row
/// stands further back comes first.
pub open spec fn drawn_newest_first<D>(
    at: Seq<int>,
    len: nat,
    out: Seq<DecodedEpochAccount<D>>,
) -> bool {
    &&& at.len() == out.len()
    &&& forall|j: int| 0 <= j < at.len() ==> 0 <= #[trigger] at[j] < len
    &&& forall|j: int, k: int| 0 <= j < k < at.len() ==> at[j] != at[k]
    &&& forall|j: int, k: int|
        0 <= j < k < out.len() ==> {
            ||| (#[trigger] out[j]).slot > (#[trigger] out[k]).slot
            ||| out[j].slot == out[k].slot && at[j] > at[k]
        }
}

/// Where the decoder answers by `names` and `decoding`, there is one account for
/// each row that converts, has a name by its first eight bytes and decodes, and
/// for no other row. The accounts have key, slot and owner of the row; the
/// highest slot comes first, and of one slot the account of the last row.
pub proof fn law_json_accounts_are_what_can_be_decoded<D, E, F, N, G>(
    owner: Pubkey,
    rows: Vec<Result<EpochAccount, F>>,
    name_of: N,
    decode: G,
    accounts: Result<Vec<DecodedEpochAccount<D>>, E>,
    names: spec_fn(Pubkey, Seq<u8>) -> Option<String>,
    decoding: spec_fn(Pubkey, String, Seq<u8>) -> Result<D, F>,
) where
    N: Fn(&Pubkey, [u8; 8]) -> Option<String>,
    G: Fn(&Pubkey, &String, &Vec<u8>) -> Result<D, F>,

    requires
        call_ensures(
            EpochClient::json_decoded_accounts::<D, E, F, N, G>,
            (owner, Ok::<Vec<Result<EpochAccount, F>>, E>(rows), name_of, decode),
            accounts,
        ),
        forall|o: &Pubkey, d: [u8; 8], name: Option<String>| #[trigger]
            call_ensures(name_of, (o, d), name) ==> name == names(*o, d@),
        forall|o: &Pubkey, n: &String, d: &Vec<u8>, reply: Result<D, F>| #[trigger]
            call_ensures(decode, (o, n, d), reply) ==> reply == decoding(*o, *n, d@),
    ensures
        accounts is Ok,
        exists|at: Seq<int>|
            {
                let out = accounts->Ok_0@;
                &&& #[trigger] drawn_newest_first(at, rows@.len(), accounts->Ok_0@)
                &&& at.len() == out.len()
                &&& forall|j: int|
                    0 <= j < at.len() ==> {
                        &&& rows@[#[trigger] at[j]] matches Ok(source)
                        &&& names(owner, source.data@.take(8)) matches Some(name)
                        &&& decoding(owner, name, source.data@) == Ok::<D, F>(out[j].decoded)
                        &&& out[j].key == source.key
                        &&& out[j].slot == source.slot
                        &&& out[j].owner == source.owner
                    }
                &&& forall|i: int|
                    0 <= i < rows@.len() && !(#[trigger] at.contains(i)) ==> {
                        rows@[i] matches Ok(source) ==> names(owner, source.data@.take(8)) matches Some(
                            name,
                        ) ==> decoding(owner, name, source.data@) is Err
                    }
            },
{
    let outs = choose|outs: Seq<Option<DecodedEpochAccount<D>>>|
        outcomes(owner, rows@, name_of, decode, outs) && accounts->Ok_0@ == newest_first(
            #[trigger] somes(outs),
        );
    law_outcomes_are_decoded_rows(owner, rows@, name_of, decode, outs, names, decoding);
    let decoded = somes(outs);
    let out = accounts->Ok_0@;
    let from = lemma_decoded_rows_positions(owner, rows@, names, decoding);
    let order = lemma_newest_first_positions(decoded);
    let at = Seq::new(order.len(), |j: int| from[order[j]]);
    assert forall|j: int| 0 <= j < at.len() implies #[trigger] at[j] == from[order[j]] && 0
        <= order[j] < from.len() && out[j] == decoded[order[j]] by {}
    assert forall|j: int, k: int| 0 <= j < k < at.len() implies at[j] != at[k] by {
        assert(order[j] != order[k]);
        if order[j] < order[k] {
            assert(from[order[j]] < from[order[k]]);
        } else {
            assert(from[order[k]] < from[order[j]]);
        }
    }
    assert forall|j: int, k: int| 0 <= j < k < out.len() implies {
        ||| (#[trigger] out[j]).slot > (#[trigger] out[k]).slot
        ||| out[j].slot == out[k].slot && at[j] > at[k]
    } by {
        assert(at[j] == from[order[j]] && at[k] == from[order[k]]);
        assert(out[j] == decoded[order[j]] && out[k] == decoded[order[k]]);
        if out[j].slot == out[k].slot {
            assert(from[order[k]] < from[order[j]]);
        }
    }
    assert forall|i: int| 0 <= i < rows@.len() && !(#[trigger] at.contains(i)) implies {
        rows@[i] matches Ok(source) ==> names(owner, source.data@.take(8)) matches Some(name)
            ==> decoding(owner, name, source.data@) is Err
    } by {
        if from.contains(i) {
            let m = from.index_of(i);
            assert(order.contains(m));
            let j = order.index_of(m);
            assert(at[j] == i);
        }
    }
    assert(drawn_newest_first(at, rows@.len(), out));
}

/// No row that can be decoded is lost: where row `i` converts, has a name by its
/// first eight bytes and decodes, an account with its key, slot and owner and
/// what it decodes to is returned.
pub proof fn law_borsh_accounts_lose_no_row<D, E, F, N, G>(
    owner: Pubkey,
    rows: Vec<Result<EpochAccount, F>>,
    name_of: N,
    decode: G,
    accounts: Vec<DecodedEpochAccount<D>>,
    names: spec_fn(Pubkey, Seq<u8>) -> Option<String>,
    decoding: spec_fn(Pubkey, String, Seq<u8>) -> Result<D, F>,
    i: int,
    source: EpochAccount,
    name: String,
    value: D,
) where
    N: Fn(&Pubkey, [u8; 8]) -> Option<String>,
    G: Fn(&Pubkey, &String, &Vec<u8>) -> Result<D, F>,

    requires
        call_ensures(
            EpochClient::borsh_decoded_accounts::<D, E, F, N, G>,
            (owner, Ok::<Vec<Result<EpochAccount, F>>, E>(rows), name_of, decode),
            Ok::<Vec<DecodedEpochAccount<D>>, E>(accounts),
        ),
        forall|o: &Pubkey, d: [u8; 8], name: Option<String>| #[trigger]
            call_ensures(name_of, (o, d), name) ==> name == names(*o, d@),
        forall|o: &Pubkey, n: &String, d: &Vec<u8>, reply: Result<D, F>| #[trigger]
            call_ensures(decode, (o, n, d), reply) ==> reply == decoding(*o, *n, d@),
        0 <= i < rows@.len(),
        rows@[i] == Ok::<EpochAccount, F>(source),
        names(owner, source.data@.take(8)) == Some(name),
        decoding(owner, name, source.data@) == Ok::<D, F>(value),
    ensures
        accounts@.contains(
            DecodedEpochAccount {
                key: source.key,
                slot: source.slot,
                owner: source.owner,
                decoded: value,
            },
        ),
{
    law_borsh_accounts_are_what_can_be_decoded::<D, E, F, N, G>(
        owner,
        rows,
        name_of,
        decode,
        Ok(accounts),
        names,
        decoding,
    );
    let at = choose|at: Seq<int>|
        {
            let out = accounts@;
            &&& #[trigger] ascending(at, rows@.len())
            &&& at.len() == out.len()
            &&& forall|j: int|
                0 <= j < at.len() ==> {
                    &&& rows@[#[trigger] at[j]] matches Ok(source)
                    &&& names(owner, source.data@.take(8)) matches Some(name)
                    &&& decoding(owner, name, source.data@) == Ok::<D, F>(out[j].decoded)
                    &&& out[j].key == source.key
                    &&& out[j].slot == source.slot
                    &&& out[j].owner == source.owner
                }
            &&& forall|i: int|
                0 <= i < rows@.len() && !(#[trigger] at.contains(i)) ==> {
                    rows@[i] matches Ok(source) ==> names(owner, source.data@.take(8)) matches Some(
                        name,
                    ) ==> decoding(owner, name, source.data@) is Err
                }
        };
    assert(at.contains(i));
    let j = at.index_of(i);
    assert(rows@[at[j]] == rows@[i]);
    assert(accounts@[j] == DecodedEpochAccount {
        key: source.key,
        slot: source.slot,
        owner: source.owner,
        decoded: value,
    });
}

/// No row that can be decoded is lost: where row `i` converts, has a name by its
/// first eight bytes and decodes, an account with its key, slot and owner and
/// what it decodes to is returned.
pub proof fn law_json_accounts_lose_no_row<D, E, F, N, G>(
    owner: Pubkey,
    rows: Vec<Result<EpochAccount, F>>,
    name_of: N,
    decode: G,
    accounts: Vec<DecodedEpochAccount<D>>,
    names: spec_fn(Pubkey, Seq<u8>) -> Option<String>,
    decoding: spec_fn(Pubkey, String, Seq<u8>) -> Result<D, F>,
    i: int,
    source: EpochAccount,
    name: String,
    value: D,
) where
    N: Fn(&Pubkey, [u8; 8]) -> Option<String>,
    G: Fn(&Pubkey, &String, &Vec<u8>) -> Result<D, F>,

    requires
        call_ensures(
            EpochClient::json_decoded_accounts::<D, E, F, N, G>,
            (owner, Ok::<Vec<Result<EpochAccount, F>>, E>(rows), name_of, decode),
            Ok::<Vec<DecodedEpochAccount<D>>, E>(accounts),
        ),
        forall|o: &Pubkey, d: [u8; 8], name: Option<String>| #[trigger]
            call_ensures(name_of, (o, d), name) ==> name == names(*o, d@),
        forall|o: &Pubkey, n: &String, d: &Vec<u8>, reply: Result<D, F>| #[trigger]
            call_ensures(decode, (o, n, d), reply) ==> reply == decoding(*o, *n, d@),
        0 <= i < rows@.len(),
        rows@[i] == Ok::<EpochAccount, F>(source),
        names(owner, source.data@.take(8)) == Some(name),
        decoding(owner, name, source.data@) == Ok::<D, F>(value),
    ensures
        accounts@.contains(
            DecodedEpochAccount {
                key: source.key,
                slot: source.slot,
                owner: source.owner,
                decoded: value,
            },
        ),
{
    law_json_accounts_are_what_can_be_decoded::<D, E, F, N, G>(
        owner,
        rows,
        name_of,
        decode,
        Ok(accounts),
        names,
        decoding,
    );
    let at = choose|at: Seq<int>|
        {
            let out = accounts@;
            &&& #[trigger] drawn_newest_first(at, rows@.len(), accounts@)
            &&& at.len() == out.len()
            &&& forall|j: int|
                0 <= j < at.len() ==> {
                    &&& rows@[#[trigger] at[j]] matches Ok(source)
                    &&& names(owner, source.data@.take(8)) matches Some(name)
                    &&& decoding(owner, name, source.data@) == Ok::<D, F>(out[j].decoded)
                    &&& out[j].key == source.key
                    &&& out[j].slot == source.slot
                    &&& out[j].owner == source.owner
                }
            &&& forall|i: int|
                0 <= i < rows@.len() && !(#[trigger] at.contains(i)) ==> {
                    rows@[i] matches Ok(source) ==> names(owner, source.data@.take(8)) matches Some(
                        name,
                    ) ==> decoding(owner, name, source.data@) is Err
                }
        };
    assert(at.contains(i));
    let j = at.index_of(i);
    assert(rows@[at[j]] == rows@[i]);
    assert(accounts@[j] == DecodedEpochAccount {
        key: source.key,
        slot: source.slot,
        owner: source.owner,
        decoded: value,
    });
}

} // verus!
