//! Decoding archived accounts, one outside reply at a time.
//!
//! An archived row becomes a decoded account in three outside steps: the row is
//! converted, the first bytes of its data are looked up as the name of an
//! account type, and the data is decoded as that type. A row that fails at any
//! of them is passed over. A [`DecodeRun`] says what to ask next and takes the
//! reply; [`DecodeRun::over`] makes a whole run, with the decoder's two calls
//! handed in.

use crate::accounts::{DecodedEpochAccount, EpochAccount, Pubkey};
use crate::positions::{ascending, lemma_filter_map_positions};
use vstd::prelude::*;

verus! {

/// How many leading bytes of an account's data tell its type.
pub const DISCRIMINANT_LEN: usize = 8;

/// How far the row at hand has come.
#[derive(Debug)]
pub enum DecodeStage {
    /// No row is at hand.
    Idle,
    /// The row was converted; its type is not known yet.
    Naming(EpochAccount),
    /// The row's type is known by name; its data is not decoded yet.
    Decoding(EpochAccount, String),
}

/// A reply from outside.
pub enum DecodeEvent<D, E> {
    /// The next row, as its conversion came out.
    Account(Result<EpochAccount, E>),
    /// The name that the decoder has for the discriminant.
    Name(Option<String>),
    /// The data, as its decoding came out.
    Decoded(Result<D, E>),
}

/// What a run needs next.
#[derive(Debug)]
pub enum DecodeRequest<'a> {
    /// The next row, or the end of the run.
    NextAccount,
    /// The name of the account type that `discriminant` stands for.
    LookUpName { owner: &'a Pubkey, discriminant: [u8; 8] },
    /// `data`, decoded as the account type `name`.
    Decode { owner: &'a Pubkey, name: &'a String, data: &'a Vec<u8> },
}

/// The state of a run.
pub struct DecodeState<D> {
    pub owner: Pubkey,
    pub stage: DecodeStage,
    pub decoded: Seq<DecodedEpochAccount<D>>,
}

impl<D> DecodeState<D> {
    /// The state before the first row.
    pub open spec fn start(owner: Pubkey) -> Self {
        DecodeState { owner, stage: DecodeStage::Idle, decoded: Seq::empty() }
    }

    /// `event` answers what this state asks. A converted row must be long
    /// enough to hold a discriminant.
    pub open spec fn accepts<E>(self, event: DecodeEvent<D, E>) -> bool {
        match (self.stage, event) {
            (DecodeStage::Idle, DecodeEvent::Account(Ok(account))) => account.data@.len()
                >= DISCRIMINANT_LEN,
            (DecodeStage::Idle, DecodeEvent::Account(Err(_))) => true,
            (DecodeStage::Naming(_), DecodeEvent::Name(_)) => true,
            (DecodeStage::Decoding(_, _), DecodeEvent::Decoded(_)) => true,
            _ => false,
        }
    }

    /// The state after `event`. A row that decodes joins the result; one that
    /// fails at any step is dropped.
    pub open spec fn step<E>(self, event: DecodeEvent<D, E>) -> Self {
        match (self.stage, event) {
            (DecodeStage::Idle, DecodeEvent::Account(Ok(account))) => DecodeState {
                stage: DecodeStage::Naming(account),
                ..self
            },
            (DecodeStage::Naming(account), DecodeEvent::Name(Some(name))) => DecodeState {
                stage: DecodeStage::Decoding(account, name),
                ..self
            },
            (DecodeStage::Decoding(account, _), DecodeEvent::Decoded(Ok(decoded))) => DecodeState {
                stage: DecodeStage::Idle,
                decoded: self.decoded.push(with_decoded(account, decoded)),
                ..self
            },
            _ => DecodeState { stage: DecodeStage::Idle, ..self },
        }
    }

    /// `request` is what this state asks.
    pub open spec fn asks(self, request: DecodeRequest) -> bool {
        match (self.stage, request) {
            (DecodeStage::Idle, DecodeRequest::NextAccount) => true,
            (
                DecodeStage::Naming(account),
                DecodeRequest::LookUpName { owner, discriminant },
            ) => *owner == self.owner && discriminant@ == discriminant_of(account),
            (
                DecodeStage::Decoding(account, known),
                DecodeRequest::Decode { owner, name, data },
            ) => *owner == self.owner && *name == known && *data == account.data,
            _ => false,
        }
    }
}

/// The leading bytes that tell the type of `account`.
pub open spec fn discriminant_of(account: EpochAccount) -> Seq<u8> {
    account.data@.take(DISCRIMINANT_LEN as int)
}

/// `account` with `decoded` in place of its data.
pub open spec fn with_decoded<D>(account: EpochAccount, decoded: D) -> DecodedEpochAccount<D> {
    DecodedEpochAccount { key: account.key, slot: account.slot, owner: account.owner, decoded }
}

/// A pass over archived rows whose accounts belong to one program.
#[derive(Debug)]
pub struct DecodeRun<D> {
    owner: Pubkey,
    stage: DecodeStage,
    decoded: Vec<DecodedEpochAccount<D>>,
}

impl<D> View for DecodeRun<D> {
    type V = DecodeState<D>;

    closed spec fn view(&self) -> DecodeState<D> {
        DecodeState { owner: self.owner, stage: self.stage, decoded: self.decoded@ }
    }
}

impl<D> DecodeRun<D> {
    #[verifier::type_invariant]
    spec fn holds_discriminant(self) -> bool {
        self.stage matches DecodeStage::Naming(account) ==> account.data@.len() >= DISCRIMINANT_LEN
    }

    /// A run over rows of the program `owner`, before the first of them.
    pub fn new(owner: Pubkey) -> (run: Self)
        ensures
            run@ == DecodeState::<D>::start(owner),
    {
        let run = DecodeRun { owner, stage: DecodeStage::Idle, decoded: Vec::new() };
        assert(run@.decoded =~= Seq::empty());
        run
    }

    /// What the run needs next.
    pub fn request(&self) -> (request: DecodeRequest<'_>)
        ensures
            self@.asks(request),
    {
        proof {
            use_type_invariant(self);
        }
        match &self.stage {
            DecodeStage::Idle => DecodeRequest::NextAccount,
            DecodeStage::Naming(account) => {
                let d = &account.data;
                let discriminant: [u8; 8] = [d[0], d[1], d[2], d[3], d[4], d[5], d[6], d[7]];
                assert(discriminant@ =~= discriminant_of(*account));
                DecodeRequest::LookUpName { owner: &self.owner, discriminant }
            },
            DecodeStage::Decoding(account, name) => DecodeRequest::Decode {
                owner: &self.owner,
                name,
                data: &account.data,
            },
        }
    }

    /// The run after the reply `event`.
    pub fn step<E>(self, event: DecodeEvent<D, E>) -> (next: Self)
        requires
            self@.accepts(event),
        ensures
            next@ == self@.step(event),
    {
        let DecodeRun { owner, stage, decoded } = self;
        let mut decoded = decoded;
        let stage = match (stage, event) {
            (DecodeStage::Idle, DecodeEvent::Account(Ok(account))) => DecodeStage::Naming(account),
            (DecodeStage::Naming(account), DecodeEvent::Name(Some(name))) => DecodeStage::Decoding(
                account,
                name,
            ),
            (DecodeStage::Decoding(account, _), DecodeEvent::Decoded(Ok(data))) => {
                decoded.push(
                    DecodedEpochAccount {
                        key: account.key,
                        slot: account.slot,
                        owner: account.owner,
                        decoded: data,
                    },
                );
                DecodeStage::Idle
            },
            _ => DecodeStage::Idle,
        };
        DecodeRun { owner, stage, decoded }
    }

    /// A whole run over `rows`, which puts its questions to `name_of` and
    /// `decode`.
    pub fn over<E, N, F>(
        owner: Pubkey,
        rows: Vec<Result<EpochAccount, E>>,
        name_of: N,
        decode: F,
    ) -> (run: Self) where
        N: Fn(&Pubkey, [u8; 8]) -> Option<String>,
        F: Fn(&Pubkey, &String, &Vec<u8>) -> Result<D, E>,

        requires
            forall|o: &Pubkey, d: [u8; 8]| call_requires(name_of, (o, d)),
            forall|o: &Pubkey, n: &String, d: &Vec<u8>| call_requires(decode, (o, n, d)),
            forall|i: int| 0 <= i < rows@.len() ==> can_be_named(#[trigger] rows@[i]),
        ensures
            run@.owner == owner,
            run@.stage is Idle,
            exists|outs: Seq<Option<DecodedEpochAccount<D>>>|
                {
                    &&& outcomes(owner, rows@, name_of, decode, outs)
                    &&& run@.decoded == #[trigger] somes(outs)
                },
    {
        let ghost all = rows@;
        let ghost mut outs: Seq<Option<DecodedEpochAccount<D>>> = Seq::empty();
        let mut run: DecodeRun<D> = DecodeRun::new(owner);
        for row in it: rows
            invariant
                it.seq() == all,
                all == rows@,
                forall|o: &Pubkey, d: [u8; 8]| call_requires(name_of, (o, d)),
                forall|o: &Pubkey, n: &String, d: &Vec<u8>| call_requires(decode, (o, n, d)),
                forall|i: int| 0 <= i < all.len() ==> can_be_named(#[trigger] all[i]),
                run@.owner == owner,
                run@.stage is Idle,
                run@.decoded == somes(outs),
                outcomes(owner, all.take(it.index()), name_of, decode, outs),
        {
            let ghost before = run@;
            let ghost taken = row;
            assert(can_be_named(all[it.index()]));
            run = run.step(DecodeEvent::Account(row));
            let named: Option<DecodeEvent<D, E>> = match run.request() {
                DecodeRequest::LookUpName { owner, discriminant } => Some(
                    DecodeEvent::Name(name_of(owner, discriminant)),
                ),
                _ => None,
            };
            if let Some(event) = named {
                run = run.step(event);
            }
            let decoded: Option<DecodeEvent<D, E>> = match run.request() {
                DecodeRequest::Decode { owner, name, data } => Some(
                    DecodeEvent::Decoded(decode(owner, name, data)),
                ),
                _ => None,
            };
            if let Some(event) = decoded {
                run = run.step(event);
            }
            proof {
                let out = if run@.decoded.len() > before.decoded.len() {
                    Some(run@.decoded.last())
                } else {
                    None
                };
                assert(row_outcome(owner, taken, name_of, decode, out));
                lemma_somes_push(outs, out);
                assert(run@.decoded =~= somes(outs.push(out)));
                assert(all.take(it.index() + 1) =~= all.take(it.index()).push(taken));
                outs = outs.push(out);
            }
        }
        assert(all.take(all.len() as int) =~= all);
        run
    }

    /// The accounts that decoded, in the order of their rows.
    pub fn finish(self) -> (decoded: Vec<DecodedEpochAccount<D>>)
        requires
            self@.stage is Idle,
        ensures
            decoded@ == self@.decoded,
    {
        self.decoded
    }
}

/// `out` is what becomes of `row` by a reply of `name_of` and, where the row has
/// a name, a reply of `decode`.
pub open spec fn row_outcome<D, E, N, F>(
    owner: Pubkey,
    row: Result<EpochAccount, E>,
    name_of: N,
    decode: F,
    out: Option<DecodedEpochAccount<D>>,
) -> bool where
    N: Fn(&Pubkey, [u8; 8]) -> Option<String>,
    F: Fn(&Pubkey, &String, &Vec<u8>) -> Result<D, E>,
 {
    match row {
        Err(_) => out is None,
        Ok(account) => exists|discriminant: [u8; 8], name: Option<String>|
            {
                &&& discriminant@ == discriminant_of(account)
                &&& #[trigger] call_ensures(name_of, (&owner, discriminant), name)
                &&& match name {
                    None => out is None,
                    Some(name) => exists|reply: Result<D, E>|
                        {
                            &&& #[trigger] call_ensures(
                                decode,
                                (&owner, &name, &account.data),
                                reply,
                            )
                            &&& out == match reply {
                                Err(_) => None,
                                Ok(decoded) => Some(with_decoded(account, decoded)),
                            }
                        },
                }
            },
    }
}

/// `outs` are what becomes of `rows`, one for one.
pub open spec fn outcomes<D, E, N, F>(
    owner: Pubkey,
    rows: Seq<Result<EpochAccount, E>>,
    name_of: N,
    decode: F,
    outs: Seq<Option<DecodedEpochAccount<D>>>,
) -> bool where
    N: Fn(&Pubkey, [u8; 8]) -> Option<String>,
    F: Fn(&Pubkey, &String, &Vec<u8>) -> Result<D, E>,
 {
    &&& outs.len() == rows.len()
    &&& forall|i: int|
        0 <= i < outs.len() ==> row_outcome(owner, rows[i], name_of, decode, #[trigger] outs[i])
}

/// What is there of `outs`, in order.
pub open spec fn somes<T>(outs: Seq<Option<T>>) -> Seq<T> {
    outs.filter_map(|out: Option<T>| out)
}

proof fn lemma_somes_push<T>(outs: Seq<Option<T>>, out: Option<T>)
    ensures
        somes(outs.push(out)) == match out {
            Some(t) => somes(outs).push(t),
            None => somes(outs),
        },
{
    assert(outs.push(out).drop_last() =~= outs);
    assert(out is Some ==> somes(outs) + seq![out->0] =~= somes(outs).push(out->0));
}

/// The replies that one row draws when the decoder answers by `names` and
/// `decode`.
pub open spec fn row_events<D, E>(
    owner: Pubkey,
    row: Result<EpochAccount, E>,
    names: spec_fn(Pubkey, Seq<u8>) -> Option<String>,
    decode: spec_fn(Pubkey, String, Seq<u8>) -> Result<D, E>,
) -> Seq<DecodeEvent<D, E>> {
    match row {
        Err(_) => seq![DecodeEvent::Account(row)],
        Ok(account) => match names(owner, discriminant_of(account)) {
            None => seq![DecodeEvent::Account(row), DecodeEvent::Name(None)],
            Some(name) => seq![
                DecodeEvent::Account(row),
                DecodeEvent::Name(Some(name)),
                DecodeEvent::Decoded(decode(owner, name, account.data@)),
            ],
        },
    }
}

/// The replies that `rows` draw, one row after the other.
pub open spec fn all_events<D, E>(
    owner: Pubkey,
    rows: Seq<Result<EpochAccount, E>>,
    names: spec_fn(Pubkey, Seq<u8>) -> Option<String>,
    decode: spec_fn(Pubkey, String, Seq<u8>) -> Result<D, E>,
) -> Seq<DecodeEvent<D, E>>
    decreases rows.len(),
{
    if rows.len() == 0 {
        Seq::empty()
    } else {
        all_events(owner, rows.drop_last(), names, decode) + row_events(
            owner,
            rows.last(),
            names,
            decode,
        )
    }
}

/// What becomes of one row when the decoder answers by `names` and `decode`.
pub open spec fn decoded_row<D, E>(
    owner: Pubkey,
    row: Result<EpochAccount, E>,
    names: spec_fn(Pubkey, Seq<u8>) -> Option<String>,
    decode: spec_fn(Pubkey, String, Seq<u8>) -> Result<D, E>,
) -> Option<DecodedEpochAccount<D>> {
    match row {
        Err(_) => None,
        Ok(account) => match names(owner, discriminant_of(account)) {
            None => None,
            Some(name) => match decode(owner, name, account.data@) {
                Err(_) => None,
                Ok(decoded) => Some(with_decoded(account, decoded)),
            },
        },
    }
}

/// The accounts that `rows` decode to, in the order of the rows.
pub open spec fn decoded_rows<D, E>(
    owner: Pubkey,
    rows: Seq<Result<EpochAccount, E>>,
    names: spec_fn(Pubkey, Seq<u8>) -> Option<String>,
    decode: spec_fn(Pubkey, String, Seq<u8>) -> Result<D, E>,
) -> Seq<DecodedEpochAccount<D>> {
    rows.filter_map(|row: Result<EpochAccount, E>| decoded_row(owner, row, names, decode))
}

/// The state that `events` lead to from `state`.
pub open spec fn after<D, E>(state: DecodeState<D>, events: Seq<DecodeEvent<D, E>>) -> DecodeState<
    D,
>
    decreases events.len(),
{
    if events.len() == 0 {
        state
    } else {
        after(state, events.drop_last()).step(events.last())
    }
}

/// Each of `events` answers what was asked when it came.
pub open spec fn accepts_all<D, E>(
    state: DecodeState<D>,
    events: Seq<DecodeEvent<D, E>>,
) -> bool {
    forall|i: int| 0 <= i < events.len() ==> after(state, events.take(i)).accepts(#[trigger] events[i])
}

/// A row can be asked about: it failed to convert, or is long enough to hold a
/// discriminant.
pub open spec fn can_be_named<E>(row: Result<EpochAccount, E>) -> bool {
    row matches Ok(account) ==> account.data@.len() >= DISCRIMINANT_LEN
}

proof fn lemma_after_append<D, E>(
    state: DecodeState<D>,
    first: Seq<DecodeEvent<D, E>>,
    second: Seq<DecodeEvent<D, E>>,
)
    ensures
        after(state, first + second) == after(after(state, first), second),
    decreases second.len(),
{
    if second.len() == 0 {
        assert(first + second =~= first);
    } else {
        lemma_after_append(state, first, second.drop_last());
        assert((first + second).drop_last() =~= first + second.drop_last());
    }
}

proof fn lemma_row<D, E>(
    state: DecodeState<D>,
    row: Result<EpochAccount, E>,
    names: spec_fn(Pubkey, Seq<u8>) -> Option<String>,
    decode: spec_fn(Pubkey, String, Seq<u8>) -> Result<D, E>,
)
    requires
        state.stage is Idle,
        can_be_named(row),
    ensures
        ({
            let events = row_events(state.owner, row, names, decode);
            let end = after(state, events);
            &&& accepts_all(state, events)
            &&& end.owner == state.owner
            &&& end.stage is Idle
            &&& end.decoded == match decoded_row(state.owner, row, names, decode) {
                Some(account) => state.decoded.push(account),
                None => state.decoded,
            }
        }),
{
    reveal_with_fuel(after, 4);
    let events = row_events(state.owner, row, names, decode);
    assert(events.take(0) =~= Seq::empty());
    assert(events.len() > 1 ==> events.take(1) =~= seq![events[0]]);
    assert(events.len() > 2 ==> events.take(2) =~= seq![events[0], events[1]]);
    assert(events.len() > 0 ==> events.drop_last() =~= events.take(events.len() - 1));
    assert(seq![events[0]].drop_last() =~= Seq::empty());
    assert(seq![events[0], events[1]].drop_last() =~= seq![events[0]]);
}

/// A run over `rows` whose questions are answered by `names` and `decode` ends
/// with exactly the rows that convert, have a name and decode, in their order,
/// each with its key, slot and owner.
pub proof fn law_run_decodes_rows<D, E>(
    owner: Pubkey,
    rows: Seq<Result<EpochAccount, E>>,
    names: spec_fn(Pubkey, Seq<u8>) -> Option<String>,
    decode: spec_fn(Pubkey, String, Seq<u8>) -> Result<D, E>,
)
    requires
        forall|i: int| 0 <= i < rows.len() ==> can_be_named(#[trigger] rows[i]),
    ensures
        accepts_all(
            DecodeState::<D>::start(owner),
            all_events(owner, rows, names, decode),
        ),
        after(DecodeState::<D>::start(owner), all_events(owner, rows, names, decode)) == (
        DecodeState {
            owner,
            stage: DecodeStage::Idle,
            decoded: decoded_rows(owner, rows, names, decode),
        }),
    decreases rows.len(),
{
    let start = DecodeState::<D>::start(owner);
    if rows.len() == 0 {
        assert(decoded_rows(owner, rows, names, decode) =~= Seq::empty());
    } else {
        let init = rows.drop_last();
        law_run_decodes_rows(owner, init, names, decode);
        let before = all_events(owner, init, names, decode);
        let mid = after(start, before);
        let events = row_events(owner, rows.last(), names, decode);
        lemma_row(mid, rows.last(), names, decode);
        lemma_after_append(start, before, events);
        let all = before + events;
        assert forall|i: int| 0 <= i < all.len() implies after(start, all.take(i)).accepts(
            #[trigger] all[i],
        ) by {
            if i < before.len() {
                assert(all.take(i) =~= before.take(i));
                assert(all[i] == before[i]);
            } else {
                let k = i - before.len();
                assert(all.take(i) =~= before + events.take(k));
                lemma_after_append(start, before, events.take(k));
                assert(all[i] == events[k]);
            }
        }
        assert(after(start, all).decoded =~= decoded_rows(owner, rows, names, decode));
    }
}

/// Every account of the result comes from a row with its key, slot and owner.
pub proof fn law_decoded_keeps_identity<D, E>(
    owner: Pubkey,
    rows: Seq<Result<EpochAccount, E>>,
    names: spec_fn(Pubkey, Seq<u8>) -> Option<String>,
    decode: spec_fn(Pubkey, String, Seq<u8>) -> Result<D, E>,
    account: DecodedEpochAccount<D>,
)
    requires
        decoded_rows(owner, rows, names, decode).contains(account),
    ensures
        exists|i: int|
            0 <= i < rows.len() && (#[trigger] rows[i] matches Ok(source) && source.key
                == account.key && source.slot == account.slot && source.owner == account.owner),
{
    rows.lemma_filter_map_contains(
        |row: Result<EpochAccount, E>| decoded_row(owner, row, names, decode),
        account,
    );
}

/// Where `name_of` and `decode` can only answer by `names` and `decoding`, what
/// becomes of the rows is what they decode to.
pub proof fn law_outcomes_are_decoded_rows<D, E, N, F>(
    owner: Pubkey,
    rows: Seq<Result<EpochAccount, E>>,
    name_of: N,
    decode: F,
    outs: Seq<Option<DecodedEpochAccount<D>>>,
    names: spec_fn(Pubkey, Seq<u8>) -> Option<String>,
    decoding: spec_fn(Pubkey, String, Seq<u8>) -> Result<D, E>,
) where
    N: Fn(&Pubkey, [u8; 8]) -> Option<String>,
    F: Fn(&Pubkey, &String, &Vec<u8>) -> Result<D, E>,

    requires
        outcomes(owner, rows, name_of, decode, outs),
        forall|o: &Pubkey, d: [u8; 8], name: Option<String>| #[trigger]
            call_ensures(name_of, (o, d), name) ==> name == names(*o, d@),
        forall|o: &Pubkey, n: &String, d: &Vec<u8>, reply: Result<D, E>| #[trigger]
            call_ensures(decode, (o, n, d), reply) ==> reply == decoding(*o, *n, d@),
    ensures
        somes(outs) == decoded_rows(owner, rows, names, decoding),
    decreases rows.len(),
{
    if rows.len() > 0 {
        let init = outs.drop_last();
        assert forall|i: int| 0 <= i < init.len() implies row_outcome(
            owner,
            rows.drop_last()[i],
            name_of,
            decode,
            #[trigger] init[i],
        ) by {
            assert(row_outcome(owner, rows[i], name_of, decode, outs[i]));
        }
        law_outcomes_are_decoded_rows(
            owner,
            rows.drop_last(),
            name_of,
            decode,
            init,
            names,
            decoding,
        );
        assert(row_outcome(owner, rows.last(), name_of, decode, outs[outs.len() - 1]));
        assert(outs.last() == decoded_row(owner, rows.last(), names, decoding));
        assert(outs =~= init.push(outs.last()));
    } else {
        assert(somes(outs) =~= decoded_rows(owner, rows, names, decoding));
    }
}

/// Rows are decoded one by one: what two lists in a row decode to is what the
/// first decodes to, then what the second decodes to.
pub proof fn law_decoded_rows_are_independent<D, E>(
    owner: Pubkey,
    a: Seq<Result<EpochAccount, E>>,
    b: Seq<Result<EpochAccount, E>>,
    names: spec_fn(Pubkey, Seq<u8>) -> Option<String>,
    decode: spec_fn(Pubkey, String, Seq<u8>) -> Result<D, E>,
)
    ensures
        decoded_rows(owner, a + b, names, decode) == decoded_rows(owner, a, names, decode)
            + decoded_rows(owner, b, names, decode),
    decreases b.len(),
{
    if b.len() == 0 {
        assert(a + b =~= a);
        assert(decoded_rows(owner, a, names, decode) + decoded_rows(owner, b, names, decode)
            =~= decoded_rows(owner, a, names, decode));
    } else {
        law_decoded_rows_are_independent(owner, a, b.drop_last(), names, decode);
        assert((a + b).drop_last() =~= a + b.drop_last());
        assert(decoded_rows(owner, a + b, names, decode) =~= decoded_rows(owner, a, names, decode)
            + decoded_rows(owner, b, names, decode));
    }
}

/// Taking out the rows that fail changes nothing.
pub proof fn law_failed_rows_leave_no_trace<D, E>(
    owner: Pubkey,
    rows: Seq<Result<EpochAccount, E>>,
    names: spec_fn(Pubkey, Seq<u8>) -> Option<String>,
    decode: spec_fn(Pubkey, String, Seq<u8>) -> Result<D, E>,
)
    ensures
        decoded_rows(
            owner,
            rows.filter(
                |row: Result<EpochAccount, E>| decoded_row(owner, row, names, decode) is Some,
            ),
            names,
            decode,
        ) == decoded_rows(owner, rows, names, decode),
    decreases rows.len(),
{
    reveal(Seq::filter);
    let good = |row: Result<EpochAccount, E>| decoded_row(owner, row, names, decode) is Some;
    if rows.len() > 0 {
        let init = rows.drop_last();
        law_failed_rows_leave_no_trace(owner, init, names, decode);
        if good(rows.last()) {
            assert(rows.filter(good).drop_last() =~= init.filter(good));
        }
    }
}

/// A run starts with nothing at hand, nothing decoded, and the program that it
/// was given.
pub proof fn law_run_starts_empty<D>(owner: Pubkey, run: DecodeRun<D>)
    requires
        call_ensures(DecodeRun::<D>::new, (owner,), run),
    ensures
        call_requires(DecodeRun::<D>::new, (owner,)),
        run@.owner == owner,
        run@.stage is Idle,
        run@.decoded.len() == 0,
{
}

/// Of a converted row, a run asks for the name that its first eight bytes have,
/// byte for byte, among the accounts of the run's program. Of a named row, it
/// asks for the whole data, decoded under that name. Otherwise it asks for the
/// next row.
pub proof fn law_run_asks_about_the_row<D>(run: DecodeRun<D>, request: DecodeRequest<'_>)
    requires
        call_ensures(DecodeRun::<D>::request, (&run,), request),
    ensures
        call_requires(DecodeRun::<D>::request, (&run,)),
        run@.stage is Idle <==> request is NextAccount,
        run@.stage matches DecodeStage::Naming(account) ==> account.data@.len() >= 8 ==> {
            &&& request matches DecodeRequest::LookUpName { owner, discriminant }
            &&& forall|k: int| 0 <= k < 32 ==> #[trigger] owner.0[k] == run@.owner.0[k]
            &&& forall|k: int| 0 <= k < 8 ==> #[trigger] discriminant[k] == account.data@[k]
        },
        run@.stage matches DecodeStage::Decoding(account, known) ==> {
            &&& request matches DecodeRequest::Decode { owner, name, data }
            &&& forall|k: int| 0 <= k < 32 ==> #[trigger] owner.0[k] == run@.owner.0[k]
            &&& name@ == known@
            &&& data@ == account.data@
        },
{
    if let DecodeStage::Naming(account) = run@.stage {
        if account.data@.len() >= 8 {
            if let DecodeRequest::LookUpName { owner, discriminant } = request {
                assert forall|k: int| 0 <= k < 8 implies #[trigger] discriminant[k]
                    == account.data@[k] by {
                    assert(discriminant@[k] == discriminant_of(account)[k]);
                }
            }
        }
    }
}

/// A reply moves the row at hand on, and nothing else. The program stays, and
/// so do the accounts decoded before. The result grows exactly if the row
/// decodes, by one account that has the row's key, slot and owner and what the
/// decoder gave. A reply that is no success ends the row.
pub proof fn law_reply_moves_the_row_on<D, E>(
    run: DecodeRun<D>,
    event: DecodeEvent<D, E>,
    next: DecodeRun<D>,
)
    requires
        call_ensures(DecodeRun::<D>::step::<E>, (run, event), next),
        match event {
            DecodeEvent::Account(_) => run@.stage is Idle,
            DecodeEvent::Name(_) => run@.stage is Naming,
            DecodeEvent::Decoded(_) => run@.stage is Decoding,
        },
    ensures
        (event matches DecodeEvent::Account(Ok(account)) ==> account.data@.len() >= 8)
            ==> call_requires(DecodeRun::<D>::step::<E>, (run, event)),
        next@.owner == run@.owner,
        forall|j: int|
            0 <= j < run@.decoded.len() ==> next@.decoded[j] == #[trigger] run@.decoded[j],
        event matches DecodeEvent::Account(Ok(account)) ==> next@.stage == DecodeStage::Naming(
            account,
        ),
        event matches DecodeEvent::Name(Some(name)) ==> next@.stage == DecodeStage::Decoding(
            run@.stage->Naming_0,
            name,
        ),
        event is Decoded ==> next@.stage is Idle,
        (event matches DecodeEvent::Account(Err(_))) ==> next@.stage is Idle,
        (event matches DecodeEvent::Name(None)) ==> next@.stage is Idle,
        match event {
            DecodeEvent::Decoded(Ok(value)) => {
                let source = run@.stage->Decoding_0;
                &&& next@.decoded.len() == run@.decoded.len() + 1
                &&& next@.decoded.last().key == source.key
                &&& next@.decoded.last().slot == source.slot
                &&& next@.decoded.last().owner == source.owner
                &&& next@.decoded.last().decoded == value
            },
            _ => next@.decoded.len() == run@.decoded.len(),
        },
{
}

/// A finished run gives back what it decoded, each account in its place.
pub proof fn law_finishing_keeps_all<D>(run: DecodeRun<D>, out: Vec<DecodedEpochAccount<D>>)
    requires
        call_ensures(DecodeRun::<D>::finish, (run,), out),
    ensures
        run@.stage is Idle ==> call_requires(DecodeRun::<D>::finish, (run,)),
        out@.len() == run@.decoded.len(),
        forall|j: int| 0 <= j < out@.len() ==> #[trigger] out@[j] == run@.decoded[j],
{
}

/// Where the rows that decode stand: at `at`, the result's accounts come from
/// rows that convert, have a name by their first eight bytes and decode, with
/// key, slot and owner of the row; every other row fails at one of the three.
pub proof fn lemma_decoded_rows_positions<D, E>(
    owner: Pubkey,
    rows: Seq<Result<EpochAccount, E>>,
    names: spec_fn(Pubkey, Seq<u8>) -> Option<String>,
    decoding: spec_fn(Pubkey, String, Seq<u8>) -> Result<D, E>,
) -> (at: Seq<int>)
    ensures
        ascending(at, rows.len()),
        at.len() == decoded_rows(owner, rows, names, decoding).len(),
        forall|j: int|
            0 <= j < at.len() ==> {
                let out = decoded_rows(owner, rows, names, decoding)[j];
                &&& rows[#[trigger] at[j]] matches Ok(source)
                &&& names(owner, source.data@.take(8)) matches Some(name)
                &&& decoding(owner, name, source.data@) == Ok::<D, E>(out.decoded)
                &&& out.key == source.key
                &&& out.slot == source.slot
                &&& out.owner == source.owner
            },
        forall|i: int|
            0 <= i < rows.len() && !(#[trigger] at.contains(i)) ==> {
                rows[i] matches Ok(source) ==> names(owner, source.data@.take(8)) matches Some(
                    name,
                ) ==> decoding(owner, name, source.data@) is Err
            },
{
    let f = |row: Result<EpochAccount, E>| decoded_row(owner, row, names, decoding);
    let at = lemma_filter_map_positions(rows, f);
    assert forall|j: int| 0 <= j < at.len() implies {
        let out = decoded_rows(owner, rows, names, decoding)[j];
        &&& rows[#[trigger] at[j]] matches Ok(source)
        &&& names(owner, source.data@.take(8)) matches Some(name)
        &&& decoding(owner, name, source.data@) == Ok::<D, E>(out.decoded)
        &&& out.key == source.key
        &&& out.slot == source.slot
        &&& out.owner == source.owner
    } by {
        assert(f(rows[at[j]]) == Some(decoded_rows(owner, rows, names, decoding)[j]));
    }
    assert forall|i: int| 0 <= i < rows.len() && !(#[trigger] at.contains(i)) implies {
        rows[i] matches Ok(source) ==> names(owner, source.data@.take(8)) matches Some(name)
            ==> decoding(owner, name, source.data@) is Err
    } by {
        assert(f(rows[i]) is None);
    }
    at
}

/// A whole run takes rows that are long enough and decoders that take any
/// question. Where the decoder answers by `names` and `decoding`, the run ends
/// with nothing at hand and has one account for each row that converts, has a
/// name by its first eight bytes and decodes, and for no other; the accounts
/// stand in the order of their rows and have key, slot and owner of the row.
pub proof fn law_whole_run_decodes_what_can_be<D, E, N, F>(
    owner: Pubkey,
    rows: Vec<Result<EpochAccount, E>>,
    name_of: N,
    decode: F,
    run: DecodeRun<D>,
    names: spec_fn(Pubkey, Seq<u8>) -> Option<String>,
    decoding: spec_fn(Pubkey, String, Seq<u8>) -> Result<D, E>,
) where
    N: Fn(&Pubkey, [u8; 8]) -> Option<String>,
    F: Fn(&Pubkey, &String, &Vec<u8>) -> Result<D, E>,

    requires
        call_ensures(DecodeRun::<D>::over::<E, N, F>, (owner, rows, name_of, decode), run),
        forall|o: &Pubkey, d: [u8; 8], name: Option<String>| #[trigger]
            call_ensures(name_of, (o, d), name) ==> name == names(*o, d@),
        forall|o: &Pubkey, n: &String, d: &Vec<u8>, reply: Result<D, E>| #[trigger]
            call_ensures(decode, (o, n, d), reply) ==> reply == decoding(*o, *n, d@),
    ensures
        run@.owner == owner,
        run@.stage is Idle,
        exists|at: Seq<int>|
            {
                &&& #[trigger] ascending(at, rows@.len())
                &&& at.len() == run@.decoded.len()
                &&& forall|j: int|
                    0 <= j < at.len() ==> {
                        let out = run@.decoded[j];
                        &&& rows@[#[trigger] at[j]] matches Ok(source)
                        &&& names(owner, source.data@.take(8)) matches Some(name)
                        &&& decoding(owner, name, source.data@) == Ok::<D, E>(out.decoded)
                        &&& out.key == source.key
                        &&& out.slot == source.slot
                        &&& out.owner == source.owner
                    }
                &&& forall|i: int|
                    0 <= i < rows@.len() && !(#[trigger] at.contains(i)) ==> {
                        rows@[i] matches Ok(source) ==> names(owner, source.data@.take(8)) matches Some(
                            name,
                        ) ==> decoding(owner, name, source.data@) is Err
                    }
            },
{
    let outs = choose|outs: Seq<Option<DecodedEpochAccount<D>>>|
        outcomes(owner, rows@, name_of, decode, outs) && run@.decoded == #[trigger] somes(outs);
    law_outcomes_are_decoded_rows(owner, rows@, name_of, decode, outs, names, decoding);
    let at = lemma_decoded_rows_positions(owner, rows@, names, decoding);
    assert(ascending(at, rows@.len()));
}

/// A whole run may be made over any rows that are at least eight bytes long
/// where they convert, with a decoder that takes any question.
pub proof fn law_whole_run_takes_long_rows<D, E, N, F>(
    owner: Pubkey,
    rows: Vec<Result<EpochAccount, E>>,
    name_of: N,
    decode: F,
) where
    N: Fn(&Pubkey, [u8; 8]) -> Option<String>,
    F: Fn(&Pubkey, &String, &Vec<u8>) -> Result<D, E>,

    requires
        forall|o: &Pubkey, d: [u8; 8]| call_requires(name_of, (o, d)),
        forall|o: &Pubkey, n: &String, d: &Vec<u8>| call_requires(decode, (o, n, d)),
        forall|i: int|
            0 <= i < rows@.len() ==> (#[trigger] rows@[i] matches Ok(account)
                ==> account.data@.len() >= 8),
    ensures
        call_requires(DecodeRun::<D>::over::<E, N, F>, (owner, rows, name_of, decode)),
{
    assert forall|i: int| 0 <= i < rows@.len() implies can_be_named(#[trigger] rows@[i]) by {}
}

/// Every account of a whole run comes from a row and two replies: the name
/// lookup was asked for the row's first eight bytes, byte for byte, and the
/// decoder for the row's whole data under the name that came back.
pub proof fn law_whole_run_asks_by_the_row<D, E, N, F>(
    owner: Pubkey,
    rows: Vec<Result<EpochAccount, E>>,
    name_of: N,
    decode: F,
    run: DecodeRun<D>,
    j: int,
)
 where
    N: Fn(&Pubkey, [u8; 8]) -> Option<String>,
    F: Fn(&Pubkey, &String, &Vec<u8>) -> Result<D, E>,

    requires
        call_ensures(DecodeRun::<D>::over::<E, N, F>, (owner, rows, name_of, decode), run),
        forall|i: int|
            0 <= i < rows@.len() ==> (#[trigger] rows@[i] matches Ok(account)
                ==> account.data@.len() >= 8),
        0 <= j < run@.decoded.len(),
    ensures
        exists|i: int, discriminant: [u8; 8], name: String|
            {
                let out = run@.decoded[j];
                &&& 0 <= i < rows@.len()
                &&& #[trigger] rows@[i] matches Ok(source)
                &&& forall|k: int| 0 <= k < 8 ==> #[trigger] discriminant[k] == source.data@[k]
                &&& #[trigger] call_ensures(name_of, (&owner, discriminant), Some(name))
                &&& call_ensures(decode, (&owner, &name, &source.data), Ok(out.decoded))
                &&& out.key == source.key
                &&& out.slot == source.slot
                &&& out.owner == source.owner
            },
{
    let outs = choose|outs: Seq<Option<DecodedEpochAccount<D>>>|
        outcomes(owner, rows@, name_of, decode, outs) && run@.decoded == #[trigger] somes(outs);
    let at = lemma_filter_map_positions(outs, |out: Option<DecodedEpochAccount<D>>| out);
    let i = at[j];
    assert(outs[i] == Some(run@.decoded[j]));
    assert(row_outcome(owner, rows@[i], name_of, decode, outs[i]));
    let source = rows@[i]->Ok_0;
    let (discriminant, name) = choose|discriminant: [u8; 8], name: Option<String>|
        {
            &&& discriminant@ == discriminant_of(source)
            &&& #[trigger] call_ensures(name_of, (&owner, discriminant), name)
            &&& match name {
                None => outs[i] is None,
                Some(name) => exists|reply: Result<D, E>|
                    {
                        &&& #[trigger] call_ensures(decode, (&owner, &name, &source.data), reply)
                        &&& outs[i] == match reply {
                            Err(_) => None,
                            Ok(decoded) => Some(with_decoded(source, decoded)),
                        }
                    },
            }
        };
    assert forall|k: int| 0 <= k < 8 implies #[trigger] discriminant[k] == source.data@[k] by {
        assert(discriminant@[k] == discriminant_of(source)[k]);
    }
    assert(call_ensures(name_of, (&owner, discriminant), Some(name->0)));
}

} // verus!
