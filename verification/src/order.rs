//! Ordering decoded accounts by slot.

use crate::accounts::DecodedEpochAccount;
use crate::positions::permutes;
use vstd::prelude::*;

verus! {

/// `sorted` with `account` put behind every account whose slot is not higher.
pub open spec fn insert_by_slot<D>(
    sorted: Seq<DecodedEpochAccount<D>>,
    account: DecodedEpochAccount<D>,
) -> Seq<DecodedEpochAccount<D>>
    decreases sorted.len(),
{
    if sorted.len() == 0 || sorted.last().slot <= account.slot {
        sorted.push(account)
    } else {
        insert_by_slot(sorted.drop_last(), account).push(sorted.last())
    }
}

/// `accounts` by ascending slot; accounts of one slot keep their order.
pub open spec fn oldest_first<D>(accounts: Seq<DecodedEpochAccount<D>>) -> Seq<
    DecodedEpochAccount<D>,
>
    decreases accounts.len(),
{
    if accounts.len() == 0 {
        accounts
    } else {
        insert_by_slot(oldest_first(accounts.drop_last()), accounts.last())
    }
}

/// `accounts` by descending slot; accounts of one slot come in reverse order.
pub open spec fn newest_first<D>(accounts: Seq<DecodedEpochAccount<D>>) -> Seq<
    DecodedEpochAccount<D>,
> {
    oldest_first(accounts).reverse()
}

/// The accounts of one slot.
pub open spec fn at_slot<D>(accounts: Seq<DecodedEpochAccount<D>>, slot: u64) -> Seq<
    DecodedEpochAccount<D>,
> {
    accounts.filter(|a: DecodedEpochAccount<D>| a.slot == slot)
}

/// `accounts` stand by descending slot.
pub open spec fn descends<D>(accounts: Seq<DecodedEpochAccount<D>>) -> bool {
    forall|i: int, j: int|
        0 <= i <= j < accounts.len() ==> accounts[i].slot >= accounts[j].slot
}

/// Two sequences in one, built from the back by taking the higher slot; of two
/// equal slots, that of `later` goes behind.
spec fn merged<D>(
    earlier: Seq<DecodedEpochAccount<D>>,
    later: Seq<DecodedEpochAccount<D>>,
) -> Seq<DecodedEpochAccount<D>>
    decreases earlier.len() + later.len(),
{
    if earlier.len() == 0 {
        later
    } else if later.len() == 0 {
        earlier
    } else if earlier.last().slot <= later.last().slot {
        merged(earlier, later.drop_last()).push(later.last())
    } else {
        merged(earlier.drop_last(), later).push(earlier.last())
    }
}

proof fn lemma_merged_insert<D>(
    earlier: Seq<DecodedEpochAccount<D>>,
    later: Seq<DecodedEpochAccount<D>>,
    account: DecodedEpochAccount<D>,
)
    ensures
        merged(earlier, insert_by_slot(later, account)) == insert_by_slot(
            merged(earlier, later),
            account,
        ),
    decreases earlier.len() + later.len(),
{
    let grown = insert_by_slot(later, account);
    if later.len() == 0 || later.last().slot <= account.slot {
        assert(grown.drop_last() =~= later);
        if earlier.len() > 0 && account.slot < earlier.last().slot {
            lemma_merged_insert(earlier.drop_last(), later, account);
            assert(merged(earlier, later) =~= merged(earlier.drop_last(), later).push(
                earlier.last(),
            ));
            assert(merged(earlier, later).drop_last() =~= merged(earlier.drop_last(), later));
        }
    } else {
        let rest = insert_by_slot(later.drop_last(), account);
        assert(grown.drop_last() =~= rest);
        if earlier.len() == 0 || earlier.last().slot <= later.last().slot {
            lemma_merged_insert(earlier, later.drop_last(), account);
            assert(merged(earlier, later) =~= merged(earlier, later.drop_last()).push(
                later.last(),
            ));
            assert(merged(earlier, later).drop_last() =~= merged(earlier, later.drop_last()));
        } else {
            lemma_merged_insert(earlier.drop_last(), later, account);
            assert(merged(earlier, later).drop_last() =~= merged(earlier.drop_last(), later));
        }
    }
}

proof fn lemma_merged_halves<D>(
    front: Seq<DecodedEpochAccount<D>>,
    back: Seq<DecodedEpochAccount<D>>,
)
    ensures
        merged(oldest_first(front), oldest_first(back)) == oldest_first(front + back),
    decreases back.len(),
{
    if back.len() == 0 {
        assert(front + back =~= front);
    } else {
        lemma_merged_halves(front, back.drop_last());
        assert((front + back).drop_last() =~= front + back.drop_last());
        lemma_merged_insert(oldest_first(front), oldest_first(back.drop_last()), back.last());
    }
}

/// `accounts` turned around.
fn flipped<D>(accounts: Vec<DecodedEpochAccount<D>>) -> (out: Vec<DecodedEpochAccount<D>>)
    ensures
        out@ == accounts@.reverse(),
{
    let mut rest = accounts;
    let mut out: Vec<DecodedEpochAccount<D>> = Vec::new();
    while rest.len() > 0
        invariant
            out@ + rest@.reverse() == accounts@.reverse(),
        decreases rest.len(),
    {
        let ghost before = rest@;
        if let Some(last) = rest.pop() {
            out.push(last);
        }
        assert(before.reverse() =~= seq![before.last()] + rest@.reverse());
    }
    out
}

/// Merges two ascending lists into one descending list.
fn merge<D>(earlier: Vec<DecodedEpochAccount<D>>, later: Vec<DecodedEpochAccount<D>>) -> (out: Vec<
    DecodedEpochAccount<D>,
>)
    ensures
        out@ == merged(earlier@, later@).reverse(),
{
    let mut a = earlier;
    let mut b = later;
    let mut out: Vec<DecodedEpochAccount<D>> = Vec::new();
    while a.len() > 0 || b.len() > 0
        invariant
            out@ + merged(a@, b@).reverse() == merged(earlier@, later@).reverse(),
        decreases a.len() + b.len(),
    {
        let ghost whole = merged(a@, b@);
        let from_later = a.len() == 0 || (b.len() > 0 && a[a.len() - 1].slot <= b[b.len()
            - 1].slot);
        let taken = if from_later {
            b.pop()
        } else {
            a.pop()
        };
        if let Some(account) = taken {
            out.push(account);
        }
        assert(whole.drop_last() =~= merged(a@, b@));
        assert(whole.reverse() =~= seq![whole.last()] + merged(a@, b@).reverse());
    }
    out
}

/// Sorts by ascending slot, keeping the order within a slot.
fn sort_by_slot<D>(accounts: Vec<DecodedEpochAccount<D>>) -> (out: Vec<DecodedEpochAccount<D>>)
    ensures
        out@ == oldest_first(accounts@),
    decreases accounts@.len(),
{
    if accounts.len() < 2 {
        proof {
            reveal_with_fuel(oldest_first, 2);
            assert(accounts@.len() == 1 ==> oldest_first(accounts@) =~= accounts@);
        }
        return accounts;
    }
    let mut front = accounts;
    let middle = front.len() / 2;
    let back = front.split_off(middle);
    proof {
        assert(front@ + back@ =~= accounts@);
        lemma_merged_halves(front@, back@);
    }
    let out = flipped(merge(sort_by_slot(front), sort_by_slot(back)));
    assert(out@ =~= oldest_first(accounts@));
    out
}

/// Sorts so that the highest slot comes first.
pub fn sort_newest_first<D>(accounts: Vec<DecodedEpochAccount<D>>) -> (out: Vec<
    DecodedEpochAccount<D>,
>)
    ensures
        out@ == newest_first(accounts@),
{
    flipped(sort_by_slot(accounts))
}

proof fn lemma_insert_keeps_order<D>(
    sorted: Seq<DecodedEpochAccount<D>>,
    account: DecodedEpochAccount<D>,
)
    requires
        forall|i: int, j: int| 0 <= i <= j < sorted.len() ==> sorted[i].slot <= sorted[j].slot,
    ensures
        forall|i: int, j: int|
            0 <= i <= j < insert_by_slot(sorted, account).len() ==> insert_by_slot(
                sorted,
                account,
            )[i].slot <= insert_by_slot(sorted, account)[j].slot,
        insert_by_slot(sorted, account).to_multiset() == sorted.to_multiset().insert(account),
        insert_by_slot(sorted, account).len() == sorted.len() + 1,
    decreases sorted.len(),
{
    broadcast use vstd::seq_lib::group_to_multiset_ensures;

    let out = insert_by_slot(sorted, account);
    if sorted.len() > 0 && account.slot < sorted.last().slot {
        let rest = insert_by_slot(sorted.drop_last(), account);
        lemma_insert_keeps_order(sorted.drop_last(), account);
        assert(sorted =~= sorted.drop_last().push(sorted.last()));
        assert(out.to_multiset() =~= sorted.to_multiset().insert(account));
        assert forall|i: int| 0 <= i < rest.len() implies rest[i].slot <= sorted.last().slot by {
            assert(rest.to_multiset().contains(rest[i]));
            if rest[i] != account {
                assert(sorted.drop_last().to_multiset().contains(rest[i]));
                assert(sorted.drop_last().contains(rest[i]));
            }
        }
    }
}

proof fn lemma_insert_at_slot<D>(
    sorted: Seq<DecodedEpochAccount<D>>,
    account: DecodedEpochAccount<D>,
    slot: u64,
)
    requires
        forall|i: int, j: int| 0 <= i <= j < sorted.len() ==> sorted[i].slot <= sorted[j].slot,
    ensures
        at_slot(insert_by_slot(sorted, account), slot) == if account.slot == slot {
            at_slot(sorted, slot).push(account)
        } else {
            at_slot(sorted, slot)
        },
    decreases sorted.len(),
{
    let pred = |a: DecodedEpochAccount<D>| a.slot == slot;
    if sorted.len() == 0 || sorted.last().slot <= account.slot {
        sorted.lemma_filter_push(account, pred);
    } else {
        let init = sorted.drop_last();
        lemma_insert_at_slot(init, account, slot);
        insert_by_slot(init, account).lemma_filter_push(sorted.last(), pred);
        init.lemma_filter_push(sorted.last(), pred);
        assert(sorted =~= init.push(sorted.last()));
        if account.slot == slot {
            // The account that stays behind has a higher slot.
            assert(!pred(sorted.last()));
        }
    }
}

proof fn lemma_oldest_first<D>(accounts: Seq<DecodedEpochAccount<D>>)
    ensures
        forall|i: int, j: int|
            0 <= i <= j < oldest_first(accounts).len() ==> oldest_first(accounts)[i].slot
                <= oldest_first(accounts)[j].slot,
        oldest_first(accounts).to_multiset() == accounts.to_multiset(),
        oldest_first(accounts).len() == accounts.len(),
        forall|slot: u64| #[trigger]
            at_slot(oldest_first(accounts), slot) == at_slot(accounts, slot),
    decreases accounts.len(),
{
    broadcast use vstd::seq_lib::group_to_multiset_ensures;

    if accounts.len() > 0 {
        let init = accounts.drop_last();
        lemma_oldest_first(init);
        lemma_insert_keeps_order(oldest_first(init), accounts.last());
        assert(accounts =~= init.push(accounts.last()));
        assert forall|slot: u64| #[trigger]
            at_slot(oldest_first(accounts), slot) == at_slot(accounts, slot) by {
            lemma_insert_at_slot(oldest_first(init), accounts.last(), slot);
            init.lemma_filter_push(
                accounts.last(),
                |a: DecodedEpochAccount<D>| a.slot == slot,
            );
        }
    }
}

proof fn lemma_reverse_at_slot<D>(accounts: Seq<DecodedEpochAccount<D>>, slot: u64)
    ensures
        at_slot(accounts.reverse(), slot) == at_slot(accounts, slot).reverse(),
    decreases accounts.len(),
{
    let pred = |a: DecodedEpochAccount<D>| a.slot == slot;
    if accounts.len() > 0 {
        let init = accounts.drop_last();
        lemma_reverse_at_slot(init, slot);
        assert(accounts.reverse() =~= seq![accounts.last()] + init.reverse());
        init.reverse().lemma_filter_prepend(accounts.last(), pred);
        init.lemma_filter_push(accounts.last(), pred);
        assert(accounts =~= init.push(accounts.last()));
        let kept = at_slot(init, slot);
        assert(Seq::empty() + kept.reverse() =~= kept.reverse());
        assert(kept.push(accounts.last()).reverse() =~= seq![accounts.last()] + kept.reverse());
    } else {
        assert(accounts.reverse() =~= accounts);
        assert(at_slot(accounts, slot).reverse() =~= at_slot(accounts, slot));
    }
}

/// The newest account comes first, and no account stands behind an older one.
pub proof fn law_newest_first_descends<D>(accounts: Seq<DecodedEpochAccount<D>>)
    ensures
        descends(newest_first(accounts)),
        forall|i: int|
            0 <= i < accounts.len() ==> newest_first(accounts)[0].slot >= (#[trigger] accounts[i]).slot,
{
    broadcast use vstd::seq_lib::group_to_multiset_ensures;

    let out = newest_first(accounts);
    lemma_oldest_first(accounts);
    assert forall|i: int| 0 <= i < accounts.len() implies out[0].slot >= (
    #[trigger] accounts[i]).slot by {
        assert(accounts.to_multiset().contains(accounts[i]));
        assert(oldest_first(accounts).contains(accounts[i]));
        let k = oldest_first(accounts).index_of(accounts[i]);
        assert(out[0] == oldest_first(accounts)[accounts.len() - 1]);
    }
}

/// Ordering by slot neither loses nor adds an account.
pub proof fn law_newest_first_permutes<D>(accounts: Seq<DecodedEpochAccount<D>>)
    ensures
        newest_first(accounts).to_multiset() == accounts.to_multiset(),
        newest_first(accounts).len() == accounts.len(),
{
    lemma_oldest_first(accounts);
    oldest_first(accounts).lemma_reverse_to_multiset();
}

/// Accounts of one slot come out in the reverse of the order in which they
/// came in.
pub proof fn law_newest_first_reverses_ties<D>(accounts: Seq<DecodedEpochAccount<D>>, slot: u64)
    ensures
        at_slot(newest_first(accounts), slot) == at_slot(accounts, slot).reverse(),
{
    lemma_oldest_first(accounts);
    lemma_reverse_at_slot(oldest_first(accounts), slot);
    assert(at_slot(oldest_first(accounts), slot) == at_slot(accounts, slot));
}

proof fn lemma_head_stands_at_slot<D>(
    a: Seq<DecodedEpochAccount<D>>,
    b: Seq<DecodedEpochAccount<D>>,
)
    requires
        a.len() > 0,
        descends(b),
        at_slot(a, a[0].slot) == at_slot(b, a[0].slot),
    ensures
        b.len() > 0,
        b[0].slot >= a[0].slot,
{
    let slot = a[0].slot;
    let pred = |account: DecodedEpochAccount<D>| account.slot == slot;
    a.lemma_filter_contains(pred, 0);
    b.lemma_filter_contains_rev(pred, a[0]);
    let k = b.index_of(a[0]);
    assert(b[0].slot >= b[k].slot);
}

proof fn lemma_same_slots_same_order<D>(
    a: Seq<DecodedEpochAccount<D>>,
    b: Seq<DecodedEpochAccount<D>>,
)
    requires
        descends(a),
        descends(b),
        forall|slot: u64| #[trigger] at_slot(a, slot) == at_slot(b, slot),
    ensures
        a == b,
    decreases a.len(),
{
    if a.len() == 0 {
        if b.len() > 0 {
            lemma_head_stands_at_slot(b, a);
        }
        assert(a =~= b);
    } else {
        lemma_head_stands_at_slot(a, b);
        lemma_head_stands_at_slot(b, a);
        let (a1, b1) = (a.drop_first(), b.drop_first());
        assert(a =~= seq![a[0]] + a1);
        assert(b =~= seq![b[0]] + b1);
        let head = a[0].slot;
        let at_head = |account: DecodedEpochAccount<D>| account.slot == head;
        a1.lemma_filter_prepend(a[0], at_head);
        b1.lemma_filter_prepend(b[0], at_head);
        assert(at_slot(a, head)[0] == at_slot(b, head)[0]);
        assert forall|slot: u64| #[trigger] at_slot(a1, slot) == at_slot(b1, slot) by {
            let pred = |account: DecodedEpochAccount<D>| account.slot == slot;
            a1.lemma_filter_prepend(a[0], pred);
            b1.lemma_filter_prepend(b[0], pred);
            assert(at_slot(a, slot) == at_slot(b, slot));
            if slot == head {
                assert(at_slot(a1, slot) =~= at_slot(a, slot).drop_first());
                assert(at_slot(b1, slot) =~= at_slot(b, slot).drop_first());
            } else {
                assert(Seq::empty() + at_slot(a1, slot) =~= at_slot(a1, slot));
                assert(Seq::empty() + at_slot(b1, slot) =~= at_slot(b1, slot));
            }
        }
        lemma_same_slots_same_order(a1, b1);
    }
}

/// No other order puts the highest slot first and turns each slot's accounts
/// around.
pub proof fn law_newest_first_is_the_only_order<D>(
    accounts: Seq<DecodedEpochAccount<D>>,
    other: Seq<DecodedEpochAccount<D>>,
)
    requires
        descends(other),
        forall|slot: u64| #[trigger]
            at_slot(other, slot) == at_slot(accounts, slot).reverse(),
    ensures
        other == newest_first(accounts),
{
    law_newest_first_descends(accounts);
    assert forall|slot: u64| #[trigger]
        at_slot(other, slot) == at_slot(newest_first(accounts), slot) by {
        law_newest_first_reverses_ties(accounts, slot);
    }
    lemma_same_slots_same_order(other, newest_first(accounts));
}

proof fn lemma_insert_position<D>(
    sorted: Seq<DecodedEpochAccount<D>>,
    account: DecodedEpochAccount<D>,
) -> (k: int)
    requires
        forall|i: int, j: int| 0 <= i <= j < sorted.len() ==> sorted[i].slot <= sorted[j].slot,
    ensures
        0 <= k <= sorted.len(),
        insert_by_slot(sorted, account) == sorted.insert(k, account),
        forall|i: int| 0 <= i < k ==> (#[trigger] sorted[i]).slot <= account.slot,
        forall|i: int| k <= i < sorted.len() ==> (#[trigger] sorted[i]).slot > account.slot,
    decreases sorted.len(),
{
    if sorted.len() == 0 || sorted.last().slot <= account.slot {
        assert(sorted.push(account) =~= sorted.insert(sorted.len() as int, account));
        sorted.len() as int
    } else {
        let init = sorted.drop_last();
        let k = lemma_insert_position(init, account);
        assert(init.insert(k, account).push(sorted.last()) =~= sorted.insert(k, account));
        assert forall|i: int| 0 <= i < k implies (#[trigger] sorted[i]).slot <= account.slot by {
            assert(sorted[i] == init[i]);
        }
        assert forall|i: int| k <= i < sorted.len() implies (#[trigger] sorted[i]).slot
            > account.slot by {
            if i < init.len() {
                assert(sorted[i] == init[i]);
            }
        }
        k
    }
}

/// Where each account of `oldest_first(accounts)` stood.
proof fn lemma_oldest_first_positions<D>(accounts: Seq<DecodedEpochAccount<D>>) -> (at: Seq<int>)
    ensures
        permutes(at, accounts.len()),
        oldest_first(accounts).len() == accounts.len(),
        forall|j: int|
            0 <= j < at.len() ==> oldest_first(accounts)[j] == accounts[#[trigger] at[j]],
        forall|j: int, k: int|
            0 <= j < k < at.len() ==> {
                ||| accounts[#[trigger] at[j]].slot < accounts[#[trigger] at[k]].slot
                ||| accounts[at[j]].slot == accounts[at[k]].slot && at[j] < at[k]
            },
    decreases accounts.len(),
{
    lemma_oldest_first(accounts);
    if accounts.len() == 0 {
        Seq::empty()
    } else {
        let init = accounts.drop_last();
        let last = accounts.len() - 1;
        let before = lemma_oldest_first_positions(init);
        lemma_oldest_first(init);
        let k = lemma_insert_position(oldest_first(init), accounts.last());
        let at = before.insert(k, last);
        assert forall|j: int| 0 <= j < at.len() implies 0 <= #[trigger] at[j] < accounts.len()
            && oldest_first(accounts)[j] == accounts[at[j]] by {
            if j < k {
                assert(at[j] == before[j]);
            } else if j > k {
                assert(at[j] == before[j - 1]);
            }
        }
        assert forall|j: int, m: int| 0 <= j < m < at.len() implies {
            ||| accounts[#[trigger] at[j]].slot < accounts[#[trigger] at[m]].slot
            ||| accounts[at[j]].slot == accounts[at[m]].slot && at[j] < at[m]
        } by {
            let j0 = if j < k { j } else { j - 1 };
            let m0 = if m < k { m } else { m - 1 };
            if j != k {
                assert(at[j] == before[j0]);
                assert(oldest_first(init)[j0] == init[before[j0]]);
            }
            if m != k {
                assert(at[m] == before[m0]);
                assert(oldest_first(init)[m0] == init[before[m0]]);
            }
        }
        assert forall|i: int| 0 <= i < accounts.len() implies #[trigger] at.contains(i) by {
            if i == last {
                assert(at[k] == i);
            } else {
                assert(before.contains(i));
                let j = before.index_of(i);
                assert(at[if j < k { j } else { j + 1 }] == i);
            }
        }
        at
    }
}

/// Where each account of `newest_first(accounts)` stood.
pub proof fn lemma_newest_first_positions<D>(accounts: Seq<DecodedEpochAccount<D>>) -> (at: Seq<
    int,
>)
    ensures
        permutes(at, accounts.len()),
        newest_first(accounts).len() == accounts.len(),
        forall|j: int|
            0 <= j < at.len() ==> newest_first(accounts)[j] == accounts[#[trigger] at[j]],
        forall|j: int, k: int|
            0 <= j < k < at.len() ==> {
                ||| accounts[#[trigger] at[j]].slot > accounts[#[trigger] at[k]].slot
                ||| accounts[at[j]].slot == accounts[at[k]].slot && at[j] > at[k]
            },
{
    let old = lemma_oldest_first_positions(accounts);
    let at = old.reverse();
    assert forall|i: int| 0 <= i < accounts.len() implies #[trigger] at.contains(i) by {
        assert(old.contains(i));
        let j = old.index_of(i);
        assert(at[old.len() - 1 - j] == i);
    }
    assert forall|j: int| 0 <= j < at.len() implies 0 <= #[trigger] at[j] < accounts.len()
        && newest_first(accounts)[j] == accounts[at[j]] by {
        assert(at[j] == old[old.len() - 1 - j]);
    }
    assert forall|j: int, k: int| 0 <= j < k < at.len() implies {
        ||| accounts[#[trigger] at[j]].slot > accounts[#[trigger] at[k]].slot
        ||| accounts[at[j]].slot == accounts[at[k]].slot && at[j] > at[k]
    } by {
        assert(at[j] == old[old.len() - 1 - j]);
        assert(at[k] == old[old.len() - 1 - k]);
    }
    at
}

/// `out` holds the account of `accounts` at `at[0]` first, then that at `at[1]`,
/// and so on. A higher slot comes before a lower one; of two accounts with one
/// slot, that which stood further back comes first.
pub open spec fn taken_newest_first<D>(
    accounts: Seq<DecodedEpochAccount<D>>,
    at: Seq<int>,
    out: Seq<DecodedEpochAccount<D>>,
) -> bool {
    &&& at.len() == out.len()
    &&& forall|j: int| 0 <= j < out.len() ==> #[trigger] out[j] == accounts[at[j]]
    &&& forall|j: int, k: int|
        0 <= j < k < out.len() ==> {
            ||| (#[trigger] out[j]).slot > (#[trigger] out[k]).slot
            ||| out[j].slot == out[k].slot && at[j] > at[k]
        }
}

/// A sorted list holds each account of the list that was handed in once. Of two
/// accounts the one with the higher slot comes first; of two with one slot, the
/// one that came later.
pub proof fn law_sorting_orders_all<D>(
    accounts: Vec<DecodedEpochAccount<D>>,
    out: Vec<DecodedEpochAccount<D>>,
)
    requires
        call_ensures(sort_newest_first::<D>, (accounts,), out),
    ensures
        call_requires(sort_newest_first::<D>, (accounts,)),
        out@.len() == accounts@.len(),
        exists|at: Seq<int>| #[trigger]
            permutes(at, accounts@.len()) && taken_newest_first(accounts@, at, out@),
{
    let at = lemma_newest_first_positions(accounts@);
    assert(permutes(at, accounts@.len()));
    assert forall|j: int| 0 <= j < out@.len() implies #[trigger] out@[j] == accounts@[at[j]] by {
        assert(0 <= at[j] < accounts@.len());
    }
    assert forall|j: int, k: int| 0 <= j < k < out@.len() implies {
        ||| (#[trigger] out@[j]).slot > (#[trigger] out@[k]).slot
        ||| out@[j].slot == out@[k].slot && at[j] > at[k]
    } by {
        assert(out@[j] == accounts@[at[j]] && out@[k] == accounts@[at[k]]);
    }
}

} // verus!
