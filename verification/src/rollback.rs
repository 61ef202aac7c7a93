//! Rolling a loaded wallet back to an earlier block.
use crate::accounts::{
    account_models, height_map, heights_of, AccountModel, ManualAccount, ManualStream, ManualWallet,
    WalletModel,
};
use crate::height::{BlockHeight, INVALID, MEMPOOL};
use crate::listing::{
    coins_sorted, comes_behind, in_order, sort_coins, sorted_coins, sorting_sorts, Coin, Listed,
    Order,
};
use crate::notes::{OrchardNote, TxId, Txo};
use crate::wallet_tx::WalletTx;
use vstd::prelude::*;

verus! {

/// What was received by a height.
pub open spec fn came_by<T: Listed>(h: u32) -> spec_fn(T) -> bool {
    |x: T| x.at(Order::Recv) <= h
}

/// What was received and spent by a height.
pub open spec fn gone_by<T: Listed>(h: u32) -> spec_fn(T) -> bool {
    |x: T| x.at(Order::Recv) <= h && x.at(Order::Spent) <= h
}

/// What was received by a height and spent above it.
pub open spec fn back_at<T: Listed>(h: u32) -> spec_fn(T) -> bool {
    |x: T| x.at(Order::Recv) <= h && x.at(Order::Spent) > h
}

/// Coins as they are when nothing has spent them.
pub open spec fn all_unspent<T: Coin>(s: Seq<T>) -> Seq<T> {
    Seq::new(s.len(), |i: int| s[i].unspent())
}

/// The coins that are not spent at a height: those that were not and had come, and those whose spend
/// came later.
pub open spec fn unspent_at<T: Coin>(unspent: Seq<T>, spent: Seq<T>, h: u32) -> Seq<T> {
    sorted_coins(unspent.filter(came_by(h)) + all_unspent(spent.filter(back_at(h))))
}

fn keep_came_by<T: Listed>(v: &Vec<T>, h: u32) -> (r: Vec<T>)
    ensures
        r@ == v@.filter(came_by(h)),
{
    let mut r: Vec<T> = Vec::new();
    let mut i: usize = 0;
    proof {
        reveal(Seq::filter);
    }
    while i < v.len()
        invariant
            i <= v@.len(),
            r@ == v@.take(i as int).filter(came_by(h)),
        decreases v.len() - i,
    {
        let x = v[i];
        proof {
            reveal(Seq::filter);
            assert(v@.take(i + 1).drop_last() =~= v@.take(i as int));
        }
        if x.height_in(Order::Recv) <= h {
            r.push(x);
        }
        i += 1;
    }
    assert(v@.take(i as int) =~= v@);
    r
}

/// Splits what is spent into what stays so and what is not spent yet at a height.
fn split_spent<T: Coin>(unspent: Vec<T>, spent: &Vec<T>, h: u32) -> (r: (Vec<T>, Vec<T>))
    ensures
        r.0@ == unspent@ + all_unspent(spent@.filter(back_at(h))),
        r.1@ == spent@.filter(gone_by(h)),
{
    let mut back: Vec<T> = unspent;
    let mut gone: Vec<T> = Vec::new();
    let mut i: usize = 0;
    proof {
        reveal(Seq::filter);
        assert(unspent@ + all_unspent(spent@.take(0).filter(back_at(h))) =~= unspent@);
    }
    while i < spent.len()
        invariant
            i <= spent@.len(),
            back@ == unspent@ + all_unspent(spent@.take(i as int).filter(back_at(h))),
            gone@ == spent@.take(i as int).filter(gone_by(h)),
        decreases spent.len() - i,
    {
        let x = spent[i];
        let ghost before = spent@.take(i as int).filter(back_at(h));
        proof {
            reveal(Seq::filter);
            assert(spent@.take(i + 1).drop_last() =~= spent@.take(i as int));
        }
        if x.height_in(Order::Recv) <= h {
            if x.height_in(Order::Spent) > h {
                back.push(x.to_unspent());
                assert(all_unspent(before.push(x)) =~= all_unspent(before).push(x.unspent()));
            } else {
                gone.push(x);
            }
        }
        i += 1;
        assert(back@ =~= unspent@ + all_unspent(spent@.take(i as int).filter(back_at(h))));
    }
    assert(spent@.take(i as int) =~= spent@);
    (back, gone)
}

/// A height, or the given one if that is lower.
pub open spec fn at_most(h: BlockHeight, top: BlockHeight) -> BlockHeight {
    if h.0 > top.0 {
        top
    } else {
        h
    }
}

/// An account as it was at a height.
pub open spec fn account_at(a: AccountModel, h: BlockHeight) -> AccountModel {
    AccountModel {
        fully_detected_h: at_most(a.fully_detected_h, h),
        fully_decoded_h: at_most(a.fully_decoded_h, h),
        recv_orchard_notes: a.recv_orchard_notes.filter(came_by(h.0)),
        unspent_orchard_notes: unspent_at(a.unspent_orchard_notes, a.spent_orchard_notes, h.0),
        spent_orchard_notes: a.spent_orchard_notes.filter(gone_by(h.0)),
        recv_txos: a.recv_txos.filter(came_by(h.0)),
        utxos: unspent_at(a.utxos, a.stxos, h.0),
        stxos: a.stxos.filter(gone_by(h.0)),
        ..a
    }
}

fn truncate_account_to(a: &mut ManualAccount, h: BlockHeight)
    ensures
        final(a)@ == account_at(old(a)@, h),
{
    if a.fully_detected_h.0 > h.0 {
        a.fully_detected_h = h;
    }
    if a.fully_decoded_h.0 > h.0 {
        a.fully_decoded_h = h;
    }
    a.recv_orchard_notes = keep_came_by(&a.recv_orchard_notes, h.0);
    let unspent = keep_came_by(&a.unspent_orchard_notes, h.0);
    let (unspent, spent) = split_spent(unspent, &a.spent_orchard_notes, h.0);
    a.unspent_orchard_notes = sort_coins(&unspent);
    a.spent_orchard_notes = spent;
    a.recv_txos = keep_came_by(&a.recv_txos, h.0);
    let utxos = keep_came_by(&a.utxos, h.0);
    let (utxos, stxos) = split_spent(utxos, &a.stxos, h.0);
    a.utxos = sort_coins(&utxos);
    a.stxos = stxos;
}

/// A transaction that is there at a height: it was in a block by then, or is in none.
pub open spec fn listed_at(h: u32) -> spec_fn(WalletTx) -> bool {
    |t: WalletTx| t.h.0 <= h || t.h.0 >= MEMPOOL
}

/// A wallet as it was at a height.
pub open spec fn wallet_at(w: WalletModel, h: BlockHeight) -> WalletModel {
    let txs = w.txs.filter(listed_at(h.0));
    WalletModel {
        chain_tip_h: h,
        accounts: Seq::new(w.accounts.len(), |i: int| account_at(w.accounts[i], h)),
        txs,
        tx_h_map: heights_of(txs),
        ..w
    }
}

/// Rolls a wallet back to a height. What was received later is dropped, what was spent later is not
/// spent, and the transactions of later blocks are dropped; those that are in no block stay.
pub fn truncate_wallet_to(w: &mut ManualWallet, target_h: BlockHeight)
    ensures
        final(w)@ == wallet_at(old(w)@, target_h),
        old(w).seen_bond_values.wf() ==> final(w).maps_wf(),
{
    w.chain_tip_h = target_h;
    let mut i: usize = 0;
    while i < w.accounts.len()
        invariant
            i <= w.accounts@.len() == old(w).accounts@.len(),
            w@ == (WalletModel {
                chain_tip_h: target_h,
                accounts: account_models(w.accounts@),
                ..old(w)@
            }),
            w.seen_bond_values == old(w).seen_bond_values,
            forall|k: int|
                0 <= k < i ==> (#[trigger] w.accounts@[k])@ == account_at(
                    old(w).accounts@[k]@,
                    target_h,
                ),
            forall|k: int|
                i <= k < w.accounts@.len() ==> #[trigger] w.accounts@[k] == old(w).accounts@[k],
        decreases w.accounts.len() - i,
    {
        truncate_account_to(&mut w.accounts[i], target_h);
        i += 1;
    }
    let mut txs: Vec<WalletTx> = Vec::new();
    let mut k: usize = 0;
    proof {
        reveal(Seq::filter);
    }
    while k < w.txs.len()
        invariant
            k <= w.txs@.len(),
            txs@ == w.txs@.take(k as int).filter(listed_at(target_h.0)),
        decreases w.txs.len() - k,
    {
        let t = w.txs[k];
        proof {
            reveal(Seq::filter);
            assert(w.txs@.take(k + 1).drop_last() =~= w.txs@.take(k as int));
        }
        if t.h.0 <= target_h.0 || t.h.0 >= MEMPOOL {
            txs.push(t);
        }
        k += 1;
    }
    assert(w.txs@.take(k as int) =~= w.txs@);
    w.tx_h_map = height_map(&txs);
    w.txs = txs;
    assert(w@.accounts =~= wallet_at(old(w)@, target_h).accounts);
}

/// The height of a stream after its wallet was rolled back: that of its entry, and not above the
/// cap. Without an entry it stays.
pub open spec fn stream_at(s: ManualStream, heights: Seq<u32>, i: int, cap_h: u32) -> ManualStream {
    if i < heights.len() {
        ManualStream {
            sync_h: BlockHeight(if heights[i] < cap_h { heights[i] } else { cap_h }),
            ..s
        }
    } else {
        s
    }
}

/// The streams of a wallet whose entries start at `from`.
pub open spec fn streams_at(s: Seq<ManualStream>, heights: Seq<u32>, from: int, cap_h: u32) -> Seq<
    ManualStream,
> {
    Seq::new(s.len(), |i: int| stream_at(s[i], heights, from + i, cap_h))
}

fn restore_streams(strms: &mut Vec<ManualStream>, heights: &[u32], from: usize, cap_h: u32)
    ensures
        final(strms)@ == streams_at(old(strms)@, heights@, from as int, cap_h),
{
    let mut i: usize = 0;
    while i < strms.len()
        invariant
            i <= strms@.len() == old(strms)@.len(),
            forall|k: int|
                0 <= k < i ==> #[trigger] strms@[k] == stream_at(
                    old(strms)@[k],
                    heights@,
                    from + k,
                    cap_h,
                ),
            forall|k: int| i <= k < strms@.len() ==> #[trigger] strms@[k] == old(strms)@[k],
        decreases strms.len() - i,
    {
        if from < heights.len() && i < heights.len() - from {
            let h: u32 = heights[from + i];
            let h: u32 = if h < cap_h {
                h
            } else {
                cap_h
            };
            let s = strms[i];
            strms.set(i, ManualStream { sync_h: BlockHeight(h), ..s });
        }
        i += 1;
    }
    assert(strms@ =~= streams_at(old(strms)@, heights@, from as int, cap_h));
}

/// Puts each stream back to where an anchor says it was: the miner's streams first, then the user's.
pub fn restore_stream_heights(
    miner_wallet: &mut ManualWallet,
    user_wallet: &mut ManualWallet,
    stream_heights: &[u32],
    cap_h: u32,
)
    ensures
        final(miner_wallet)@ == (WalletModel {
            strms: streams_at(old(miner_wallet)@.strms, stream_heights@, 0, cap_h),
            ..old(miner_wallet)@
        }),
        final(user_wallet)@ == (WalletModel {
            strms: streams_at(
                old(user_wallet)@.strms,
                stream_heights@,
                old(miner_wallet)@.strms.len() as int,
                cap_h,
            ),
            ..old(user_wallet)@
        }),
        old(miner_wallet).maps_wf() ==> final(miner_wallet).maps_wf(),
        old(user_wallet).maps_wf() ==> final(user_wallet).maps_wf(),
{
    let n: usize = miner_wallet.strms.len();
    restore_streams(&mut miner_wallet.strms, stream_heights, 0, cap_h);
    restore_streams(&mut user_wallet.strms, stream_heights, n, cap_h);
}

proof fn lemma_filter_items<T>(s: Seq<T>, p: spec_fn(T) -> bool)
    ensures
        s.filter(p).len() <= s.len(),
        forall|i: int| 0 <= i < s.filter(p).len() ==> p(#[trigger] s.filter(p)[i]),
        (forall|i: int| 0 <= i < s.len() ==> p(#[trigger] s[i])) ==> s.filter(p) == s,
    decreases s.len(),
{
    reveal(Seq::filter);
    if s.len() > 0 {
        let t = s.drop_last();
        lemma_filter_items(t, p);
        if forall|i: int| 0 <= i < s.len() ==> p(#[trigger] s[i]) {
            assert forall|i: int| 0 <= i < t.len() implies p(#[trigger] t[i]) by {
                assert(t[i] == s[i]);
            }
            assert(t.push(s.last()) =~= s);
        }
    }
}

/// Dropping items keeps the order of the others.
proof fn lemma_filter_order<T: Listed>(s: Seq<T>, p: spec_fn(T) -> bool, o: Order)
    requires
        in_order(s, o),
    ensures
        in_order(s.filter(p), o),
        forall|i: int|
            0 <= i < s.filter(p).len() ==> exists|k: int|
                0 <= k < s.len() && #[trigger] s.filter(p)[i] == #[trigger] s[k],
    decreases s.len(),
{
    reveal(Seq::filter);
    if s.len() > 0 {
        let t = s.drop_last();
        assert(in_order(t, o)) by {
            assert forall|i: int, j: int| 0 <= i <= j < t.len() implies #[trigger] t[i].at(o)
                <= #[trigger] t[j].at(o) by {
                assert(s[i].at(o) <= s[j].at(o));
            }
        }
        lemma_filter_order(t, p, o);
        let f = t.filter(p);
        let g = s.filter(p);
        assert forall|i: int| 0 <= i < f.len() implies exists|k: int|
            0 <= k < s.len() && #[trigger] f[i] == #[trigger] s[k] by {
            let k = choose|k: int| 0 <= k < t.len() && f[i] == #[trigger] t[k];
            assert(s[k] == t[k]);
        }
        assert forall|i: int| 0 <= i < g.len() implies exists|k: int|
            0 <= k < s.len() && #[trigger] g[i] == #[trigger] s[k] by {
            if i < f.len() {
                assert(g[i] == f[i]);
                let k = choose|k: int| 0 <= k < s.len() && f[i] == #[trigger] s[k];
                assert(g[i] == s[k]);
            } else {
                assert(g[i] == s[s.len() - 1]);
            }
        }
        assert forall|i: int, j: int| 0 <= i <= j < g.len() implies #[trigger] g[i].at(o)
            <= #[trigger] g[j].at(o) by {
            if j < f.len() {
                assert(f[i].at(o) <= f[j].at(o));
            } else if i < f.len() {
                let k = choose|k: int| 0 <= k < s.len() && f[i] == #[trigger] s[k];
                assert(s[k].at(o) <= s[s.len() - 1].at(o));
            }
        }
    }
}

/// Sorting coins that are sorted changes nothing.
pub proof fn sorting_again_changes_nothing<T: Coin>(s: Seq<T>)
    requires
        coins_sorted(s),
    ensures
        sorted_coins(s) == s,
    decreases s.len(),
{
    if s.len() > 0 {
        let t = s.drop_last();
        assert(coins_sorted(t)) by {
            assert forall|i: int, j: int| 0 <= i < j < t.len() implies !comes_behind(
                #[trigger] t[i],
                #[trigger] t[j],
            ) by {
                assert(!comes_behind(s[i], s[j]));
            }
        }
        sorting_again_changes_nothing(t);
        if t.len() > 0 {
            assert(!comes_behind(s[t.len() - 1], s[s.len() - 1]));
        }
        assert(t.insert(t.len() as int, s.last()) =~= s);
    } else {
        assert(s =~= seq![]);
    }
}

/// Of what is in a sorted list, every item was in the list before.
proof fn lemma_sorted_items<T: Coin>(s: Seq<T>, p: spec_fn(T) -> bool)
    requires
        forall|i: int| 0 <= i < s.len() ==> p(#[trigger] s[i]),
    ensures
        forall|i: int| 0 <= i < sorted_coins(s).len() ==> p(#[trigger] sorted_coins(s)[i]),
{
    broadcast use vstd::seq_lib::group_to_multiset_ensures;

    sorting_sorts(s);
    let r = sorted_coins(s);
    assert forall|i: int| 0 <= i < r.len() implies p(#[trigger] r[i]) by {
        assert(r.contains(r[i]));
        assert(r.to_multiset().count(r[i]) > 0);
        assert(s.to_multiset().count(r[i]) > 0);
        assert(s.contains(r[i]));
    }
}

/// What is not spent at a height was received by then, and is in order.
proof fn lemma_unspent_at<T: Coin>(unspent: Seq<T>, spent: Seq<T>, h: u32)
    ensures
        in_order(unspent_at(unspent, spent, h), Order::Recv),
        coins_sorted(unspent_at(unspent, spent, h)),
        forall|i: int|
            0 <= i < unspent_at(unspent, spent, h).len() ==> came_by::<T>(h)(
                #[trigger] unspent_at(unspent, spent, h)[i],
            ),
{
    let a = unspent.filter(came_by(h));
    let b = spent.filter(back_at(h));
    lemma_filter_items(unspent, came_by(h));
    lemma_filter_items(spent, back_at(h));
    let all = a + all_unspent(b);
    assert forall|i: int| 0 <= i < all.len() implies came_by::<T>(h)(#[trigger] all[i]) by {
        if i < a.len() {
            assert(all[i] == a[i]);
        } else {
            assert(all[i] == b[i - a.len()].unspent());
            b[i - a.len()].lemma_unspent();
        }
    }
    sorting_sorts(all);
    lemma_sorted_items(all, came_by(h));
}

/// Whether an account holds only what happened by a height.
pub open spec fn ends_at(a: AccountModel, h: BlockHeight) -> bool {
    &&& a.fully_detected_h.0 <= h.0
    &&& a.fully_decoded_h.0 <= h.0
    &&& forall|i: int|
        0 <= i < a.recv_orchard_notes.len() ==> (#[trigger] a.recv_orchard_notes[i]).recv_h.0 <= h.0
    &&& forall|i: int|
        0 <= i < a.unspent_orchard_notes.len() ==> (#[trigger] a.unspent_orchard_notes[i]).recv_h.0
            <= h.0
    &&& forall|i: int|
        0 <= i < a.spent_orchard_notes.len() ==> (#[trigger] a.spent_orchard_notes[i]).recv_h.0
            <= h.0 && a.spent_orchard_notes[i].spent_h.0 <= h.0
    &&& forall|i: int| 0 <= i < a.recv_txos.len() ==> (#[trigger] a.recv_txos[i]).recv_h.0 <= h.0
    &&& forall|i: int| 0 <= i < a.utxos.len() ==> (#[trigger] a.utxos[i]).recv_h.0 <= h.0
    &&& forall|i: int|
        0 <= i < a.stxos.len() ==> (#[trigger] a.stxos[i]).recv_h.0 <= h.0 && a.stxos[i].spent_h.0
            <= h.0
}

/// A rolled-back account knows of nothing that was received or spent above the height, and its lists
/// are in their order if they were.
pub proof fn nothing_is_left_above(a: AccountModel, h: BlockHeight)
    ensures
        ends_at(account_at(a, h), h),
        a.ordered() ==> account_at(a, h).ordered(),
{
    lemma_filter_items(a.recv_orchard_notes, came_by(h.0));
    lemma_filter_items(a.spent_orchard_notes, gone_by(h.0));
    lemma_filter_items(a.recv_txos, came_by(h.0));
    lemma_filter_items(a.stxos, gone_by(h.0));
    lemma_unspent_at(a.unspent_orchard_notes, a.spent_orchard_notes, h.0);
    lemma_unspent_at(a.utxos, a.stxos, h.0);
    let r = account_at(a, h);
    assert forall|i: int| 0 <= i < r.recv_orchard_notes.len() implies (
    #[trigger] r.recv_orchard_notes[i]).recv_h.0 <= h.0 by {
        assert(came_by::<OrchardNote>(h.0)(r.recv_orchard_notes[i]));
    }
    assert forall|i: int| 0 <= i < r.unspent_orchard_notes.len() implies (
    #[trigger] r.unspent_orchard_notes[i]).recv_h.0 <= h.0 by {
        assert(came_by::<OrchardNote>(h.0)(r.unspent_orchard_notes[i]));
    }
    assert forall|i: int| 0 <= i < r.spent_orchard_notes.len() implies (
    #[trigger] r.spent_orchard_notes[i]).recv_h.0 <= h.0 && r.spent_orchard_notes[i].spent_h.0
        <= h.0 by {
        assert(gone_by::<OrchardNote>(h.0)(r.spent_orchard_notes[i]));
    }
    assert forall|i: int| 0 <= i < r.recv_txos.len() implies (#[trigger] r.recv_txos[i]).recv_h.0
        <= h.0 by {
        assert(came_by::<Txo>(h.0)(r.recv_txos[i]));
    }
    assert forall|i: int| 0 <= i < r.utxos.len() implies (#[trigger] r.utxos[i]).recv_h.0 <= h.0 by {
        assert(came_by::<Txo>(h.0)(r.utxos[i]));
    }
    assert forall|i: int| 0 <= i < r.stxos.len() implies (#[trigger] r.stxos[i]).recv_h.0 <= h.0
        && r.stxos[i].spent_h.0 <= h.0 by {
        assert(gone_by::<Txo>(h.0)(r.stxos[i]));
    }
    if a.ordered() {
        lemma_filter_order(a.recv_orchard_notes, came_by(h.0), Order::Recv);
        lemma_filter_order(a.spent_orchard_notes, gone_by(h.0), Order::Spent);
        lemma_filter_order(a.recv_txos, came_by(h.0), Order::Recv);
        lemma_filter_order(a.stxos, gone_by(h.0), Order::Spent);
    }
}

/// What was rolled back to a height has nothing to roll back there.
proof fn lemma_roll_back_again<T: Coin>(unspent: Seq<T>, spent: Seq<T>, h: u32, top: u32)
    requires
        h <= top,
    ensures
        unspent_at(unspent_at(unspent, spent, h), spent.filter(gone_by(h)), top) == unspent_at(
            unspent,
            spent,
            h,
        ),
        spent.filter(gone_by(h)).filter(gone_by(top)) == spent.filter(gone_by(h)),
{
    let u = unspent_at(unspent, spent, h);
    let g = spent.filter(gone_by(h));
    lemma_unspent_at(unspent, spent, h);
    lemma_filter_items(spent, gone_by(h));
    assert forall|i: int| 0 <= i < u.len() implies came_by::<T>(top)(#[trigger] u[i]) by {
        assert(came_by::<T>(h)(u[i]));
    }
    lemma_filter_items(u, came_by(top));
    assert forall|i: int| 0 <= i < g.len() implies gone_by::<T>(top)(#[trigger] g[i]) by {
        assert(gone_by::<T>(h)(g[i]));
    }
    lemma_filter_items(g, gone_by(top));
    lemma_filter_items(g, back_at(top));
    assert(g.filter(back_at(top)).len() == 0) by {
        lemma_filter_none(g, back_at(top));
    }
    assert(u + all_unspent(g.filter(back_at(top))) =~= u);
    sorting_again_changes_nothing(u);
}

proof fn lemma_filter_none<T>(s: Seq<T>, p: spec_fn(T) -> bool)
    requires
        forall|i: int| 0 <= i < s.len() ==> !p(#[trigger] s[i]),
    ensures
        s.filter(p).len() == 0,
    decreases s.len(),
{
    reveal(Seq::filter);
    if s.len() > 0 {
        let t = s.drop_last();
        assert forall|i: int| 0 <= i < t.len() implies !p(#[trigger] t[i]) by {
            assert(t[i] == s[i]);
        }
        lemma_filter_none(t, p);
    }
}

/// An account that was rolled back to a height stays as it is when it is rolled back there again, or
/// to a block above.
pub proof fn rolling_an_account_back_again_changes_nothing(
    a: AccountModel,
    h: BlockHeight,
    top: BlockHeight,
)
    requires
        h.0 <= top.0,
    ensures
        account_at(account_at(a, h), top) == account_at(a, h),
{
    lemma_roll_back_again(a.unspent_orchard_notes, a.spent_orchard_notes, h.0, top.0);
    lemma_roll_back_again(a.utxos, a.stxos, h.0, top.0);
    let r = a.recv_orchard_notes.filter(came_by(h.0));
    lemma_filter_items(a.recv_orchard_notes, came_by(h.0));
    assert forall|i: int| 0 <= i < r.len() implies came_by::<OrchardNote>(top.0)(
        #[trigger] r[i],
    ) by {
        assert(came_by::<OrchardNote>(h.0)(r[i]));
    }
    lemma_filter_items(r, came_by(top.0));
    let t = a.recv_txos.filter(came_by(h.0));
    lemma_filter_items(a.recv_txos, came_by(h.0));
    assert forall|i: int| 0 <= i < t.len() implies came_by::<Txo>(top.0)(#[trigger] t[i]) by {
        assert(came_by::<Txo>(h.0)(t[i]));
    }
    lemma_filter_items(t, came_by(top.0));
}

/// Rolling a wallet back to a height twice is rolling it back once.
pub proof fn rolling_back_again_changes_nothing(w: WalletModel, h: BlockHeight)
    ensures
        wallet_at(wallet_at(w, h), h) == wallet_at(w, h),
{
    let once = wallet_at(w, h);
    let twice = wallet_at(once, h);
    assert forall|i: int| 0 <= i < w.accounts.len() implies #[trigger] twice.accounts[i]
        == once.accounts[i] by {
        rolling_an_account_back_again_changes_nothing(w.accounts[i], h, h);
    }
    assert(twice.accounts =~= once.accounts);
    lemma_filter_items(w.txs, listed_at(h.0));
    lemma_filter_items(once.txs, listed_at(h.0));
}

proof fn lemma_filter_twice<T>(s: Seq<T>, wide: spec_fn(T) -> bool, narrow: spec_fn(T) -> bool)
    requires
        forall|x: T| #[trigger] narrow(x) ==> wide(x),
    ensures
        s.filter(wide).filter(narrow) == s.filter(narrow),
    decreases s.len(),
{
    reveal(Seq::filter);
    if s.len() > 0 {
        let t = s.drop_last();
        lemma_filter_twice(t, wide, narrow);
        let f = t.filter(wide);
        if wide(s.last()) {
            assert(f.push(s.last()).drop_last() =~= f);
        }
    }
}

proof fn lemma_filter_counts<T>(s: Seq<T>, p: spec_fn(T) -> bool)
    ensures
        forall|x: T| #[trigger]
            s.filter(p).to_multiset().count(x) == if p(x) {
                s.to_multiset().count(x)
            } else {
                0
            },
    decreases s.len(),
{
    broadcast use vstd::seq_lib::group_to_multiset_ensures;

    reveal(Seq::filter);
    if s.len() > 0 {
        let t = s.drop_last();
        lemma_filter_counts(t, p);
        assert(s =~= t.push(s.last()));
        assert(s.to_multiset() =~= t.to_multiset().insert(s.last()));
        if p(s.last()) {
            assert(s.filter(p) =~= t.filter(p).push(s.last()));
            assert(s.filter(p).to_multiset() =~= t.filter(p).to_multiset().insert(s.last()));
        } else {
            assert(s.filter(p) =~= t.filter(p));
        }
        assert forall|x: T| #[trigger]
            s.filter(p).to_multiset().count(x) == if p(x) {
                s.to_multiset().count(x)
            } else {
                0
            } by {
            assert(t.filter(p).to_multiset().count(x) == if p(x) {
                t.to_multiset().count(x)
            } else {
                0
            });
        }
    } else {
        assert(s =~= seq![]);
        assert(s.filter(p) =~= seq![]);
    }
}

/// What is not spent at a lower height of what was spent: what comes back from above the higher height,
/// and what comes back from between.
proof fn lemma_back_in_two_steps<T: Coin>(spent: Seq<T>, high: u32, low: u32)
    requires
        low <= high,
    ensures
        all_unspent(spent.filter(back_at(low))).to_multiset() == all_unspent(
            spent.filter(back_at(high)),
        ).filter(came_by(low)).to_multiset().add(
            all_unspent(spent.filter(gone_by(high)).filter(back_at(low))).to_multiset(),
        ),
    decreases spent.len(),
{
    broadcast use vstd::seq_lib::group_to_multiset_ensures;

    reveal(Seq::filter);
    let whole = all_unspent(spent.filter(back_at(low)));
    let above = all_unspent(spent.filter(back_at(high)));
    let between = all_unspent(spent.filter(gone_by(high)).filter(back_at(low)));
    if spent.len() > 0 {
        let t = spent.drop_last();
        let x = spent.last();
        x.lemma_unspent();
        lemma_back_in_two_steps(t, high, low);
        let whole0 = all_unspent(t.filter(back_at(low)));
        let above0 = all_unspent(t.filter(back_at(high)));
        let gone0 = t.filter(gone_by(high));
        let between0 = all_unspent(gone0.filter(back_at(low)));
        if back_at::<T>(low)(x) {
            assert(whole =~= whole0.push(x.unspent()));
        }
        if back_at::<T>(high)(x) {
            assert(above =~= above0.push(x.unspent()));
            assert(above.drop_last() =~= above0);
        }
        if gone_by::<T>(high)(x) {
            assert(gone0.push(x).drop_last() =~= gone0);
            if back_at::<T>(low)(x) {
                assert(between =~= between0.push(x.unspent()));
            }
        }
        assert(whole.to_multiset() =~= above.filter(came_by(low)).to_multiset().add(
            between.to_multiset(),
        ));
    } else {
        assert(whole =~= seq![]);
        assert(above.filter(came_by(low)) =~= seq![]);
        assert(between =~= seq![]);
        assert(whole.to_multiset() =~= above.filter(came_by(low)).to_multiset().add(
            between.to_multiset(),
        ));
    }
}

/// Coins that are the same but for the order of those that come at the same place: both lists are
/// sorted, and hold the same.
pub open spec fn same_coins<T: Coin>(a: Seq<T>, b: Seq<T>) -> bool {
    &&& coins_sorted(a)
    &&& coins_sorted(b)
    &&& a.to_multiset() == b.to_multiset()
}

/// Accounts that are the same but for the order of unspent coins that come at the same place.
pub open spec fn same_account(a: AccountModel, b: AccountModel) -> bool {
    &&& a == (AccountModel {
        unspent_orchard_notes: a.unspent_orchard_notes,
        utxos: a.utxos,
        ..b
    })
    &&& same_coins(a.unspent_orchard_notes, b.unspent_orchard_notes)
    &&& same_coins(a.utxos, b.utxos)
}

/// Wallets that are the same but for the order of unspent coins that come at the same place.
pub open spec fn same_wallet(a: WalletModel, b: WalletModel) -> bool {
    &&& a == (WalletModel { accounts: a.accounts, ..b })
    &&& a.accounts.len() == b.accounts.len()
    &&& forall|i: int|
        0 <= i < a.accounts.len() ==> same_account(#[trigger] a.accounts[i], b.accounts[i])
}

proof fn lemma_two_steps<T: Coin>(unspent: Seq<T>, spent: Seq<T>, high: u32, low: u32)
    requires
        low <= high,
    ensures
        same_coins(
            unspent_at(unspent_at(unspent, spent, high), spent.filter(gone_by(high)), low),
            unspent_at(unspent, spent, low),
        ),
        spent.filter(gone_by(high)).filter(gone_by(low)) == spent.filter(gone_by(low)),
{
    broadcast use vstd::seq_lib::group_to_multiset_ensures;

    lemma_filter_twice(spent, gone_by(high), gone_by(low));
    lemma_filter_twice(unspent, came_by(high), came_by(low));
    lemma_back_in_two_steps(spent, high, low);
    let came = unspent.filter(came_by(high));
    let back = all_unspent(spent.filter(back_at(high)));
    let once = sorted_coins(came + back);
    let between = all_unspent(spent.filter(gone_by(high)).filter(back_at(low)));
    let a = once.filter(came_by(low)) + between;
    let b = unspent.filter(came_by(low)) + all_unspent(spent.filter(back_at(low)));
    sorting_sorts(came + back);
    sorting_sorts(a);
    sorting_sorts(b);
    lemma_filter_counts(once, came_by(low));
    lemma_filter_counts(came, came_by(low));
    lemma_filter_counts(back, came_by(low));
    vstd::seq_lib::lemma_multiset_commutative(came, back);
    vstd::seq_lib::lemma_multiset_commutative(once.filter(came_by(low)), between);
    vstd::seq_lib::lemma_multiset_commutative(
        unspent.filter(came_by(low)),
        all_unspent(spent.filter(back_at(low))),
    );
    assert(a.to_multiset() =~= b.to_multiset());
}

/// Rolling a wallet back to a height and then to a lower one is rolling it back to the lower one, but
/// for the order of unspent coins that come at the same place.
pub proof fn rolling_back_in_two_steps(w: WalletModel, high: BlockHeight, low: BlockHeight)
    requires
        low.0 <= high.0,
    ensures
        same_wallet(wallet_at(wallet_at(w, high), low), wallet_at(w, low)),
{
    let twice = wallet_at(wallet_at(w, high), low);
    let once = wallet_at(w, low);
    lemma_filter_twice(w.txs, listed_at(high.0), listed_at(low.0));
    assert forall|i: int| 0 <= i < twice.accounts.len() implies same_account(
        #[trigger] twice.accounts[i],
        once.accounts[i],
    ) by {
        let a = w.accounts[i];
        lemma_filter_twice(a.recv_orchard_notes, came_by(high.0), came_by(low.0));
        lemma_filter_twice(a.recv_txos, came_by(high.0), came_by(low.0));
        lemma_two_steps(a.unspent_orchard_notes, a.spent_orchard_notes, high.0, low.0);
        lemma_two_steps(a.utxos, a.stxos, high.0, low.0);
    }
}

/// Rolling back keeps the wallet's transactions in order.
pub proof fn rolling_back_keeps_the_order(w: WalletModel, h: BlockHeight)
    requires
        in_order(w.txs, Order::Recv),
    ensures
        in_order(wallet_at(w, h).txs, Order::Recv),
{
    lemma_filter_order(w.txs, listed_at(h.0), Order::Recv);
}

proof fn lemma_filtered<T>(s: Seq<T>, p: spec_fn(T) -> bool, x: T)
    ensures
        s.filter(p).contains(x) <==> s.contains(x) && p(x),
    decreases s.len(),
{
    reveal(Seq::filter);
    if s.len() > 0 {
        let t = s.drop_last();
        lemma_filtered(t, p, x);
        let f = t.filter(p);
        assert(s.contains(x) <==> t.contains(x) || x == s.last()) by {
            if s.contains(x) {
                let k = choose|k: int| 0 <= k < s.len() && s[k] == x;
                if k < t.len() {
                    assert(t[k] == x);
                }
            }
            if t.contains(x) {
                let k = choose|k: int| 0 <= k < t.len() && t[k] == x;
                assert(s[k] == x);
            }
            assert(s[s.len() - 1] == s.last());
        }
        if p(s.last()) {
            let g = f.push(s.last());
            assert(s.filter(p) == g);
            if f.contains(x) {
                let k = choose|k: int| 0 <= k < f.len() && f[k] == x;
                assert(g[k] == x);
            }
            assert(g[g.len() - 1] == s.last());
            if g.contains(x) {
                let k = choose|k: int| 0 <= k < g.len() && g[k] == x;
                if k < f.len() {
                    assert(f[k] == x);
                }
            }
        }
    }
}

proof fn lemma_unspent_holds<T: Coin>(unspent: Seq<T>, spent: Seq<T>, h: u32, y: T)
    ensures
        unspent_at(unspent, spent, h).contains(y) <==> (unspent.contains(y) && y.at(Order::Recv) <= h)
            || exists|x: T|
            #[trigger] spent.contains(x) && x.at(Order::Recv) <= h && x.at(Order::Spent) > h && y
                == x.unspent(),
{
    broadcast use vstd::seq_lib::group_to_multiset_ensures;

    let kept = unspent.filter(came_by(h));
    let back = spent.filter(back_at(h));
    let all = kept + all_unspent(back);
    sorting_sorts(all);
    assert(sorted_coins(all).contains(y) <==> sorted_coins(all).to_multiset().count(y) > 0);
    assert(all.contains(y) <==> all.to_multiset().count(y) > 0);
    lemma_filtered(unspent, came_by(h), y);
    if all.contains(y) {
        let k = choose|k: int| 0 <= k < all.len() && all[k] == y;
        if k < kept.len() {
            assert(kept[k] == y);
        } else {
            let x = back[k - kept.len()];
            assert(back.contains(x));
            lemma_filtered(spent, back_at(h), x);
            assert(spent.contains(x));
        }
    }
    if kept.contains(y) {
        let k = choose|k: int| 0 <= k < kept.len() && kept[k] == y;
        assert(all[k] == y);
    }
    if exists|x: T|
        #[trigger] spent.contains(x) && x.at(Order::Recv) <= h && x.at(Order::Spent) > h && y
            == x.unspent() {
        let x = choose|x: T|
            #[trigger] spent.contains(x) && x.at(Order::Recv) <= h && x.at(Order::Spent) > h && y
                == x.unspent();
        lemma_filtered(spent, back_at(h), x);
        let k = choose|k: int| 0 <= k < back.len() && back[k] == x;
        assert(all[kept.len() + k] == y);
    }
}

/// When an account is rolled back to a height, an output that had come by then stays received. It is
/// unspent if it was, or if it was spent later, and stays spent otherwise. What came later is gone.
pub proof fn a_later_spend_of_an_output_is_undone(a: AccountModel, h: BlockHeight, x: Txo)
    ensures
        ({
            let r = account_at(a, h);
            &&& r.recv_txos.contains(x) <==> a.recv_txos.contains(x) && x.recv_h.0 <= h.0
            &&& r.stxos.contains(x) <==> a.stxos.contains(x) && x.recv_h.0 <= h.0 && x.spent_h.0
                <= h.0
            &&& a.utxos.contains(x) && x.recv_h.0 <= h.0 ==> r.utxos.contains(x)
            &&& a.stxos.contains(x) && x.recv_h.0 <= h.0 && x.spent_h.0 > h.0 ==> r.utxos.contains(
                Txo { spent_h: BlockHeight(INVALID), ..x },
            )
            &&& r.utxos.contains(x) ==> x.recv_h.0 <= h.0 && (a.utxos.contains(x) || exists|y: Txo|
                #[trigger] a.stxos.contains(y) && y.spent_h.0 > h.0 && x == (Txo {
                    spent_h: BlockHeight(INVALID),
                    ..y
                }))
        }),
{
    let back = Txo { spent_h: BlockHeight(INVALID), ..x };
    lemma_filtered(a.recv_txos, came_by(h.0), x);
    lemma_filtered(a.stxos, gone_by(h.0), x);
    lemma_unspent_holds(a.utxos, a.stxos, h.0, x);
    lemma_unspent_holds(a.utxos, a.stxos, h.0, back);
    assert(x.unspent() == back);
}

/// When an account is rolled back to a height, a note that had come by then stays received. It is unspent
/// if it was, or if it was spent later, and stays spent otherwise. What came later is gone.
pub proof fn a_later_spend_of_a_note_is_undone(a: AccountModel, h: BlockHeight, x: OrchardNote)
    ensures
        ({
            let r = account_at(a, h);
            let (u, s) = (a.unspent_orchard_notes, a.spent_orchard_notes);
            &&& r.recv_orchard_notes.contains(x) <==> a.recv_orchard_notes.contains(x) && x.recv_h.0
                <= h.0
            &&& r.spent_orchard_notes.contains(x) <==> s.contains(x) && x.recv_h.0 <= h.0
                && x.spent_h.0 <= h.0
            &&& u.contains(x) && x.recv_h.0 <= h.0 ==> r.unspent_orchard_notes.contains(x)
            &&& s.contains(x) && x.recv_h.0 <= h.0 && x.spent_h.0 > h.0
                ==> r.unspent_orchard_notes.contains(
                OrchardNote { spent_h: BlockHeight(INVALID), ..x },
            )
            &&& r.unspent_orchard_notes.contains(x) ==> x.recv_h.0 <= h.0 && (u.contains(x)
                || exists|y: OrchardNote|
                #[trigger] s.contains(y) && y.spent_h.0 > h.0 && x == (OrchardNote {
                    spent_h: BlockHeight(INVALID),
                    ..y
                }))
        }),
{
    let back = OrchardNote { spent_h: BlockHeight(INVALID), ..x };
    lemma_filtered(a.recv_orchard_notes, came_by(h.0), x);
    lemma_filtered(a.spent_orchard_notes, gone_by(h.0), x);
    lemma_unspent_holds(a.unspent_orchard_notes, a.spent_orchard_notes, h.0, x);
    lemma_unspent_holds(a.unspent_orchard_notes, a.spent_orchard_notes, h.0, back);
    assert(x.unspent() == back);
}

/// When a wallet is rolled back to a height, its transactions of the blocks up to there stay as they are,
/// and so do those that are in no block. Those of later blocks are gone. The tip is the height, nothing
/// is known beyond it, and every transaction that stays is found at its height.
pub proof fn a_later_transaction_is_gone(w: WalletModel, h: BlockHeight, t: WalletTx, i: int)
    ensures
        ({
            let r = wallet_at(w, h);
            &&& r.txs.contains(t) <==> w.txs.contains(t) && (t.h.0 <= h.0 || t.h.0 >= MEMPOOL)
            &&& r.chain_tip_h == h
            &&& r.accounts.len() == w.accounts.len()
            &&& 0 <= i < w.accounts.len() ==> {
                let (a, b) = (w.accounts[i], r.accounts[i]);
                &&& b.ufvk == a.ufvk && b.birthday == a.birthday
                &&& b.balance_changes == a.balance_changes
                &&& b.fully_detected_h == if a.fully_detected_h.0 <= h.0 {
                    a.fully_detected_h
                } else {
                    h
                }
                &&& b.fully_decoded_h == if a.fully_decoded_h.0 <= h.0 {
                    a.fully_decoded_h
                } else {
                    h
                }
            }
            &&& r.name == w.name
            &&& r.strms == w.strms
            &&& r.seen_bond_values == w.seen_bond_values
            &&& r.care_about_bonds == w.care_about_bonds
        }),
{
    lemma_filtered(w.txs, listed_at(h.0), t);
}

/// A rolled back wallet knows the height of exactly the transactions that it lists.
pub proof fn a_rolled_back_wallet_knows_its_transactions(w: WalletModel, h: BlockHeight, i: int)
    requires
        forall|j: int, k: int|
            0 <= j < k < w.txs.len() ==> (#[trigger] w.txs[j]).txid != (#[trigger] w.txs[k]).txid,
    ensures
        ({
            let r = wallet_at(w, h);
            &&& 0 <= i < r.txs.len() ==> r.tx_h_map.contains_key(r.txs[i].txid)
                && r.tx_h_map[r.txs[i].txid] == r.txs[i].h
            &&& forall|id: TxId|
                #[trigger] r.tx_h_map.contains_key(id) ==> exists|k: int|
                    0 <= k < r.txs.len() && #[trigger] r.txs[k].txid == id
        }),
{
    lemma_filtered_differ(w.txs, listed_at(h.0));
    lemma_heights_of(w.txs.filter(listed_at(h.0)));
}

proof fn lemma_filtered_differ(s: Seq<WalletTx>, p: spec_fn(WalletTx) -> bool)
    requires
        forall|j: int, k: int|
            0 <= j < k < s.len() ==> (#[trigger] s[j]).txid != (#[trigger] s[k]).txid,
    ensures
        forall|j: int, k: int|
            0 <= j < k < s.filter(p).len() ==> (#[trigger] s.filter(p)[j]).txid != (
            #[trigger] s.filter(p)[k]).txid,
    decreases s.len(),
{
    reveal(Seq::filter);
    if s.len() > 0 {
        let t = s.drop_last();
        assert forall|j: int, k: int| 0 <= j < k < t.len() implies (#[trigger] t[j]).txid != (
        #[trigger] t[k]).txid by {
            assert(s[j].txid != s[k].txid);
        }
        lemma_filtered_differ(t, p);
        let f = t.filter(p);
        assert forall|j: int| 0 <= j < f.len() implies (#[trigger] f[j]).txid != s.last().txid by {
            assert(f.contains(f[j]));
            lemma_filtered(t, p, f[j]);
            let k = choose|k: int| 0 <= k < t.len() && t[k] == f[j];
            assert(s[k].txid != s[s.len() - 1].txid);
        }
        let g = s.filter(p);
        assert forall|j: int, k: int| 0 <= j < k < g.len() implies (#[trigger] g[j]).txid != (
        #[trigger] g[k]).txid by {
            assert(g[j] == f[j]);
            if k < f.len() {
                assert(g[k] == f[k]);
            }
        }
    }
}

pub(crate) proof fn lemma_heights_of(txs: Seq<WalletTx>)
    requires
        forall|j: int, k: int|
            0 <= j < k < txs.len() ==> (#[trigger] txs[j]).txid != (#[trigger] txs[k]).txid,
    ensures
        forall|i: int|
            0 <= i < txs.len() ==> heights_of(txs).contains_key((#[trigger] txs[i]).txid)
                && heights_of(txs)[txs[i].txid] == txs[i].h,
        forall|id: TxId|
            #[trigger] heights_of(txs).contains_key(id) ==> exists|k: int|
                0 <= k < txs.len() && #[trigger] txs[k].txid == id,
    decreases txs.len(),
{
    if txs.len() > 0 {
        let t = txs.drop_last();
        let last = txs.len() - 1;
        assert(txs[last] == txs.last());
        assert forall|j: int| 0 <= j < t.len() implies #[trigger] t[j] == txs[j] && t[j].txid
            != txs[last].txid by {
            assert(txs[j].txid != txs[last].txid);
        }
        assert forall|j: int, k: int| 0 <= j < k < t.len() implies (#[trigger] t[j]).txid != (
        #[trigger] t[k]).txid by {
            assert(txs[j].txid != txs[k].txid);
        }
        lemma_heights_of(t);
        assert forall|i: int| 0 <= i < txs.len() implies heights_of(txs).contains_key(
            (#[trigger] txs[i]).txid,
        ) && heights_of(txs)[txs[i].txid] == txs[i].h by {
            if i < last {
                assert(t[i] == txs[i]);
            }
        }
        assert forall|id: TxId| #[trigger] heights_of(txs).contains_key(id) implies exists|
            k: int,
        |
            0 <= k < txs.len() && #[trigger] txs[k].txid == id by {
            if id != txs[last].txid {
                assert(heights_of(t).contains_key(id));
                let k = choose|k: int| 0 <= k < t.len() && #[trigger] t[k].txid == id;
                assert(txs[k].txid == id);
            } else {
                assert(txs[last].txid == id);
            }
        }
    }
}

/// A stream that an anchor knows goes back to where it was then, and never beyond the cap. Its account
/// and its address stay, and so does a stream that the anchor does not know.
pub proof fn a_stream_goes_back(
    s: Seq<ManualStream>,
    heights: Seq<u32>,
    from: int,
    cap_h: u32,
    i: int,
)
    requires
        0 <= i < s.len(),
        0 <= from,
    ensures
        ({
            let r = streams_at(s, heights, from, cap_h);
            &&& r.len() == s.len()
            &&& r[i].account_id == s[i].account_id && r[i].t_addr == s[i].t_addr
            &&& from + i < heights.len() ==> r[i].sync_h.0 <= cap_h && (heights[from + i] <= cap_h
                ==> r[i].sync_h.0 == heights[from + i]) && (heights[from + i] > cap_h
                ==> r[i].sync_h.0 == cap_h)
            &&& from + i >= heights.len() ==> r[i] == s[i]
        }),
{
}

} // verus!
