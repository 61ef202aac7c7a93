//! Taking back what the blocks from a height on have told a wallet.
use crate::accounts::{
    account_models, AccountModel, ManualAccount, ManualStream, ManualWallet, WalletModel,
};
use crate::books::books_agree;
use crate::height::{BlockHeight, MEMPOOL};
use crate::listing::{
    in_order, insert_by_height, inserting_adds_one_item, inserting_keeps_the_order, lemma_place,
    place, with_item, Coin,
    Listed, Order,
};
use crate::notes::{OrchardNote, TxId, Txo};
use crate::rollback::at_most;
use crate::wallet_tx::{TxStatus, WalletTx};
use crate::zats::Zatoshis;
use vstd::prelude::*;

verus! {

/// How many items at the start of a list are below a height.
pub open spec fn below<T: Listed>(s: Seq<T>, o: Order, h: u32) -> nat
    decreases s.len(),
{
    if s.len() == 0 || s[0].at(o) >= h {
        0
    } else {
        1 + below(s.skip(1), o, h)
    }
}

/// What `below` counts.
pub proof fn lemma_below<T: Listed>(s: Seq<T>, o: Order, h: u32)
    ensures
        below(s, o, h) <= s.len(),
        forall|i: int| 0 <= i < below(s, o, h) ==> #[trigger] s[i].at(o) < h,
        below(s, o, h) < s.len() ==> s[below(s, o, h) as int].at(o) >= h,
    decreases s.len(),
{
    if s.len() > 0 && s[0].at(o) < h {
        let t = s.skip(1);
        lemma_below(t, o, h);
        assert forall|i: int| 0 <= i < below(s, o, h) implies #[trigger] s[i].at(o) < h by {
            if i > 0 {
                assert(t[i - 1] == s[i]);
            }
        }
        if below(s, o, h) < s.len() {
            assert(t[below(t, o, h) as int] == s[below(s, o, h) as int]);
        }
    }
}

proof fn lemma_below_is<T: Listed>(s: Seq<T>, o: Order, h: u32, n: nat)
    requires
        n <= s.len(),
        forall|i: int| 0 <= i < n ==> #[trigger] s[i].at(o) < h,
        n < s.len() ==> s[n as int].at(o) >= h,
    ensures
        below(s, o, h) == n,
{
    lemma_below(s, o, h);
    let m = below(s, o, h);
    if m < n {
        assert(s[m as int].at(o) < h);
    }
    if n < m {
        assert(s[n as int].at(o) < h);
    }
}

/// In an ordered list everything behind the items below a height is at or above it.
pub proof fn the_rest_is_not_below<T: Listed>(s: Seq<T>, o: Order, h: u32)
    requires
        in_order(s, o),
    ensures
        forall|i: int|
            0 <= i < s.len() ==> (#[trigger] s[i].at(o) < h <==> i < below(s, o, h)),
{
    lemma_below(s, o, h);
    let n = below(s, o, h);
    assert forall|i: int| n <= i < s.len() implies #[trigger] s[i].at(o) >= h by {
        assert(s[n as int].at(o) <= s[i].at(o));
    }
}

fn count_below<T: Listed>(v: &Vec<T>, o: Order, h: u32) -> (r: usize)
    ensures
        r == below(v@, o, h),
        r <= v@.len(),
{
    let mut i: usize = 0;
    while i < v.len() && v[i].height_in(o) < h
        invariant
            i <= v@.len(),
            forall|k: int| 0 <= k < i ==> #[trigger] v@[k].at(o) < h,
        decreases v.len() - i,
    {
        i += 1;
    }
    proof {
        lemma_below_is(v@, o, h, i as nat);
    }
    i
}

/// What can be spent, and have its spend taken back.
pub trait Spendable: Coin {
    /// The coin as it is when its spend is taken back.
    spec fn reopened(&self) -> Self;

    proof fn lemma_reopened(&self)
        ensures
            self.reopened().at(Order::Recv) == self.at(Order::Recv),
            self.reopened().id() == self.id(),
            self.reopened().at(Order::Spent) == 0,
    ;

    fn reopen(&self) -> (r: Self)
        ensures
            r == self.reopened(),
    ;
}

impl Spendable for OrchardNote {
    open spec fn reopened(&self) -> OrchardNote {
        OrchardNote { spent_h: BlockHeight(0), ..*self }
    }

    proof fn lemma_reopened(&self) {
    }

    fn reopen(&self) -> (r: OrchardNote) {
        OrchardNote { spent_h: BlockHeight(0), ..*self }
    }
}

impl Spendable for Txo {
    open spec fn reopened(&self) -> Txo {
        Txo { spent_h: BlockHeight(0), ..*self }
    }

    proof fn lemma_reopened(&self) {
    }

    fn reopen(&self) -> (r: Txo) {
        Txo { spent_h: BlockHeight(0), ..*self }
    }
}

/// Unspent coins with those of some spent ones that were received below a height, one after the
/// other.
pub open spec fn with_reopened<T: Spendable>(unspent: Seq<T>, spent: Seq<T>, h: u32) -> Seq<T>
    decreases spent.len(),
{
    if spent.len() == 0 {
        unspent
    } else {
        let u = with_reopened(unspent, spent.drop_last(), h);
        let x = spent.last();
        if x.at(Order::Recv) < h {
            with_item(u, Order::Recv, x.reopened())
        } else {
            u
        }
    }
}

/// The unspent coins when the blocks from a height on are taken back: those that were received
/// below, and those whose spend is taken back.
pub open spec fn unspent_before<T: Spendable>(unspent: Seq<T>, spent: Seq<T>, h: u32) -> Seq<T> {
    with_reopened(
        unspent.take(below(unspent, Order::Recv, h) as int),
        spent.skip(below(spent, Order::Spent, h) as int),
        h,
    )
}

fn take_back<T: Spendable>(unspent: &mut Vec<T>, spent: &mut Vec<T>, h: u32)
    ensures
        final(unspent)@ == unspent_before(old(unspent)@, old(spent)@, h),
        final(spent)@ == old(spent)@.take(below(old(spent)@, Order::Spent, h) as int),
{
    let n: usize = count_below(unspent, Order::Recv, h);
    unspent.truncate(n);
    let k: usize = count_below(spent, Order::Spent, h);
    let ghost kept = unspent@;
    let ghost gone = spent@.skip(k as int);
    let mut i: usize = k;
    assert(gone.take(0) =~= seq![]);
    while i < spent.len()
        invariant
            k <= i <= spent@.len(),
            *spent == *old(spent),
            gone == spent@.skip(k as int),
            unspent@ == with_reopened(kept, gone.take(i - k), h),
        decreases spent.len() - i,
    {
        let x = spent[i];
        proof {
            assert(gone.take(i - k + 1).drop_last() =~= gone.take(i - k));
            assert(gone.take(i - k + 1).last() == x);
        }
        if x.height_in(Order::Recv) < h {
            insert_by_height(unspent, Order::Recv, x.reopen());
        }
        i += 1;
    }
    assert(gone.take(i - k) =~= gone);
    spent.truncate(k);
}

/// How many entries at the start of a history of balances are below a height.
pub open spec fn balances_below(s: Seq<(BlockHeight, Zatoshis)>, h: u32) -> nat
    decreases s.len(),
{
    if s.len() == 0 || s[0].0.0 >= h {
        0
    } else {
        1 + balances_below(s.skip(1), h)
    }
}

fn count_balances_below(v: &Vec<(BlockHeight, Zatoshis)>, h: u32) -> (r: usize)
    ensures
        r == balances_below(v@, h),
        r <= v@.len(),
{
    let mut i: usize = 0;
    assert(v@.skip(0) =~= v@);
    while i < v.len() && v[i].0.0 < h
        invariant
            i <= v@.len(),
            balances_below(v@, h) == i + balances_below(v@.skip(i as int), h),
        decreases v.len() - i,
    {
        assert(v@.skip(i as int).skip(1) =~= v@.skip(i + 1));
        i += 1;
    }
    i
}

/// An account when the blocks from a height on are taken back.
pub open spec fn account_before(a: AccountModel, h: BlockHeight) -> AccountModel {
    let last = h.minus(1);
    AccountModel {
        fully_detected_h: at_most(a.fully_detected_h, last),
        fully_decoded_h: at_most(a.fully_decoded_h, last),
        balance_changes: a.balance_changes.take(balances_below(a.balance_changes, h.0) as int),
        utxos: unspent_before(a.utxos, a.stxos, h.0),
        recv_txos: a.recv_txos.take(below(a.recv_txos, Order::Recv, h.0) as int),
        stxos: a.stxos.take(below(a.stxos, Order::Spent, h.0) as int),
        unspent_orchard_notes: unspent_before(a.unspent_orchard_notes, a.spent_orchard_notes, h.0),
        recv_orchard_notes: a.recv_orchard_notes.take(
            below(a.recv_orchard_notes, Order::Recv, h.0) as int,
        ),
        spent_orchard_notes: a.spent_orchard_notes.take(
            below(a.spent_orchard_notes, Order::Spent, h.0) as int,
        ),
        ..a
    }
}

fn take_back_account(a: &mut ManualAccount, h: BlockHeight)
    ensures
        final(a)@ == account_before(old(a)@, h),
{
    let last = h.sat_sub(1);
    if a.fully_detected_h.0 > last.0 {
        a.fully_detected_h = last;
    }
    if a.fully_decoded_h.0 > last.0 {
        a.fully_decoded_h = last;
    }
    let n: usize = count_balances_below(&a.balance_changes, h.0);
    a.balance_changes.truncate(n);
    let n: usize = count_below(&a.recv_txos, Order::Recv, h.0);
    a.recv_txos.truncate(n);
    let n: usize = count_below(&a.recv_orchard_notes, Order::Recv, h.0);
    a.recv_orchard_notes.truncate(n);
    take_back(&mut a.utxos, &mut a.stxos, h.0);
    take_back(&mut a.unspent_orchard_notes, &mut a.spent_orchard_notes, h.0);
}

/// Whether a transaction at a place is invalidated: it is not below the height, and neither it nor
/// one before it is still on its way to the network.
pub open spec fn is_invalidated(txs: Seq<WalletTx>, h: u32, i: int) -> bool {
    below(txs, Order::Recv, h) <= i && forall|k: int|
        below(txs, Order::Recv, h) <= k <= i ==> (#[trigger] txs[k]).h.0 <= MEMPOOL
}

/// A transaction that is invalidated: it failed for now at the height it had, and stands at the tip.
pub open spec fn invalidated(t: WalletTx, tip: BlockHeight) -> WalletTx {
    WalletTx { status: TxStatus::SoftFail(t.h), h: tip, ..t }
}

/// The transactions of a wallet when the blocks from a height on are taken back.
pub open spec fn txs_before(txs: Seq<WalletTx>, h: u32, tip: BlockHeight) -> Seq<WalletTx> {
    Seq::new(
        txs.len(),
        |i: int|
            if is_invalidated(txs, h, i) {
                invalidated(txs[i], tip)
            } else {
                txs[i]
            },
    )
}

/// The heights of transactions after the first `n` were looked at.
pub open spec fn heights_before(
    m: Map<TxId, BlockHeight>,
    txs: Seq<WalletTx>,
    h: u32,
    tip: BlockHeight,
    n: int,
) -> Map<TxId, BlockHeight>
    decreases n,
{
    if n <= 0 {
        m
    } else {
        let before = heights_before(m, txs, h, tip, n - 1);
        if is_invalidated(txs, h, n - 1) {
            before.insert(txs[n - 1].txid, tip)
        } else {
            before
        }
    }
}

/// The streams of a wallet when the blocks from a height on are taken back.
pub open spec fn streams_before(s: Seq<ManualStream>, h: BlockHeight) -> Seq<ManualStream> {
    Seq::new(
        s.len(),
        |i: int| ManualStream { sync_h: at_most(s[i].sync_h, h.minus(1)), ..s[i] },
    )
}

/// A wallet when the blocks from a height on are taken back.
pub open spec fn wallet_before(w: WalletModel, h: BlockHeight) -> WalletModel {
    WalletModel {
        strms: streams_before(w.strms, h),
        accounts: Seq::new(w.accounts.len(), |i: int| account_before(w.accounts[i], h)),
        txs: txs_before(w.txs, h.0, w.chain_tip_h),
        tx_h_map: heights_before(w.tx_h_map, w.txs, h.0, w.chain_tip_h, w.txs.len() as int),
        ..w
    }
}

fn invalidate_txs(wallet: &mut ManualWallet, h: u32)
    requires
        old(wallet).tx_h_map.wf(),
    ensures
        final(wallet)@ == (WalletModel {
            txs: txs_before(old(wallet)@.txs, h, old(wallet)@.chain_tip_h),
            tx_h_map: heights_before(
                old(wallet)@.tx_h_map,
                old(wallet)@.txs,
                h,
                old(wallet)@.chain_tip_h,
                old(wallet)@.txs.len() as int,
            ),
            ..old(wallet)@
        }),
        final(wallet).tx_h_map.wf(),
        final(wallet).seen_bond_values == old(wallet).seen_bond_values,
{
    let ghost txs = wallet.txs@;
    let ghost m = wallet.tx_h_map@;
    let tip = wallet.chain_tip_h;
    let from: usize = count_below(&wallet.txs, Order::Recv, h);
    let mut i: usize = from;
    proof {
        lemma_below(txs, Order::Recv, h);
        lemma_heights_start(m, txs, h, tip, from as int);
    }
    while i < wallet.txs.len() && wallet.txs[i].h.0 <= MEMPOOL
        invariant
            from <= i <= wallet.txs@.len() == txs.len(),
            from == below(txs, Order::Recv, h),
            txs == old(wallet).txs@,
            m == old(wallet).tx_h_map@,
            tip == old(wallet).chain_tip_h,
            wallet.tx_h_map.wf(),
            wallet.seen_bond_values == old(wallet).seen_bond_values,
            wallet@ == (WalletModel {
                txs: wallet.txs@,
                tx_h_map: wallet.tx_h_map@,
                ..old(wallet)@
            }),
            forall|k: int| from <= k < i ==> (#[trigger] txs[k]).h.0 <= MEMPOOL,
            forall|k: int| from <= k < i ==> #[trigger] wallet.txs@[k] == invalidated(txs[k], tip),
            forall|k: int| 0 <= k < from ==> #[trigger] wallet.txs@[k] == txs[k],
            forall|k: int| i <= k < txs.len() ==> #[trigger] wallet.txs@[k] == txs[k],
            wallet.tx_h_map@ == heights_before(m, txs, h, tip, i as int),
        decreases wallet.txs.len() - i,
    {
        let mut t = wallet.txs[i];
        assert(is_invalidated(txs, h, i as int)) by {
            assert(wallet.txs@[i as int] == txs[i as int]);
        }
        t.status = TxStatus::SoftFail(t.h);
        t.h = tip;
        wallet.txs.set(i, t);
        wallet.tx_h_map.insert(t.txid, tip);
        i += 1;
    }
    proof {
        if i < txs.len() {
            assert(wallet.txs@[i as int] == txs[i as int]);
            lemma_heights_end(m, txs, h, tip, i as int, txs.len() as int);
        }
        assert forall|k: int| i <= k < txs.len() implies !is_invalidated(txs, h, k) by {
            assert(txs[i as int].h.0 > MEMPOOL);
        }
        assert forall|k: int| from <= k < i implies is_invalidated(txs, h, k) by {
        }
        assert(wallet.txs@ =~= txs_before(txs, h, tip));
    }
}

proof fn lemma_heights_start(
    m: Map<TxId, BlockHeight>,
    txs: Seq<WalletTx>,
    h: u32,
    tip: BlockHeight,
    n: int,
)
    requires
        0 <= n <= below(txs, Order::Recv, h),
    ensures
        heights_before(m, txs, h, tip, n) == m,
    decreases n,
{
    if n > 0 {
        lemma_heights_start(m, txs, h, tip, n - 1);
    }
}

proof fn lemma_heights_end(
    m: Map<TxId, BlockHeight>,
    txs: Seq<WalletTx>,
    h: u32,
    tip: BlockHeight,
    i: int,
    n: int,
)
    requires
        below(txs, Order::Recv, h) <= i < txs.len(),
        i <= n <= txs.len(),
        txs[i].h.0 > MEMPOOL,
    ensures
        heights_before(m, txs, h, tip, n) == heights_before(m, txs, h, tip, i),
    decreases n,
{
    if n > i {
        lemma_heights_end(m, txs, h, tip, i, n - 1);
        assert(!is_invalidated(txs, h, n - 1)) by {
            assert(txs[i].h.0 > MEMPOOL);
        }
    }
}

/// Takes back what the blocks from a height on have told a wallet: what they brought is dropped, what
/// they spent is not spent, and their transactions have failed for now. Transactions that are on
/// their way to the network stay.
pub fn take_back_wallet(wallet: &mut ManualWallet, block_h: BlockHeight)
    requires
        old(wallet).tx_h_map.wf(),
    ensures
        final(wallet)@ == wallet_before(old(wallet)@, block_h),
        final(wallet).tx_h_map.wf(),
        final(wallet).seen_bond_values == old(wallet).seen_bond_values,
{
    let last = block_h.sat_sub(1);
    let ghost w0 = wallet@;
    let mut i: usize = 0;
    while i < wallet.strms.len()
        invariant
            i <= wallet.strms@.len() == w0.strms.len(),
            w0 == old(wallet)@,
            last == block_h.minus(1),
            wallet@ == (WalletModel { strms: wallet.strms@, ..w0 }),
            wallet.tx_h_map == old(wallet).tx_h_map,
            wallet.seen_bond_values == old(wallet).seen_bond_values,
            forall|k: int|
                0 <= k < i ==> #[trigger] wallet.strms@[k] == streams_before(w0.strms, block_h)[k],
            forall|k: int| i <= k < w0.strms.len() ==> #[trigger] wallet.strms@[k] == w0.strms[k],
        decreases wallet.strms.len() - i,
    {
        let s = wallet.strms[i];
        if s.sync_h.0 > last.0 {
            wallet.strms.set(i, ManualStream { sync_h: last, ..s });
        }
        i += 1;
    }
    assert(wallet.strms@ =~= streams_before(w0.strms, block_h));
    let mut i: usize = 0;
    while i < wallet.accounts.len()
        invariant
            i <= wallet.accounts@.len() == w0.accounts.len(),
            w0 == old(wallet)@,
            wallet@ == (WalletModel {
                strms: streams_before(w0.strms, block_h),
                accounts: account_models(wallet.accounts@),
                ..w0
            }),
            wallet.tx_h_map == old(wallet).tx_h_map,
            wallet.seen_bond_values == old(wallet).seen_bond_values,
            forall|k: int|
                0 <= k < i ==> (#[trigger] wallet.accounts@[k])@ == account_before(
                    w0.accounts[k],
                    block_h,
                ),
            forall|k: int|
                i <= k < w0.accounts.len() ==> (#[trigger] wallet.accounts@[k])@ == w0.accounts[k],
        decreases wallet.accounts.len() - i,
    {
        assert(wallet.accounts@[i as int]@ == w0.accounts[i as int]);
        take_back_account(&mut wallet.accounts[i], block_h);
        i += 1;
    }
    assert(wallet@.accounts =~= wallet_before(w0, block_h).accounts);
    invalidate_txs(wallet, block_h.0);
}

proof fn lemma_with_reopened<T: Spendable>(unspent: Seq<T>, spent: Seq<T>, h: u32)
    requires
        in_order(unspent, Order::Recv),
        forall|i: int| 0 <= i < unspent.len() ==> (#[trigger] unspent[i]).at(Order::Recv) < h,
    ensures
        in_order(with_reopened(unspent, spent, h), Order::Recv),
        forall|i: int|
            0 <= i < with_reopened(unspent, spent, h).len() ==> (#[trigger] with_reopened(
                unspent,
                spent,
                h,
            )[i]).at(Order::Recv) < h,
        with_reopened(unspent, spent, h).len() >= unspent.len(),
    decreases spent.len(),
{
    if spent.len() > 0 {
        lemma_with_reopened(unspent, spent.drop_last(), h);
        let u = with_reopened(unspent, spent.drop_last(), h);
        let x = spent.last();
        x.lemma_reopened();
        if x.at(Order::Recv) < h {
            inserting_keeps_the_order(u, Order::Recv, x.reopened());
            lemma_place(u, Order::Recv, x.at(Order::Recv));
            let p = place(u, Order::Recv, x.at(Order::Recv));
            let t = with_item(u, Order::Recv, x.reopened());
            assert forall|i: int| 0 <= i < t.len() implies (#[trigger] t[i]).at(Order::Recv) < h by {
                if i != p {
                    let k = if i < p { i } else { i - 1 };
                    assert(t[i] == u[k]);
                }
            }
        }
    }
}

proof fn lemma_take_order<T: Listed>(s: Seq<T>, o: Order, n: int)
    requires
        in_order(s, o),
        0 <= n <= s.len(),
    ensures
        in_order(s.take(n), o),
{
    let t = s.take(n);
    assert forall|i: int, j: int| 0 <= i <= j < t.len() implies #[trigger] t[i].at(o)
        <= #[trigger] t[j].at(o) by {
        assert(s[i].at(o) <= s[j].at(o));
    }
}

proof fn lemma_unspent_before<T: Spendable>(unspent: Seq<T>, spent: Seq<T>, h: u32)
    requires
        in_order(unspent, Order::Recv),
        in_order(spent, Order::Spent),
    ensures
        in_order(unspent_before(unspent, spent, h), Order::Recv),
        forall|i: int|
            0 <= i < unspent_before(unspent, spent, h).len() ==> (#[trigger] unspent_before(
                unspent,
                spent,
                h,
            )[i]).at(Order::Recv) < h,
        in_order(spent.take(below(spent, Order::Spent, h) as int), Order::Spent),
        forall|i: int|
            0 <= i < below(spent, Order::Spent, h) ==> (#[trigger] spent[i]).at(Order::Spent) < h,
{
    lemma_below(unspent, Order::Recv, h);
    lemma_below(spent, Order::Spent, h);
    let n = below(unspent, Order::Recv, h) as int;
    lemma_take_order(unspent, Order::Recv, n);
    lemma_take_order(spent, Order::Spent, below(spent, Order::Spent, h) as int);
    let kept = unspent.take(n);
    assert forall|i: int| 0 <= i < kept.len() implies (#[trigger] kept[i]).at(Order::Recv) < h by {
        assert(unspent[i].at(Order::Recv) < h);
    }
    lemma_with_reopened(kept, spent.skip(below(spent, Order::Spent, h) as int), h);
}

/// When the blocks from a height on are taken back, an account whose lists were in their order has
/// nothing left that was received or spent at that height or above, and its lists are in their order.
pub proof fn nothing_is_left_from_the_height_on(a: AccountModel, h: BlockHeight)
    requires
        a.ordered(),
    ensures
        account_before(a, h).ordered(),
        ({
            let r = account_before(a, h);
            &&& forall|i: int|
                0 <= i < r.recv_txos.len() ==> (#[trigger] r.recv_txos[i]).recv_h.0 < h.0
            &&& forall|i: int| 0 <= i < r.utxos.len() ==> (#[trigger] r.utxos[i]).recv_h.0 < h.0
            &&& forall|i: int| 0 <= i < r.stxos.len() ==> (#[trigger] r.stxos[i]).spent_h.0 < h.0
            &&& forall|i: int|
                0 <= i < r.recv_orchard_notes.len() ==> (#[trigger] r.recv_orchard_notes[i]).recv_h.0
                    < h.0
            &&& forall|i: int|
                0 <= i < r.unspent_orchard_notes.len() ==> (
                #[trigger] r.unspent_orchard_notes[i]).recv_h.0 < h.0
            &&& forall|i: int|
                0 <= i < r.spent_orchard_notes.len() ==> (
                #[trigger] r.spent_orchard_notes[i]).spent_h.0 < h.0
        }),
{
    let r = account_before(a, h);
    lemma_below(a.recv_txos, Order::Recv, h.0);
    lemma_below(a.recv_orchard_notes, Order::Recv, h.0);
    lemma_below(a.stxos, Order::Spent, h.0);
    lemma_below(a.spent_orchard_notes, Order::Spent, h.0);
    lemma_take_order(
        a.recv_txos,
        Order::Recv,
        below(a.recv_txos, Order::Recv, h.0) as int,
    );
    lemma_take_order(
        a.recv_orchard_notes,
        Order::Recv,
        below(a.recv_orchard_notes, Order::Recv, h.0) as int,
    );
    lemma_unspent_before(a.utxos, a.stxos, h.0);
    lemma_unspent_before(a.unspent_orchard_notes, a.spent_orchard_notes, h.0);
    assert forall|i: int| 0 <= i < r.recv_txos.len() implies (#[trigger] r.recv_txos[i]).recv_h.0
        < h.0 by {
        assert(a.recv_txos[i].at(Order::Recv) < h.0);
    }
    assert forall|i: int| 0 <= i < r.utxos.len() implies (#[trigger] r.utxos[i]).recv_h.0 < h.0 by {
        assert(r.utxos[i].at(Order::Recv) < h.0);
    }
    assert forall|i: int| 0 <= i < r.stxos.len() implies (#[trigger] r.stxos[i]).spent_h.0 < h.0 by {
        assert(a.stxos[i].at(Order::Spent) < h.0);
    }
    assert forall|i: int| 0 <= i < r.recv_orchard_notes.len() implies (
    #[trigger] r.recv_orchard_notes[i]).recv_h.0 < h.0 by {
        assert(a.recv_orchard_notes[i].at(Order::Recv) < h.0);
    }
    assert forall|i: int| 0 <= i < r.unspent_orchard_notes.len() implies (
    #[trigger] r.unspent_orchard_notes[i]).recv_h.0 < h.0 by {
        assert(r.unspent_orchard_notes[i].at(Order::Recv) < h.0);
    }
    assert forall|i: int| 0 <= i < r.spent_orchard_notes.len() implies (
    #[trigger] r.spent_orchard_notes[i]).spent_h.0 < h.0 by {
        assert(a.spent_orchard_notes[i].at(Order::Spent) < h.0);
    }
}

/// Taking back blocks that have told an account nothing changes none of its coins: they stay as they
/// are if nothing was received or spent from the height on.
pub proof fn taking_back_nothing_changes_no_coin(a: AccountModel, h: BlockHeight)
    requires
        forall|i: int| 0 <= i < a.utxos.len() ==> (#[trigger] a.utxos[i]).recv_h.0 < h.0,
        forall|i: int| 0 <= i < a.stxos.len() ==> (#[trigger] a.stxos[i]).spent_h.0 < h.0,
        forall|i: int|
            0 <= i < a.unspent_orchard_notes.len() ==> (
            #[trigger] a.unspent_orchard_notes[i]).recv_h.0 < h.0,
        forall|i: int|
            0 <= i < a.spent_orchard_notes.len() ==> (#[trigger] a.spent_orchard_notes[i]).spent_h.0
                < h.0,
    ensures
        account_before(a, h).utxos == a.utxos,
        account_before(a, h).stxos == a.stxos,
        account_before(a, h).unspent_orchard_notes == a.unspent_orchard_notes,
        account_before(a, h).spent_orchard_notes == a.spent_orchard_notes,
{
    lemma_all_below(a.utxos, Order::Recv, h.0);
    lemma_all_below(a.stxos, Order::Spent, h.0);
    lemma_all_below(a.unspent_orchard_notes, Order::Recv, h.0);
    lemma_all_below(a.spent_orchard_notes, Order::Spent, h.0);
}

proof fn lemma_all_below<T: Listed>(s: Seq<T>, o: Order, h: u32)
    requires
        forall|i: int| 0 <= i < s.len() ==> #[trigger] s[i].at(o) < h,
    ensures
        below(s, o, h) == s.len(),
        s.take(s.len() as int) == s,
        s.skip(s.len() as int).len() == 0,
{
    lemma_below_is(s, o, h, s.len());
    assert(s.take(s.len() as int) =~= s);
}

proof fn lemma_heights(
    m: Map<TxId, BlockHeight>,
    txs: Seq<WalletTx>,
    h: u32,
    tip: BlockHeight,
    n: int,
)
    requires
        0 <= n <= txs.len(),
        forall|i: int, j: int|
            0 <= i < j < txs.len() ==> (#[trigger] txs[i]).txid != (#[trigger] txs[j]).txid,
        forall|i: int| 0 <= i < txs.len() ==> m.contains_key((#[trigger] txs[i]).txid),
    ensures
        heights_before(m, txs, h, tip, n).dom() == m.dom(),
        forall|i: int|
            0 <= i < txs.len() ==> heights_before(m, txs, h, tip, n)[(#[trigger] txs[i]).txid] == if i
                < n && is_invalidated(txs, h, i) {
                tip
            } else {
                m[txs[i].txid]
            },
    decreases n,
{
    if n > 0 {
        lemma_heights(m, txs, h, tip, n - 1);
        let before = heights_before(m, txs, h, tip, n - 1);
        let after = heights_before(m, txs, h, tip, n);
        assert(after.dom() =~= m.dom());
        assert forall|i: int| 0 <= i < txs.len() implies after[(#[trigger] txs[i]).txid] == if i < n
            && is_invalidated(txs, h, i) {
            tip
        } else {
            m[txs[i].txid]
        } by {
            if i < n - 1 {
                assert(txs[i].txid != txs[n - 1].txid);
            } else if i > n - 1 {
                assert(txs[n - 1].txid != txs[i].txid);
            }
        }
    }
}

/// Taking back blocks keeps the list of transactions and the map of their heights in agreement.
pub proof fn taking_back_keeps_the_books(w: WalletModel, h: BlockHeight)
    requires
        books_agree(w),
    ensures
        books_agree(wallet_before(w, h)),
{
    let r = wallet_before(w, h);
    lemma_heights(w.tx_h_map, w.txs, h.0, w.chain_tip_h, w.txs.len() as int);
    assert forall|i: int| 0 <= i < r.txs.len() implies r.tx_h_map.contains_key(
        (#[trigger] r.txs[i]).txid,
    ) && r.tx_h_map[r.txs[i].txid] == r.txs[i].h by {
        assert(r.txs[i].txid == w.txs[i].txid);
        assert(r.tx_h_map.dom().contains(w.txs[i].txid));
    }
    assert forall|i: int, j: int| 0 <= i < j < r.txs.len() implies (#[trigger] r.txs[i]).txid != (
    #[trigger] r.txs[j]).txid by {
        assert(w.txs[i].txid != w.txs[j].txid);
    }
    assert forall|id: TxId| r.tx_h_map.contains_key(id) implies exists|i: int|
        0 <= i < r.txs.len() && #[trigger] r.txs[i].txid == id by {
        assert(w.tx_h_map.dom().contains(id));
        let i = choose|i: int| 0 <= i < w.txs.len() && #[trigger] w.txs[i].txid == id;
        assert(r.txs[i].txid == id);
    }
}

/// Taking back blocks keeps the transactions in the order of their heights, as long as the tip is not
/// below the last block that stays.
pub proof fn taking_back_keeps_the_order(w: WalletModel, h: BlockHeight)
    requires
        in_order(w.txs, Order::Recv),
        w.chain_tip_h.0 + 1 >= h.0,
        w.chain_tip_h.0 <= MEMPOOL,
    ensures
        in_order(wallet_before(w, h).txs, Order::Recv),
{
    let r = wallet_before(w, h).txs;
    the_rest_is_not_below(w.txs, Order::Recv, h.0);
    assert forall|i: int, j: int| 0 <= i <= j < r.len() implies #[trigger] r[i].at(Order::Recv)
        <= #[trigger] r[j].at(Order::Recv) by {
        assert(w.txs[i].at(Order::Recv) <= w.txs[j].at(Order::Recv));
        let b = below(w.txs, Order::Recv, h.0);
        if is_invalidated(w.txs, h.0, i) && !is_invalidated(w.txs, h.0, j) {
            let k = choose|k: int| b <= k <= j && (#[trigger] w.txs[k]).h.0 > MEMPOOL;
            assert(w.txs[k].at(Order::Recv) <= w.txs[j].at(Order::Recv));
        }
        if !is_invalidated(w.txs, h.0, i) && is_invalidated(w.txs, h.0, j) {
            if b <= i {
                let k = choose|k: int| b <= k <= i && (#[trigger] w.txs[k]).h.0 > MEMPOOL;
                assert(w.txs[k].h.0 <= MEMPOOL);
            }
        }
    }
}

proof fn lemma_reopened_holds<T: Spendable>(unspent: Seq<T>, spent: Seq<T>, h: u32, y: T)
    ensures
        with_reopened(unspent, spent, h).contains(y) <==> unspent.contains(y) || exists|x: T|
            #[trigger] spent.contains(x) && x.at(Order::Recv) < h && y == x.reopened(),
    decreases spent.len(),
{
    if spent.len() > 0 {
        let rest = spent.drop_last();
        let u = with_reopened(unspent, rest, h);
        lemma_reopened_holds(unspent, rest, h, y);
        let last = spent.last();
        assert(spent[spent.len() - 1] == last);
        assert(spent.contains(last));
        inserting_adds_one_item(u, Order::Recv, last.reopened());
        assert forall|x: T| #[trigger] spent.contains(x) <==> x == last || rest.contains(x) by {
            if spent.contains(x) {
                let k = choose|k: int| 0 <= k < spent.len() && spent[k] == x;
                if k < rest.len() {
                    assert(rest[k] == x);
                }
            }
            if rest.contains(x) {
                let k = choose|k: int| 0 <= k < rest.len() && rest[k] == x;
                assert(spent[k] == x);
            }
        }
        if exists|x: T| #[trigger] spent.contains(x) && x.at(Order::Recv) < h && y == x.reopened() {
            let x = choose|x: T|
                #[trigger] spent.contains(x) && x.at(Order::Recv) < h && y == x.reopened();
            if x != last {
                assert(rest.contains(x));
            }
        }
        if exists|x: T| #[trigger] rest.contains(x) && x.at(Order::Recv) < h && y == x.reopened() {
            let x = choose|x: T|
                #[trigger] rest.contains(x) && x.at(Order::Recv) < h && y == x.reopened();
            assert(spent.contains(x));
        }
    }
}

proof fn lemma_split<T: Listed>(s: Seq<T>, o: Order, h: u32, x: T)
    requires
        in_order(s, o),
    ensures
        s.take(below(s, o, h) as int).contains(x) <==> s.contains(x) && x.at(o) < h,
        s.skip(below(s, o, h) as int).contains(x) <==> s.contains(x) && x.at(o) >= h,
{
    the_rest_is_not_below(s, o, h);
    lemma_below(s, o, h);
    let n = below(s, o, h) as int;
    if s.take(n).contains(x) {
        let k = choose|k: int| 0 <= k < n && s.take(n)[k] == x;
        assert(s[k].at(o) < h && s[k] == x);
    }
    if s.skip(n).contains(x) {
        let k = choose|k: int| 0 <= k < s.len() - n && s.skip(n)[k] == x;
        assert(s[n + k].at(o) >= h && s[n + k] == x);
    }
    if s.contains(x) {
        let k = choose|k: int| 0 <= k < s.len() && s[k] == x;
        assert(s[k].at(o) < h <==> k < n);
        if k < n {
            assert(s.take(n)[k] == x);
        } else {
            assert(s.skip(n)[k - n] == x);
        }
    }
}

proof fn lemma_unspent_holds<T: Spendable>(unspent: Seq<T>, spent: Seq<T>, h: u32, y: T)
    requires
        in_order(unspent, Order::Recv),
        in_order(spent, Order::Spent),
    ensures
        unspent_before(unspent, spent, h).contains(y) <==> (unspent.contains(y) && y.at(Order::Recv)
            < h) || exists|x: T|
            #[trigger] spent.contains(x) && x.at(Order::Recv) < h && x.at(Order::Spent) >= h && y
                == x.reopened(),
{
    let kept = unspent.take(below(unspent, Order::Recv, h) as int);
    let gone = spent.skip(below(spent, Order::Spent, h) as int);
    lemma_reopened_holds(kept, gone, h, y);
    lemma_split(unspent, Order::Recv, h, y);
    if exists|x: T| #[trigger] gone.contains(x) && x.at(Order::Recv) < h && y == x.reopened() {
        let x = choose|x: T| #[trigger] gone.contains(x) && x.at(Order::Recv) < h && y == x.reopened();
        lemma_split(spent, Order::Spent, h, x);
        assert(spent.contains(x));
    }
    if exists|x: T|
        #[trigger] spent.contains(x) && x.at(Order::Recv) < h && x.at(Order::Spent) >= h && y
            == x.reopened() {
        let x = choose|x: T|
            #[trigger] spent.contains(x) && x.at(Order::Recv) < h && x.at(Order::Spent) >= h && y
                == x.reopened();
        lemma_split(spent, Order::Spent, h, x);
        assert(gone.contains(x));
    }
}

/// When the blocks from a height on are taken back, an output that was received below stays received. It
/// is unspent if it was, or if it was spent at that height or above, and stays spent otherwise. What was
/// received at that height or above is gone.
pub proof fn a_later_spend_of_an_output_is_taken_back(a: AccountModel, h: BlockHeight, x: Txo)
    requires
        a.ordered(),
    ensures
        ({
            let r = account_before(a, h);
            &&& r.recv_txos.contains(x) <==> a.recv_txos.contains(x) && x.recv_h.0 < h.0
            &&& a.utxos.contains(x) && x.recv_h.0 < h.0 ==> r.utxos.contains(x)
            &&& a.stxos.contains(x) && x.recv_h.0 < h.0 && x.spent_h.0 >= h.0 ==> r.utxos.contains(
                Txo { spent_h: BlockHeight(0), ..x },
            )
            &&& r.stxos.contains(x) <==> a.stxos.contains(x) && x.spent_h.0 < h.0
            &&& r.utxos.contains(x) ==> x.recv_h.0 < h.0 && (a.utxos.contains(x) || exists|y: Txo|
                #[trigger] a.stxos.contains(y) && y.spent_h.0 >= h.0 && x == (Txo {
                    spent_h: BlockHeight(0),
                    ..y
                }))
        }),
{
    let back = Txo { spent_h: BlockHeight(0), ..x };
    lemma_split(a.recv_txos, Order::Recv, h.0, x);
    lemma_split(a.stxos, Order::Spent, h.0, x);
    lemma_unspent_holds(a.utxos, a.stxos, h.0, x);
    lemma_unspent_holds(a.utxos, a.stxos, h.0, back);
    if a.stxos.contains(x) && x.recv_h.0 < h.0 && x.spent_h.0 >= h.0 {
        assert(x.reopened() == back);
    }
}

/// When the blocks from a height on are taken back, a note that was received below stays received. It is
/// unspent if it was, or if it was spent at that height or above, and stays spent otherwise. What was
/// received at that height or above is gone.
pub proof fn a_later_spend_of_a_note_is_taken_back(a: AccountModel, h: BlockHeight, x: OrchardNote)
    requires
        a.ordered(),
    ensures
        ({
            let r = account_before(a, h);
            let (u, s) = (a.unspent_orchard_notes, a.spent_orchard_notes);
            &&& r.recv_orchard_notes.contains(x) <==> a.recv_orchard_notes.contains(x) && x.recv_h.0
                < h.0
            &&& u.contains(x) && x.recv_h.0 < h.0 ==> r.unspent_orchard_notes.contains(x)
            &&& s.contains(x) && x.recv_h.0 < h.0 && x.spent_h.0 >= h.0
                ==> r.unspent_orchard_notes.contains(OrchardNote { spent_h: BlockHeight(0), ..x })
            &&& r.spent_orchard_notes.contains(x) <==> s.contains(x) && x.spent_h.0 < h.0
            &&& r.unspent_orchard_notes.contains(x) ==> x.recv_h.0 < h.0 && (u.contains(x) || exists|
                y: OrchardNote,
            |
                #[trigger] s.contains(y) && y.spent_h.0 >= h.0 && x == (OrchardNote {
                    spent_h: BlockHeight(0),
                    ..y
                }))
        }),
{
    let back = OrchardNote { spent_h: BlockHeight(0), ..x };
    lemma_split(a.recv_orchard_notes, Order::Recv, h.0, x);
    lemma_split(a.spent_orchard_notes, Order::Spent, h.0, x);
    lemma_unspent_holds(a.unspent_orchard_notes, a.spent_orchard_notes, h.0, x);
    lemma_unspent_holds(a.unspent_orchard_notes, a.spent_orchard_notes, h.0, back);
    if a.spent_orchard_notes.contains(x) && x.recv_h.0 < h.0 && x.spent_h.0 >= h.0 {
        assert(x.reopened() == back);
    }
}

/// When the blocks from a height on are taken back, a transaction below stays as it is, and so does one
/// that is on its way to the network. One of those blocks, or of the mempool, has failed for now at the
/// height that it had, stands at the tip, and is otherwise as it was. No transaction is lost.
pub proof fn a_taken_back_transaction_has_failed(w: WalletModel, h: BlockHeight, i: int)
    requires
        in_order(w.txs, Order::Recv),
        0 <= i < w.txs.len(),
    ensures
        ({
            let (t, r) = (w.txs[i], wallet_before(w, h).txs[i]);
            &&& wallet_before(w, h).txs.len() == w.txs.len()
            &&& t.h.0 < h.0 || t.h.0 > MEMPOOL ==> r == t
            &&& h.0 <= t.h.0 <= MEMPOOL ==> r == (WalletTx {
                status: TxStatus::SoftFail(t.h),
                h: w.chain_tip_h,
                ..t
            })
        }),
{
    the_rest_is_not_below(w.txs, Order::Recv, h.0);
    let b = below(w.txs, Order::Recv, h.0);
    assert(w.txs[i].at(Order::Recv) < h.0 <==> i < b);
    if h.0 <= w.txs[i].h.0 <= MEMPOOL {
        assert forall|k: int| b <= k <= i implies (#[trigger] w.txs[k]).h.0 <= MEMPOOL by {
            assert(w.txs[k].at(Order::Recv) <= w.txs[i].at(Order::Recv));
        }
    }
}

/// When the blocks from a height on are taken back, everything is known up to the block below at most,
/// and is known as far as before where that is less. The name, the tip, the bonds and the addresses stay.
pub proof fn nothing_is_known_from_the_height_on(w: WalletModel, h: BlockHeight, i: int)
    requires
        0 < h.0 < MEMPOOL,
    ensures
        ({
            let r = wallet_before(w, h);
            &&& r.strms.len() == w.strms.len()
            &&& r.accounts.len() == w.accounts.len()
            &&& 0 <= i < w.strms.len() ==> {
                &&& r.strms[i].account_id == w.strms[i].account_id
                &&& r.strms[i].t_addr == w.strms[i].t_addr
                &&& w.strms[i].sync_h.0 < h.0 ==> r.strms[i] == w.strms[i]
                &&& w.strms[i].sync_h.0 >= h.0 ==> r.strms[i].sync_h.0 == h.0 - 1
            }
            &&& 0 <= i < w.accounts.len() ==> {
                let (a, b) = (w.accounts[i], r.accounts[i]);
                &&& b.ufvk == a.ufvk && b.birthday == a.birthday
                &&& a.fully_detected_h.0 < h.0 ==> b.fully_detected_h == a.fully_detected_h
                &&& a.fully_detected_h.0 >= h.0 ==> b.fully_detected_h.0 == h.0 - 1
                &&& a.fully_decoded_h.0 < h.0 ==> b.fully_decoded_h == a.fully_decoded_h
                &&& a.fully_decoded_h.0 >= h.0 ==> b.fully_decoded_h.0 == h.0 - 1
            }
            &&& r.name == w.name
            &&& r.chain_tip_h == w.chain_tip_h
            &&& r.seen_bond_values == w.seen_bond_values
            &&& r.care_about_bonds == w.care_about_bonds
        }),
{
}

/// A history of balances loses what is at the height or above, and keeps the rest.
pub proof fn the_history_ends_below_the_height(a: AccountModel, h: BlockHeight, i: int)
    requires
        forall|j: int, k: int|
            0 <= j <= k < a.balance_changes.len() ==> (#[trigger] a.balance_changes[j]).0.0 <= (
            #[trigger] a.balance_changes[k]).0.0,
        0 <= i < a.balance_changes.len(),
    ensures
        ({
            let r = account_before(a, h).balance_changes;
            &&& r.len() <= a.balance_changes.len()
            &&& a.balance_changes[i].0.0 < h.0 ==> i < r.len() && r[i] == a.balance_changes[i]
            &&& a.balance_changes[i].0.0 >= h.0 ==> i >= r.len()
        }),
{
    lemma_balances(a.balance_changes, h.0);
    let n = balances_below(a.balance_changes, h.0) as int;
    if n <= i {
        assert(a.balance_changes[n].0.0 <= a.balance_changes[i].0.0);
    }
}

proof fn lemma_balances(s: Seq<(BlockHeight, Zatoshis)>, h: u32)
    ensures
        balances_below(s, h) <= s.len(),
        forall|i: int| 0 <= i < balances_below(s, h) ==> (#[trigger] s[i]).0.0 < h,
        balances_below(s, h) < s.len() ==> s[balances_below(s, h) as int].0.0 >= h,
    decreases s.len(),
{
    if s.len() > 0 && s[0].0.0 < h {
        let t = s.skip(1);
        lemma_balances(t, h);
        assert forall|i: int| 0 <= i < balances_below(s, h) implies (#[trigger] s[i]).0.0 < h by {
            if i > 0 {
                assert(t[i - 1] == s[i]);
            }
        }
        if balances_below(s, h) < s.len() {
            assert(t[balances_below(t, h) as int] == s[balances_below(s, h) as int]);
        }
    }
}

} // verus!
