//! The audit of the wallet's books: what a transaction says was received is held against the notes
//! that the wallet has of it.
use crate::accounts::{account_models, AccountModel, ManualAccount, ManualWallet};
use crate::byte_map::{entries_map, keys_distinct, lemma_with_entry, with_entry, ByteMap, Key};
use crate::bytes::bytes_eq;
use crate::height::MEMPOOL;
use crate::notes::{OrchardNote, TxId};
use crate::tx_part::WalletTxPart;
use crate::wallet_tx::WalletTx;
use crate::zats::{Zatoshis, MAX_MONEY};
use vstd::prelude::*;

verus! {

/// How often a transaction may fail its audit before the snapshot is given up.
pub const AUDIT_AUTOMARK_THRESHOLD: u32 = 3;

/// How many audits may fail in all before the snapshot is given up.
pub const AUDIT_AUTOMARK_TOTAL_THRESHOLD: u32 = 30;

/// The audits that failed, by transaction, and whether the snapshot was given up over them.
#[derive(Debug)]
pub struct AuditLog {
    pub counts: ByteMap<u32>,
    pub marker_dropped: bool,
}

/// What an [`AuditLog`] says.
#[verifier::ext_equal]
pub struct AuditModel {
    pub counts: Seq<(Key, u32)>,
    pub marker_dropped: bool,
}

impl View for AuditLog {
    type V = AuditModel;

    open spec fn view(&self) -> AuditModel {
        AuditModel { counts: self.counts.entries@, marker_dropped: self.marker_dropped }
    }
}

/// Which limit was reached.
#[derive(Clone, Copy, Debug, PartialEq, Eq, Structural)]
pub enum AuditTrigger {
    PerTxid,
    Total,
}

/// The sum of some counts.
pub open spec fn count_sum(counts: Seq<(Key, u32)>) -> nat
    decreases counts.len(),
{
    if counts.len() == 0 {
        0
    } else {
        count_sum(counts.drop_last()) + counts.last().1 as nat
    }
}

/// A number, or the largest `u32` if it is larger.
pub open spec fn capped(n: nat) -> u32 {
    if n > u32::MAX {
        u32::MAX
    } else {
        n as u32
    }
}

/// How often a transaction has failed.
pub open spec fn count_of(counts: Seq<(Key, u32)>, txid: TxId) -> nat {
    if entries_map(counts).contains_key(txid) {
        entries_map(counts)[txid] as nat
    } else {
        0
    }
}

/// The counts after one more failure of a transaction.
pub open spec fn with_failure(counts: Seq<(Key, u32)>, txid: TxId) -> Seq<(Key, u32)> {
    with_entry(counts, txid, capped(count_of(counts, txid) + 1))
}

/// The limit that a failure reaches, unless the snapshot was given up before.
pub open spec fn limit_reached(m: AuditModel, txid: TxId) -> Option<AuditTrigger> {
    let counts = with_failure(m.counts, txid);
    if m.marker_dropped {
        None
    } else if count_of(m.counts, txid) + 1 >= AUDIT_AUTOMARK_THRESHOLD {
        Some(AuditTrigger::PerTxid)
    } else if count_sum(counts) >= AUDIT_AUTOMARK_TOTAL_THRESHOLD {
        Some(AuditTrigger::Total)
    } else {
        None
    }
}

/// The log after one more failure.
pub open spec fn log_failure(m: AuditModel, txid: TxId) -> AuditModel {
    AuditModel {
        counts: with_failure(m.counts, txid),
        marker_dropped: m.marker_dropped || limit_reached(m, txid) is Some,
    }
}

/// A part with one more note received. The amount stays where the sum cannot exist.
pub open spec fn with_recv(p: WalletTxPart, zats: u64) -> WalletTxPart {
    WalletTxPart {
        recv_note_count: (p.recv_note_count + 1) as usize,
        recv_zats: match p.recv_zats.plus(Zatoshis { zats }) {
            Some(z) => z,
            None => p.recv_zats,
        },
        ..p
    }
}

/// The notes of a transaction among some, added to what was received.
pub open spec fn notes_received(p: WalletTxPart, notes: Seq<OrchardNote>, txid: TxId) -> WalletTxPart
    decreases notes.len(),
{
    if notes.len() == 0 {
        p
    } else {
        let q = notes_received(p, notes.drop_last(), txid);
        if notes.last().txid == txid {
            with_recv(q, notes.last().note.value)
        } else {
            q
        }
    }
}

/// What some accounts received by a transaction.
pub open spec fn accounts_received(accounts: Seq<AccountModel>, txid: TxId) -> WalletTxPart
    decreases accounts.len(),
{
    if accounts.len() == 0 {
        WalletTxPart::nothing()
    } else {
        notes_received(
            accounts_received(accounts.drop_last(), txid),
            accounts.last().recv_orchard_notes,
            txid,
        )
    }
}

/// The number of notes that some accounts received.
pub open spec fn note_count(accounts: Seq<AccountModel>) -> nat
    decreases accounts.len(),
{
    if accounts.len() == 0 {
        0
    } else {
        note_count(accounts.drop_last()) + accounts.last().recv_orchard_notes.len()
    }
}

/// Whether the accounts' notes can be counted, and their amounts can exist.
pub open spec fn notes_countable(accounts: Seq<AccountModel>) -> bool {
    &&& note_count(accounts) <= usize::MAX
    &&& forall|i: int, k: int|
        0 <= i < accounts.len() && 0 <= k < accounts[i].recv_orchard_notes.len() ==> (
        #[trigger] accounts[i].recv_orchard_notes[k]).note.value <= MAX_MONEY
}

/// Whether a transaction is audited: it is in a block of the best chain, and was not mined by the
/// wallet.
pub open spec fn is_audited(tx: WalletTx) -> bool {
    !tx.is_coinbase && tx.status is OnBc && tx.h.0 < MEMPOOL
}

/// Whether what a transaction says was received is what the accounts received by it.
pub open spec fn passes_audit(accounts: Seq<AccountModel>, tx: WalletTx) -> bool {
    let seen = accounts_received(accounts, tx.txid);
    tx.parts[1].recv_zats == seen.recv_zats && tx.parts[1].recv_note_count == seen.recv_note_count
}

/// The log after the audit of a transaction.
pub open spec fn log_audit(m: AuditModel, accounts: Seq<AccountModel>, tx: WalletTx) -> AuditModel {
    if is_audited(tx) && !passes_audit(accounts, tx) {
        log_failure(m, tx.txid)
    } else {
        m
    }
}

/// The log after the audit of several transactions.
pub open spec fn log_audits(m: AuditModel, accounts: Seq<AccountModel>, txs: Seq<WalletTx>) -> AuditModel
    decreases txs.len(),
{
    if txs.len() == 0 {
        m
    } else {
        log_audit(log_audits(m, accounts, txs.drop_last()), accounts, txs.last())
    }
}

impl AuditLog {
    /// No transaction occurs twice.
    pub open spec fn wf(&self) -> bool {
        self.counts.wf()
    }

    pub fn new() -> (r: AuditLog)
        ensures
            r.wf(),
            r@.counts == Seq::<(Key, u32)>::empty(),
            !r@.marker_dropped,
    {
        AuditLog { counts: ByteMap::new(), marker_dropped: false }
    }

    /// The sum of all counts, or the largest `u32` if it is larger.
    pub fn total(&self) -> (r: u32)
        ensures
            r == capped(count_sum(self@.counts)),
    {
        let e = &self.counts.entries;
        let mut sum: u32 = 0;
        let mut i: usize = 0;
        while i < e.len()
            invariant
                i <= e@.len(),
                sum == capped(count_sum(e@.take(i as int))),
            decreases e.len() - i,
        {
            sum = sum.saturating_add(e[i].1);
            i += 1;
            assert(e@.take(i as int).drop_last() =~= e@.take(i - 1));
        }
        assert(e@.take(i as int) =~= e@);
        sum
    }

    fn add_failure(&mut self, txid: &TxId) -> (r: Option<AuditTrigger>)
        requires
            old(self).wf(),
        ensures
            final(self).wf(),
            final(self)@ == log_failure(old(self)@, *txid),
            r == limit_reached(old(self)@, *txid),
    {
        let before: u32 = match self.counts.get(txid) {
            Some(n) => n,
            None => 0,
        };
        let n: u32 = before.saturating_add(1);
        self.counts.insert(*txid, n);
        let total: u32 = self.total();
        if self.marker_dropped {
            None
        } else if n >= AUDIT_AUTOMARK_THRESHOLD {
            self.marker_dropped = true;
            Some(AuditTrigger::PerTxid)
        } else if total >= AUDIT_AUTOMARK_TOTAL_THRESHOLD {
            self.marker_dropped = true;
            Some(AuditTrigger::Total)
        } else {
            None
        }
    }
}

proof fn lemma_received_bounds(p: WalletTxPart, notes: Seq<OrchardNote>, txid: TxId)
    requires
        p.recv_note_count + notes.len() <= usize::MAX,
        p.recv_zats.wf(),
    ensures
        notes_received(p, notes, txid).recv_note_count <= p.recv_note_count + notes.len(),
        notes_received(p, notes, txid).recv_zats.wf(),
    decreases notes.len(),
{
    if notes.len() > 0 {
        lemma_received_bounds(p, notes.drop_last(), txid);
    }
}

fn add_received(p: WalletTxPart, notes: &Vec<OrchardNote>, txid: &TxId) -> (r: WalletTxPart)
    requires
        p.recv_note_count + notes@.len() <= usize::MAX,
        p.recv_zats.wf(),
        forall|k: int| 0 <= k < notes@.len() ==> (#[trigger] notes@[k]).note.value <= MAX_MONEY,
    ensures
        r == notes_received(p, notes@, *txid),
{
    let mut q = p;
    let mut i: usize = 0;
    while i < notes.len()
        invariant
            i <= notes@.len(),
            p.recv_note_count + notes@.len() <= usize::MAX,
            p.recv_zats.wf(),
            q == notes_received(p, notes@.take(i as int), *txid),
            forall|k: int| 0 <= k < notes@.len() ==> (#[trigger] notes@[k]).note.value <= MAX_MONEY,
        decreases notes.len() - i,
    {
        proof {
            lemma_received_bounds(p, notes@.take(i as int), *txid);
            assert(notes@.take(i + 1).drop_last() =~= notes@.take(i as int));
        }
        if bytes_eq(&notes[i].txid, txid) {
            let _ = q.recv(notes[i].value());
        }
        i += 1;
    }
    assert(notes@.take(i as int) =~= notes@);
    q
}

proof fn lemma_accounts_received(accounts: Seq<AccountModel>, txid: TxId)
    requires
        note_count(accounts) <= usize::MAX,
    ensures
        accounts_received(accounts, txid).recv_note_count <= note_count(accounts),
        accounts_received(accounts, txid).recv_zats.wf(),
    decreases accounts.len(),
{
    if accounts.len() > 0 {
        lemma_accounts_received(accounts.drop_last(), txid);
        lemma_received_bounds(
            accounts_received(accounts.drop_last(), txid),
            accounts.last().recv_orchard_notes,
            txid,
        );
    }
}

proof fn lemma_note_count(accounts: Seq<AccountModel>, n: int)
    requires
        0 <= n <= accounts.len(),
    ensures
        note_count(accounts.take(n)) <= note_count(accounts),
    decreases accounts.len() - n,
{
    if n < accounts.len() {
        lemma_note_count(accounts, n + 1);
        assert(accounts.take(n + 1).drop_last() =~= accounts.take(n));
    } else {
        assert(accounts.take(n) =~= accounts);
    }
}

/// What the accounts received by a transaction.
pub fn received_by(accounts: &Vec<ManualAccount>, txid: &TxId) -> (r: WalletTxPart)
    requires
        notes_countable(account_models(accounts@)),
    ensures
        r == accounts_received(account_models(accounts@), *txid),
{
    let ghost all = account_models(accounts@);
    let mut p = WalletTxPart::zero();
    let mut i: usize = 0;
    while i < accounts.len()
        invariant
            i <= accounts@.len(),
            all == account_models(accounts@),
            notes_countable(all),
            p == accounts_received(all.take(i as int), *txid),
        decreases accounts.len() - i,
    {
        proof {
            lemma_note_count(all, i as int + 1);
            assert(all.take(i + 1).drop_last() =~= all.take(i as int));
            assert(all.take(i + 1).last() == all[i as int]);
            lemma_note_count(all, i as int);
            lemma_accounts_received(all.take(i as int), *txid);
            assert forall|k: int| 0 <= k < accounts@[i as int].recv_orchard_notes@.len() implies (
            #[trigger] accounts@[i as int].recv_orchard_notes@[k]).note.value <= MAX_MONEY by {
                assert(all[i as int].recv_orchard_notes[k].note.value <= MAX_MONEY);
            }
        }
        p = add_received(p, &accounts[i].recv_orchard_notes, txid);
        i += 1;
    }
    assert(all.take(i as int) =~= all);
    p
}

impl ManualWallet {
    /// Holds what a transaction says was received against the notes that the accounts have of it,
    /// and logs a difference. Which limit of the log that reaches, if any.
    pub fn audit_tx(&self, tx: &WalletTx, log: &mut AuditLog) -> (r: Option<AuditTrigger>)
        requires
            old(log).wf(),
            notes_countable(self@.accounts),
        ensures
            final(log).wf(),
            final(log)@ == log_audit(old(log)@, self@.accounts, *tx),
            r == (if is_audited(*tx) && !passes_audit(self@.accounts, *tx) {
                limit_reached(old(log)@, tx.txid)
            } else {
                None
            }),
    {
        if tx.is_coinbase || !(tx.reported_height().0 < MEMPOOL && tx.is_on_bc()) {
            return None;
        }
        let seen = received_by(&self.accounts, &tx.txid);
        if tx.parts[1].recv_zats == seen.recv_zats && tx.parts[1].recv_note_count
            == seen.recv_note_count {
            None
        } else {
            log.add_failure(&tx.txid)
        }
    }

    /// Audits every transaction of the wallet, in their order.
    pub fn audit_txs(&self, log: &mut AuditLog)
        requires
            old(log).wf(),
            notes_countable(self@.accounts),
        ensures
            final(log).wf(),
            final(log)@ == log_audits(old(log)@, self@.accounts, self@.txs),
    {
        let mut i: usize = 0;
        while i < self.txs.len()
            invariant
                i <= self.txs@.len(),
                log.wf(),
                notes_countable(self@.accounts),
                log@ == log_audits(old(log)@, self@.accounts, self.txs@.take(i as int)),
            decreases self.txs.len() - i,
        {
            let _ = self.audit_tx(&self.txs[i], log);
            i += 1;
            assert(self.txs@.take(i as int).drop_last() =~= self.txs@.take(i - 1));
        }
        assert(self.txs@.take(i as int) =~= self.txs@);
    }
}

/// The snapshot is given up at most once: after that no failure reaches a limit, and it stays given
/// up.
pub proof fn the_marker_is_dropped_once(m: AuditModel, txid: TxId)
    requires
        m.marker_dropped,
    ensures
        limit_reached(m, txid) is None,
        log_failure(m, txid).marker_dropped,
{
}

/// A transaction that fails for the third time reaches a limit, unless the snapshot was given up
/// before.
pub proof fn the_third_failure_reaches_the_limit(m: AuditModel, txid: TxId)
    requires
        !m.marker_dropped,
        count_of(m.counts, txid) + 1 >= AUDIT_AUTOMARK_THRESHOLD,
    ensures
        limit_reached(m, txid) == Some(AuditTrigger::PerTxid),
{
}

/// What the notes of a list are worth that came with a transaction.
pub open spec fn worth_from(notes: Seq<OrchardNote>, txid: TxId) -> nat
    decreases notes.len(),
{
    if notes.len() == 0 {
        0
    } else {
        worth_from(notes.drop_last(), txid) + if notes.last().txid == txid {
            notes.last().note.value as nat
        } else {
            0
        }
    }
}

/// How many notes of a list came with a transaction.
pub open spec fn number_from(notes: Seq<OrchardNote>, txid: TxId) -> nat
    decreases notes.len(),
{
    if notes.len() == 0 {
        0
    } else {
        number_from(notes.drop_last(), txid) + if notes.last().txid == txid {
            1nat
        } else {
            0
        }
    }
}

/// What all accounts' received notes are worth that came with a transaction.
pub open spec fn all_worth_from(accounts: Seq<AccountModel>, txid: TxId) -> nat
    decreases accounts.len(),
{
    if accounts.len() == 0 {
        0
    } else {
        all_worth_from(accounts.drop_last(), txid) + worth_from(
            accounts.last().recv_orchard_notes,
            txid,
        )
    }
}

/// How many of all accounts' received notes came with a transaction.
pub open spec fn all_number_from(accounts: Seq<AccountModel>, txid: TxId) -> nat
    decreases accounts.len(),
{
    if accounts.len() == 0 {
        0
    } else {
        all_number_from(accounts.drop_last(), txid) + number_from(
            accounts.last().recv_orchard_notes,
            txid,
        )
    }
}

proof fn lemma_notes_received(p: WalletTxPart, notes: Seq<OrchardNote>, txid: TxId)
    requires
        p.recv_zats.zats + worth_from(notes, txid) <= MAX_MONEY,
        p.recv_note_count + notes.len() <= usize::MAX,
    ensures
        notes_received(p, notes, txid).recv_zats.zats == p.recv_zats.zats + worth_from(notes, txid),
        notes_received(p, notes, txid).recv_note_count == p.recv_note_count + number_from(
            notes,
            txid,
        ),
        number_from(notes, txid) <= notes.len(),
    decreases notes.len(),
{
    if notes.len() > 0 {
        lemma_notes_received(p, notes.drop_last(), txid);
    }
}

proof fn lemma_all_received(accounts: Seq<AccountModel>, txid: TxId)
    requires
        all_worth_from(accounts, txid) <= MAX_MONEY,
        note_count(accounts) <= usize::MAX,
    ensures
        accounts_received(accounts, txid).recv_zats.zats == all_worth_from(accounts, txid),
        accounts_received(accounts, txid).recv_note_count == all_number_from(accounts, txid),
        all_number_from(accounts, txid) <= note_count(accounts),
    decreases accounts.len(),
{
    if accounts.len() > 0 {
        lemma_all_received(accounts.drop_last(), txid);
        lemma_notes_received(
            accounts_received(accounts.drop_last(), txid),
            accounts.last().recv_orchard_notes,
            txid,
        );
    }
}

/// A transaction passes its audit exactly where it says that as many notes were received, and as much,
/// as the accounts have of it.
pub proof fn the_audit_compares_with_the_notes(accounts: Seq<AccountModel>, tx: WalletTx)
    requires
        all_worth_from(accounts, tx.txid) <= MAX_MONEY,
        note_count(accounts) <= usize::MAX,
    ensures
        passes_audit(accounts, tx) <==> tx.parts[1].recv_zats.zats == all_worth_from(
            accounts,
            tx.txid,
        ) && tx.parts[1].recv_note_count == all_number_from(accounts, tx.txid),
{
    lemma_all_received(accounts, tx.txid);
}

/// The audit of a transaction changes the log exactly where it is in a block of the best chain, was not
/// mined by the wallet, and fails. Then its count grows by one, and every other count stays.
pub proof fn only_a_failed_audit_is_logged(
    m: AuditModel,
    accounts: Seq<AccountModel>,
    tx: WalletTx,
    other: TxId,
)
    requires
        keys_distinct(m.counts),
    ensures
        ({
            let r = log_audit(m, accounts, tx);
            let fails = !tx.is_coinbase && tx.status is OnBc && tx.h.0 < MEMPOOL && !passes_audit(
                accounts,
                tx,
            );
            &&& !fails ==> r == m
            &&& fails && count_of(m.counts, tx.txid) < u32::MAX ==> count_of(r.counts, tx.txid)
                == count_of(m.counts, tx.txid) + 1
            &&& other != tx.txid ==> count_of(r.counts, other) == count_of(m.counts, other)
            &&& m.marker_dropped ==> r.marker_dropped
            &&& r.marker_dropped && !m.marker_dropped ==> fails && (count_of(r.counts, tx.txid) >= 3
                || count_sum(r.counts) >= 30)
            &&& fails && count_of(m.counts, tx.txid) >= 2 ==> r.marker_dropped
        }),
{
    lemma_with_entry(m.counts, tx.txid, capped(count_of(m.counts, tx.txid) + 1));
}

} // verus!
