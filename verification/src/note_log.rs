//! A log of what happened to notes, by transaction and wallet.
use crate::bytes::bytes_eq;
use crate::height::BlockHeight;
use crate::notes::{OrchardNote, TxId, Txo};
use crate::text::same_text;
use vstd::prelude::*;

verus! {

#[derive(Clone, Copy, Debug, PartialEq, Eq, Structural)]
pub enum DevNoteActionKind {
    Recv,
    Unrecv,
    Spend,
    Unspend,
}

#[derive(Clone, Copy, Debug, PartialEq, Eq)]
pub enum DevNote {
    Txo(Txo),
    OrchardNote(OrchardNote),
}

/// Something that happened to a note.
#[derive(Clone, Copy, Debug, PartialEq, Eq)]
pub struct DevNoteAction {
    pub seq: u64,
    pub action_h: BlockHeight,
    pub kind: DevNoteActionKind,
    pub note: DevNote,
    pub tip_h: BlockHeight,
}

/// What happened to the notes of one transaction in one wallet.
#[derive(Debug)]
pub struct LogEntry {
    pub txid: TxId,
    pub wallet: &'static str,
    pub actions: Vec<DevNoteAction>,
}

/// What happened to notes, and the number of the next thing to happen.
#[derive(Debug)]
pub struct NoteLog {
    pub entries: Vec<LogEntry>,
    pub next_seq: u64,
}

impl NoteLog {
    /// Whether an entry is that of a transaction in a wallet.
    pub open spec fn is_of(e: LogEntry, wallet: Seq<char>, txid: TxId) -> bool {
        e.wallet@ == wallet && e.txid == txid
    }

    /// The first entry of a transaction in a wallet.
    pub open spec fn is_place(&self, wallet: Seq<char>, txid: TxId, i: int) -> bool {
        &&& 0 <= i < self.entries@.len()
        &&& Self::is_of(self.entries@[i], wallet, txid)
        &&& forall|k: int| 0 <= k < i ==> !Self::is_of(#[trigger] self.entries@[k], wallet, txid)
    }

    /// Whether the log knows nothing of a transaction in a wallet.
    pub open spec fn is_missing(&self, wallet: Seq<char>, txid: TxId) -> bool {
        forall|k: int|
            0 <= k < self.entries@.len() ==> !Self::is_of(#[trigger] self.entries@[k], wallet, txid)
    }

    pub fn new() -> (r: NoteLog)
        ensures
            r.entries@.len() == 0,
            r.next_seq == 0,
    {
        NoteLog { entries: Vec::new(), next_seq: 0 }
    }

    fn find(&self, wallet: &'static str, txid: &TxId) -> (r: Option<usize>)
        ensures
            match r {
                Some(i) => self.is_place(wallet@, *txid, i as int),
                None => self.is_missing(wallet@, *txid),
            },
    {
        let mut i: usize = 0;
        while i < self.entries.len()
            invariant
                i <= self.entries@.len(),
                forall|k: int|
                    0 <= k < i ==> !Self::is_of(#[trigger] self.entries@[k], wallet@, *txid),
            decreases self.entries@.len() - i,
        {
            if bytes_eq(&self.entries[i].txid, txid) && same_text(self.entries[i].wallet, wallet) {
                return Some(i);
            }
            i += 1;
        }
        None
    }

    /// The entry of a transaction that should be in the log, and the number of what happens to it.
    /// The number is used up even where there is no entry.
    pub fn get_expected(&mut self, wallet_name: &'static str, txid: &TxId) -> (r: Option<
        (usize, u64),
    >)
        requires
            old(self).next_seq < u64::MAX,
        ensures
            final(self).entries == old(self).entries,
            final(self).next_seq == old(self).next_seq + 1,
            match r {
                Some((i, seq)) => old(self).is_place(wallet_name@, *txid, i as int) && seq == old(
                    self,
                ).next_seq,
                None => old(self).is_missing(wallet_name@, *txid),
            },
    {
        let seq: u64 = self.next_seq;
        self.next_seq = seq + 1;
        assert(self.entries == old(self).entries);
        match self.find(wallet_name, txid) {
            Some(i) => {
                assert(old(self).is_place(wallet_name@, *txid, i as int));
                Some((i, seq))
            },
            None => None,
        }
    }

    /// The entry of a transaction, a new one if there is none, and the number of what happens to it.
    pub fn get_or_new(&mut self, wallet_name: &'static str, txid: &TxId) -> (r: (usize, u64))
        requires
            old(self).next_seq < u64::MAX,
        ensures
            final(self).next_seq == old(self).next_seq + 1,
            r.1 == old(self).next_seq,
            final(self).is_place(wallet_name@, *txid, r.0 as int),
            old(self).is_missing(wallet_name@, *txid) ==> r.0 == old(self).entries@.len()
                && final(self).entries@.len() == r.0 + 1 && final(self).entries@.take(r.0 as int)
                == old(self).entries@ && final(self).entries@[r.0 as int].actions@.len() == 0,
            !old(self).is_missing(wallet_name@, *txid) ==> final(self).entries == old(self).entries,
    {
        let seq: u64 = self.next_seq;
        self.next_seq = seq + 1;
        match self.find(wallet_name, txid) {
            Some(i) => (i, seq),
            None => {
                let i: usize = self.entries.len();
                let ghost before = self.entries@;
                self.entries.push(
                    LogEntry { txid: *txid, wallet: wallet_name, actions: Vec::new() },
                );
                assert(self.entries@.take(i as int) =~= before);
                assert forall|k: int| 0 <= k < i implies !Self::is_of(
                    #[trigger] self.entries@[k],
                    wallet_name@,
                    *txid,
                ) by {
                    assert(self.entries@[k] == before[k]);
                }
                (i, seq)
            },
        }
    }

    /// Enters what happened to a note.
    pub fn record(&mut self, i: usize, action: DevNoteAction)
        requires
            i < old(self).entries@.len(),
        ensures
            final(self).next_seq == old(self).next_seq,
            final(self).entries@.len() == old(self).entries@.len(),
            final(self).entries@[i as int].actions@ == old(self).entries@[i as int].actions@.push(
                action,
            ),
            final(self).entries@[i as int].txid == old(self).entries@[i as int].txid,
            final(self).entries@[i as int].wallet == old(self).entries@[i as int].wallet,
            forall|k: int|
                0 <= k < old(self).entries@.len() && k != i ==> #[trigger] final(self).entries@[k]
                    == old(self).entries@[k],
    {
        self.entries[i].actions.push(action);
    }
}

} // verus!
