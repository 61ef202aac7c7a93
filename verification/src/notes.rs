//! What a wallet owns: transparent outputs and orchard notes.
use crate::bytes::bytes_eq;
use crate::height::BlockHeight;
use crate::zats::{Zatoshis, MAX_MONEY};
use vstd::prelude::*;

verus! {

/// The id of a transaction.
pub type TxId = [u8; 32];

/// A transparent address.
#[derive(Clone, Copy, Debug, PartialEq, Eq)]
pub enum TransparentAddress {
    PublicKeyHash([u8; 20]),
    ScriptHash([u8; 20]),
}

impl TransparentAddress {
    /// Whether two addresses are the same.
    pub fn same(&self, b: &TransparentAddress) -> (r: bool)
        ensures
            r == (*self == *b),
    {
        match (self, b) {
            (
                TransparentAddress::PublicKeyHash(x),
                TransparentAddress::PublicKeyHash(y),
            ) => bytes_eq(x, y),
            (TransparentAddress::ScriptHash(x), TransparentAddress::ScriptHash(y)) => bytes_eq(x, y),
            _ => false,
        }
    }
}

/// One output of a transaction.
#[derive(Clone, Copy, Debug, PartialEq, Eq)]
pub struct OutPoint {
    pub txid: TxId,
    pub n: u32,
}

impl OutPoint {
    /// Whether two outputs are the same.
    pub fn same(&self, b: &OutPoint) -> (r: bool)
        ensures
            r == (*self == *b),
    {
        bytes_eq(&self.txid, &b.txid) && self.n == b.n
    }
}

/// A transparent output that the wallet received.
#[derive(Clone, Copy, Debug, PartialEq, Eq)]
pub struct Txo {
    pub recv_h: BlockHeight,
    pub spent_h: BlockHeight,
    pub id: OutPoint,
    pub value: Zatoshis,
    pub t_addr: TransparentAddress,
}

impl Txo {
    /// The id of the transaction that made the output.
    pub fn txid(&self) -> (r: TxId)
        ensures
            r == self.id.txid,
    {
        self.id.txid
    }

    /// Whether two outputs are the same in every respect.
    pub fn same(&self, b: &Txo) -> (r: bool)
        ensures
            r == (*self == *b),
    {
        self.recv_h == b.recv_h && self.spent_h == b.spent_h && self.id.same(&b.id) && self.value
            == b.value && self.t_addr.same(&b.t_addr)
    }
}

/// The position of a note that is not known to be in the commitment tree. It lies behind every
/// position.
pub const UNKNOWN_TREE_POSITION: u64 = 0xffff_ffff_ffff_ffff;

/// What an orchard note is made of.
#[derive(Clone, Copy, Debug, PartialEq, Eq)]
pub struct Note {
    pub recipient: [u8; 43],
    pub value: u64,
    pub rho: [u8; 32],
    pub rseed: [u8; 32],
}

impl Note {
    /// Whether two notes are the same.
    pub fn same(&self, b: &Note) -> (r: bool)
        ensures
            r == (*self == *b),
    {
        bytes_eq(&self.recipient, &b.recipient) && self.value == b.value && bytes_eq(
            &self.rho,
            &b.rho,
        ) && bytes_eq(&self.rseed, &b.rseed)
    }
}

/// An orchard note that the wallet received.
#[derive(Clone, Copy, Debug, PartialEq, Eq)]
pub struct OrchardNote {
    pub recv_h: BlockHeight,
    pub spent_h: BlockHeight,
    pub nf: [u8; 32],
    pub txid: TxId,
    pub note: Note,
    pub position: u64,
}

impl OrchardNote {
    /// Whether two notes are the same in every respect.
    pub fn same(&self, b: &OrchardNote) -> (r: bool)
        ensures
            r == (*self == *b),
    {
        self.recv_h == b.recv_h && self.spent_h == b.spent_h && bytes_eq(&self.nf, &b.nf)
            && bytes_eq(&self.txid, &b.txid) && self.note.same(&b.note) && self.position
            == b.position
    }

    /// Takes over the position of another sighting of the note, if that one knows it.
    pub fn monotonically_update(&mut self, new_note: &OrchardNote)
        ensures
            *final(self) == old(self).updated(*new_note),
    {
        if new_note.position < UNKNOWN_TREE_POSITION {
            self.position = new_note.position;
        }
    }

    /// The note with the position of another sighting of it, if that one knows it.
    pub open spec fn updated(self, new_note: OrchardNote) -> OrchardNote {
        if new_note.position < UNKNOWN_TREE_POSITION {
            OrchardNote { position: new_note.position, ..self }
        } else {
            self
        }
    }

    /// The note's amount.
    pub fn value(&self) -> (r: Zatoshis)
        requires
            self.note.value <= MAX_MONEY,
        ensures
            r.zats == self.note.value,
    {
        Zatoshis::from_u64(self.note.value).unwrap()
    }
}

} // verus!
