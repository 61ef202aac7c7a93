//! The records of the snapshot format.
use crate::accounts::{AccountModel, ManualAccount, ManualStream};
use crate::byte_map::Key;
use crate::height::BlockHeight;
use crate::network::NetworkType;
use crate::notes::{Note, OrchardNote, OutPoint, TransparentAddress, Txo};
use crate::orchard_parts::{
    note_is_valid, note_parts_ok, nullifier_is_canonical, canonical_base, orchard_address_ok,
    recipient_is_valid, rho_is_canonical, rseed_is_valid, rseed_ok,
};
use crate::staking::{StakingAction, StakingActionKind};
use crate::tx_part::WalletTxPart;
use crate::viewing_key::{canonical_ufvk, ufvk_text};
use crate::wallet_tx::{ErrBuf, TxStatus, WalletTx};
use crate::wire::{
    array_round_trip, array_then, list_extends, list_round_trip, list_storable, list_then, models,
    opt_height_round_trip, opt_height_then, parse_array, parse_list, parse_opt_height, parse_text,
    parse_u32, parse_u64, parse_u8, parse_zats, primitives_extend, primitives_round_trip, put_array,
    put_list, put_opt_height, put_text, put_u32, put_u64, put_u8, put_zats, take_array, take_list,
    take_opt_height, take_text, take_u32, take_u64, take_u8, take_zats, text_fits, text_then,
    u32_round_trip, u32_then, u64_round_trip, u64_then, u8_round_trip, u8_then, zats_then, Fault,
    Parsed, PersistError, Taken, Wire,
};
use crate::zats::Zatoshis;
use vstd::prelude::*;

verus! {

/// A key: its 32 bytes.
impl Wire for Key {
    type Model = Key;

    open spec fn model(&self) -> Key {
        *self
    }

    open spec fn then_bytes(m: Key, rest: Seq<u8>) -> Seq<u8> {
        array_then::<32>(m, rest)
    }

    open spec fn parse(net: NetworkType, s: Seq<u8>) -> Parsed<Key> {
        match parse_array::<32>(s) {
            Err(f) => Err(f),
            Ok((k, s)) => Ok((k, s)),
        }
    }

    open spec fn storable(net: NetworkType, m: Key) -> bool {
        true
    }

    proof fn round_trip(net: NetworkType, m: Key, rest: Seq<u8>) {
        broadcast use {primitives_round_trip, list_round_trip};

    }

    proof fn extends(net: NetworkType, s: Seq<u8>, more: Seq<u8>) {
        broadcast use {primitives_extend, list_extends};

    }

    fn put(&self, out: &mut Vec<u8>) {
        put_array::<32>(out, self);
    }

    fn take<'a>(net: NetworkType, s: &'a [u8]) -> (res: Taken<'a, Key>) {
        let (k, s) = take_array::<32>(s)?;
        Ok((k, s))
    }
}

/// A number in four bytes.
impl Wire for u32 {
    type Model = u32;

    open spec fn model(&self) -> u32 {
        *self
    }

    open spec fn then_bytes(m: u32, rest: Seq<u8>) -> Seq<u8> {
        u32_then(m, rest)
    }

    open spec fn parse(net: NetworkType, s: Seq<u8>) -> Parsed<u32> {
        match parse_u32(s) {
            Err(f) => Err(f),
            Ok((v, s)) => Ok((v, s)),
        }
    }

    open spec fn storable(net: NetworkType, m: u32) -> bool {
        true
    }

    proof fn round_trip(net: NetworkType, m: u32, rest: Seq<u8>) {
        broadcast use {primitives_round_trip, list_round_trip};

    }

    proof fn extends(net: NetworkType, s: Seq<u8>, more: Seq<u8>) {
        broadcast use {primitives_extend, list_extends};

    }

    fn put(&self, out: &mut Vec<u8>) {
        put_u32(out, *self);
    }

    fn take<'a>(net: NetworkType, s: &'a [u8]) -> (res: Taken<'a, u32>) {
        let (v, s) = take_u32(s)?;
        Ok((v, s))
    }
}

/// A key and its value.
impl Wire for (Key, u64) {
    type Model = (Key, u64);

    open spec fn model(&self) -> (Key, u64) {
        *self
    }

    open spec fn then_bytes(m: (Key, u64), rest: Seq<u8>) -> Seq<u8> {
        array_then::<32>(m.0, u64_then(m.1, rest))
    }

    open spec fn parse(net: NetworkType, s: Seq<u8>) -> Parsed<(Key, u64)> {
        match parse_array::<32>(s) {
            Err(f) => Err(f),
            Ok((k, s)) => match parse_u64(s) {
                Err(f) => Err(f),
                Ok((v, s)) => Ok(((k, v), s)),
            },
        }
    }

    open spec fn storable(net: NetworkType, m: (Key, u64)) -> bool {
        true
    }

    proof fn round_trip(net: NetworkType, m: (Key, u64), rest: Seq<u8>) {
        broadcast use {primitives_round_trip, list_round_trip};

    }

    proof fn extends(net: NetworkType, s: Seq<u8>, more: Seq<u8>) {
        broadcast use {primitives_extend, list_extends};

    }

    fn put(&self, out: &mut Vec<u8>) {
        put_array::<32>(out, &self.0);
        put_u64(out, self.1);
    }

    fn take<'a>(net: NetworkType, s: &'a [u8]) -> (res: Taken<'a, (Key, u64)>) {
        let (k, s) = take_array::<32>(s)?;
        let (v, s) = take_u64(s)?;
        Ok(((k, v), s))
    }
}

/// A transparent address: a tag, and the hash.
impl Wire for TransparentAddress {
    type Model = TransparentAddress;

    open spec fn model(&self) -> TransparentAddress {
        *self
    }

    open spec fn then_bytes(m: TransparentAddress, rest: Seq<u8>) -> Seq<u8> {
        match m {
            TransparentAddress::PublicKeyHash(h) => u8_then(0, array_then::<20>(h, rest)),
            TransparentAddress::ScriptHash(h) => u8_then(1, array_then::<20>(h, rest)),
        }
    }

    open spec fn parse(net: NetworkType, s: Seq<u8>) -> Parsed<TransparentAddress> {
        match parse_u8(s) {
            Err(f) => Err(f),
            Ok((tag, s)) => if tag > 1 {
                Err(Fault::InvalidValue("bad transparent address tag"@))
            } else {
                match parse_array::<20>(s) {
                    Err(f) => Err(f),
                    Ok((h, s)) => if tag == 0 {
                        Ok((TransparentAddress::PublicKeyHash(h), s))
                    } else {
                        Ok((TransparentAddress::ScriptHash(h), s))
                    },
                }
            },
        }
    }

    open spec fn storable(net: NetworkType, m: TransparentAddress) -> bool {
        true
    }

    proof fn round_trip(net: NetworkType, m: TransparentAddress, rest: Seq<u8>) {
        broadcast use primitives_round_trip;

    }

    proof fn extends(net: NetworkType, s: Seq<u8>, more: Seq<u8>) {
        broadcast use {primitives_extend, list_extends};

    }

    fn put(&self, out: &mut Vec<u8>) {
        match self {
            TransparentAddress::PublicKeyHash(h) => {
                put_u8(out, 0);
                put_array::<20>(out, h);
            },
            TransparentAddress::ScriptHash(h) => {
                put_u8(out, 1);
                put_array::<20>(out, h);
            },
        }
    }

    fn take<'a>(net: NetworkType, s: &'a [u8]) -> (res: Taken<'a, TransparentAddress>) {
        let (tag, s) = take_u8(s)?;
        if tag > 1 {
            return Err(PersistError::InvalidValue("bad transparent address tag"));
        }
        let (h, s) = take_array::<20>(s)?;
        if tag == 0 {
            Ok((TransparentAddress::PublicKeyHash(h), s))
        } else {
            Ok((TransparentAddress::ScriptHash(h), s))
        }
    }
}

/// A transparent output.
impl Wire for Txo {
    type Model = Txo;

    open spec fn model(&self) -> Txo {
        *self
    }

    open spec fn then_bytes(m: Txo, rest: Seq<u8>) -> Seq<u8> {
        u32_then(
            m.recv_h.0,
            u32_then(
                m.spent_h.0,
                array_then::<32>(
                    m.id.txid,
                    u32_then(
                        m.id.n,
                        zats_then(
                            m.value,
                            <TransparentAddress as Wire>::then_bytes(m.t_addr, rest),
                        ),
                    ),
                ),
            ),
        )
    }

    open spec fn parse(net: NetworkType, s: Seq<u8>) -> Parsed<Txo> {
        match parse_u32(s) {
            Err(f) => Err(f),
            Ok((recv_h, s)) => match parse_u32(s) {
                Err(f) => Err(f),
                Ok((spent_h, s)) => match parse_array::<32>(s) {
                    Err(f) => Err(f),
                    Ok((txid, s)) => match parse_u32(s) {
                        Err(f) => Err(f),
                        Ok((n, s)) => match parse_zats(s) {
                            Err(f) => Err(f),
                            Ok((value, s)) => match <TransparentAddress as Wire>::parse(net, s) {
                                Err(f) => Err(f),
                                Ok((t_addr, s)) => Ok(
                                    (
                                        Txo {
                                            recv_h: BlockHeight(recv_h),
                                            spent_h: BlockHeight(spent_h),
                                            id: OutPoint { txid, n },
                                            value,
                                            t_addr,
                                        },
                                        s,
                                    ),
                                ),
                            },
                        },
                    },
                },
            },
        }
    }

    open spec fn storable(net: NetworkType, m: Txo) -> bool {
        m.value.wf()
    }

    proof fn round_trip(net: NetworkType, m: Txo, rest: Seq<u8>) {
        broadcast use {primitives_round_trip, list_round_trip};

        TransparentAddress::round_trip(net, m.t_addr, rest);
    }

    proof fn extends(net: NetworkType, s: Seq<u8>, more: Seq<u8>) {
        broadcast use {primitives_extend, list_extends};

    }

    fn put(&self, out: &mut Vec<u8>) {
        put_u32(out, self.recv_h.0);
        put_u32(out, self.spent_h.0);
        put_array::<32>(out, &self.id.txid);
        put_u32(out, self.id.n);
        put_zats(out, self.value);
        self.t_addr.put(out);
    }

    fn take<'a>(net: NetworkType, s: &'a [u8]) -> (res: Taken<'a, Txo>) {
        let (recv_h, s) = take_u32(s)?;
        let (spent_h, s) = take_u32(s)?;
        let (txid, s) = take_array::<32>(s)?;
        let (n, s) = take_u32(s)?;
        let (value, s) = take_zats(s)?;
        let (t_addr, s) = <TransparentAddress as Wire>::take(net, s)?;
        Ok(
            (
                Txo {
                    recv_h: BlockHeight(recv_h),
                    spent_h: BlockHeight(spent_h),
                    id: OutPoint { txid, n },
                    value,
                    t_addr,
                },
                s,
            ),
        )
    }
}

/// Whether a note's parts make up a note, and its nullifier is one.
pub open spec fn orchard_note_ok(n: OrchardNote) -> bool {
    &&& canonical_base(n.nf@)
    &&& orchard_address_ok(n.note.recipient@)
    &&& canonical_base(n.note.rho@)
    &&& rseed_ok(n.note.rseed@, n.note.rho@)
    &&& note_parts_ok(n.note.recipient@, n.note.value, n.note.rho@, n.note.rseed@)
}

/// An orchard note. What does not make up a note is refused, the first failing part first.
impl Wire for OrchardNote {
    type Model = OrchardNote;

    open spec fn model(&self) -> OrchardNote {
        *self
    }

    open spec fn then_bytes(m: OrchardNote, rest: Seq<u8>) -> Seq<u8> {
        u32_then(
            m.recv_h.0,
            u32_then(
                m.spent_h.0,
                array_then::<32>(
                    m.nf,
                    array_then::<32>(
                        m.txid,
                        array_then::<43>(
                            m.note.recipient,
                            u64_then(
                                m.note.value,
                                array_then::<32>(
                                    m.note.rho,
                                    array_then::<32>(
                                        m.note.rseed,
                                        u64_then(m.position, rest),
                                    ),
                                ),
                            ),
                        ),
                    ),
                ),
            ),
        )
    }

    open spec fn parse(net: NetworkType, s: Seq<u8>) -> Parsed<OrchardNote> {
        match parse_u32(s) {
            Err(f) => Err(f),
            Ok((recv_h, s)) => match parse_u32(s) {
                Err(f) => Err(f),
                Ok((spent_h, s)) => match parse_array::<32>(s) {
                    Err(f) => Err(f),
                    Ok((nf, s)) => if !canonical_base(nf@) {
                        Err(Fault::InvalidValue("bad orchard nullifier"@))
                    } else {
                        match parse_array::<32>(s) {
                            Err(f) => Err(f),
                            Ok((txid, s)) => match parse_array::<43>(s) {
                                Err(f) => Err(f),
                                Ok((recipient, s)) => if !orchard_address_ok(recipient@) {
                                    Err(Fault::InvalidValue("bad orchard recipient"@))
                                } else {
                                    match parse_u64(s) {
                                        Err(f) => Err(f),
                                        Ok((value, s)) => match parse_array::<32>(s) {
                                            Err(f) => Err(f),
                                            Ok((rho, s)) => if !canonical_base(rho@) {
                                                Err(Fault::InvalidValue("bad orchard rho"@))
                                            } else {
                                                match parse_array::<32>(s) {
                                                    Err(f) => Err(f),
                                                    Ok((rseed, s)) => if !rseed_ok(rseed@, rho@) {
                                                        Err(
                                                            Fault::InvalidValue(
                                                                "bad orchard rseed"@,
                                                            ),
                                                        )
                                                    } else if !note_parts_ok(recipient@, value, rho@, rseed@) {
                                                        Err(
                                                            Fault::InvalidValue(
                                                                "invalid orchard note components"@,
                                                            ),
                                                        )
                                                    } else {
                                                        match parse_u64(s) {
                                                            Err(f) => Err(f),
                                                            Ok((position, s)) => Ok(
                                                                (
                                                                    OrchardNote {
                                                                        recv_h: BlockHeight(
                                                                            recv_h,
                                                                        ),
                                                                        spent_h: BlockHeight(
                                                                            spent_h,
                                                                        ),
                                                                        nf,
                                                                        txid,
                                                                        note: Note {
                                                                            recipient,
                                                                            value,
                                                                            rho,
                                                                            rseed,
                                                                        },
                                                                        position,
                                                                    },
                                                                    s,
                                                                ),
                                                            ),
                                                        }
                                                    },
                                                }
                                            },
                                        },
                                    }
                                },
                            },
                        }
                    },
                },
            },
        }
    }

    open spec fn storable(net: NetworkType, m: OrchardNote) -> bool {
        orchard_note_ok(m)
    }

    proof fn round_trip(net: NetworkType, m: OrchardNote, rest: Seq<u8>) {
        broadcast use {primitives_round_trip, list_round_trip};

    }

    proof fn extends(net: NetworkType, s: Seq<u8>, more: Seq<u8>) {
        broadcast use {primitives_extend, list_extends};

    }

    fn put(&self, out: &mut Vec<u8>) {
        put_u32(out, self.recv_h.0);
        put_u32(out, self.spent_h.0);
        put_array::<32>(out, &self.nf);
        put_array::<32>(out, &self.txid);
        put_array::<43>(out, &self.note.recipient);
        put_u64(out, self.note.value);
        put_array::<32>(out, &self.note.rho);
        put_array::<32>(out, &self.note.rseed);
        put_u64(out, self.position);
    }

    fn take<'a>(net: NetworkType, s: &'a [u8]) -> (res: Taken<'a, OrchardNote>) {
        let (recv_h, s) = take_u32(s)?;
        let (spent_h, s) = take_u32(s)?;
        let (nf, s) = take_array::<32>(s)?;
        if !nullifier_is_canonical(&nf) {
            return Err(PersistError::InvalidValue("bad orchard nullifier"));
        }
        let (txid, s) = take_array::<32>(s)?;
        let (recipient, s) = take_array::<43>(s)?;
        if !recipient_is_valid(&recipient) {
            return Err(PersistError::InvalidValue("bad orchard recipient"));
        }
        let (value, s) = take_u64(s)?;
        let (rho, s) = take_array::<32>(s)?;
        if !rho_is_canonical(&rho) {
            return Err(PersistError::InvalidValue("bad orchard rho"));
        }
        let (rseed, s) = take_array::<32>(s)?;
        if !rseed_is_valid(&rseed, &rho) {
            return Err(PersistError::InvalidValue("bad orchard rseed"));
        }
        if !note_is_valid(&recipient, value, &rho, &rseed) {
            return Err(PersistError::InvalidValue("invalid orchard note components"));
        }
        let (position, s) = take_u64(s)?;
        Ok(
            (
                OrchardNote {
                    recv_h: BlockHeight(recv_h),
                    spent_h: BlockHeight(spent_h),
                    nf,
                    txid,
                    note: Note { recipient, value, rho, rseed },
                    position,
                },
                s,
            ),
        )
    }
}

/// What one pool of a transaction moves.
impl Wire for WalletTxPart {
    type Model = WalletTxPart;

    open spec fn model(&self) -> WalletTxPart {
        *self
    }

    open spec fn then_bytes(m: WalletTxPart, rest: Seq<u8>) -> Seq<u8> {
        u64_then(
            m.spent_note_count as u64,
            zats_then(
                m.spent_zats,
                u64_then(
                    m.sent_note_count as u64,
                    zats_then(
                        m.sent_zats,
                        u64_then(m.recv_note_count as u64, zats_then(m.recv_zats, rest)),
                    ),
                ),
            ),
        )
    }

    open spec fn parse(net: NetworkType, s: Seq<u8>) -> Parsed<WalletTxPart> {
        match parse_u64(s) {
            Err(f) => Err(f),
            Ok((spent_note_count, s)) => match parse_zats(s) {
                Err(f) => Err(f),
                Ok((spent_zats, s)) => match parse_u64(s) {
                    Err(f) => Err(f),
                    Ok((sent_note_count, s)) => match parse_zats(s) {
                        Err(f) => Err(f),
                        Ok((sent_zats, s)) => match parse_u64(s) {
                            Err(f) => Err(f),
                            Ok((recv_note_count, s)) => match parse_zats(s) {
                                Err(f) => Err(f),
                                Ok((recv_zats, s)) => Ok(
                                    (
                                        WalletTxPart {
                                            spent_note_count: spent_note_count as usize,
                                            spent_zats,
                                            sent_note_count: sent_note_count as usize,
                                            sent_zats,
                                            recv_note_count: recv_note_count as usize,
                                            recv_zats,
                                        },
                                        s,
                                    ),
                                ),
                            },
                        },
                    },
                },
            },
        }
    }

    open spec fn storable(net: NetworkType, m: WalletTxPart) -> bool {
        m.wf()
    }

    proof fn round_trip(net: NetworkType, m: WalletTxPart, rest: Seq<u8>) {
        broadcast use {primitives_round_trip, list_round_trip};

    }

    proof fn extends(net: NetworkType, s: Seq<u8>, more: Seq<u8>) {
        broadcast use {primitives_extend, list_extends};

    }

    fn put(&self, out: &mut Vec<u8>) {
        put_u64(out, self.spent_note_count as u64);
        put_zats(out, self.spent_zats);
        put_u64(out, self.sent_note_count as u64);
        put_zats(out, self.sent_zats);
        put_u64(out, self.recv_note_count as u64);
        put_zats(out, self.recv_zats);
    }

    fn take<'a>(net: NetworkType, s: &'a [u8]) -> (res: Taken<'a, WalletTxPart>) {
        let (spent_note_count, s) = take_u64(s)?;
        let (spent_zats, s) = take_zats(s)?;
        let (sent_note_count, s) = take_u64(s)?;
        let (sent_zats, s) = take_zats(s)?;
        let (recv_note_count, s) = take_u64(s)?;
        let (recv_zats, s) = take_zats(s)?;
        Ok(
            (
                WalletTxPart {
                    spent_note_count: spent_note_count as usize,
                    spent_zats,
                    sent_note_count: sent_note_count as usize,
                    sent_zats,
                    recv_note_count: recv_note_count as usize,
                    recv_zats,
                },
                s,
            ),
        )
    }
}

/// A staking action, in a layout that is the same for every kind.
impl Wire for StakingAction {
    type Model = StakingAction;

    open spec fn model(&self) -> StakingAction {
        *self
    }

    open spec fn then_bytes(m: StakingAction, rest: Seq<u8>) -> Seq<u8> {
        u8_then(
            m.kind.code(),
            u64_then(
                m.amount_zats,
                array_then::<32>(
                    m.arg32_0,
                    array_then::<32>(
                        m.arg32_1,
                        array_then::<32>(
                            m.arg32_2,
                            array_then::<32>(
                                m.arg32_3,
                                array_then::<64>(m.arg64_0, array_then::<64>(m.arg64_1, rest)),
                            ),
                        ),
                    ),
                ),
            ),
        )
    }

    open spec fn parse(net: NetworkType, s: Seq<u8>) -> Parsed<StakingAction> {
        match parse_u8(s) {
            Err(f) => Err(f),
            Ok((code, s)) => match StakingActionKind::of_code(code) {
                None => Err(Fault::InvalidValue("bad staking action kind"@)),
                Some(kind) => match parse_u64(s) {
                    Err(f) => Err(f),
                    Ok((amount_zats, s)) => match parse_array::<32>(s) {
                        Err(f) => Err(f),
                        Ok((arg32_0, s)) => match parse_array::<32>(s) {
                            Err(f) => Err(f),
                            Ok((arg32_1, s)) => match parse_array::<32>(s) {
                                Err(f) => Err(f),
                                Ok((arg32_2, s)) => match parse_array::<32>(s) {
                                    Err(f) => Err(f),
                                    Ok((arg32_3, s)) => match parse_array::<64>(s) {
                                        Err(f) => Err(f),
                                        Ok((arg64_0, s)) => match parse_array::<64>(s) {
                                            Err(f) => Err(f),
                                            Ok((arg64_1, s)) => Ok(
                                                (
                                                    StakingAction {
                                                        kind,
                                                        amount_zats,
                                                        arg32_0,
                                                        arg32_1,
                                                        arg32_2,
                                                        arg32_3,
                                                        arg64_0,
                                                        arg64_1,
                                                    },
                                                    s,
                                                ),
                                            ),
                                        },
                                    },
                                },
                            },
                        },
                    },
                },
            },
        }
    }

    open spec fn storable(net: NetworkType, m: StakingAction) -> bool {
        true
    }

    proof fn round_trip(net: NetworkType, m: StakingAction, rest: Seq<u8>) {
        broadcast use primitives_round_trip;

    }

    proof fn extends(net: NetworkType, s: Seq<u8>, more: Seq<u8>) {
        broadcast use {primitives_extend, list_extends};

    }

    fn put(&self, out: &mut Vec<u8>) {
        put_u8(out, self.kind.to_u8());
        put_u64(out, self.amount_zats);
        put_array::<32>(out, &self.arg32_0);
        put_array::<32>(out, &self.arg32_1);
        put_array::<32>(out, &self.arg32_2);
        put_array::<32>(out, &self.arg32_3);
        put_array::<64>(out, &self.arg64_0);
        put_array::<64>(out, &self.arg64_1);
    }

    fn take<'a>(net: NetworkType, s: &'a [u8]) -> (res: Taken<'a, StakingAction>) {
        let (code, s) = take_u8(s)?;
        let kind = match StakingActionKind::from_u8(code) {
            Some(kind) => kind,
            None => {
                return Err(PersistError::InvalidValue("bad staking action kind"));
            },
        };
        let (amount_zats, s) = take_u64(s)?;
        let (arg32_0, s) = take_array::<32>(s)?;
        let (arg32_1, s) = take_array::<32>(s)?;
        let (arg32_2, s) = take_array::<32>(s)?;
        let (arg32_3, s) = take_array::<32>(s)?;
        let (arg64_0, s) = take_array::<64>(s)?;
        let (arg64_1, s) = take_array::<64>(s)?;
        Ok(
            (
                StakingAction {
                    kind,
                    amount_zats,
                    arg32_0,
                    arg32_1,
                    arg32_2,
                    arg32_3,
                    arg64_0,
                    arg64_1,
                },
                s,
            ),
        )
    }
}

/// The bytes of an optional staking action, followed by `rest`.
pub open spec fn opt_action_then(v: Option<StakingAction>, rest: Seq<u8>) -> Seq<u8> {
    match v {
        Some(a) => u8_then(1, StakingAction::then_bytes(a, rest)),
        None => u8_then(0, rest),
    }
}

pub open spec fn parse_opt_action(net: NetworkType, s: Seq<u8>) -> Parsed<Option<StakingAction>> {
    match parse_u8(s) {
        Err(f) => Err(f),
        Ok((tag, s)) => if tag == 0 {
            Ok((None, s))
        } else if tag == 1 {
            match StakingAction::parse(net, s) {
                Err(f) => Err(f),
                Ok((a, s)) => Ok((Some(a), s)),
            }
        } else {
            Err(Fault::InvalidValue("bad option tag (staking_action)"@))
        },
    }
}

proof fn opt_action_round_trip(net: NetworkType, v: Option<StakingAction>, rest: Seq<u8>)
ensures
parse_opt_action(net, opt_action_then(v, rest)) == Ok::<
(Option<StakingAction>, Seq<u8>),
Fault,
>((v, rest)),
{
    broadcast use primitives_round_trip;

    if let Some(a) = v {
        StakingAction::round_trip(net, a, rest);
    }
}

fn put_opt_action(out: &mut Vec<u8>, v: &Option<StakingAction>)
ensures
forall|rest: Seq<u8>| #[trigger]
(final(out)@ + rest) == old(out)@ + opt_action_then(*v, rest),
{
    match v {
        Some(a) => {
            put_u8(out, 1);
            a.put(out);
        },
        None => put_u8(out, 0),
    }
}

fn take_opt_action<'a>(net: NetworkType, s: &'a [u8]) -> (res: Taken<'a, Option<StakingAction>>)
ensures
match parse_opt_action(net, s@) {
    Ok((v, rest)) => res matches Ok((w, r)) && w == v && r@ == rest,
    Err(f) => res matches Err(e) && e@ == f,
},
{
    let (tag, s) = take_u8(s)?;
    if tag == 0 {
        Ok((None, s))
    } else if tag == 1 {
        let (a, s) = StakingAction::take(net, s)?;
        Ok((Some(a), s))
    } else {
        Err(PersistError::InvalidValue("bad option tag (staking_action)"))
    }
}

/// The state of a transaction: a tag, the height of a failure, and the text of a hard one.
impl Wire for TxStatus {
    type Model = TxStatus;

    open spec fn model(&self) -> TxStatus {
        *self
    }

    open spec fn then_bytes(m: TxStatus, rest: Seq<u8>) -> Seq<u8> {
        match m {
            TxStatus::OnBc => u8_then(0, rest),
            TxStatus::SoftFail(h) => u8_then(1, u32_then(h.0, rest)),
            TxStatus::HardFail(h, e) => u8_then(2, u32_then(h.0, array_then::<128>(e.0, rest))),
        }
    }

    open spec fn parse(net: NetworkType, s: Seq<u8>) -> Parsed<TxStatus> {
        match parse_u8(s) {
            Err(f) => Err(f),
            Ok((tag, s)) => if tag == 0 {
                Ok((TxStatus::OnBc, s))
            } else if tag > 2 {
                Err(Fault::InvalidValue("bad tx_status tag"@))
            } else {
                match parse_u32(s) {
                    Err(f) => Err(f),
                    Ok((h, s)) => if tag == 1 {
                        Ok((TxStatus::SoftFail(BlockHeight(h)), s))
                    } else {
                        match parse_array::<128>(s) {
                            Err(f) => Err(f),
                            Ok((e, s)) => Ok((TxStatus::HardFail(BlockHeight(h), ErrBuf(e)), s)),
                        }
                    },
                }
            },
        }
    }

    open spec fn storable(net: NetworkType, m: TxStatus) -> bool {
        true
    }

    proof fn round_trip(net: NetworkType, m: TxStatus, rest: Seq<u8>) {
        broadcast use primitives_round_trip;

    }

    proof fn extends(net: NetworkType, s: Seq<u8>, more: Seq<u8>) {
        broadcast use {primitives_extend, list_extends};

    }

    fn put(&self, out: &mut Vec<u8>) {
        match self {
            TxStatus::OnBc => put_u8(out, 0),
            TxStatus::SoftFail(h) => {
                put_u8(out, 1);
                put_u32(out, h.0);
            },
            TxStatus::HardFail(h, e) => {
                put_u8(out, 2);
                put_u32(out, h.0);
                put_array::<128>(out, &e.0);
            },
        }
    }

    fn take<'a>(net: NetworkType, s: &'a [u8]) -> (res: Taken<'a, TxStatus>) {
        let (tag, s) = take_u8(s)?;
        if tag == 0 {
            return Ok((TxStatus::OnBc, s));
        }
        if tag > 2 {
            return Err(PersistError::InvalidValue("bad tx_status tag"));
        }
        let (h, s) = take_u32(s)?;
        if tag == 1 {
            return Ok((TxStatus::SoftFail(BlockHeight(h)), s));
        }
        let (e, s) = take_array::<128>(s)?;
        Ok((TxStatus::HardFail(BlockHeight(h), ErrBuf(e)), s))
    }
}

/// A transaction.
impl Wire for WalletTx {
    type Model = WalletTx;

    open spec fn model(&self) -> WalletTx {
        *self
    }

    open spec fn then_bytes(m: WalletTx, rest: Seq<u8>) -> Seq<u8> {
        u64_then(
            m.account_id as u64,
            array_then::<32>(
                m.txid,
                opt_height_then(
                    m.expiry_h,
                    u32_then(
                        m.h.0,
                        u8_then(
                            if m.is_coinbase { 1 } else { 0 },
                            u8_then(
                                m.part_flags,
                                <WalletTxPart as Wire>::then_bytes(
                                    m.parts[0],
                                    <WalletTxPart as Wire>::then_bytes(
                                        m.parts[1],
                                        u64_then(
                                            m.memo_count as u64,
                                            array_then::<512>(
                                                m.memo,
                                                <TxStatus as Wire>::then_bytes(
                                                    m.status,
                                                    opt_action_then(
                                                        m.staking_action,
                                                        rest,
                                                    ),
                                                ),
                                            ),
                                        ),
                                    ),
                                ),
                            ),
                        ),
                    ),
                ),
            ),
        )
    }

    open spec fn parse(net: NetworkType, s: Seq<u8>) -> Parsed<WalletTx> {
        match parse_u64(s) {
            Err(f) => Err(f),
            Ok((account_id, s)) => match parse_array::<32>(s) {
                Err(f) => Err(f),
                Ok((txid, s)) => match parse_opt_height(s) {
                    Err(f) => Err(f),
                    Ok((expiry_h, s)) => match parse_u32(s) {
                        Err(f) => Err(f),
                        Ok((h, s)) => match parse_u8(s) {
                            Err(f) => Err(f),
                            Ok((coinbase, s)) => match parse_u8(s) {
                                Err(f) => Err(f),
                                Ok((part_flags, s)) => match <WalletTxPart as Wire>::parse(net, s) {
                                    Err(f) => Err(f),
                                    Ok((part_t, s)) => match <WalletTxPart as Wire>::parse(net, s) {
                                        Err(f) => Err(f),
                                        Ok((part_s, s)) => match parse_u64(s) {
                                            Err(f) => Err(f),
                                            Ok((memo_count, s)) => match parse_array::<512>(s) {
                                                Err(f) => Err(f),
                                                Ok((memo, s)) => match <TxStatus as Wire>::parse(net, s) {
                                                    Err(f) => Err(f),
                                                    Ok((status, s)) => match parse_opt_action(net, s) {
                                                        Err(f) => Err(f),
                                                        Ok((staking_action, s)) => Ok(
                                                            (
                                                                WalletTx {
                                                                    account_id: account_id as usize,
                                                                    txid,
                                                                    expiry_h,
                                                                    h: BlockHeight(h),
                                                                    is_coinbase: coinbase != 0,
                                                                    part_flags,
                                                                    parts: [part_t, part_s],
                                                                    memo_count: memo_count as usize,
                                                                    memo,
                                                                    status,
                                                                    staking_action,
                                                                },
                                                                s,
                                                            ),
                                                        ),
                                                    },
                                                },
                                            },
                                        },
                                    },
                                },
                            },
                        },
                    },
                },
            },
        }
    }

    open spec fn storable(net: NetworkType, m: WalletTx) -> bool {
        m.parts[0].wf() && m.parts[1].wf()
    }

    proof fn round_trip(net: NetworkType, m: WalletTx, rest: Seq<u8>) {
        let t10 = opt_action_then(m.staking_action, rest);
        let t9 = TxStatus::then_bytes(m.status, t10);
        let t8 = array_then::<512>(m.memo, t9);
        let t7 = u64_then(m.memo_count as u64, t8);
        let t6 = WalletTxPart::then_bytes(m.parts[1], t7);
        let t5 = WalletTxPart::then_bytes(m.parts[0], t6);
        let t4 = u8_then(m.part_flags, t5);
        let t3 = u8_then(if m.is_coinbase { 1 } else { 0 }, t4);
        let t2 = u32_then(m.h.0, t3);
        let t1 = opt_height_then(m.expiry_h, t2);
        let t0 = array_then::<32>(m.txid, t1);
        u64_round_trip(m.account_id as u64, t0);
        array_round_trip::<32>(m.txid, t1);
        opt_height_round_trip(m.expiry_h, t2);
        u32_round_trip(m.h.0, t3);
        u8_round_trip(if m.is_coinbase { 1 } else { 0 }, t4);
        u8_round_trip(m.part_flags, t5);
        WalletTxPart::round_trip(net, m.parts[0], t6);
        WalletTxPart::round_trip(net, m.parts[1], t7);
        u64_round_trip(m.memo_count as u64, t8);
        array_round_trip::<512>(m.memo, t9);
        TxStatus::round_trip(net, m.status, t10);
        opt_action_round_trip(net, m.staking_action, rest);
        assert([m.parts[0], m.parts[1]] =~= m.parts);
    }

    proof fn extends(net: NetworkType, s: Seq<u8>, more: Seq<u8>) {
        broadcast use {primitives_extend, list_extends};

    }

    fn put(&self, out: &mut Vec<u8>) {
        put_u64(out, self.account_id as u64);
        put_array::<32>(out, &self.txid);
        put_opt_height(out, self.expiry_h);
        put_u32(out, self.h.0);
        put_u8(out, if self.is_coinbase { 1 } else { 0 });
        put_u8(out, self.part_flags);
        self.parts[0].put(out);
        self.parts[1].put(out);
        put_u64(out, self.memo_count as u64);
        put_array::<512>(out, &self.memo);
        self.status.put(out);
        put_opt_action(out, &self.staking_action);
    }

    fn take<'a>(net: NetworkType, s: &'a [u8]) -> (res: Taken<'a, WalletTx>) {
        let (account_id, s) = take_u64(s)?;
        let (txid, s) = take_array::<32>(s)?;
        let (expiry_h, s) = take_opt_height(s)?;
        let (h, s) = take_u32(s)?;
        let (coinbase, s) = take_u8(s)?;
        let (part_flags, s) = take_u8(s)?;
        let (part_t, s) = <WalletTxPart as Wire>::take(net, s)?;
        let (part_s, s) = <WalletTxPart as Wire>::take(net, s)?;
        let (memo_count, s) = take_u64(s)?;
        let (memo, s) = take_array::<512>(s)?;
        let (status, s) = <TxStatus as Wire>::take(net, s)?;
        let (staking_action, s) = take_opt_action(net, s)?;
        Ok(
            (
                WalletTx {
                    account_id: account_id as usize,
                    txid,
                    expiry_h,
                    h: BlockHeight(h),
                    is_coinbase: coinbase != 0,
                    part_flags,
                    parts: [part_t, part_s],
                    memo_count: memo_count as usize,
                    memo,
                    status,
                    staking_action,
                },
                s,
            ),
        )
    }
}

/// An address stream.
impl Wire for ManualStream {
    type Model = ManualStream;

    open spec fn model(&self) -> ManualStream {
        *self
    }

    open spec fn then_bytes(m: ManualStream, rest: Seq<u8>) -> Seq<u8> {
        u64_then(
            m.account_id as u64,
            u32_then(m.sync_h.0, <TransparentAddress as Wire>::then_bytes(m.t_addr, rest)),
        )
    }

    open spec fn parse(net: NetworkType, s: Seq<u8>) -> Parsed<ManualStream> {
        match parse_u64(s) {
            Err(f) => Err(f),
            Ok((account_id, s)) => match parse_u32(s) {
                Err(f) => Err(f),
                Ok((sync_h, s)) => match <TransparentAddress as Wire>::parse(net, s) {
                    Err(f) => Err(f),
                    Ok((t_addr, s)) => Ok(
                        (
                            ManualStream {
                                account_id: account_id as usize,
                                sync_h: BlockHeight(sync_h),
                                t_addr,
                            },
                            s,
                        ),
                    ),
                },
            },
        }
    }

    open spec fn storable(net: NetworkType, m: ManualStream) -> bool {
        true
    }

    proof fn round_trip(net: NetworkType, m: ManualStream, rest: Seq<u8>) {
        broadcast use {primitives_round_trip, list_round_trip};

        TransparentAddress::round_trip(net, m.t_addr, rest);
    }

    proof fn extends(net: NetworkType, s: Seq<u8>, more: Seq<u8>) {
        broadcast use {primitives_extend, list_extends};

    }

    fn put(&self, out: &mut Vec<u8>) {
        put_u64(out, self.account_id as u64);
        put_u32(out, self.sync_h.0);
        self.t_addr.put(out);
    }

    fn take<'a>(net: NetworkType, s: &'a [u8]) -> (res: Taken<'a, ManualStream>) {
        let (account_id, s) = take_u64(s)?;
        let (sync_h, s) = take_u32(s)?;
        let (t_addr, s) = <TransparentAddress as Wire>::take(net, s)?;
        Ok(
            (
                ManualStream {
                    account_id: account_id as usize,
                    sync_h: BlockHeight(sync_h),
                    t_addr,
                },
                s,
            ),
        )
    }
}

/// The history of balances that an account starts with.
pub open spec fn opening_balance() -> Seq<(BlockHeight, Zatoshis)> {
    seq![(BlockHeight(0), Zatoshis { zats: 0 })]
}

/// An account. The history of its balances is not kept: it starts anew.
impl Wire for ManualAccount {
    type Model = AccountModel;

    open spec fn model(&self) -> AccountModel {
        self@
    }

    open spec fn then_bytes(m: AccountModel, rest: Seq<u8>) -> Seq<u8> {
        u32_then(
            m.fully_detected_h.0,
            u32_then(
                m.fully_decoded_h.0,
                text_then(
                    m.ufvk,
                    u32_then(
                        m.birthday.0,
                        list_then::<Txo>(
                            m.recv_txos,
                            list_then::<Txo>(
                                m.utxos,
                                list_then::<Txo>(
                                    m.stxos,
                                    list_then::<OrchardNote>(
                                        m.recv_orchard_notes,
                                        list_then::<OrchardNote>(
                                            m.unspent_orchard_notes,
                                            list_then::<OrchardNote>(
                                                m.spent_orchard_notes,
                                                rest,
                                            ),
                                        ),
                                    ),
                                ),
                            ),
                        ),
                    ),
                ),
            ),
        )
    }

    open spec fn parse(net: NetworkType, s: Seq<u8>) -> Parsed<AccountModel> {
        match parse_u32(s) {
            Err(f) => Err(f),
            Ok((fully_detected_h, s)) => match parse_u32(s) {
                Err(f) => Err(f),
                Ok((fully_decoded_h, s)) => match parse_text(s) {
                    Err(f) => Err(f),
                    Ok((key, s)) => match canonical_ufvk(net, key) {
                        None => Err(Fault::InvalidValue("bad ufvk"@)),
                        Some(ufvk) => match parse_u32(s) {
                            Err(f) => Err(f),
                            Ok((birthday, s)) => match parse_list::<Txo>(net, s) {
                                Err(f) => Err(f),
                                Ok((recv_txos, s)) => match parse_list::<Txo>(net, s) {
                                    Err(f) => Err(f),
                                    Ok((utxos, s)) => match parse_list::<Txo>(net, s) {
                                        Err(f) => Err(f),
                                        Ok((stxos, s)) => match parse_list::<OrchardNote>(net, s) {
                                            Err(f) => Err(f),
                                            Ok((recv_orchard_notes, s)) => match parse_list::<OrchardNote>(net, s) {
                                                Err(f) => Err(f),
                                                Ok((unspent_orchard_notes, s)) => match parse_list::<OrchardNote>(net, s) {
                                                    Err(f) => Err(f),
                                                    Ok((spent_orchard_notes, s)) => Ok(
                                                        (
                                                            AccountModel {
                                                                fully_detected_h: BlockHeight(
                                                                    fully_detected_h,
                                                                ),
                                                                fully_decoded_h: BlockHeight(
                                                                    fully_decoded_h,
                                                                ),
                                                                ufvk,
                                                                birthday: BlockHeight(birthday),
                                                                balance_changes: opening_balance(),
                                                                recv_txos,
                                                                utxos,
                                                                stxos,
                                                                recv_orchard_notes,
                                                                unspent_orchard_notes,
                                                                spent_orchard_notes,
                                                            },
                                                            s,
                                                        ),
                                                    ),
                                                },
                                            },
                                        },
                                    },
                                },
                            },
                        },
                    },
                },
            },
        }
    }

    open spec fn storable(net: NetworkType, m: AccountModel) -> bool {
        &&& text_fits(m.ufvk)
        &&& canonical_ufvk(net, m.ufvk) == Some(m.ufvk)
        &&& m.balance_changes == opening_balance()
        &&& list_storable::<Txo>(net, m.recv_txos)
        &&& list_storable::<Txo>(net, m.utxos)
        &&& list_storable::<Txo>(net, m.stxos)
        &&& list_storable::<OrchardNote>(net, m.recv_orchard_notes)
        &&& list_storable::<OrchardNote>(net, m.unspent_orchard_notes)
        &&& list_storable::<OrchardNote>(net, m.spent_orchard_notes)
    }

    proof fn round_trip(net: NetworkType, m: AccountModel, rest: Seq<u8>) {
        broadcast use {primitives_round_trip, list_round_trip};

    }

    proof fn extends(net: NetworkType, s: Seq<u8>, more: Seq<u8>) {
        broadcast use {primitives_extend, list_extends};

    }

    fn put(&self, out: &mut Vec<u8>) {
        proof {
            assert(models(self.recv_txos@) =~= self.recv_txos@);
            assert(models(self.utxos@) =~= self.utxos@);
            assert(models(self.stxos@) =~= self.stxos@);
            assert(models(self.recv_orchard_notes@) =~= self.recv_orchard_notes@);
            assert(models(self.unspent_orchard_notes@) =~= self.unspent_orchard_notes@);
            assert(models(self.spent_orchard_notes@) =~= self.spent_orchard_notes@);
        }
        put_u32(out, self.fully_detected_h.0);
        put_u32(out, self.fully_decoded_h.0);
        put_text(out, self.ufvk.as_str());
        put_u32(out, self.birthday.0);
        put_list::<Txo>(out, &self.recv_txos);
        put_list::<Txo>(out, &self.utxos);
        put_list::<Txo>(out, &self.stxos);
        put_list::<OrchardNote>(out, &self.recv_orchard_notes);
        put_list::<OrchardNote>(out, &self.unspent_orchard_notes);
        put_list::<OrchardNote>(out, &self.spent_orchard_notes);
    }

    fn take<'a>(net: NetworkType, s: &'a [u8]) -> (res: Taken<'a, ManualAccount>) {
        let (fully_detected_h, s) = take_u32(s)?;
        let (fully_decoded_h, s) = take_u32(s)?;
        let (key, s) = take_text(s)?;
        let ufvk = match ufvk_text(net, key.as_str()) {
            Some(ufvk) => ufvk,
            None => {
                return Err(PersistError::InvalidValue("bad ufvk"));
            },
        };
        let (birthday, s) = take_u32(s)?;
        let (recv_txos, s) = take_list::<Txo>(net, s)?;
        let (utxos, s) = take_list::<Txo>(net, s)?;
        let (stxos, s) = take_list::<Txo>(net, s)?;
        let (recv_orchard_notes, s) = take_list::<OrchardNote>(net, s)?;
        let (unspent_orchard_notes, s) = take_list::<OrchardNote>(net, s)?;
        let (spent_orchard_notes, s) = take_list::<OrchardNote>(net, s)?;
        let a = ManualAccount {
            fully_detected_h: BlockHeight(fully_detected_h),
            fully_decoded_h: BlockHeight(fully_decoded_h),
            ufvk,
            birthday: BlockHeight(birthday),
            balance_changes: vec![(BlockHeight(0), Zatoshis::zero())],
            recv_txos,
            utxos,
            stxos,
            recv_orchard_notes,
            unspent_orchard_notes,
            spent_orchard_notes,
        };
        proof {
            assert(a@.balance_changes =~= opening_balance());
            assert(models(a.recv_txos@) =~= a.recv_txos@);
            assert(models(a.utxos@) =~= a.utxos@);
            assert(models(a.stxos@) =~= a.stxos@);
            assert(models(a.recv_orchard_notes@) =~= a.recv_orchard_notes@);
            assert(models(a.unspent_orchard_notes@) =~= a.unspent_orchard_notes@);
            assert(models(a.spent_orchard_notes@) =~= a.spent_orchard_notes@);
        }
        Ok((a, s))
    }
}

} // verus!
