//! The transactions that a wallet lists.
use crate::bytes::bytes_eq;
use crate::height::{BlockHeight, INVALID, MEMPOOL};
use crate::notes::TxId;
use crate::staking::{same_opt_action, StakingAction, StakingActionKind};
use crate::tx_part::{PartTotals, TxParts, WalletTxPart};
use crate::wire::{array_of, lemma_array_of};
use crate::zats::{Zatoshis, MAX_MONEY};
use vstd::prelude::*;
use vstd::utf8::{decode_utf8, encode_utf8, valid_utf8};

verus! {

/// What a transaction is for.
#[derive(Clone, Copy, Debug, PartialEq, Eq, Structural)]
pub enum WalletTxKind {
    Send,
    Receive,
    Mine,
    SelfSend,
    Shield,
    Stake,
    BeginUnstake,
    Retarget,
    ClaimUnstake,
}

/// The text of an error, cut to what fits.
#[derive(Clone, Copy, Debug, PartialEq, Eq)]
pub struct ErrBuf(pub [u8; 128]);

/// The text that `String::from_utf8_lossy` of `std` makes of some bytes.
pub uninterp spec fn utf8_lossy(b: Seq<u8>) -> Seq<char>;

/// `String::from_utf8_lossy` of `std`: of valid UTF-8 it makes the text that the bytes encode. What
/// it makes of other bytes has a name and is not described here.
#[verifier::external_body]
pub(crate) fn string_from_utf8_lossy(b: &[u8]) -> (r: String)
    ensures
        r@ == utf8_lossy(b@),
        valid_utf8(b@) ==> r@ == decode_utf8(b@),
{
    String::from_utf8_lossy(b).into_owned()
}

impl ErrBuf {
    /// The first 128 bytes of the text's encoding, filled up with zeros.
    pub open spec fn holds(self, text: Seq<char>) -> bool {
        let b = encode_utf8(text);
        self.0@ == Seq::new(128, |i: int| if i < b.len() { b[i] } else { 0 })
    }

    pub fn from_str(err_str: &str) -> (r: ErrBuf)
        ensures
            r.holds(err_str@),
    {
        let b = err_str.as_bytes();
        let mut buf: [u8; 128] = [0u8; 128];
        let mut i: usize = 0;
        while i < 128 && i < b.len()
            invariant
                i <= 128,
                i <= b.len(),
                b@ == encode_utf8(err_str@),
                buf@ =~= Seq::new(128, |k: int| if k < i { b@[k] } else { 0 }),
            decreases 128 - i,
        {
            buf[i] = b[i];
            i += 1;
        }
        assert(buf@ =~= Seq::new(128, |k: int| if k < b@.len() { b@[k] } else { 0 }));
        ErrBuf(buf)
    }

    /// The text of the buffer, zeros included. What is no UTF-8 is replaced.
    pub fn to_string(&self) -> (r: String)
        ensures
            r@ == utf8_lossy(self.0@),
            valid_utf8(self.0@) ==> r@ == decode_utf8(self.0@),
    {
        string_from_utf8_lossy(&self.0)
    }

    /// Whether two buffers hold the same bytes.
    pub fn same(&self, b: &ErrBuf) -> (r: bool)
        ensures
            r == (*self == *b),
    {
        bytes_eq(&self.0, &b.0)
    }
}

/// Whether a transaction is on the best chain, or on its way there, or failed: for now, or for good
/// and why. A failure names the height that the transaction had.
#[derive(Clone, Copy, Debug, PartialEq, Eq)]
pub enum TxStatus {
    OnBc,
    SoftFail(BlockHeight),
    HardFail(BlockHeight, ErrBuf),
}

impl TxStatus {
    pub fn to_any_fail(&self) -> (r: Option<BlockHeight>)
        ensures
            r == self.fail_height(),
    {
        match self {
            TxStatus::OnBc => None,
            TxStatus::SoftFail(h) => Some(*h),
            TxStatus::HardFail(h, _) => Some(*h),
        }
    }

    /// The height that a failed transaction had.
    pub open spec fn fail_height(self) -> Option<BlockHeight> {
        match self {
            TxStatus::OnBc => None,
            TxStatus::SoftFail(h) => Some(h),
            TxStatus::HardFail(h, _) => Some(h),
        }
    }

    pub fn is_on_bc(&self) -> (r: bool)
        ensures
            r == (*self is OnBc),
    {
        match self {
            TxStatus::OnBc => true,
            _ => false,
        }
    }

    /// Whether two states are the same.
    pub fn same(&self, b: &TxStatus) -> (r: bool)
        ensures
            r == (*self == *b),
    {
        match (self, b) {
            (TxStatus::OnBc, TxStatus::OnBc) => true,
            (TxStatus::SoftFail(x), TxStatus::SoftFail(y)) => *x == *y,
            (TxStatus::HardFail(x, e), TxStatus::HardFail(y, f)) => *x == *y && e.same(f),
            _ => false,
        }
    }
}

/// A transaction that has to do with the wallet.
#[derive(Clone, Copy, Debug, PartialEq, Eq)]
pub struct WalletTx {
    pub account_id: usize,
    pub txid: TxId,
    pub expiry_h: Option<BlockHeight>,
    /// The height by which the wallet's transactions are ordered.
    pub h: BlockHeight,
    pub is_coinbase: bool,
    /// Which parts have been looked at, whether or not anything was there.
    pub part_flags: u8,
    /// The transparent part and the shielded part.
    pub parts: [WalletTxPart; 2],
    pub memo_count: usize,
    pub memo: [u8; 512],
    pub status: TxStatus,
    pub staking_action: Option<StakingAction>,
}

/// The memo that says nothing.
pub open spec fn is_blank_memo(memo: [u8; 512]) -> bool {
    memo@ == Seq::new(512, |i: int| if i == 0 { 0xf6u8 } else { 0u8 })
}

/// The memo that says nothing, as a value.
pub open spec fn no_memo() -> [u8; 512] {
    array_of::<512>(Seq::new(512, |i: int| if i == 0 { 0xf6u8 } else { 0u8 }))
}

pub fn blank_memo() -> (r: [u8; 512])
    ensures
        is_blank_memo(r),
        r == no_memo(),
{
    let mut memo: [u8; 512] = [0u8; 512];
    memo[0] = 0xf6;
    assert(memo@ =~= Seq::new(512, |i: int| if i == 0 { 0xf6u8 } else { 0u8 }));
    proof {
        lemma_array_of(memo);
    }
    memo
}

/// Whether a memo says nothing.
pub fn memo_is_empty(memo_bytes: &[u8; 512]) -> (r: bool)
    ensures
        r == (memo_bytes@[0] == 0xf6),
{
    memo_bytes[0] == 0xf6
}

impl Default for WalletTx {
    fn default() -> (r: WalletTx)
        ensures
            r.is_empty(),
    {
        WalletTx::empty()
    }
}

impl WalletTx {
    /// The entry that stands for no transaction.
    pub open spec fn is_empty(self) -> bool {
        &&& self.account_id == 0
        &&& self.txid@ == Seq::new(32, |i: int| 0u8)
        &&& self.expiry_h == None::<BlockHeight>
        &&& self.h == BlockHeight(INVALID)
        &&& !self.is_coinbase
        &&& self.status == TxStatus::SoftFail(BlockHeight(INVALID))
        &&& self.part_flags == 0
        &&& self.parts@ == seq![WalletTxPart::nothing(), WalletTxPart::nothing()]
        &&& self.memo_count == 0
        &&& is_blank_memo(self.memo)
        &&& self.staking_action == None::<StakingAction>
    }

    pub fn empty() -> (r: WalletTx)
        ensures
            r.is_empty(),
    {
        let zero = WalletTxPart::zero();
        let r = WalletTx {
            account_id: 0,
            txid: [0u8; 32],
            expiry_h: None,
            h: BlockHeight(INVALID),
            is_coinbase: false,
            status: TxStatus::SoftFail(BlockHeight(INVALID)),
            part_flags: 0,
            parts: [zero, zero],
            memo_count: 0,
            memo: blank_memo(),
            staking_action: None,
        };
        assert(r.txid@ =~= Seq::new(32, |i: int| 0u8));
        r
    }

    /// Whether two entries are the same in every respect.
    pub fn same(&self, b: &WalletTx) -> (r: bool)
        ensures
            r == (*self == *b),
    {
        let parts = self.parts[0] == b.parts[0] && self.parts[1] == b.parts[1];
        proof {
            if parts {
                assert(self.parts =~= b.parts);
            }
        }
        self.account_id == b.account_id && bytes_eq(&self.txid, &b.txid) && self.expiry_h
            == b.expiry_h && self.h == b.h && self.is_coinbase == b.is_coinbase && self.part_flags
            == b.part_flags && parts && self.memo_count == b.memo_count && bytes_eq(
            &self.memo,
            &b.memo,
        ) && self.status.same(&b.status) && same_opt_action(&self.staking_action, &b.staking_action)
    }

    /// The height to show: that of the failure, if the transaction failed.
    pub open spec fn shown_height(self) -> BlockHeight {
        match self.status.fail_height() {
            Some(h) => h,
            None => self.h,
        }
    }

    pub fn reported_height(&self) -> (r: BlockHeight)
        ensures
            r == self.shown_height(),
    {
        match self.status.to_any_fail() {
            Some(h) => h,
            None => self.h,
        }
    }

    pub fn is_on_bc(&self) -> (r: bool)
        ensures
            r == (self.status is OnBc),
    {
        self.status.is_on_bc()
    }

    /// An entry for display that stands for no real transaction. The transparent part pays if the
    /// transaction shields, the shielded part otherwise.
    pub fn with_fake_data(
        sent: u64,
        recv: u64,
        shielding: bool,
        is_outside_bc: bool,
        memo: &str,
        mined_h: u32,
    ) -> (r: WalletTx)
        requires
            sent <= MAX_MONEY,
            !shielding ==> recv <= MAX_MONEY,
            encode_utf8(memo@).len() <= 512,
        ensures
            ({
                let pays = WalletTxPart {
                    spent_note_count: if sent > 0 { 1 } else { 0 },
                    spent_zats: Zatoshis { zats: sent },
                    sent_note_count: if sent > 0 { 1 } else { 0 },
                    sent_zats: Zatoshis { zats: sent },
                    ..WalletTxPart::nothing()
                };
                let gets = Zatoshis { zats: if shielding { sent } else { recv } };
                let n: usize = if recv > 0 { 1 } else { 0 };
                let b = encode_utf8(memo@);
                &&& r.account_id == 0
                &&& r.txid@ == Seq::new(32, |i: int| 0u8)
                &&& r.expiry_h == None::<BlockHeight>
                &&& r.h == BlockHeight(if mined_h != 0 { mined_h } else { MEMPOOL })
                &&& r.part_flags == TxParts::FULL_TX
                &&& r.parts@ == if shielding {
                    seq![
                        pays,
                        WalletTxPart {
                            recv_note_count: n,
                            recv_zats: gets,
                            ..WalletTxPart::nothing()
                        },
                    ]
                } else {
                    seq![
                        WalletTxPart::nothing(),
                        WalletTxPart { recv_note_count: n, recv_zats: gets, ..pays },
                    ]
                }
                &&& r.memo_count == if b.len() != 0 { 1usize } else { 0 }
                &&& r.memo@ == Seq::new(
                    512,
                    |i: int|
                        if i < b.len() {
                            b[i]
                        } else if i == 0 {
                            0xf6u8
                        } else {
                            0u8
                        },
                )
                &&& !r.is_coinbase
                &&& r.status == if is_outside_bc {
                    TxStatus::SoftFail(BlockHeight(mined_h))
                } else {
                    TxStatus::OnBc
                }
                &&& r.staking_action == None::<StakingAction>
            }),
    {
        let b = memo.as_bytes();
        let mut memo_bytes: [u8; 512] = blank_memo();
        let mut i: usize = 0;
        while i < b.len()
            invariant
                i <= b.len() <= 512,
                memo_bytes@ =~= Seq::new(
                    512,
                    |k: int|
                        if k < i {
                            b@[k]
                        } else if k == 0 {
                            0xf6u8
                        } else {
                            0u8
                        },
                ),
            decreases b.len() - i,
        {
            memo_bytes[i] = b[i];
            i += 1;
        }
        let pays_n: usize = if sent > 0 {
            1
        } else {
            0
        };
        let recv_n: usize = if recv > 0 {
            1
        } else {
            0
        };
        let pays_zats = Zatoshis::from_u64(sent).unwrap();
        let gets_zats = if shielding {
            pays_zats
        } else {
            Zatoshis::from_u64(recv).unwrap()
        };
        let zero = WalletTxPart::zero();
        let pays = WalletTxPart {
            spent_note_count: pays_n,
            spent_zats: pays_zats,
            sent_note_count: pays_n,
            sent_zats: pays_zats,
            ..zero
        };
        let r = WalletTx {
            account_id: 0,
            txid: [0u8; 32],
            expiry_h: None,
            h: if mined_h != 0 {
                BlockHeight(mined_h)
            } else {
                BlockHeight(MEMPOOL)
            },
            part_flags: TxParts::FULL_TX,
            parts: if shielding {
                [pays, WalletTxPart { recv_note_count: recv_n, recv_zats: gets_zats, ..zero }]
            } else {
                [zero, WalletTxPart { recv_note_count: recv_n, recv_zats: gets_zats, ..pays }]
            },
            memo_count: if b.len() != 0 {
                1
            } else {
                0
            },
            memo: memo_bytes,
            is_coinbase: false,
            status: if is_outside_bc {
                TxStatus::SoftFail(BlockHeight(mined_h))
            } else {
                TxStatus::OnBc
            },
            staking_action: None,
        };
        assert(r.txid@ =~= Seq::new(32, |i: int| 0u8));
        r
    }

    /// What both parts move, and the staking action with them if asked for.
    pub open spec fn sums(self, include_staking: bool) -> PartTotals {
        let both = self.parts@[0].totals().plus(self.parts@[1].totals());
        if include_staking {
            both.plus(WalletTxPart::of_staking_action(self.staking_action).totals())
        } else {
            both
        }
    }

    /// Whether the totals can be computed: the amounts can exist, and the wallet accounts for the
    /// staking action.
    pub open spec fn sums_ok(self, include_staking: bool) -> bool {
        &&& self.sums(include_staking).money_fits()
        &&& self.sums(include_staking).counts_fit()
        &&& include_staking ==> WalletTxPart::staking_action_ok(self.staking_action)
    }

    pub fn totals(&self, include_staking: bool) -> (r: WalletTxPart)
        requires
            self.sums_ok(include_staking),
        ensures
            r == self.sums(include_staking).as_part(),
    {
        let res = self.parts[0].unchecked_add(&self.parts[1]);
        if include_staking {
            let b = WalletTxPart::from_staking_action(self.staking_action);
            res.unchecked_add(&b)
        } else {
            res
        }
    }

    /// By how much the wallet's money changes, in zatoshis.
    pub fn account_value_delta(&self, include_staking: bool) -> (r: i64)
        requires
            self.sums_ok(include_staking),
        ensures
            r == self.sums(include_staking).recv - self.sums(include_staking).spent,
    {
        let all = self.totals(include_staking);
        all.recv_zats.into_u64() as i64 - all.spent_zats.into_u64() as i64
    }

    /// What is spent and not sent, unless more is sent than was seen to be spent.
    pub open spec fn fee_paid(self) -> Option<Zatoshis> {
        let all = self.sums(true);
        if all.spent >= all.sent {
            Some(Zatoshis { zats: (all.spent - all.sent) as u64 })
        } else {
            None
        }
    }

    pub fn fee(&self) -> (r: Option<Zatoshis>)
        requires
            self.sums_ok(true),
        ensures
            r == self.fee_paid(),
    {
        let all = self.totals(true);
        let spent: u64 = all.spent_zats.into_u64();
        let sent: u64 = all.sent_zats.into_u64();
        if spent >= sent {
            Zatoshis::from_u64(spent - sent)
        } else {
            None
        }
    }

    /// What the transaction is for. A staking action decides; then coinbase; then whether all that
    /// is sent comes back; then whether the wallet paid.
    pub open spec fn purpose(self) -> WalletTxKind {
        match self.staking_action {
            Some(a) => if a.kind == StakingActionKind::CreateNewDelegationBond {
                WalletTxKind::Stake
            } else if a.kind == StakingActionKind::BeginDelegationUnbonding {
                WalletTxKind::BeginUnstake
            } else if a.kind == StakingActionKind::RetargetDelegationBond {
                WalletTxKind::Retarget
            } else if a.kind == StakingActionKind::WithdrawDelegationBond {
                WalletTxKind::ClaimUnstake
            } else {
                WalletTxKind::SelfSend
            },
            None => {
                let all = self.sums(true);
                if self.is_coinbase && all.spent == 0 && all.recv > 0 {
                    WalletTxKind::Mine
                } else if all.sent == all.recv {
                    if self.parts@[0].spent_zats.zats == all.spent && self.parts@[1].recv_zats.zats
                        == all.recv && all.recv > 0 {
                        WalletTxKind::Shield
                    } else {
                        WalletTxKind::SelfSend
                    }
                } else if all.spent > 0 {
                    WalletTxKind::Send
                } else {
                    WalletTxKind::Receive
                }
            },
        }
    }

    pub fn kind(&self) -> (r: WalletTxKind)
        requires
            self.staking_action is None ==> self.sums_ok(true),
        ensures
            r == self.purpose(),
    {
        if let Some(staking_action) = &self.staking_action {
            return match staking_action.kind {
                StakingActionKind::CreateNewDelegationBond => WalletTxKind::Stake,
                StakingActionKind::BeginDelegationUnbonding => WalletTxKind::BeginUnstake,
                StakingActionKind::RetargetDelegationBond => WalletTxKind::Retarget,
                StakingActionKind::WithdrawDelegationBond => WalletTxKind::ClaimUnstake,
                _ => WalletTxKind::SelfSend,
            };
        }
        let all = self.totals(true);
        if self.is_coinbase && all.spent_zats.zats == 0 && all.recv_zats.zats > 0 {
            return WalletTxKind::Mine;
        }
        if all.sent_zats.zats == all.recv_zats.zats {
            let all_spent_is_t = self.parts[0].spent_zats == all.spent_zats;
            let all_recv_is_shield = self.parts[1].recv_zats == all.recv_zats;
            if all_spent_is_t && all_recv_is_shield && all.recv_zats.zats > 0 {
                WalletTxKind::Shield
            } else {
                WalletTxKind::SelfSend
            }
        } else if all.spent_zats.zats > 0 {
            WalletTxKind::Send
        } else {
            WalletTxKind::Receive
        }
    }
}

/// A transaction with a staking action is never shown as an ordinary payment: it is a stake, the
/// start of an unstake, a retargeting, a claim, or a payment to oneself.
pub proof fn staking_decides_the_kind(tx: WalletTx)
    requires
        tx.staking_action is Some,
    ensures
        tx.purpose() != WalletTxKind::Send,
        tx.purpose() != WalletTxKind::Receive,
        tx.purpose() != WalletTxKind::Mine,
        tx.purpose() != WalletTxKind::Shield,
{
}

/// Where a fee is known, what the wallet loses is the fee and what it sends and does not get back.
pub proof fn fee_accounts_for_the_change(tx: WalletTx)
    requires
        tx.sums_ok(true),
        tx.fee_paid() is Some,
    ensures
        tx.sums(true).spent - tx.sums(true).recv == tx.fee_paid()->Some_0.zats + (tx.sums(true).sent
            - tx.sums(true).recv),
{
}

/// The totals of a transaction are those of its two pools. With its staking action, a withdrawn bond is
/// spent as well, and a new bond is sent and received.
pub proof fn the_totals_are_those_of_the_pools(tx: WalletTx)
    ensures
        ({
            let (t, s) = (tx.parts[0], tx.parts[1]);
            let (a, b) = (tx.sums(false), tx.sums(true));
            let kind = tx.staking_action->Some_0.kind;
            let amount = tx.staking_action->Some_0.amount_zats;
            let makes = tx.staking_action is Some && kind == StakingActionKind::CreateNewDelegationBond;
            let takes = tx.staking_action is Some && kind == StakingActionKind::WithdrawDelegationBond;
            &&& a.spent == t.spent_zats.zats + s.spent_zats.zats
            &&& a.sent == t.sent_zats.zats + s.sent_zats.zats
            &&& a.recv == t.recv_zats.zats + s.recv_zats.zats
            &&& a.spent_n == t.spent_note_count + s.spent_note_count
            &&& a.sent_n == t.sent_note_count + s.sent_note_count
            &&& a.recv_n == t.recv_note_count + s.recv_note_count
            &&& b.spent == a.spent + if takes {
                amount as nat
            } else {
                0
            }
            &&& b.sent == a.sent + if makes {
                amount as nat
            } else {
                0
            }
            &&& b.recv == a.recv + if makes {
                amount as nat
            } else {
                0
            }
        }),
{
    assert(tx.parts@[0] == tx.parts[0] && tx.parts@[1] == tx.parts[1]);
}

/// The fee is what is spent, a withdrawn bond among it, and is neither sent nor bonded. It is not known
/// where less was seen to be spent than was sent.
pub proof fn the_fee_is_what_is_not_sent(tx: WalletTx)
    requires
        tx.sums_ok(true),
    ensures
        ({
            let (t, s) = (tx.parts[0], tx.parts[1]);
            let kind = tx.staking_action->Some_0.kind;
            let amount = tx.staking_action->Some_0.amount_zats as int;
            let spent = t.spent_zats.zats + s.spent_zats.zats + if tx.staking_action is Some && kind
                == StakingActionKind::WithdrawDelegationBond {
                amount
            } else {
                0
            };
            let sent = t.sent_zats.zats + s.sent_zats.zats + if tx.staking_action is Some && kind
                == StakingActionKind::CreateNewDelegationBond {
                amount
            } else {
                0
            };
            &&& tx.fee_paid() is Some <==> spent >= sent
            &&& tx.fee_paid() matches Some(fee) ==> fee.zats == spent - sent
        }),
{
    the_totals_are_those_of_the_pools(tx);
}

/// What a transaction without a staking action is for follows from its amounts: it is mined where nothing
/// is spent in a coinbase that pays; where all that is sent comes back it shields if it turns transparent
/// money into notes alone, and pays oneself otherwise; where not, the wallet pays if it spends and
/// receives if it does not.
pub proof fn the_kind_follows_the_amounts(tx: WalletTx)
    requires
        tx.staking_action is None,
    ensures
        ({
            let (t, s) = (tx.parts[0], tx.parts[1]);
            let spent = t.spent_zats.zats + s.spent_zats.zats;
            let sent = t.sent_zats.zats + s.sent_zats.zats;
            let recv = t.recv_zats.zats + s.recv_zats.zats;
            let mined = tx.is_coinbase && spent == 0 && recv > 0;
            let k = tx.purpose();
            &&& k == WalletTxKind::Mine <==> mined
            &&& k == WalletTxKind::Send <==> !mined && sent != recv && spent > 0
            &&& k == WalletTxKind::Receive <==> !mined && sent != recv && spent == 0
            &&& k == WalletTxKind::Shield <==> !mined && sent == recv && recv > 0
                && s.spent_zats.zats == 0 && t.recv_zats.zats == 0
            &&& k == WalletTxKind::SelfSend <==> !mined && sent == recv && !(recv > 0
                && s.spent_zats.zats == 0 && t.recv_zats.zats == 0)
        }),
{
    assert(tx.parts@[0] == tx.parts[0] && tx.parts@[1] == tx.parts[1]);
}

/// What a transaction with a staking action is for is what the action does.
pub proof fn the_kind_follows_the_action(tx: WalletTx, a: StakingAction)
    requires
        tx.staking_action == Some(a),
    ensures
        tx.purpose() == WalletTxKind::Stake <==> a.kind == StakingActionKind::CreateNewDelegationBond,
        tx.purpose() == WalletTxKind::BeginUnstake <==> a.kind
            == StakingActionKind::BeginDelegationUnbonding,
        tx.purpose() == WalletTxKind::Retarget <==> a.kind == StakingActionKind::RetargetDelegationBond,
        tx.purpose() == WalletTxKind::ClaimUnstake <==> a.kind
            == StakingActionKind::WithdrawDelegationBond,
{
}

/// A failed transaction is shown at the height that it had when it failed, any other one at its height.
pub proof fn a_failed_transaction_shows_where_it_failed(tx: WalletTx, h: BlockHeight)
    ensures
        tx.status is OnBc ==> tx.shown_height() == tx.h,
        tx.status == TxStatus::SoftFail(h) ==> tx.shown_height() == h,
        (tx.status matches TxStatus::HardFail(k, _) && k == h) ==> tx.shown_height() == h,
{
}

} // verus!
