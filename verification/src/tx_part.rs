//! What one pool of a transaction spends, sends and receives.
use crate::staking::{StakingAction, StakingActionKind};
use crate::zats::{Zatoshis, MAX_MONEY};
use vstd::prelude::*;

verus! {

/// What the wallet sees of one pool of a transaction. Spent notes are the wallet's own that the
/// transaction consumes, sent notes are what it makes of them, received notes are those of them
/// (or of someone else's) that go to the wallet.
#[derive(Clone, Copy, Debug, PartialEq, Eq, Structural)]
pub struct WalletTxPart {
    pub spent_note_count: usize,
    pub spent_zats: Zatoshis,
    pub sent_note_count: usize,
    pub sent_zats: Zatoshis,
    pub recv_note_count: usize,
    pub recv_zats: Zatoshis,
}

/// The totals of several parts.
pub struct PartTotals {
    pub spent_n: nat,
    pub spent: nat,
    pub sent_n: nat,
    pub sent: nat,
    pub recv_n: nat,
    pub recv: nat,
}

impl PartTotals {
    /// Whether every amount can exist.
    pub open spec fn money_fits(self) -> bool {
        self.spent <= MAX_MONEY && self.sent <= MAX_MONEY && self.recv <= MAX_MONEY
    }

    /// Whether every count fits in a machine word.
    pub open spec fn counts_fit(self) -> bool {
        self.spent_n <= usize::MAX && self.sent_n <= usize::MAX && self.recv_n <= usize::MAX
    }

    pub open spec fn plus(self, b: PartTotals) -> PartTotals {
        PartTotals {
            spent_n: self.spent_n + b.spent_n,
            spent: self.spent + b.spent,
            sent_n: self.sent_n + b.sent_n,
            sent: self.sent + b.sent,
            recv_n: self.recv_n + b.recv_n,
            recv: self.recv + b.recv,
        }
    }

    /// The part that has these totals.
    pub open spec fn as_part(self) -> WalletTxPart {
        WalletTxPart {
            spent_note_count: self.spent_n as usize,
            spent_zats: Zatoshis { zats: self.spent as u64 },
            sent_note_count: self.sent_n as usize,
            sent_zats: Zatoshis { zats: self.sent as u64 },
            recv_note_count: self.recv_n as usize,
            recv_zats: Zatoshis { zats: self.recv as u64 },
        }
    }
}

/// The totals of a list of parts.
pub open spec fn part_totals(parts: Seq<WalletTxPart>) -> PartTotals
    decreases parts.len(),
{
    if parts.len() == 0 {
        PartTotals { spent_n: 0, spent: 0, sent_n: 0, sent: 0, recv_n: 0, recv: 0 }
    } else {
        part_totals(parts.drop_last()).plus(parts.last().totals())
    }
}

/// The totals of the first parts of a list are at most those of the whole.
proof fn lemma_prefix_totals(parts: Seq<WalletTxPart>, n: int)
    requires
        0 <= n <= parts.len(),
    ensures
        ({
            let a = part_totals(parts.take(n));
            let b = part_totals(parts);
            a.spent_n <= b.spent_n && a.spent <= b.spent && a.sent_n <= b.sent_n && a.sent <= b.sent
                && a.recv_n <= b.recv_n && a.recv <= b.recv
        }),
    decreases parts.len() - n,
{
    if n < parts.len() {
        lemma_prefix_totals(parts, n + 1);
        assert(parts.take(n + 1).drop_last() =~= parts.take(n));
    } else {
        assert(parts.take(n) =~= parts);
    }
}

impl WalletTxPart {
    pub const TRANSPARENT: usize = 0;

    pub const SHIELDED: usize = 1;

    /// Whether every amount can exist.
    pub open spec fn wf(self) -> bool {
        self.spent_zats.wf() && self.sent_zats.wf() && self.recv_zats.wf()
    }

    /// The part's own totals.
    pub open spec fn totals(self) -> PartTotals {
        PartTotals {
            spent_n: self.spent_note_count as nat,
            spent: self.spent_zats.zats as nat,
            sent_n: self.sent_note_count as nat,
            sent: self.sent_zats.zats as nat,
            recv_n: self.recv_note_count as nat,
            recv: self.recv_zats.zats as nat,
        }
    }

    pub open spec fn nothing() -> WalletTxPart {
        WalletTxPart {
            spent_note_count: 0,
            spent_zats: Zatoshis { zats: 0 },
            sent_note_count: 0,
            sent_zats: Zatoshis { zats: 0 },
            recv_note_count: 0,
            recv_zats: Zatoshis { zats: 0 },
        }
    }

    /// The part in which nothing moves.
    pub fn zero() -> (r: WalletTxPart)
        ensures
            r == WalletTxPart::nothing(),
    {
        WalletTxPart {
            spent_note_count: 0,
            spent_zats: Zatoshis::zero(),
            sent_note_count: 0,
            sent_zats: Zatoshis::zero(),
            recv_note_count: 0,
            recv_zats: Zatoshis::zero(),
        }
    }

    /// What a staking action moves: a new bond is sent and received, a withdrawn bond is spent.
    pub open spec fn of_staking_action(action: Option<StakingAction>) -> WalletTxPart {
        match action {
            None => WalletTxPart::nothing(),
            Some(a) => {
                let z = Zatoshis { zats: a.amount_zats };
                if a.kind == StakingActionKind::CreateNewDelegationBond {
                    WalletTxPart {
                        sent_note_count: 1,
                        sent_zats: z,
                        recv_note_count: 1,
                        recv_zats: z,
                        ..WalletTxPart::nothing()
                    }
                } else if a.kind == StakingActionKind::WithdrawDelegationBond {
                    WalletTxPart { spent_note_count: 1, spent_zats: z, ..WalletTxPart::nothing() }
                } else {
                    WalletTxPart::nothing()
                }
            },
        }
    }

    /// Whether the wallet accounts for an action, and can.
    pub open spec fn staking_action_ok(action: Option<StakingAction>) -> bool {
        action matches Some(a) ==> a.kind.is_accounted() && (a.kind.moves_money() ==> a.amount_zats
            <= MAX_MONEY)
    }

    pub fn from_staking_action(staking_action: Option<StakingAction>) -> (r: WalletTxPart)
        requires
            WalletTxPart::staking_action_ok(staking_action),
        ensures
            r == WalletTxPart::of_staking_action(staking_action),
    {
        let mut b = WalletTxPart::zero();
        if let Some(action) = staking_action {
            match action.kind {
                StakingActionKind::CreateNewDelegationBond => {
                    if let Some(z) = Zatoshis::from_u64(action.amount_zats) {
                        let _ = b.sent(z);
                        let _ = b.recv(z);
                    }
                },
                StakingActionKind::WithdrawDelegationBond => {
                    if let Some(z) = Zatoshis::from_u64(action.amount_zats) {
                        let _ = b.spent(z);
                    }
                },
                _ => {},
            }
        }
        b
    }

    /// The sum of two parts, where its amounts can exist.
    pub open spec fn plus(self, rhs: WalletTxPart) -> Option<WalletTxPart> {
        let t = self.totals().plus(rhs.totals());
        if t.money_fits() {
            Some(t.as_part())
        } else {
            None
        }
    }

    pub fn checked_add(&self, rhs: &WalletTxPart) -> (r: Option<WalletTxPart>)
        requires
            self.totals().plus(rhs.totals()).counts_fit(),
        ensures
            r == self.plus(*rhs),
    {
        let spent_zats = self.spent_zats.checked_sum(rhs.spent_zats)?;
        let sent_zats = self.sent_zats.checked_sum(rhs.sent_zats)?;
        let recv_zats = self.recv_zats.checked_sum(rhs.recv_zats)?;
        Some(
            WalletTxPart {
                spent_note_count: self.spent_note_count + rhs.spent_note_count,
                sent_note_count: self.sent_note_count + rhs.sent_note_count,
                recv_note_count: self.recv_note_count + rhs.recv_note_count,
                spent_zats,
                sent_zats,
                recv_zats,
            },
        )
    }

    pub fn unchecked_add(&self, rhs: &WalletTxPart) -> (r: WalletTxPart)
        requires
            self.totals().plus(rhs.totals()).counts_fit(),
            self.totals().plus(rhs.totals()).money_fits(),
        ensures
            r == self.totals().plus(rhs.totals()).as_part(),
    {
        self.checked_add(rhs).unwrap()
    }

    /// The sum of some parts, where its amounts can exist.
    pub fn checked_sum(parts: &[WalletTxPart]) -> (r: Option<WalletTxPart>)
        requires
            part_totals(parts@).counts_fit(),
        ensures
            r == (if part_totals(parts@).money_fits() {
                Some(part_totals(parts@).as_part())
            } else {
                None
            }),
    {
        let mut v = WalletTxPart::zero();
        let mut i: usize = 0;
        while i < parts.len()
            invariant
                i <= parts.len(),
                part_totals(parts@).counts_fit(),
                v.totals() == part_totals(parts@.take(i as int)),
                v.wf(),
            decreases parts.len() - i,
        {
            proof {
                lemma_prefix_totals(parts@, i as int + 1);
                assert(parts@.take(i + 1).drop_last() =~= parts@.take(i as int));
            }
            match v.checked_add(&parts[i]) {
                Some(sum) => {
                    v = sum;
                },
                None => {
                    return None;
                },
            }
            i += 1;
        }
        assert(parts@.take(i as int) =~= parts@);
        Some(v)
    }

    pub fn unchecked_sum(parts: &[WalletTxPart]) -> (r: WalletTxPart)
        requires
            part_totals(parts@).counts_fit(),
            part_totals(parts@).money_fits(),
        ensures
            r == part_totals(parts@).as_part(),
    {
        WalletTxPart::checked_sum(parts).unwrap()
    }

    /// Counts a note that is spent. The amount stays where the sum cannot exist.
    pub fn spent(&mut self, zats: Zatoshis) -> (r: Option<()>)
        requires
            old(self).spent_note_count < usize::MAX,
        ensures
            r.is_some() == old(self).spent_zats.plus(zats).is_some(),
            *final(self) == (WalletTxPart {
                spent_note_count: (old(self).spent_note_count + 1) as usize,
                spent_zats: match old(self).spent_zats.plus(zats) {
                    Some(z) => z,
                    None => old(self).spent_zats,
                },
                ..*old(self)
            }),
    {
        self.spent_note_count += 1;
        match self.spent_zats.checked_sum(zats) {
            Some(v) => {
                self.spent_zats = v;
                Some(())
            },
            None => None,
        }
    }

    /// Counts a note that is sent. The amount stays where the sum cannot exist.
    pub fn sent(&mut self, zats: Zatoshis) -> (r: Option<()>)
        requires
            old(self).sent_note_count < usize::MAX,
        ensures
            r.is_some() == old(self).sent_zats.plus(zats).is_some(),
            *final(self) == (WalletTxPart {
                sent_note_count: (old(self).sent_note_count + 1) as usize,
                sent_zats: match old(self).sent_zats.plus(zats) {
                    Some(z) => z,
                    None => old(self).sent_zats,
                },
                ..*old(self)
            }),
    {
        self.sent_note_count += 1;
        match self.sent_zats.checked_sum(zats) {
            Some(v) => {
                self.sent_zats = v;
                Some(())
            },
            None => None,
        }
    }

    /// Counts a note that is received. The amount stays where the sum cannot exist.
    pub fn recv(&mut self, zats: Zatoshis) -> (r: Option<()>)
        requires
            old(self).recv_note_count < usize::MAX,
        ensures
            r.is_some() == old(self).recv_zats.plus(zats).is_some(),
            *final(self) == (WalletTxPart {
                recv_note_count: (old(self).recv_note_count + 1) as usize,
                recv_zats: match old(self).recv_zats.plus(zats) {
                    Some(z) => z,
                    None => old(self).recv_zats,
                },
                ..*old(self)
            }),
    {
        self.recv_note_count += 1;
        match self.recv_zats.checked_sum(zats) {
            Some(v) => {
                self.recv_zats = v;
                Some(())
            },
            None => None,
        }
    }

    /// Counts a note that is received, if it is the wallet's.
    pub fn maybe_recv(&mut self, is_me: bool, zats: Zatoshis) -> (r: Option<()>)
        requires
            is_me ==> old(self).recv_note_count < usize::MAX,
            old(self).recv_zats.wf(),
        ensures
            r.is_some() == (!is_me || old(self).recv_zats.plus(zats).is_some()),
            !is_me ==> *final(self) == *old(self),
            is_me ==> *final(self) == (WalletTxPart {
                recv_note_count: (old(self).recv_note_count + 1) as usize,
                recv_zats: match old(self).recv_zats.plus(zats) {
                    Some(z) => z,
                    None => old(self).recv_zats,
                },
                ..*old(self)
            }),
    {
        if is_me {
            self.recv(zats)
        } else {
            Some(())
        }
    }
}

/// Which parts of a transaction have been looked at.
#[derive(Clone, Copy, Debug, PartialEq, Eq, Structural)]
pub struct TxParts(pub u8);

impl TxParts {
    pub const NONE: u8 = 0;

    pub const TRANSPARENT: u8 = 1;

    pub const SHIELDED_RECV: u8 = 2;

    pub const SHIELDED_SENT: u8 = 4;

    pub const MEMO: u8 = 8;

    pub const STAKING_ACTION: u8 = 16;

    pub const FULL_TX: u8 = 31;
}

} // verus!
