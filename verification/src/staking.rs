//! Staking actions.
use vstd::prelude::*;

verus! {

/// What a staking action does.
#[derive(Clone, Copy, Debug, PartialEq, Eq, Structural)]
pub enum StakingActionKind {
    Null,
    CreateNewDelegationBond,
    BeginDelegationUnbonding,
    WithdrawDelegationBond,
    RetargetDelegationBond,
    RegisterFinalizer,
    ConvertFinalizerRewardToDelegationBond,
    UpdateFinalizerKey,
}

impl StakingActionKind {
    /// The byte that stands for a kind.
    pub open spec fn code(self) -> u8 {
        match self {
            StakingActionKind::Null => 0,
            StakingActionKind::CreateNewDelegationBond => 1,
            StakingActionKind::BeginDelegationUnbonding => 2,
            StakingActionKind::WithdrawDelegationBond => 3,
            StakingActionKind::RetargetDelegationBond => 4,
            StakingActionKind::RegisterFinalizer => 5,
            StakingActionKind::ConvertFinalizerRewardToDelegationBond => 6,
            StakingActionKind::UpdateFinalizerKey => 7,
        }
    }

    pub fn to_u8(self) -> (r: u8)
        ensures
            r == self.code(),
    {
        match self {
            StakingActionKind::Null => 0,
            StakingActionKind::CreateNewDelegationBond => 1,
            StakingActionKind::BeginDelegationUnbonding => 2,
            StakingActionKind::WithdrawDelegationBond => 3,
            StakingActionKind::RetargetDelegationBond => 4,
            StakingActionKind::RegisterFinalizer => 5,
            StakingActionKind::ConvertFinalizerRewardToDelegationBond => 6,
            StakingActionKind::UpdateFinalizerKey => 7,
        }
    }

    /// The kind that a byte stands for.
    pub open spec fn of_code(b: u8) -> Option<StakingActionKind> {
        if b == 0 {
            Some(StakingActionKind::Null)
        } else if b == 1 {
            Some(StakingActionKind::CreateNewDelegationBond)
        } else if b == 2 {
            Some(StakingActionKind::BeginDelegationUnbonding)
        } else if b == 3 {
            Some(StakingActionKind::WithdrawDelegationBond)
        } else if b == 4 {
            Some(StakingActionKind::RetargetDelegationBond)
        } else if b == 5 {
            Some(StakingActionKind::RegisterFinalizer)
        } else if b == 6 {
            Some(StakingActionKind::ConvertFinalizerRewardToDelegationBond)
        } else if b == 7 {
            Some(StakingActionKind::UpdateFinalizerKey)
        } else {
            None
        }
    }

    pub fn from_u8(b: u8) -> (r: Option<StakingActionKind>)
        ensures
            r == StakingActionKind::of_code(b),
    {
        match b {
            0 => Some(StakingActionKind::Null),
            1 => Some(StakingActionKind::CreateNewDelegationBond),
            2 => Some(StakingActionKind::BeginDelegationUnbonding),
            3 => Some(StakingActionKind::WithdrawDelegationBond),
            4 => Some(StakingActionKind::RetargetDelegationBond),
            5 => Some(StakingActionKind::RegisterFinalizer),
            6 => Some(StakingActionKind::ConvertFinalizerRewardToDelegationBond),
            7 => Some(StakingActionKind::UpdateFinalizerKey),
            _ => None,
        }
    }

    /// Whether the wallet accounts for actions of this kind.
    pub open spec fn is_accounted(self) -> bool {
        self != StakingActionKind::RegisterFinalizer && self
            != StakingActionKind::ConvertFinalizerRewardToDelegationBond && self
            != StakingActionKind::UpdateFinalizerKey
    }

    /// Whether actions of this kind move the money that they name.
    pub open spec fn moves_money(self) -> bool {
        self == StakingActionKind::CreateNewDelegationBond || self
            == StakingActionKind::WithdrawDelegationBond
    }
}

/// A staking action as a transaction carries it.
#[derive(Clone, Copy, Debug, PartialEq, Eq)]
pub struct StakingAction {
    pub kind: StakingActionKind,
    pub amount_zats: u64,
    pub arg32_0: [u8; 32],
    pub arg32_1: [u8; 32],
    pub arg32_2: [u8; 32],
    pub arg32_3: [u8; 32],
    pub arg64_0: [u8; 64],
    pub arg64_1: [u8; 64],
}

/// Whether some bytes are all zero.
pub open spec fn is_zero(b: Seq<u8>) -> bool {
    forall|i: int| 0 <= i < b.len() ==> #[trigger] b[i] == 0
}

impl StakingAction {
    /// Whether an action does something with a bond: its key stands first, a finalizer third, and
    /// nothing is signed.
    pub open spec fn is_about(
        self,
        kind: StakingActionKind,
        amount_zats: u64,
        bond_key: [u8; 32],
        target: Seq<u8>,
    ) -> bool {
        &&& self.kind == kind
        &&& self.amount_zats == amount_zats
        &&& self.arg32_0 == bond_key
        &&& is_zero(self.arg32_1@)
        &&& self.arg32_2@ == target
        &&& is_zero(self.arg32_3@)
        &&& is_zero(self.arg64_0@)
        &&& is_zero(self.arg64_1@)
    }

    fn unsigned(
        kind: StakingActionKind,
        amount_zats: u64,
        bond_key: [u8; 32],
        target: [u8; 32],
    ) -> (r: StakingAction)
        ensures
            r.is_about(kind, amount_zats, bond_key, target@),
    {
        StakingAction {
            kind,
            amount_zats,
            arg32_0: bond_key,
            arg32_1: [0u8; 32],
            arg32_2: target,
            arg32_3: [0u8; 32],
            arg64_0: [0u8; 64],
            arg64_1: [0u8; 64],
        }
    }

    /// A new bond of an amount with a finalizer.
    pub fn create_bond(amount_zats: u64, bond_key: [u8; 32], target_finalizer: [u8; 32]) -> (r:
        StakingAction)
        ensures
            r.is_about(
                StakingActionKind::CreateNewDelegationBond,
                amount_zats,
                bond_key,
                target_finalizer@,
            ),
    {
        StakingAction::unsigned(
            StakingActionKind::CreateNewDelegationBond,
            amount_zats,
            bond_key,
            target_finalizer,
        )
    }

    /// The start of a bond's unbonding.
    pub fn begin_unbonding(bond_key: [u8; 32]) -> (r: StakingAction)
        ensures
            r.is_about(
                StakingActionKind::BeginDelegationUnbonding,
                0,
                bond_key,
                Seq::new(32, |i: int| 0u8),
            ),
    {
        let zeros: [u8; 32] = [0u8; 32];
        assert(zeros@ =~= Seq::new(32, |i: int| 0u8));
        StakingAction::unsigned(StakingActionKind::BeginDelegationUnbonding, 0, bond_key, zeros)
    }

    /// A bond's move to another finalizer.
    pub fn retarget_bond(bond_key: [u8; 32], new_target: [u8; 32]) -> (r: StakingAction)
        ensures
            r.is_about(StakingActionKind::RetargetDelegationBond, 0, bond_key, new_target@),
    {
        StakingAction::unsigned(StakingActionKind::RetargetDelegationBond, 0, bond_key, new_target)
    }

    /// The withdrawal of an unbonded bond.
    pub fn withdraw_bond(amount_zats: u64, bond_key: [u8; 32]) -> (r: StakingAction)
        ensures
            r.is_about(
                StakingActionKind::WithdrawDelegationBond,
                amount_zats,
                bond_key,
                Seq::new(32, |i: int| 0u8),
            ),
    {
        let zeros: [u8; 32] = [0u8; 32];
        assert(zeros@ =~= Seq::new(32, |i: int| 0u8));
        StakingAction::unsigned(
            StakingActionKind::WithdrawDelegationBond,
            amount_zats,
            bond_key,
            zeros,
        )
    }

    /// Whether two actions are the same.
    pub fn same(&self, b: &StakingAction) -> (r: bool)
        ensures
            r == (*self == *b),
    {
        self.kind == b.kind && self.amount_zats == b.amount_zats && crate::bytes::bytes_eq(
            &self.arg32_0,
            &b.arg32_0,
        ) && crate::bytes::bytes_eq(&self.arg32_1, &b.arg32_1) && crate::bytes::bytes_eq(
            &self.arg32_2,
            &b.arg32_2,
        ) && crate::bytes::bytes_eq(&self.arg32_3, &b.arg32_3) && crate::bytes::bytes_eq(
            &self.arg64_0,
            &b.arg64_0,
        ) && crate::bytes::bytes_eq(&self.arg64_1, &b.arg64_1)
    }
}

/// Whether two optional actions are the same.
pub fn same_opt_action(a: &Option<StakingAction>, b: &Option<StakingAction>) -> (r: bool)
    ensures
        r == (*a == *b),
{
    match (a, b) {
        (Some(x), Some(y)) => x.same(y),
        (None, None) => true,
        _ => false,
    }
}

/// The stake that a caller asks the wallet to place.
#[derive(Clone, Copy, Debug, PartialEq, Eq)]
pub struct PendingStake {
    pub amount_zats: u64,
    pub finalizer: [u8; 32],
}

/// Every kind of action has a byte of its own, from which it is read again, and no other byte stands for
/// one.
pub proof fn a_kind_is_read_from_its_byte(kind: StakingActionKind, b: u8)
    ensures
        StakingActionKind::of_code(kind.code()) == Some(kind),
        StakingActionKind::of_code(b) matches Some(k) ==> k.code() == b,
        StakingActionKind::of_code(b) is Some <==> b <= 7,
{
}

} // verus!
