//! The finality service: its state, and how it answers.
use crate::bft::{
    chain, fat_pointer_for, is_chain, is_no_hash, is_pointer_for, BftBlock, BlockHash,
    FatPointerToBftBlock,
};
use crate::byte_map::Key;
use crate::bytes::bytes_eq;
use crate::decide::{a_chain_grows, may_follow};
use crate::hardfork::{forks, HardForkConfig};
use crate::issuance::ScanInfo;
use crate::recency::{FinalizerRecencyStatus, TFLRecencyStatus};
use crate::roster::{members, MemberModel};
use crate::store::Replay;
use crate::text::{debug_quoted, debug_text};
use crate::voters::{
    is_roster_of, roster_at, total_stake, voters_at, RosterMember, SortedRosterMember,
};
use vstd::prelude::*;
use vstd::string::StringExecFns;

verus! {

/// The height from which on the service works.
pub const TFL_ACTIVATION_HEIGHT: u32 = 0;

/// From how many blocks on finality is said to fall behind.
pub const MAX_FINALITY_GAP: u32 = 512;

/// How a node is set up.
#[derive(Debug)]
pub struct Config {
    /// The address under which the node is reached.
    pub public_address: Option<String>,
    /// What the node's key is made from, in place of a generated seed.
    pub explicit_bft_key_seed: Option<String>,
    pub bft_peers: Vec<String>,
    pub disable_the_headless_wallet: bool,
    pub disable_zaino: bool,
    /// The schedule of hardforks.
    pub hardforks: Vec<HardForkConfig>,
    /// Whether the hardforks that the program comes with are left out of the schedule.
    pub disable_shipped_hardforks: bool,
}

impl Default for Config {
    fn default() -> (r: Config)
        ensures
            r.public_address is None,
            r.explicit_bft_key_seed is None,
            r.bft_peers@.len() == 0,
            !r.disable_the_headless_wallet,
            !r.disable_zaino,
            r.hardforks@.len() == 0,
            !r.disable_shipped_hardforks,
    {
        Config {
            public_address: None,
            explicit_bft_key_seed: None,
            bft_peers: Vec::new(),
            disable_the_headless_wallet: false,
            disable_zaino: false,
            hardforks: Vec::new(),
            disable_shipped_hardforks: false,
        }
    }
}

/// Whether a block is final.
#[derive(Clone, Copy, Debug, PartialEq, Eq, Structural)]
pub enum TFLBlockFinality {
    /// It is above the final height, so it may become final.
    NotYetFinalized,
    /// It is not above the final height, and in the best chain.
    Finalized,
    /// It is not above the final height, and not in the best chain.
    CantBeFinalized,
}

/// What the service can be asked.
#[derive(Debug)]
pub enum TFLServiceRequest {
    IsTFLActivated,
    FinalBlockHeightHash,
    FinalBlockRx,
    SetFinalBlockHash(BlockHash),
    BlockFinalityStatus(u32, BlockHash),
    TxFinalityStatus([u8; 32]),
    Roster,
    /// The pointer that a block at a height of the best chain is to have.
    FatPointerToBFTChainTip(u64),
    StakingCmd(String),
    Faucet(String),
    TotalIssuanceFromKey(Vec<String>, u32, u32),
    FinalizersRecencyStatus,
    WalletUfvk,
}

/// What the service answers.
#[derive(Debug)]
pub enum TFLServiceResponse {
    IsTFLActivated(bool),
    FinalBlockHeightHash(Option<(u32, BlockHash)>),
    SetFinalBlockHash(Option<u32>),
    BlockFinalityStatus(Option<TFLBlockFinality>),
    TxFinalityStatus(Option<TFLBlockFinality>),
    Roster(Vec<RosterMember>),
    FatPointerToBFTChainTip(FatPointerToBftBlock),
    StakingCmd(String),
    Faucet(Result<u64, String>),
    TotalIssuanceFromKey(Result<Vec<ScanInfo>, String>),
    FinalizersRecencyStatus(TFLRecencyStatus),
    WalletUfvk(Option<String>),
}

/// Why the service does not answer.
#[derive(Debug, PartialEq, Eq)]
pub enum TFLServiceError {
    NotImplemented,
    Misc(String),
}

impl TFLServiceError {
    pub open spec fn text(self) -> Seq<char> {
        match self {
            TFLServiceError::NotImplemented => "TFLServiceError: NotImplemented"@,
            TFLServiceError::Misc(m) => "TFLServiceError: Misc("@ + debug_quoted(m@) + ")"@,
        }
    }

    pub fn to_text(&self) -> (r: String)
        ensures
            r@ == self.text(),
    {
        match self {
            TFLServiceError::NotImplemented => "TFLServiceError: NotImplemented".to_owned(),
            TFLServiceError::Misc(m) => {
                let mut out = "TFLServiceError: Misc(".to_owned();
                out.append(debug_text(m.as_str()).as_str());
                out.append(")");
                out
            },
        }
    }
}

/// Whether a result is an error that says something.
pub open spec fn is_misc<T>(r: Result<T, TFLServiceError>, text: Seq<char>) -> bool {
    r matches Err(TFLServiceError::Misc(m)) && m@ == text
}

/// Whether the hash of the best chain's block at a height has to be looked up to tell whether a block is
/// final.
pub fn needs_best_hash(final_block: Option<(u32, BlockHash)>, height: u32) -> (r: bool)
    ensures
        r == (final_block matches Some((h, _)) && height < h),
{
    match final_block {
        Some((h, _)) => height < h,
        None => false,
    }
}

/// Whether a block with a height and a hash is final, by the hash that the best chain has at its height
/// or by why that is not known.
pub open spec fn is_finality_of(
    r: Result<Option<TFLBlockFinality>, TFLServiceError>,
    final_block: Option<(u32, BlockHash)>,
    height: u32,
    hash: BlockHash,
    best_hash: Result<BlockHash, String>,
) -> bool {
    match final_block {
        None => is_misc(r, "There is no final block."@),
        Some((h, final_hash)) => if height > h {
            r == Ok::<Option<TFLBlockFinality>, TFLServiceError>(
                Some(TFLBlockFinality::NotYetFinalized),
            )
        } else if height == h {
            r == Ok::<Option<TFLBlockFinality>, TFLServiceError>(
                Some(
                    if hash == final_hash {
                        TFLBlockFinality::Finalized
                    } else {
                        TFLBlockFinality::CantBeFinalized
                    },
                ),
            )
        } else {
            match best_hash {
                Ok(b) => r == Ok::<Option<TFLBlockFinality>, TFLServiceError>(
                    Some(
                        if hash == b {
                            TFLBlockFinality::Finalized
                        } else {
                            TFLBlockFinality::CantBeFinalized
                        },
                    ),
                ),
                Err(e) => is_misc(r, e@),
            }
        },
    }
}

/// Whether a block is final.
pub fn tfl_block_finality_from_height_hash(
    final_block: Option<(u32, BlockHash)>,
    height: u32,
    hash: &BlockHash,
    best_hash: &Result<BlockHash, String>,
) -> (r: Result<Option<TFLBlockFinality>, TFLServiceError>)
    ensures
        is_finality_of(r, final_block, height, *hash, *best_hash),
{
    let (final_height, final_hash) = match final_block {
        Some(v) => v,
        None => {
            return Err(TFLServiceError::Misc("There is no final block.".to_owned()));
        },
    };
    if height > final_height {
        return Ok(Some(TFLBlockFinality::NotYetFinalized));
    }
    let on_chain = if height == final_height {
        final_hash
    } else {
        match best_hash {
            Ok(b) => *b,
            Err(e) => {
                return Err(TFLServiceError::Misc(e.as_str().to_owned()));
            },
        }
    };
    Ok(
        Some(
            if bytes_eq(hash, &on_chain) {
                TFLBlockFinality::Finalized
            } else {
                TFLBlockFinality::CantBeFinalized
            },
        ),
    )
}

/// Whether the block of a transaction is final. A transaction that is not known has no answer.
pub open spec fn is_tx_finality(
    r: Result<Option<TFLBlockFinality>, TFLServiceError>,
    final_block: Option<(u32, BlockHash)>,
    tx_height: Option<u32>,
) -> bool {
    match tx_height {
        None => r == Ok::<Option<TFLBlockFinality>, TFLServiceError>(None),
        Some(t) => match final_block {
            None => is_misc(r, "There is no final block."@),
            Some((h, _)) => r == Ok::<Option<TFLBlockFinality>, TFLServiceError>(
                Some(
                    if t <= h {
                        TFLBlockFinality::Finalized
                    } else {
                        TFLBlockFinality::NotYetFinalized
                    },
                ),
            ),
        },
    }
}

pub fn tx_finality(final_block: Option<(u32, BlockHash)>, tx_height: Option<u32>) -> (r: Result<
    Option<TFLBlockFinality>,
    TFLServiceError,
>)
    ensures
        is_tx_finality(r, final_block, tx_height),
{
    match tx_height {
        None => Ok(None),
        Some(t) => match final_block {
            None => Err(TFLServiceError::Misc("There is no final block.".to_owned())),
            Some((h, _)) => Ok(
                Some(
                    if t <= h {
                        TFLBlockFinality::Finalized
                    } else {
                        TFLBlockFinality::NotYetFinalized
                    },
                ),
            ),
        },
    }
}

/// A block that is final stays final: where the final block moves up the best chain, the answer is the
/// same.
pub proof fn a_final_block_stays_final(
    r: Result<Option<TFLBlockFinality>, TFLServiceError>,
    q: Result<Option<TFLBlockFinality>, TFLServiceError>,
    before: (u32, BlockHash),
    after: (u32, BlockHash),
    height: u32,
    hash: BlockHash,
    best: spec_fn(u32) -> BlockHash,
)
    requires
        before.0 <= after.0,
        before.1 == best(before.0),
        after.1 == best(after.0),
        is_finality_of(r, Some(before), height, hash, Ok(best(height))),
        is_finality_of(q, Some(after), height, hash, Ok(best(height))),
        height <= before.0,
    ensures
        q == r,
{
}

/// The state of the service.
#[derive(Debug)]
pub struct TFLServiceInternal {
    pub my_public_key: Key,
    pub latest_final_block: Option<(u32, BlockHash)>,
    pub tfl_is_activated: bool,
    pub bft_msg_flags: u64,
    pub bft_err_flags: u64,
    pub bft_blocks: Vec<BftBlock>,
    pub fat_pointer_to_tip: FatPointerToBftBlock,
    pub peer_strings: Vec<String>,
    pub finalizers_at_current_height: Vec<RosterMember>,
    pub recency_status: TFLRecencyStatus,
    pub current_bc_final: Option<(u32, BlockHash)>,
}

/// What was looked up in the best chain for a request.
#[derive(Debug)]
pub struct Facts {
    /// The block below which the best chain is not expected to change.
    pub reorg_final: Option<(u32, BlockHash)>,
    /// The height of the block with the hash that was asked for.
    pub height_of_hash: Option<u32>,
    /// The hash of the block at the height that was asked for.
    pub best_hash: Result<BlockHash, String>,
    /// The height of the transaction that was asked for.
    pub tx_height: Option<u32>,
}

/// An answer to a request.
#[derive(Debug)]
pub enum Answer {
    Reply(TFLServiceResponse),
    Refused(TFLServiceError),
    /// The request is about something else than this state.
    Elsewhere,
}

/// Finalizers without the stakes behind them.
pub open spec fn without_stakes(s: Seq<MemberModel>) -> Seq<MemberModel> {
    Seq::new(s.len(), |i: int| MemberModel { txids: Seq::empty(), ..s[i] })
}

fn listed_finalizers(v: &Vec<RosterMember>) -> (r: Vec<RosterMember>)
    ensures
        members(r@) == without_stakes(members(v@)),
{
    let mut out: Vec<RosterMember> = Vec::new();
    let mut i: usize = 0;
    while i < v.len()
        invariant
            i <= v@.len(),
            members(out@) == without_stakes(members(v@)).take(i as int),
        decreases v@.len() - i,
    {
        let ghost before = members(out@);
        let m = RosterMember {
            pub_key: v[i].pub_key,
            voting_power: v[i].voting_power,
            txids: Vec::new(),
        };
        let ghost model = m@;
        assert(model =~= without_stakes(members(v@))[i as int]);
        out.push(m);
        assert(members(out@) =~= before.push(model));
        i += 1;
        assert(members(out@) =~= without_stakes(members(v@)).take(i as int));
    }
    assert(without_stakes(members(v@)).take(i as int) =~= without_stakes(members(v@)));
    out
}

impl TFLRecencyStatus {
    /// Whether this says the same as another.
    pub open spec fn same_as(&self, o: &TFLRecencyStatus) -> bool {
        &&& self.finalizer_statuses@ == o.finalizer_statuses@
        &&& *self == (TFLRecencyStatus { finalizer_statuses: self.finalizer_statuses, ..*o })
    }

    /// The same once more.
    pub fn copied(&self) -> (r: TFLRecencyStatus)
        ensures
            r.same_as(self),
    {
        let mut list: Vec<FinalizerRecencyStatus> = Vec::new();
        let mut i: usize = 0;
        while i < self.finalizer_statuses.len()
            invariant
                i <= self.finalizer_statuses@.len(),
                list@ == self.finalizer_statuses@.take(i as int),
            decreases self.finalizer_statuses@.len() - i,
        {
            list.push(self.finalizer_statuses[i]);
            i += 1;
            assert(list@ =~= self.finalizer_statuses@.take(i as int));
        }
        assert(self.finalizer_statuses@.take(i as int) =~= self.finalizer_statuses@);
        TFLRecencyStatus {
            now_utc: self.now_utc,
            my_height: self.my_height,
            my_round: self.my_round,
            my_step: self.my_step,
            my_locked_round: self.my_locked_round,
            my_valid_round: self.my_valid_round,
            finalizer_statuses: list,
        }
    }
}

/// How far what is final is behind the tip, or the tip behind what is final.
#[derive(Clone, Copy, Debug, PartialEq, Eq, Structural)]
pub enum FinalityGap {
    TipIsBehind(u32),
    FinalityIsBehind(u32),
    Small,
}

pub fn finality_gap(tip: u32, final_height: u32) -> (r: FinalityGap)
    ensures
        r == if tip < final_height {
            FinalityGap::TipIsBehind((final_height - tip) as u32)
        } else if tip - final_height > MAX_FINALITY_GAP {
            FinalityGap::FinalityIsBehind((tip - final_height) as u32)
        } else {
            FinalityGap::Small
        },
{
    if tip < final_height {
        FinalityGap::TipIsBehind(final_height - tip)
    } else if tip - final_height > MAX_FINALITY_GAP {
        FinalityGap::FinalityIsBehind(tip - final_height)
    } else {
        FinalityGap::Small
    }
}

impl TFLServiceInternal {
    /// The decided blocks form a chain that ends in the pointer to the tip.
    pub open spec fn wf(&self) -> bool {
        is_chain(chain(self.bft_blocks@), self.fat_pointer_to_tip@)
    }

    pub fn new(my_public_key: Key, finalizers: Vec<RosterMember>) -> (r: TFLServiceInternal)
        ensures
            r.wf(),
            r.my_public_key == my_public_key,
            r.finalizers_at_current_height == finalizers,
            r.latest_final_block is None,
            r.current_bc_final is None,
            !r.tfl_is_activated,
            r.bft_blocks@.len() == 0,
            r.bft_msg_flags == 0,
            r.bft_err_flags == 0,
            r.peer_strings@.len() == 0,
            r.recency_status.finalizer_statuses@.len() == 0,
    {
        TFLServiceInternal {
            my_public_key,
            latest_final_block: None,
            tfl_is_activated: false,
            bft_msg_flags: 0,
            bft_err_flags: 0,
            bft_blocks: Vec::new(),
            fat_pointer_to_tip: FatPointerToBftBlock::null(),
            peer_strings: Vec::new(),
            finalizers_at_current_height: finalizers,
            recency_status: TFLRecencyStatus {
                now_utc: 0,
                my_height: 0,
                my_round: 0,
                my_step: 0,
                my_locked_round: 0,
                my_valid_round: 0,
                finalizer_statuses: Vec::new(),
            },
            current_bc_final: None,
        }
    }

    /// Notes what the vote has come to.
    pub fn push_new_bft_msg_flags(&mut self, bft_msg_flags: u64, bft_err_flags: u64)
        ensures
            *final(self) == (TFLServiceInternal {
                bft_msg_flags: old(self).bft_msg_flags | bft_msg_flags,
                bft_err_flags: old(self).bft_err_flags | bft_err_flags,
                ..*old(self)
            }),
    {
        self.bft_msg_flags = self.bft_msg_flags | bft_msg_flags;
        self.bft_err_flags = self.bft_err_flags | bft_err_flags;
    }

    /// The final block: the one that was decided, or the one below which the best chain is not expected
    /// to change.
    pub open spec fn final_block(&self, reorg_final: Option<(u32, BlockHash)>) -> Option<
        (u32, BlockHash),
    > {
        if self.latest_final_block is Some {
            self.latest_final_block
        } else {
            reorg_final
        }
    }

    pub fn tfl_final_block_height_hash(&self, reorg_final: Option<(u32, BlockHash)>) -> (r: Option<
        (u32, BlockHash),
    >)
        ensures
            r == self.final_block(reorg_final),
    {
        match self.latest_final_block {
            Some(v) => Some(v),
            None => reorg_final,
        }
    }

    /// Makes a block final, if the service is active and the block's height is known. The height.
    pub fn tfl_set_finality_by_hash(&mut self, hash: BlockHash, height: Option<u32>) -> (r: Option<u32>)
        ensures
            r == if old(self).tfl_is_activated {
                height
            } else {
                None
            },
            *final(self) == match r {
                Some(h) => (TFLServiceInternal {
                    latest_final_block: Some((h, hash)),
                    ..*old(self)
                }),
                None => *old(self),
            },
    {
        if !self.tfl_is_activated {
            return None;
        }
        if let Some(h) = height {
            self.latest_final_block = Some((h, hash));
        }
        height
    }

    /// Activates the service once the tip is high enough. Whether there is something to do.
    pub fn activate(&mut self, tip: Option<u32>) -> (r: bool)
        ensures
            *final(self) == (TFLServiceInternal {
                tfl_is_activated: old(self).tfl_is_activated || (tip matches Some(h) && h
                    >= TFL_ACTIVATION_HEIGHT),
                ..*old(self)
            }),
            r == (old(self).tfl_is_activated || !(tip matches Some(h) && h < TFL_ACTIVATION_HEIGHT)),
    {
        if !self.tfl_is_activated {
            if let Some(h) = tip {
                if h < TFL_ACTIVATION_HEIGHT {
                    return false;
                }
                self.tfl_is_activated = true;
            }
        }
        true
    }

    /// Takes a decided block: it becomes the tip, and the block that it confirms becomes final.
    pub fn take_decided_block(
        &mut self,
        new_block: BftBlock,
        fat_pointer: FatPointerToBftBlock,
        new_final_height: u32,
        hardforks: &Vec<HardForkConfig>,
    )
        requires
            fat_pointer.points_at == new_block.hash,
            may_follow(
                new_block@,
                chain(old(self).bft_blocks@),
                old(self).fat_pointer_to_tip@,
                forks(hardforks@),
            ),
            new_block.headers@.len() > 0,
            old(self).bft_blocks@.len() > 0 ==> old(self).bft_blocks@.last().hash
                == new_block.previous_block_fat_ptr.points_at && !is_no_hash(
                new_block.previous_block_fat_ptr.points_at,
            ),
        ensures
            final(self).bft_blocks@ == old(self).bft_blocks@.push(new_block),
            *final(self) == (TFLServiceInternal {
                bft_blocks: final(self).bft_blocks,
                fat_pointer_to_tip: fat_pointer,
                latest_final_block: Some((new_final_height, new_block.headers@[0])),
                ..*old(self)
            }),
            old(self).wf() ==> final(self).wf(),
    {
        let new_final_hash = new_block.headers[0];
        let ghost s = chain(self.bft_blocks@);
        let ghost tip = self.fat_pointer_to_tip@;
        let ghost b = new_block@;
        let ghost to = fat_pointer@;
        self.bft_blocks.push(new_block);
        self.fat_pointer_to_tip = fat_pointer;
        self.latest_final_block = Some((new_final_height, new_final_hash));
        proof {
            assert(chain(self.bft_blocks@) =~= s.push(b));
            if old(self).wf() {
                a_chain_grows(s, tip, b, to, forks(hardforks@));
            }
        }
    }

    /// Takes the stakes that count from a decided block on. Where there are none, those from the start
    /// are kept.
    pub fn take_stakes(&mut self, stakes: &Vec<(Key, u64)>)
        requires
            stakes@.len() == 0 ==> forall|i: int|
                0 <= i < old(self).finalizers_at_current_height@.len() ==> (
                #[trigger] old(self).finalizers_at_current_height@[i]).voting_power <= 1,
        ensures
            members(final(self).finalizers_at_current_height@) == if stakes@.len() > 0 {
                staked(stakes@)
            } else {
                members(old(self).finalizers_at_current_height@)
            },
            *final(self) == (TFLServiceInternal {
                finalizers_at_current_height: final(self).finalizers_at_current_height,
                ..*old(self)
            }),
    {
        if stakes.len() > 0 {
            let mut list: Vec<RosterMember> = Vec::new();
            let mut i: usize = 0;
            while i < stakes.len()
                invariant
                    i <= stakes@.len(),
                    members(list@) == staked(stakes@).take(i as int),
                decreases stakes@.len() - i,
            {
                let ghost before = members(list@);
                let m = RosterMember {
                    pub_key: stakes[i].0,
                    voting_power: stakes[i].1,
                    txids: Vec::new(),
                };
                let ghost model = m@;
                assert(model =~= staked(stakes@)[i as int]);
                list.push(m);
                assert(members(list@) =~= before.push(model));
                i += 1;
                assert(members(list@) =~= staked(stakes@).take(i as int));
            }
            assert(staked(stakes@).take(i as int) =~= staked(stakes@));
            self.finalizers_at_current_height = list;
        }
    }

    /// The roster of those who vote on the next block, once a height of the best chain is final.
    pub fn next_roster(&self, hardforks: &Vec<HardForkConfig>, final_height: u32) -> (r: Vec<
        SortedRosterMember,
    >)
        requires
            total_stake(
                voters_at(
                    members(self.finalizers_at_current_height@),
                    forks(hardforks@),
                    self.bft_blocks@.len() as u64,
                    final_height as u64,
                ),
            ) <= u64::MAX,
        ensures
            is_roster_of(
                r@,
                voters_at(
                    members(self.finalizers_at_current_height@),
                    forks(hardforks@),
                    self.bft_blocks@.len() as u64,
                    final_height as u64,
                ),
            ),
    {
        let n: usize = self.bft_blocks.len();
        assert(n == self.bft_blocks@.len());
        roster_at(&self.finalizers_at_current_height, hardforks, n as u64, final_height as u64)
    }

    /// Starts with a chain that was replayed, and with what it makes final.
    pub fn start_with(&mut self, replay: Replay, final_block: Option<(u32, BlockHash)>)
        ensures
            *final(self) == (TFLServiceInternal {
                bft_blocks: replay.bft_blocks,
                fat_pointer_to_tip: replay.fat_pointer_to_tip,
                finalizers_at_current_height: replay.roster,
                current_bc_final: if final_block matches Some((_, h)) && !is_no_hash(h) {
                    final_block
                } else {
                    old(self).current_bc_final
                },
                latest_final_block: if final_block matches Some((_, h)) && !is_no_hash(h) {
                    final_block
                } else {
                    old(self).latest_final_block
                },
                ..*old(self)
            }),
    {
        let Replay { rounds: _, bft_blocks, fat_pointer_to_tip, roster } = replay;
        self.bft_blocks = bft_blocks;
        self.fat_pointer_to_tip = fat_pointer_to_tip;
        self.finalizers_at_current_height = roster;
        if let Some((height, hash)) = final_block {
            let zeros = [0u8; 32];
            assert(zeros@ =~= Seq::new(32, |i: int| 0u8));
            proof {
                if is_no_hash(hash) {
                    assert(hash =~= zeros);
                }
            }
            if !bytes_eq(&hash, &zeros) {
                self.current_bc_final = Some((height, hash));
                self.latest_final_block = Some((height, hash));
            }
        }
    }

    /// Answers a request that is about this state, with what was looked up for it.
    pub fn answer(&mut self, request: &TFLServiceRequest, facts: &Facts) -> (r: Answer)
        ensures
            !(request is SetFinalBlockHash) ==> *final(self) == *old(self),
            match *request {
                TFLServiceRequest::IsTFLActivated => r matches Answer::Reply(
                    TFLServiceResponse::IsTFLActivated(b),
                ) && b == old(self).tfl_is_activated,
                TFLServiceRequest::FinalBlockHeightHash => r matches Answer::Reply(
                    TFLServiceResponse::FinalBlockHeightHash(v),
                ) && v == old(self).final_block(facts.reorg_final),
                TFLServiceRequest::SetFinalBlockHash(hash) => {
                    &&& r matches Answer::Reply(TFLServiceResponse::SetFinalBlockHash(v)) && v
                        == if old(self).tfl_is_activated {
                        facts.height_of_hash
                    } else {
                        None
                    }
                    &&& *final(self) == match facts.height_of_hash {
                        Some(h) if old(self).tfl_is_activated => (TFLServiceInternal {
                            latest_final_block: Some((h, hash)),
                            ..*old(self)
                        }),
                        _ => *old(self),
                    }
                },
                TFLServiceRequest::BlockFinalityStatus(height, hash) => match r {
                    Answer::Reply(TFLServiceResponse::BlockFinalityStatus(v)) => is_finality_of(
                        Ok(v),
                        old(self).final_block(facts.reorg_final),
                        height,
                        hash,
                        facts.best_hash,
                    ),
                    Answer::Refused(e) => is_finality_of(
                        Err(e),
                        old(self).final_block(facts.reorg_final),
                        height,
                        hash,
                        facts.best_hash,
                    ),
                    _ => false,
                },
                TFLServiceRequest::TxFinalityStatus(_) => match r {
                    Answer::Reply(TFLServiceResponse::TxFinalityStatus(v)) => is_tx_finality(
                        Ok(v),
                        old(self).final_block(facts.reorg_final),
                        facts.tx_height,
                    ),
                    Answer::Refused(e) => is_tx_finality(
                        Err(e),
                        old(self).final_block(facts.reorg_final),
                        facts.tx_height,
                    ),
                    _ => false,
                },
                TFLServiceRequest::Roster => r matches Answer::Reply(
                    TFLServiceResponse::Roster(v),
                ) && members(v@) == without_stakes(
                    members(old(self).finalizers_at_current_height@),
                ),
                TFLServiceRequest::FatPointerToBFTChainTip(h) => r matches Answer::Reply(
                    TFLServiceResponse::FatPointerToBFTChainTip(p),
                ) && is_pointer_for(
                    p@,
                    chain(old(self).bft_blocks@),
                    old(self).fat_pointer_to_tip@,
                    h,
                ),
                TFLServiceRequest::FinalizersRecencyStatus => r matches Answer::Reply(
                    TFLServiceResponse::FinalizersRecencyStatus(s),
                ) && s.same_as(&old(self).recency_status),
                _ => r is Elsewhere,
            },
    {
        match request {
            TFLServiceRequest::IsTFLActivated => Answer::Reply(
                TFLServiceResponse::IsTFLActivated(self.tfl_is_activated),
            ),
            TFLServiceRequest::FinalBlockHeightHash => Answer::Reply(
                TFLServiceResponse::FinalBlockHeightHash(
                    self.tfl_final_block_height_hash(facts.reorg_final),
                ),
            ),
            TFLServiceRequest::SetFinalBlockHash(hash) => Answer::Reply(
                TFLServiceResponse::SetFinalBlockHash(
                    self.tfl_set_finality_by_hash(*hash, facts.height_of_hash),
                ),
            ),
            TFLServiceRequest::BlockFinalityStatus(height, hash) => {
                let final_block = self.tfl_final_block_height_hash(facts.reorg_final);
                match tfl_block_finality_from_height_hash(
                    final_block,
                    *height,
                    hash,
                    &facts.best_hash,
                ) {
                    Ok(v) => Answer::Reply(TFLServiceResponse::BlockFinalityStatus(v)),
                    Err(e) => Answer::Refused(e),
                }
            },
            TFLServiceRequest::TxFinalityStatus(_) => {
                let final_block = self.tfl_final_block_height_hash(facts.reorg_final);
                match tx_finality(final_block, facts.tx_height) {
                    Ok(v) => Answer::Reply(TFLServiceResponse::TxFinalityStatus(v)),
                    Err(e) => Answer::Refused(e),
                }
            },
            TFLServiceRequest::Roster => Answer::Reply(
                TFLServiceResponse::Roster(listed_finalizers(&self.finalizers_at_current_height)),
            ),
            TFLServiceRequest::FatPointerToBFTChainTip(h) => Answer::Reply(
                TFLServiceResponse::FatPointerToBFTChainTip(
                    fat_pointer_for(&self.bft_blocks, &self.fat_pointer_to_tip, *h),
                ),
            ),
            TFLServiceRequest::FinalizersRecencyStatus => Answer::Reply(
                TFLServiceResponse::FinalizersRecencyStatus(self.recency_status.copied()),
            ),
            _ => Answer::Elsewhere,
        }
    }
}

/// Stakes as finalizers.
pub open spec fn staked(s: Seq<(Key, u64)>) -> Seq<MemberModel> {
    Seq::new(
        s.len(),
        |i: int| MemberModel { pub_key: s[i].0, voting_power: s[i].1, txids: Seq::empty() },
    )
}

/// A block is final exactly where it is not above the final block and stands in the best chain, it cannot
/// become final where another block stands there, and it may become final where it is above. Without a
/// final block there is no answer.
pub proof fn a_block_is_final_in_the_best_chain_only(
    r: Result<Option<TFLBlockFinality>, TFLServiceError>,
    final_block: Option<(u32, BlockHash)>,
    height: u32,
    hash: BlockHash,
    best: spec_fn(u32) -> BlockHash,
)
    requires
        final_block matches Some((h, f)) ==> f == best(h),
        is_finality_of(r, final_block, height, hash, Ok(best(height))),
    ensures
        final_block is None <==> r is Err,
        final_block matches Some((h, _)) ==> {
            &&& r is Ok && r->Ok_0 is Some
            &&& r->Ok_0->Some_0 is Finalized <==> height <= h && hash == best(height)
            &&& r->Ok_0->Some_0 is CantBeFinalized <==> height <= h && hash != best(height)
            &&& r->Ok_0->Some_0 is NotYetFinalized <==> height > h
        },
{
}

/// A transaction of the best chain is as final as its block is.
pub proof fn a_transaction_is_as_final_as_its_block(
    r: Result<Option<TFLBlockFinality>, TFLServiceError>,
    q: Result<Option<TFLBlockFinality>, TFLServiceError>,
    final_block: (u32, BlockHash),
    height: u32,
    best: spec_fn(u32) -> BlockHash,
)
    requires
        final_block.1 == best(final_block.0),
        is_tx_finality(r, Some(final_block), Some(height)),
        is_finality_of(q, Some(final_block), height, best(height), Ok(best(height))),
    ensures
        r == q,
        is_tx_finality(r, Some(final_block), None) ==> r->Ok_0 is None,
{
}

/// What was decided is final, whatever the best chain alone would say; only where nothing was decided does
/// the best chain say what is.
pub proof fn what_was_decided_is_final(s: &TFLServiceInternal, reorg_final: Option<(u32, BlockHash)>)
    ensures
        s.latest_final_block is Some ==> s.final_block(reorg_final) == s.latest_final_block,
        s.latest_final_block is None ==> s.final_block(reorg_final) == reorg_final,
{
}

/// The finalizers that are listed, or that stakes make, are the same ones in the same order, each with its
/// key and its voting power.
pub proof fn finalizers_keep_their_power(s: Seq<MemberModel>, stakes: Seq<(Key, u64)>, i: int)
    ensures
        without_stakes(s).len() == s.len(),
        0 <= i < s.len() ==> without_stakes(s)[i].pub_key == s[i].pub_key
            && without_stakes(s)[i].voting_power == s[i].voting_power,
        staked(stakes).len() == stakes.len(),
        0 <= i < stakes.len() ==> staked(stakes)[i].pub_key == stakes[i].0
            && staked(stakes)[i].voting_power == stakes[i].1,
{
}

} // verus!
