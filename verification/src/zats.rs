//! Amounts of money.
use vstd::prelude::*;

verus! {

/// The zatoshis in one coin.
pub const COIN: u64 = 100_000_000;

/// The largest amount that can exist, in zatoshis.
pub const MAX_MONEY: u64 = 2_100_000_000_000_000;

/// An amount of zatoshis.
#[derive(Clone, Copy, Debug, PartialEq, Eq, Structural, PartialOrd, Ord, Hash)]
pub struct Zatoshis {
    pub zats: u64,
}

/// `Zatoshis::from_u64` of `zcash_protocol`: an amount is accepted up to the largest that can
/// exist, and keeps its value.
#[verifier::external_body]
fn zatoshis_from_u64(v: u64) -> (r: Option<u64>)
    ensures
        r == (if v <= MAX_MONEY { Some(v) } else { None }),
{
    zcash_protocol::value::Zatoshis::from_u64(v).ok().map(|z| z.into_u64())
}

/// The sum of two `Zatoshis` of `zcash_protocol`: it exists where it is at most the largest
/// amount. Numbers over that amount are none, and have no sum.
#[verifier::external_body]
fn zatoshis_sum(a: u64, b: u64) -> (r: Option<u64>)
    ensures
        r == (if a + b <= MAX_MONEY { Some((a + b) as u64) } else { None }),
{
    let a = zcash_protocol::value::Zatoshis::from_u64(a).ok()?;
    let b = zcash_protocol::value::Zatoshis::from_u64(b).ok()?;
    (a + b).map(|z| z.into_u64())
}

impl Zatoshis {
    /// Whether the amount can exist.
    pub open spec fn wf(self) -> bool {
        self.zats <= MAX_MONEY
    }

    /// Nothing.
    pub fn zero() -> (r: Zatoshis)
        ensures
            r.zats == 0,
    {
        Zatoshis { zats: 0 }
    }

    /// The amount of `v` zatoshis, if it can exist.
    pub fn from_u64(v: u64) -> (r: Option<Zatoshis>)
        ensures
            r == (if v <= MAX_MONEY { Some(Zatoshis { zats: v }) } else { None }),
    {
        match zatoshis_from_u64(v) {
            Some(zats) => Some(Zatoshis { zats }),
            None => None,
        }
    }

    pub fn into_u64(self) -> (r: u64)
        ensures
            r == self.zats,
    {
        self.zats
    }

    /// The sum of two amounts, where it can exist.
    pub open spec fn plus(self, b: Zatoshis) -> Option<Zatoshis> {
        if self.zats + b.zats <= MAX_MONEY {
            Some(Zatoshis { zats: (self.zats + b.zats) as u64 })
        } else {
            None
        }
    }

    pub fn checked_sum(self, b: Zatoshis) -> (r: Option<Zatoshis>)
        ensures
            r == self.plus(b),
    {
        match zatoshis_sum(self.zats, b.zats) {
            Some(zats) => Some(Zatoshis { zats }),
            None => None,
        }
    }
}

} // verus!
