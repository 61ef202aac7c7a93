//! Requests that wait to be taken up.
use crate::addresses::{any_address, AddressKind};
use crate::bytes::bytes_eq;
use crate::network::NetworkType;
use crate::staking::PendingStake;
use vstd::prelude::*;

verus! {

/// How many requests can wait.
pub const QUEUE_LEN: usize = 16;

/// What the faucet gives, in zatoshis.
pub const FAUCET_VALUE: u64 = 50_000_000;

/// Requests in the order in which they came, in a ring of slots. The offsets count up without end and
/// wrap around.
#[derive(Debug)]
pub struct Ring<T> {
    pub read_o: u8,
    pub write_o: u8,
    pub data: [Option<T>; 16],
}

impl<T: Copy> Ring<T> {
    /// How many requests wait.
    pub open spec fn count(&self) -> nat {
        if self.write_o >= self.read_o {
            (self.write_o - self.read_o) as nat
        } else {
            (self.write_o + 256 - self.read_o) as nat
        }
    }

    /// The slot of the request that is `i` behind the first.
    pub open spec fn slot(&self, i: int) -> int {
        (self.read_o + i) % 16
    }

    /// There are no more requests than slots, and each waiting request is in its slot.
    pub open spec fn wf(&self) -> bool {
        &&& self.count() <= 16
        &&& forall|i: int| 0 <= i < self.count() ==> (#[trigger] self.data@[self.slot(i)]) is Some
    }

    /// The requests, the first first.
    pub open spec fn items(&self) -> Seq<T> {
        Seq::new(self.count(), |i: int| self.data@[self.slot(i)]->Some_0)
    }

    pub fn new() -> (r: Ring<T>)
        ensures
            r.wf(),
            r.items() == Seq::<T>::empty(),
    {
        let r = Ring { read_o: 0, write_o: 0, data: [None; 16] };
        assert(r.items() =~= Seq::<T>::empty());
        r
    }

    pub fn len(&self) -> (r: usize)
        ensures
            r == self.count(),
    {
        self.write_o.wrapping_sub(self.read_o) as usize
    }

    /// The request that is `i` behind the first.
    pub fn get(&self, i: usize) -> (r: Option<T>)
        requires
            self.wf(),
            i < self.count(),
        ensures
            r == Some(self.items()[i as int]),
    {
        let k: usize = (self.read_o as usize + i) % 16;
        assert(self.data@[self.slot(i as int)] is Some);
        self.data[k]
    }

    /// Puts a request behind the others, unless there is no slot for it.
    pub fn push(&mut self, x: T) -> (r: bool)
        requires
            old(self).wf(),
        ensures
            final(self).wf(),
            r == (old(self).count() < 16),
            r ==> final(self).items() == old(self).items().push(x),
            !r ==> final(self).items() == old(self).items(),
    {
        if self.len() == QUEUE_LEN {
            return false;
        }
        let n: usize = self.len();
        let k: usize = self.write_o as usize % 16;
        assert(k == self.slot(n as int)) by {
            assert(self.write_o == (self.read_o + n) % 256);
            assert((self.read_o + n) % 256 % 16 == (self.read_o + n) % 16);
        }
        self.write_o = self.write_o.wrapping_add(1);
        self.data[k] = Some(x);
        proof {
            assert(self.count() == n + 1);
            assert forall|i: int| 0 <= i < self.count() implies (#[trigger] self.data@[self.slot(
                i,
            )]) is Some by {
                if i < n {
                    lemma_slots_differ(self.read_o as int, i, n as int);
                    assert(old(self).data@[old(self).slot(i)] is Some);
                }
            }
            assert forall|i: int| 0 <= i < n implies self.items()[i] == old(self).items()[i] by {
                lemma_slots_differ(self.read_o as int, i, n as int);
            }
            assert(self.items() =~= old(self).items().push(x));
        }
        true
    }

    /// Takes the first request off.
    pub fn pop(&mut self) -> (r: Option<T>)
        requires
            old(self).wf(),
        ensures
            final(self).wf(),
            old(self).count() == 0 ==> r is None && final(self).items() == old(self).items(),
            old(self).count() > 0 ==> r == Some(old(self).items()[0]) && final(self).items() == old(
                self,
            ).items().skip(1),
    {
        if self.len() == 0 {
            return None;
        }
        let x = self.get(0);
        self.read_o = self.read_o.wrapping_add(1);
        proof {
            assert(self.count() == old(self).count() - 1);
            assert forall|i: int| 0 <= i < self.count() implies self.slot(i) == old(self).slot(
                i + 1,
            ) by {
                assert((old(self).read_o + 1) % 256 == self.read_o);
                assert(((old(self).read_o + 1) % 256 + i) % 16 == (old(self).read_o + 1 + i) % 16);
            }
            assert forall|i: int| 0 <= i < self.count() implies (#[trigger] self.data@[self.slot(
                i,
            )]) is Some by {
                assert(old(self).data@[old(self).slot(i + 1)] is Some);
            }
            assert(self.items() =~= old(self).items().skip(1));
        }
        x
    }
}

proof fn lemma_slots_differ(read: int, i: int, n: int)
    requires
        0 <= i < n < 16,
        0 <= read < 256,
    ensures
        (read + i) % 16 != (read + n) % 16,
{
}

/// The addresses that wait for money from the faucet.
pub type FaucetQ = Ring<[u8; 43]>;

/// The stakes that wait to be placed.
pub type StakeQ = Ring<PendingStake>;

/// Why the faucet refuses a request, if it does.
pub open spec fn faucet_refusal(q: Seq<[u8; 43]>, ua: AddressKind) -> Option<Seq<char>> {
    match ua {
        AddressKind::Invalid => Some("couldn't decode address"@),
        AddressKind::Other => Some("must be an orchard-containing UA"@),
        AddressKind::Unified(None) => Some("must contain an orchard receiver"@),
        AddressKind::Unified(Some(addr)) => if q.len() == 16 {
            Some("faucet too busy, come back later"@)
        } else if q.contains(addr) {
            Some("the last request for this address is still pending, come back later"@)
        } else {
            None
        },
    }
}

/// Asks the faucet for money for an address that was looked up. What it gives, or why it gives
/// nothing.
pub fn enqueue_faucet(q: &mut FaucetQ, ua: &AddressKind) -> (r: Result<u64, &'static str>)
    requires
        old(q).wf(),
    ensures
        final(q).wf(),
        match faucet_refusal(old(q).items(), *ua) {
            Some(why) => (r matches Err(e) && e@ == why) && final(q).items() == old(q).items(),
            None => r == Ok::<u64, &'static str>(FAUCET_VALUE) && (*ua matches AddressKind::Unified(
                Some(addr),
            ) && final(q).items() == old(q).items().push(addr)),
        },
{
    let addr = match ua {
        AddressKind::Invalid => {
            return Err("couldn't decode address");
        },
        AddressKind::Other => {
            return Err("must be an orchard-containing UA");
        },
        AddressKind::Unified(None) => {
            return Err("must contain an orchard receiver");
        },
        AddressKind::Unified(Some(addr)) => *addr,
    };
    let n: usize = q.len();
    if n == QUEUE_LEN {
        return Err("faucet too busy, come back later");
    }
    let mut i: usize = 0;
    while i < n
        invariant
            i <= n == q.count(),
            q.wf(),
            *q == *old(q),
            n != 16,
            *ua == AddressKind::Unified(Some(addr)),
            forall|k: int| 0 <= k < i ==> #[trigger] q.items()[k] != addr,
        decreases n - i,
    {
        if let Some(existing) = q.get(i) {
            if bytes_eq(&existing, &addr) {
                assert(q.items()[i as int] == addr);
                return Err("the last request for this address is still pending, come back later");
            }
        }
        i += 1;
    }
    let _ = q.push(addr);
    Ok(FAUCET_VALUE)
}

/// Asks the faucet for money for an address. What it gives, or why it gives nothing.
pub fn request_donation(q: &mut FaucetQ, net: NetworkType, ua_str: &str) -> (r: Result<
    u64,
    &'static str,
>)
    requires
        old(q).wf(),
    ensures
        final(q).wf(),
        match faucet_refusal(
            old(q).items(),
            crate::addresses::kind_of(net == NetworkType::Main, ua_str@),
        ) {
            Some(why) => (r matches Err(e) && e@ == why) && final(q).items() == old(q).items(),
            None => r == Ok::<u64, &'static str>(FAUCET_VALUE) && final(q).items() == old(
                q,
            ).items().push(
                crate::addresses::kind_of(
                    net == NetworkType::Main,
                    ua_str@,
                )->Unified_0->Some_0,
            ),
        },
{
    let ua = any_address(net, ua_str);
    enqueue_faucet(q, &ua)
}

/// Asks for a stake. Why it is refused, if it is.
pub fn request_stake(q: &mut StakeQ, amount_zats: u64, finalizer: [u8; 32]) -> (r: Result<
    (),
    &'static str,
>)
    requires
        old(q).wf(),
    ensures
        final(q).wf(),
        amount_zats == 0 ==> (r matches Err(e) && e@ == "amount_zats must be > 0"@),
        amount_zats != 0 && old(q).items().len() == 16 ==> (r matches Err(e) && e@
            == "stake queue full, come back later"@),
        r is Err ==> final(q).items() == old(q).items(),
        r is Ok ==> final(q).items() == old(q).items().push(
            (PendingStake { amount_zats, finalizer }),
        ),
        r is Ok == (amount_zats != 0 && old(q).items().len() < 16),
{
    if amount_zats == 0 {
        return Err("amount_zats must be > 0");
    }
    if q.push(PendingStake { amount_zats, finalizer }) {
        Ok(())
    } else {
        Err("stake queue full, come back later")
    }
}

/// No address ever waits twice: where none does, none does after a request either.
pub proof fn no_address_waits_twice(q: Seq<[u8; 43]>, addr: [u8; 43])
    requires
        q.no_duplicates(),
        faucet_refusal(q, AddressKind::Unified(Some(addr))) is None,
    ensures
        q.push(addr).no_duplicates(),
        q.push(addr).len() <= 16 || q.len() > 16,
{
    let r = q.push(addr);
    assert forall|i: int, j: int| 0 <= i < r.len() && 0 <= j < r.len() && i != j implies r[i]
        != r[j] by {
        if i == q.len() {
            assert(q.contains(q[j]));
        }
        if j == q.len() {
            assert(q.contains(q[i]));
        }
    }
}

/// The faucet refuses exactly what is no unified address with an orchard receiver, what comes while the
/// queue is full, and an address that waits.
pub proof fn the_faucet_refuses_nothing_else(q: Seq<[u8; 43]>, ua: AddressKind)
    ensures
        faucet_refusal(q, ua) is None <==> (ua matches AddressKind::Unified(Some(addr)) && q.len() != 16
            && !q.contains(addr)),
{
}

} // verus!
