//! Hardforks that users schedule, and what follows from the schedule.
use crate::byte_map::Key;
use crate::bytes::{bytes_eq, push_all};
use vstd::prelude::*;

verus! {

/// A hardfork of the schedule.
#[derive(Debug)]
pub struct HardForkConfig {
    /// The height of the BFT block that carries it.
    pub bft_certificate_height: u64,
    /// The height of the first block of the best chain that it rules.
    pub pow_activation_height: u64,
    /// The finalizers that it terminates.
    pub terminated_finalizers: Vec<Key>,
    /// Its serialization.
    pub bytes: Vec<u8>,
}

/// What a hardfork is.
#[verifier::ext_equal]
pub struct HardFork {
    pub bft_certificate_height: u64,
    pub pow_activation_height: u64,
    pub terminated_finalizers: Seq<Key>,
    pub bytes: Seq<u8>,
}

impl View for HardForkConfig {
    type V = HardFork;

    open spec fn view(&self) -> HardFork {
        HardFork {
            bft_certificate_height: self.bft_certificate_height,
            pow_activation_height: self.pow_activation_height,
            terminated_finalizers: self.terminated_finalizers@,
            bytes: self.bytes@,
        }
    }
}

/// What some hardforks are.
pub open spec fn forks(s: Seq<HardForkConfig>) -> Seq<HardFork> {
    Seq::new(s.len(), |i: int| s[i]@)
}

/// Whether a hardfork terminates finalizers at a BFT height: it is carried there or before, and the
/// block that it starts to rule is not final yet.
pub open spec fn terminates(f: HardFork, bft_height: u64, finalized_bc_height: u64) -> bool {
    f.bft_certificate_height <= bft_height && f.pow_activation_height > finalized_bc_height
}

/// Whether a finalizer is terminated at a BFT height.
pub open spec fn is_terminated(
    s: Seq<HardFork>,
    bft_height: u64,
    finalized_bc_height: u64,
    key: Key,
) -> bool {
    exists|i: int|
        0 <= i < s.len() && terminates(#[trigger] s[i], bft_height, finalized_bc_height)
            && s[i].terminated_finalizers.contains(key)
}

/// Whether a list holds a key.
pub fn holds_key(keys: &Vec<Key>, key: &Key) -> (r: bool)
    ensures
        r == keys@.contains(*key),
{
    let mut i: usize = 0;
    while i < keys.len()
        invariant
            i <= keys@.len(),
            forall|k: int| 0 <= k < i ==> keys@[k] != *key,
        decreases keys@.len() - i,
    {
        if bytes_eq(&keys[i], key) {
            assert(keys@[i as int] == *key);
            return true;
        }
        i += 1;
    }
    false
}

/// The finalizers that are terminated at a BFT height, each once.
pub fn terminated_finalizers_at(
    hardforks: &Vec<HardForkConfig>,
    bft_height: u64,
    finalized_bc_height: u64,
) -> (r: Vec<Key>)
    ensures
        r@.no_duplicates(),
        forall|key: Key| #[trigger]
            r@.contains(key) <==> is_terminated(
                forks(hardforks@),
                bft_height,
                finalized_bc_height,
                key,
            ),
{
    let mut set: Vec<Key> = Vec::new();
    let ghost all = forks(hardforks@);
    let mut i: usize = 0;
    while i < hardforks.len()
        invariant
            i <= hardforks@.len(),
            all == forks(hardforks@),
            set@.no_duplicates(),
            forall|key: Key| #[trigger]
                set@.contains(key) <==> is_terminated(
                    all.take(i as int),
                    bft_height,
                    finalized_bc_height,
                    key,
                ),
        decreases hardforks@.len() - i,
    {
        let hf = &hardforks[i];
        let ghost before = set@;
        let ghost gone = hf.terminated_finalizers@;
        let ghost applies = terminates(all[i as int], bft_height, finalized_bc_height);
        if hf.bft_certificate_height <= bft_height && hf.pow_activation_height > finalized_bc_height {
            let mut j: usize = 0;
            assert(gone.take(0) =~= seq![]);
            while j < hf.terminated_finalizers.len()
                invariant
                    j <= hf.terminated_finalizers@.len(),
                    gone == hf.terminated_finalizers@,
                    set@.no_duplicates(),
                    forall|key: Key| #[trigger]
                        set@.contains(key) <==> before.contains(key) || gone.take(
                            j as int,
                        ).contains(key),
                decreases hf.terminated_finalizers@.len() - j,
            {
                let key = hf.terminated_finalizers[j];
                let ghost old_set = set@;
                if !holds_key(&set, &key) {
                    set.push(key);
                }
                proof {
                    assert forall|k: Key| #[trigger] set@.contains(k) <==> before.contains(k)
                        || gone.take(j + 1).contains(k) by {
                        lemma_push_contains(gone.take(j as int), key, k);
                        assert(gone.take(j + 1) =~= gone.take(j as int).push(key));
                        lemma_push_contains(old_set, key, k);
                    }
                }
                j += 1;
            }
            assert(gone.take(j as int) =~= gone);
        }
        proof {
            let now = all.take(i + 1);
            assert(now =~= all.take(i as int).push(all[i as int]));
            assert forall|key: Key| #[trigger] set@.contains(key) <==> is_terminated(
                now,
                bft_height,
                finalized_bc_height,
                key,
            ) by {
                lemma_one_more(all.take(i as int), all[i as int], bft_height, finalized_bc_height, key);
            }
        }
        i += 1;
    }
    assert(all.take(i as int) =~= all);
    set
}

proof fn lemma_push_contains(s: Seq<Key>, x: Key, k: Key)
    ensures
        s.push(x).contains(k) <==> s.contains(k) || k == x,
{
    if s.contains(k) {
        let i = choose|i: int| 0 <= i < s.len() && s[i] == k;
        assert(s.push(x)[i] == k);
    }
    if k == x {
        assert(s.push(x)[s.len() as int] == k);
    }
}

proof fn lemma_one_more(s: Seq<HardFork>, f: HardFork, bft_height: u64, bc_height: u64, key: Key)
    ensures
        is_terminated(s.push(f), bft_height, bc_height, key) <==> is_terminated(
            s,
            bft_height,
            bc_height,
            key,
        ) || (terminates(f, bft_height, bc_height) && f.terminated_finalizers.contains(key)),
{
    let t = s.push(f);
    if is_terminated(s, bft_height, bc_height, key) {
        let i = choose|i: int|
            0 <= i < s.len() && terminates(#[trigger] s[i], bft_height, bc_height)
                && s[i].terminated_finalizers.contains(key);
        assert(t[i] == s[i]);
    }
    if terminates(f, bft_height, bc_height) && f.terminated_finalizers.contains(key) {
        assert(t[s.len() as int] == f);
    }
    if is_terminated(t, bft_height, bc_height, key) {
        let i = choose|i: int|
            0 <= i < t.len() && terminates(#[trigger] t[i], bft_height, bc_height)
                && t[i].terminated_finalizers.contains(key);
        if i < s.len() {
            assert(s[i] == t[i]);
        }
    }
}

/// Once the block that the last of the hardforks starts to rule is final, no finalizer is suppressed any
/// more.
pub proof fn finality_ends_the_termination(
    s: Seq<HardFork>,
    bft_height: u64,
    finalized_bc_height: u64,
    key: Key,
)
    requires
        forall|i: int|
            0 <= i < s.len() ==> (#[trigger] s[i]).pow_activation_height <= finalized_bc_height,
    ensures
        !is_terminated(s, bft_height, finalized_bc_height, key),
{
}

/// While nothing more becomes final, a finalizer that is terminated stays so at every later BFT height.
pub proof fn a_termination_lasts(
    s: Seq<HardFork>,
    bft_height: u64,
    later: u64,
    finalized_bc_height: u64,
    key: Key,
)
    requires
        bft_height <= later,
        is_terminated(s, bft_height, finalized_bc_height, key),
    ensures
        is_terminated(s, later, finalized_bc_height, key),
{
    let i = choose|i: int|
        0 <= i < s.len() && terminates(#[trigger] s[i], bft_height, finalized_bc_height)
            && s[i].terminated_finalizers.contains(key);
    assert(terminates(s[i], later, finalized_bc_height));
}

/// The BLAKE3 hash of some bytes, as `hash` of `blake3` gives it.
pub uninterp spec fn blake3_hash(b: Seq<u8>) -> Seq<u8>;

/// `hash` of `blake3`.
#[verifier::external_body]
fn blake3_digest(b: &[u8]) -> (r: [u8; 32])
    ensures
        r@ == blake3_hash(b@),
{
    blake3::hash(b).into()
}

/// The hardforks that are carried at a BFT height or before.
pub open spec fn carried_by(s: Seq<HardFork>, bft_height: u64) -> Seq<HardFork> {
    s.filter(|f: HardFork| f.bft_certificate_height <= bft_height)
}

/// The serializations of some hardforks, one behind the other.
pub open spec fn joined_bytes(s: Seq<HardFork>) -> Seq<u8>
    decreases s.len(),
{
    if s.len() == 0 {
        seq![]
    } else {
        joined_bytes(s.drop_last()) + s.last().bytes
    }
}

/// What separates the votes at a BFT height from those under other rules: the hash of all hardforks
/// that are carried at that height or before, or zeros where there are none.
pub open spec fn namespace(s: Seq<HardFork>, bft_height: u64) -> Seq<u8> {
    let carried = carried_by(s, bft_height);
    if carried.len() > 0 {
        blake3_hash(joined_bytes(carried))
    } else {
        Seq::new(32, |i: int| 0u8)
    }
}

/// The bytes that are hashed for a BFT height, if any hardfork is carried there or before.
pub fn namespace_input(hardforks: &Vec<HardForkConfig>, bft_height: u64) -> (r: Option<Vec<u8>>)
    ensures
        match r {
            Some(b) => carried_by(forks(hardforks@), bft_height).len() > 0 && b@ == joined_bytes(
                carried_by(forks(hardforks@), bft_height),
            ),
            None => carried_by(forks(hardforks@), bft_height).len() == 0,
        },
{
    let mut bytes: Vec<u8> = Vec::new();
    let mut any = false;
    let ghost all = forks(hardforks@);
    let ghost is_in = |f: HardFork| f.bft_certificate_height <= bft_height;
    let mut i: usize = 0;
    proof {
        reveal(Seq::filter);
        assert(all.take(0) =~= seq![]);
    }
    while i < hardforks.len()
        invariant
            i <= hardforks@.len(),
            all == forks(hardforks@),
            is_in == (|f: HardFork| f.bft_certificate_height <= bft_height),
            any == (all.take(i as int).filter(is_in).len() > 0),
            bytes@ == joined_bytes(all.take(i as int).filter(is_in)),
        decreases hardforks@.len() - i,
    {
        proof {
            lemma_filter_step(all, i as int, is_in);
        }
        if hardforks[i].bft_certificate_height <= bft_height {
            let ghost before = all.take(i as int).filter(is_in);
            push_all(&mut bytes, &hardforks[i].bytes);
            any = true;
            assert(before.push(all[i as int]).drop_last() =~= before);
        }
        i += 1;
    }
    assert(all.take(i as int) =~= all);
    if any {
        Some(bytes)
    } else {
        None
    }
}

/// Picking out of one more.
pub proof fn lemma_filter_step<A>(s: Seq<A>, i: int, pred: spec_fn(A) -> bool)
    requires
        0 <= i < s.len(),
    ensures
        s.take(i + 1).filter(pred) == if pred(s[i]) {
            s.take(i).filter(pred).push(s[i])
        } else {
            s.take(i).filter(pred)
        },
{
    reveal(Seq::filter);
    assert(s.take(i + 1).drop_last() =~= s.take(i));
    assert(s.take(i + 1).last() == s[i]);
}

/// What separates the votes at a BFT height from those under other rules.
pub fn namespace_for_bft_height(hardforks: &Vec<HardForkConfig>, bft_height: u64) -> (r: [u8; 32])
    ensures
        r@ == namespace(forks(hardforks@), bft_height),
{
    match namespace_input(hardforks, bft_height) {
        Some(bytes) => blake3_digest(&bytes),
        None => {
            let zeros = [0u8; 32];
            assert(zeros@ =~= Seq::new(32, |i: int| 0u8));
            zeros
        },
    }
}

/// Without hardforks votes are separated by nothing.
pub proof fn no_hardforks_no_namespace(bft_height: u64)
    ensures
        namespace(Seq::empty(), bft_height) == Seq::new(32, |i: int| 0u8),
{
    reveal(Seq::filter);
    assert(carried_by(Seq::empty(), bft_height).len() == 0);
}

/// Between two heights at which hardforks are carried the votes are separated alike.
pub proof fn the_namespace_changes_with_hardforks(s: Seq<HardFork>, low: u64, high: u64)
    requires
        low <= high,
        forall|i: int|
            0 <= i < s.len() ==> !(low < (#[trigger] s[i]).bft_certificate_height
                && s[i].bft_certificate_height <= high),
    ensures
        namespace(s, low) == namespace(s, high),
    decreases s.len(),
{
    lemma_same_carried(s, low, high);
}

proof fn lemma_same_carried(s: Seq<HardFork>, low: u64, high: u64)
    requires
        low <= high,
        forall|i: int|
            0 <= i < s.len() ==> !(low < (#[trigger] s[i]).bft_certificate_height
                && s[i].bft_certificate_height <= high),
    ensures
        carried_by(s, low) == carried_by(s, high),
    decreases s.len(),
{
    reveal(Seq::filter);
    if s.len() > 0 {
        let t = s.drop_last();
        assert forall|i: int| 0 <= i < t.len() implies !(low < (
        #[trigger] t[i]).bft_certificate_height && t[i].bft_certificate_height <= high) by {
            assert(t[i] == s[i]);
        }
        lemma_same_carried(t, low, high);
        assert(s.last() == s[s.len() - 1]);
    }
}

/// The hardforks that are to be carried at exactly a BFT height.
pub open spec fn scheduled_at(s: Seq<HardFork>, bft_height: u64) -> Seq<HardFork> {
    s.filter(|f: HardFork| f.bft_certificate_height == bft_height)
}

fn copied_bytes(b: &Vec<u8>) -> (r: Vec<u8>)
    ensures
        r@ == b@,
{
    let mut r: Vec<u8> = Vec::new();
    push_all(&mut r, b);
    assert(r@ =~= b@);
    r
}

fn copied_keys(keys: &Vec<Key>) -> (r: Vec<Key>)
    ensures
        r@ == keys@,
{
    let mut r: Vec<Key> = Vec::new();
    let mut i: usize = 0;
    while i < keys.len()
        invariant
            i <= keys@.len(),
            r@ == keys@.take(i as int),
        decreases keys@.len() - i,
    {
        r.push(keys[i]);
        i += 1;
        assert(r@ =~= keys@.take(i as int));
    }
    assert(keys@.take(i as int) =~= keys@);
    r
}

impl HardForkConfig {
    /// The same hardfork once more.
    pub fn copied(&self) -> (r: HardForkConfig)
        ensures
            r@ == self@,
    {
        HardForkConfig {
            bft_certificate_height: self.bft_certificate_height,
            pow_activation_height: self.pow_activation_height,
            terminated_finalizers: copied_keys(&self.terminated_finalizers),
            bytes: copied_bytes(&self.bytes),
        }
    }
}

/// The hardforks that are to be carried at exactly a BFT height, in the order of the schedule.
pub fn scheduled_hardforks(hardforks: &Vec<HardForkConfig>, bft_height: u64) -> (r: Vec<
    HardForkConfig,
>)
    ensures
        forks(r@) == scheduled_at(forks(hardforks@), bft_height),
{
    let mut picked: Vec<HardForkConfig> = Vec::new();
    let ghost all = forks(hardforks@);
    let ghost is_in = |f: HardFork| f.bft_certificate_height == bft_height;
    let mut i: usize = 0;
    proof {
        reveal(Seq::filter);
        assert(all.take(0) =~= seq![]);
        assert(forks(picked@) =~= seq![]);
    }
    while i < hardforks.len()
        invariant
            i <= hardforks@.len(),
            all == forks(hardforks@),
            is_in == (|f: HardFork| f.bft_certificate_height == bft_height),
            forks(picked@) == all.take(i as int).filter(is_in),
        decreases hardforks@.len() - i,
    {
        proof {
            lemma_filter_step(all, i as int, is_in);
        }
        if hardforks[i].bft_certificate_height == bft_height {
            let ghost before = forks(picked@);
            picked.push(hardforks[i].copied());
            assert(forks(picked@) =~= before.push(all[i as int]));
        }
        i += 1;
    }
    assert(all.take(i as int) =~= all);
    picked
}

/// A finalizer is terminated exactly while a hardfork names it that is carried at the BFT height or
/// before, and whose activation is above what is final.
pub proof fn a_named_finalizer_is_terminated(
    s: Seq<HardFork>,
    bft_height: u64,
    finalized_bc_height: u64,
    key: Key,
    i: int,
)
    ensures
        0 <= i < s.len() && s[i].bft_certificate_height <= bft_height && s[i].pow_activation_height
            > finalized_bc_height && s[i].terminated_finalizers.contains(key) ==> is_terminated(
            s,
            bft_height,
            finalized_bc_height,
            key,
        ),
        (forall|k: int|
            0 <= k < s.len() ==> (#[trigger] s[k]).bft_certificate_height > bft_height
                || s[k].pow_activation_height <= finalized_bc_height
                || !s[k].terminated_finalizers.contains(key)) ==> !is_terminated(
            s,
            bft_height,
            finalized_bc_height,
            key,
        ),
{
    if 0 <= i < s.len() && s[i].bft_certificate_height <= bft_height && s[i].pow_activation_height
        > finalized_bc_height && s[i].terminated_finalizers.contains(key) {
        assert(terminates(s[i], bft_height, finalized_bc_height));
    }
}

/// A hardfork is scheduled for a BFT height exactly where it is to be carried there, and it counts for the
/// namespace from there on. The order of the schedule is kept.
pub proof fn a_hardfork_is_carried_from_its_height_on(s: Seq<HardFork>, f: HardFork, bft_height: u64)
    ensures
        scheduled_at(s.push(f), bft_height) == if f.bft_certificate_height == bft_height {
            scheduled_at(s, bft_height).push(f)
        } else {
            scheduled_at(s, bft_height)
        },
        carried_by(s.push(f), bft_height) == if f.bft_certificate_height <= bft_height {
            carried_by(s, bft_height).push(f)
        } else {
            carried_by(s, bft_height)
        },
        joined_bytes(s.push(f)) == joined_bytes(s) + f.bytes,
{
    reveal(Seq::filter);
    assert(s.push(f).drop_last() =~= s);
}

/// The votes at a BFT height are separated by the hash of the bytes of everything that is carried there,
/// one behind the other, and by zeros where nothing is.
pub proof fn the_namespace_is_the_hash_of_what_is_carried(s: Seq<HardFork>, bft_height: u64)
    requires
        forall|i: int| 0 <= i < s.len() ==> (#[trigger] s[i]).bft_certificate_height <= bft_height,
    ensures
        s.len() > 0 ==> namespace(s, bft_height) == blake3_hash(joined_bytes(s)),
{
    lemma_all_carried(s, bft_height);
}

proof fn lemma_all_carried(s: Seq<HardFork>, bft_height: u64)
    requires
        forall|i: int| 0 <= i < s.len() ==> (#[trigger] s[i]).bft_certificate_height <= bft_height,
    ensures
        carried_by(s, bft_height) == s,
    decreases s.len(),
{
    reveal(Seq::filter);
    if s.len() > 0 {
        let t = s.drop_last();
        assert forall|i: int| 0 <= i < t.len() implies (#[trigger] t[i]).bft_certificate_height
            <= bft_height by {
            assert(t[i] == s[i]);
        }
        lemma_all_carried(t, bft_height);
        assert(s[s.len() - 1] == s.last());
        assert(t.push(s.last()) =~= s);
    } else {
        assert(s =~= seq![]);
    }
}

} // verus!
