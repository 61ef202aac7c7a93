//! Lists that are kept in the order of heights.
use crate::bytes::bytes_eq;
use crate::height::{BlockHeight, INVALID};
use crate::notes::{OrchardNote, OutPoint, TxId, Txo};
use crate::wallet_tx::WalletTx;
use vstd::prelude::*;

verus! {

/// By which height a list is ordered: that at which its items came, or that at which they went.
#[derive(Clone, Copy, Debug, PartialEq, Eq, Structural)]
pub enum Order {
    Recv,
    Spent,
}

/// What is listed by height.
pub trait Listed: Copy {
    /// What tells items apart.
    type Id;

    spec fn at(&self, o: Order) -> u32;

    spec fn id(&self) -> Self::Id;

    fn height_in(&self, o: Order) -> (r: u32)
        ensures
            r == self.at(o),
    ;

    fn is(&self, id: &Self::Id) -> (r: bool)
        ensures
            r == (self.id() == *id),
    ;
}

impl Listed for OrchardNote {
    type Id = [u8; 32];

    open spec fn at(&self, o: Order) -> u32 {
        match o {
            Order::Recv => self.recv_h.0,
            Order::Spent => self.spent_h.0,
        }
    }

    open spec fn id(&self) -> [u8; 32] {
        self.nf
    }

    fn height_in(&self, o: Order) -> (r: u32) {
        match o {
            Order::Recv => self.recv_h.0,
            Order::Spent => self.spent_h.0,
        }
    }

    fn is(&self, id: &[u8; 32]) -> (r: bool) {
        bytes_eq(&self.nf, id)
    }
}

impl Listed for Txo {
    type Id = OutPoint;

    open spec fn at(&self, o: Order) -> u32 {
        match o {
            Order::Recv => self.recv_h.0,
            Order::Spent => self.spent_h.0,
        }
    }

    open spec fn id(&self) -> OutPoint {
        self.id
    }

    fn height_in(&self, o: Order) -> (r: u32) {
        match o {
            Order::Recv => self.recv_h.0,
            Order::Spent => self.spent_h.0,
        }
    }

    fn is(&self, id: &OutPoint) -> (r: bool) {
        self.id.same(id)
    }
}

impl Listed for WalletTx {
    type Id = TxId;

    open spec fn at(&self, o: Order) -> u32 {
        self.h.0
    }

    open spec fn id(&self) -> TxId {
        self.txid
    }

    fn height_in(&self, o: Order) -> (r: u32) {
        self.h.0
    }

    fn is(&self, id: &TxId) -> (r: bool) {
        bytes_eq(&self.txid, id)
    }
}

/// Items in the order of their heights.
pub open spec fn in_order<T: Listed>(s: Seq<T>, o: Order) -> bool {
    forall|i: int, j: int| 0 <= i <= j < s.len() ==> #[trigger] s[i].at(o) <= #[trigger] s[j].at(o)
}

/// The place behind the last item that is not above a height.
pub open spec fn place<T: Listed>(s: Seq<T>, o: Order, h: u32) -> int
    decreases s.len(),
{
    if s.len() == 0 || s.last().at(o) <= h {
        s.len() as int
    } else {
        place(s.drop_last(), o, h)
    }
}

/// Items with one more, behind those at its height.
pub open spec fn with_item<T: Listed>(s: Seq<T>, o: Order, x: T) -> Seq<T> {
    s.insert(place(s, o, x.at(o)), x)
}

/// What `place` is: what stands before it ends at or below the height, and what stands behind it is
/// above.
pub proof fn lemma_place<T: Listed>(s: Seq<T>, o: Order, h: u32)
    ensures
        0 <= place(s, o, h) <= s.len(),
        place(s, o, h) > 0 ==> s[place(s, o, h) - 1].at(o) <= h,
        forall|i: int| place(s, o, h) <= i < s.len() ==> #[trigger] s[i].at(o) > h,
        place(s.take(place(s, o, h)), o, h) == place(s, o, h),
    decreases s.len(),
{
    if s.len() == 0 || s.last().at(o) <= h {
        assert(s.take(s.len() as int) =~= s);
    } else {
        let t = s.drop_last();
        lemma_place(t, o, h);
        let n = place(s, o, h);
        assert(s.take(n) =~= t.take(n));
        assert forall|i: int| n <= i < s.len() implies #[trigger] s[i].at(o) > h by {
            if i < t.len() {
                assert(t[i] == s[i]);
            }
        }
    }
}

/// In an ordered list the items before the place are those at or below the height, and no others.
pub proof fn place_splits_an_ordered_list<T: Listed>(s: Seq<T>, o: Order, h: u32)
    requires
        in_order(s, o),
    ensures
        0 <= place(s, o, h) <= s.len(),
        forall|i: int| 0 <= i < s.len() ==> (#[trigger] s[i].at(o) <= h <==> i < place(s, o, h)),
{
    lemma_place(s, o, h);
    let n = place(s, o, h);
    assert forall|i: int| 0 <= i < n implies #[trigger] s[i].at(o) <= h by {
        assert(s[i].at(o) <= s[n - 1].at(o));
    }
}

/// Putting an item in its place keeps a list ordered.
pub proof fn inserting_keeps_the_order<T: Listed>(s: Seq<T>, o: Order, x: T)
    requires
        in_order(s, o),
    ensures
        in_order(with_item(s, o, x), o),
        with_item(s, o, x).to_multiset() == s.to_multiset().insert(x),
{
    place_splits_an_ordered_list(s, o, x.at(o));
    let n = place(s, o, x.at(o));
    let t = with_item(s, o, x);
    assert forall|i: int, j: int| 0 <= i <= j < t.len() implies #[trigger] t[i].at(o)
        <= #[trigger] t[j].at(o) by {
        let i0 = if i < n { i } else { i - 1 };
        let j0 = if j < n { j } else { j - 1 };
        if i == n && j == n {
        } else if i == n {
            assert(s[j0].at(o) > x.at(o));
        } else if j == n {
            assert(s[i0].at(o) <= x.at(o));
        } else {
            assert(s[i0].at(o) <= s[j0].at(o));
        }
    }
    broadcast use vstd::seq_lib::group_to_multiset_ensures;

    vstd::seq_lib::to_multiset_insert(s, n, x);
}

/// Puts an item behind those at its height.
pub fn insert_by_height<T: Listed>(v: &mut Vec<T>, o: Order, x: T)
    ensures
        final(v)@ == with_item(old(v)@, o, x),
{
    let h: u32 = x.height_in(o);
    let mut i: usize = v.len();
    assert(v@.take(v@.len() as int) =~= v@);
    while i > 0 && v[i - 1].height_in(o) > h
        invariant
            i <= v@.len(),
            v@ == old(v)@,
            h == x.at(o),
            place(v@, o, h) == place(v@.take(i as int), o, h),
        decreases i,
    {
        assert(v@.take(i as int).drop_last() =~= v@.take(i - 1));
        i -= 1;
    }
    proof {
        assert(place(v@.take(i as int), o, h) == i);
    }
    v.insert(i, x);
}

/// The first item with a height and an id, if there is one.
pub open spec fn find_at<T: Listed>(s: Seq<T>, o: Order, h: u32, id: T::Id) -> Option<int>
    decreases s.len(),
{
    if s.len() == 0 {
        None
    } else {
        match find_at(s.drop_last(), o, h, id) {
            Some(i) => Some(i),
            None => if s.last().at(o) == h && s.last().id() == id {
                Some(s.len() - 1)
            } else {
                None
            },
        }
    }
}

/// What `find_at` gives.
pub proof fn lemma_find_at<T: Listed>(s: Seq<T>, o: Order, h: u32, id: T::Id)
    ensures
        match find_at(s, o, h, id) {
            Some(i) => 0 <= i < s.len() && s[i].at(o) == h && s[i].id() == id && forall|k: int|
                0 <= k < i ==> !(#[trigger] s[k].at(o) == h && s[k].id() == id),
            None => forall|k: int|
                0 <= k < s.len() ==> !(#[trigger] s[k].at(o) == h && s[k].id() == id),
        },
    decreases s.len(),
{
    if s.len() > 0 {
        let t = s.drop_last();
        lemma_find_at(t, o, h, id);
        assert forall|k: int| 0 <= k < t.len() implies t[k] == #[trigger] s[k] by {
        }
    }
}

/// An item with the height and the id, and none before it, is what `find_at` gives.
pub proof fn lemma_find_at_is<T: Listed>(s: Seq<T>, o: Order, h: u32, id: T::Id, i: int)
    requires
        0 <= i < s.len(),
        s[i].at(o) == h && s[i].id() == id,
        forall|k: int| 0 <= k < i ==> !(#[trigger] s[k].at(o) == h && s[k].id() == id),
    ensures
        find_at(s, o, h, id) == Some(i),
{
    lemma_find_at(s, o, h, id);
    match find_at(s, o, h, id) {
        Some(j) => {
            if i < j {
                assert(!(s[i].at(o) == h && s[i].id() == id));
            }
            if j < i {
                assert(!(s[j].at(o) == h && s[j].id() == id));
            }
        },
        None => {
            assert(!(s[i].at(o) == h && s[i].id() == id));
        },
    }
}

/// The place of an item whose height and id are known.
pub fn position_at<T: Listed>(v: &[T], o: Order, h: BlockHeight, id: &T::Id) -> (r: Option<usize>)
    ensures
        match find_at(v@, o, h.0, *id) {
            Some(i) => r matches Some(k) && k == i && i < v@.len(),
            None => r is None,
        },
{
    let mut i: usize = 0;
    while i < v.len()
        invariant
            i <= v@.len(),
            forall|k: int| 0 <= k < i ==> !(#[trigger] v@[k].at(o) == h.0 && v@[k].id() == *id),
        decreases v.len() - i,
    {
        if v[i].height_in(o) == h.0 && v[i].is(id) {
            proof {
                lemma_find_at_is(v@, o, h.0, *id, i as int);
            }
            return Some(i);
        }
        i += 1;
    }
    proof {
        lemma_find_at(v@, o, h.0, *id);
    }
    None
}

/// The first item with an id, if there is one.
pub open spec fn find_id<T: Listed>(s: Seq<T>, id: T::Id) -> Option<int>
    decreases s.len(),
{
    if s.len() == 0 {
        None
    } else {
        match find_id(s.drop_last(), id) {
            Some(i) => Some(i),
            None => if s.last().id() == id {
                Some(s.len() - 1)
            } else {
                None
            },
        }
    }
}

/// What `find_id` gives.
pub proof fn lemma_find_id<T: Listed>(s: Seq<T>, id: T::Id)
    ensures
        match find_id(s, id) {
            Some(i) => 0 <= i < s.len() && s[i].id() == id && forall|k: int|
                0 <= k < i ==> (#[trigger] s[k]).id() != id,
            None => forall|k: int| 0 <= k < s.len() ==> (#[trigger] s[k]).id() != id,
        },
    decreases s.len(),
{
    if s.len() > 0 {
        let t = s.drop_last();
        lemma_find_id(t, id);
        assert forall|k: int| 0 <= k < t.len() implies t[k] == #[trigger] s[k] by {
        }
    }
}

/// The place of the first item with an id.
pub fn position_of<T: Listed>(v: &[T], id: &T::Id) -> (r: Option<usize>)
    ensures
        match find_id(v@, *id) {
            Some(i) => r matches Some(k) && k == i && i < v@.len(),
            None => r is None,
        },
{
    let mut i: usize = 0;
    while i < v.len()
        invariant
            i <= v@.len(),
            find_id(v@.take(i as int), *id) is None,
        decreases v.len() - i,
    {
        proof {
            assert(v@.take(i + 1).drop_last() =~= v@.take(i as int));
        }
        if v[i].is(id) {
            proof {
                lemma_find_id(v@, *id);
                lemma_find_id(v@.take(i as int), *id);
                match find_id(v@, *id) {
                    Some(k) => {
                        if k < i {
                            assert(v@.take(i as int)[k].id() != *id);
                        }
                        if i < k {
                            assert(v@[i as int].id() != *id);
                        }
                    },
                    None => {
                        assert(v@[i as int].id() != *id);
                    },
                }
            }
            return Some(i);
        }
        i += 1;
    }
    assert(v@.take(i as int) =~= v@);
    None
}

/// What the wallet can own.
pub trait Coin: Listed {
    /// What orders coins that were received at one height.
    spec fn rank(&self) -> u64;

    /// The coin as it is when nothing has spent it.
    spec fn unspent(&self) -> Self;

    proof fn lemma_unspent(&self)
        ensures
            self.unspent().at(Order::Recv) == self.at(Order::Recv),
            self.unspent().id() == self.id(),
            self.unspent().rank() == self.rank(),
            self.unspent().at(Order::Spent) == INVALID,
    ;

    fn rank_in_height(&self) -> (r: u64)
        ensures
            r == self.rank(),
    ;

    fn to_unspent(&self) -> (r: Self)
        ensures
            r == self.unspent(),
    ;
}

impl Coin for OrchardNote {
    open spec fn rank(&self) -> u64 {
        self.position
    }

    open spec fn unspent(&self) -> OrchardNote {
        OrchardNote { spent_h: BlockHeight(INVALID), ..*self }
    }

    proof fn lemma_unspent(&self) {
    }

    fn rank_in_height(&self) -> (r: u64) {
        self.position
    }

    fn to_unspent(&self) -> (r: OrchardNote) {
        OrchardNote { spent_h: BlockHeight(INVALID), ..*self }
    }
}

impl Coin for Txo {
    open spec fn rank(&self) -> u64 {
        0
    }

    open spec fn unspent(&self) -> Txo {
        Txo { spent_h: BlockHeight(INVALID), ..*self }
    }

    proof fn lemma_unspent(&self) {
    }

    fn rank_in_height(&self) -> (r: u64) {
        0
    }

    fn to_unspent(&self) -> (r: Txo) {
        Txo { spent_h: BlockHeight(INVALID), ..*self }
    }
}

/// Whether one coin comes behind another: it was received later, or at the same height with a
/// higher rank.
pub open spec fn comes_behind<T: Coin>(a: T, b: T) -> bool {
    a.at(Order::Recv) > b.at(Order::Recv) || (a.at(Order::Recv) == b.at(Order::Recv) && a.rank()
        > b.rank())
}

/// No coin stands before one that it comes behind.
pub open spec fn coins_sorted<T: Coin>(s: Seq<T>) -> bool {
    forall|i: int, j: int| 0 <= i < j < s.len() ==> !comes_behind(#[trigger] s[i], #[trigger] s[j])
}

/// The place behind the last coin that does not come behind `x`.
pub open spec fn coin_place<T: Coin>(s: Seq<T>, x: T) -> int
    decreases s.len(),
{
    if s.len() == 0 || !comes_behind(s.last(), x) {
        s.len() as int
    } else {
        coin_place(s.drop_last(), x)
    }
}

/// The coins sorted by the height at which they were received and by rank; those that are equal in
/// both keep their order.
pub open spec fn sorted_coins<T: Coin>(s: Seq<T>) -> Seq<T>
    decreases s.len(),
{
    if s.len() == 0 {
        seq![]
    } else {
        let t = sorted_coins(s.drop_last());
        t.insert(coin_place(t, s.last()), s.last())
    }
}

proof fn lemma_coin_place<T: Coin>(s: Seq<T>, x: T)
    ensures
        0 <= coin_place(s, x) <= s.len(),
        coin_place(s, x) > 0 ==> !comes_behind(s[coin_place(s, x) - 1], x),
        forall|i: int| coin_place(s, x) <= i < s.len() ==> comes_behind(#[trigger] s[i], x),
    decreases s.len(),
{
    if s.len() == 0 || !comes_behind(s.last(), x) {
    } else {
        let t = s.drop_last();
        lemma_coin_place(t, x);
        assert forall|i: int| coin_place(s, x) <= i < s.len() implies comes_behind(
            #[trigger] s[i],
            x,
        ) by {
            if i < t.len() {
                assert(t[i] == s[i]);
            }
        }
    }
}

/// Sorting sorts, and neither adds nor loses a coin.
pub proof fn sorting_sorts<T: Coin>(s: Seq<T>)
    ensures
        coins_sorted(sorted_coins(s)),
        in_order(sorted_coins(s), Order::Recv),
        sorted_coins(s).to_multiset() == s.to_multiset(),
        sorted_coins(s).len() == s.len(),
    decreases s.len(),
{
    broadcast use vstd::seq_lib::group_to_multiset_ensures;

    if s.len() > 0 {
        let p = s.drop_last();
        sorting_sorts(p);
        let t = sorted_coins(p);
        let x = s.last();
        lemma_coin_place(t, x);
        let n = coin_place(t, x);
        let r = sorted_coins(s);
        assert forall|i: int, j: int| 0 <= i < j < r.len() implies !comes_behind(
            #[trigger] r[i],
            #[trigger] r[j],
        ) by {
            let i0 = if i < n { i } else { i - 1 };
            let j0 = if j < n { j } else { j - 1 };
            if i == n {
                assert(comes_behind(t[j0], x));
            } else if j == n {
                if i0 < n - 1 {
                    assert(!comes_behind(t[i0], t[n - 1]));
                }
            } else {
                assert(!comes_behind(t[i0], t[j0]));
            }
        }
        vstd::seq_lib::to_multiset_insert(t, n, x);
        assert(s =~= p.push(x));
        assert(s.to_multiset() =~= p.to_multiset().insert(x));
    } else {
        assert(s =~= seq![]);
    }
    let r = sorted_coins(s);
    assert forall|i: int, j: int| 0 <= i <= j < r.len() implies #[trigger] r[i].at(Order::Recv)
        <= #[trigger] r[j].at(Order::Recv) by {
        if i < j {
            assert(!comes_behind(r[i], r[j]));
        }
    }
}

/// Sorts coins by the height at which they were received and by rank, and keeps the order of those
/// that are equal in both.
pub fn sort_coins<T: Coin>(v: &Vec<T>) -> (r: Vec<T>)
    ensures
        r@ == sorted_coins(v@),
{
    let mut r: Vec<T> = Vec::new();
    let mut k: usize = 0;
    while k < v.len()
        invariant
            k <= v@.len(),
            r@ == sorted_coins(v@.take(k as int)),
        decreases v.len() - k,
    {
        let x = v[k];
        let h: u32 = x.height_in(Order::Recv);
        let rank: u64 = x.rank_in_height();
        let mut i: usize = r.len();
        assert(r@.take(r@.len() as int) =~= r@);
        while i > 0 && (r[i - 1].height_in(Order::Recv) > h || (r[i - 1].height_in(Order::Recv) == h
            && r[i - 1].rank_in_height() > rank))
            invariant
                i <= r@.len(),
                h == x.at(Order::Recv),
                rank == x.rank(),
                coin_place(r@, x) == coin_place(r@.take(i as int), x),
            decreases i,
        {
            assert(r@.take(i as int).drop_last() =~= r@.take(i - 1));
            i -= 1;
        }
        assert(coin_place(r@.take(i as int), x) == i);
        r.insert(i, x);
        k += 1;
        assert(v@.take(k as int).drop_last() =~= v@.take(k - 1));
    }
    assert(v@.take(k as int) =~= v@);
    r
}

/// A list with one more item holds that item and what it held, in the same order, and nothing else.
pub proof fn inserting_adds_one_item<T: Listed>(s: Seq<T>, o: Order, x: T)
    ensures
        with_item(s, o, x).len() == s.len() + 1,
        0 <= place(s, o, x.at(o)) <= s.len(),
        with_item(s, o, x)[place(s, o, x.at(o))] == x,
        with_item(s, o, x).remove(place(s, o, x.at(o))) == s,
        with_item(s, o, x).contains(x),
        forall|y: T| #[trigger] with_item(s, o, x).contains(y) <==> y == x || s.contains(y),
{
    lemma_place(s, o, x.at(o));
    let p = place(s, o, x.at(o));
    let t = with_item(s, o, x);
    assert(t.remove(p) =~= s);
    assert(t[p] == x);
    assert forall|y: T| #[trigger] t.contains(y) <==> y == x || s.contains(y) by {
        if t.contains(y) && y != x {
            let k = choose|k: int| 0 <= k < t.len() && t[k] == y;
            let k0 = if k < p { k } else { k - 1 };
            assert(s[k0] == y);
        }
        if s.contains(y) {
            let k0 = choose|k: int| 0 <= k < s.len() && s[k] == y;
            let k = if k0 < p { k0 } else { k0 + 1 };
            assert(t[k] == y);
        }
    }
}

/// Sorted notes stand by the height at which they came, and those of one height by their position.
pub proof fn sorted_notes_stand_by_height_and_position(s: Seq<OrchardNote>, i: int, j: int)
    requires
        0 <= i < j < s.len(),
    ensures
        ({
            let t = sorted_coins(s);
            &&& t[i].recv_h.0 <= t[j].recv_h.0
            &&& t[i].recv_h.0 == t[j].recv_h.0 ==> t[i].position <= t[j].position
        }),
{
    sorting_sorts(s);
    let t = sorted_coins(s);
    assert(!comes_behind(t[i], t[j]));
}

} // verus!
