//! The blocks to which a wallet can fall back when the chain is reorganised.
use crate::network::NetworkType;
use crate::wire::{
    array_round_trip, array_then, list_extends, list_round_trip, list_storable, list_then, models,
    parse_array, parse_list, parse_u32, primitives_extend, put_array, put_list, put_u32, take_array,
    take_list, take_u32, u32_round_trip, u32_then, Parsed, Taken, Wire,
};
use std::collections::VecDeque;
use vstd::prelude::*;

verus! {

/// The most anchors that are kept.
pub const ANCHOR_HISTORY_CAP: usize = 32;

/// A block that was on the best chain, and how far each address stream had come: the miner's streams
/// first, then the user's.
#[derive(Debug)]
pub struct Anchor {
    pub height: u32,
    pub hash: [u8; 32],
    pub stream_heights: Vec<u32>,
}

/// What an anchor is.
#[verifier::ext_equal]
pub struct AnchorModel {
    pub height: u32,
    pub hash: [u8; 32],
    pub stream_heights: Seq<u32>,
}

impl View for Anchor {
    type V = AnchorModel;

    open spec fn view(&self) -> AnchorModel {
        AnchorModel { height: self.height, hash: self.hash, stream_heights: self.stream_heights@ }
    }
}

/// An anchor: height, hash, and the list of stream heights.
impl Wire for Anchor {
    type Model = AnchorModel;

    open spec fn model(&self) -> AnchorModel {
        self@
    }

    open spec fn then_bytes(m: AnchorModel, rest: Seq<u8>) -> Seq<u8> {
        u32_then(m.height, array_then::<32>(m.hash, list_then::<u32>(m.stream_heights, rest)))
    }

    open spec fn parse(net: NetworkType, s: Seq<u8>) -> Parsed<AnchorModel> {
        match parse_u32(s) {
            Err(f) => Err(f),
            Ok((height, s)) => match parse_array::<32>(s) {
                Err(f) => Err(f),
                Ok((hash, s)) => match parse_list::<u32>(net, s) {
                    Err(f) => Err(f),
                    Ok((stream_heights, s)) => Ok((AnchorModel { height, hash, stream_heights }, s)),
                },
            },
        }
    }

    open spec fn storable(net: NetworkType, m: AnchorModel) -> bool {
        m.stream_heights.len() <= usize::MAX
    }

    proof fn round_trip(net: NetworkType, m: AnchorModel, rest: Seq<u8>) {
        broadcast use {u32_round_trip, array_round_trip, list_round_trip};

        assert(list_storable::<u32>(net, m.stream_heights));
    }

    proof fn extends(net: NetworkType, s: Seq<u8>, more: Seq<u8>) {
        broadcast use {primitives_extend, list_extends};

    }

    fn put(&self, out: &mut Vec<u8>) {
        proof {
            assert(models(self.stream_heights@) =~= self.stream_heights@);
        }
        put_u32(out, self.height);
        put_array::<32>(out, &self.hash);
        put_list::<u32>(out, &self.stream_heights);
    }

    fn take<'a>(net: NetworkType, s: &'a [u8]) -> (res: Taken<'a, Anchor>) {
        let (height, s) = take_u32(s)?;
        let (hash, s) = take_array::<32>(s)?;
        let (stream_heights, s) = take_list::<u32>(net, s)?;
        proof {
            assert(models(stream_heights@) =~= stream_heights@);
        }
        Ok((Anchor { height, hash, stream_heights }, s))
    }
}

/// The anchors, the newest last.
#[derive(Debug)]
pub struct AnchorHistory {
    pub anchors: VecDeque<Anchor>,
}

impl View for AnchorHistory {
    type V = Seq<AnchorModel>;

    open spec fn view(&self) -> Seq<AnchorModel> {
        models(self.anchors@)
    }
}

/// The last anchors of a list, as many as are kept.
pub open spec fn newest(s: Seq<AnchorModel>) -> Seq<AnchorModel> {
    if s.len() > ANCHOR_HISTORY_CAP {
        s.skip(s.len() - ANCHOR_HISTORY_CAP)
    } else {
        s
    }
}

impl Default for AnchorHistory {
    fn default() -> (r: AnchorHistory)
        ensures
            r@ == Seq::<AnchorModel>::empty(),
    {
        let r = AnchorHistory { anchors: VecDeque::new() };
        assert(r@ =~= Seq::<AnchorModel>::empty());
        r
    }
}

impl AnchorHistory {
    /// Adds the newest anchor. The oldest go where there are too many.
    pub fn push(&mut self, a: Anchor)
        ensures
            final(self)@ == newest(old(self)@.push(a@)),
    {
        self.anchors.push_back(a);
        let ghost all = self@;
        assert(all =~= old(self)@.push(a@));
        assert(all.skip(0) =~= all);
        let ghost mut gone: int = 0;
        while self.anchors.len() > ANCHOR_HISTORY_CAP
            invariant
                0 <= gone <= all.len(),
                self@ == all.skip(gone),
                gone > 0 ==> self@.len() >= ANCHOR_HISTORY_CAP,
            decreases self.anchors.len(),
        {
            let ghost before = self@;
            let _ = self.anchors.pop_front();
            proof {
                assert(self@ =~= before.skip(1));
                assert(all.skip(gone).skip(1) =~= all.skip(gone + 1));
                gone = gone + 1;
            }
        }
        assert(self@.len() == self.anchors@.len());
        assert(self@ =~= newest(all));
    }
}

/// The anchors of a list that do not lie above a height.
pub open spec fn cut_above(s: Seq<AnchorModel>, target_h: u32) -> Seq<AnchorModel> {
    s.filter(|a: AnchorModel| a.height <= target_h)
}

/// Drops the anchors that lie above a height.
pub fn anchors_truncate_above(history: &mut AnchorHistory, target_h: u32)
    ensures
        final(history)@ == cut_above(old(history)@, target_h),
{
    let ghost all = history@;
    let ghost keep = |a: AnchorModel| a.height <= target_h;
    let mut kept: VecDeque<Anchor> = VecDeque::new();
    let ghost mut done: int = 0;
    assert(all.take(0).filter(keep) =~= models(kept@)) by {
        reveal(Seq::filter);
    }
    assert(all.skip(0) =~= all);
    while history.anchors.len() > 0
        invariant
            keep == (|a: AnchorModel| a.height <= target_h),
            0 <= done <= all.len(),
            history@ == all.skip(done),
            models(kept@) == all.take(done).filter(keep),
        decreases history.anchors.len(),
    {
        let ghost before = history@;
        if let Some(a) = history.anchors.pop_front() {
            let ghost had = kept@;
            proof {
                assert(before.len() > 0);
                assert(history@ =~= before.skip(1));
                assert(all.skip(done).skip(1) =~= all.skip(done + 1));
                assert(all.take(done + 1).drop_last() =~= all.take(done));
                assert(all.take(done + 1).last() == a@) by {
                    assert(before[0] == all[done]);
                }
                reveal(Seq::filter);
                done = done + 1;
            }
            if a.height <= target_h {
                kept.push_back(a);
                assert(models(kept@) =~= models(had).push(a@));
            }
        }
    }
    assert(done == all.len()) by {
        assert(history@.len() == history.anchors@.len());
    }
    assert(all.take(done) =~= all);
    history.anchors = kept;
}

/// Exactly the anchors above the height go, and the others keep their order.
pub proof fn truncating_drops_exactly_what_is_above(s: Seq<AnchorModel>, target_h: u32)
    ensures
        forall|a: AnchorModel| #[trigger]
            cut_above(s, target_h).contains(a) <==> s.contains(a) && a.height <= target_h,
        forall|a: AnchorModel|
            a.height <= target_h ==> #[trigger] cut_above(s, target_h).to_multiset().count(a)
                == s.to_multiset().count(a),
        (forall|i: int| 0 <= i < s.len() ==> (#[trigger] s[i]).height <= target_h) ==> cut_above(
            s,
            target_h,
        ) == s,
        s.len() > 0 ==> cut_above(s, target_h) == if s.last().height <= target_h {
            cut_above(s.drop_last(), target_h).push(s.last())
        } else {
            cut_above(s.drop_last(), target_h)
        },
    decreases s.len(),
{
    broadcast use vstd::seq_lib::group_to_multiset_ensures;

    reveal(Seq::filter);
    if s.len() > 0 {
        let t = s.drop_last();
        truncating_drops_exactly_what_is_above(t, target_h);
        assert(s =~= t.push(s.last()));
        let kept = cut_above(s, target_h);
        let before = cut_above(t, target_h);
        assert forall|a: AnchorModel| #[trigger] kept.contains(a) <==> s.contains(a) && a.height
            <= target_h by {
            assert(before.contains(a) <==> t.contains(a) && a.height <= target_h);
            if t.contains(a) {
                let i = choose|i: int| 0 <= i < t.len() && t[i] == a;
                assert(s[i] == a);
            }
            if before.contains(a) {
                let i = choose|i: int| 0 <= i < before.len() && before[i] == a;
                assert(kept[i] == a);
            }
            if s.last() == a && a.height <= target_h {
                assert(kept.last() == a);
            }
            if kept.contains(a) && a != s.last() {
                let i = choose|i: int| 0 <= i < kept.len() && kept[i] == a;
                assert(before[i] == a);
            }
            if s.contains(a) && a != s.last() {
                let i = choose|i: int| 0 <= i < s.len() && s[i] == a;
                assert(t[i] == a);
            }
        }
        if forall|i: int| 0 <= i < s.len() ==> (#[trigger] s[i]).height <= target_h {
            assert forall|i: int| 0 <= i < t.len() implies (#[trigger] t[i]).height <= target_h by {
                assert(s[i].height <= target_h);
            }
        }
    }
}

/// However many anchors are pushed, no more than the cap are kept, and the newest is the last. The others
/// stay in their order, and the oldest goes only where there are too many.
pub proof fn pushing_keeps_the_newest(s: Seq<AnchorModel>, a: AnchorModel)
    ensures
        newest(s.push(a)).len() <= ANCHOR_HISTORY_CAP,
        newest(s.push(a)).len() > 0,
        newest(s.push(a)).last() == a,
        s.len() < ANCHOR_HISTORY_CAP ==> newest(s.push(a)) == s.push(a),
        s.len() == ANCHOR_HISTORY_CAP ==> newest(s.push(a)).drop_last() == s.skip(1),
{
}

/// Puts the anchors behind their number.
pub fn put_anchors(out: &mut Vec<u8>, h: &AnchorHistory)
    ensures
        forall|rest: Seq<u8>| #[trigger]
            (final(out)@ + rest) == old(out)@ + list_then::<Anchor>(h@, rest),
{
    let n: usize = h.anchors.len();
    crate::wire::put_u64(out, n as u64);
    let ghost start = out@;
    let mut i: usize = 0;
    assert(models(h.anchors@.take(0)) =~= seq![]);
    while i < n
        invariant
            i <= n == h.anchors@.len(),
            forall|rest: Seq<u8>| #[trigger]
                (out@ + rest) == start + crate::wire::items_then::<Anchor>(
                    models(h.anchors@.take(i as int)),
                    rest,
                ),
        decreases n - i,
    {
        let ghost before = out@;
        h.anchors[i].put(out);
        proof {
            let done = models(h.anchors@.take(i as int));
            let m = h.anchors@[i as int].model();
            assert(models(h.anchors@.take(i + 1)) =~= done.push(m));
            assert forall|rest: Seq<u8>| #[trigger]
                (out@ + rest) == start + crate::wire::items_then::<Anchor>(
                    models(h.anchors@.take(i + 1)),
                    rest,
                ) by {
                crate::wire::lemma_items_split::<Anchor>(done, m, rest);
                assert(out@ + rest == before + Anchor::then_bytes(m, rest));
            }
        }
        i += 1;
    }
    assert(h.anchors@.take(i as int) =~= h.anchors@);
}

/// Reads the anchors behind their number.
pub fn take_anchors<'a>(net: NetworkType, s: &'a [u8]) -> (res: Taken<'a, AnchorHistory>)
    ensures
        match parse_list::<Anchor>(net, s@) {
            Ok((v, rest)) => res matches Ok((w, r)) && w@ == v && r@ == rest,
            Err(f) => res matches Err(e) && e@ == f,
        },
{
    let (list, s) = take_list::<Anchor>(net, s)?;
    let ghost all = models(list@);
    let mut list: Vec<Anchor> = list;
    let mut anchors: VecDeque<Anchor> = VecDeque::new();
    assert(models(list@) + models(anchors@) =~= all);
    while list.len() > 0
        invariant
            models(list@) + models(anchors@) == all,
        decreases list.len(),
    {
        let ghost l = list@;
        let ghost a = anchors@;
        if let Some(x) = list.pop() {
            anchors.push_front(x);
        }
        assert(models(list@) + models(anchors@) =~= models(l) + models(a));
    }
    assert(models(anchors@) =~= all);
    Ok((AnchorHistory { anchors }, s))
}

} // verus!
