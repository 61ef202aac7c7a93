//! The note commitment tree in a snapshot.
use crate::shard_form::{a_shard_is_found, is_shard, shard_end, shard_length, MAX_NESTING};
use crate::tree::{
    addressable, cap_bytes, checkpoint_list, empty_shard, in_place, is_located, is_readable, marks_ok,
    new_tree, no_checkpoints, no_shards, position_ok, put_cap, put_checkpoint, put_shard,
    shard_bytes, shard_reads, shard_roots, shards_ok, tree_ok, with_shard, OrchardShardTree,
    TreeModel, TreeStore, MAX_SHARDS, SHARD_LEVEL,
};
use crate::bytes::push_all;
use crate::wire::{
    parse_u32, parse_u64, parse_u8, put_u32, put_u64, put_u8, take_u32, take_u64, take_u8,
    u32_round_trip, u32_then, u64_round_trip, u64_then, u8_round_trip, u8_then, Fault, Parsed,
    PersistError, Taken,
};
use vstd::prelude::*;

verus! {

/// A shard as it is written: level and index of its root, and its bytes.
pub type Shard = (u8, u64, Seq<u8>);

/// A checkpoint as it is written: its id, the position of the last leaf, and the positions whose
/// marks were removed.
pub type Checkpoint = (u32, Option<u64>, Seq<u64>);

/// The bytes of some shards, followed by `rest`.
pub open spec fn shards_then(v: Seq<Shard>, rest: Seq<u8>) -> Seq<u8>
    decreases v.len(),
{
    if v.len() == 0 {
        rest
    } else {
        u8_then(v[0].0, u64_then(v[0].1, v[0].2 + shards_then(v.skip(1), rest)))
    }
}

/// The bytes of some positions, followed by `rest`.
pub open spec fn marks_then(v: Seq<u64>, rest: Seq<u8>) -> Seq<u8>
    decreases v.len(),
{
    if v.len() == 0 {
        rest
    } else {
        u64_then(v[0], marks_then(v.skip(1), rest))
    }
}

/// The bytes of a position that may be missing, followed by `rest`.
pub open spec fn position_then(v: Option<u64>, rest: Seq<u8>) -> Seq<u8> {
    match v {
        None => u8_then(0, rest),
        Some(p) => u8_then(1, u64_then(p, rest)),
    }
}

/// The bytes of a checkpoint, followed by `rest`.
pub open spec fn checkpoint_then(v: Checkpoint, rest: Seq<u8>) -> Seq<u8> {
    u32_then(v.0, position_then(v.1, u64_then(v.2.len() as u64, marks_then(v.2, rest))))
}

/// The bytes of some checkpoints, followed by `rest`.
pub open spec fn checkpoints_then(v: Seq<Checkpoint>, rest: Seq<u8>) -> Seq<u8>
    decreases v.len(),
{
    if v.len() == 0 {
        rest
    } else {
        checkpoint_then(v[0], checkpoints_then(v.skip(1), rest))
    }
}

/// The bytes of a tree: its shards and its checkpoints, each behind their number, and its cap.
pub open spec fn tree_bytes(shards: Seq<Shard>, checkpoints: Seq<Checkpoint>, cap: Seq<u8>) -> Seq<u8> {
    u64_then(
        shards.len() as u64,
        shards_then(
            shards,
            u64_then(checkpoints.len() as u64, checkpoints_then(checkpoints, cap)),
        ),
    )
}

/// What comes of reading the bytes of a shard: these, and what is behind them.
pub open spec fn parse_shard(s: Seq<u8>) -> Option<(Seq<u8>, Seq<u8>)> {
    match shard_end(s, MAX_NESTING as nat) {
        None => None,
        Some(k) => if shard_reads(s.take(k)) {
            Some((s.take(k), s.skip(k)))
        } else {
            None
        },
    }
}

/// What comes of reading `n` shards and putting each in its place among `shards`.
pub open spec fn parse_shards(n: nat, shards: Seq<Shard>, s: Seq<u8>) -> Parsed<Seq<Shard>>
    decreases n,
{
    if n == 0 {
        Ok((shards, s))
    } else {
        match parse_u8(s) {
            Err(f) => Err(f),
            Ok((level, s)) => match parse_u64(s) {
                Err(f) => Err(f),
                Ok((index, s)) => match parse_shard(s) {
                    None => Err(Fault::InvalidValue("bad shard data"@)),
                    Some((shard, s)) => if !is_shard(shard, level as nat) {
                        Err(Fault::InvalidValue("shard root level / address mismatch"@))
                    } else {
                        parse_shards((n - 1) as nat, with_shard(shards, level, index, shard), s)
                    },
                },
            },
        }
    }
}

/// What comes of reading `n` positions behind `marks`.
pub open spec fn parse_marks(n: nat, marks: Seq<u64>, s: Seq<u8>) -> Parsed<Seq<u64>>
    decreases n,
{
    if n == 0 {
        Ok((marks, s))
    } else {
        match parse_u64(s) {
            Err(f) => Err(f),
            Ok((m, s)) => parse_marks((n - 1) as nat, marks.push(m), s),
        }
    }
}

pub open spec fn parse_position(s: Seq<u8>) -> Parsed<Option<u64>> {
    match parse_u8(s) {
        Err(f) => Err(f),
        Ok((tag, s)) => if tag == 0 {
            Ok((None, s))
        } else if tag == 1 {
            match parse_u64(s) {
                Err(f) => Err(f),
                Ok((p, s)) => Ok((Some(p), s)),
            }
        } else {
            Err(Fault::InvalidValue("bad treestate tag"@))
        },
    }
}

pub open spec fn parse_checkpoint(s: Seq<u8>) -> Parsed<Checkpoint> {
    match parse_u32(s) {
        Err(f) => Err(f),
        Ok((id, s)) => match parse_position(s) {
            Err(f) => Err(f),
            Ok((position, s)) => match parse_u64(s) {
                Err(f) => Err(f),
                Ok((n, s)) => match parse_marks(n as usize as nat, seq![], s) {
                    Err(f) => Err(f),
                    Ok((marks, s)) => Ok(((id, position, marks), s)),
                },
            },
        },
    }
}

/// What comes of reading `n` checkpoints and adding each to `c`.
pub open spec fn parse_checkpoints(
    n: nat,
    c: Map<u32, (Option<u64>, Set<u64>)>,
    s: Seq<u8>,
) -> Parsed<Map<u32, (Option<u64>, Set<u64>)>>
    decreases n,
{
    if n == 0 {
        Ok((c, s))
    } else {
        match parse_checkpoint(s) {
            Err(f) => Err(f),
            Ok((v, s)) => parse_checkpoints(
                (n - 1) as nat,
                c.insert(v.0, (v.1, v.2.to_set())),
                s,
            ),
        }
    }
}

/// What comes of reading a tree.
pub open spec fn parse_tree(s: Seq<u8>) -> Result<TreeModel, Fault> {
    match parse_u64(s) {
        Err(f) => Err(f),
        Ok((n, s)) => match parse_shards(n as usize as nat, no_shards(), s) {
            Err(f) => Err(f),
            Ok((shards, s)) => match parse_u64(s) {
                Err(f) => Err(f),
                Ok((n, s)) => match parse_checkpoints(n as usize as nat, no_checkpoints(), s) {
                    Err(f) => Err(f),
                    Ok((checkpoints, s)) => match parse_shard(s) {
                        None => Err(Fault::InvalidValue("bad cap data"@)),
                        Some((cap, _)) => Ok(TreeModel { shards, checkpoints, cap }),
                    },
                },
            },
        },
    }
}

fn take_shard<'a>(s: &'a [u8]) -> (res: Option<(&'a [u8], &'a [u8])>)
    ensures
        match parse_shard(s@) {
            Some((shard, rest)) => res matches Some((b, r)) && b@ == shard && r@ == rest
                && shard_reads(shard) && is_shard(shard, MAX_NESTING as nat),
            None => res is None,
        },
{
    match shard_length(s) {
        None => None,
        Some(k) => {
            let shard = &s[0..k];
            assert(shard@ =~= s@.take(k as int));
            if !is_readable(shard) {
                return None;
            }
            let left = &s[k..s.len()];
            assert(left@ =~= s@.skip(k as int));
            Some((shard, left))
        },
    }
}

/// A shard as it was read.
pub(crate) struct ReadShard {
    level: u8,
    index: u64,
    bytes: Vec<u8>,
}

/// The shards that come of some that were read, each put in its place.
spec fn placed(v: Seq<ReadShard>) -> Seq<Shard>
    decreases v.len(),
{
    if v.len() == 0 {
        no_shards()
    } else {
        let x = v.last();
        with_shard(placed(v.drop_last()), x.level, x.index, x.bytes@)
    }
}

/// Whether a shard that was read can be put in its place.
spec fn placeable(x: ReadShard) -> bool {
    is_shard(x.bytes@, x.level as nat) && shard_reads(x.bytes@)
}

/// A tree as it was read. Its shards may be at any level and at any index.
pub struct StoredTree {
    shards: Vec<ReadShard>,
    /// A tree with the checkpoints and the cap, and without shards.
    store: TreeStore,
}

impl View for StoredTree {
    type V = TreeModel;

    closed spec fn view(&self) -> TreeModel {
        TreeModel { shards: placed(self.shards@), ..self.store@ }
    }
}

proof fn lemma_placed(v: Seq<ReadShard>)
    requires
        forall|i: int| 0 <= i < v.len() ==> placeable(#[trigger] v[i]),
    ensures
        in_place(placed(v)),
        forall|k: int|
            0 <= k < placed(v).len() ==> is_shard((#[trigger] placed(v)[k]).2, placed(v)[k].0 as nat),
        forall|i: int| 0 <= i < v.len() ==> (#[trigger] v[i]).index < placed(v).len(),
    decreases v.len(),
{
    if v.len() > 0 {
        let t = v.drop_last();
        let x = v.last();
        assert forall|i: int| 0 <= i < t.len() implies placeable(#[trigger] t[i]) by {
            assert(t[i] == v[i]);
        }
        lemma_placed(t);
        assert(placeable(v[v.len() - 1]));
        let p = placed(t);
        assert forall|k: int| 0 <= k < placed(v).len() implies is_shard(
            (#[trigger] placed(v)[k]).2,
            placed(v)[k].0 as nat,
        ) by {
            if k == x.index {
            } else if k < p.len() {
                assert(placed(v)[k] == p[k]);
            } else {
                assert(placed(v)[k].2 =~= empty_shard());
            }
        }
        assert forall|i: int| 0 <= i < v.len() implies (#[trigger] v[i]).index < placed(v).len() by {
            if i < t.len() {
                assert(v[i] == t[i]);
            }
        }
    }
}

/// The levels of some shards.
spec fn levels(v: Seq<Shard>) -> Seq<u8> {
    Seq::new(v.len(), |i: int| v[i].0)
}

impl StoredTree {
    #[verifier::type_invariant]
    spec fn inv(self) -> bool {
        &&& forall|i: int| 0 <= i < self.shards@.len() ==> placeable(#[trigger] self.shards@[i])
        &&& self.store@.shards == no_shards()
        &&& self.store@.checkpoints.dom().finite()
        &&& is_shard(self.store@.cap, MAX_NESTING as nat)
    }

    /// Whether each place has a shard of the right level, and there are no more of them than a tree has.
    fn shards_are_sound(&self) -> (r: bool)
        ensures
            r == shards_ok(self@.shards),
    {
        proof {
            use_type_invariant(self);
            lemma_placed(self.shards@);
        }
        let v = &self.shards;
        let mut found: Vec<u8> = Vec::new();
        let mut i: usize = 0;
        assert(found@ =~= levels(placed(v@.take(0))));
        while i < v.len()
            invariant
                i <= v@.len(),
                v@ == self.shards@,
                self@.shards == placed(v@),
                forall|k: int| 0 <= k < v@.len() ==> (#[trigger] v@[k]).index < placed(v@).len(),
                found@ == levels(placed(v@.take(i as int))),
            decreases v.len() - i,
        {
            let (level, index): (u8, u64) = (v[i].level, v[i].index);
            if index >= MAX_SHARDS {
                assert(v@[i as int].index < placed(v@).len());
                return false;
            }
            let ghost before = placed(v@.take(i as int));
            let ghost after = placed(v@.take(i + 1));
            proof {
                assert(v@.take(i + 1).drop_last() =~= v@.take(i as int));
                assert(after == with_shard(before, level, index, v@[i as int].bytes@));
            }
            let at: usize = index as usize;
            if at < found.len() {
                found.set(at, level);
            } else {
                let ghost had = found@;
                while found.len() <= at
                    invariant
                        had.len() <= found@.len() <= at + 1,
                        found@.take(had.len() as int) == had,
                        forall|k: int| had.len() <= k < found@.len() ==> #[trigger] found@[k] == level,
                    decreases at + 1 - found.len(),
                {
                    let ghost f = found@;
                    found.push(level);
                    assert(found@.take(had.len() as int) =~= f.take(had.len() as int));
                }
                assert forall|k: int| 0 <= k < had.len() implies found@[k] == had[k] by {
                    assert(found@.take(had.len() as int)[k] == had[k]);
                }
            }
            assert(found@.len() == after.len());
            assert forall|k: int| 0 <= k < after.len() implies found@[k] == #[trigger] after[k].0 by {
                if k < before.len() {
                    assert(levels(before)[k] == before[k].0);
                }
            }
            assert(found@ =~= levels(after));
            i += 1;
        }
        assert(v@.take(i as int) =~= v@);
        let n: usize = found.len();
        assert(n == placed(v@).len());
        if n as u64 > MAX_SHARDS {
            return false;
        }
        let mut k: usize = 0;
        while k < n
            invariant
                k <= n == found@.len(),
                found@ == levels(placed(v@)),
                self@.shards == placed(v@),
                forall|j: int| 0 <= j < k ==> (#[trigger] placed(v@)[j]).0 == SHARD_LEVEL,
            decreases n - k,
        {
            assert(found@[k as int] == placed(v@)[k as int].0);
            if found[k] != SHARD_LEVEL {
                return false;
            }
            k += 1;
        }
        true
    }

    /// Whether this is a tree that can be worked on: `shardtree` asks that every shard be at the height
    /// of shards, and that positions can be counted on.
    pub fn is_sound(&self) -> (r: bool)
        ensures
            r == tree_ok(self@),
    {
        proof {
            use_type_invariant(self);
        }
        if !self.shards_are_sound() {
            return false;
        }
        let list = checkpoint_list(&self.store);
        let ghost c = self@.checkpoints;
        let mut i: usize = 0;
        while i < list.len()
            invariant
                i <= list@.len(),
                c == self@.checkpoints,
                forall|k: int|
                    0 <= k < list@.len() ==> c.contains_key(#[trigger] list@[k].0) && c[list@[k].0] == (
                        list@[k].1,
                        list@[k].2@.to_set(),
                    ),
                forall|k: int|
                    0 <= k < i ==> position_ok((#[trigger] list@[k]).1) && marks_ok(
                        list@[k].2@.to_set(),
                    ),
            decreases list.len() - i,
        {
            assert(c.contains_key(list@[i as int].0));
            if let Some(p) = list[i].1 {
                if p == u64::MAX || !is_addressable(p) {
                    return false;
                }
            }
            if !marks_are_addressable(&list[i].2) {
                return false;
            }
            i += 1;
        }
        assert forall|id: u32| #[trigger] c.contains_key(id) implies position_ok(c[id].0) && marks_ok(
            c[id].1,
        ) by {
            let k = choose|k: int| 0 <= k < list@.len() && #[trigger] list@[k].0 == id;
            assert(position_ok(list@[k].1));
        }
        true
    }

    /// The tree that was read, to be worked on.
    pub fn open(self) -> (t: OrchardShardTree)
        requires
            tree_ok(self@),
        ensures
            t@ == self@,
    {
        proof {
            use_type_invariant(&self);
            lemma_placed(self.shards@);
        }
        let ghost want = self@;
        let StoredTree { shards, mut store } = self;
        let ghost empty = store@;
        let mut i: usize = 0;
        assert(placed(shards@.take(0)) =~= no_shards());
        while i < shards.len()
            invariant
                i <= shards@.len(),
                want == (TreeModel { shards: placed(shards@), ..empty }),
                placed(shards@).len() <= MAX_SHARDS,
                forall|k: int| 0 <= k < shards@.len() ==> placeable(#[trigger] shards@[k]),
                forall|k: int|
                    0 <= k < shards@.len() ==> (#[trigger] shards@[k]).index < placed(shards@).len(),
                store@ == (TreeModel { shards: placed(shards@.take(i as int)), ..empty }),
            decreases shards.len() - i,
        {
            let x = &shards[i];
            proof {
                let t = shards@.take(i as int);
                assert forall|k: int| 0 <= k < t.len() implies placeable(#[trigger] t[k]) by {
                    assert(t[k] == shards@[k]);
                }
                lemma_placed(t);
                assert(placeable(shards@[i as int]));
                assert(shards@[i as int].index < placed(shards@).len());
                assert(shards@.take(i + 1).drop_last() =~= t);
            }
            put_shard(&mut store, x.level, x.index, &x.bytes);
            i += 1;
        }
        assert(shards@.take(i as int) =~= shards@);
        OrchardShardTree::from_store(store)
    }
}

fn marks_are_addressable(marks: &Vec<u64>) -> (r: bool)
    ensures
        r == marks_ok(marks@.to_set()),
{
    let mut i: usize = 0;
    while i < marks.len()
        invariant
            i <= marks@.len(),
            forall|k: int| 0 <= k < i ==> addressable(#[trigger] marks@[k]),
        decreases marks.len() - i,
    {
        if !is_addressable(marks[i]) {
            assert(marks@.to_set().contains(marks@[i as int]));
            return false;
        }
        i += 1;
    }
    assert forall|m: u64| #[trigger] marks@.to_set().contains(m) implies addressable(m) by {
        assert(marks@.contains(m));
    }
    true
}

fn take_shards<'a>(n: usize, s: &'a [u8]) -> (res: Taken<'a, Vec<ReadShard>>)
    ensures
        match parse_shards(n as nat, no_shards(), s@) {
            Ok((v, rest)) => res matches Ok((w, r)) && r@ == rest && placed(w@) == v && forall|i: int|
                0 <= i < w@.len() ==> placeable(#[trigger] w@[i]),
            Err(f) => res matches Err(e) && e@ == f,
        },
{
    let mut left: &'a [u8] = s;
    let mut shards: Vec<ReadShard> = Vec::new();
    let mut i: usize = 0;
    while i < n
        invariant
            i <= n,
            forall|k: int| 0 <= k < shards@.len() ==> placeable(#[trigger] shards@[k]),
            parse_shards(n as nat, no_shards(), s@) == parse_shards(
                (n - i) as nat,
                placed(shards@),
                left@,
            ),
        decreases n - i,
    {
        let (level, t) = take_u8(left)?;
        let (index, t) = take_u64(t)?;
        let (shard, t) = match take_shard(t) {
            Some(v) => v,
            None => {
                return Err(PersistError::InvalidValue("bad shard data"));
            },
        };
        if !is_located(level, index, shard) {
            return Err(PersistError::InvalidValue("shard root level / address mismatch"));
        }
        let mut bytes: Vec<u8> = Vec::new();
        push_all(&mut bytes, shard);
        assert(bytes@ =~= shard@);
        let ghost before = shards@;
        shards.push(ReadShard { level, index, bytes });
        assert(shards@.drop_last() =~= before);
        left = t;
        i += 1;
    }
    Ok((shards, left))
}

/// Whether the shard that holds a position can be addressed.
fn is_addressable(position: u64) -> (r: bool)
    ensures
        r == addressable(position),
{
    position / 65536 <= usize::MAX as u64
}

fn take_marks<'a>(n: usize, s: &'a [u8]) -> (res: Taken<'a, Vec<u64>>)
    ensures
        match parse_marks(n as nat, seq![], s@) {
            Ok((v, rest)) => res matches Ok((w, r)) && w@ == v && r@ == rest,
            Err(f) => res matches Err(e) && e@ == f,
        },
{
    let mut left: &'a [u8] = s;
    let mut marks: Vec<u64> = Vec::new();
    let mut i: usize = 0;
    while i < n
        invariant
            i <= n,
            parse_marks(n as nat, seq![], s@) == parse_marks((n - i) as nat, marks@, left@),
        decreases n - i,
    {
        let (m, t) = take_u64(left)?;
        marks.push(m);
        left = t;
        i += 1;
    }
    Ok((marks, left))
}

fn take_position<'a>(s: &'a [u8]) -> (res: Taken<'a, Option<u64>>)
    ensures
        crate::wire::taken(res, parse_position(s@)),
{
    let (tag, s) = take_u8(s)?;
    if tag == 0 {
        Ok((None, s))
    } else if tag == 1 {
        let (p, s) = take_u64(s)?;
        Ok((Some(p), s))
    } else {
        Err(PersistError::InvalidValue("bad treestate tag"))
    }
}

fn take_checkpoints<'a>(n: usize, tree: &mut TreeStore, s: &'a [u8]) -> (res: Taken<'a, ()>)
    requires
        old(tree)@.checkpoints.dom().finite(),
    ensures
        match parse_checkpoints(n as nat, old(tree)@.checkpoints, s@) {
            Ok((v, rest)) => res matches Ok((_, r)) && r@ == rest && v.dom().finite() && final(tree)@
                == (TreeModel { checkpoints: v, ..old(tree)@ }),
            Err(f) => res matches Err(e) && e@ == f,
        },
{
    let mut left: &'a [u8] = s;
    let mut i: usize = 0;
    while i < n
        invariant
            i <= n,
            tree@.checkpoints.dom().finite(),
            parse_checkpoints(n as nat, old(tree)@.checkpoints, s@) == parse_checkpoints(
                (n - i) as nat,
                tree@.checkpoints,
                left@,
            ),
            tree@ == (TreeModel { checkpoints: tree@.checkpoints, ..old(tree)@ }),
        decreases n - i,
    {
        let (id, t) = take_u32(left)?;
        let (position, t) = take_position(t)?;
        let (count, t) = take_u64(t)?;
        let (marks, t) = take_marks(count as usize, t)?;
        put_checkpoint(tree, id, position, &marks);
        left = t;
        i += 1;
    }
    Ok(((), left))
}

/// Reads a tree.
pub fn read_orchard_tree(buf: &[u8]) -> (res: Result<StoredTree, PersistError>)
    ensures
        match parse_tree(buf@) {
            Ok(m) => res matches Ok(t) && t@ == m,
            Err(f) => res matches Err(e) && e@ == f,
        },
{
    let mut store = new_tree();
    let (n, s) = take_u64(buf)?;
    let (shards, s) = take_shards(n as usize, s)?;
    let (n, s) = take_u64(s)?;
    let (_, s) = take_checkpoints(n as usize, &mut store, s)?;
    let cap = match take_shard(s) {
        Some((cap, _)) => cap,
        None => {
            return Err(PersistError::InvalidValue("bad cap data"));
        },
    };
    put_cap(&mut store, cap);
    Ok(StoredTree { shards, store })
}

/// Checkpoints as they are written list those of a map: each once, by ascending id, with as many marks
/// as can be counted.
pub open spec fn lists_checkpoints(v: Seq<Checkpoint>, c: Map<u32, (Option<u64>, Set<u64>)>) -> bool {
    &&& v.len() <= usize::MAX
    &&& forall|i: int| 0 <= i < v.len() ==> (#[trigger] v[i]).2.len() <= usize::MAX
    &&& forall|i: int, j: int| 0 <= i < j < v.len() ==> #[trigger] v[i].0 < #[trigger] v[j].0
    &&& forall|i: int|
        0 <= i < v.len() ==> c.contains_key(#[trigger] v[i].0) && c[v[i].0] == (
            v[i].1,
            v[i].2.to_set(),
        )
    &&& forall|id: u32| c.contains_key(id) ==> exists|i: int| 0 <= i < v.len() && #[trigger] v[i].0 == id
}

/// Whether some bytes are those of a tree.
pub open spec fn is_tree_blob(b: Seq<u8>, tree: TreeModel) -> bool {
    exists|c: Seq<Checkpoint>|
        lists_checkpoints(c, tree.checkpoints) && b == #[trigger] tree_bytes(
            tree.shards,
            c,
            tree.cap,
        )
}

/// Whether the shards and the cap of a tree are bytes that can be read.
pub open spec fn is_readable_tree(m: TreeModel) -> bool {
    &&& forall|i: int| 0 <= i < m.shards.len() ==> shard_reads(#[trigger] m.shards[i].2)
    &&& shard_reads(m.cap)
}

proof fn lemma_shard_read_back(b: Seq<u8>, rest: Seq<u8>, depth: nat)
    requires
        is_shard(b, depth),
        depth <= MAX_NESTING,
        shard_reads(b),
    ensures
        parse_shard(b + rest) == Some((b, rest)),
{
    a_shard_is_found(b, rest, depth, MAX_NESTING as nat);
    assert((b + rest).take(b.len() as int) =~= b);
    assert((b + rest).skip(b.len() as int) =~= rest);
}

proof fn lemma_shards_read_back(v: Seq<Shard>, k: nat, rest: Seq<u8>)
    requires
        shards_ok(v),
        forall|i: int| 0 <= i < v.len() ==> shard_reads(#[trigger] v[i].2),
        k <= v.len(),
    ensures
        parse_shards((v.len() - k) as nat, v.take(k as int), shards_then(v.skip(k as int), rest))
            == Ok::<(Seq<Shard>, Seq<u8>), Fault>((v, rest)),
    decreases v.len() - k,
{
    broadcast use {u8_round_trip, u64_round_trip};

    if k < v.len() {
        let tail = v.skip(k as int);
        assert(tail[0] == v[k as int]);
        assert(tail.skip(1) =~= v.skip(k as int + 1));
        let after = shards_then(v.skip(k as int + 1), rest);
        let b = v[k as int].2;
        lemma_shard_read_back(b, after, SHARD_LEVEL as nat);
        let grown = with_shard(v.take(k as int), SHARD_LEVEL, v[k as int].1, b);
        assert(grown =~= v.take(k as int + 1)) by {
            assert(v.take(k as int).len() == k);
        }
        lemma_shards_read_back(v, k + 1, rest);
    } else {
        assert(v.take(k as int) =~= v);
    }
}

proof fn lemma_marks_read_back(v: Seq<u64>, k: nat, rest: Seq<u8>)
    requires
        k <= v.len(),
    ensures
        parse_marks((v.len() - k) as nat, v.take(k as int), marks_then(v.skip(k as int), rest))
            == Ok::<(Seq<u64>, Seq<u8>), Fault>((v, rest)),
    decreases v.len() - k,
{
    broadcast use u64_round_trip;

    if k < v.len() {
        let tail = v.skip(k as int);
        assert(tail.skip(1) =~= v.skip(k as int + 1));
        assert(v.take(k as int).push(v[k as int]) =~= v.take(k as int + 1));
        lemma_marks_read_back(v, k + 1, rest);
    } else {
        assert(v.take(k as int) =~= v);
    }
}

proof fn lemma_checkpoint_read_back(v: Checkpoint, rest: Seq<u8>)
    requires
        v.2.len() <= usize::MAX,
    ensures
        parse_checkpoint(checkpoint_then(v, rest)) == Ok::<(Checkpoint, Seq<u8>), Fault>((v, rest)),
{
    broadcast use {u8_round_trip, u32_round_trip, u64_round_trip};

    assert(v.2.take(0) =~= seq![]);
    assert(v.2.skip(0) =~= v.2);
    lemma_marks_read_back(v.2, 0, rest);
}

/// The checkpoints of the first entries of a list.
spec fn checkpoint_map(v: Seq<Checkpoint>) -> Map<u32, (Option<u64>, Set<u64>)>
    decreases v.len(),
{
    if v.len() == 0 {
        no_checkpoints()
    } else {
        checkpoint_map(v.drop_last()).insert(v.last().0, (v.last().1, v.last().2.to_set()))
    }
}

proof fn lemma_checkpoints_read_back(v: Seq<Checkpoint>, k: nat, rest: Seq<u8>)
    requires
        forall|i: int| 0 <= i < v.len() ==> (#[trigger] v[i]).2.len() <= usize::MAX,
        k <= v.len(),
    ensures
        parse_checkpoints(
            (v.len() - k) as nat,
            checkpoint_map(v.take(k as int)),
            checkpoints_then(v.skip(k as int), rest),
        ) == Ok::<(Map<u32, (Option<u64>, Set<u64>)>, Seq<u8>), Fault>((checkpoint_map(v), rest)),
    decreases v.len() - k,
{
    if k < v.len() {
        let tail = v.skip(k as int);
        assert(tail[0] == v[k as int]);
        assert(tail.skip(1) =~= v.skip(k as int + 1));
        assert(v.take(k as int + 1).drop_last() =~= v.take(k as int));
        lemma_checkpoint_read_back(v[k as int], checkpoints_then(v.skip(k as int + 1), rest));
        lemma_checkpoints_read_back(v, k + 1, rest);
    } else {
        assert(v.take(k as int) =~= v);
    }
}

proof fn lemma_checkpoint_map(v: Seq<Checkpoint>, k: nat)
    requires
        forall|i: int, j: int| 0 <= i < j < v.len() ==> #[trigger] v[i].0 < #[trigger] v[j].0,
        k <= v.len(),
    ensures
        forall|i: int|
            0 <= i < k ==> checkpoint_map(v.take(k as int)).contains_key(#[trigger] v[i].0)
                && checkpoint_map(v.take(k as int))[v[i].0] == (v[i].1, v[i].2.to_set()),
        forall|id: u32| #[trigger]
            checkpoint_map(v.take(k as int)).contains_key(id) ==> exists|i: int|
                0 <= i < k && #[trigger] v[i].0 == id,
    decreases k,
{
    if k > 0 {
        let p = (k - 1) as nat;
        lemma_checkpoint_map(v, p);
        assert(v.take(k as int).drop_last() =~= v.take(p as int));
        assert(v.take(k as int).last() == v[p as int]);
        assert forall|i: int| 0 <= i < k implies checkpoint_map(v.take(k as int)).contains_key(
            #[trigger] v[i].0,
        ) && checkpoint_map(v.take(k as int))[v[i].0] == (v[i].1, v[i].2.to_set()) by {
            if i < p {
                assert(v[i].0 < v[p as int].0);
            }
        }
        assert forall|id: u32| #[trigger]
            checkpoint_map(v.take(k as int)).contains_key(id) implies exists|i: int|
            0 <= i < k && #[trigger] v[i].0 == id by {
            if id == v[p as int].0 {
            } else {
                assert(checkpoint_map(v.take(p as int)).contains_key(id));
                let i = choose|i: int| 0 <= i < p && #[trigger] v[i].0 == id;
                assert(v[i].0 == id);
            }
        }
    }
}

/// The bytes of a tree are read back as that tree, however its checkpoints are listed.
pub proof fn tree_round_trip(b: Seq<u8>, m: TreeModel)
    requires
        is_tree_blob(b, m),
        tree_ok(m),
        is_readable_tree(m),
    ensures
        parse_tree(b) == Ok::<TreeModel, Fault>(m),
{
    let checkpoints = choose|c: Seq<Checkpoint>|
        lists_checkpoints(c, m.checkpoints) && b == #[trigger] tree_bytes(m.shards, c, m.cap);
    lemma_tree_read_back(checkpoints, m);
}

proof fn lemma_tree_read_back(checkpoints: Seq<Checkpoint>, m: TreeModel)
    requires
        lists_checkpoints(checkpoints, m.checkpoints),
        tree_ok(m),
        is_readable_tree(m),
    ensures
        parse_tree(tree_bytes(m.shards, checkpoints, m.cap)) == Ok::<TreeModel, Fault>(m),
{
    let shards = m.shards;
    broadcast use u64_round_trip;

    let c = checkpoint_map(checkpoints);
    assert(c =~= m.checkpoints) by {
        lemma_checkpoint_map(checkpoints, checkpoints.len());
        assert(checkpoints.take(checkpoints.len() as int) =~= checkpoints);
        assert forall|id: u32| m.checkpoints.contains_key(id) implies c.contains_key(id) by {
            let i = choose|i: int| 0 <= i < checkpoints.len() && #[trigger] checkpoints[i].0 == id;
            assert(c.contains_key(checkpoints[i].0));
        }
        assert forall|id: u32| c.contains_key(id) implies m.checkpoints.contains_key(id)
            && m.checkpoints[id] == c[id] by {
            let i = choose|i: int| 0 <= i < checkpoints.len() && #[trigger] checkpoints[i].0 == id;
            assert(checkpoints[i].0 == id);
        }
    }
    let after = u64_then(checkpoints.len() as u64, checkpoints_then(checkpoints, m.cap));
    assert(shards.take(0) =~= no_shards());
    assert(shards.skip(0) =~= shards);
    lemma_shards_read_back(shards, 0, after);
    assert(checkpoints.take(0) =~= seq![]);
    assert(checkpoints.skip(0) =~= checkpoints);
    lemma_checkpoints_read_back(checkpoints, 0, m.cap);
    assert(m.cap + Seq::<u8>::empty() =~= m.cap);
    lemma_shard_read_back(m.cap, seq![], MAX_NESTING as nat);
}

proof fn lemma_shards_split(v: Seq<Shard>, x: Shard, rest: Seq<u8>)
    ensures
        shards_then(v.push(x), rest) == shards_then(v, shards_then(seq![x], rest)),
    decreases v.len(),
{
    if v.len() > 0 {
        assert(v.push(x).skip(1) =~= v.skip(1).push(x));
        lemma_shards_split(v.skip(1), x, rest);
    } else {
        assert(v.push(x) =~= seq![x]);
    }
}

proof fn lemma_marks_split(v: Seq<u64>, x: u64, rest: Seq<u8>)
    ensures
        marks_then(v.push(x), rest) == marks_then(v, u64_then(x, rest)),
    decreases v.len(),
{
    reveal_with_fuel(marks_then, 2);
    if v.len() > 0 {
        assert(v.push(x).skip(1) =~= v.skip(1).push(x));
        lemma_marks_split(v.skip(1), x, rest);
    } else {
        assert(v.push(x).skip(1) =~= seq![]);
    }
}

proof fn lemma_checkpoints_split(v: Seq<Checkpoint>, x: Checkpoint, rest: Seq<u8>)
    ensures
        checkpoints_then(v.push(x), rest) == checkpoints_then(v, checkpoint_then(x, rest)),
    decreases v.len(),
{
    reveal_with_fuel(checkpoints_then, 2);
    if v.len() > 0 {
        assert(v.push(x).skip(1) =~= v.skip(1).push(x));
        lemma_checkpoints_split(v.skip(1), x, rest);
    } else {
        assert(v.push(x).skip(1) =~= seq![]);
    }
}

fn put_shards(out: &mut Vec<u8>, tree: &TreeStore)
    requires
        shards_ok(tree@.shards),
    ensures
        forall|rest: Seq<u8>| #[trigger]
            (final(out)@ + rest) == old(out)@ + u64_then(
                tree@.shards.len() as u64,
                shards_then(tree@.shards, rest),
            ),
        forall|i: int| 0 <= i < tree@.shards.len() ==> shard_reads(#[trigger] tree@.shards[i].2),
{
    let roots = shard_roots(tree);
    put_u64(out, roots.len() as u64);
    let ghost start = out@;
    let ghost shards = tree@.shards;
    let mut i: usize = 0;
    assert(shards.take(0) =~= seq![]);
    while i < roots.len()
        invariant
            i <= roots@.len() == shards.len(),
            shards == tree@.shards,
            shards_ok(shards),
            forall|k: int|
                0 <= k < roots@.len() ==> #[trigger] roots@[k] == (shards[k].0, shards[k].1),
            forall|k: int| 0 <= k < i ==> shard_reads(#[trigger] shards[k].2),
            forall|rest: Seq<u8>| #[trigger]
                (out@ + rest) == start + shards_then(shards.take(i as int), rest),
        decreases roots.len() - i,
    {
        let ghost before = out@;
        let (level, index) = roots[i];
        assert(roots@[i as int] == (shards[i as int].0, shards[i as int].1));
        put_u8(out, level);
        put_u64(out, index);
        let b = shard_bytes(tree, level, index);
        let ghost mid = out@;
        push_all(out, &b);
        proof {
            let x = shards[i as int];
            assert(x == (level, index, b@));
            assert(shards.take(i + 1) =~= shards.take(i as int).push(x));
            assert forall|rest: Seq<u8>| #[trigger]
                (out@ + rest) == start + shards_then(shards.take(i + 1), rest) by {
                lemma_shards_split(shards.take(i as int), x, rest);
                assert(out@ + rest =~= mid + (b@ + rest));
                reveal_with_fuel(shards_then, 2);
                assert(seq![x].skip(1) =~= seq![]);
                assert(shards_then(seq![x], rest) == u8_then(level, u64_then(index, b@ + rest)));
                assert(mid + (b@ + rest) == before + u8_then(level, u64_then(index, b@ + rest)));
            }
        }
        i += 1;
    }
    assert(shards.take(i as int) =~= shards);
}

fn put_marks(out: &mut Vec<u8>, marks: &[u64])
    ensures
        forall|rest: Seq<u8>| #[trigger]
            (final(out)@ + rest) == old(out)@ + u64_then(
                marks@.len() as u64,
                marks_then(marks@, rest),
            ),
{
    put_u64(out, marks.len() as u64);
    let ghost start = out@;
    let mut i: usize = 0;
    assert(marks@.take(0) =~= seq![]);
    while i < marks.len()
        invariant
            i <= marks@.len(),
            forall|rest: Seq<u8>| #[trigger]
                (out@ + rest) == start + marks_then(marks@.take(i as int), rest),
        decreases marks.len() - i,
    {
        let ghost before = out@;
        put_u64(out, marks[i]);
        proof {
            let x = marks@[i as int];
            assert(marks@.take(i + 1) =~= marks@.take(i as int).push(x));
            assert forall|rest: Seq<u8>| #[trigger]
                (out@ + rest) == start + marks_then(marks@.take(i + 1), rest) by {
                lemma_marks_split(marks@.take(i as int), x, rest);
                assert(out@ + rest == before + u64_then(x, rest));
            }
        }
        i += 1;
    }
    assert(marks@.take(i as int) =~= marks@);
}

/// Listed checkpoints as they are written.
pub open spec fn listed(v: Seq<(u32, Option<u64>, Vec<u64>)>) -> Seq<Checkpoint> {
    Seq::new(v.len(), |i: int| (v[i].0, v[i].1, v[i].2@))
}

fn put_checkpoints(out: &mut Vec<u8>, v: &[(u32, Option<u64>, Vec<u64>)])
    ensures
        forall|rest: Seq<u8>| #[trigger]
            (final(out)@ + rest) == old(out)@ + u64_then(
                v@.len() as u64,
                checkpoints_then(listed(v@), rest),
            ),
{
    put_u64(out, v.len() as u64);
    let ghost start = out@;
    let ghost all = listed(v@);
    let mut i: usize = 0;
    assert(all.take(0) =~= seq![]);
    while i < v.len()
        invariant
            i <= v@.len(),
            all == listed(v@),
            forall|rest: Seq<u8>| #[trigger]
                (out@ + rest) == start + checkpoints_then(all.take(i as int), rest),
        decreases v.len() - i,
    {
        let ghost before = out@;
        put_u32(out, v[i].0);
        match v[i].1 {
            None => put_u8(out, 0),
            Some(p) => {
                put_u8(out, 1);
                put_u64(out, p);
            },
        }
        put_marks(out, &v[i].2);
        proof {
            let x = all[i as int];
            assert(all.take(i + 1) =~= all.take(i as int).push(x));
            assert forall|rest: Seq<u8>| #[trigger]
                (out@ + rest) == start + checkpoints_then(all.take(i + 1), rest) by {
                lemma_checkpoints_split(all.take(i as int), x, rest);
                assert(out@ + rest == before + checkpoint_then(x, rest));
            }
        }
        i += 1;
    }
    assert(all.take(i as int) =~= all);
}

/// The bytes of the tree, from which it can be read back.
pub fn serialize_orchard_tree(tree: &OrchardShardTree) -> (r: Vec<u8>)
    ensures
        is_tree_blob(r@, tree@),
        is_readable_tree(tree@),
        parse_tree(r@) == Ok::<TreeModel, Fault>(tree@),
{
    let tree = tree.store();
    let mut out: Vec<u8> = Vec::new();
    put_shards(&mut out, tree);
    let list = checkpoint_list(tree);
    put_checkpoints(&mut out, &list);
    let cap = cap_bytes(tree);
    let ghost mid = out@;
    push_all(&mut out, &cap);
    proof {
        let c = listed(list@);
        assert(out@ =~= mid + cap@);
        assert(mid + cap@ =~= Seq::<u8>::empty() + tree_bytes(tree@.shards, c, tree@.cap));
        assert(Seq::<u8>::empty() + tree_bytes(tree@.shards, c, tree@.cap) =~= tree_bytes(
            tree@.shards,
            c,
            tree@.cap,
        ));
        assert(lists_checkpoints(c, tree@.checkpoints)) by {
            assert(list.len() == list@.len());
            assert forall|i: int| 0 <= i < c.len() implies (#[trigger] c[i]).2.len() <= usize::MAX by {
                assert(list@[i].2.len() == list@[i].2@.len());
            }
            assert forall|i: int| 0 <= i < c.len() implies tree@.checkpoints.contains_key(
                #[trigger] c[i].0,
            ) && tree@.checkpoints[c[i].0] == (c[i].1, c[i].2.to_set()) by {
                assert(list@[i].0 == c[i].0);
            }
            assert forall|i: int, j: int| 0 <= i < j < c.len() implies #[trigger] c[i].0
                < #[trigger] c[j].0 by {
                assert(list@[i].0 < list@[j].0);
            }
            assert forall|id: u32| tree@.checkpoints.contains_key(id) implies exists|i: int|
                0 <= i < c.len() && #[trigger] c[i].0 == id by {
                let i = choose|i: int| 0 <= i < list@.len() && #[trigger] list@[i].0 == id;
                assert(c[i].0 == id);
            }
        }
        tree_round_trip(out@, tree@);
    }
    out
}

} // verus!
