//! The memos of a transaction.
use crate::full_tx::{found_received, found_sent, see_received, see_sent};
use crate::orchard_scan::{received_note, sent_note, OrchardAction, PreparedKeys, Scope};
use crate::text::texts;
use crate::wallet_tx::{string_from_utf8_lossy, utf8_lossy};
use vstd::prelude::*;
use vstd::string::StrSliceExecFns;

verus! {

/// The memos of some actions, of the received notes or of the sent ones. An empty one is passed over.
pub open spec fn memos_of(keys: PreparedKeys, actions: Seq<OrchardAction>, sent: bool) -> Seq<
    Seq<char>,
>
    decreases actions.len(),
{
    if actions.len() == 0 {
        seq![]
    } else {
        let before = memos_of(keys, actions.drop_last(), sent);
        let found = if sent {
            found_sent(keys, actions.last())
        } else {
            found_received(keys, actions.last())
        };
        match found {
            Some(f) if utf8_lossy(f.memo@).len() > 0 => before.push(utf8_lossy(f.memo@)),
            _ => before,
        }
    }
}

fn collect_memos(keys: &PreparedKeys, actions: &Vec<OrchardAction>, sent: bool) -> (r: Vec<String>)
    ensures
        texts(r@) == memos_of(*keys, actions@, sent),
{
    let mut memos: Vec<String> = Vec::new();
    let mut i: usize = 0;
    assert(actions@.take(0) =~= seq![]);
    assert(texts(memos@) =~= seq![]);
    while i < actions.len()
        invariant
            i <= actions@.len(),
            texts(memos@) == memos_of(*keys, actions@.take(i as int), sent),
        decreases actions@.len() - i,
    {
        assert(actions@.take(i + 1).drop_last() =~= actions@.take(i as int));
        let found = if sent {
            see_sent(keys, &actions[i])
        } else {
            see_received(keys, &actions[i])
        };
        if let Some(f) = found {
            let memo = string_from_utf8_lossy(&f.memo);
            if memo.as_str().unicode_len() > 0 {
                let ghost before = texts(memos@);
                let ghost text = memo@;
                memos.push(memo);
                assert(texts(memos@) =~= before.push(text));
            }
        }
        i += 1;
    }
    assert(actions@.take(i as int) =~= actions@);
    memos
}

/// The memos of the notes that a key received.
pub fn received_memos(keys: &PreparedKeys, actions: &Vec<OrchardAction>) -> (r: Vec<String>)
    ensures
        texts(r@) == memos_of(*keys, actions@, false),
{
    collect_memos(keys, actions, false)
}

/// The memos of the notes that a key sent.
pub fn sent_memos(keys: &PreparedKeys, actions: &Vec<OrchardAction>) -> (r: Vec<String>)
    ensures
        texts(r@) == memos_of(*keys, actions@, true),
{
    collect_memos(keys, actions, true)
}

/// Every note that a key can tell to have received, or to have sent, gives its memo, unless that is empty,
/// and nothing else does. The memos stand in the order of the actions.
pub proof fn every_memo_is_listed(
    fvk: [u8; 96],
    keys: PreparedKeys,
    actions: Seq<OrchardAction>,
    a: OrchardAction,
)
    requires
        keys.orchard_fvk == Some(fvk),
    ensures
        ({
            let internal = keys.scope == Scope::Internal;
            let got = received_note(fvk, internal, a.bytes());
            let made = sent_note(fvk, internal, a.bytes());
            &&& memos_of(keys, actions.push(a), false) == if got is Some && utf8_lossy(
                got->Some_0.memo@,
            ).len() > 0 {
                memos_of(keys, actions, false).push(utf8_lossy(got->Some_0.memo@))
            } else {
                memos_of(keys, actions, false)
            }
            &&& keys.finds_sent ==> memos_of(keys, actions.push(a), true) == if made is Some
                && utf8_lossy(made->Some_0.memo@).len() > 0 {
                memos_of(keys, actions, true).push(utf8_lossy(made->Some_0.memo@))
            } else {
                memos_of(keys, actions, true)
            }
            &&& !keys.finds_sent ==> memos_of(keys, actions.push(a), true) == memos_of(
                keys,
                actions,
                true,
            )
        }),
{
    assert(actions.push(a).drop_last() =~= actions);
}

} // verus!
