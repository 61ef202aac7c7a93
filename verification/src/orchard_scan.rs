//! Orchard actions, and what a viewing key sees of them.
use crate::bytes::push_all;
use crate::network::NetworkType;
use crate::notes::Note;
use crate::orchard_parts::canonical_base;
use orchard::keys::FullViewingKey;
use orchard::note::{ExtractedNoteCommitment, Nullifier};
use orchard::note_encryption::{CompactAction as CompactForm, OrchardDomain};
use vstd::prelude::*;
use zcash_note_encryption::{
    try_compact_note_decryption, try_note_decryption, try_output_recovery_with_ovk,
    EphemeralKeyBytes,
};
use zcash_primitives::transaction::components::orchard::read_action_without_auth;
use zcash_protocol::consensus::Network;

verus! {

/// Whether a key's external or its internal addresses are meant.
#[derive(Clone, Copy, Debug, PartialEq, Eq, Structural)]
pub enum Scope {
    External,
    Internal,
}

/// The orchard keys that come of a unified viewing key.
#[derive(Clone, Copy, Debug, PartialEq, Eq)]
pub struct PreparedKeys {
    /// The full viewing key, if there is one.
    pub orchard_fvk: Option<[u8; 96]>,
    /// The addresses for which the key is prepared.
    pub scope: Scope,
    /// Whether the key is also to find what was sent.
    pub finds_sent: bool,
}

/// The orchard full viewing key within the unified one that `UnifiedFullViewingKey::decode` of
/// `zcash_keys` reads from a text, on the main network or on the test network.
pub uninterp spec fn orchard_key_in(main: bool, text: Seq<char>) -> Option<[u8; 96]>;

/// `UnifiedFullViewingKey::decode` of `zcash_keys`, and `to_bytes` of `orchard` on the orchard part
/// of the key, if the text stands for a key and it has one.
#[verifier::external_body]
fn orchard_key(main: bool, text: &str) -> (r: Option<[u8; 96]>)
    ensures
        r == orchard_key_in(main, text@),
{
    let net = [Network::TestNetwork, Network::MainNetwork][main as usize];
    let key = zcash_keys::keys::UnifiedFullViewingKey::decode(&net, text).ok()?;
    key.orchard().map(|fvk| fvk.to_bytes())
}

impl PreparedKeys {
    pub fn from_ufvk_all_scoped(net: NetworkType, ufvk: &str, scope: Scope) -> (r: PreparedKeys)
        ensures
            r.orchard_fvk == orchard_key_in(net == NetworkType::Main, ufvk@),
            r.scope == scope,
            r.finds_sent == r.orchard_fvk is Some,
    {
        let main = match net {
            NetworkType::Main => true,
            _ => false,
        };
        let orchard_fvk = orchard_key(main, ufvk);
        let finds_sent = orchard_fvk.is_some();
        PreparedKeys { orchard_fvk, scope, finds_sent }
    }

    pub fn from_ufvk_all(net: NetworkType, ufvk: &str) -> (r: PreparedKeys)
        ensures
            r.orchard_fvk == orchard_key_in(net == NetworkType::Main, ufvk@),
            r.scope == Scope::External,
            r.finds_sent == r.orchard_fvk is Some,
    {
        PreparedKeys::from_ufvk_all_scoped(net, ufvk, Scope::External)
    }

    pub fn from_ufvk_all_internal(net: NetworkType, ufvk: &str) -> (r: PreparedKeys)
        ensures
            r.orchard_fvk == orchard_key_in(net == NetworkType::Main, ufvk@),
            r.scope == Scope::Internal,
            r.finds_sent == r.orchard_fvk is Some,
    {
        PreparedKeys::from_ufvk_all_scoped(net, ufvk, Scope::Internal)
    }

    /// The keys that find what was received, and nothing else.
    pub fn from_ufvk_ivks(net: NetworkType, ufvk: &str) -> (r: PreparedKeys)
        ensures
            r.orchard_fvk == orchard_key_in(net == NetworkType::Main, ufvk@),
            r.scope == Scope::External,
            !r.finds_sent,
    {
        let keys = PreparedKeys::from_ufvk_all(net, ufvk);
        PreparedKeys { finds_sent: false, ..keys }
    }
}

/// An orchard action as a compact block carries it, before its fields are looked at.
#[derive(Debug)]
pub struct CompactOrchardAction {
    pub nullifier: Vec<u8>,
    pub cmx: Vec<u8>,
    pub ephemeral_key: Vec<u8>,
    pub ciphertext: Vec<u8>,
}

/// An orchard action of a compact block.
#[derive(Clone, Copy, Debug, PartialEq, Eq)]
pub struct CompactAction {
    pub nullifier: [u8; 32],
    pub cmx: [u8; 32],
    pub ephemeral_key: [u8; 32],
    pub ciphertext: [u8; 52],
}

/// Whether the fields of an action have their lengths, and its nullifier and commitment are field
/// elements.
pub open spec fn compact_ok(a: CompactOrchardAction) -> bool {
    &&& a.nullifier@.len() == 32
    &&& canonical_base(a.nullifier@)
    &&& a.cmx@.len() == 32
    &&& canonical_base(a.cmx@)
    &&& a.ephemeral_key@.len() == 32
    &&& a.ciphertext@.len() == 52
}

/// The action of some fields.
pub open spec fn compact_of(a: CompactOrchardAction) -> CompactAction {
    CompactAction {
        nullifier: crate::wire::array_of::<32>(a.nullifier@),
        cmx: crate::wire::array_of::<32>(a.cmx@),
        ephemeral_key: crate::wire::array_of::<32>(a.ephemeral_key@),
        ciphertext: crate::wire::array_of::<52>(a.ciphertext@),
    }
}

/// `ExtractedNoteCommitment::from_bytes` of `orchard`: a commitment is an element of the base field
/// of the curve, and only its canonical encoding is accepted.
#[verifier::external_body]
fn cmx_is_canonical(b: &[u8; 32]) -> (r: bool)
    ensures
        r == canonical_base(b@),
{
    bool::from(ExtractedNoteCommitment::from_bytes(b).is_some())
}

impl CompactOrchardAction {
    /// The action, if the fields are those of one.
    pub fn to_action(&self) -> (r: Option<CompactAction>)
        ensures
            r == (if compact_ok(*self) {
                Some(compact_of(*self))
            } else {
                None
            }),
            r matches Some(a) ==> canonical_base(a.cmx@) && canonical_base(a.nullifier@),
    {
        if self.nullifier.len() != 32 || self.cmx.len() != 32 || self.ephemeral_key.len() != 32
            || self.ciphertext.len() != 52 {
            return None;
        }
        let nullifier: [u8; 32] = crate::bytes::array_from_slice::<32>(&self.nullifier);
        let cmx: [u8; 32] = crate::bytes::array_from_slice::<32>(&self.cmx);
        let ephemeral_key: [u8; 32] = crate::bytes::array_from_slice::<32>(&self.ephemeral_key);
        let ciphertext: [u8; 52] = crate::bytes::array_from_slice::<52>(&self.ciphertext);
        proof {
            assert(nullifier@ =~= self.nullifier@);
            assert(cmx@ =~= self.cmx@);
            assert(ephemeral_key@ =~= self.ephemeral_key@);
            assert(ciphertext@ =~= self.ciphertext@);
            crate::wire::lemma_array_of(nullifier);
            crate::wire::lemma_array_of(cmx);
            crate::wire::lemma_array_of(ephemeral_key);
            crate::wire::lemma_array_of(ciphertext);
        }
        if crate::orchard_parts::nullifier_is_canonical(&nullifier) && cmx_is_canonical(&cmx) {
            Some(CompactAction { nullifier, cmx, ephemeral_key, ciphertext })
        } else {
            None
        }
    }
}

/// The note that `try_compact_note_decryption` of `zcash_note_encryption` finds in a compact action
/// with the incoming viewing key of a full viewing key.
pub uninterp spec fn compact_note(fvk: [u8; 96], internal: bool, a: CompactAction) -> Option<Note>;

/// `try_compact_note_decryption` of `zcash_note_encryption`, in the orchard domain and with the
/// incoming viewing key that `orchard` derives: the note that is sent to the key, if one is. There
/// is none for bytes that are no key or no action.
#[verifier::external_body]
pub(crate) fn decrypt_compact(fvk: &[u8; 96], internal: bool, a: &CompactAction) -> (r: Option<Note>)
    ensures
        r == compact_note(*fvk, internal, *a),
{
    let scope = [orchard::keys::Scope::External, orchard::keys::Scope::Internal][internal as usize];
    let ivk = FullViewingKey::from_bytes(fvk)?.to_ivk(scope).prepare();
    let nf = Nullifier::from_bytes(&a.nullifier).into_option()?;
    let cmx = ExtractedNoteCommitment::from_bytes(&a.cmx).into_option()?;
    let epk = EphemeralKeyBytes(a.ephemeral_key);
    let a = CompactForm::from_parts(nf, cmx, epk, a.ciphertext);
    let (n, to) = try_compact_note_decryption(&OrchardDomain::for_compact_action(&a), &ivk, &a)?;
    let (recipient, value) = (to.to_raw_address_bytes(), n.value().inner());
    Some(Note { recipient, value, rho: n.rho().to_bytes(), rseed: *n.rseed().as_bytes() })
}

/// The nullifier that `Note::nullifier` of `orchard` gives for a note of a full viewing key.
pub uninterp spec fn nullifier_of(fvk: [u8; 96], n: Note) -> Option<[u8; 32]>;

/// `Note::nullifier` of `orchard`: what will be seen when the key spends the note. There is none for
/// bytes that are no key or no note.
#[verifier::external_body]
pub(crate) fn note_nullifier(fvk: &[u8; 96], n: &Note) -> (r: Option<[u8; 32]>)
    ensures
        r == nullifier_of(*fvk, *n),
{
    let fvk = FullViewingKey::from_bytes(fvk)?;
    let to = orchard::Address::from_raw_address_bytes(&n.recipient).into_option()?;
    let rho = orchard::note::Rho::from_bytes(&n.rho).into_option()?;
    let seed = orchard::note::RandomSeed::from_bytes(n.rseed, &rho).into_option()?;
    let value = orchard::value::NoteValue::from_raw(n.value);
    let version = orchard::note::NoteVersion::V2;
    let note = orchard::note::Note::from_parts(to, value, rho, seed, version).into_option()?;
    Some(note.nullifier(&fvk).to_bytes())
}

/// An orchard action of a full transaction.
#[derive(Clone, Copy, Debug, PartialEq, Eq)]
pub struct OrchardAction {
    pub nullifier: [u8; 32],
    pub rk: [u8; 32],
    pub cmx: [u8; 32],
    pub cv_net: [u8; 32],
    pub ephemeral_key: [u8; 32],
    pub enc_ciphertext: [u8; 580],
    pub out_ciphertext: [u8; 80],
}

/// A note that was found in an action, and the memo with it.
#[derive(Clone, Copy, Debug, PartialEq, Eq)]
pub struct FoundNote {
    pub note: Note,
    pub memo: [u8; 512],
}

impl OrchardAction {
    /// The bytes of an action as they stand in a transaction.
    pub open spec fn bytes(self) -> Seq<u8> {
        self.cv_net@ + self.nullifier@ + self.rk@ + self.cmx@ + self.ephemeral_key@
            + self.enc_ciphertext@ + self.out_ciphertext@
    }

    pub fn to_bytes(&self) -> (r: Vec<u8>)
        ensures
            r@ == self.bytes(),
    {
        let mut out: Vec<u8> = Vec::new();
        push_all(&mut out, &self.cv_net);
        push_all(&mut out, &self.nullifier);
        push_all(&mut out, &self.rk);
        push_all(&mut out, &self.cmx);
        push_all(&mut out, &self.ephemeral_key);
        push_all(&mut out, &self.enc_ciphertext);
        push_all(&mut out, &self.out_ciphertext);
        assert(out@ =~= self.bytes());
        out
    }
}

/// The note and memo that `try_note_decryption` of `zcash_note_encryption` finds in the bytes of an
/// action with the incoming viewing key of a full viewing key.
pub uninterp spec fn received_note(fvk: [u8; 96], internal: bool, action: Seq<u8>) -> Option<FoundNote>;

/// `try_note_decryption` of `zcash_note_encryption`, in the orchard domain, with the incoming viewing
/// key that `orchard` derives, on the action that `read_action_without_auth` of `zcash_primitives`
/// reads: the note that is sent to the key, if one is, and the memo. There is none for bytes that are
/// no key or no action.
#[verifier::external_body]
pub(crate) fn decrypt_action(fvk: &[u8; 96], internal: bool, action: &[u8]) -> (r: Option<FoundNote>)
    ensures
        r == received_note(*fvk, internal, action@),
{
    let scope = [orchard::keys::Scope::External, orchard::keys::Scope::Internal][internal as usize];
    let ivk = FullViewingKey::from_bytes(fvk)?.to_ivk(scope).prepare();
    let a = read_action_without_auth(action).ok()?;
    let (n, to, memo) = try_note_decryption(&OrchardDomain::for_action(&a), &ivk, &a)?;
    let (recipient, value) = (to.to_raw_address_bytes(), n.value().inner());
    let (rho, rseed) = (n.rho().to_bytes(), *n.rseed().as_bytes());
    Some(FoundNote { note: Note { recipient, value, rho, rseed }, memo })
}

/// The note and memo that `try_output_recovery_with_ovk` of `zcash_note_encryption` finds in the bytes
/// of an action with the outgoing viewing key of a full viewing key.
pub uninterp spec fn sent_note(fvk: [u8; 96], internal: bool, action: Seq<u8>) -> Option<FoundNote>;

/// `try_output_recovery_with_ovk` of `zcash_note_encryption`, in the orchard domain, with the outgoing
/// viewing key that `orchard` derives, on the action that `read_action_without_auth` of
/// `zcash_primitives` reads: the note that the key's owner sent, if it did, and the memo. There is
/// none for bytes that are no key or no action.
#[verifier::external_body]
pub(crate) fn recover_action(fvk: &[u8; 96], internal: bool, action: &[u8]) -> (r: Option<FoundNote>)
    ensures
        r == sent_note(*fvk, internal, action@),
{
    let scope = [orchard::keys::Scope::External, orchard::keys::Scope::Internal][internal as usize];
    let ovk = FullViewingKey::from_bytes(fvk)?.to_ovk(scope);
    let a = read_action_without_auth(action).ok()?;
    let (domain, out) = (OrchardDomain::for_action(&a), &a.encrypted_note().out_ciphertext);
    let (n, to, memo) = try_output_recovery_with_ovk(&domain, &ovk, &a, a.cv_net(), out)?;
    let (recipient, value) = (to.to_raw_address_bytes(), n.value().inner());
    let (rho, rseed) = (n.rho().to_bytes(), *n.rseed().as_bytes());
    Some(FoundNote { note: Note { recipient, value, rho, rseed }, memo })
}

} // verus!
