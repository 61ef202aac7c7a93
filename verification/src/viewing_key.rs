//! Unified viewing keys, in their text encoding.
use crate::network::NetworkType;
use vstd::prelude::*;
use zcash_protocol::consensus::Network;

verus! {

/// The text that `UnifiedFullViewingKey::encode` of `zcash_keys` gives for the key that
/// `UnifiedFullViewingKey::decode` reads from a text, on the main network or on the test network.
pub uninterp spec fn ufvk_reencoded(main: bool, text: Seq<char>) -> Option<Seq<char>>;

/// The text of the key that a text stands for, if it stands for one. The test network stands in for
/// a local one.
pub open spec fn canonical_ufvk(net: NetworkType, text: Seq<char>) -> Option<Seq<char>> {
    ufvk_reencoded(net == NetworkType::Main, text)
}

/// `UnifiedFullViewingKey::decode` of `zcash_keys`, and `encode` of the key that it gives: the text
/// of the key that a text stands for on the network, if it stands for one.
#[verifier::external_body]
fn ufvk_reencode(main: bool, text: &str) -> (r: Option<String>)
    ensures
        (match r {
            Some(t) => Some(t@),
            None => None,
        }) == ufvk_reencoded(main, text@),
{
    let net = [Network::TestNetwork, Network::MainNetwork][main as usize];
    let key = zcash_keys::keys::UnifiedFullViewingKey::decode(&net, text).ok()?;
    key.encode(&net).ok()
}

/// The text of the key that a text stands for, if it stands for one.
pub fn ufvk_text(net: NetworkType, text: &str) -> (r: Option<String>)
    ensures
        (match r {
            Some(t) => Some(t@),
            None => None,
        }) == canonical_ufvk(net, text@),
{
    match net {
        NetworkType::Main => ufvk_reencode(true, text),
        NetworkType::Test => ufvk_reencode(false, text),
        NetworkType::Regtest => ufvk_reencode(false, text),
    }
}

} // verus!
