//! Addresses, and the keys that they come from.
use crate::network::NetworkType;
use crate::notes::TransparentAddress;
use vstd::prelude::*;
use zcash_protocol::consensus::Network;

verus! {

/// The SHA-256 digest of some bytes, as `Sha256::digest` of `sha2` gives it.
pub uninterp spec fn sha256(b: Seq<u8>) -> Seq<u8>;

/// The RIPEMD-160 digest of some bytes, as `Ripemd160::digest` of `ripemd` gives it.
pub uninterp spec fn ripemd160(b: Seq<u8>) -> Seq<u8>;

/// `Sha256::digest` of `sha2`.
#[verifier::external_body]
fn sha256_digest(b: &[u8]) -> (r: [u8; 32])
    ensures
        r@ == sha256(b@),
{
    <sha2::Sha256 as sha2::Digest>::digest(b).into()
}

/// `Ripemd160::digest` of `ripemd`.
#[verifier::external_body]
fn ripemd160_digest(b: &[u8]) -> (r: [u8; 20])
    ensures
        r@ == ripemd160(b@),
{
    <ripemd::Ripemd160 as ripemd::Digest>::digest(b).into()
}

/// The script that pays to the hash of a public key: duplicate, hash, push 20 bytes, the hash, compare
/// and verify, check the signature.
pub open spec fn p2pkh_script(hash: Seq<u8>) -> Seq<u8> {
    seq![0x76u8, 0xa9, 0x14] + hash + seq![0x88u8, 0xac]
}

/// The script that pays to the hash of a script: hash, push 20 bytes, the hash, compare.
pub open spec fn p2sh_script(hash: Seq<u8>) -> Seq<u8> {
    seq![0xa9u8, 0x14] + hash + seq![0x87u8]
}

/// The address of the script that pays to the hash of a public key, and that script.
pub fn p2sh_from_p2pkh(p2pkh: &TransparentAddress) -> (r: (TransparentAddress, [u8; 25]))
    requires
        p2pkh is PublicKeyHash,
    ensures
        r.1@ == p2pkh_script(p2pkh->PublicKeyHash_0@),
        r.0 matches TransparentAddress::ScriptHash(h) && h@ == ripemd160(sha256(r.1@)),
{
    let mut script: [u8; 25] = [0u8; 25];
    script[0] = 0x76;
    script[1] = 0xa9;
    script[2] = 0x14;
    if let TransparentAddress::PublicKeyHash(hash) = p2pkh {
        let mut i: usize = 0;
        while i < 20
            invariant
                i <= 20,
                script@[0] == 0x76,
                script@[1] == 0xa9,
                script@[2] == 0x14,
                forall|k: int| 0 <= k < i ==> script@[k + 3] == #[trigger] hash@[k],
            decreases 20 - i,
        {
            script[i + 3] = hash[i];
            i += 1;
        }
    }
    script[23] = 0x88;
    script[24] = 0xac;
    proof {
        let hash = p2pkh->PublicKeyHash_0@;
        assert forall|k: int| 3 <= k < 23 implies script@[k] == #[trigger] hash[k - 3] by {
        }
        assert(script@ =~= p2pkh_script(hash));
    }
    let script_hash: [u8; 20] = ripemd160_digest(&sha256_digest(&script));
    (TransparentAddress::ScriptHash(script_hash), script)
}

/// The address that an output with a script pays to.
pub open spec fn script_pays(script: Seq<u8>, to: Option<TransparentAddress>) -> bool {
    match to {
        Some(TransparentAddress::PublicKeyHash(h)) => script == p2pkh_script(h@),
        Some(TransparentAddress::ScriptHash(h)) => script == p2sh_script(h@),
        None => (forall|h: [u8; 20]| script != #[trigger] p2pkh_script(h@)) && (forall|
            h: [u8; 20],
        |
            script != #[trigger] p2sh_script(h@)),
    }
}

/// The address that an output with a script pays to.
pub open spec fn recipient_of(script: Seq<u8>) -> Option<TransparentAddress> {
    choose|to: Option<TransparentAddress>| script_pays(script, to)
}

/// A script pays to one address, or to none.
pub proof fn a_script_pays_to_one_address(
    script: Seq<u8>,
    a: Option<TransparentAddress>,
    b: Option<TransparentAddress>,
)
    requires
        script_pays(script, a),
        script_pays(script, b),
    ensures
        a == b,
{
    match (a, b) {
        (
            Some(TransparentAddress::PublicKeyHash(x)),
            Some(TransparentAddress::PublicKeyHash(y)),
        ) => {
            assert forall|i: int| 0 <= i < 20 implies x@[i] == y@[i] by {
                assert(p2pkh_script(x@)[i + 3] == x@[i]);
                assert(p2pkh_script(y@)[i + 3] == y@[i]);
            }
            assert(x =~= y);
        },
        (Some(TransparentAddress::ScriptHash(x)), Some(TransparentAddress::ScriptHash(y))) => {
            assert forall|i: int| 0 <= i < 20 implies x@[i] == y@[i] by {
                assert(p2sh_script(x@)[i + 2] == x@[i]);
                assert(p2sh_script(y@)[i + 2] == y@[i]);
            }
            assert(x =~= y);
        },
        (
            Some(TransparentAddress::PublicKeyHash(x)),
            Some(TransparentAddress::ScriptHash(y)),
        ) => {
            assert(p2pkh_script(x@).len() == 25);
            assert(p2sh_script(y@).len() == 23);
        },
        (
            Some(TransparentAddress::ScriptHash(x)),
            Some(TransparentAddress::PublicKeyHash(y)),
        ) => {
            assert(p2sh_script(x@).len() == 23);
            assert(p2pkh_script(y@).len() == 25);
        },
        _ => {},
    }
}

/// The address to which an output with a script pays.
pub fn recipient(script: &[u8]) -> (r: Option<TransparentAddress>)
    ensures
        r == recipient_of(script@),
{
    let to = script_recipient(script);
    proof {
        a_script_pays_to_one_address(script@, to, recipient_of(script@));
    }
    to
}

/// `TxOut::recipient_address` of `zcash_transparent`: the address to which an output with a script
/// pays, if the script pays to the hash of a public key or of a script.
#[verifier::external_body]
fn script_recipient(script: &[u8]) -> (r: Option<TransparentAddress>)
    ensures
        script_pays(script@, r),
{
    let mut code = zcash_transparent::address::Script::default();
    code.0.0 = script.to_vec();
    let out = zcash_transparent::bundle::TxOut::new(zcash_protocol::value::Zatoshis::ZERO, code);
    match out.recipient_address()? {
        zcash_transparent::address::TransparentAddress::PublicKeyHash(h) => Some(
            TransparentAddress::PublicKeyHash(h),
        ),
        zcash_transparent::address::TransparentAddress::ScriptHash(h) => Some(
            TransparentAddress::ScriptHash(h),
        ),
    }
}

/// The hash of the public key with an index under a unified viewing key, as `zcash_keys` and
/// `zcash_transparent` derive it from the key's text.
pub uninterp spec fn p2pkh_in(main: bool, text: Seq<char>, index: u32) -> Option<[u8; 20]>;

/// `AccountPubKey::derive_address_pubkey` of `zcash_transparent`, for an external address, on the
/// transparent part of the key that `UnifiedFullViewingKey::decode` of `zcash_keys` reads, and
/// `TransparentAddress::from_pubkey`: the hash of the public key, if there is one. The index must
/// not be a hardened one.
#[verifier::external_body]
fn derive_p2pkh(main: bool, text: &str, index: u32) -> (r: Option<[u8; 20]>)
    requires
        index < 0x8000_0000,
    ensures
        r == p2pkh_in(main, text@, index),
{
    let nets = [Network::TestNetwork, Network::MainNetwork];
    let key = zcash_keys::keys::UnifiedFullViewingKey::decode(&nets[main as usize], text).ok()?;
    let index = zcash_transparent::keys::NonHardenedChildIndex::const_from_index(index);
    let scope = zcash_transparent::keys::TransparentKeyScope::EXTERNAL;
    let pubkey = key.p2pkh()?.derive_address_pubkey(scope, index).ok()?;
    match zcash_transparent::address::TransparentAddress::from_pubkey(&pubkey) {
        zcash_transparent::address::TransparentAddress::PublicKeyHash(h) => Some(h),
        zcash_transparent::address::TransparentAddress::ScriptHash(_) => None,
    }
}

fn is_main(net: NetworkType) -> (r: bool)
    ensures
        r == (net == NetworkType::Main),
{
    match net {
        NetworkType::Main => true,
        _ => false,
    }
}

/// The address of the public key with an index under a unified viewing key.
pub open spec fn ufvk_p2pkh(net: NetworkType, ufvk: Seq<char>, index: u32) -> Option<
    TransparentAddress,
> {
    match p2pkh_in(net == NetworkType::Main, ufvk, index) {
        Some(h) => Some(TransparentAddress::PublicKeyHash(h)),
        None => None,
    }
}

/// The address of the public key with an index under a unified viewing key.
pub fn p2pkh_from_ufvk(net: NetworkType, ufvk: &str, index: u32) -> (r: Option<TransparentAddress>)
    requires
        index < 0x8000_0000,
    ensures
        r == ufvk_p2pkh(net, ufvk@, index),
{
    match derive_p2pkh(is_main(net), ufvk, index) {
        Some(h) => Some(TransparentAddress::PublicKeyHash(h)),
        None => None,
    }
}

/// A unified address: its text, and the orchard receiver in it.
#[derive(Clone, Debug, PartialEq, Eq)]
pub struct UnifiedAddress {
    pub text: String,
    pub orchard: Option<[u8; 43]>,
}

impl View for UnifiedAddress {
    type V = (Seq<char>, Option<[u8; 43]>);

    open spec fn view(&self) -> (Seq<char>, Option<[u8; 43]>) {
        (self.text@, self.orchard)
    }
}

/// The view of an optional address.
pub open spec fn opt_address(a: Option<UnifiedAddress>) -> Option<(Seq<char>, Option<[u8; 43]>)> {
    match a {
        Some(a) => Some(a@),
        None => None,
    }
}

/// The first orchard address under a unified viewing key, as `UnifiedFullViewingKey::find_address` of
/// `zcash_keys` finds it: its text, and its orchard receiver.
pub uninterp spec fn first_address(main: bool, text: Seq<char>) -> Option<
    (Seq<char>, Option<[u8; 43]>),
>;

/// `UnifiedFullViewingKey::find_address` of `zcash_keys` from the first index on, for an address with
/// an orchard receiver and no other: the text of the address, and the receiver.
#[verifier::external_body]
fn find_first_address(main: bool, text: &str) -> (r: Option<UnifiedAddress>)
    ensures
        opt_address(r) == first_address(main, text@),
{
    let nets = [Network::TestNetwork, Network::MainNetwork];
    let net = nets[main as usize];
    let key = zcash_keys::keys::UnifiedFullViewingKey::decode(&net, text).ok()?;
    let request = zcash_keys::keys::UnifiedAddressRequest::ORCHARD;
    let (ua, _) = key.find_address(zip32::DiversifierIndex::new(), request).ok()?;
    let orchard = ua.orchard().map(|a| a.to_raw_address_bytes());
    Some(UnifiedAddress { text: ua.encode(&net), orchard })
}

/// Whether an address is one of the two transparent addresses of a key, where the key has them and
/// an orchard address: that of its first public key, or that of the script which pays to it.
pub open spec fn belongs(net: NetworkType, ufvk: Seq<char>, t_addr: TransparentAddress) -> bool {
    match (
        first_address(net == NetworkType::Main, ufvk),
        p2pkh_in(net == NetworkType::Main, ufvk, 0),
    ) {
        (Some(_), Some(hash)) => match t_addr {
            TransparentAddress::PublicKeyHash(h) => h == hash,
            TransparentAddress::ScriptHash(h) => h@ == ripemd160(sha256(p2pkh_script(hash@))),
        },
        _ => false,
    }
}

/// The transparent addresses of a key's public key with an index, and the key's first orchard
/// address.
pub fn addrs_from_ufvk(net: NetworkType, ufvk: &str, index: u32) -> (r: Option<
    (TransparentAddress, TransparentAddress, UnifiedAddress),
>)
    requires
        index < 0x8000_0000,
    ensures
        r.is_some() == (first_address(net == NetworkType::Main, ufvk@).is_some() && p2pkh_in(
            net == NetworkType::Main,
            ufvk@,
            index,
        ).is_some()),
        r matches Some((p2pkh, p2sh, ua)) ==> {
            &&& Some(p2pkh) == ufvk_p2pkh(net, ufvk@, index)
            &&& p2pkh is PublicKeyHash
            &&& p2sh matches TransparentAddress::ScriptHash(h) && h@ == ripemd160(
                sha256(p2pkh_script(p2pkh->PublicKeyHash_0@)),
            )
            &&& Some(ua@) == first_address(net == NetworkType::Main, ufvk@)
        },
{
    let ua = find_first_address(is_main(net), ufvk)?;
    let p2pkh = p2pkh_from_ufvk(net, ufvk, index)?;
    let p2sh = p2sh_from_p2pkh(&p2pkh).0;
    Some((p2pkh, p2sh, ua))
}

/// Whether a transparent address belongs to an account with a viewing key.
pub fn t_addr_belongs_to_account(net: NetworkType, ufvk: &str, t_addr: &TransparentAddress) -> (r:
    bool)
    ensures
        r == belongs(net, ufvk@, *t_addr),
{
    match addrs_from_ufvk(net, ufvk, 0) {
        Some((p2pkh, p2sh, _)) => {
            proof {
                if let TransparentAddress::ScriptHash(h) = *t_addr {
                    if belongs(net, ufvk@, *t_addr) {
                        assert(h =~= p2sh->ScriptHash_0);
                    }
                }
            }
            t_addr.same(&p2pkh) || t_addr.same(&p2sh)
        },
        None => false,
    }
}

/// The text of a transparent address, as `TransparentAddress::encode` of `zcash_keys` gives it.
pub uninterp spec fn t_addr_text(main: bool, script: bool, hash: Seq<u8>) -> Seq<char>;

/// `AddressCodec::encode` of `zcash_keys` for a `TransparentAddress`: its text on a network.
#[verifier::external_body]
fn encode_t_addr(main: bool, script: bool, hash: &[u8; 20]) -> (r: String)
    ensures
        r@ == t_addr_text(main, script, hash@),
{
    let nets = [Network::TestNetwork, Network::MainNetwork];
    let addr = [
        zcash_transparent::address::TransparentAddress::PublicKeyHash(*hash),
        zcash_transparent::address::TransparentAddress::ScriptHash(*hash),
    ];
    zcash_keys::encoding::AddressCodec::encode(&addr[script as usize], &nets[main as usize])
}

/// The text of a transparent address on a network.
pub fn string_from_t_addr(net: NetworkType, t_addr: TransparentAddress) -> (r: String)
    ensures
        r@ == match t_addr {
            TransparentAddress::PublicKeyHash(h) => t_addr_text(
                net == NetworkType::Main,
                false,
                h@,
            ),
            TransparentAddress::ScriptHash(h) => t_addr_text(net == NetworkType::Main, true, h@),
        },
{
    match t_addr {
        TransparentAddress::PublicKeyHash(h) => encode_t_addr(is_main(net), false, &h),
        TransparentAddress::ScriptHash(h) => encode_t_addr(is_main(net), true, &h),
    }
}

/// The unified address that `UnifiedAddress::decode` of `zcash_keys` reads from a text: the text that
/// `encode` gives for it, and its orchard receiver.
pub uninterp spec fn address_in(main: bool, text: Seq<char>) -> Option<
    (Seq<char>, Option<[u8; 43]>),
>;

/// `UnifiedAddress::decode` of `zcash_keys`, and `encode` of what it gives: the unified address that
/// a text stands for on a network, if it stands for one.
#[verifier::external_body]
fn decode_address(main: bool, text: &str) -> (r: Option<UnifiedAddress>)
    ensures
        opt_address(r) == address_in(main, text@),
{
    let nets = [Network::TestNetwork, Network::MainNetwork];
    let net = nets[main as usize];
    let ua = zcash_keys::address::UnifiedAddress::decode(&net, text).ok()?;
    let orchard = ua.orchard().map(|a| a.to_raw_address_bytes());
    Some(UnifiedAddress { text: ua.encode(&net), orchard })
}

/// The unified address that a text stands for on a network.
pub fn unified_address(net: NetworkType, text: &str) -> (r: Option<UnifiedAddress>)
    ensures
        opt_address(r) == address_in(net == NetworkType::Main, text@),
{
    decode_address(is_main(net), text)
}

/// What a text stands for that is to be an address.
#[derive(Clone, Copy, Debug, PartialEq, Eq)]
pub enum AddressKind {
    /// A unified address, and the orchard receiver in it if it has one.
    Unified(Option<[u8; 43]>),
    /// Another address.
    Other,
    /// No address.
    Invalid,
}

/// What `Address::decode` of `zcash_keys` reads from a text.
pub uninterp spec fn kind_of(main: bool, text: Seq<char>) -> AddressKind;

/// `Address::decode` of `zcash_keys`: what kind of address a text stands for on a network, and the
/// orchard receiver of a unified one.
#[verifier::external_body]
fn decode_kind(main: bool, text: &str) -> (r: AddressKind)
    ensures
        r == kind_of(main, text@),
{
    let nets = [Network::TestNetwork, Network::MainNetwork];
    match zcash_keys::address::Address::decode(&nets[main as usize], text) {
        Some(zcash_keys::address::Address::Unified(ua)) => AddressKind::Unified(
            ua.orchard().map(|a| a.to_raw_address_bytes()),
        ),
        Some(_) => AddressKind::Other,
        None => AddressKind::Invalid,
    }
}

/// What a text stands for on a network that is to be an address.
pub fn any_address(net: NetworkType, text: &str) -> (r: AddressKind)
    ensures
        r == kind_of(net == NetworkType::Main, text@),
{
    decode_kind(is_main(net), text)
}

/// The English words that `Mnemonic::from_entropy_in` of `bip39` gives for 32 bytes of entropy.
pub uninterp spec fn mnemonic_words(entropy: Seq<u8>) -> Seq<char>;

/// `Mnemonic::from_entropy_in` of `bip39`, in English: the words that stand for some entropy, with a
/// space between each two.
#[verifier::external_body]
fn words_from_entropy(entropy: &[u8; 32]) -> (r: String)
    ensures
        r@ == mnemonic_words(entropy@),
{
    let mnemonic = bip39::Mnemonic::from_entropy_in(bip39::Language::English, entropy).unwrap();
    format!("{}", mnemonic)
}

/// The seed that `Mnemonic::to_seed` of `bip39` gives, without a passphrase, for the phrase that
/// `Mnemonic::parse` reads.
pub uninterp spec fn phrase_seed(phrase: Seq<char>) -> Option<[u8; 64]>;

/// `Mnemonic::parse` of `bip39`, and `to_seed` without a passphrase: the seed that a phrase stands
/// for, if it is one.
#[verifier::external_body]
fn seed_from_phrase(phrase: &str) -> (r: Option<[u8; 64]>)
    ensures
        r == phrase_seed(phrase@),
{
    let mnemonic = bip39::Mnemonic::parse(phrase).ok()?;
    Some(mnemonic.to_seed(""))
}

/// The text of the viewing key of the first account under a seed, as `UnifiedSpendingKey::from_seed`
/// of `zcash_keys` derives it.
pub uninterp spec fn seed_ufvk(main: bool, seed: Seq<u8>) -> Option<Seq<char>>;

/// `UnifiedSpendingKey::from_seed` of `zcash_keys` for the first account, and `encode` of its viewing
/// key: the text of the viewing key, if the seed has one.
#[verifier::external_body]
fn ufvk_from_seed(main: bool, seed: &[u8; 32]) -> (r: Option<String>)
    ensures
        (match r {
            Some(t) => Some(t@),
            None => None,
        }) == seed_ufvk(main, seed@),
{
    let nets = [Network::TestNetwork, Network::MainNetwork];
    let net = nets[main as usize];
    let account = zip32::AccountId::ZERO;
    let usk = zcash_keys::keys::UnifiedSpendingKey::from_seed(&net, seed, account).ok()?;
    usk.to_unified_full_viewing_key().encode(&net).ok()
}

/// The seed of a wallet: the first half of what its phrase stands for.
pub open spec fn wallet_seed(phrase: Seq<char>) -> Option<Seq<u8>> {
    match phrase_seed(phrase) {
        Some(s) => Some(s@.take(32)),
        None => None,
    }
}

/// The viewing key of a wallet with a phrase.
pub open spec fn phrase_ufvk(net: NetworkType, phrase: Seq<char>) -> Option<Seq<char>> {
    match wallet_seed(phrase) {
        Some(s) => seed_ufvk(net == NetworkType::Main, s),
        None => None,
    }
}

/// The seed of a wallet with a phrase, and the text of its viewing key.
pub fn stuff_from_seed_phrase(net: NetworkType, phrase: &str) -> (r: Option<([u8; 32], String)>)
    ensures
        r.is_some() == phrase_ufvk(net, phrase@).is_some(),
        r matches Some((seed, ufvk)) ==> Some(seed@) == wallet_seed(phrase@) && Some(ufvk@)
            == phrase_ufvk(net, phrase@),
{
    let seed64 = seed_from_phrase(phrase)?;
    let seed: [u8; 32] = crate::bytes::array_from_slice::<32>(&seed64);
    match ufvk_from_seed(is_main(net), &seed) {
        Some(ufvk) => Some((seed, ufvk)),
        None => None,
    }
}

/// The phrase that stands for some entropy.
pub fn phrase_from_entropy(entropy: &[u8; 32]) -> (r: String)
    ensures
        r@ == mnemonic_words(entropy@),
{
    words_from_entropy(entropy)
}

/// The first transparent address of the wallet whose phrase stands for some entropy.
pub fn default_p2pkh_from_entropy(net: NetworkType, entropy: &[u8; 32]) -> (r: Option<
    TransparentAddress,
>)
    ensures
        r == match phrase_ufvk(net, mnemonic_words(entropy@)) {
            Some(ufvk) => ufvk_p2pkh(net, ufvk, 0),
            None => None,
        },
{
    let phrase = phrase_from_entropy(entropy);
    match stuff_from_seed_phrase(net, phrase.as_str()) {
        Some((_, ufvk)) => p2pkh_from_ufvk(net, ufvk.as_str(), 0),
        None => None,
    }
}

/// Every script pays to its recipient: to an address whose script it is, or to none.
pub proof fn a_script_has_a_recipient(script: Seq<u8>)
    ensures
        script_pays(script, recipient_of(script)),
{
    if exists|h: [u8; 20]| script == #[trigger] p2pkh_script(h@) {
        let h = choose|h: [u8; 20]| script == #[trigger] p2pkh_script(h@);
        assert(script_pays(script, Some(TransparentAddress::PublicKeyHash(h))));
    } else if exists|h: [u8; 20]| script == #[trigger] p2sh_script(h@) {
        let h = choose|h: [u8; 20]| script == #[trigger] p2sh_script(h@);
        assert(script_pays(script, Some(TransparentAddress::ScriptHash(h))));
    } else {
        assert(script_pays(script, None));
    }
}

/// The account's own addresses belong to it: the hash of its first public key, and the hash of the script
/// that pays to that. No other public key's does.
pub proof fn own_addresses_belong(net: NetworkType, ufvk: Seq<char>, h: [u8; 20], x: [u8; 20])
    requires
        first_address(net == NetworkType::Main, ufvk) is Some,
        p2pkh_in(net == NetworkType::Main, ufvk, 0) == Some(h),
    ensures
        belongs(net, ufvk, TransparentAddress::PublicKeyHash(x)) <==> x == h,
        belongs(net, ufvk, TransparentAddress::ScriptHash(x)) <==> x@ == ripemd160(
            sha256(seq![0x76u8, 0xa9, 0x14] + h@ + seq![0x88u8, 0xac]),
        ),
{
}

} // verus!
