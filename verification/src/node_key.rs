//! The key of a node.
use crate::text::{append_decimal, decimal};
use rand::SeedableRng;
use std::hash::Hasher;
use vstd::prelude::*;
use vstd::string::StringExecFns;
use vstd::utf8::encode_utf8;

verus! {

/// The number that the default hasher of `std`, newly made, gives for some bytes.
pub uninterp spec fn address_seed(addr: Seq<u8>) -> u64;

/// `write` and `finish` of a new `DefaultHasher` of `std`: all such hashers give the same number for the
/// same bytes.
#[verifier::external_body]
fn seed_of_address(addr: &[u8]) -> (r: u64)
    ensures
        r == address_seed(addr@),
{
    let mut hasher = std::collections::hash_map::DefaultHasher::new();
    hasher.write(addr);
    hasher.finish()
}

/// The signing key that `SigningKey::new` of `ed25519_zebra` draws from the standard generator of `rand`
/// that starts from a number.
pub uninterp spec fn drawn_key(seed: u64) -> [u8; 32];

/// `SigningKey::new` of `ed25519_zebra`, on `StdRng::seed_from_u64` of `rand`: the key's bytes. The
/// generator starts from the number alone.
#[verifier::external_body]
fn draw_key(seed: u64) -> (r: [u8; 32])
    ensures
        r == drawn_key(seed),
{
    ed25519_zebra::SigningKey::new(rand::rngs::StdRng::seed_from_u64(seed)).into()
}

/// The public key of a signing key, as `ed25519_zebra` computes it.
pub uninterp spec fn ed25519_public(key: [u8; 32]) -> [u8; 32];

/// `VerificationKeyBytes` of `ed25519_zebra`, from a signing key.
#[verifier::external_body]
fn public_key(key: &[u8; 32]) -> (r: [u8; 32])
    ensures
        r == ed25519_public(*key),
{
    let key = ed25519_zebra::SigningKey::from(*key);
    ed25519_zebra::VerificationKeyBytes::from(&key).into()
}

/// The key pair of an address: the number that the generator starts from, the signing key, and the
/// public key.
pub fn rng_private_public_key_from_address(addr: &[u8]) -> (r: (u64, [u8; 32], [u8; 32]))
    ensures
        r.0 == address_seed(addr@),
        r.1 == drawn_key(r.0),
        r.2 == ed25519_public(r.1),
{
    let seed: u64 = seed_of_address(addr);
    let private_key = draw_key(seed);
    let pub_key = public_key(&private_key);
    (seed, private_key, pub_key)
}

/// Some bytes as a list of numbers.
pub open spec fn listed_bytes(b: Seq<u8>) -> Seq<char>
    decreases b.len(),
{
    if b.len() == 0 {
        seq![]
    } else if b.len() == 1 {
        decimal(b[0] as nat)
    } else {
        listed_bytes(b.drop_last()) + ", "@ + decimal(b.last() as nat)
    }
}

/// The text that a node's key is made from: the one that is set, or one made from a seed.
pub open spec fn key_seed_text(explicit: Option<Seq<char>>, global_seed: Seq<u8>) -> Seq<char> {
    match explicit {
        Some(s) => s,
        None => "adrheardhed["@ + listed_bytes(global_seed) + "]"@,
    }
}

/// The text that a node's key is made from.
pub fn bft_key_seed(explicit: &Option<String>, global_seed: &[u8; 32]) -> (r: String)
    ensures
        r@ == key_seed_text(
            match explicit {
                Some(s) => Some(s@),
                None => None,
            },
            global_seed@,
        ),
{
    if let Some(s) = explicit {
        return s.as_str().to_owned();
    }
    let mut out = "adrheardhed[".to_owned();
    let ghost start = out@;
    append_decimal(&mut out, global_seed[0] as u64);
    let mut i: usize = 1;
    assert(global_seed@.take(1)[0] == global_seed@[0]);
    while i < 32
        invariant
            1 <= i <= 32,
            out@ == start + listed_bytes(global_seed@.take(i as int)),
        decreases 32 - i,
    {
        let ghost before = out@;
        out.append(", ");
        append_decimal(&mut out, global_seed[i] as u64);
        proof {
            let t = global_seed@.take(i + 1);
            assert(t.drop_last() =~= global_seed@.take(i as int));
            assert(t.last() == global_seed@[i as int]);
            assert(out@ =~= start + listed_bytes(t));
        }
        i += 1;
    }
    assert(global_seed@.take(32) =~= global_seed@);
    out.append("]");
    out
}

/// The key pair of a node.
pub fn node_keys(explicit: &Option<String>, global_seed: &[u8; 32]) -> (r: ([u8; 32], [u8; 32]))
    ensures
        ({
            let text = key_seed_text(
                match explicit {
                    Some(s) => Some(s@),
                    None => None,
                },
                global_seed@,
            );
            &&& r.0 == drawn_key(address_seed(encode_utf8(text)))
            &&& r.1 == ed25519_public(r.0)
        }),
{
    let seed = bft_key_seed(explicit, global_seed);
    let (_, private_key, pub_key) = rng_private_public_key_from_address(seed.as_str().as_bytes());
    (private_key, pub_key)
}

/// An address on this machine, for a node without one: the port comes from some number.
pub fn local_address(number: u32) -> (r: String)
    ensures
        r@ == "127.0.0.1:"@ + decimal((number % 45869 + 2000) as nat),
{
    let mut out = "127.0.0.1:".to_owned();
    append_decimal(&mut out, (number % 45869 + 2000) as u64);
    out
}

/// The address of a finalizer: the one that is set, or one on this machine whose port comes from the
/// finalizer in words.
pub fn finalizer_address(set: Option<&str>, member: &str) -> (r: String)
    ensures
        r@ == match set {
            Some(a) => a@,
            None => "127.0.0.1:"@ + decimal((address_seed(encode_utf8(member@)) % 4000) as nat),
        },
{
    match set {
        Some(a) => a.to_owned(),
        None => {
            let seed: u64 = seed_of_address(member.as_bytes());
            let mut out = "127.0.0.1:".to_owned();
            append_decimal(&mut out, seed % 4000);
            out
        },
    }
}

/// A peer in words: its key, whether it is connected, and the height it last asked about.
pub fn peer_text(key: Option<&str>, connected: bool, height: u64) -> (r: String)
    ensures
        r@ == (match key {
            Some(k) => k@,
            None => "unknown peer"@,
        }) + (if connected {
            " connected ("@
        } else {
            " disconnected ("@
        }) + decimal(height as nat) + ")"@,
{
    let mut out = match key {
        Some(k) => k.to_owned(),
        None => "unknown peer".to_owned(),
    };
    out.append(
        if connected {
            " connected ("
        } else {
            " disconnected ("
        },
    );
    append_decimal(&mut out, height);
    out.append(")");
    out
}

} // verus!
