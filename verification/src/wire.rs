//! The building blocks of the snapshot format.
//!
//! For each kind of value `v` there are the bytes that stand for it, written `.._then(v, rest)` (the
//! bytes of `v`, followed by `rest`), and what comes of reading it off the front of a byte string,
//! written `parse_..`. That a written value is read back is proved for each.
use crate::bytes::{
    array_from_slice, le_bytes, le_round_trip, le_u32, le_u64, le_value, lemma_int_widths, push_all,
    read_le_u32, read_le_u64,
};
use crate::height::BlockHeight;
use crate::network::NetworkType;
use crate::zats::{Zatoshis, MAX_MONEY};
use vstd::prelude::*;
use vstd::utf8::{decode_utf8, encode_utf8, valid_utf8};

verus! {

/// Why a snapshot cannot be read.
#[allow(inconsistent_fields)]
#[derive(Debug, PartialEq, Eq)]
pub enum PersistError {
    BadMagic,
    SchemaMismatch { found: u32, expected: u32 },
    NetworkMismatch { found: String, expected: String },
    GenesisMismatch { found: [u8; 32], expected: [u8; 32] },
    Truncated,
    InvalidValue(&'static str),
}

/// What a [`PersistError`] says.
#[allow(inconsistent_fields)]
pub enum Fault {
    BadMagic,
    SchemaMismatch { found: u32, expected: u32 },
    NetworkMismatch { found: Seq<char>, expected: Seq<char> },
    GenesisMismatch { found: [u8; 32], expected: [u8; 32] },
    Truncated,
    InvalidValue(Seq<char>),
}

impl View for PersistError {
    type V = Fault;

    open spec fn view(&self) -> Fault {
        match *self {
            PersistError::BadMagic => Fault::BadMagic,
            PersistError::SchemaMismatch { found, expected } => Fault::SchemaMismatch {
                found,
                expected,
            },
            PersistError::NetworkMismatch { found, expected } => Fault::NetworkMismatch {
                found: found@,
                expected: expected@,
            },
            PersistError::GenesisMismatch { found, expected } => Fault::GenesisMismatch {
                found,
                expected,
            },
            PersistError::Truncated => Fault::Truncated,
            PersistError::InvalidValue(m) => Fault::InvalidValue(m@),
        }
    }
}

/// What reading a value off the front of a byte string gives: the value and the bytes behind it,
/// or why there is none.
pub type Parsed<T> = Result<(T, Seq<u8>), Fault>;

/// The executable counterpart of [`Parsed`].
pub type Taken<'a, T> = Result<(T, &'a [u8]), PersistError>;

/// That a read gave what it should.
pub open spec fn taken<T>(res: Taken<T>, want: Parsed<T>) -> bool {
    match want {
        Ok((v, rest)) => res matches Ok((w, r)) && w == v && r@ == rest,
        Err(f) => res matches Err(e) && e@ == f,
    }
}

/// The bytes of a `u32`, followed by `rest`.
#[verifier::opaque]
pub open spec fn u32_then(v: u32, rest: Seq<u8>) -> Seq<u8> {
    le_bytes(v as nat, 4) + rest
}

#[verifier::opaque]
pub open spec fn parse_u32(s: Seq<u8>) -> Parsed<u32> {
    if s.len() < 4 {
        Err(Fault::Truncated)
    } else {
        Ok((le_value(s.take(4)) as u32, s.skip(4)))
    }
}

pub fn take_u32<'a>(s: &'a [u8]) -> (res: Taken<'a, u32>)
    ensures
        taken(res, parse_u32(s@)),
{
    proof {
        reveal(parse_u32);
    }
    if s.len() < 4 {
        return Err(PersistError::Truncated);
    }
    let v: u32 = read_le_u32(s);
    Ok((v, &s[4..s.len()]))
}

pub fn put_u32(out: &mut Vec<u8>, v: u32)
    ensures
        forall|rest: Seq<u8>| #[trigger] (final(out)@ + rest) == old(out)@ + u32_then(v, rest),
{
    proof {
        reveal(u32_then);
    }
    let b = le_u32(v);
    push_all(out, &b);
    assert forall|rest: Seq<u8>| #[trigger] (out@ + rest) == old(out)@ + u32_then(v, rest) by {
        assert(out@ + rest =~= old(out)@ + u32_then(v, rest));
    }
}

pub broadcast proof fn u32_round_trip(v: u32, rest: Seq<u8>)
    ensures
        #[trigger] parse_u32(u32_then(v, rest)) == Ok::<(u32, Seq<u8>), Fault>((v, rest)),
{
    reveal(parse_u32);
    reveal(u32_then);
    lemma_int_widths();
    le_round_trip(v as nat, 4);
    let s = u32_then(v, rest);
    assert(s.take(4) =~= le_bytes(v as nat, 4));
    assert(s.skip(4) =~= rest);
}

/// The bytes of a `u64`, followed by `rest`.
#[verifier::opaque]
pub open spec fn u64_then(v: u64, rest: Seq<u8>) -> Seq<u8> {
    le_bytes(v as nat, 8) + rest
}

#[verifier::opaque]
pub open spec fn parse_u64(s: Seq<u8>) -> Parsed<u64> {
    if s.len() < 8 {
        Err(Fault::Truncated)
    } else {
        Ok((le_value(s.take(8)) as u64, s.skip(8)))
    }
}

pub fn take_u64<'a>(s: &'a [u8]) -> (res: Taken<'a, u64>)
    ensures
        taken(res, parse_u64(s@)),
{
    proof {
        reveal(parse_u64);
    }
    if s.len() < 8 {
        return Err(PersistError::Truncated);
    }
    let v: u64 = read_le_u64(s);
    Ok((v, &s[8..s.len()]))
}

pub fn put_u64(out: &mut Vec<u8>, v: u64)
    ensures
        forall|rest: Seq<u8>| #[trigger] (final(out)@ + rest) == old(out)@ + u64_then(v, rest),
{
    proof {
        reveal(u64_then);
    }
    let b = le_u64(v);
    push_all(out, &b);
    assert forall|rest: Seq<u8>| #[trigger] (out@ + rest) == old(out)@ + u64_then(v, rest) by {
        assert(out@ + rest =~= old(out)@ + u64_then(v, rest));
    }
}

pub broadcast proof fn u64_round_trip(v: u64, rest: Seq<u8>)
    ensures
        #[trigger] parse_u64(u64_then(v, rest)) == Ok::<(u64, Seq<u8>), Fault>((v, rest)),
{
    reveal(parse_u64);
    reveal(u64_then);
    lemma_int_widths();
    le_round_trip(v as nat, 8);
    let s = u64_then(v, rest);
    assert(s.take(8) =~= le_bytes(v as nat, 8));
    assert(s.skip(8) =~= rest);
}

/// A byte, followed by `rest`.
#[verifier::opaque]
pub open spec fn u8_then(v: u8, rest: Seq<u8>) -> Seq<u8> {
    seq![v] + rest
}

#[verifier::opaque]
pub open spec fn parse_u8(s: Seq<u8>) -> Parsed<u8> {
    if s.len() < 1 {
        Err(Fault::Truncated)
    } else {
        Ok((s[0], s.skip(1)))
    }
}

pub fn take_u8<'a>(s: &'a [u8]) -> (res: Taken<'a, u8>)
    ensures
        taken(res, parse_u8(s@)),
{
    proof {
        reveal(parse_u8);
    }
    if s.len() < 1 {
        return Err(PersistError::Truncated);
    }
    let v: u8 = s[0];
    Ok((v, &s[1..s.len()]))
}

pub fn put_u8(out: &mut Vec<u8>, v: u8)
    ensures
        forall|rest: Seq<u8>| #[trigger] (final(out)@ + rest) == old(out)@ + u8_then(v, rest),
{
    proof {
        reveal(u8_then);
    }
    out.push(v);
    assert forall|rest: Seq<u8>| #[trigger] (out@ + rest) == old(out)@ + u8_then(v, rest) by {
        assert(out@ + rest =~= old(out)@ + u8_then(v, rest));
    }
}

pub broadcast proof fn u8_round_trip(v: u8, rest: Seq<u8>)
    ensures
        #[trigger] parse_u8(u8_then(v, rest)) == Ok::<(u8, Seq<u8>), Fault>((v, rest)),
{
    reveal(parse_u8);
    reveal(u8_then);
    assert(u8_then(v, rest).skip(1) =~= rest);
}

/// A byte string of known length, followed by `rest`.
#[verifier::opaque]
pub open spec fn array_then<const N: usize>(v: [u8; N], rest: Seq<u8>) -> Seq<u8> {
    v@ + rest
}

/// The array that holds the given bytes.
pub open spec fn array_of<const N: usize>(s: Seq<u8>) -> [u8; N] {
    choose|a: [u8; N]| a@ == s
}

#[verifier::opaque]
pub open spec fn parse_array<const N: usize>(s: Seq<u8>) -> Parsed<[u8; N]> {
    if s.len() < N {
        Err(Fault::Truncated)
    } else {
        Ok((array_of::<N>(s.take(N as int)), s.skip(N as int)))
    }
}

/// An array is the one that holds its bytes.
pub proof fn lemma_array_of<const N: usize>(a: [u8; N])
    ensures
        array_of::<N>(a@) == a,
{
    let b = array_of::<N>(a@);
    assert(b@ == a@);
    assert(b =~= a);
}

/// Some array holds the first bytes of a string.
proof fn lemma_array_with<const N: usize>(s: Seq<u8>, n: int) -> (a: [u8; N])
    requires
        s.len() == N,
        0 <= n <= N,
    ensures
        forall|i: int| 0 <= i < n ==> #[trigger] a@[i] == s[i],
    decreases n,
{
    if n == 0 {
        vstd::array::spec_array_fill_for_copy_type::<u8, N>(0u8)
    } else {
        let a = lemma_array_with::<N>(s, n - 1);
        let b = vstd::array::spec_array_update(a, n - 1, s[n - 1]);
        assert(b@ == a@.update(n - 1, s[n - 1]));
        b
    }
}

/// The array of a byte string of its length holds the bytes of the string.
pub proof fn lemma_array_holds<const N: usize>(s: Seq<u8>)
    requires
        s.len() == N,
    ensures
        array_of::<N>(s)@ == s,
{
    let a = lemma_array_with::<N>(s, N as int);
    assert(a@ =~= s);
}

pub fn take_array<'a, const N: usize>(s: &'a [u8]) -> (res: Taken<'a, [u8; N]>)
    ensures
        taken(res, parse_array::<N>(s@)),
{
    proof {
        reveal(parse_array);
    }
    if s.len() < N {
        return Err(PersistError::Truncated);
    }
    let v: [u8; N] = array_from_slice::<N>(s);
    proof {
        lemma_array_of(v);
    }
    Ok((v, &s[N..s.len()]))
}

pub fn put_array<const N: usize>(out: &mut Vec<u8>, v: &[u8; N])
    ensures
        forall|rest: Seq<u8>| #[trigger] (final(out)@ + rest) == old(out)@ + array_then(*v, rest),
{
    proof {
        reveal(array_then);
    }
    push_all(out, v);
    assert forall|rest: Seq<u8>| #[trigger] (out@ + rest) == old(out)@ + array_then(*v, rest) by {
        assert(out@ + rest =~= old(out)@ + array_then(*v, rest));
    }
}

pub broadcast proof fn array_round_trip<const N: usize>(v: [u8; N], rest: Seq<u8>)
    ensures
        #[trigger] parse_array::<N>(array_then::<N>(v, rest)) == Ok::<([u8; N], Seq<u8>), Fault>(
            (v, rest),
        ),
{
    reveal(parse_array);
    reveal(array_then);
    let s = array_then(v, rest);
    assert(s.take(N as int) =~= v@);
    assert(s.skip(N as int) =~= rest);
    lemma_array_of(v);
}

/// The longest byte string of variable length that a snapshot holds.
pub const MAX_BLOB_SIZE: usize = 268_435_456;

/// A byte string behind its length, followed by `rest`.
#[verifier::opaque]
pub open spec fn blob_then(v: Seq<u8>, rest: Seq<u8>) -> Seq<u8> {
    u64_then(v.len() as u64, v + rest)
}

#[verifier::opaque]
pub open spec fn parse_blob(s: Seq<u8>) -> Parsed<Seq<u8>> {
    match parse_u64(s) {
        Err(f) => Err(f),
        Ok((n, s)) => {
            let n = n as usize;
            if n > MAX_BLOB_SIZE {
                Err(Fault::InvalidValue("blob too large"@))
            } else if s.len() < n {
                Err(Fault::Truncated)
            } else {
                Ok((s.take(n as int), s.skip(n as int)))
            }
        },
    }
}

pub fn take_blob<'a>(s: &'a [u8]) -> (res: Taken<'a, &'a [u8]>)
    ensures
        match parse_blob(s@) {
            Ok((v, rest)) => res matches Ok((w, r)) && w@ == v && r@ == rest,
            Err(f) => res matches Err(e) && e@ == f,
        },
{
    proof {
        reveal(parse_blob);
    }
    let (n, s) = take_u64(s)?;
    let n: usize = n as usize;
    if n > MAX_BLOB_SIZE {
        return Err(PersistError::InvalidValue("blob too large"));
    }
    if s.len() < n {
        return Err(PersistError::Truncated);
    }
    Ok((&s[0..n], &s[n..s.len()]))
}

pub fn put_blob(out: &mut Vec<u8>, v: &[u8])
    ensures
        forall|rest: Seq<u8>| #[trigger] (final(out)@ + rest) == old(out)@ + blob_then(v@, rest),
{
    proof {
        reveal(blob_then);
    }
    put_u64(out, v.len() as u64);
    let ghost mid = out@;
    push_all(out, v);
    assert forall|rest: Seq<u8>| #[trigger] (out@ + rest) == old(out)@ + blob_then(v@, rest) by {
        assert(out@ + rest =~= mid + (v@ + rest));
    }
}

pub broadcast proof fn blob_round_trip(v: Seq<u8>, rest: Seq<u8>)
    requires
        v.len() <= MAX_BLOB_SIZE,
    ensures
        #[trigger] parse_blob(blob_then(v, rest)) == Ok::<(Seq<u8>, Seq<u8>), Fault>((v, rest)),
{
    reveal(parse_blob);
    reveal(blob_then);
    broadcast use u64_round_trip;

    assert((v + rest).take(v.len() as int) =~= v);
    assert((v + rest).skip(v.len() as int) =~= rest);
}

/// Text behind the length of its UTF-8 encoding, followed by `rest`.
#[verifier::opaque]
pub open spec fn text_then(v: Seq<char>, rest: Seq<u8>) -> Seq<u8> {
    blob_then(encode_utf8(v), rest)
}

#[verifier::opaque]
pub open spec fn parse_text(s: Seq<u8>) -> Parsed<Seq<char>> {
    match parse_blob(s) {
        Err(f) => Err(f),
        Ok((b, s)) => if valid_utf8(b) {
            Ok((decode_utf8(b), s))
        } else {
            Err(Fault::InvalidValue("non-utf8 string"@))
        },
    }
}

/// `str::from_utf8` of `std`, made into a `String`: text comes of bytes that are valid UTF-8, and
/// of no others, and it is what they encode.
#[verifier::external_body]
pub(crate) fn text_from_utf8(b: &[u8]) -> (r: Option<String>)
    ensures
        r.is_some() == valid_utf8(b@),
        r matches Some(t) ==> t@ == decode_utf8(b@),
{
    std::str::from_utf8(b).ok().map(|t| t.to_string())
}

pub fn take_text<'a>(s: &'a [u8]) -> (res: Taken<'a, String>)
    ensures
        match parse_text(s@) {
            Ok((v, rest)) => res matches Ok((w, r)) && w@ == v && r@ == rest,
            Err(f) => res matches Err(e) && e@ == f,
        },
{
    proof {
        reveal(parse_text);
    }
    let (b, s) = take_blob(s)?;
    match text_from_utf8(b) {
        Some(t) => Ok((t, s)),
        None => Err(PersistError::InvalidValue("non-utf8 string")),
    }
}

pub fn put_text(out: &mut Vec<u8>, v: &str)
    ensures
        forall|rest: Seq<u8>| #[trigger] (final(out)@ + rest) == old(out)@ + text_then(v@, rest),
{
    proof {
        reveal(text_then);
    }
    put_blob(out, v.as_bytes());
}

/// Whether text is short enough to be read back.
pub open spec fn text_fits(v: Seq<char>) -> bool {
    encode_utf8(v).len() <= MAX_BLOB_SIZE
}

pub broadcast proof fn text_round_trip(v: Seq<char>, rest: Seq<u8>)
    requires
        text_fits(v),
    ensures
        #[trigger] parse_text(text_then(v, rest)) == Ok::<(Seq<char>, Seq<u8>), Fault>((v, rest)),
{
    reveal(parse_text);
    reveal(text_then);
    broadcast use blob_round_trip;

    vstd::utf8::encode_utf8_valid_utf8(v);
    vstd::utf8::encode_utf8_decode_utf8(v);
}

/// The bytes of an optional height, followed by `rest`.
pub open spec fn opt_height_then(v: Option<BlockHeight>, rest: Seq<u8>) -> Seq<u8> {
    match v {
        Some(h) => u8_then(1, u32_then(h.0, rest)),
        None => u8_then(0, rest),
    }
}

pub open spec fn parse_opt_height(s: Seq<u8>) -> Parsed<Option<BlockHeight>> {
    match parse_u8(s) {
        Err(f) => Err(f),
        Ok((tag, s)) => if tag == 0 {
            Ok((None, s))
        } else if tag == 1 {
            match parse_u32(s) {
                Err(f) => Err(f),
                Ok((h, s)) => Ok((Some(BlockHeight(h)), s)),
            }
        } else {
            Err(Fault::InvalidValue("bad option tag"@))
        },
    }
}

pub fn take_opt_height<'a>(s: &'a [u8]) -> (res: Taken<'a, Option<BlockHeight>>)
    ensures
        taken(res, parse_opt_height(s@)),
{
    let (tag, s) = take_u8(s)?;
    if tag == 0 {
        Ok((None, s))
    } else if tag == 1 {
        let (h, s) = take_u32(s)?;
        Ok((Some(BlockHeight(h)), s))
    } else {
        Err(PersistError::InvalidValue("bad option tag"))
    }
}

pub fn put_opt_height(out: &mut Vec<u8>, v: Option<BlockHeight>)
    ensures
        forall|rest: Seq<u8>| #[trigger] (final(out)@ + rest) == old(out)@ + opt_height_then(v, rest),
{
    match v {
        Some(h) => {
            put_u8(out, 1);
            put_u32(out, h.0);
        },
        None => put_u8(out, 0),
    }
}

pub broadcast proof fn opt_height_round_trip(v: Option<BlockHeight>, rest: Seq<u8>)
    ensures
        #[trigger] parse_opt_height(opt_height_then(v, rest)) == Ok::<
            (Option<BlockHeight>, Seq<u8>),
            Fault,
        >((v, rest)),
{
    broadcast use {u8_round_trip, u32_round_trip};

}

/// The bytes of an amount, followed by `rest`.
pub open spec fn zats_then(v: Zatoshis, rest: Seq<u8>) -> Seq<u8> {
    u64_then(v.zats, rest)
}

pub open spec fn parse_zats(s: Seq<u8>) -> Parsed<Zatoshis> {
    match parse_u64(s) {
        Err(f) => Err(f),
        Ok((v, s)) => if v <= MAX_MONEY {
            Ok((Zatoshis { zats: v }, s))
        } else {
            Err(Fault::InvalidValue("bad zatoshis"@))
        },
    }
}

pub fn take_zats<'a>(s: &'a [u8]) -> (res: Taken<'a, Zatoshis>)
    ensures
        taken(res, parse_zats(s@)),
{
    let (v, s) = take_u64(s)?;
    match Zatoshis::from_u64(v) {
        Some(z) => Ok((z, s)),
        None => Err(PersistError::InvalidValue("bad zatoshis")),
    }
}

pub fn put_zats(out: &mut Vec<u8>, v: Zatoshis)
    ensures
        forall|rest: Seq<u8>| #[trigger] (final(out)@ + rest) == old(out)@ + zats_then(v, rest),
{
    put_u64(out, v.into_u64());
}

pub broadcast proof fn zats_round_trip(v: Zatoshis, rest: Seq<u8>)
    requires
        v.wf(),
    ensures
        #[trigger] parse_zats(zats_then(v, rest)) == Ok::<(Zatoshis, Seq<u8>), Fault>((v, rest)),
{
    broadcast use u64_round_trip;

}

/// That each primitive is read back as it was written.
pub broadcast group primitives_round_trip {
    u8_round_trip,
    u32_round_trip,
    u64_round_trip,
    array_round_trip,
    blob_round_trip,
    text_round_trip,
    opt_height_round_trip,
    zats_round_trip,
}

/// How reading some bytes and reading more bytes go together: what is read of the first is read of the
/// second, with the more behind it, and what is wrong with the first is wrong with the second, unless
/// they only end too early.
pub open spec fn extended<M>(first: Parsed<M>, second: Parsed<M>, more: Seq<u8>) -> bool {
    match first {
        Ok((v, rest)) => second == Ok::<(M, Seq<u8>), Fault>((v, rest + more)),
        Err(f) => f != Fault::Truncated ==> second == Err::<(M, Seq<u8>), Fault>(f),
    }
}

pub broadcast proof fn u8_extends(s: Seq<u8>, more: Seq<u8>)
    ensures
        extended(parse_u8(s), #[trigger] parse_u8(s + more), more),
{
    reveal(parse_u8);
    if s.len() >= 1 {
        assert((s + more).skip(1) =~= s.skip(1) + more);
    }
}

pub broadcast proof fn u32_extends(s: Seq<u8>, more: Seq<u8>)
    ensures
        extended(parse_u32(s), #[trigger] parse_u32(s + more), more),
{
    reveal(parse_u32);
    if s.len() >= 4 {
        assert((s + more).skip(4) =~= s.skip(4) + more);
        assert((s + more).take(4) =~= s.take(4));
    }
}

pub broadcast proof fn u64_extends(s: Seq<u8>, more: Seq<u8>)
    ensures
        extended(parse_u64(s), #[trigger] parse_u64(s + more), more),
{
    reveal(parse_u64);
    if s.len() >= 8 {
        assert((s + more).skip(8) =~= s.skip(8) + more);
        assert((s + more).take(8) =~= s.take(8));
    }
}

pub broadcast proof fn array_extends<const N: usize>(s: Seq<u8>, more: Seq<u8>)
    ensures
        extended(parse_array::<N>(s), #[trigger] parse_array::<N>(s + more), more),
{
    reveal(parse_array);
    if s.len() >= N {
        assert((s + more).skip(N as int) =~= s.skip(N as int) + more);
        assert((s + more).take(N as int) =~= s.take(N as int));
    }
}

pub broadcast proof fn blob_extends(s: Seq<u8>, more: Seq<u8>)
    ensures
        extended(parse_blob(s), #[trigger] parse_blob(s + more), more),
{
    reveal(parse_blob);
    broadcast use u64_extends;

    if let Ok((n, t)) = parse_u64(s) {
        let n = n as usize;
        if n <= t.len() {
            assert((t + more).skip(n as int) =~= t.skip(n as int) + more);
            assert((t + more).take(n as int) =~= t.take(n as int));
        }
    }
}

pub broadcast proof fn text_extends(s: Seq<u8>, more: Seq<u8>)
    ensures
        extended(parse_text(s), #[trigger] parse_text(s + more), more),
{
    reveal(parse_text);
    broadcast use blob_extends;

}

pub broadcast proof fn opt_height_extends(s: Seq<u8>, more: Seq<u8>)
    ensures
        extended(parse_opt_height(s), #[trigger] parse_opt_height(s + more), more),
{
    broadcast use {u8_extends, u32_extends};

}

pub broadcast proof fn zats_extends(s: Seq<u8>, more: Seq<u8>)
    ensures
        extended(parse_zats(s), #[trigger] parse_zats(s + more), more),
{
    broadcast use u64_extends;

}

/// That each primitive is read the same with more bytes behind it.
pub broadcast group primitives_extend {
    u8_extends,
    u32_extends,
    u64_extends,
    array_extends,
    blob_extends,
    text_extends,
    opt_height_extends,
    zats_extends,
}

/// A kind of value that snapshots hold.
pub trait Wire: Sized {
    /// What a value is, apart from how it is held.
    type Model;

    spec fn model(&self) -> Self::Model;

    /// The bytes of a value, followed by `rest`.
    spec fn then_bytes(m: Self::Model, rest: Seq<u8>) -> Seq<u8>;

    /// What comes of reading a value off the front of `s`, in a snapshot of network `net`.
    spec fn parse(net: NetworkType, s: Seq<u8>) -> Parsed<Self::Model>;

    /// Whether a value can be read back in a snapshot of network `net`.
    spec fn storable(net: NetworkType, m: Self::Model) -> bool;

    proof fn round_trip(net: NetworkType, m: Self::Model, rest: Seq<u8>)
        requires
            Self::storable(net, m),
        ensures
            Self::parse(net, Self::then_bytes(m, rest)) == Ok::<(Self::Model, Seq<u8>), Fault>(
                (m, rest),
            ),
    ;

    proof fn extends(net: NetworkType, s: Seq<u8>, more: Seq<u8>)
        ensures
            extended(Self::parse(net, s), Self::parse(net, s + more), more),
    ;

    fn put(&self, out: &mut Vec<u8>)
        ensures
            forall|rest: Seq<u8>| #[trigger]
                (final(out)@ + rest) == old(out)@ + Self::then_bytes(self.model(), rest),
    ;

    fn take<'a>(net: NetworkType, s: &'a [u8]) -> (res: Taken<'a, Self>)
        ensures
            match Self::parse(net, s@) {
                Ok((v, rest)) => res matches Ok((w, r)) && w.model() == v && r@ == rest,
                Err(f) => res matches Err(e) && e@ == f,
            },
    ;
}

/// What a list of values is.
pub open spec fn models<T: Wire>(v: Seq<T>) -> Seq<T::Model> {
    Seq::new(v.len(), |i: int| v[i].model())
}

/// The bytes of some values one after the other, followed by `rest`.
pub open spec fn items_then<T: Wire>(v: Seq<T::Model>, rest: Seq<u8>) -> Seq<u8>
    decreases v.len(),
{
    if v.len() == 0 {
        rest
    } else {
        T::then_bytes(v[0], items_then::<T>(v.skip(1), rest))
    }
}

/// The bytes of a list: its length, its values, and `rest`.
pub open spec fn list_then<T: Wire>(v: Seq<T::Model>, rest: Seq<u8>) -> Seq<u8> {
    u64_then(v.len() as u64, items_then::<T>(v, rest))
}

pub open spec fn parse_items<T: Wire>(net: NetworkType, n: nat, s: Seq<u8>) -> Parsed<Seq<T::Model>>
    decreases n,
{
    if n == 0 {
        Ok((seq![], s))
    } else {
        match T::parse(net, s) {
            Err(f) => Err(f),
            Ok((v, s)) => match parse_items::<T>(net, (n - 1) as nat, s) {
                Err(f) => Err(f),
                Ok((vs, s)) => Ok((seq![v] + vs, s)),
            },
        }
    }
}

pub open spec fn parse_list<T: Wire>(net: NetworkType, s: Seq<u8>) -> Parsed<Seq<T::Model>> {
    match parse_u64(s) {
        Err(f) => Err(f),
        Ok((n, s)) => parse_items::<T>(net, n as usize as nat, s),
    }
}

/// Whether a list can be read back.
pub open spec fn list_storable<T: Wire>(net: NetworkType, v: Seq<T::Model>) -> bool {
    &&& v.len() <= usize::MAX
    &&& forall|i: int| 0 <= i < v.len() ==> T::storable(net, #[trigger] v[i])
}

pub proof fn items_round_trip<T: Wire>(net: NetworkType, v: Seq<T::Model>, rest: Seq<u8>)
    requires
        forall|i: int| 0 <= i < v.len() ==> T::storable(net, #[trigger] v[i]),
    ensures
        parse_items::<T>(net, v.len(), items_then::<T>(v, rest)) == Ok::<
            (Seq<T::Model>, Seq<u8>),
            Fault,
        >((v, rest)),
    decreases v.len(),
{
    if v.len() > 0 {
        let tail = v.skip(1);
        assert forall|i: int| 0 <= i < tail.len() implies T::storable(net, #[trigger] tail[i]) by {
            assert(tail[i] == v[i + 1]);
        }
        items_round_trip::<T>(net, tail, rest);
        T::round_trip(net, v[0], items_then::<T>(tail, rest));
        assert(seq![v[0]] + tail =~= v);
    } else {
        assert(v =~= seq![]);
    }
}

pub broadcast proof fn list_round_trip<T: Wire>(net: NetworkType, v: Seq<T::Model>, rest: Seq<u8>)
    requires
        list_storable::<T>(net, v),
    ensures
        #[trigger] parse_list::<T>(net, list_then::<T>(v, rest)) == Ok::<
            (Seq<T::Model>, Seq<u8>),
            Fault,
        >((v, rest)),
{
    broadcast use u64_round_trip;

    items_round_trip::<T>(net, v, rest);
}

pub proof fn items_extend<T: Wire>(net: NetworkType, n: nat, s: Seq<u8>, more: Seq<u8>)
    ensures
        extended(parse_items::<T>(net, n, s), parse_items::<T>(net, n, s + more), more),
    decreases n,
{
    if n > 0 {
        T::extends(net, s, more);
        if let Ok((v, t)) = T::parse(net, s) {
            items_extend::<T>(net, (n - 1) as nat, t, more);
        }
    }
}

pub broadcast proof fn list_extends<T: Wire>(net: NetworkType, s: Seq<u8>, more: Seq<u8>)
    ensures
        extended(parse_list::<T>(net, s), #[trigger] parse_list::<T>(net, s + more), more),
{
    broadcast use u64_extends;

    if let Ok((n, t)) = parse_u64(s) {
        items_extend::<T>(net, n as usize as nat, t, more);
    }
}

/// Values in front of others, one after the other.
pub proof fn lemma_items_split<T: Wire>(a: Seq<T::Model>, m: T::Model, rest: Seq<u8>)
    ensures
        items_then::<T>(a.push(m), rest) == items_then::<T>(a, T::then_bytes(m, rest)),
    decreases a.len(),
{
    reveal_with_fuel(items_then, 2);
    if a.len() > 0 {
        assert(a.push(m).skip(1) =~= a.skip(1).push(m));
        lemma_items_split::<T>(a.skip(1), m, rest);
    } else {
        assert(a.push(m).skip(1) =~= a);
    }
}

pub fn put_list<T: Wire>(out: &mut Vec<u8>, v: &[T])
    ensures
        forall|rest: Seq<u8>| #[trigger]
            (final(out)@ + rest) == old(out)@ + list_then::<T>(models(v@), rest),
{
    put_u64(out, v.len() as u64);
    let ghost start = out@;
    let mut i: usize = 0;
    assert(models(v@.take(0)) =~= seq![]);
    while i < v.len()
        invariant
            i <= v.len(),
            forall|rest: Seq<u8>| #[trigger]
                (out@ + rest) == start + items_then::<T>(models(v@.take(i as int)), rest),
        decreases v.len() - i,
    {
        let ghost before = out@;
        v[i].put(out);
        proof {
            let done = models(v@.take(i as int));
            let m = v@[i as int].model();
            assert(models(v@.take(i + 1)) =~= done.push(m));
            assert forall|rest: Seq<u8>| #[trigger]
                (out@ + rest) == start + items_then::<T>(models(v@.take(i + 1)), rest) by {
                lemma_items_split::<T>(done, m, rest);
                assert(out@ + rest == before + T::then_bytes(m, rest));
            }
        }
        i += 1;
    }
    assert(v@.take(i as int) =~= v@);
}

/// What is still to be read of a list, put behind what was read of it.
spec fn behind<M>(done: Seq<M>, p: Parsed<Seq<M>>) -> Parsed<Seq<M>> {
    match p {
        Err(f) => Err(f),
        Ok((vs, s)) => Ok((done + vs, s)),
    }
}

/// Reads some values, one after the other.
pub fn take_items<'a, T: Wire>(net: NetworkType, n: u64, s: &'a [u8]) -> (res: Taken<'a, Vec<T>>)
    ensures
        match parse_items::<T>(net, n as nat, s@) {
            Ok((v, rest)) => res matches Ok((w, r)) && models(w@) == v && r@ == rest,
            Err(f) => res matches Err(e) && e@ == f,
        },
{
    let mut left: &'a [u8] = s;
    let mut v: Vec<T> = Vec::new();
    let mut i: u64 = 0;
    proof {
        assert(models(v@) =~= seq![]);
        if let Ok((vs, t)) = parse_items::<T>(net, n as nat, s@) {
            assert(seq![] + vs =~= vs);
        }
    }
    while i < n
        invariant
            i <= n,
            parse_items::<T>(net, n as nat, s@) == behind(
                models(v@),
                parse_items::<T>(net, (n - i) as nat, left@),
            ),
        decreases n - i,
    {
        let ghost done = models(v@);
        match T::take(net, left) {
            Err(e) => {
                return Err(e);
            },
            Ok((x, t)) => {
                let ghost m = x.model();
                v.push(x);
                left = t;
                i += 1;
                proof {
                    assert(models(v@) =~= done.push(m));
                    if let Ok((vs, t2)) = parse_items::<T>(net, (n - i) as nat, left@) {
                        assert(done + (seq![m] + vs) =~= done.push(m) + vs);
                    }
                }
            },
        }
    }
    assert(models(v@) + Seq::<T::Model>::empty() =~= models(v@));
    Ok((v, left))
}

pub fn take_list<'a, T: Wire>(net: NetworkType, s: &'a [u8]) -> (res: Taken<'a, Vec<T>>)
    ensures
        match parse_list::<T>(net, s@) {
            Ok((v, rest)) => res matches Ok((w, r)) && models(w@) == v && r@ == rest,
            Err(f) => res matches Err(e) && e@ == f,
        },
{
    let (count, items) = take_u64(s)?;
    let n: usize = count as usize;
    take_items::<T>(net, n as u64, items)
}

/// Numbers are written with the lowest byte first.
pub proof fn the_lowest_byte_comes_first(v: u32, w: u64, rest: Seq<u8>)
    ensures
        u32_then(v, rest)[0] == v % 256,
        u32_then(v, rest).skip(1) == le_bytes(v as nat / 256, 3) + rest,
        u32_then(v, rest).skip(4) == rest,
        u64_then(w, rest)[0] == w % 256,
        u64_then(w, rest).skip(1) == le_bytes(w as nat / 256, 7) + rest,
        u64_then(w, rest).skip(8) == rest,
{
    reveal(u32_then);
    reveal(u64_then);
    lemma_le_len(v as nat, 4);
    lemma_le_len(w as nat, 8);
    lemma_le_len(v as nat / 256, 3);
    lemma_le_len(w as nat / 256, 7);
    assert(u32_then(v, rest).skip(1) =~= le_bytes(v as nat / 256, 3) + rest);
    assert(u64_then(w, rest).skip(1) =~= le_bytes(w as nat / 256, 7) + rest);
    assert(u32_then(v, rest).skip(4) =~= rest);
    assert(u64_then(w, rest).skip(8) =~= rest);
}

proof fn lemma_le_len(v: nat, n: nat)
    ensures
        le_bytes(v, n).len() == n,
    decreases n,
{
    if n > 0 {
        lemma_le_len(v / 256, (n - 1) as nat);
    }
}

} // verus!
