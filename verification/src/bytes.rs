//! Byte strings: comparison, copying and little-endian integers.
use vstd::prelude::*;

verus! {

/// Whether two byte arrays hold the same bytes.
pub fn bytes_eq<const N: usize>(a: &[u8; N], b: &[u8; N]) -> (r: bool)
    ensures
        r == (*a == *b),
{
    let mut i: usize = 0;
    while i < N
        invariant
            i <= N,
            forall|k: int| 0 <= k < i ==> a@[k] == b@[k],
        decreases N - i,
    {
        if a[i] != b[i] {
            return false;
        }
        i += 1;
    }
    assert(*a =~= *b);
    true
}

/// Whether two byte slices hold the same bytes.
pub fn slices_eq(a: &[u8], b: &[u8]) -> (r: bool)
    ensures
        r == (a@ == b@),
{
    if a.len() != b.len() {
        return false;
    }
    let mut i: usize = 0;
    while i < a.len()
        invariant
            i <= a.len(),
            a.len() == b.len(),
            forall|k: int| 0 <= k < i ==> a@[k] == b@[k],
        decreases a.len() - i,
    {
        if a[i] != b[i] {
            return false;
        }
        i += 1;
    }
    assert(a@ =~= b@);
    true
}

/// The first `N` bytes of a slice.
pub fn array_from_slice<const N: usize>(s: &[u8]) -> (r: [u8; N])
    requires
        N <= s@.len(),
    ensures
        r@ == s@.take(N as int),
{
    let mut r: [u8; N] = [0u8; N];
    let mut i: usize = 0;
    while i < N
        invariant
            i <= N,
            N <= s@.len(),
            forall|k: int| 0 <= k < i ==> r@[k] == s@[k],
        decreases N - i,
    {
        r[i] = s[i];
        i += 1;
    }
    assert(r@ =~= s@.take(N as int));
    r
}

/// Appends every byte of a slice.
pub fn push_all(out: &mut Vec<u8>, s: &[u8])
    ensures
        final(out)@ == old(out)@ + s@,
{
    let mut i: usize = 0;
    while i < s.len()
        invariant
            i <= s.len(),
            out@ == old(out)@ + s@.take(i as int),
        decreases s.len() - i,
    {
        out.push(s[i]);
        i += 1;
        assert(out@ =~= old(out)@ + s@.take(i as int));
    }
    assert(s@.take(i as int) =~= s@);
}

/// The number that a little-endian byte string stands for.
pub open spec fn le_value(s: Seq<u8>) -> nat
    decreases s.len(),
{
    if s.len() == 0 {
        0
    } else {
        s[0] as nat + 256 * le_value(s.skip(1))
    }
}

/// The `n` lowest bytes of a number, the lowest first.
pub open spec fn le_bytes(v: nat, n: nat) -> Seq<u8>
    decreases n,
{
    if n == 0 {
        seq![]
    } else {
        seq![(v % 256) as u8] + le_bytes(v / 256, (n - 1) as nat)
    }
}

/// `LittleEndian::read_u32` of `byteorder`: the first four bytes as a number, the lowest first.
/// It panics on a shorter slice.
#[verifier::external_body]
pub(crate) fn read_le_u32(s: &[u8]) -> (r: u32)
    requires
        s@.len() >= 4,
    ensures
        r == le_value(s@.take(4)),
{
    <byteorder::LittleEndian as byteorder::ByteOrder>::read_u32(s)
}

/// `LittleEndian::read_u64` of `byteorder`: the first eight bytes as a number, the lowest first.
/// It panics on a shorter slice.
#[verifier::external_body]
pub(crate) fn read_le_u64(s: &[u8]) -> (r: u64)
    requires
        s@.len() >= 8,
    ensures
        r == le_value(s@.take(8)),
{
    <byteorder::LittleEndian as byteorder::ByteOrder>::read_u64(s)
}

/// `LittleEndian::write_u32` of `byteorder`: the four bytes of a number, the lowest first.
#[verifier::external_body]
pub(crate) fn le_u32(v: u32) -> (r: [u8; 4])
    ensures
        r@ == le_bytes(v as nat, 4),
{
    let mut buf = [0u8; 4];
    <byteorder::LittleEndian as byteorder::ByteOrder>::write_u32(&mut buf, v);
    buf
}

/// `LittleEndian::write_u64` of `byteorder`: the eight bytes of a number, the lowest first.
#[verifier::external_body]
pub(crate) fn le_u64(v: u64) -> (r: [u8; 8])
    ensures
        r@ == le_bytes(v as nat, 8),
{
    let mut buf = [0u8; 8];
    <byteorder::LittleEndian as byteorder::ByteOrder>::write_u64(&mut buf, v);
    buf
}

/// 256 to the power of `n`.
pub open spec fn pow256(n: nat) -> nat
    decreases n,
{
    if n == 0 {
        1
    } else {
        256 * pow256((n - 1) as nat)
    }
}

/// A number that fits in `n` bytes is read back from its bytes.
pub proof fn le_round_trip(v: nat, n: nat)
    requires
        v < pow256(n),
    ensures
        le_bytes(v, n).len() == n,
        le_value(le_bytes(v, n)) == v,
    decreases n,
{
    if n > 0 {
        let tail = le_bytes(v / 256, (n - 1) as nat);
        assert(v / 256 < pow256((n - 1) as nat)) by (nonlinear_arith)
            requires
                v < 256 * pow256((n - 1) as nat),
        ;
        le_round_trip(v / 256, (n - 1) as nat);
        let s = le_bytes(v, n);
        assert(s.skip(1) =~= tail);
        assert(s[0] == (v % 256) as u8);
    }
}

/// The bytes of a byte string's number are that byte string.
pub proof fn le_round_trip_bytes(s: Seq<u8>)
    ensures
        le_value(s) < pow256(s.len()),
        le_bytes(le_value(s), s.len()) == s,
    decreases s.len(),
{
    if s.len() > 0 {
        let t = s.skip(1);
        le_round_trip_bytes(t);
        let v = le_value(s);
        assert(v % 256 == s[0] as nat && v / 256 == le_value(t));
        assert(le_bytes(v, s.len()) =~= s) by {
            assert(s =~= seq![s[0]] + t);
        }
    } else {
        assert(le_bytes(le_value(s), 0) =~= s);
    }
}

/// Every `u32` and every `u64` fits in its bytes.
pub proof fn lemma_int_widths()
    ensures
        pow256(4) == 0x1_0000_0000,
        pow256(8) == 0x1_0000_0000_0000_0000,
{
    reveal_with_fuel(pow256, 9);
}

} // verus!
