//! Texts for display.
use crate::bytes::slices_eq;
use crate::height::{BlockHeight, BUILT, INVALID, MEMPOOL, PROPOSED, SENT};
use crate::wire::{Fault, PersistError};
use crate::zats::COIN;
use vstd::prelude::*;
use vstd::string::{StrSliceExecFns, StringExecFns};
use vstd::utf8::encode_utf8_decode_utf8;

verus! {

/// Whether two texts are the same.
pub fn same_text(a: &str, b: &str) -> (r: bool)
    ensures
        r == (a@ == b@),
{
    proof {
        encode_utf8_decode_utf8(a@);
        encode_utf8_decode_utf8(b@);
    }
    slices_eq(a.as_bytes(), b.as_bytes())
}

/// A decimal digit.
pub open spec fn digit(d: nat) -> Seq<char> {
    if d == 0 {
        "0"@
    } else if d == 1 {
        "1"@
    } else if d == 2 {
        "2"@
    } else if d == 3 {
        "3"@
    } else if d == 4 {
        "4"@
    } else if d == 5 {
        "5"@
    } else if d == 6 {
        "6"@
    } else if d == 7 {
        "7"@
    } else if d == 8 {
        "8"@
    } else {
        "9"@
    }
}

fn digit_str(d: u64) -> (r: &'static str)
    requires
        d < 10,
    ensures
        r@ == digit(d as nat),
{
    match d {
        0 => "0",
        1 => "1",
        2 => "2",
        3 => "3",
        4 => "4",
        5 => "5",
        6 => "6",
        7 => "7",
        8 => "8",
        _ => "9",
    }
}

/// A number in decimal digits, without leading zeros.
pub open spec fn decimal(v: nat) -> Seq<char>
    decreases v,
{
    if v < 10 {
        digit(v)
    } else {
        decimal(v / 10) + digit(v % 10)
    }
}

/// Appends a number in decimal digits.
pub fn append_decimal(out: &mut String, v: u64)
    ensures
        final(out)@ == old(out)@ + decimal(v as nat),
    decreases v,
{
    if v < 10 {
        out.append(digit_str(v));
    } else {
        append_decimal(out, v / 10);
        out.append(digit_str(v % 10));
        assert(out@ =~= old(out)@ + decimal(v as nat));
    }
}

/// A number in decimal digits.
pub fn decimal_text(v: u64) -> (r: String)
    ensures
        r@ == decimal(v as nat),
{
    let mut out = String::new();
    append_decimal(&mut out, v);
    assert(out@ =~= decimal(v as nat));
    out
}

/// The digit of a number at a power of ten.
pub open spec fn digit_at(v: nat, p: nat) -> nat
    recommends
        p > 0,
{
    (v / p) % 10
}

/// How many digits are shown of an amount behind the point: five at most, three at least, and no zero
/// at the end beyond those.
pub open spec fn shown_digits(part: nat) -> nat {
    if digit_at(part, 1000) != 0 {
        5
    } else if digit_at(part, 10000) != 0 {
        4
    } else {
        3
    }
}

/// An amount in coins, rounded down to what is shown.
pub open spec fn ctaz_text(val: nat) -> Seq<char> {
    let part = val % 100_000_000;
    let n = shown_digits(part);
    decimal(val / 100_000_000) + "."@ + digit(digit_at(part, 10_000_000)) + digit(
        digit_at(part, 1_000_000),
    ) + digit(digit_at(part, 100_000)) + (if n >= 4 {
        digit(digit_at(part, 10_000))
    } else {
        seq![]
    }) + (if n >= 5 {
        digit(digit_at(part, 1000))
    } else {
        seq![]
    })
}

/// An amount of zatoshis as text in coins.
pub fn str_from_ctaz(val: u64) -> (r: String)
    ensures
        r@ == ctaz_text(val as nat),
{
    let full: u64 = val / COIN;
    let part: u64 = val % COIN;
    let mut out = String::new();
    append_decimal(&mut out, full);
    out.append(".");
    out.append(digit_str(part / 10_000_000 % 10));
    out.append(digit_str(part / 1_000_000 % 10));
    out.append(digit_str(part / 100_000 % 10));
    let d4: u64 = part / 10_000 % 10;
    let d5: u64 = part / 1000 % 10;
    if d4 != 0 || d5 != 0 {
        out.append(digit_str(d4));
    }
    if d5 != 0 {
        out.append(digit_str(d5));
    }
    assert(out@ =~= ctaz_text(val as nat));
    out
}

/// A hexadecimal digit.
pub open spec fn hex_digit(d: nat) -> Seq<char> {
    if d < 10 {
        digit(d)
    } else if d == 10 {
        "a"@
    } else if d == 11 {
        "b"@
    } else if d == 12 {
        "c"@
    } else if d == 13 {
        "d"@
    } else if d == 14 {
        "e"@
    } else {
        "f"@
    }
}

fn hex_digit_str(d: u8) -> (r: &'static str)
    requires
        d < 16,
    ensures
        r@ == hex_digit(d as nat),
{
    match d {
        10 => "a",
        11 => "b",
        12 => "c",
        13 => "d",
        14 => "e",
        15 => "f",
        _ => digit_str(d as u64),
    }
}

/// A byte in two hexadecimal digits.
pub open spec fn hex_byte(b: u8) -> Seq<char> {
    hex_digit((b / 16) as nat) + hex_digit((b % 16) as nat)
}

/// Appends a byte in two hexadecimal digits.
pub fn append_hex(out: &mut String, b: u8)
    ensures
        final(out)@ == old(out)@ + hex_byte(b),
{
    out.append(hex_digit_str(b / 16));
    out.append(hex_digit_str(b % 16));
    assert(out@ =~= old(out)@ + hex_byte(b));
}

/// The last `n` bytes of a 32-byte hash from the end, in hexadecimal digits.
pub open spec fn reversed_hex(b: Seq<u8>, n: nat) -> Seq<char>
    decreases n,
{
    if n == 0 {
        seq![]
    } else {
        reversed_hex(b, (n - 1) as nat) + hex_byte(b[32 - n])
    }
}

/// Each byte takes two digits.
pub proof fn lemma_hex_len(b: Seq<u8>, n: nat)
    ensures
        reversed_hex(b, n).len() == 2 * n,
    decreases n,
{
    if n > 0 {
        lemma_hex_len(b, (n - 1) as nat);
        assert forall|d: nat| (#[trigger] hex_digit(d)).len() == 1 by {
            lemma_hex_digit(d);
        }
    }
}

proof fn lemma_hex_digit(d: nat)
    ensures
        hex_digit(d).len() == 1,
{
    reveal_strlit("0");
    reveal_strlit("1");
    reveal_strlit("2");
    reveal_strlit("3");
    reveal_strlit("4");
    reveal_strlit("5");
    reveal_strlit("6");
    reveal_strlit("7");
    reveal_strlit("8");
    reveal_strlit("9");
    reveal_strlit("a");
    reveal_strlit("b");
    reveal_strlit("c");
    reveal_strlit("d");
    reveal_strlit("e");
    reveal_strlit("f");
}

/// A hash whose last byte is shown first.
#[derive(Debug)]
pub struct LESlice<'a>(pub &'a [u8]);

/// How many bytes of a hash are shown.
pub open spec fn shown_bytes(len: nat, precision: Option<usize>) -> nat {
    match precision {
        Some(p) => if p < len {
            p as nat
        } else {
            len
        },
        None => len,
    }
}

impl<'a> LESlice<'a> {
    /// The bytes from the 32nd down, as many as are asked for and as there are.
    pub fn to_text(&self, precision: Option<usize>) -> (r: String)
        requires
            self.0@.len() == 32 || shown_bytes(self.0@.len(), precision) == 0,
        ensures
            r@ == reversed_hex(self.0@, shown_bytes(self.0@.len(), precision)),
    {
        let n: usize = match precision {
            Some(p) => if p < self.0.len() {
                p
            } else {
                self.0.len()
            },
            None => self.0.len(),
        };
        let mut out = String::new();
        let mut i: usize = 0;
        while i < n
            invariant
                i <= n,
                n <= self.0@.len(),
                n > 0 ==> self.0@.len() == 32,
                out@ == reversed_hex(self.0@, i as nat),
            decreases n - i,
        {
            append_hex(&mut out, self.0[31 - i]);
            i += 1;
        }
        out
    }
}

/// A hash whose last byte is shown first.
#[derive(Clone, Copy, Debug, PartialEq, Eq)]
pub struct LEHash(pub [u8; 32]);

impl LEHash {
    pub fn to_text(&self, precision: Option<usize>) -> (r: String)
        ensures
            r@ == reversed_hex(self.0@, shown_bytes(32, precision)),
    {
        LESlice(&self.0).to_text(precision)
    }
}

/// What is shown of a height: the number, or the name of a mark.
pub open spec fn height_text(h: BlockHeight) -> Seq<char> {
    if h.0 == INVALID {
        "<invalid>"@
    } else if h.0 == PROPOSED {
        "<proposed>"@
    } else if h.0 == BUILT {
        "<built>"@
    } else if h.0 == SENT {
        "<sent>"@
    } else if h.0 == MEMPOOL {
        "<mempool>"@
    } else {
        decimal(h.0 as nat)
    }
}

impl BlockHeight {
    pub fn to_text(&self) -> (r: String)
        ensures
            r@ == height_text(*self),
    {
        if self.0 == INVALID {
            "<invalid>".to_owned()
        } else if self.0 == PROPOSED {
            "<proposed>".to_owned()
        } else if self.0 == BUILT {
            "<built>".to_owned()
        } else if self.0 == SENT {
            "<sent>".to_owned()
        } else if self.0 == MEMPOOL {
            "<mempool>".to_owned()
        } else {
            decimal_text(self.0 as u64)
        }
    }

    /// What is shown of a height in a dump.
    pub fn to_debug_text(&self) -> (r: String)
        ensures
            r@ == "BlockHeight("@ + height_text(*self) + ")"@,
    {
        "BlockHeight(".to_owned().concat(self.to_text().as_str()).concat(")")
    }
}

/// A list that is shown with one item to a line.
#[derive(Debug)]
pub struct NL<'a, T>(pub &'a [T]);

/// Items, each on a line of its own.
pub open spec fn lines(items: Seq<Seq<char>>) -> Seq<char>
    decreases items.len(),
{
    if items.len() == 0 {
        seq![]
    } else {
        lines(items.drop_last()) + "\n  "@ + items.last()
    }
}

/// The texts of some strings.
pub open spec fn texts(v: Seq<String>) -> Seq<Seq<char>> {
    Seq::new(v.len(), |i: int| v[i]@)
}

impl<'a> NL<'a, String> {
    /// The list of what is shown of each item.
    pub fn to_text(&self) -> (r: String)
        ensures
            r@ == "["@ + lines(texts(self.0@)) + if self.0@.len() > 0 {
                "\n]"@
            } else {
                "]"@
            },
    {
        let ghost all = texts(self.0@);
        let mut out = "[".to_owned();
        let mut i: usize = 0;
        assert(out@ =~= "["@ + lines(all.take(0)));
        while i < self.0.len()
            invariant
                i <= self.0@.len(),
                all == texts(self.0@),
                out@ == "["@ + lines(all.take(i as int)),
            decreases self.0.len() - i,
        {
            out.append("\n  ");
            out.append(self.0[i].as_str());
            proof {
                assert(all.take(i + 1).drop_last() =~= all.take(i as int));
                assert(out@ =~= "["@ + lines(all.take(i + 1)));
            }
            i += 1;
        }
        assert(all.take(i as int) =~= all);
        if i > 0 {
            out.append("\n]");
        } else {
            out.append("]");
        }
        out
    }
}

/// What stands for a character within a JSON string.
pub open spec fn json_char(c: char) -> Seq<char> {
    if c == '"' {
        "\\\""@
    } else if c == '\\' {
        "\\\\"@
    } else if c == '\n' {
        "\\n"@
    } else if c == '\r' {
        "\\r"@
    } else if c == '\t' {
        "\\t"@
    } else if (c as u32) < 0x20 {
        "\\u00"@ + hex_byte(c as u8)
    } else {
        seq![c]
    }
}

pub open spec fn json_chars(s: Seq<char>) -> Seq<char>
    decreases s.len(),
{
    if s.len() == 0 {
        seq![]
    } else {
        json_chars(s.drop_last()) + json_char(s.last())
    }
}

/// Appends text as a JSON string.
pub fn append_json(out: &mut String, s: &str)
    ensures
        final(out)@ == old(out)@ + "\""@ + json_chars(s@) + "\""@,
{
    out.append("\"");
    let n: usize = s.unicode_len();
    let mut i: usize = 0;
    assert(out@ =~= old(out)@ + "\""@ + json_chars(s@.take(0)));
    while i < n
        invariant
            i <= n == s@.len(),
            out@ == old(out)@ + "\""@ + json_chars(s@.take(i as int)),
        decreases n - i,
    {
        let c = s.get_char(i);
        if c == '"' {
            out.append("\\\"");
        } else if c == '\\' {
            out.append("\\\\");
        } else if c == '\n' {
            out.append("\\n");
        } else if c == '\r' {
            out.append("\\r");
        } else if c == '\t' {
            out.append("\\t");
        } else if (c as u32) < 0x20 {
            out.append("\\u00");
            append_hex(out, c as u8);
        } else {
            let one = s.substring_char(i, i + 1);
            assert(one@ =~= seq![c]);
            out.append(one);
        }
        proof {
            assert(s@.take(i + 1).drop_last() =~= s@.take(i as int));
            assert(out@ =~= old(out)@ + "\""@ + json_chars(s@.take(i + 1)));
        }
        i += 1;
    }
    assert(s@.take(i as int) =~= s@);
    out.append("\"");
}

/// The text that `{:?}` of `std` makes of a text: the text in quotes, with some characters escaped.
pub uninterp spec fn debug_quoted(s: Seq<char>) -> Seq<char>;

/// Whether a text is made of letters and digits.
pub open spec fn is_plain(s: Seq<char>) -> bool {
    forall|i: int|
        0 <= i < s.len() ==> ('a' <= #[trigger] s[i] <= 'z' || 'A' <= s[i] <= 'Z' || '0' <= s[i]
            <= '9')
}

/// `format!` of `std` with `{:?}`, on a text: letters and digits are not escaped. What becomes of other
/// characters has a name and is not described here.
#[verifier::external_body]
pub(crate) fn debug_text(s: &str) -> (r: String)
    ensures
        r@ == debug_quoted(s@),
        is_plain(s@) ==> r@ == "\""@ + s@ + "\""@,
{
    format!("{s:?}")
}

/// What a fault says.
pub open spec fn fault_text(f: Fault) -> Seq<char> {
    match f {
        Fault::BadMagic => "bad magic header (not a wallet snapshot)"@,
        Fault::SchemaMismatch { found, expected } => "schema version mismatch (found "@ + decimal(
            found as nat,
        ) + ", expected "@ + decimal(expected as nat) + ")"@,
        Fault::NetworkMismatch { found, expected } => "network mismatch (found "@ + debug_quoted(
            found,
        ) + ", expected "@ + debug_quoted(expected) + ")"@,
        Fault::GenesisMismatch { found, expected } => "genesis hash mismatch"@,
        Fault::Truncated => "snapshot file truncated"@,
        Fault::InvalidValue(m) => "invalid value: "@ + m,
    }
}

impl PersistError {
    pub fn to_text(&self) -> (r: String)
        ensures
            r@ == fault_text(self@),
    {
        match self {
            PersistError::BadMagic => "bad magic header (not a wallet snapshot)".to_owned(),
            PersistError::SchemaMismatch { found, expected } => {
                let mut out = "schema version mismatch (found ".to_owned();
                append_decimal(&mut out, *found as u64);
                out.append(", expected ");
                append_decimal(&mut out, *expected as u64);
                out.append(")");
                out
            },
            PersistError::NetworkMismatch { found, expected } => {
                let mut out = "network mismatch (found ".to_owned();
                out.append(debug_text(found.as_str()).as_str());
                out.append(", expected ");
                out.append(debug_text(expected.as_str()).as_str());
                out.append(")");
                out
            },
            PersistError::GenesisMismatch { .. } => "genesis hash mismatch".to_owned(),
            PersistError::Truncated => "snapshot file truncated".to_owned(),
            PersistError::InvalidValue(m) => {
                let mut out = "invalid value: ".to_owned();
                out.append(m);
                out
            },
        }
    }
}

/// Of a hash the last byte is shown first, each byte in two digits.
pub proof fn the_last_byte_is_shown_first(b: Seq<u8>, n: nat, i: int)
    requires
        0 <= i < n <= 32,
    ensures
        reversed_hex(b, n).subrange(2 * i, 2 * i + 2) == hex_byte(b[31 - i]),
    decreases n,
{
    lemma_hex_len(b, (n - 1) as nat);
    lemma_hex_len(b, n);
    let front = reversed_hex(b, (n - 1) as nat);
    let all = reversed_hex(b, n);
    if i < n - 1 {
        the_last_byte_is_shown_first(b, (n - 1) as nat, i);
        assert(all.subrange(2 * i, 2 * i + 2) =~= front.subrange(2 * i, 2 * i + 2));
    } else {
        assert(all.subrange(2 * i, 2 * i + 2) =~= hex_byte(b[32 - n]));
    }
}

} // verus!
