//! Commands that the wallet takes as text.
use crate::bytes::array_from_slice;
use crate::queue::{request_stake, StakeQ};
use crate::staking::PendingStake;
use crate::state::{info_text, wallet_info, WalletState};
use crate::text::{append_decimal, decimal, digit, same_text, texts};
use vstd::prelude::*;
use vstd::string::{StrSliceExecFns, StringExecFns};
use vstd::utf8::encode_utf8;

verus! {

/// Whether a character is white space, in Unicode.
pub open spec fn is_white(c: char) -> bool {
    let u = c as u32;
    9 <= u <= 13 || u == 0x20 || u == 0x85 || u == 0xa0 || u == 0x1680 || 0x2000 <= u <= 0x200a || u
        == 0x2028 || u == 0x2029 || u == 0x202f || u == 0x205f || u == 0x3000
}

fn is_whitespace(c: char) -> (r: bool)
    ensures
        r == is_white(c),
{
    let u: u32 = c as u32;
    9 <= u && u <= 13 || u == 0x20 || u == 0x85 || u == 0xa0 || u == 0x1680 || 0x2000 <= u && u
        <= 0x200a || u == 0x2028 || u == 0x2029 || u == 0x202f || u == 0x205f || u == 0x3000
}

/// A word, if there is one.
pub open spec fn word_if_any(word: Seq<char>) -> Seq<Seq<char>> {
    if word.len() > 0 {
        seq![word]
    } else {
        seq![]
    }
}

/// The words of a text behind the beginning of one.
pub open spec fn words_behind(word: Seq<char>, s: Seq<char>) -> Seq<Seq<char>>
    decreases s.len(),
{
    if s.len() == 0 {
        word_if_any(word)
    } else if is_white(s[0]) {
        word_if_any(word) + words_behind(seq![], s.skip(1))
    } else {
        words_behind(word.push(s[0]), s.skip(1))
    }
}

/// The words of a text: what white space separates.
pub open spec fn words(s: Seq<char>) -> Seq<Seq<char>> {
    words_behind(seq![], s)
}

fn push_word(v: &mut Vec<String>, s: &str, from: usize, to: usize)
    requires
        from <= to <= s@.len(),
    ensures
        texts(final(v)@) == texts(old(v)@) + word_if_any(s@.subrange(from as int, to as int)),
{
    if from < to {
        let w = s.substring_char(from, to).to_owned();
        let ghost before = texts(v@);
        v.push(w);
        assert(texts(v@) =~= before + seq![s@.subrange(from as int, to as int)]);
    } else {
        assert(texts(v@) =~= texts(v@) + Seq::<Seq<char>>::empty());
    }
}

/// Splits a text into its words.
pub fn split_words(s: &str) -> (r: Vec<String>)
    ensures
        texts(r@) == words(s@),
{
    let n: usize = s.unicode_len();
    let mut v: Vec<String> = Vec::new();
    let mut from: usize = 0;
    let mut i: usize = 0;
    proof {
        assert(s@.skip(0) =~= s@);
        assert(s@.subrange(0, 0) =~= seq![]);
        assert(texts(v@) + words(s@) =~= words(s@));
    }
    while i < n
        invariant
            from <= i <= n == s@.len(),
            words(s@) == texts(v@) + words_behind(
                s@.subrange(from as int, i as int),
                s@.skip(i as int),
            ),
        decreases n - i,
    {
        let c = s.get_char(i);
        let ghost word = s@.subrange(from as int, i as int);
        let ghost rest = s@.skip(i as int);
        let ghost done = texts(v@);
        assert(rest[0] == c);
        assert(rest.skip(1) =~= s@.skip(i + 1));
        if is_whitespace(c) {
            push_word(&mut v, s, from, i);
            from = i + 1;
            proof {
                assert(s@.subrange(from as int, i + 1) =~= seq![]);
                assert(done + (word_if_any(word) + words_behind(seq![], rest.skip(1))) =~= (done
                    + word_if_any(word)) + words_behind(seq![], rest.skip(1)));
            }
        } else {
            assert(word.push(c) =~= s@.subrange(from as int, i + 1));
        }
        i += 1;
    }
    assert(s@.skip(i as int) =~= seq![]);
    push_word(&mut v, s, from, n);
    v
}

/// The value of some decimal digits.
pub open spec fn digits_value(s: Seq<char>) -> Option<nat>
    decreases s.len(),
{
    if s.len() == 0 {
        Some(0)
    } else {
        match digits_value(s.drop_last()) {
            Some(v) if '0' <= s.last() <= '9' => Some(v * 10 + (s.last() as u32 - 48) as nat),
            _ => None,
        }
    }
}

/// The number that a text stands for: digits, perhaps behind a plus sign.
pub open spec fn number_of(s: Seq<char>) -> Option<nat> {
    let d = if s.len() > 0 && s[0] == '+' {
        s.skip(1)
    } else {
        s
    };
    if d.len() == 0 {
        None
    } else {
        digits_value(d)
    }
}

/// What the error of `parse` of `std`, for `u64`, says of a text.
pub uninterp spec fn number_error(s: Seq<char>) -> Seq<char>;

/// `parse` of `std`, for `u64`: the number, if the text is digits, perhaps behind a plus sign, and the
/// number is not too large. What the error says has a name and is not described here.
#[verifier::external_body]
fn parse_number(s: &str) -> (r: Result<u64, String>)
    ensures
        match r {
            Ok(v) => number_of(s@) == Some(v as nat),
            Err(e) => (number_of(s@) matches Some(v) ==> v > u64::MAX) && e@ == number_error(s@),
        },
{
    s.parse::<u64>().map_err(|e| e.to_string())
}

/// The value of a hexadecimal digit.
pub open spec fn hex_value(b: u8) -> Option<u8> {
    if 0x30 <= b <= 0x39 {
        Some((b - 0x30) as u8)
    } else if 0x41 <= b <= 0x46 {
        Some((b - 0x41 + 10) as u8)
    } else if 0x61 <= b <= 0x66 {
        Some((b - 0x61 + 10) as u8)
    } else {
        None
    }
}

/// Whether some bytes are hexadecimal digits, two by two.
pub open spec fn is_hex(b: Seq<u8>) -> bool {
    b.len() % 2 == 0 && forall|i: int| 0 <= i < b.len() ==> hex_value(#[trigger] b[i]) is Some
}

/// The bytes that hexadecimal digits stand for, two by two.
pub open spec fn hex_bytes(b: Seq<u8>) -> Seq<u8> {
    Seq::new(
        b.len() / 2,
        |i: int| (16 * hex_value(b[2 * i])->Some_0 + hex_value(b[2 * i + 1])->Some_0) as u8,
    )
}

/// What the error of `decode` of `hex` says of a text.
pub uninterp spec fn hex_error(s: Seq<char>) -> Seq<char>;

/// `decode` of `hex`: the bytes, if the text is hexadecimal digits in either case, two by two. What the
/// error says has a name and is not described here.
#[verifier::external_body]
fn decode_hex(s: &str) -> (r: Result<Vec<u8>, String>)
    ensures
        match r {
            Ok(v) => is_hex(encode_utf8(s@)) && v@ == hex_bytes(encode_utf8(s@)),
            Err(e) => !is_hex(encode_utf8(s@)) && e@ == hex_error(s@),
        },
{
    hex::decode(s).map_err(|e| e.to_string())
}

/// A command.
#[derive(Clone, Copy, Debug, PartialEq, Eq)]
pub enum StakingCommand {
    Stake { amount: u64, finalizer: [u8; 32] },
    Info,
    WipeSnapshot,
    Help,
}

/// What a stake command asks for, from what its words stand for.
pub open spec fn stake_asked(
    amount: Result<u64, Seq<char>>,
    finalizer: Result<Seq<u8>, Seq<char>>,
) -> Result<(u64, Seq<u8>), Seq<char>> {
    match amount {
        Err(e) => Err("bad amount: "@ + e),
        Ok(amount) => match finalizer {
            Err(e) => Err("bad finalizer hex: "@ + e),
            Ok(b) => if b.len() != 32 {
                Err("finalizer must be 32 bytes (got "@ + decimal(b.len()) + ")"@)
            } else {
                Ok((amount, b))
            },
        },
    }
}

/// The number that a word stands for, or why there is none.
pub open spec fn amount_in(s: Seq<char>) -> Result<u64, Seq<char>> {
    match number_of(s) {
        Some(v) if v <= u64::MAX => Ok(v as u64),
        _ => Err(number_error(s)),
    }
}

/// The bytes that a word stands for, or why there are none.
pub open spec fn bytes_in(s: Seq<char>) -> Result<Seq<u8>, Seq<char>> {
    if is_hex(encode_utf8(s)) {
        Ok(hex_bytes(encode_utf8(s)))
    } else {
        Err(hex_error(s))
    }
}

/// Whether a command, or the complaint in its place, is what a stake command asks for.
pub open spec fn is_stake_answer(
    r: Result<StakingCommand, String>,
    want: Result<(u64, Seq<u8>), Seq<char>>,
) -> bool {
    match want {
        Ok((a, f)) => r matches Ok(StakingCommand::Stake { amount, finalizer }) && amount == a
            && finalizer@ == f,
        Err(e) => r matches Err(m) && m@ == e,
    }
}

/// What a word stands for, as a result of a call says it.
pub open spec fn amount_said(r: Result<u64, String>) -> Result<u64, Seq<char>> {
    match r {
        Ok(v) => Ok(v),
        Err(e) => Err(e@),
    }
}

pub open spec fn bytes_said(r: Result<Vec<u8>, String>) -> Result<Seq<u8>, Seq<char>> {
    match r {
        Ok(v) => Ok(v@),
        Err(e) => Err(e@),
    }
}

/// A stake command from what its words stand for.
pub fn stake_command(amount: Result<u64, String>, finalizer: Result<Vec<u8>, String>) -> (r: Result<
    StakingCommand,
    String,
>)
    ensures
        is_stake_answer(r, stake_asked(amount_said(amount), bytes_said(finalizer))),
{
    let amount: u64 = match amount {
        Ok(v) => v,
        Err(e) => {
            let mut out = "bad amount: ".to_owned();
            out.append(e.as_str());
            return Err(out);
        },
    };
    let bytes = match finalizer {
        Ok(v) => v,
        Err(e) => {
            let mut out = "bad finalizer hex: ".to_owned();
            out.append(e.as_str());
            return Err(out);
        },
    };
    if bytes.len() != 32 {
        let mut out = "finalizer must be 32 bytes (got ".to_owned();
        append_decimal(&mut out, bytes.len() as u64);
        out.append(")");
        return Err(out);
    }
    let finalizer: [u8; 32] = array_from_slice::<32>(&bytes);
    assert(bytes@.take(32) =~= bytes@);
    Ok(StakingCommand::Stake { amount, finalizer })
}

/// Whether a command, or the complaint in its place, is what some words ask for.
pub open spec fn is_answer_to(r: Result<StakingCommand, String>, w: Seq<Seq<char>>) -> bool {
    if w.len() == 0 {
        r matches Err(e) && e@ == "empty command; try `help`"@
    } else if w[0] == "stake"@ {
        if w.len() != 3 {
            r matches Err(e) && e@ == "usage: stake <amount_zats> <finalizer_hex>"@
        } else {
            is_stake_answer(r, stake_asked(amount_in(w[1]), bytes_in(w[2])))
        }
    } else if w[0] == "info"@ {
        r == Ok::<StakingCommand, String>(StakingCommand::Info)
    } else if w[0] == "wipe-snapshot"@ {
        r == Ok::<StakingCommand, String>(StakingCommand::WipeSnapshot)
    } else if w[0] == "help"@ {
        r == Ok::<StakingCommand, String>(StakingCommand::Help)
    } else {
        r matches Err(e) && e@ == "unknown sub-command: "@ + w[0] + "; try `help`"@
    }
}

/// Reads a command.
pub fn parse_staking_command(cmd: &str) -> (r: Result<StakingCommand, String>)
    ensures
        is_answer_to(r, words(cmd@)),
{
    let parts = split_words(cmd);
    let ghost w = words(cmd@);
    assert(w.len() == parts@.len());
    if parts.len() == 0 {
        return Err("empty command; try `help`".to_owned());
    }
    assert(w[0] == parts@[0]@);
    let first = parts[0].as_str();
    if same_text(first, "stake") {
        if parts.len() != 3 {
            return Err("usage: stake <amount_zats> <finalizer_hex>".to_owned());
        }
        assert(w[1] == parts@[1]@ && w[2] == parts@[2]@);
        let amount = parse_number(parts[1].as_str());
        let finalizer = decode_hex(parts[2].as_str());
        assert(amount_said(amount) == amount_in(w[1]));
        assert(bytes_said(finalizer) == bytes_in(w[2]));
        return stake_command(amount, finalizer);
    }
    if same_text(first, "info") {
        return Ok(StakingCommand::Info);
    }
    if same_text(first, "wipe-snapshot") {
        return Ok(StakingCommand::WipeSnapshot);
    }
    if same_text(first, "help") {
        return Ok(StakingCommand::Help);
    }
    let mut out = "unknown sub-command: ".to_owned();
    out.append(first);
    out.append("; try `help`");
    Err(out)
}

/// What is answered to a command that asks for a stake.
pub open spec fn stake_reply(items: Seq<PendingStake>, amount: u64) -> Result<Seq<char>, Seq<char>> {
    if amount == 0 {
        Err("amount_zats must be > 0"@)
    } else if items.len() == 16 {
        Err("stake queue full, come back later"@)
    } else {
        Ok("ok"@)
    }
}

/// Whether an answer says something.
pub open spec fn says(r: Result<String, String>, want: Result<Seq<char>, Seq<char>>) -> bool {
    match want {
        Ok(s) => r matches Ok(t) && t@ == s,
        Err(s) => r matches Err(t) && t@ == s,
    }
}

/// Queues a stake, if there is a wallet. The answer.
pub fn answer_stake(q: Option<&mut StakeQ>, amount: u64, finalizer: [u8; 32]) -> (r: Result<
    String,
    String,
>)
    requires
        q matches Some(q) ==> q.wf(),
    ensures
        match q {
            None => says(r, Err("wallet not ready"@)),
            Some(q) => {
                &&& says(r, stake_reply(q.items(), amount))
                &&& final(q).wf()
                &&& final(q).items() == if r is Ok {
                    q.items().push(PendingStake { amount_zats: amount, finalizer })
                } else {
                    q.items()
                }
            },
        },
{
    match q {
        None => Err("wallet not ready".to_owned()),
        Some(q) => match request_stake(q, amount, finalizer) {
            Ok(()) => Ok("ok".to_owned()),
            Err(e) => Err(e.to_owned()),
        },
    }
}

/// How the wallet stands, if there is one.
pub fn answer_info(state: Option<&WalletState>) -> (r: Result<String, String>)
    requires
        state matches Some(s) ==> s.user_sum() <= u64::MAX && s.miner_sum() <= u64::MAX,
    ensures
        match state {
            None => says(r, Err("wallet not ready"@)),
            Some(s) => says(r, Ok(info_text(s))),
        },
{
    match state {
        None => Err("wallet not ready".to_owned()),
        Some(s) => Ok(wallet_info(s)),
    }
}

/// The commands that there are.
pub fn help_text() -> (r: String)
    ensures
        r@
            == "sub-commands: `stake <amount_zats> <finalizer_hex>`, `info`, `wipe-snapshot`, `help`"@,
{
    "sub-commands: `stake <amount_zats> <finalizer_hex>`, `info`, `wipe-snapshot`, `help`".to_owned()
}

proof fn lemma_words_split(word: Seq<char>, a: Seq<char>, c: char, b: Seq<char>)
    requires
        is_white(c),
    ensures
        words_behind(word, a.push(c) + b) == words_behind(word, a) + words(b),
    decreases a.len(),
{
    let all = a.push(c) + b;
    if a.len() == 0 {
        assert(all[0] == c);
        assert(all.skip(1) =~= b);
    } else {
        let t = a.skip(1);
        assert(all[0] == a[0]);
        assert(all.skip(1) =~= t.push(c) + b);
        if is_white(a[0]) {
            lemma_words_split(seq![], t, c, b);
            assert(word_if_any(word) + (words_behind(seq![], t) + words(b)) =~= (word_if_any(word)
                + words_behind(seq![], t)) + words(b));
        } else {
            lemma_words_split(word.push(a[0]), t, c, b);
        }
    }
}

proof fn lemma_one_word(word: Seq<char>, s: Seq<char>)
    requires
        forall|i: int| 0 <= i < s.len() ==> !is_white(#[trigger] s[i]),
    ensures
        words_behind(word, s) == word_if_any(word + s),
    decreases s.len(),
{
    if s.len() == 0 {
        assert(word + s =~= word);
    } else {
        let t = s.skip(1);
        assert(!is_white(s[0]));
        assert forall|i: int| 0 <= i < t.len() implies !is_white(#[trigger] t[i]) by {
            assert(t[i] == s[i + 1]);
        }
        lemma_one_word(word.push(s[0]), t);
        assert(word.push(s[0]) + t =~= word + s);
    }
}

/// White space separates words, and nothing else does: what has none in it is one word, or none if it is
/// empty, and the words of two texts with white space between them are those of the one and then those of
/// the other.
pub proof fn white_space_separates_words(a: Seq<char>, c: char, b: Seq<char>)
    requires
        is_white(c),
    ensures
        words(a.push(c) + b) == words(a) + words(b),
        (forall|i: int| 0 <= i < a.len() ==> !is_white(#[trigger] a[i])) && a.len() > 0 ==> words(a)
            == seq![a],
        a.len() == 0 ==> words(a) == Seq::<Seq<char>>::empty(),
{
    lemma_words_split(seq![], a, c, b);
    if forall|i: int| 0 <= i < a.len() ==> !is_white(#[trigger] a[i]) {
        lemma_one_word(seq![], a);
        assert(Seq::<char>::empty() + a =~= a);
    }
}

proof fn lemma_decimal_value(v: nat)
    ensures
        digits_value(decimal(v)) == Some(v),
        decimal(v).len() > 0,
        '0' <= decimal(v)[0] <= '9',
    decreases v,
{
    let d = if v < 10 { v } else { v % 10 };
    lemma_digit(d);
    let one = digit(d);
    if v < 10 {
        assert(one.drop_last() =~= seq![]);
        assert(digits_value(one.drop_last()) == Some(0nat));
    } else {
        lemma_decimal_value(v / 10);
        let front = decimal(v / 10);
        let all = decimal(v);
        assert(all == front + one);
        assert(all.drop_last() =~= front);
        assert(all.last() == one[0]);
        assert(all[0] == front[0]);
    }
}

proof fn lemma_digit(d: nat)
    requires
        d < 10,
    ensures
        digit(d).len() == 1,
        '0' <= digit(d)[0] <= '9',
        digit(d)[0] as u32 == 48 + d,
{
    reveal_strlit("0");
    reveal_strlit("1");
    reveal_strlit("2");
    reveal_strlit("3");
    reveal_strlit("4");
    reveal_strlit("5");
    reveal_strlit("6");
    reveal_strlit("7");
    reveal_strlit("8");
    reveal_strlit("9");
}

/// A number is read as it is written.
pub proof fn a_number_is_read_as_it_is_written(v: u64)
    ensures
        amount_in(decimal(v as nat)) == Ok::<u64, Seq<char>>(v),
{
    lemma_decimal_value(v as nat);
}

} // verus!
