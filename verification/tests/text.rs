use crosslink::commands::{
    answer_info, answer_stake, help_text, parse_staking_command, split_words, stake_command,
    StakingCommand,
};
use crosslink::files::{snapshot_path, wipe_marker_path, with_extension};
use crosslink::hash_text::{
    block_hash_unique_chars_n, hash_highlight_lo, instr_marks, InstrMark,
};
use crosslink::height::{BlockHeight, BUILT, INVALID, MEMPOOL, PROPOSED, SENT};
use crosslink::queue::StakeQ;
use crosslink::state::WalletState;
use crosslink::text::{append_json, decimal_text, str_from_ctaz, LEHash, LESlice, NL};
use crosslink::wire::PersistError;

#[test]
fn amounts_are_shown_with_three_to_five_digits() {
    assert_eq!(str_from_ctaz(0), "0.000");
    assert_eq!(str_from_ctaz(1), "0.000");
    assert_eq!(str_from_ctaz(50_000_000), "0.500");
    assert_eq!(str_from_ctaz(123_456_789), "1.23456");
    assert_eq!(str_from_ctaz(100_010_000), "1.0001");
    assert_eq!(str_from_ctaz(u64::MAX), "184467440737.09551");
}

#[test]
fn numbers_have_no_leading_zeros() {
    assert_eq!(decimal_text(0), "0");
    assert_eq!(decimal_text(10), "10");
    assert_eq!(decimal_text(u64::MAX), "18446744073709551615");
}

#[test]
fn heights_are_named_or_counted() {
    assert_eq!(BlockHeight(7).to_text(), "7");
    assert_eq!(BlockHeight(INVALID).to_text(), "<invalid>");
    assert_eq!(BlockHeight(PROPOSED).to_text(), "<proposed>");
    assert_eq!(BlockHeight(BUILT).to_text(), "<built>");
    assert_eq!(BlockHeight(SENT).to_text(), "<sent>");
    assert_eq!(BlockHeight(MEMPOOL).to_text(), "<mempool>");
    assert_eq!(BlockHeight(7).to_debug_text(), "BlockHeight(7)");
    assert_eq!(BlockHeight(MEMPOOL).to_debug_text(), "BlockHeight(<mempool>)");
}

#[test]
fn hashes_are_shown_from_the_last_byte_on() {
    let mut h = [0u8; 32];
    h[31] = 0xab;
    h[30] = 0x01;
    assert_eq!(LEHash(h).to_text(Some(3)), "ab0100");
    assert_eq!(LESlice(&h).to_text(None), format!("ab01{}", "00".repeat(30)));
    assert_eq!(LEHash(h).to_text(Some(100)).len(), 64);
}

#[test]
fn lists_are_shown_line_by_line() {
    let items = ["a".to_string(), "b".to_string()];
    assert_eq!(NL(&items).to_text(), "[\n  a\n  b\n]");
    assert_eq!(NL::<String>(&[]).to_text(), "[]");
}

#[test]
fn json_texts_are_escaped() {
    let mut out = String::new();
    append_json(&mut out, "a\"b\\c\n");
    assert_eq!(out, "\"a\\\"b\\\\c\\n\"");
}

#[test]
fn faults_say_what_is_wrong() {
    assert_eq!(PersistError::BadMagic.to_text(), "bad magic header (not a wallet snapshot)");
    assert_eq!(
        (PersistError::SchemaMismatch { found: 1, expected: 2 }).to_text(),
        "schema version mismatch (found 1, expected 2)"
    );
    assert_eq!(
        (PersistError::NetworkMismatch { found: "Main".to_string(), expected: "Te\"st".to_string() })
            .to_text(),
        "network mismatch (found \"Main\", expected \"Te\\\"st\")"
    );
    assert_eq!(
        (PersistError::GenesisMismatch { found: [0; 32], expected: [1; 32] }).to_text(),
        "genesis hash mismatch"
    );
    assert_eq!(PersistError::Truncated.to_text(), "snapshot file truncated");
    assert_eq!(PersistError::InvalidValue("x").to_text(), "invalid value: x");
}

#[test]
fn files_lie_in_their_directory() {
    assert_eq!(snapshot_path("/var/wallet"), "/var/wallet/wallet_snapshot.bin");
    assert_eq!(snapshot_path("/"), "/wallet_snapshot.bin");
    assert_eq!(snapshot_path(""), "wallet_snapshot.bin");
    assert_eq!(wipe_marker_path("d"), "d/wallet_snapshot.wipe-on-next-start");
    assert_eq!(with_extension("d/wallet_snapshot.bin", "tmp"), "d/wallet_snapshot.bin.tmp");
    assert_eq!(
        snapshot_path("d"),
        std::path::Path::new("d").join("wallet_snapshot.bin").to_str().unwrap()
    );
}

#[test]
fn the_marker_is_another_file_than_the_snapshot() {
    for base in ["", "a", "a/"] {
        assert_ne!(snapshot_path(base), wipe_marker_path(base));
    }
}

#[test]
fn words_are_what_white_space_separates() {
    assert_eq!(split_words("  stake\t5 \u{3000}ab\n"), ["stake", "5", "ab"]);
    assert!(split_words(" \u{85} ").is_empty());
    let odd = " a\u{a0}b\u{200b}c ";
    let want: Vec<&str> = odd.split_whitespace().collect();
    assert_eq!(split_words(odd), want);
}

#[test]
fn commands_are_read() {
    let hex = "Ab".repeat(32);
    assert_eq!(
        parse_staking_command(&format!(" stake +25 {hex} ")),
        Ok(StakingCommand::Stake { amount: 25, finalizer: [0xab; 32] })
    );
    assert_eq!(parse_staking_command("info"), Ok(StakingCommand::Info));
    assert_eq!(parse_staking_command("wipe-snapshot now"), Ok(StakingCommand::WipeSnapshot));
    assert_eq!(parse_staking_command("help"), Ok(StakingCommand::Help));
    assert_eq!(
        help_text(),
        "sub-commands: `stake <amount_zats> <finalizer_hex>`, `info`, `wipe-snapshot`, `help`"
    );
}

#[test]
fn bad_commands_are_complained_about() {
    let err = |s: &str| parse_staking_command(s).unwrap_err();
    assert_eq!(err("  "), "empty command; try `help`");
    assert_eq!(err("stake 5"), "usage: stake <amount_zats> <finalizer_hex>");
    assert_eq!(err("stake x ab"), "bad amount: invalid digit found in string");
    assert_eq!(
        err("stake 18446744073709551616 ab"),
        "bad amount: number too large to fit in target type"
    );
    assert_eq!(err("stake 5 abc"), "bad finalizer hex: Odd number of digits");
    assert_eq!(err("stake 5 zz"), "bad finalizer hex: Invalid character 'z' at position 0");
    assert_eq!(err("stake 5 abab"), "finalizer must be 32 bytes (got 2)");
    assert_eq!(err("steak"), "unknown sub-command: steak; try `help`");
}

#[test]
fn a_stake_command_follows_from_its_parts() {
    assert_eq!(
        stake_command(Ok(7), Ok(vec![1; 32])),
        Ok(StakingCommand::Stake { amount: 7, finalizer: [1; 32] })
    );
    assert_eq!(stake_command(Err("no".into()), Ok(vec![])), Err("bad amount: no".to_string()));
    assert_eq!(
        stake_command(Ok(7), Err("no".into())),
        Err("bad finalizer hex: no".to_string())
    );
}

#[test]
fn stakes_are_queued_if_there_is_a_wallet() {
    assert_eq!(answer_stake(None, 5, [1; 32]), Err("wallet not ready".to_string()));
    let mut q = StakeQ::new();
    assert_eq!(answer_stake(Some(&mut q), 0, [1; 32]), Err("amount_zats must be > 0".to_string()));
    assert_eq!(answer_stake(Some(&mut q), 5, [1; 32]), Ok("ok".to_string()));
    assert_eq!(q.len(), 1);
    assert_eq!(q.get(0).unwrap().amount_zats, 5);
    for _ in 0..15 {
        answer_stake(Some(&mut q), 5, [1; 32]).unwrap();
    }
    assert_eq!(
        answer_stake(Some(&mut q), 5, [1; 32]),
        Err("stake queue full, come back later".to_string())
    );
}

#[test]
fn the_wallet_tells_how_it_stands() {
    assert_eq!(answer_info(None), Err("wallet not ready".to_string()));
    let mut s = WalletState::new();
    s.user_unshielded_funds = 1;
    s.user_shielded_spendable_funds = 2;
    s.user_shielded_pending_funds = 4;
    s.miner_unshielded_funds = 10;
    s.user_recv_ua = "u\"x".to_string();
    s.waiting_for_send = true;
    s.wallets_tip_h = 9;
    s.request_from_faucet();
    let want = "{\"user_balance_zats\":7,\"user_shielded_spendable\":2,\"user_shielded_pending\":4,\
                \"user_unshielded\":1,\"user_address\":\"u\\\"x\",\"miner_balance_zats\":10,\
                \"miner_shielded_spendable\":0,\"miner_shielded_pending\":0,\"miner_unshielded\":10,\
                \"staked_zats\":0,\"withdrawable_zats\":0,\"waiting_for_faucet\":true,\
                \"waiting_for_stake\":false,\"waiting_for_send\":true,\"wallet_sync_h\":0,\
                \"wallet_tip_h\":9,\"actions_in_flight\":1,\"stake_positions_bonded\":0,\
                \"stake_positions_unbonded\":0}";
    assert_eq!(answer_info(Some(&s)).unwrap(), want);
}

#[test]
fn as_many_characters_as_tell_hashes_apart() {
    let mut a = [0u8; 32];
    let mut b = [0u8; 32];
    assert_eq!(block_hash_unique_chars_n(&vec![]), 1);
    assert_eq!(block_hash_unique_chars_n(&vec![a]), 1);
    a[0] = 0x12;
    b[0] = 0x13;
    assert_eq!(block_hash_unique_chars_n(&vec![a, b]), 1);
    b[0] = 0x22;
    assert_eq!(block_hash_unique_chars_n(&vec![a, b]), 2);
    b[0] = 0x12;
    b[31] = 0x10;
    assert_eq!(block_hash_unique_chars_n(&vec![a, b]), 64);
}

#[test]
fn the_last_characters_stand_out() {
    let mut h = [0u8; 32];
    h[0] = 0xcd;
    let text = hash_highlight_lo(&h, 2);
    assert_eq!(text, format!("\x1b[90m{}\x1b[0mcd", "00".repeat(31)));
    assert_eq!(hash_highlight_lo(&h, 64).len(), 64 + 9);
}

#[test]
fn instructions_are_marked() {
    assert_eq!(
        instr_marks(5, 3, &vec![1, 3]),
        [
            InstrMark::Passed,
            InstrMark::Failed(0),
            InstrMark::Passed,
            InstrMark::Failed(1),
            InstrMark::NotRun,
        ]
    );
    assert_eq!(instr_marks(2, 0, &vec![7]), [InstrMark::NotRun, InstrMark::NotRun]);
}
