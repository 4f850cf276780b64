use dex_trades::dispatch::{
    map_bsc_uniswapv3_swaps, map_sol_trades, EvmBlock, EvmLogRecord, SolBlock, SolInstruction,
    SolTransaction,
};
use dex_trades::raydium::{parse_trade_instruction, raydium_program_id_str, TokenBalance};
use dex_trades::schema::Chain;
use dex_trades::uniswap_v3::{
    build_trade_event, decode_swap_event, swap_topic0_bytes, EvmBlockInfo, EvmLog,
    EvmTransactionInfo,
};

fn balance(account: &str, amount: &str) -> TokenBalance {
    TokenBalance {
        account: account.to_string(),
        ui_token_amount: amount.to_string(),
    }
}

fn four_accounts() -> Vec<String> {
    vec![
        "userA".to_string(),
        "userB".to_string(),
        "vaultA".to_string(),
        "vaultB".to_string(),
    ]
}

#[test]
fn account_model_end_to_end() {
    let pre = vec![balance("vaultA", "100"), balance("vaultB", "50")];
    let post = vec![balance("vaultA", "80"), balance("vaultB", "70")];
    let event = parse_trade_instruction(
        3,
        raydium_program_id_str(),
        &[],
        &four_accounts(),
        &pre,
        &post,
    )
    .expect("a qualifying instruction decodes");
    let trade = event.trade.expect("trade populated");
    assert_eq!(trade.vault_a_amount, "-20");
    assert_eq!(trade.vault_b_amount, "20");
    assert_eq!(trade.vault_a_pre_amount, "100");
    assert_eq!(trade.vault_a_post_amount, "80");
    assert_eq!(trade.vault_b_pre_amount, "50");
    assert_eq!(trade.vault_b_post_amount, "70");
    assert_eq!(trade.token_a_address, "vaultA");
    assert_eq!(trade.token_b_address, "vaultB");
    assert_eq!(trade.user_a_token_account_address, "userA");
    assert_eq!(trade.user_a_account_owner_address, "");
    assert!(trade.was_original_direction);
    let instr = event.instruction.expect("instruction populated");
    assert_eq!(instr.index, 3);
    assert_eq!(instr.type_, "raydium_swap");
    let dapp = event.d_app.expect("d_app populated");
    assert_eq!(dapp.program_address, raydium_program_id_str());
    assert_eq!(dapp.chain, Chain::Solana);
    assert!(event.bonding_curve.is_none());
}

#[test]
fn user_delta_nets_over_repeated_entries() {
    let pre = vec![balance("userA", "10"), balance("userA", "5")];
    let post = vec![balance("userA", "40")];
    let event = parse_trade_instruction(
        0,
        raydium_program_id_str(),
        &[],
        &four_accounts(),
        &pre,
        &post,
    )
    .unwrap();
    let trade = event.trade.unwrap();
    // -(10) - 5 + 40
    assert_eq!(trade.user_a_amount, "25");
    assert_eq!(trade.user_b_amount, "0");
}

#[test]
fn unreadable_balance_contributes_zero_without_aborting() {
    let pre = vec![balance("vaultA", "not-a-number"), balance("vaultB", "50")];
    let post = vec![balance("vaultA", "80"), balance("vaultB", "70")];
    let event = parse_trade_instruction(
        0,
        raydium_program_id_str(),
        &[],
        &four_accounts(),
        &pre,
        &post,
    )
    .expect("the decode still succeeds");
    let trade = event.trade.unwrap();
    // the bad pre-balance reads as zero, so the vault delta is the post value
    assert_eq!(trade.vault_a_pre_amount, "0");
    assert_eq!(trade.vault_a_amount, "80");
    assert_eq!(trade.vault_b_amount, "20");
}

#[test]
fn fewer_than_four_accounts_yields_no_event() {
    let accounts = vec!["a".to_string(), "b".to_string(), "c".to_string()];
    let pre = vec![balance("a", "5")];
    let post = vec![balance("a", "9")];
    let r = parse_trade_instruction(0, raydium_program_id_str(), &[], &accounts, &pre, &post);
    assert!(r.is_none());
}

#[test]
fn non_matching_program_id_yields_no_event() {
    let pre = vec![balance("vaultA", "100")];
    let post = vec![balance("vaultA", "80")];
    let r = parse_trade_instruction(0, "SomeOtherProgram1111", &[], &four_accounts(), &pre, &post);
    assert!(r.is_none());
}

fn topic_with_address(byte: u8) -> Vec<u8> {
    let mut t = vec![0u8; 12];
    t.extend(vec![byte; 20]);
    t
}

fn swap_data(amount0_word: [u8; 32], amount1_word: [u8; 32]) -> Vec<u8> {
    let mut d = Vec::new();
    d.extend_from_slice(&amount0_word);
    d.extend_from_slice(&amount1_word);
    d.extend(vec![0u8; 96]);
    d
}

fn int256_word(v: i128) -> [u8; 32] {
    let mut w = if v < 0 { [0xffu8; 32] } else { [0u8; 32] };
    w[16..].copy_from_slice(&v.to_be_bytes());
    w
}

fn swap_log(pool_byte: u8, amount0: i128, amount1: i128) -> EvmLog {
    EvmLog {
        address: vec![pool_byte; 20],
        topics: vec![
            swap_topic0_bytes(),
            topic_with_address(0x11),
            topic_with_address(0x22),
        ],
        data: swap_data(int256_word(amount0), int256_word(amount1)),
    }
}

#[test]
fn decodes_swap_event_fields() {
    let log = swap_log(0xab, 1000, -5);
    let (sender, recipient, amount0, amount1) = decode_swap_event(&log).expect("well-formed");
    assert_eq!(sender, format!("0x{}", "11".repeat(20)));
    assert_eq!(recipient, format!("0x{}", "22".repeat(20)));
    assert_eq!(amount0, 1000);
    assert_eq!(amount1, -5);
}

#[test]
fn malformed_swap_log_is_a_hard_error() {
    let mut log = swap_log(0xab, 1, 2);
    log.data.truncate(100);
    assert!(decode_swap_event(&log).is_err());

    let mut log = swap_log(0xab, 1, 2);
    log.topics.truncate(2);
    assert!(decode_swap_event(&log).is_err());

    let mut log = swap_log(0xab, 1, 2);
    log.topics[0] = vec![0u8; 32];
    assert!(decode_swap_event(&log).is_err());
}

#[test]
fn out_of_range_amount_resolves_to_zero() {
    let mut w0 = [0u8; 32];
    w0[0] = 0x7f;
    w0[31] = 0x01;
    let log = EvmLog {
        address: vec![0xab; 20],
        topics: vec![
            swap_topic0_bytes(),
            topic_with_address(0x11),
            topic_with_address(0x22),
        ],
        data: swap_data(w0, int256_word(7)),
    };
    let (_, _, amount0, amount1) = decode_swap_event(&log).unwrap();
    assert_eq!(amount0, 0);
    assert_eq!(amount1, 7);
}

fn evm_block(logs: Vec<EvmLogRecord>) -> EvmBlock {
    EvmBlock {
        hash: vec![0x00, 0xff, 0xde, 0xad],
        number: 42,
        timestamp: 1700000000,
        logs,
    }
}

fn log_record(log: EvmLog) -> EvmLogRecord {
    EvmLogRecord {
        log,
        transaction: EvmTransactionInfo {
            hash: "0xtxhash".to_string(),
            from: "0xsender".to_string(),
            gas_used: 21000,
        },
    }
}

#[test]
fn log_model_end_to_end() {
    let pool = format!("0x{}", "AB".repeat(20));
    let blk = evm_block(vec![log_record(swap_log(0xab, 1000, -5))]);
    let out = map_bsc_uniswapv3_swaps(&pool, &blk);
    assert_eq!(out.events.len(), 1);
    let event = &out.events[0];
    let dapp = event.d_app.as_ref().unwrap();
    // the configured pool address, lower-cased
    assert_eq!(dapp.program_address, format!("0x{}", "ab".repeat(20)));
    assert_eq!(dapp.chain, Chain::Bsc);
    let block = event.block.as_ref().unwrap();
    // the block hash, hex-encoded
    assert_eq!(block.hash, "00ffdead");
    assert_eq!(block.height, 42);
    assert_eq!(block.timestamp, 1700000000);
    let tx = event.transaction.as_ref().unwrap();
    assert_eq!(tx.fee, 21000);
    assert_eq!(tx.signer, "0xsender");
    assert_eq!(tx.signature, "0xtxhash");
    let trade = event.trade.as_ref().unwrap();
    assert_eq!(trade.user_a_amount, "1000");
    assert_eq!(trade.user_b_amount, "-5");
    assert_eq!(trade.user_a_token_account_address, format!("0x{}", "11".repeat(20)));
    assert_eq!(trade.user_b_token_account_address, format!("0x{}", "22".repeat(20)));
    // degraded mode: token legs fall back to the pool address
    assert_eq!(trade.token_a_address, format!("0x{}", "ab".repeat(20)));
}

#[test]
fn pool_filter_is_case_insensitive_and_exact() {
    let blk = evm_block(vec![log_record(swap_log(0xab, 1, 2))]);
    assert_eq!(map_bsc_uniswapv3_swaps(&format!("0x{}", "ab".repeat(20)), &blk).events.len(), 1);
    assert_eq!(map_bsc_uniswapv3_swaps(&format!("0x{}", "Ab".repeat(20)), &blk).events.len(), 1);
    assert_eq!(map_bsc_uniswapv3_swaps(&format!("0x{}", "cd".repeat(20)), &blk).events.len(), 0);
    assert_eq!(map_bsc_uniswapv3_swaps("", &blk).events.len(), 0);
}

#[test]
fn matching_pool_with_wrong_topic0_produces_zero_events() {
    let mut log = swap_log(0xab, 1, 2);
    log.topics[0] = vec![0u8; 32];
    let blk = evm_block(vec![log_record(log)]);
    let out = map_bsc_uniswapv3_swaps(&format!("0x{}", "ab".repeat(20)), &blk);
    assert_eq!(out.events.len(), 0);
}

#[test]
fn log_batch_preserves_source_order() {
    let blk = evm_block(vec![
        log_record(swap_log(0xab, 1, 0)),
        log_record(swap_log(0xcd, 99, 0)),
        log_record(swap_log(0xab, 2, 0)),
        log_record(swap_log(0xab, 3, 0)),
    ]);
    let out = map_bsc_uniswapv3_swaps(&format!("0x{}", "ab".repeat(20)), &blk);
    let amounts: Vec<String> = out
        .events
        .iter()
        .map(|e| e.trade.as_ref().unwrap().user_a_amount.clone())
        .collect();
    assert_eq!(amounts, vec!["1", "2", "3"]);
}

#[test]
fn sol_dispatcher_routes_and_orders() {
    let ray = raydium_program_id_str().to_string();
    let tx = SolTransaction {
        resolved_accounts: vec![
            "userA".to_string(),
            "userB".to_string(),
            "vaultA".to_string(),
            "vaultB".to_string(),
            ray,
            "otherProgram".to_string(),
        ],
        instructions: vec![
            SolInstruction { program_id_index: 5, data: vec![] },
            SolInstruction { program_id_index: 4, data: vec![1, 2] },
            SolInstruction { program_id_index: 9, data: vec![] },
            SolInstruction { program_id_index: 4, data: vec![] },
        ],
        pre_token_balances: vec![balance("vaultA", "100"), balance("vaultB", "50")],
        post_token_balances: vec![balance("vaultA", "80"), balance("vaultB", "70")],
    };
    let blk = SolBlock { transactions: vec![tx] };
    let out = map_sol_trades(&blk);
    assert_eq!(out.events.len(), 2);
    assert_eq!(out.events[0].instruction.as_ref().unwrap().index, 1);
    assert_eq!(out.events[1].instruction.as_ref().unwrap().index, 3);
    let trade = out.events[0].trade.as_ref().unwrap();
    assert_eq!(trade.vault_a_amount, "-20");
    assert_eq!(trade.vault_b_amount, "20");
}

#[test]
fn repeated_vault_entries_take_the_latest_value() {
    let pre = vec![
        balance("vaultA", "100"),
        balance("vaultA", "120"),
        balance("vaultB", "50"),
    ];
    let post = vec![balance("vaultA", "80"), balance("vaultB", "70")];
    let event = parse_trade_instruction(
        0,
        raydium_program_id_str(),
        &[],
        &four_accounts(),
        &pre,
        &post,
    )
    .unwrap();
    let trade = event.trade.unwrap();
    assert_eq!(trade.vault_a_pre_amount, "120");
    assert_eq!(trade.vault_a_amount, "-40");
}

#[test]
fn empty_blocks_yield_empty_batches() {
    let out = map_sol_trades(&SolBlock { transactions: vec![] });
    assert!(out.events.is_empty());
    let out = map_bsc_uniswapv3_swaps("0xab", &evm_block(vec![]));
    assert!(out.events.is_empty());
}

#[test]
fn out_of_range_program_index_is_skipped() {
    let tx = SolTransaction {
        resolved_accounts: four_accounts(),
        instructions: vec![SolInstruction { program_id_index: 99, data: vec![] }],
        pre_token_balances: vec![],
        post_token_balances: vec![],
    };
    let out = map_sol_trades(&SolBlock { transactions: vec![tx] });
    assert!(out.events.is_empty());
}

#[test]
fn build_trade_event_fills_context() {
    let log = swap_log(0xab, 12, -34);
    let binfo = EvmBlockInfo { hash: vec![0xde, 0xad], number: 7, timestamp: 99 };
    let tx = EvmTransactionInfo {
        hash: "h".to_string(),
        from: "f".to_string(),
        gas_used: 5,
    };
    let event = build_trade_event(&log, &binfo, &tx, "0xPool").unwrap();
    let block = event.block.unwrap();
    assert_eq!(block.hash, "dead");
    assert_eq!(block.height, 7);
    assert_eq!(block.slot, 0);
    let t = event.transaction.unwrap();
    assert_eq!(t.fee, 5);
    assert_eq!(t.fee_payer, "f");
    let instr = event.instruction.unwrap();
    assert_eq!(instr.type_, "uniswap_v3_swap");
    let trade = event.trade.unwrap();
    assert_eq!(trade.pool_address, "0xPool");
    assert_eq!(trade.user_a_pre_amount, "0");
}
