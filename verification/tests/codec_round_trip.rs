use dex_trades::codec::{decode_trade_event, encode_trade_event};
use dex_trades::dispatch::{map_bsc_uniswapv3_swaps, EvmBlock, EvmLogRecord};
use dex_trades::schema::{
    Block, BondingCurve, Chain, DApp, Instruction, Trade, TradeEvent, Transaction,
};
use dex_trades::uniswap_v3::{swap_topic0_bytes, EvmLog, EvmTransactionInfo};

fn sample_trade() -> Trade {
    Trade {
        token_a_address: "tokA".to_string(),
        token_b_address: "tokB".to_string(),
        user_a_token_account_address: "ua".to_string(),
        user_a_account_owner_address: "".to_string(),
        user_b_token_account_address: "ub".to_string(),
        user_b_account_owner_address: "".to_string(),
        user_a_amount: "-20".to_string(),
        user_b_amount: "20".to_string(),
        user_a_pre_amount: "100".to_string(),
        user_a_post_amount: "80".to_string(),
        user_b_pre_amount: "50".to_string(),
        user_b_post_amount: "70".to_string(),
        was_original_direction: true,
        pool_address: "pool".to_string(),
        vault_a: "va".to_string(),
        vault_b: "vb".to_string(),
        vault_a_owner_address: "".to_string(),
        vault_b_owner_address: "".to_string(),
        vault_a_amount: "-20".to_string(),
        vault_b_amount: "20".to_string(),
        vault_a_pre_amount: "100".to_string(),
        vault_b_pre_amount: "50".to_string(),
        vault_a_post_amount: "80".to_string(),
        vault_b_post_amount: "70".to_string(),
        pool_config_address: "".to_string(),
    }
}

fn sample_event() -> TradeEvent {
    TradeEvent {
        instruction: Some(Instruction {
            index: 3,
            is_inner_instruction: false,
            inner_instruction_index: 0,
            type_: "raydium_swap".to_string(),
        }),
        block: Some(Block {
            timestamp: -7,
            hash: "00ffdead".to_string(),
            height: 42,
            slot: 9,
        }),
        transaction: Some(Transaction {
            fee: 5000,
            fee_payer: "payer".to_string(),
            index: 2,
            signature: "sig".to_string(),
            signer: "signer".to_string(),
            status: 1,
        }),
        d_app: Some(DApp {
            program_address: "prog".to_string(),
            inner_program_address: "".to_string(),
            chain: Chain::Solana,
        }),
        trade: Some(sample_trade()),
        bonding_curve: None,
    }
}

#[test]
fn round_trip_reproduces_the_event() {
    let event = sample_event();
    let bytes = encode_trade_event(&event);
    let back = decode_trade_event(&bytes).expect("a fresh encoding decodes");
    assert_eq!(back, event);
}

#[test]
fn round_trip_with_sparse_options() {
    let event = TradeEvent {
        instruction: None,
        block: None,
        transaction: None,
        d_app: None,
        trade: None,
        bonding_curve: Some(BondingCurve { curve_address: "curve\u{00e9}".to_string() }),
    };
    let bytes = encode_trade_event(&event);
    let back = decode_trade_event(&bytes).expect("decodes");
    assert_eq!(back, event);
}

#[test]
fn round_trip_through_the_dispatcher_output() {
    let log = EvmLog {
        address: vec![0xab; 20],
        topics: vec![
            swap_topic0_bytes(),
            {
                let mut t = vec![0u8; 12];
                t.extend(vec![0x11u8; 20]);
                t
            },
            {
                let mut t = vec![0u8; 12];
                t.extend(vec![0x22u8; 20]);
                t
            },
        ],
        data: {
            let mut d = vec![0u8; 32];
            d[31] = 9;
            d.extend(vec![0xffu8; 32]);
            d.extend(vec![0u8; 96]);
            d
        },
    };
    let blk = EvmBlock {
        hash: vec![0xaa],
        number: 1,
        timestamp: 2,
        logs: vec![EvmLogRecord {
            log,
            transaction: EvmTransactionInfo {
                hash: "h".to_string(),
                from: "f".to_string(),
                gas_used: 3,
            },
        }],
    };
    let out = map_bsc_uniswapv3_swaps(&format!("0x{}", "ab".repeat(20)), &blk);
    assert_eq!(out.events.len(), 1);
    let bytes = encode_trade_event(&out.events[0]);
    let back = decode_trade_event(&bytes).expect("decodes");
    assert_eq!(back, out.events[0]);
    // amount1 is the two's-complement word of -1
    assert_eq!(back.trade.as_ref().unwrap().user_b_amount, "-1");
}

#[test]
fn corrupt_bytes_do_not_decode() {
    let bytes = encode_trade_event(&sample_event());
    let mut truncated = bytes.clone();
    truncated.truncate(bytes.len() - 1);
    assert!(decode_trade_event(&truncated).is_none());
    let mut bad_tag = bytes.clone();
    bad_tag[0] = 9;
    assert!(decode_trade_event(&bad_tag).is_none());
}
