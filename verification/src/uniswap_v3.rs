//! Log-model protocol decoder (UniswapV3-style): a swap announces itself as
//! an event log whose first topic is a fixed signature hash; the indexed
//! sender and recipient sit in topics 1 and 2 and the signed amounts in the
//! ABI-encoded data payload.

use vstd::prelude::*;
use crate::abi::{amount_or_zero, decode_int256};
use crate::schema::{
    Block, BlockView, Chain, DApp, DAppView, Instruction, InstructionView, Trade, TradeEvent,
    TradeEventView, TradeView, Transaction, TransactionView,
};
use crate::text::{bytes_eq, hex_of, int_to_dec, i128_to_string, to_hex};

verus! {

/// One event log: emitting contract address, ordered 32-byte topics, and the
/// opaque data payload.
#[derive(Clone, Debug, PartialEq)]
pub struct EvmLog {
    pub address: Vec<u8>,
    pub topics: Vec<Vec<u8>>,
    pub data: Vec<u8>,
}

pub struct EvmLogView {
    pub address: Seq<u8>,
    pub topics: Seq<Seq<u8>>,
    pub data: Seq<u8>,
}

impl View for EvmLog {
    type V = EvmLogView;

    open spec fn view(&self) -> EvmLogView {
        EvmLogView {
            address: self.address@,
            topics: self.topics.deep_view(),
            data: self.data@,
        }
    }
}

impl DeepView for EvmLog {
    type V = EvmLogView;

    open spec fn deep_view(&self) -> EvmLogView {
        self.view()
    }
}

/// Block header context handed to the decoder alongside a log.
#[derive(Clone, Debug, PartialEq)]
pub struct EvmBlockInfo {
    pub hash: Vec<u8>,
    pub number: u64,
    pub timestamp: i64,
}

pub struct EvmBlockInfoView {
    pub hash: Seq<u8>,
    pub number: u64,
    pub timestamp: i64,
}

impl View for EvmBlockInfo {
    type V = EvmBlockInfoView;

    open spec fn view(&self) -> EvmBlockInfoView {
        EvmBlockInfoView { hash: self.hash@, number: self.number, timestamp: self.timestamp }
    }
}

/// Transaction context handed to the decoder alongside a log.
#[derive(Clone, Debug, PartialEq)]
pub struct EvmTransactionInfo {
    pub hash: String,
    pub from: String,
    pub gas_used: u64,
}

pub struct EvmTransactionInfoView {
    pub hash: Seq<char>,
    pub from: Seq<char>,
    pub gas_used: u64,
}

impl View for EvmTransactionInfo {
    type V = EvmTransactionInfoView;

    open spec fn view(&self) -> EvmTransactionInfoView {
        EvmTransactionInfoView { hash: self.hash@, from: self.from@, gas_used: self.gas_used }
    }
}

/// ABI decoding failed on a log that should have carried a swap: upstream
/// corruption or a schema mismatch, surfaced as a hard error.
#[derive(Clone, Copy, Debug, PartialEq, Eq, Structural)]
pub enum DecodeError {
    MalformedLog,
}

/// The signature hash of the swap event: the first topic of every candidate
/// log.
pub open spec fn swap_topic0() -> Seq<u8> {
    seq![
        0xc4u8, 0x20u8, 0x79u8, 0xf9u8, 0x4au8, 0x63u8, 0x50u8, 0xd7u8, 0xe6u8, 0x23u8, 0x5fu8,
        0x29u8, 0x17u8, 0x49u8, 0x24u8, 0xf9u8, 0x28u8, 0xccu8, 0x2au8, 0xc8u8, 0x18u8, 0xebu8,
        0x64u8, 0xfeu8, 0xd8u8, 0x00u8, 0x4eu8, 0x11u8, 0x5fu8, 0xbcu8, 0xcau8, 0x67u8,
    ]
}

/// The signature hash of the swap event, as bytes.
pub fn swap_topic0_bytes() -> (v: Vec<u8>)
    ensures
        v@ == swap_topic0(),
{
    let v: Vec<u8> = vec![
        0xc4u8, 0x20u8, 0x79u8, 0xf9u8, 0x4au8, 0x63u8, 0x50u8, 0xd7u8, 0xe6u8, 0x23u8, 0x5fu8,
        0x29u8, 0x17u8, 0x49u8, 0x24u8, 0xf9u8, 0x28u8, 0xccu8, 0x2au8, 0xc8u8, 0x18u8, 0xebu8,
        0x64u8, 0xfeu8, 0xd8u8, 0x00u8, 0x4eu8, 0x11u8, 0x5fu8, 0xbcu8, 0xcau8, 0x67u8,
    ];
    proof {
        assert(v@ =~= swap_topic0());
    }
    v
}

/// A log whose shape the swap schema guarantees: the signature topic first,
/// two full 32-byte indexed topics, and a payload wide enough for the two
/// amount words.
pub open spec fn wf_swap_log(log: EvmLogView) -> bool {
    &&& log.topics.len() >= 3
    &&& log.topics[0] == swap_topic0()
    &&& log.topics[1].len() == 32
    &&& log.topics[2].len() == 32
    &&& log.data.len() >= 160
}

/// The address held in the low 20 bytes of a 32-byte topic, rendered as a
/// 0x-prefixed lowercase hex string.
pub open spec fn topic_address(t: Seq<u8>) -> Seq<char>
    recommends
        t.len() == 32,
{
    seq!['0', 'x'] + hex_of(t.subrange(12, 32))
}

/// Renders the address in the low 20 bytes of a 32-byte topic.
fn topic_address_string(t: &Vec<u8>) -> (r: String)
    requires
        t@.len() == 32,
    ensures
        r@ == topic_address(t@),
{
    let mut tail: Vec<u8> = Vec::new();
    let mut i: usize = 12;
    while i < 32
        invariant
            12 <= i <= 32,
            t@.len() == 32,
            tail@ =~= t@.subrange(12, i as int),
        decreases 32 - i,
    {
        let b = t[i];
        tail.push(b);
        proof {
            assert(tail@ =~= t@.subrange(12, i + 1));
        }
        i = i + 1;
    }
    let hex = to_hex(&tail);
    let r = String::from_str("0x").concat(hex.as_str());
    proof {
        reveal_strlit("0x");
        assert("0x"@ =~= seq!['0', 'x']);
        assert(r@ =~= topic_address(t@));
    }
    r
}

/// What decoding a well-formed swap log yields: sender and recipient from the
/// indexed topics, the two signed amounts from the first two payload words.
pub open spec fn swap_fields(log: EvmLogView) -> (Seq<char>, Seq<char>, int, int)
    recommends
        wf_swap_log(log),
{
    (
        topic_address(log.topics[1]),
        topic_address(log.topics[2]),
        amount_or_zero(log.data.subrange(0, 32)),
        amount_or_zero(log.data.subrange(32, 64)),
    )
}

/// Decodes a swap event log into (sender, recipient, amount0, amount1).
///
/// A malformed log — missing topics, a short topic, a topic-0 that is not the
/// swap signature, or a payload too short for the schema — is a hard error.
pub fn decode_swap_event(log: &EvmLog) -> (r: Result<(String, String, i128, i128), DecodeError>)
    ensures
        r is Ok <==> wf_swap_log(log@),
        r is Ok ==> ({
            let (sender, recipient, amount0, amount1) = r->Ok_0;
            &&& sender@ == swap_fields(log@).0
            &&& recipient@ == swap_fields(log@).1
            &&& amount0 as int == swap_fields(log@).2
            &&& amount1 as int == swap_fields(log@).3
        }),
{
    if log.topics.len() < 3 {
        return Err(DecodeError::MalformedLog);
    }
    proof {
        assert(log@.topics[0] =~= log.topics@[0]@);
        assert(log@.topics[1] =~= log.topics@[1]@);
        assert(log@.topics[2] =~= log.topics@[2]@);
    }
    let sig = swap_topic0_bytes();
    if !bytes_eq(&log.topics[0], &sig) {
        assert(log@.topics[0] != swap_topic0());
        return Err(DecodeError::MalformedLog);
    }
    if log.topics[1].len() != 32 || log.topics[2].len() != 32 {
        return Err(DecodeError::MalformedLog);
    }
    if log.data.len() < 160 {
        return Err(DecodeError::MalformedLog);
    }
    let sender = topic_address_string(&log.topics[1]);
    let recipient = topic_address_string(&log.topics[2]);
    let amount0 = decode_int256(&log.data, 0);
    let amount1 = decode_int256(&log.data, 32);
    Ok((sender, recipient, amount0, amount1))
}

/// The event a well-formed swap log becomes. Token legs are not derivable
/// from the log alone; without the delegated contract-state lookup they fall
/// back to the pool address itself, a documented degraded mode.
pub open spec fn swap_event_view(
    log: EvmLogView,
    block: EvmBlockInfoView,
    tx: EvmTransactionInfoView,
    pool_address: Seq<char>,
) -> TradeEventView
    recommends
        wf_swap_log(log),
{
    let sender = topic_address(log.topics[1]);
    let recipient = topic_address(log.topics[2]);
    let amount0 = amount_or_zero(log.data.subrange(0, 32));
    let amount1 = amount_or_zero(log.data.subrange(32, 64));
    TradeEventView {
        instruction: Some(
            InstructionView {
                index: 0,
                is_inner_instruction: false,
                inner_instruction_index: 0,
                type_: "uniswap_v3_swap"@,
            },
        ),
        block: Some(
            BlockView {
                timestamp: block.timestamp,
                hash: hex_of(block.hash),
                height: block.number,
                slot: 0,
            },
        ),
        transaction: Some(
            TransactionView {
                fee: tx.gas_used,
                fee_payer: tx.from,
                index: 0,
                signature: tx.hash,
                signer: tx.from,
                status: 1,
            },
        ),
        d_app: Some(
            DAppView {
                program_address: pool_address,
                inner_program_address: Seq::empty(),
                chain: Chain::Bsc,
            },
        ),
        trade: Some(
            TradeView {
                token_a_address: pool_address,
                token_b_address: pool_address,
                user_a_token_account_address: sender,
                user_a_account_owner_address: sender,
                user_b_token_account_address: recipient,
                user_b_account_owner_address: recipient,
                user_a_amount: int_to_dec(amount0),
                user_b_amount: int_to_dec(amount1),
                user_a_pre_amount: seq!['0'],
                user_a_post_amount: seq!['0'],
                user_b_pre_amount: seq!['0'],
                user_b_post_amount: seq!['0'],
                was_original_direction: true,
                pool_address: pool_address,
                vault_a: pool_address,
                vault_b: pool_address,
                vault_a_owner_address: sender,
                vault_b_owner_address: recipient,
                vault_a_amount: int_to_dec(amount0),
                vault_b_amount: int_to_dec(amount1),
                vault_a_pre_amount: seq!['0'],
                vault_b_pre_amount: seq!['0'],
                vault_a_post_amount: seq!['0'],
                vault_b_post_amount: seq!['0'],
                pool_config_address: Seq::empty(),
            },
        ),
        bonding_curve: None,
    }
}

/// Builds the canonical event for one swap log, with block and transaction
/// context filled from the supplied log-model chain data.
pub fn build_trade_event(
    log: &EvmLog,
    block: &EvmBlockInfo,
    tx: &EvmTransactionInfo,
    pool_address: &str,
) -> (r: Result<TradeEvent, DecodeError>)
    ensures
        r is Ok <==> wf_swap_log(log@),
        r is Ok ==> (r->Ok_0)@ == swap_event_view(log@, block@, tx@, pool_address@),
{
    let (sender, recipient, amount0, amount1) = match decode_swap_event(log) {
        Ok(fields) => fields,
        Err(e) => {
            return Err(e);
        },
    };

    let trade = Trade {
        token_a_address: String::from_str(pool_address),
        token_b_address: String::from_str(pool_address),
        user_a_token_account_address: sender.clone(),
        user_a_account_owner_address: sender.clone(),
        user_b_token_account_address: recipient.clone(),
        user_b_account_owner_address: recipient.clone(),
        user_a_amount: i128_to_string(amount0),
        user_b_amount: i128_to_string(amount1),
        user_a_pre_amount: String::from_str("0"),
        user_a_post_amount: String::from_str("0"),
        user_b_pre_amount: String::from_str("0"),
        user_b_post_amount: String::from_str("0"),
        was_original_direction: true,
        pool_address: String::from_str(pool_address),
        vault_a: String::from_str(pool_address),
        vault_b: String::from_str(pool_address),
        vault_a_owner_address: sender,
        vault_b_owner_address: recipient,
        vault_a_amount: i128_to_string(amount0),
        vault_b_amount: i128_to_string(amount1),
        vault_a_pre_amount: String::from_str("0"),
        vault_b_pre_amount: String::from_str("0"),
        vault_a_post_amount: String::from_str("0"),
        vault_b_post_amount: String::from_str("0"),
        pool_config_address: String::new(),
    };

    let event = TradeEvent {
        instruction: Some(
            Instruction {
                index: 0,
                is_inner_instruction: false,
                inner_instruction_index: 0,
                type_: String::from_str("uniswap_v3_swap"),
            },
        ),
        block: Some(
            Block {
                timestamp: block.timestamp,
                hash: to_hex(&block.hash),
                height: block.number,
                slot: 0,
            },
        ),
        transaction: Some(
            Transaction {
                fee: tx.gas_used,
                fee_payer: tx.from.clone(),
                index: 0,
                signature: tx.hash.clone(),
                signer: tx.from.clone(),
                status: 1,
            },
        ),
        d_app: Some(
            DApp {
                program_address: String::from_str(pool_address),
                inner_program_address: String::new(),
                chain: Chain::Bsc,
            },
        ),
        trade: Some(trade),
        bonding_curve: None,
    };
    proof {
        reveal_strlit("0");
        assert("0"@ =~= seq!['0']);
        assert(event@ == swap_event_view(log@, block@, tx@, pool_address@));
    }
    Ok(event)
}

} // verus!
