//! Block dispatcher: walks one block's structure, filters candidate protocol
//! invocations, routes them to the matching decoder, and collects the events
//! in source order — transaction order then instruction order on the
//! account-model path, log order on the log-model path.

use vstd::prelude::*;
use crate::raydium::{
    parse_trade_instruction, raydium_event_view, raydium_program_id, raydium_program_id_str,
    TokenBalance, TokenBalanceView,
};
use crate::schema::{TradeEvents, TradeEventView};
use crate::text::{ascii_lower, hex_of, str_eq, to_ascii_lower, to_hex};
use crate::uniswap_v3::{
    build_trade_event, swap_event_view, wf_swap_log, EvmBlockInfo, EvmBlockInfoView, EvmLog,
    EvmLogView, EvmTransactionInfo, EvmTransactionInfoView,
};

verus! {

/// One instruction of an account-model transaction: the index of the invoked
/// program in the transaction's resolved-account table, and its payload.
#[derive(Clone, Debug, PartialEq)]
pub struct SolInstruction {
    pub program_id_index: u32,
    pub data: Vec<u8>,
}

pub struct SolInstructionView {
    pub program_id_index: u32,
    pub data: Seq<u8>,
}

impl View for SolInstruction {
    type V = SolInstructionView;

    open spec fn view(&self) -> SolInstructionView {
        SolInstructionView { program_id_index: self.program_id_index, data: self.data@ }
    }
}

impl DeepView for SolInstruction {
    type V = SolInstructionView;

    open spec fn deep_view(&self) -> SolInstructionView {
        self.view()
    }
}

/// One account-model transaction: its ordered instructions, the
/// resolved-account table they index into, and the token-balance snapshots
/// taken before and after it ran.
#[derive(Clone, Debug, PartialEq)]
pub struct SolTransaction {
    pub resolved_accounts: Vec<String>,
    pub instructions: Vec<SolInstruction>,
    pub pre_token_balances: Vec<TokenBalance>,
    pub post_token_balances: Vec<TokenBalance>,
}

pub struct SolTransactionView {
    pub resolved_accounts: Seq<Seq<char>>,
    pub instructions: Seq<SolInstructionView>,
    pub pre_token_balances: Seq<TokenBalanceView>,
    pub post_token_balances: Seq<TokenBalanceView>,
}

impl View for SolTransaction {
    type V = SolTransactionView;

    open spec fn view(&self) -> SolTransactionView {
        SolTransactionView {
            resolved_accounts: self.resolved_accounts.deep_view(),
            instructions: self.instructions.deep_view(),
            pre_token_balances: self.pre_token_balances.deep_view(),
            post_token_balances: self.post_token_balances.deep_view(),
        }
    }
}

impl DeepView for SolTransaction {
    type V = SolTransactionView;

    open spec fn deep_view(&self) -> SolTransactionView {
        self.view()
    }
}

/// One account-model block: its ordered transactions.
#[derive(Clone, Debug, PartialEq)]
pub struct SolBlock {
    pub transactions: Vec<SolTransaction>,
}

impl View for SolBlock {
    type V = Seq<SolTransactionView>;

    open spec fn view(&self) -> Seq<SolTransactionView> {
        self.transactions.deep_view()
    }
}

/// The program a transaction's instruction invokes: the resolved account at
/// its program index, or the empty string when the index is out of range.
pub open spec fn resolved_program_id(tx: SolTransactionView, ix: SolInstructionView) -> Seq<char> {
    if ix.program_id_index < tx.resolved_accounts.len() {
        tx.resolved_accounts[ix.program_id_index as int]
    } else {
        Seq::empty()
    }
}

/// Instruction `i` of `tx` is a candidate: it invokes the known protocol.
pub open spec fn sol_qualifies(tx: SolTransactionView, i: int) -> bool
    recommends
        0 <= i < tx.instructions.len(),
{
    resolved_program_id(tx, tx.instructions[i]) == raydium_program_id()
}

/// The events instruction `i` of `tx` contributes: one when it is a candidate
/// and the decoder accepts it, none otherwise.
pub open spec fn sol_instruction_events(tx: SolTransactionView, i: int) -> Seq<TradeEventView>
    recommends
        0 <= i < tx.instructions.len(),
{
    if sol_qualifies(tx, i) && tx.resolved_accounts.len() >= 4 {
        seq![
            raydium_event_view(
                i as u32,
                tx.resolved_accounts,
                tx.pre_token_balances,
                tx.post_token_balances,
            ),
        ]
    } else {
        Seq::empty()
    }
}

/// The events of the first `n` instructions of `tx`, in instruction order.
pub open spec fn sol_tx_events_upto(tx: SolTransactionView, n: int) -> Seq<TradeEventView>
    decreases n,
{
    if n <= 0 {
        Seq::empty()
    } else {
        sol_tx_events_upto(tx, n - 1) + sol_instruction_events(tx, n - 1)
    }
}

/// All events of one transaction.
pub open spec fn sol_tx_events(tx: SolTransactionView) -> Seq<TradeEventView> {
    sol_tx_events_upto(tx, tx.instructions.len() as int)
}

/// The events of the first `n` transactions of a block, in transaction order.
pub open spec fn sol_block_events_upto(txs: Seq<SolTransactionView>, n: int) -> Seq<TradeEventView>
    decreases n,
{
    if n <= 0 {
        Seq::empty()
    } else {
        sol_block_events_upto(txs, n - 1) + sol_tx_events(txs[n - 1])
    }
}

/// All events of one account-model block, in source order.
pub open spec fn sol_block_events(txs: Seq<SolTransactionView>) -> Seq<TradeEventView> {
    sol_block_events_upto(txs, txs.len() as int)
}

/// Decodes one account-model block: every instruction that invokes the known
/// protocol is offered to the decoder, and the produced events are batched in
/// transaction order, then instruction order.
pub fn map_sol_trades(blk: &SolBlock) -> (out: TradeEvents)
    ensures
        out@ == sol_block_events(blk@),
{
    let mut out = TradeEvents::new();
    let tx_count = blk.transactions.len();
    let mut t: usize = 0;
    while t < tx_count
        invariant
            0 <= t <= tx_count,
            tx_count == blk@.len(),
            blk@ == blk.transactions.deep_view(),
            out@ =~= sol_block_events_upto(blk@, t as int),
        decreases tx_count - t,
    {
        let tx = &blk.transactions[t];
        assert(tx.deep_view() == blk@[t as int]);
        let inst_count = tx.instructions.len();
        let mut i: usize = 0;
        while i < inst_count
            invariant
                0 <= i <= inst_count,
                0 <= t < tx_count,
                tx_count == blk@.len(),
                blk@ == blk.transactions.deep_view(),
                tx == blk.transactions@[t as int],
                tx.deep_view() == blk@[t as int],
                inst_count == tx@.instructions.len(),
                out@ =~= sol_block_events_upto(blk@, t as int) + sol_tx_events_upto(
                    blk@[t as int],
                    i as int,
                ),
            decreases inst_count - i,
        {
            let inst = &tx.instructions[i];
            assert(inst@ == tx@.instructions[i as int]);
            let program_index = inst.program_id_index as usize;
            let program_id: String = if program_index < tx.resolved_accounts.len() {
                tx.resolved_accounts[program_index].clone()
            } else {
                String::new()
            };
            assert(program_id@ == resolved_program_id(tx@, inst@));
            if str_eq(program_id.as_str(), raydium_program_id_str()) {
                match parse_trade_instruction(
                    i as u32,
                    program_id.as_str(),
                    inst.data.as_slice(),
                    &tx.resolved_accounts,
                    &tx.pre_token_balances,
                    &tx.post_token_balances,
                ) {
                    Some(te) => {
                        let ghost before = out@;
                        out.events.push(te);
                        proof {
                            assert(out@ =~= before.push(te@));
                        }
                    },
                    None => {
                    },
                }
            }
            proof {
                assert(out@ =~= sol_block_events_upto(blk@, t as int) + sol_tx_events_upto(
                    blk@[t as int],
                    i + 1,
                ));
            }
            i = i + 1;
        }
        proof {
            assert(sol_tx_events_upto(blk@[t as int], inst_count as int) == sol_tx_events(
                blk@[t as int],
            ));
            assert(out@ =~= sol_block_events_upto(blk@, t + 1));
        }
        t = t + 1;
    }
    out
}

/// One log paired with its enclosing transaction's context.
#[derive(Clone, Debug, PartialEq)]
pub struct EvmLogRecord {
    pub log: EvmLog,
    pub transaction: EvmTransactionInfo,
}

pub struct EvmLogRecordView {
    pub log: EvmLogView,
    pub transaction: EvmTransactionInfoView,
}

impl View for EvmLogRecord {
    type V = EvmLogRecordView;

    open spec fn view(&self) -> EvmLogRecordView {
        EvmLogRecordView { log: self.log@, transaction: self.transaction@ }
    }
}

impl DeepView for EvmLogRecord {
    type V = EvmLogRecordView;

    open spec fn deep_view(&self) -> EvmLogRecordView {
        self.view()
    }
}

/// One log-model block: header context and its ordered logs.
#[derive(Clone, Debug, PartialEq)]
pub struct EvmBlock {
    pub hash: Vec<u8>,
    pub number: u64,
    pub timestamp: i64,
    pub logs: Vec<EvmLogRecord>,
}

pub struct EvmBlockView {
    pub hash: Seq<u8>,
    pub number: u64,
    pub timestamp: i64,
    pub logs: Seq<EvmLogRecordView>,
}

impl View for EvmBlock {
    type V = EvmBlockView;

    open spec fn view(&self) -> EvmBlockView {
        EvmBlockView {
            hash: self.hash@,
            number: self.number,
            timestamp: self.timestamp,
            logs: self.logs.deep_view(),
        }
    }
}

/// The block-header context handed to the log decoder.
pub open spec fn block_info_of(blk: EvmBlockView) -> EvmBlockInfoView {
    EvmBlockInfoView { hash: blk.hash, number: blk.number, timestamp: blk.timestamp }
}

/// Log `i` passes the pool filter: its emitting address, rendered as
/// 0x-prefixed lowercase hex, is the configured pool address up to ASCII
/// case.
pub open spec fn evm_addr_matches(pool_lower: Seq<char>, log: EvmLogView) -> bool {
    pool_lower == seq!['0', 'x'] + hex_of(log.address)
}

/// Log `i` of the block produces an event: it passes the pool filter and has
/// the swap shape.
pub open spec fn evm_qualifies(pool_lower: Seq<char>, blk: EvmBlockView, i: int) -> bool
    recommends
        0 <= i < blk.logs.len(),
{
    evm_addr_matches(pool_lower, blk.logs[i].log) && wf_swap_log(blk.logs[i].log)
}

/// The events log `i` contributes: one when it qualifies, none otherwise. A
/// filtered-in log without the swap shape is a decoder-local hard error that
/// the dispatcher skips, so the rest of the block still decodes.
pub open spec fn evm_log_events(pool_lower: Seq<char>, blk: EvmBlockView, i: int) -> Seq<
    TradeEventView,
>
    recommends
        0 <= i < blk.logs.len(),
{
    if evm_qualifies(pool_lower, blk, i) {
        seq![
            swap_event_view(blk.logs[i].log, block_info_of(blk), blk.logs[i].transaction, pool_lower),
        ]
    } else {
        Seq::empty()
    }
}

/// The events of the first `n` logs, in log order.
pub open spec fn evm_block_events_upto(pool_lower: Seq<char>, blk: EvmBlockView, n: int) -> Seq<
    TradeEventView,
>
    decreases n,
{
    if n <= 0 {
        Seq::empty()
    } else {
        evm_block_events_upto(pool_lower, blk, n - 1) + evm_log_events(pool_lower, blk, n - 1)
    }
}

/// All events of one log-model block for the configured pool address, in log
/// order.
pub open spec fn evm_block_events(pool_address: Seq<char>, blk: EvmBlockView) -> Seq<
    TradeEventView,
> {
    evm_block_events_upto(ascii_lower(pool_address), blk, blk.logs.len() as int)
}

/// Decodes one log-model block against the configured pool address
/// (case-insensitive): every log of that pool carrying the swap signature is
/// decoded, and the events are batched in log order.
pub fn map_bsc_uniswapv3_swaps(pool_address: &str, blk: &EvmBlock) -> (out: TradeEvents)
    ensures
        out@ == evm_block_events(pool_address@, blk@),
{
    let pool_lower = to_ascii_lower(pool_address);
    let mut hash = Vec::new();
    let mut h: usize = 0;
    while h < blk.hash.len()
        invariant
            0 <= h <= blk.hash@.len(),
            hash@ =~= blk.hash@.take(h as int),
        decreases blk.hash@.len() - h,
    {
        let b = blk.hash[h];
        hash.push(b);
        proof {
            assert(hash@ =~= blk.hash@.take(h + 1));
        }
        h = h + 1;
    }
    proof {
        assert(blk.hash@.take(blk.hash@.len() as int) =~= blk.hash@);
    }
    let binfo = EvmBlockInfo { hash, number: blk.number, timestamp: blk.timestamp };
    assert(binfo@ == block_info_of(blk@));

    let mut out = TradeEvents::new();
    let log_count = blk.logs.len();
    let mut i: usize = 0;
    while i < log_count
        invariant
            0 <= i <= log_count,
            log_count == blk@.logs.len(),
            blk@.logs == blk.logs.deep_view(),
            pool_lower@ == ascii_lower(pool_address@),
            binfo@ == block_info_of(blk@),
            out@ =~= evm_block_events_upto(ascii_lower(pool_address@), blk@, i as int),
        decreases log_count - i,
    {
        let rec = &blk.logs[i];
        assert(rec@ == blk@.logs[i as int]);
        let addr_hex = String::from_str("0x").concat(to_hex(&rec.log.address).as_str());
        proof {
            reveal_strlit("0x");
            assert("0x"@ =~= seq!['0', 'x']);
            assert(addr_hex@ =~= seq!['0', 'x'] + hex_of(rec@.log.address));
        }
        if pool_lower == addr_hex {
            match build_trade_event(&rec.log, &binfo, &rec.transaction, pool_lower.as_str()) {
                Ok(te) => {
                    let ghost before = out@;
                    out.events.push(te);
                    proof {
                        assert(out@ =~= before.push(te@));
                    }
                },
                Err(_) => {
                },
            }
        }
        proof {
            assert(out@ =~= evm_block_events_upto(ascii_lower(pool_address@), blk@, i + 1));
        }
        i = i + 1;
    }
    out
}

} // verus!
