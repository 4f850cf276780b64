//! Batch-level laws of the dispatcher: candidates that fail the signature
//! filter contribute nothing, and the batch preserves source order.

use vstd::prelude::*;
use crate::dispatch::{
    evm_block_events, evm_block_events_upto, evm_log_events, evm_qualifies, block_info_of,
    sol_block_events, sol_block_events_upto, sol_qualifies,
    sol_tx_events, sol_tx_events_upto, EvmBlockView, SolTransactionView,
};
use crate::raydium::raydium_event_view;
use crate::schema::TradeEventView;
use crate::text::ascii_lower;
use crate::uniswap_v3::{swap_event_view, swap_topic0, wf_swap_log};

verus! {

/// A log whose first topic is not the swap signature never reaches the ABI
/// decode step: it contributes no event, whatever else it holds.
pub proof fn lemma_topic_mismatch_no_event(pool_lower: Seq<char>, blk: EvmBlockView, i: int)
    requires
        0 <= i < blk.logs.len(),
        blk.logs[i].log.topics.len() < 3 || blk.logs[i].log.topics[0] != swap_topic0(),
    ensures
        evm_log_events(pool_lower, blk, i) == Seq::<TradeEventView>::empty(),
{
    assert(!wf_swap_log(blk.logs[i].log));
}

/// How many of the first `n` logs qualify.
pub open spec fn evm_count_upto(pool_lower: Seq<char>, blk: EvmBlockView, n: int) -> int
    decreases n,
{
    if n <= 0 {
        0
    } else {
        evm_count_upto(pool_lower, blk, n - 1) + if evm_qualifies(pool_lower, blk, n - 1) {
            1int
        } else {
            0int
        }
    }
}

proof fn lemma_evm_events_len(pool_lower: Seq<char>, blk: EvmBlockView, n: int)
    requires
        n <= blk.logs.len(),
    ensures
        evm_block_events_upto(pool_lower, blk, n).len() == evm_count_upto(pool_lower, blk, n),
        evm_count_upto(pool_lower, blk, n) >= 0,
    decreases n,
{
    if n > 0 {
        lemma_evm_events_len(pool_lower, blk, n - 1);
    }
}

proof fn lemma_evm_count_monotone(pool_lower: Seq<char>, blk: EvmBlockView, n1: int, n2: int)
    requires
        n1 <= n2,
    ensures
        evm_count_upto(pool_lower, blk, n1) <= evm_count_upto(pool_lower, blk, n2),
    decreases n2 - n1,
{
    if n1 < n2 {
        lemma_evm_count_monotone(pool_lower, blk, n1, n2 - 1);
    }
}

/// A qualifying log at position `p` stands in the batch exactly at the index
/// given by the number of qualifying logs before it.
pub proof fn lemma_evm_event_position(pool_lower: Seq<char>, blk: EvmBlockView, p: int, n: int)
    requires
        0 <= p < n <= blk.logs.len(),
        evm_qualifies(pool_lower, blk, p),
    ensures
        0 <= evm_count_upto(pool_lower, blk, p) < evm_block_events_upto(pool_lower, blk, n).len(),
        evm_block_events_upto(pool_lower, blk, n)[evm_count_upto(pool_lower, blk, p)]
            == swap_event_view(
            blk.logs[p].log,
            block_info_of(blk),
            blk.logs[p].transaction,
            pool_lower,
        ),
    decreases n,
{
    lemma_evm_events_len(pool_lower, blk, p);
    if n == p + 1 {
        lemma_evm_events_len(pool_lower, blk, p);
    } else {
        lemma_evm_event_position(pool_lower, blk, p, n - 1);
    }
}

/// Batch ordering on the log-model path: when logs at positions `p1 < p2`
/// both qualify, their events stand in the batch at indices `k1 < k2`, with
/// each `k` the number of qualifying logs before that position.
pub proof fn lemma_evm_batch_preserves_order(
    pool_address: Seq<char>,
    blk: EvmBlockView,
    p1: int,
    p2: int,
)
    requires
        0 <= p1 < p2 < blk.logs.len(),
        evm_qualifies(ascii_lower(pool_address), blk, p1),
        evm_qualifies(ascii_lower(pool_address), blk, p2),
    ensures
        ({
            let lower = ascii_lower(pool_address);
            let k1 = evm_count_upto(lower, blk, p1);
            let k2 = evm_count_upto(lower, blk, p2);
            let events = evm_block_events(pool_address, blk);
            &&& 0 <= k1 < k2 < events.len()
            &&& events[k1] == swap_event_view(
                blk.logs[p1].log,
                block_info_of(blk),
                blk.logs[p1].transaction,
                lower,
            )
            &&& events[k2] == swap_event_view(
                blk.logs[p2].log,
                block_info_of(blk),
                blk.logs[p2].transaction,
                lower,
            )
        }),
{
    let lower = ascii_lower(pool_address);
    lemma_evm_event_position(lower, blk, p1, blk.logs.len() as int);
    lemma_evm_event_position(lower, blk, p2, blk.logs.len() as int);
    assert(evm_count_upto(lower, blk, p1 + 1) == evm_count_upto(lower, blk, p1) + 1);
    lemma_evm_count_monotone(lower, blk, p1 + 1, p2);
}

/// How many of the first `n` instructions of a transaction yield an event.
pub open spec fn sol_count_upto(tx: SolTransactionView, n: int) -> int
    decreases n,
{
    if n <= 0 {
        0
    } else {
        sol_count_upto(tx, n - 1) + if sol_qualifies(tx, n - 1) && tx.resolved_accounts.len()
            >= 4 {
            1int
        } else {
            0int
        }
    }
}

proof fn lemma_sol_tx_events_len(tx: SolTransactionView, n: int)
    requires
        n <= tx.instructions.len(),
    ensures
        sol_tx_events_upto(tx, n).len() == sol_count_upto(tx, n),
        sol_count_upto(tx, n) >= 0,
    decreases n,
{
    if n > 0 {
        lemma_sol_tx_events_len(tx, n - 1);
    }
}

proof fn lemma_sol_count_monotone(tx: SolTransactionView, n1: int, n2: int)
    requires
        n1 <= n2,
    ensures
        sol_count_upto(tx, n1) <= sol_count_upto(tx, n2),
    decreases n2 - n1,
{
    if n1 < n2 {
        lemma_sol_count_monotone(tx, n1, n2 - 1);
    }
}

/// An instruction at position `p` that yields an event stands, within its
/// transaction's events, exactly at the index given by the number of
/// event-yielding instructions before it.
pub proof fn lemma_sol_event_position(tx: SolTransactionView, p: int, n: int)
    requires
        0 <= p < n <= tx.instructions.len(),
        sol_qualifies(tx, p),
        tx.resolved_accounts.len() >= 4,
    ensures
        0 <= sol_count_upto(tx, p) < sol_tx_events_upto(tx, n).len(),
        sol_tx_events_upto(tx, n)[sol_count_upto(tx, p)] == raydium_event_view(
            p as u32,
            tx.resolved_accounts,
            tx.pre_token_balances,
            tx.post_token_balances,
        ),
    decreases n,
{
    lemma_sol_tx_events_len(tx, p);
    if n > p + 1 {
        lemma_sol_event_position(tx, p, n - 1);
    }
}

proof fn lemma_sol_block_len_monotone(txs: Seq<SolTransactionView>, n1: int, n2: int)
    requires
        n1 <= n2,
    ensures
        sol_block_events_upto(txs, n1).len() <= sol_block_events_upto(txs, n2).len(),
        forall|k: int|
            0 <= k < sol_block_events_upto(txs, n1).len() ==> sol_block_events_upto(txs, n2)[k]
                == sol_block_events_upto(txs, n1)[k],
    decreases n2 - n1,
{
    if n1 < n2 {
        lemma_sol_block_len_monotone(txs, n1, n2 - 1);
    }
}

/// The index in the whole batch of the event of instruction `i` of
/// transaction `t`: all events of earlier transactions, then the
/// event-yielding instructions before it in its own transaction.
pub open spec fn sol_event_index(txs: Seq<SolTransactionView>, t: int, i: int) -> int {
    sol_block_events_upto(txs, t).len() + sol_count_upto(txs[t], i)
}

/// An event-yielding instruction stands in the block batch exactly at
/// `sol_event_index`.
pub proof fn lemma_sol_block_event_position(txs: Seq<SolTransactionView>, t: int, i: int)
    requires
        0 <= t < txs.len(),
        0 <= i < txs[t].instructions.len(),
        sol_qualifies(txs[t], i),
        txs[t].resolved_accounts.len() >= 4,
    ensures
        0 <= sol_event_index(txs, t, i) < sol_block_events(txs).len(),
        sol_block_events(txs)[sol_event_index(txs, t, i)] == raydium_event_view(
            i as u32,
            txs[t].resolved_accounts,
            txs[t].pre_token_balances,
            txs[t].post_token_balances,
        ),
{
    let tx = txs[t];
    lemma_sol_event_position(tx, i, tx.instructions.len() as int);
    assert(sol_block_events_upto(txs, t + 1) == sol_block_events_upto(txs, t) + sol_tx_events(tx));
    lemma_sol_block_len_monotone(txs, t + 1, txs.len() as int);
}

/// Batch ordering on the account-model path: when instruction `i1` of
/// transaction `t1` comes before instruction `i2` of transaction `t2` in
/// source order and both yield events, the batch keeps that order.
pub proof fn lemma_sol_batch_preserves_order(
    txs: Seq<SolTransactionView>,
    t1: int,
    i1: int,
    t2: int,
    i2: int,
)
    requires
        0 <= t1 <= t2 < txs.len(),
        0 <= i1 < txs[t1].instructions.len(),
        0 <= i2 < txs[t2].instructions.len(),
        t1 < t2 || i1 < i2,
        sol_qualifies(txs[t1], i1),
        txs[t1].resolved_accounts.len() >= 4,
        sol_qualifies(txs[t2], i2),
        txs[t2].resolved_accounts.len() >= 4,
    ensures
        sol_event_index(txs, t1, i1) < sol_event_index(txs, t2, i2),
        sol_block_events(txs)[sol_event_index(txs, t1, i1)] == raydium_event_view(
            i1 as u32,
            txs[t1].resolved_accounts,
            txs[t1].pre_token_balances,
            txs[t1].post_token_balances,
        ),
        sol_block_events(txs)[sol_event_index(txs, t2, i2)] == raydium_event_view(
            i2 as u32,
            txs[t2].resolved_accounts,
            txs[t2].pre_token_balances,
            txs[t2].post_token_balances,
        ),
{
    lemma_sol_block_event_position(txs, t1, i1);
    lemma_sol_block_event_position(txs, t2, i2);
    if t1 == t2 {
        assert(sol_count_upto(txs[t1], i1 + 1) == sol_count_upto(txs[t1], i1) + 1);
        lemma_sol_count_monotone(txs[t1], i1 + 1, i2);
    } else {
        lemma_sol_tx_events_len(txs[t1], i1);
        assert(sol_count_upto(txs[t1], i1 + 1) == sol_count_upto(txs[t1], i1) + 1);
        lemma_sol_count_monotone(txs[t1], i1 + 1, txs[t1].instructions.len() as int);
        lemma_sol_tx_events_len(txs[t1], txs[t1].instructions.len() as int);
        assert(sol_block_events_upto(txs, t1 + 1) == sol_block_events_upto(txs, t1)
            + sol_tx_events(txs[t1]));
        lemma_sol_block_len_monotone(txs, t1 + 1, t2);
        lemma_sol_tx_events_len(txs[t2], i2);
    }
}

} // verus!
