//! A byte codec for the canonical schema: little-endian fixed-width numbers,
//! length-prefixed character data, one tag byte per optional field. Encoding
//! then decoding reproduces the event exactly.

use vstd::prelude::*;
use vstd::bytes::{
    lemma_auto_spec_u32_to_from_le_bytes, lemma_auto_spec_u64_to_from_le_bytes,
    spec_u32_from_le_bytes, spec_u32_to_le_bytes, spec_u64_from_le_bytes, spec_u64_to_le_bytes,
    u32_from_le_bytes, u32_to_le_bytes, u64_from_le_bytes, u64_to_le_bytes,
};
use crate::schema::{
    Block, BlockView, BondingCurve, BondingCurveView, Chain, DApp, DAppView, Instruction,
    InstructionView, Trade, TradeEvent, TradeEventView, TradeView, Transaction, TransactionView,
};
use crate::text::{char_from_u32, is_scalar_value, push_char};

verus! {

// ---------- encoders over the ghost views ----------

pub open spec fn enc_bool(b: bool) -> Seq<u8> {
    seq![if b { 1u8 } else { 0u8 }]
}

pub open spec fn enc_u32(x: u32) -> Seq<u8> {
    spec_u32_to_le_bytes(x)
}

pub open spec fn enc_u64(x: u64) -> Seq<u8> {
    spec_u64_to_le_bytes(x)
}

/// Magnitude of a signed 64-bit value, as the unsigned type that can hold it.
pub open spec fn mag64(x: i64) -> u64 {
    if x < 0 {
        (0 - x as int) as u64
    } else {
        x as u64
    }
}

pub open spec fn mag32(x: i32) -> u32 {
    if x < 0 {
        (0 - x as int) as u32
    } else {
        x as u32
    }
}

pub open spec fn enc_i64(x: i64) -> Seq<u8> {
    enc_bool(x < 0) + enc_u64(mag64(x))
}

pub open spec fn enc_i32(x: i32) -> Seq<u8> {
    enc_bool(x < 0) + enc_u32(mag32(x))
}

pub open spec fn chain_tag(c: Chain) -> u8 {
    match c {
        Chain::Unspecified => 0u8,
        Chain::Solana => 1u8,
        Chain::Bsc => 2u8,
    }
}

pub open spec fn enc_chain(c: Chain) -> Seq<u8> {
    seq![chain_tag(c)]
}

/// Each character as its code point, four little-endian bytes.
pub open spec fn enc_chars(s: Seq<char>) -> Seq<u8>
    decreases s.len(),
{
    if s.len() == 0 {
        Seq::empty()
    } else {
        enc_u32(s[0] as u32) + enc_chars(s.drop_first())
    }
}

/// A string: its character count, then its characters.
pub open spec fn enc_str(s: Seq<char>) -> Seq<u8> {
    enc_u64(s.len() as u64) + enc_chars(s)
}

/// A fixed-count list of strings, in order.
pub open spec fn enc_str_list(l: Seq<Seq<char>>) -> Seq<u8>
    decreases l.len(),
{
    if l.len() == 0 {
        Seq::empty()
    } else {
        enc_str(l[0]) + enc_str_list(l.drop_first())
    }
}

pub open spec fn enc_instruction(x: InstructionView) -> Seq<u8> {
    enc_u32(x.index) + (enc_bool(x.is_inner_instruction) + (enc_u32(x.inner_instruction_index)
        + enc_str(x.type_)))
}

pub open spec fn enc_block(x: BlockView) -> Seq<u8> {
    enc_i64(x.timestamp) + (enc_str(x.hash) + (enc_u64(x.height) + enc_u64(x.slot)))
}

pub open spec fn enc_transaction(x: TransactionView) -> Seq<u8> {
    enc_u64(x.fee) + (enc_str(x.fee_payer) + (enc_u32(x.index) + (enc_str(x.signature) + (enc_str(
        x.signer,
    ) + enc_i32(x.status)))))
}

pub open spec fn enc_dapp(x: DAppView) -> Seq<u8> {
    enc_str(x.program_address) + (enc_str(x.inner_program_address) + enc_chain(x.chain))
}

pub open spec fn enc_bonding(x: BondingCurveView) -> Seq<u8> {
    enc_str(x.curve_address)
}

/// The string fields of a trade, in schema order.
pub open spec fn trade_fields(t: TradeView) -> Seq<Seq<char>> {
    seq![
        t.token_a_address,
        t.token_b_address,
        t.user_a_token_account_address,
        t.user_a_account_owner_address,
        t.user_b_token_account_address,
        t.user_b_account_owner_address,
        t.user_a_amount,
        t.user_b_amount,
        t.user_a_pre_amount,
        t.user_a_post_amount,
        t.user_b_pre_amount,
        t.user_b_post_amount,
        t.pool_address,
        t.vault_a,
        t.vault_b,
        t.vault_a_owner_address,
        t.vault_b_owner_address,
        t.vault_a_amount,
        t.vault_b_amount,
        t.vault_a_pre_amount,
        t.vault_b_pre_amount,
        t.vault_a_post_amount,
        t.vault_b_post_amount,
        t.pool_config_address,
    ]
}

/// Rebuilds a trade from its direction flag and its string fields.
pub open spec fn trade_from_fields(b: bool, l: Seq<Seq<char>>) -> TradeView
    recommends
        l.len() == 24,
{
    TradeView {
        token_a_address: l[0],
        token_b_address: l[1],
        user_a_token_account_address: l[2],
        user_a_account_owner_address: l[3],
        user_b_token_account_address: l[4],
        user_b_account_owner_address: l[5],
        user_a_amount: l[6],
        user_b_amount: l[7],
        user_a_pre_amount: l[8],
        user_a_post_amount: l[9],
        user_b_pre_amount: l[10],
        user_b_post_amount: l[11],
        was_original_direction: b,
        pool_address: l[12],
        vault_a: l[13],
        vault_b: l[14],
        vault_a_owner_address: l[15],
        vault_b_owner_address: l[16],
        vault_a_amount: l[17],
        vault_b_amount: l[18],
        vault_a_pre_amount: l[19],
        vault_b_pre_amount: l[20],
        vault_a_post_amount: l[21],
        vault_b_post_amount: l[22],
        pool_config_address: l[23],
    }
}

pub open spec fn enc_trade(t: TradeView) -> Seq<u8> {
    enc_bool(t.was_original_direction) + enc_str_list(trade_fields(t))
}

pub open spec fn enc_opt_instruction(o: Option<InstructionView>) -> Seq<u8> {
    match o {
        None => seq![0u8],
        Some(x) => seq![1u8] + enc_instruction(x),
    }
}

pub open spec fn enc_opt_block(o: Option<BlockView>) -> Seq<u8> {
    match o {
        None => seq![0u8],
        Some(x) => seq![1u8] + enc_block(x),
    }
}

pub open spec fn enc_opt_transaction(o: Option<TransactionView>) -> Seq<u8> {
    match o {
        None => seq![0u8],
        Some(x) => seq![1u8] + enc_transaction(x),
    }
}

pub open spec fn enc_opt_dapp(o: Option<DAppView>) -> Seq<u8> {
    match o {
        None => seq![0u8],
        Some(x) => seq![1u8] + enc_dapp(x),
    }
}

pub open spec fn enc_opt_trade(o: Option<TradeView>) -> Seq<u8> {
    match o {
        None => seq![0u8],
        Some(x) => seq![1u8] + enc_trade(x),
    }
}

pub open spec fn enc_opt_bonding(o: Option<BondingCurveView>) -> Seq<u8> {
    match o {
        None => seq![0u8],
        Some(x) => seq![1u8] + enc_bonding(x),
    }
}

pub open spec fn enc_event(e: TradeEventView) -> Seq<u8> {
    enc_opt_instruction(e.instruction) + (enc_opt_block(e.block) + (enc_opt_transaction(
        e.transaction,
    ) + (enc_opt_dapp(e.d_app) + (enc_opt_trade(e.trade) + enc_opt_bonding(e.bonding_curve)))))
}

// ---------- well-formedness: every string length fits the length prefix ----------

pub open spec fn wf_str(s: Seq<char>) -> bool {
    s.len() <= u64::MAX
}

pub open spec fn wf_instruction(x: InstructionView) -> bool {
    wf_str(x.type_)
}

pub open spec fn wf_block(x: BlockView) -> bool {
    wf_str(x.hash)
}

pub open spec fn wf_transaction(x: TransactionView) -> bool {
    wf_str(x.fee_payer) && wf_str(x.signature) && wf_str(x.signer)
}

pub open spec fn wf_dapp(x: DAppView) -> bool {
    wf_str(x.program_address) && wf_str(x.inner_program_address)
}

pub open spec fn wf_bonding(x: BondingCurveView) -> bool {
    wf_str(x.curve_address)
}

pub open spec fn wf_trade(t: TradeView) -> bool {
    forall|i: int| 0 <= i < trade_fields(t).len() ==> wf_str(#[trigger] trade_fields(t)[i])
}

pub open spec fn wf_event(e: TradeEventView) -> bool {
    &&& (e.instruction matches Some(x) ==> wf_instruction(x))
    &&& (e.block matches Some(x) ==> wf_block(x))
    &&& (e.transaction matches Some(x) ==> wf_transaction(x))
    &&& (e.d_app matches Some(x) ==> wf_dapp(x))
    &&& (e.trade matches Some(x) ==> wf_trade(x))
    &&& (e.bonding_curve matches Some(x) ==> wf_bonding(x))
}

// ---------- decoders ----------

pub open spec fn dec_bool(b: Seq<u8>, pos: int) -> Option<(bool, int)> {
    if 0 <= pos && pos + 1 <= b.len() {
        if b[pos] == 1 {
            Some((true, pos + 1))
        } else if b[pos] == 0 {
            Some((false, pos + 1))
        } else {
            None
        }
    } else {
        None
    }
}

pub open spec fn dec_u32(b: Seq<u8>, pos: int) -> Option<(u32, int)> {
    if 0 <= pos && pos + 4 <= b.len() {
        Some((spec_u32_from_le_bytes(b.subrange(pos, pos + 4)), pos + 4))
    } else {
        None
    }
}

pub open spec fn dec_u64(b: Seq<u8>, pos: int) -> Option<(u64, int)> {
    if 0 <= pos && pos + 8 <= b.len() {
        Some((spec_u64_from_le_bytes(b.subrange(pos, pos + 8)), pos + 8))
    } else {
        None
    }
}

pub open spec fn dec_i64(b: Seq<u8>, pos: int) -> Option<(i64, int)> {
    match dec_bool(b, pos) {
        None => None,
        Some((neg, p1)) => match dec_u64(b, p1) {
            None => None,
            Some((mag, p2)) => if neg {
                if mag > 0x8000000000000000u64 {
                    None
                } else {
                    Some((((0 - mag as int) as i64), p2))
                }
            } else {
                if mag > 0x7fffffffffffffffu64 {
                    None
                } else {
                    Some((mag as i64, p2))
                }
            },
        },
    }
}

pub open spec fn dec_i32(b: Seq<u8>, pos: int) -> Option<(i32, int)> {
    match dec_bool(b, pos) {
        None => None,
        Some((neg, p1)) => match dec_u32(b, p1) {
            None => None,
            Some((mag, p2)) => if neg {
                if mag > 0x80000000u32 {
                    None
                } else {
                    Some((((0 - mag as int) as i32), p2))
                }
            } else {
                if mag > 0x7fffffffu32 {
                    None
                } else {
                    Some((mag as i32, p2))
                }
            },
        },
    }
}

pub open spec fn dec_chain(b: Seq<u8>, pos: int) -> Option<(Chain, int)> {
    if 0 <= pos && pos + 1 <= b.len() {
        if b[pos] == 0 {
            Some((Chain::Unspecified, pos + 1))
        } else if b[pos] == 1 {
            Some((Chain::Solana, pos + 1))
        } else if b[pos] == 2 {
            Some((Chain::Bsc, pos + 1))
        } else {
            None
        }
    } else {
        None
    }
}

pub open spec fn dec_chars(b: Seq<u8>, pos: int, count: int) -> Option<(Seq<char>, int)>
    decreases count,
{
    if count <= 0 {
        Some((Seq::empty(), pos))
    } else {
        match dec_u32(b, pos) {
            None => None,
            Some((x, p1)) => if is_scalar_value(x) {
                match dec_chars(b, p1, count - 1) {
                    None => None,
                    Some((s, p2)) => Some((seq![x as char] + s, p2)),
                }
            } else {
                None
            },
        }
    }
}

pub open spec fn dec_str(b: Seq<u8>, pos: int) -> Option<(Seq<char>, int)> {
    match dec_u64(b, pos) {
        None => None,
        Some((n, p1)) => dec_chars(b, p1, n as int),
    }
}

pub open spec fn dec_str_list(b: Seq<u8>, pos: int, count: int) -> Option<(Seq<Seq<char>>, int)>
    decreases count,
{
    if count <= 0 {
        Some((Seq::empty(), pos))
    } else {
        match dec_str(b, pos) {
            None => None,
            Some((s, p1)) => match dec_str_list(b, p1, count - 1) {
                None => None,
                Some((l, p2)) => Some((seq![s] + l, p2)),
            },
        }
    }
}

pub open spec fn dec_instruction(b: Seq<u8>, pos: int) -> Option<(InstructionView, int)> {
    match dec_u32(b, pos) {
        None => None,
        Some((index, p1)) => match dec_bool(b, p1) {
            None => None,
            Some((inner, p2)) => match dec_u32(b, p2) {
                None => None,
                Some((inner_index, p3)) => match dec_str(b, p3) {
                    None => None,
                    Some((type_, p4)) => Some(
                        (
                            InstructionView {
                                index,
                                is_inner_instruction: inner,
                                inner_instruction_index: inner_index,
                                type_,
                            },
                            p4,
                        ),
                    ),
                },
            },
        },
    }
}

pub open spec fn dec_block(b: Seq<u8>, pos: int) -> Option<(BlockView, int)> {
    match dec_i64(b, pos) {
        None => None,
        Some((timestamp, p1)) => match dec_str(b, p1) {
            None => None,
            Some((hash, p2)) => match dec_u64(b, p2) {
                None => None,
                Some((height, p3)) => match dec_u64(b, p3) {
                    None => None,
                    Some((slot, p4)) => Some((BlockView { timestamp, hash, height, slot }, p4)),
                },
            },
        },
    }
}

pub open spec fn dec_transaction(b: Seq<u8>, pos: int) -> Option<(TransactionView, int)> {
    match dec_u64(b, pos) {
        None => None,
        Some((fee, p1)) => match dec_str(b, p1) {
            None => None,
            Some((fee_payer, p2)) => match dec_u32(b, p2) {
                None => None,
                Some((index, p3)) => match dec_str(b, p3) {
                    None => None,
                    Some((signature, p4)) => match dec_str(b, p4) {
                        None => None,
                        Some((signer, p5)) => match dec_i32(b, p5) {
                            None => None,
                            Some((status, p6)) => Some(
                                (
                                    TransactionView {
                                        fee,
                                        fee_payer,
                                        index,
                                        signature,
                                        signer,
                                        status,
                                    },
                                    p6,
                                ),
                            ),
                        },
                    },
                },
            },
        },
    }
}

pub open spec fn dec_dapp(b: Seq<u8>, pos: int) -> Option<(DAppView, int)> {
    match dec_str(b, pos) {
        None => None,
        Some((program_address, p1)) => match dec_str(b, p1) {
            None => None,
            Some((inner_program_address, p2)) => match dec_chain(b, p2) {
                None => None,
                Some((chain, p3)) => Some(
                    (DAppView { program_address, inner_program_address, chain }, p3),
                ),
            },
        },
    }
}

pub open spec fn dec_bonding(b: Seq<u8>, pos: int) -> Option<(BondingCurveView, int)> {
    match dec_str(b, pos) {
        None => None,
        Some((curve_address, p1)) => Some((BondingCurveView { curve_address }, p1)),
    }
}

pub open spec fn dec_trade(b: Seq<u8>, pos: int) -> Option<(TradeView, int)> {
    match dec_bool(b, pos) {
        None => None,
        Some((was, p1)) => match dec_str_list(b, p1, 24) {
            None => None,
            Some((l, p2)) => Some((trade_from_fields(was, l), p2)),
        },
    }
}

pub open spec fn dec_opt_instruction(b: Seq<u8>, pos: int) -> Option<
    (Option<InstructionView>, int),
> {
    if 0 <= pos && pos + 1 <= b.len() {
        if b[pos] == 0 {
            Some((None, pos + 1))
        } else if b[pos] == 1 {
            match dec_instruction(b, pos + 1) {
                None => None,
                Some((x, p1)) => Some((Some(x), p1)),
            }
        } else {
            None
        }
    } else {
        None
    }
}

pub open spec fn dec_opt_block(b: Seq<u8>, pos: int) -> Option<(Option<BlockView>, int)> {
    if 0 <= pos && pos + 1 <= b.len() {
        if b[pos] == 0 {
            Some((None, pos + 1))
        } else if b[pos] == 1 {
            match dec_block(b, pos + 1) {
                None => None,
                Some((x, p1)) => Some((Some(x), p1)),
            }
        } else {
            None
        }
    } else {
        None
    }
}

pub open spec fn dec_opt_transaction(b: Seq<u8>, pos: int) -> Option<
    (Option<TransactionView>, int),
> {
    if 0 <= pos && pos + 1 <= b.len() {
        if b[pos] == 0 {
            Some((None, pos + 1))
        } else if b[pos] == 1 {
            match dec_transaction(b, pos + 1) {
                None => None,
                Some((x, p1)) => Some((Some(x), p1)),
            }
        } else {
            None
        }
    } else {
        None
    }
}

pub open spec fn dec_opt_dapp(b: Seq<u8>, pos: int) -> Option<(Option<DAppView>, int)> {
    if 0 <= pos && pos + 1 <= b.len() {
        if b[pos] == 0 {
            Some((None, pos + 1))
        } else if b[pos] == 1 {
            match dec_dapp(b, pos + 1) {
                None => None,
                Some((x, p1)) => Some((Some(x), p1)),
            }
        } else {
            None
        }
    } else {
        None
    }
}

pub open spec fn dec_opt_trade(b: Seq<u8>, pos: int) -> Option<(Option<TradeView>, int)> {
    if 0 <= pos && pos + 1 <= b.len() {
        if b[pos] == 0 {
            Some((None, pos + 1))
        } else if b[pos] == 1 {
            match dec_trade(b, pos + 1) {
                None => None,
                Some((x, p1)) => Some((Some(x), p1)),
            }
        } else {
            None
        }
    } else {
        None
    }
}

pub open spec fn dec_opt_bonding(b: Seq<u8>, pos: int) -> Option<(Option<BondingCurveView>, int)> {
    if 0 <= pos && pos + 1 <= b.len() {
        if b[pos] == 0 {
            Some((None, pos + 1))
        } else if b[pos] == 1 {
            match dec_bonding(b, pos + 1) {
                None => None,
                Some((x, p1)) => Some((Some(x), p1)),
            }
        } else {
            None
        }
    } else {
        None
    }
}

pub open spec fn dec_event(b: Seq<u8>, pos: int) -> Option<(TradeEventView, int)> {
    match dec_opt_instruction(b, pos) {
        None => None,
        Some((instruction, p1)) => match dec_opt_block(b, p1) {
            None => None,
            Some((block, p2)) => match dec_opt_transaction(b, p2) {
                None => None,
                Some((transaction, p3)) => match dec_opt_dapp(b, p3) {
                    None => None,
                    Some((d_app, p4)) => match dec_opt_trade(b, p4) {
                        None => None,
                        Some((trade, p5)) => match dec_opt_bonding(b, p5) {
                            None => None,
                            Some((bonding_curve, p6)) => Some(
                                (
                                    TradeEventView {
                                        instruction,
                                        block,
                                        transaction,
                                        d_app,
                                        trade,
                                        bonding_curve,
                                    },
                                    p6,
                                ),
                            ),
                        },
                    },
                },
            },
        },
    }
}

// ---------- round trip: decoding what was encoded gives it back ----------

/// The first byte of a buffer region known to hold a non-empty encoding.
proof fn lemma_first_byte(b: Seq<u8>, pos: int, x: Seq<u8>)
    requires
        0 <= pos,
        pos + x.len() <= b.len(),
        b.subrange(pos, pos + x.len()) == x,
        x.len() >= 1,
    ensures
        b[pos] == x[0],
{
    assert(b.subrange(pos, pos + x.len())[0] == b[pos]);
}

/// Splitting a buffer region known to hold a concatenation.
proof fn lemma_concat_split(b: Seq<u8>, pos: int, x: Seq<u8>, y: Seq<u8>)
    requires
        0 <= pos,
        pos + x.len() + y.len() <= b.len(),
        b.subrange(pos, pos + x.len() + y.len()) == x + y,
    ensures
        b.subrange(pos, pos + x.len()) == x,
        b.subrange(pos + x.len(), pos + x.len() + y.len()) == y,
{
    let l = x.len() + y.len();
    assert forall|k: int| 0 <= k < x.len() implies b[pos + k] == x[k] by {
        assert(b.subrange(pos, pos + l)[k] == b[pos + k]);
        assert((x + y)[k] == x[k]);
    }
    assert(b.subrange(pos, pos + x.len()) =~= x);
    assert forall|k: int| 0 <= k < y.len() implies b[pos + x.len() + k] == y[k] by {
        assert(b.subrange(pos, pos + l)[x.len() + k] == b[pos + x.len() + k]);
        assert((x + y)[x.len() + k] == y[k]);
    }
    assert(b.subrange(pos + x.len(), pos + x.len() + y.len()) =~= y);
}

proof fn lemma_dec_bool(b: Seq<u8>, pos: int, x: bool)
    requires
        0 <= pos,
        pos + 1 <= b.len(),
        b.subrange(pos, pos + 1) == enc_bool(x),
    ensures
        dec_bool(b, pos) == Some((x, pos + 1)),
{
    assert(b[pos] == enc_bool(x)[0]);
}

proof fn lemma_dec_chain(b: Seq<u8>, pos: int, x: Chain)
    requires
        0 <= pos,
        pos + 1 <= b.len(),
        b.subrange(pos, pos + 1) == enc_chain(x),
    ensures
        dec_chain(b, pos) == Some((x, pos + 1)),
{
    assert(b[pos] == enc_chain(x)[0]);
}

proof fn lemma_dec_u32(b: Seq<u8>, pos: int, x: u32)
    requires
        0 <= pos,
        pos + 4 <= b.len(),
        b.subrange(pos, pos + 4) == enc_u32(x),
    ensures
        dec_u32(b, pos) == Some((x, pos + 4)),
{
    lemma_auto_spec_u32_to_from_le_bytes();
    assert(spec_u32_to_le_bytes(x).len() == 4);
    assert(spec_u32_from_le_bytes(spec_u32_to_le_bytes(x)) == x);
}

proof fn lemma_dec_u64(b: Seq<u8>, pos: int, x: u64)
    requires
        0 <= pos,
        pos + 8 <= b.len(),
        b.subrange(pos, pos + 8) == enc_u64(x),
    ensures
        dec_u64(b, pos) == Some((x, pos + 8)),
{
    lemma_auto_spec_u64_to_from_le_bytes();
    assert(spec_u64_to_le_bytes(x).len() == 8);
    assert(spec_u64_from_le_bytes(spec_u64_to_le_bytes(x)) == x);
}

proof fn lemma_dec_i64(b: Seq<u8>, pos: int, x: i64)
    requires
        0 <= pos,
        pos + enc_i64(x).len() <= b.len(),
        b.subrange(pos, pos + enc_i64(x).len()) == enc_i64(x),
    ensures
        enc_i64(x).len() == 9,
        dec_i64(b, pos) == Some((x, pos + 9)),
{
    lemma_auto_spec_u64_to_from_le_bytes();
    assert(enc_u64(mag64(x)).len() == 8);
    lemma_concat_split(b, pos, enc_bool(x < 0), enc_u64(mag64(x)));
    lemma_dec_bool(b, pos, x < 0);
    lemma_dec_u64(b, pos + 1, mag64(x));
}

proof fn lemma_dec_i32(b: Seq<u8>, pos: int, x: i32)
    requires
        0 <= pos,
        pos + enc_i32(x).len() <= b.len(),
        b.subrange(pos, pos + enc_i32(x).len()) == enc_i32(x),
    ensures
        enc_i32(x).len() == 5,
        dec_i32(b, pos) == Some((x, pos + 5)),
{
    lemma_auto_spec_u32_to_from_le_bytes();
    assert(enc_u32(mag32(x)).len() == 4);
    lemma_concat_split(b, pos, enc_bool(x < 0), enc_u32(mag32(x)));
    lemma_dec_bool(b, pos, x < 0);
    lemma_dec_u32(b, pos + 1, mag32(x));
}

proof fn lemma_enc_chars_len(s: Seq<char>)
    ensures
        enc_chars(s).len() == 4 * s.len(),
    decreases s.len(),
{
    lemma_auto_spec_u32_to_from_le_bytes();
    if s.len() > 0 {
        lemma_enc_chars_len(s.drop_first());
    }
}

proof fn lemma_dec_chars(b: Seq<u8>, pos: int, s: Seq<char>)
    requires
        0 <= pos,
        pos + enc_chars(s).len() <= b.len(),
        b.subrange(pos, pos + enc_chars(s).len()) == enc_chars(s),
    ensures
        dec_chars(b, pos, s.len() as int) == Some((s, pos + enc_chars(s).len())),
    decreases s.len(),
{
    lemma_auto_spec_u32_to_from_le_bytes();
    lemma_enc_chars_len(s);
    if s.len() > 0 {
        let c = s[0];
        let rest = s.drop_first();
        lemma_enc_chars_len(rest);
        lemma_concat_split(b, pos, enc_u32(c as u32), enc_chars(rest));
        lemma_dec_u32(b, pos, c as u32);
        vstd::utf8::char_is_scalar(c);
        assert(is_scalar_value(c as u32));
        lemma_dec_chars(b, pos + 4, rest);
        vstd::utf8::char_u32_cast(c, c as u32);
        assert(((c as u32) as char) == c);
        assert(seq![c] + rest =~= s);
    }
}

proof fn lemma_dec_str(b: Seq<u8>, pos: int, s: Seq<char>)
    requires
        0 <= pos,
        wf_str(s),
        pos + enc_str(s).len() <= b.len(),
        b.subrange(pos, pos + enc_str(s).len()) == enc_str(s),
    ensures
        dec_str(b, pos) == Some((s, pos + enc_str(s).len())),
{
    lemma_auto_spec_u64_to_from_le_bytes();
    lemma_enc_chars_len(s);
    lemma_concat_split(b, pos, enc_u64(s.len() as u64), enc_chars(s));
    lemma_dec_u64(b, pos, s.len() as u64);
    lemma_dec_chars(b, pos + 8, s);
}

pub open spec fn wf_str_list(l: Seq<Seq<char>>) -> bool {
    forall|i: int| 0 <= i < l.len() ==> wf_str(#[trigger] l[i])
}

proof fn lemma_dec_str_list(b: Seq<u8>, pos: int, l: Seq<Seq<char>>)
    requires
        0 <= pos,
        wf_str_list(l),
        pos + enc_str_list(l).len() <= b.len(),
        b.subrange(pos, pos + enc_str_list(l).len()) == enc_str_list(l),
    ensures
        dec_str_list(b, pos, l.len() as int) == Some((l, pos + enc_str_list(l).len())),
    decreases l.len(),
{
    if l.len() > 0 {
        let s = l[0];
        let rest = l.drop_first();
        lemma_concat_split(b, pos, enc_str(s), enc_str_list(rest));
        lemma_dec_str(b, pos, s);
        assert(wf_str_list(rest));
        lemma_dec_str_list(b, pos + enc_str(s).len(), rest);
        assert(seq![s] + rest =~= l);
    }
}

proof fn lemma_dec_instruction(b: Seq<u8>, pos: int, x: InstructionView)
    requires
        0 <= pos,
        wf_instruction(x),
        pos + enc_instruction(x).len() <= b.len(),
        b.subrange(pos, pos + enc_instruction(x).len()) == enc_instruction(x),
    ensures
        dec_instruction(b, pos) == Some((x, pos + enc_instruction(x).len())),
{
    lemma_auto_spec_u32_to_from_le_bytes();
    let r1 = enc_bool(x.is_inner_instruction) + (enc_u32(x.inner_instruction_index) + enc_str(
        x.type_,
    ));
    lemma_concat_split(b, pos, enc_u32(x.index), r1);
    lemma_dec_u32(b, pos, x.index);
    let p1 = pos + 4;
    let r2 = enc_u32(x.inner_instruction_index) + enc_str(x.type_);
    lemma_concat_split(b, p1, enc_bool(x.is_inner_instruction), r2);
    lemma_dec_bool(b, p1, x.is_inner_instruction);
    let p2 = p1 + 1;
    lemma_concat_split(b, p2, enc_u32(x.inner_instruction_index), enc_str(x.type_));
    lemma_dec_u32(b, p2, x.inner_instruction_index);
    let p3 = p2 + 4;
    lemma_dec_str(b, p3, x.type_);
}

proof fn lemma_dec_block(b: Seq<u8>, pos: int, x: BlockView)
    requires
        0 <= pos,
        wf_block(x),
        pos + enc_block(x).len() <= b.len(),
        b.subrange(pos, pos + enc_block(x).len()) == enc_block(x),
    ensures
        dec_block(b, pos) == Some((x, pos + enc_block(x).len())),
{
    lemma_auto_spec_u64_to_from_le_bytes();
    let r1 = enc_str(x.hash) + (enc_u64(x.height) + enc_u64(x.slot));
    lemma_concat_split(b, pos, enc_i64(x.timestamp), r1);
    lemma_dec_i64(b, pos, x.timestamp);
    let p1 = pos + enc_i64(x.timestamp).len();
    let r2 = enc_u64(x.height) + enc_u64(x.slot);
    lemma_concat_split(b, p1, enc_str(x.hash), r2);
    lemma_dec_str(b, p1, x.hash);
    let p2 = p1 + enc_str(x.hash).len();
    lemma_concat_split(b, p2, enc_u64(x.height), enc_u64(x.slot));
    lemma_dec_u64(b, p2, x.height);
    lemma_dec_u64(b, p2 + 8, x.slot);
}

proof fn lemma_dec_transaction(b: Seq<u8>, pos: int, x: TransactionView)
    requires
        0 <= pos,
        wf_transaction(x),
        pos + enc_transaction(x).len() <= b.len(),
        b.subrange(pos, pos + enc_transaction(x).len()) == enc_transaction(x),
    ensures
        dec_transaction(b, pos) == Some((x, pos + enc_transaction(x).len())),
{
    lemma_auto_spec_u64_to_from_le_bytes();
    lemma_auto_spec_u32_to_from_le_bytes();
    let r1 = enc_str(x.fee_payer) + (enc_u32(x.index) + (enc_str(x.signature) + (enc_str(x.signer)
        + enc_i32(x.status))));
    lemma_concat_split(b, pos, enc_u64(x.fee), r1);
    lemma_dec_u64(b, pos, x.fee);
    let p1 = pos + 8;
    let r2 = enc_u32(x.index) + (enc_str(x.signature) + (enc_str(x.signer) + enc_i32(x.status)));
    lemma_concat_split(b, p1, enc_str(x.fee_payer), r2);
    lemma_dec_str(b, p1, x.fee_payer);
    let p2 = p1 + enc_str(x.fee_payer).len();
    let r3 = enc_str(x.signature) + (enc_str(x.signer) + enc_i32(x.status));
    lemma_concat_split(b, p2, enc_u32(x.index), r3);
    lemma_dec_u32(b, p2, x.index);
    let p3 = p2 + 4;
    let r4 = enc_str(x.signer) + enc_i32(x.status);
    lemma_concat_split(b, p3, enc_str(x.signature), r4);
    lemma_dec_str(b, p3, x.signature);
    let p4 = p3 + enc_str(x.signature).len();
    lemma_concat_split(b, p4, enc_str(x.signer), enc_i32(x.status));
    lemma_dec_str(b, p4, x.signer);
    let p5 = p4 + enc_str(x.signer).len();
    lemma_dec_i32(b, p5, x.status);
}

proof fn lemma_dec_dapp(b: Seq<u8>, pos: int, x: DAppView)
    requires
        0 <= pos,
        wf_dapp(x),
        pos + enc_dapp(x).len() <= b.len(),
        b.subrange(pos, pos + enc_dapp(x).len()) == enc_dapp(x),
    ensures
        dec_dapp(b, pos) == Some((x, pos + enc_dapp(x).len())),
{
    let r1 = enc_str(x.inner_program_address) + enc_chain(x.chain);
    lemma_concat_split(b, pos, enc_str(x.program_address), r1);
    lemma_dec_str(b, pos, x.program_address);
    let p1 = pos + enc_str(x.program_address).len();
    lemma_concat_split(b, p1, enc_str(x.inner_program_address), enc_chain(x.chain));
    lemma_dec_str(b, p1, x.inner_program_address);
    let p2 = p1 + enc_str(x.inner_program_address).len();
    lemma_dec_chain(b, p2, x.chain);
}

proof fn lemma_dec_bonding(b: Seq<u8>, pos: int, x: BondingCurveView)
    requires
        0 <= pos,
        wf_bonding(x),
        pos + enc_bonding(x).len() <= b.len(),
        b.subrange(pos, pos + enc_bonding(x).len()) == enc_bonding(x),
    ensures
        dec_bonding(b, pos) == Some((x, pos + enc_bonding(x).len())),
{
    lemma_dec_str(b, pos, x.curve_address);
}

proof fn lemma_dec_trade(b: Seq<u8>, pos: int, x: TradeView)
    requires
        0 <= pos,
        wf_trade(x),
        pos + enc_trade(x).len() <= b.len(),
        b.subrange(pos, pos + enc_trade(x).len()) == enc_trade(x),
    ensures
        dec_trade(b, pos) == Some((x, pos + enc_trade(x).len())),
{
    let l = trade_fields(x);
    lemma_concat_split(b, pos, enc_bool(x.was_original_direction), enc_str_list(l));
    lemma_dec_bool(b, pos, x.was_original_direction);
    assert(wf_str_list(l));
    lemma_dec_str_list(b, pos + 1, l);
    assert(trade_from_fields(x.was_original_direction, l) == x);
}

/// Decoding an encoded optional field gives it back.
proof fn lemma_dec_opt_instruction(b: Seq<u8>, pos: int, o: Option<InstructionView>)
    requires
        0 <= pos,
        (o matches Some(x) ==> wf_instruction(x)),
        pos + enc_opt_instruction(o).len() <= b.len(),
        b.subrange(pos, pos + enc_opt_instruction(o).len()) == enc_opt_instruction(o),
    ensures
        dec_opt_instruction(b, pos) == Some((o, pos + enc_opt_instruction(o).len())),
{
    lemma_first_byte(b, pos, enc_opt_instruction(o));
    match o {
        None => {
            assert(b[pos] == 0);
        },
        Some(x) => {
            assert(b[pos] == 1);
            lemma_concat_split(b, pos, seq![1u8], enc_instruction(x));
            lemma_dec_instruction(b, pos + 1, x);
        },
    }
}

proof fn lemma_dec_opt_block(b: Seq<u8>, pos: int, o: Option<BlockView>)
    requires
        0 <= pos,
        (o matches Some(x) ==> wf_block(x)),
        pos + enc_opt_block(o).len() <= b.len(),
        b.subrange(pos, pos + enc_opt_block(o).len()) == enc_opt_block(o),
    ensures
        dec_opt_block(b, pos) == Some((o, pos + enc_opt_block(o).len())),
{
    lemma_first_byte(b, pos, enc_opt_block(o));
    match o {
        None => {
            assert(b[pos] == 0);
        },
        Some(x) => {
            assert(b[pos] == 1);
            lemma_concat_split(b, pos, seq![1u8], enc_block(x));
            lemma_dec_block(b, pos + 1, x);
        },
    }
}

proof fn lemma_dec_opt_transaction(b: Seq<u8>, pos: int, o: Option<TransactionView>)
    requires
        0 <= pos,
        (o matches Some(x) ==> wf_transaction(x)),
        pos + enc_opt_transaction(o).len() <= b.len(),
        b.subrange(pos, pos + enc_opt_transaction(o).len()) == enc_opt_transaction(o),
    ensures
        dec_opt_transaction(b, pos) == Some((o, pos + enc_opt_transaction(o).len())),
{
    lemma_first_byte(b, pos, enc_opt_transaction(o));
    match o {
        None => {
            assert(b[pos] == 0);
        },
        Some(x) => {
            assert(b[pos] == 1);
            lemma_concat_split(b, pos, seq![1u8], enc_transaction(x));
            lemma_dec_transaction(b, pos + 1, x);
        },
    }
}

proof fn lemma_dec_opt_dapp(b: Seq<u8>, pos: int, o: Option<DAppView>)
    requires
        0 <= pos,
        (o matches Some(x) ==> wf_dapp(x)),
        pos + enc_opt_dapp(o).len() <= b.len(),
        b.subrange(pos, pos + enc_opt_dapp(o).len()) == enc_opt_dapp(o),
    ensures
        dec_opt_dapp(b, pos) == Some((o, pos + enc_opt_dapp(o).len())),
{
    lemma_first_byte(b, pos, enc_opt_dapp(o));
    match o {
        None => {
            assert(b[pos] == 0);
        },
        Some(x) => {
            assert(b[pos] == 1);
            lemma_concat_split(b, pos, seq![1u8], enc_dapp(x));
            lemma_dec_dapp(b, pos + 1, x);
        },
    }
}

proof fn lemma_dec_opt_trade(b: Seq<u8>, pos: int, o: Option<TradeView>)
    requires
        0 <= pos,
        (o matches Some(x) ==> wf_trade(x)),
        pos + enc_opt_trade(o).len() <= b.len(),
        b.subrange(pos, pos + enc_opt_trade(o).len()) == enc_opt_trade(o),
    ensures
        dec_opt_trade(b, pos) == Some((o, pos + enc_opt_trade(o).len())),
{
    lemma_first_byte(b, pos, enc_opt_trade(o));
    match o {
        None => {
            assert(b[pos] == 0);
        },
        Some(x) => {
            assert(b[pos] == 1);
            lemma_concat_split(b, pos, seq![1u8], enc_trade(x));
            lemma_dec_trade(b, pos + 1, x);
        },
    }
}

proof fn lemma_dec_opt_bonding(b: Seq<u8>, pos: int, o: Option<BondingCurveView>)
    requires
        0 <= pos,
        (o matches Some(x) ==> wf_bonding(x)),
        pos + enc_opt_bonding(o).len() <= b.len(),
        b.subrange(pos, pos + enc_opt_bonding(o).len()) == enc_opt_bonding(o),
    ensures
        dec_opt_bonding(b, pos) == Some((o, pos + enc_opt_bonding(o).len())),
{
    lemma_first_byte(b, pos, enc_opt_bonding(o));
    match o {
        None => {
            assert(b[pos] == 0);
        },
        Some(x) => {
            assert(b[pos] == 1);
            lemma_concat_split(b, pos, seq![1u8], enc_bonding(x));
            lemma_dec_bonding(b, pos + 1, x);
        },
    }
}

/// Decoding an encoded event gives the event back, consuming exactly its
/// encoding: the codec round-trips on every well-formed event.
#[verifier::rlimit(100)]
pub proof fn lemma_dec_event(b: Seq<u8>, pos: int, e: TradeEventView)
    requires
        0 <= pos,
        wf_event(e),
        pos + enc_event(e).len() <= b.len(),
        b.subrange(pos, pos + enc_event(e).len()) == enc_event(e),
    ensures
        dec_event(b, pos) == Some((e, pos + enc_event(e).len())),
{
    let r1 = enc_opt_block(e.block) + (enc_opt_transaction(e.transaction) + (enc_opt_dapp(e.d_app)
        + (enc_opt_trade(e.trade) + enc_opt_bonding(e.bonding_curve))));
    lemma_concat_split(b, pos, enc_opt_instruction(e.instruction), r1);
    lemma_dec_opt_instruction(b, pos, e.instruction);
    let p1 = pos + enc_opt_instruction(e.instruction).len();
    let r2 = enc_opt_transaction(e.transaction) + (enc_opt_dapp(e.d_app) + (enc_opt_trade(e.trade)
        + enc_opt_bonding(e.bonding_curve)));
    lemma_concat_split(b, p1, enc_opt_block(e.block), r2);
    lemma_dec_opt_block(b, p1, e.block);
    let p2 = p1 + enc_opt_block(e.block).len();
    let r3 = enc_opt_dapp(e.d_app) + (enc_opt_trade(e.trade) + enc_opt_bonding(e.bonding_curve));
    lemma_concat_split(b, p2, enc_opt_transaction(e.transaction), r3);
    lemma_dec_opt_transaction(b, p2, e.transaction);
    let p3 = p2 + enc_opt_transaction(e.transaction).len();
    let r4 = enc_opt_trade(e.trade) + enc_opt_bonding(e.bonding_curve);
    lemma_concat_split(b, p3, enc_opt_dapp(e.d_app), r4);
    lemma_dec_opt_dapp(b, p3, e.d_app);
    let p4 = p3 + enc_opt_dapp(e.d_app).len();
    lemma_concat_split(b, p4, enc_opt_trade(e.trade), enc_opt_bonding(e.bonding_curve));
    lemma_dec_opt_trade(b, p4, e.trade);
    let p5 = p4 + enc_opt_trade(e.trade).len();
    lemma_dec_opt_bonding(b, p5, e.bonding_curve);
}

// ---------- executable encoder ----------

fn emit_bool(out: &mut Vec<u8>, x: bool)
    ensures
        final(out)@ == old(out)@ + enc_bool(x),
{
    let ghost base = out@;
    if x {
        out.push(1);
    } else {
        out.push(0);
    }
    proof {
        assert(out@ =~= base + enc_bool(x));
    }
}

fn emit_u32(out: &mut Vec<u8>, x: u32)
    ensures
        final(out)@ == old(out)@ + enc_u32(x),
{
    let mut v = u32_to_le_bytes(x);
    out.append(&mut v);
}

fn emit_u64(out: &mut Vec<u8>, x: u64)
    ensures
        final(out)@ == old(out)@ + enc_u64(x),
{
    let mut v = u64_to_le_bytes(x);
    out.append(&mut v);
}

fn emit_i64(out: &mut Vec<u8>, x: i64)
    ensures
        final(out)@ == old(out)@ + enc_i64(x),
{
    let ghost base = out@;
    emit_bool(out, x < 0);
    let mag: u64 = if x == i64::MIN {
        0x8000000000000000u64
    } else if x < 0 {
        (-x) as u64
    } else {
        x as u64
    };
    assert(mag == mag64(x));
    emit_u64(out, mag);
    proof {
        assert(out@ =~= base + enc_i64(x));
    }
}

fn emit_i32(out: &mut Vec<u8>, x: i32)
    ensures
        final(out)@ == old(out)@ + enc_i32(x),
{
    let ghost base = out@;
    emit_bool(out, x < 0);
    let mag: u32 = if x == i32::MIN {
        0x80000000u32
    } else if x < 0 {
        (-x) as u32
    } else {
        x as u32
    };
    assert(mag == mag32(x));
    emit_u32(out, mag);
    proof {
        assert(out@ =~= base + enc_i32(x));
    }
}

fn emit_chain(out: &mut Vec<u8>, x: Chain)
    ensures
        final(out)@ == old(out)@ + enc_chain(x),
{
    let ghost base = out@;
    let tag: u8 = match x {
        Chain::Unspecified => 0,
        Chain::Solana => 1,
        Chain::Bsc => 2,
    };
    out.push(tag);
    proof {
        assert(out@ =~= base + enc_chain(x));
    }
}

proof fn lemma_enc_chars_snoc(s: Seq<char>, c: char)
    ensures
        enc_chars(s.push(c)) == enc_chars(s) + enc_u32(c as u32),
    decreases s.len(),
{
    if s.len() == 0 {
        assert(s.push(c).drop_first() =~= Seq::<char>::empty());
        assert(s.push(c)[0] == c);
        assert(enc_chars(Seq::<char>::empty()) =~= Seq::<u8>::empty());
        assert(enc_chars(s.push(c)) =~= enc_u32(c as u32));
        assert(enc_chars(s) + enc_u32(c as u32) =~= enc_u32(c as u32));
    } else {
        lemma_enc_chars_snoc(s.drop_first(), c);
        assert(s.push(c).drop_first() =~= s.drop_first().push(c));
        assert(s.push(c)[0] == s[0]);
        assert(enc_u32(s[0] as u32) + (enc_chars(s.drop_first()) + enc_u32(c as u32)) =~= (enc_u32(
            s[0] as u32,
        ) + enc_chars(s.drop_first())) + enc_u32(c as u32));
    }
}

proof fn lemma_enc_str_list_snoc(l: Seq<Seq<char>>, s: Seq<char>)
    ensures
        enc_str_list(l.push(s)) == enc_str_list(l) + enc_str(s),
    decreases l.len(),
{
    if l.len() == 0 {
        assert(l.push(s).drop_first() =~= Seq::<Seq<char>>::empty());
        assert(l.push(s)[0] == s);
        assert(enc_str_list(Seq::<Seq<char>>::empty()) =~= Seq::<u8>::empty());
        assert(enc_str_list(l.push(s)) =~= enc_str(s));
        assert(enc_str_list(l) + enc_str(s) =~= enc_str(s));
    } else {
        lemma_enc_str_list_snoc(l.drop_first(), s);
        assert(l.push(s).drop_first() =~= l.drop_first().push(s));
        assert(l.push(s)[0] == l[0]);
        assert(enc_str(l[0]) + (enc_str_list(l.drop_first()) + enc_str(s)) =~= (enc_str(l[0])
            + enc_str_list(l.drop_first())) + enc_str(s));
    }
}

fn emit_str(out: &mut Vec<u8>, s: &String)
    ensures
        final(out)@ == old(out)@ + enc_str(s@),
{
    let ghost base = out@;
    let n = s.as_str().unicode_len();
    emit_u64(out, n as u64);
    let mut i: usize = 0;
    while i < n
        invariant
            0 <= i <= n,
            n == s@.len(),
            out@ =~= base + enc_u64(s@.len() as u64) + enc_chars(s@.take(i as int)),
        decreases n - i,
    {
        let c = s.as_str().get_char(i);
        proof {
            lemma_enc_chars_snoc(s@.take(i as int), c);
            assert(s@.take(i + 1) =~= s@.take(i as int).push(c));
        }
        emit_u32(out, c as u32);
        i = i + 1;
    }
    proof {
        assert(s@.take(n as int) =~= s@);
        assert(out@ =~= base + enc_str(s@));
    }
}

fn encode_instruction(out: &mut Vec<u8>, x: &Instruction)
    ensures
        final(out)@ == old(out)@ + enc_instruction(x@),
{
    let ghost base = out@;
    emit_u32(out, x.index);
    emit_bool(out, x.is_inner_instruction);
    emit_u32(out, x.inner_instruction_index);
    emit_str(out, &x.type_);
    proof {
        assert(out@ =~= base + enc_instruction(x@));
    }
}

fn encode_block(out: &mut Vec<u8>, x: &Block)
    ensures
        final(out)@ == old(out)@ + enc_block(x@),
{
    let ghost base = out@;
    emit_i64(out, x.timestamp);
    emit_str(out, &x.hash);
    emit_u64(out, x.height);
    emit_u64(out, x.slot);
    proof {
        assert(out@ =~= base + enc_block(x@));
    }
}

fn encode_transaction(out: &mut Vec<u8>, x: &Transaction)
    ensures
        final(out)@ == old(out)@ + enc_transaction(x@),
{
    let ghost base = out@;
    emit_u64(out, x.fee);
    emit_str(out, &x.fee_payer);
    emit_u32(out, x.index);
    emit_str(out, &x.signature);
    emit_str(out, &x.signer);
    emit_i32(out, x.status);
    proof {
        assert(out@ =~= base + enc_transaction(x@));
    }
}

fn encode_dapp(out: &mut Vec<u8>, x: &DApp)
    ensures
        final(out)@ == old(out)@ + enc_dapp(x@),
{
    let ghost base = out@;
    emit_str(out, &x.program_address);
    emit_str(out, &x.inner_program_address);
    emit_chain(out, x.chain);
    proof {
        assert(out@ =~= base + enc_dapp(x@));
    }
}

fn encode_bonding(out: &mut Vec<u8>, x: &BondingCurve)
    ensures
        final(out)@ == old(out)@ + enc_bonding(x@),
{
    emit_str(out, &x.curve_address);
}

fn encode_trade(out: &mut Vec<u8>, t: &Trade)
    ensures
        final(out)@ == old(out)@ + enc_trade(t@),
{
    let ghost base = out@;
    emit_bool(out, t.was_original_direction);
    let fields: Vec<String> = vec![
        t.token_a_address.clone(),
        t.token_b_address.clone(),
        t.user_a_token_account_address.clone(),
        t.user_a_account_owner_address.clone(),
        t.user_b_token_account_address.clone(),
        t.user_b_account_owner_address.clone(),
        t.user_a_amount.clone(),
        t.user_b_amount.clone(),
        t.user_a_pre_amount.clone(),
        t.user_a_post_amount.clone(),
        t.user_b_pre_amount.clone(),
        t.user_b_post_amount.clone(),
        t.pool_address.clone(),
        t.vault_a.clone(),
        t.vault_b.clone(),
        t.vault_a_owner_address.clone(),
        t.vault_b_owner_address.clone(),
        t.vault_a_amount.clone(),
        t.vault_b_amount.clone(),
        t.vault_a_pre_amount.clone(),
        t.vault_b_pre_amount.clone(),
        t.vault_a_post_amount.clone(),
        t.vault_b_post_amount.clone(),
        t.pool_config_address.clone(),
    ];
    proof {
        assert(fields.deep_view() =~= trade_fields(t@));
    }
    let total = fields.len();
    let mut k: usize = 0;
    while k < total
        invariant
            0 <= k <= total,
            total == 24,
            fields.deep_view() =~= trade_fields(t@),
            fields.deep_view().len() == 24,
            out@ =~= base + enc_bool(t@.was_original_direction) + enc_str_list(
                fields.deep_view().take(k as int),
            ),
        decreases total - k,
    {
        proof {
            lemma_enc_str_list_snoc(fields.deep_view().take(k as int), fields.deep_view()[k as int]);
            assert(fields.deep_view().take(k + 1) =~= fields.deep_view().take(k as int).push(
                fields.deep_view()[k as int],
            ));
        }
        emit_str(out, &fields[k]);
        k = k + 1;
    }
    proof {
        assert(fields.deep_view().take(24) =~= trade_fields(t@));
        assert(out@ =~= base + enc_trade(t@));
    }
}

fn emit_opt_instruction(out: &mut Vec<u8>, o: &Option<Instruction>)
    ensures
        final(out)@ == old(out)@ + enc_opt_instruction(o.deep_view()),
{
    let ghost base = out@;
    match o {
        None => {
            out.push(0);
            assert(out@ =~= base + enc_opt_instruction(o.deep_view()));
        },
        Some(x) => {
            out.push(1);
            encode_instruction(out, x);
            proof {
                assert(out@ =~= base + enc_opt_instruction(o.deep_view()));
            }
        },
    }
}

fn emit_opt_block(out: &mut Vec<u8>, o: &Option<Block>)
    ensures
        final(out)@ == old(out)@ + enc_opt_block(o.deep_view()),
{
    let ghost base = out@;
    match o {
        None => {
            out.push(0);
            assert(out@ =~= base + enc_opt_block(o.deep_view()));
        },
        Some(x) => {
            out.push(1);
            encode_block(out, x);
            proof {
                assert(out@ =~= base + enc_opt_block(o.deep_view()));
            }
        },
    }
}

fn emit_opt_transaction(out: &mut Vec<u8>, o: &Option<Transaction>)
    ensures
        final(out)@ == old(out)@ + enc_opt_transaction(o.deep_view()),
{
    let ghost base = out@;
    match o {
        None => {
            out.push(0);
            assert(out@ =~= base + enc_opt_transaction(o.deep_view()));
        },
        Some(x) => {
            out.push(1);
            encode_transaction(out, x);
            proof {
                assert(out@ =~= base + enc_opt_transaction(o.deep_view()));
            }
        },
    }
}

fn emit_opt_dapp(out: &mut Vec<u8>, o: &Option<DApp>)
    ensures
        final(out)@ == old(out)@ + enc_opt_dapp(o.deep_view()),
{
    let ghost base = out@;
    match o {
        None => {
            out.push(0);
            assert(out@ =~= base + enc_opt_dapp(o.deep_view()));
        },
        Some(x) => {
            out.push(1);
            encode_dapp(out, x);
            proof {
                assert(out@ =~= base + enc_opt_dapp(o.deep_view()));
            }
        },
    }
}

fn emit_opt_trade(out: &mut Vec<u8>, o: &Option<Trade>)
    ensures
        final(out)@ == old(out)@ + enc_opt_trade(o.deep_view()),
{
    let ghost base = out@;
    match o {
        None => {
            out.push(0);
            assert(out@ =~= base + enc_opt_trade(o.deep_view()));
        },
        Some(x) => {
            out.push(1);
            encode_trade(out, x);
            proof {
                assert(out@ =~= base + enc_opt_trade(o.deep_view()));
            }
        },
    }
}

fn emit_opt_bonding(out: &mut Vec<u8>, o: &Option<BondingCurve>)
    ensures
        final(out)@ == old(out)@ + enc_opt_bonding(o.deep_view()),
{
    let ghost base = out@;
    match o {
        None => {
            out.push(0);
            assert(out@ =~= base + enc_opt_bonding(o.deep_view()));
        },
        Some(x) => {
            out.push(1);
            encode_bonding(out, x);
            proof {
                assert(out@ =~= base + enc_opt_bonding(o.deep_view()));
            }
        },
    }
}

proof fn lemma_concat_six(a: Seq<u8>, b: Seq<u8>, c: Seq<u8>, d: Seq<u8>, e: Seq<u8>, f: Seq<u8>)
    ensures
        Seq::<u8>::empty() + a + b + c + d + e + f == a + (b + (c + (d + (e + f)))),
{
    assert(Seq::<u8>::empty() + a + b + c + d + e + f =~= a + (b + (c + (d + (e + f)))));
}

/// Serializes one event into its canonical byte form.
pub fn encode_trade_event(e: &TradeEvent) -> (out: Vec<u8>)
    ensures
        out@ == enc_event(e@),
{
    let mut out: Vec<u8> = Vec::new();
    emit_opt_instruction(&mut out, &e.instruction);
    emit_opt_block(&mut out, &e.block);
    emit_opt_transaction(&mut out, &e.transaction);
    emit_opt_dapp(&mut out, &e.d_app);
    emit_opt_trade(&mut out, &e.trade);
    emit_opt_bonding(&mut out, &e.bonding_curve);
    proof {
        lemma_concat_six(
            enc_opt_instruction(e@.instruction),
            enc_opt_block(e@.block),
            enc_opt_transaction(e@.transaction),
            enc_opt_dapp(e@.d_app),
            enc_opt_trade(e@.trade),
            enc_opt_bonding(e@.bonding_curve),
        );
    }
    out
}

// ---------- executable decoder ----------

fn read_bool(b: &Vec<u8>, pos: usize) -> (r: Option<(bool, usize)>)
    requires
        pos <= b@.len(),
    ensures
        r is Some <==> dec_bool(b@, pos as int) is Some,
        r matches Some(v) ==> dec_bool(b@, pos as int) == Some((v.0, v.1 as int)) && v.1
            <= b@.len(),
{
    if b.len() - pos < 1 {
        return None;
    }
    let byte = b[pos];
    if byte == 1 {
        Some((true, pos + 1))
    } else if byte == 0 {
        Some((false, pos + 1))
    } else {
        None
    }
}

fn read_chain(b: &Vec<u8>, pos: usize) -> (r: Option<(Chain, usize)>)
    requires
        pos <= b@.len(),
    ensures
        r is Some <==> dec_chain(b@, pos as int) is Some,
        r matches Some(v) ==> dec_chain(b@, pos as int) == Some((v.0, v.1 as int)) && v.1
            <= b@.len(),
{
    if b.len() - pos < 1 {
        return None;
    }
    let byte = b[pos];
    if byte == 0 {
        Some((Chain::Unspecified, pos + 1))
    } else if byte == 1 {
        Some((Chain::Solana, pos + 1))
    } else if byte == 2 {
        Some((Chain::Bsc, pos + 1))
    } else {
        None
    }
}

fn read_u32(b: &Vec<u8>, pos: usize) -> (r: Option<(u32, usize)>)
    requires
        pos <= b@.len(),
    ensures
        r is Some <==> dec_u32(b@, pos as int) is Some,
        r matches Some(v) ==> dec_u32(b@, pos as int) == Some((v.0, v.1 as int)) && v.1
            <= b@.len(),
{
    if b.len() - pos < 4 {
        return None;
    }
    assert(b@.len() <= usize::MAX);
    let mut tmp: Vec<u8> = Vec::new();
    let mut k: usize = 0;
    while k < 4
        invariant
            0 <= k <= 4,
            pos + 4 <= b@.len(),
            b@.len() <= usize::MAX,
            tmp@ =~= b@.subrange(pos as int, pos + k),
        decreases 4 - k,
    {
        let byte = b[pos + k];
        tmp.push(byte);
        proof {
            assert(tmp@ =~= b@.subrange(pos as int, pos + k + 1));
        }
        k = k + 1;
    }
    let x = u32_from_le_bytes(tmp.as_slice());
    Some((x, pos + 4))
}

fn read_u64(b: &Vec<u8>, pos: usize) -> (r: Option<(u64, usize)>)
    requires
        pos <= b@.len(),
    ensures
        r is Some <==> dec_u64(b@, pos as int) is Some,
        r matches Some(v) ==> dec_u64(b@, pos as int) == Some((v.0, v.1 as int)) && v.1
            <= b@.len(),
{
    if b.len() - pos < 8 {
        return None;
    }
    assert(b@.len() <= usize::MAX);
    let mut tmp: Vec<u8> = Vec::new();
    let mut k: usize = 0;
    while k < 8
        invariant
            0 <= k <= 8,
            pos + 8 <= b@.len(),
            b@.len() <= usize::MAX,
            tmp@ =~= b@.subrange(pos as int, pos + k),
        decreases 8 - k,
    {
        let byte = b[pos + k];
        tmp.push(byte);
        proof {
            assert(tmp@ =~= b@.subrange(pos as int, pos + k + 1));
        }
        k = k + 1;
    }
    let x = u64_from_le_bytes(tmp.as_slice());
    Some((x, pos + 8))
}

fn read_i64(b: &Vec<u8>, pos: usize) -> (r: Option<(i64, usize)>)
    requires
        pos <= b@.len(),
    ensures
        r is Some <==> dec_i64(b@, pos as int) is Some,
        r matches Some(v) ==> dec_i64(b@, pos as int) == Some((v.0, v.1 as int)) && v.1
            <= b@.len(),
{
    let (neg, p1) = match read_bool(b, pos) {
        None => {
            return None;
        },
        Some(v) => v,
    };
    let (mag, p2) = match read_u64(b, p1) {
        None => {
            return None;
        },
        Some(v) => v,
    };
    if neg {
        if mag > 0x8000000000000000u64 {
            None
        } else if mag == 0x8000000000000000u64 {
            Some((i64::MIN, p2))
        } else {
            Some((-(mag as i64), p2))
        }
    } else {
        if mag > 0x7fffffffffffffffu64 {
            None
        } else {
            Some((mag as i64, p2))
        }
    }
}

fn read_i32(b: &Vec<u8>, pos: usize) -> (r: Option<(i32, usize)>)
    requires
        pos <= b@.len(),
    ensures
        r is Some <==> dec_i32(b@, pos as int) is Some,
        r matches Some(v) ==> dec_i32(b@, pos as int) == Some((v.0, v.1 as int)) && v.1
            <= b@.len(),
{
    let (neg, p1) = match read_bool(b, pos) {
        None => {
            return None;
        },
        Some(v) => v,
    };
    let (mag, p2) = match read_u32(b, p1) {
        None => {
            return None;
        },
        Some(v) => v,
    };
    if neg {
        if mag > 0x80000000u32 {
            None
        } else if mag == 0x80000000u32 {
            Some((i32::MIN, p2))
        } else {
            Some((-(mag as i32), p2))
        }
    } else {
        if mag > 0x7fffffffu32 {
            None
        } else {
            Some((mag as i32, p2))
        }
    }
}

/// Fewer than four bytes per remaining character: character decoding fails.
proof fn lemma_dec_chars_insufficient(b: Seq<u8>, pos: int, count: int)
    requires
        0 <= pos,
        1 <= count,
        pos + 4 * count > b.len(),
    ensures
        dec_chars(b, pos, count) is None,
    decreases count,
{
    if pos + 4 <= b.len() {
        assert(count >= 2);
        lemma_dec_chars_insufficient(b, pos + 4, count - 1);
    }
}

fn read_str(b: &Vec<u8>, pos: usize) -> (r: Option<(String, usize)>)
    requires
        pos <= b@.len(),
    ensures
        r is Some <==> dec_str(b@, pos as int) is Some,
        r matches Some(v) ==> dec_str(b@, pos as int) == Some((v.0@, v.1 as int)) && v.1
            <= b@.len(),
{
    let (n, p1) = match read_u64(b, pos) {
        None => {
            return None;
        },
        Some(v) => v,
    };
    let rem = b.len() - p1;
    if n > (rem as u64) / 4 {
        proof {
            vstd::arithmetic::div_mod::lemma_fundamental_div_mod(rem as int, 4);
            lemma_dec_chars_insufficient(b@, p1 as int, n as int);
        }
        return None;
    }
    proof {
        vstd::arithmetic::div_mod::lemma_fundamental_div_mod(rem as int, 4);
    }
    let count = n as usize;
    let mut acc = String::new();
    let mut cur = p1;
    let mut done: usize = 0;
    while done < count
        invariant
            cur <= b@.len(),
            0 <= done <= count,
            count == n as int,
            dec_str(b@, pos as int) == dec_chars(b@, p1 as int, n as int),
            (dec_chars(b@, p1 as int, n as int) is Some <==> dec_chars(
                b@,
                cur as int,
                count - done,
            ) is Some),
            dec_chars(b@, p1 as int, n as int) matches Some(v) ==> (dec_chars(
                b@,
                cur as int,
                count - done,
            ) matches Some(w) && v.0 == acc@ + w.0 && v.1 == w.1),
        decreases count - done,
    {
        let (x, p) = match read_u32(b, cur) {
            None => {
                return None;
            },
            Some(v) => v,
        };
        let c = match char_from_u32(x) {
            None => {
                return None;
            },
            Some(c) => c,
        };
        let ghost old_acc = acc@;
        push_char(&mut acc, c);
        proof {
            if dec_chars(b@, cur as int, count - done) is Some {
                let w = dec_chars(b@, cur as int, count - done)->0;
                let inner = dec_chars(b@, p as int, count - done - 1);
                assert(inner is Some);
                let w2 = inner->0;
                assert(w.0 == seq![c] + w2.0);
                assert(old_acc + (seq![c] + w2.0) =~= (old_acc + seq![c]) + w2.0);
                assert(acc@ =~= old_acc + seq![c]);
            }
        }
        cur = p;
        done = done + 1;
    }
    proof {
        if dec_chars(b@, p1 as int, n as int) is Some {
            assert(acc@ + Seq::<char>::empty() =~= acc@);
        }
    }
    Some((acc, cur))
}

fn read_str_list(b: &Vec<u8>, pos: usize, count: usize) -> (r: Option<(Vec<String>, usize)>)
    requires
        pos <= b@.len(),
    ensures
        r is Some <==> dec_str_list(b@, pos as int, count as int) is Some,
        r matches Some(v) ==> dec_str_list(b@, pos as int, count as int) == Some(
            (v.0.deep_view(), v.1 as int),
        ) && v.1 <= b@.len() && v.0@.len() == count,
{
    let mut acc: Vec<String> = Vec::new();
    let mut cur = pos;
    let mut done: usize = 0;
    while done < count
        invariant
            cur <= b@.len(),
            0 <= done <= count,
            acc@.len() == done,
            (dec_str_list(b@, pos as int, count as int) is Some <==> dec_str_list(
                b@,
                cur as int,
                count - done,
            ) is Some),
            dec_str_list(b@, pos as int, count as int) matches Some(v) ==> (dec_str_list(
                b@,
                cur as int,
                count - done,
            ) matches Some(w) && v.0 == acc.deep_view() + w.0 && v.1 == w.1),
        decreases count - done,
    {
        let (st, p) = match read_str(b, cur) {
            None => {
                return None;
            },
            Some(v) => v,
        };
        let ghost old_acc = acc.deep_view();
        acc.push(st);
        proof {
            assert(acc.deep_view() =~= old_acc + seq![st@]);
            if dec_str_list(b@, cur as int, count - done) is Some {
                let w = dec_str_list(b@, cur as int, count - done)->0;
                let inner = dec_str_list(b@, p as int, count - done - 1);
                assert(inner is Some);
                let w2 = inner->0;
                assert(w.0 == seq![st@] + w2.0);
                assert(old_acc + (seq![st@] + w2.0) =~= (old_acc + seq![st@]) + w2.0);
            }
        }
        cur = p;
        done = done + 1;
    }
    proof {
        if dec_str_list(b@, pos as int, count as int) is Some {
            assert(acc.deep_view() + Seq::<Seq<char>>::empty() =~= acc.deep_view());
        }
    }
    Some((acc, cur))
}

fn read_instruction(b: &Vec<u8>, pos: usize) -> (r: Option<(Instruction, usize)>)
    requires
        pos <= b@.len(),
    ensures
        r is Some <==> dec_instruction(b@, pos as int) is Some,
        r matches Some(v) ==> dec_instruction(b@, pos as int) == Some((v.0@, v.1 as int)) && v.1
            <= b@.len(),
{
    let (index, p1) = match read_u32(b, pos) {
        None => {
            return None;
        },
        Some(v) => v,
    };
    let (inner, p2) = match read_bool(b, p1) {
        None => {
            return None;
        },
        Some(v) => v,
    };
    let (inner_index, p3) = match read_u32(b, p2) {
        None => {
            return None;
        },
        Some(v) => v,
    };
    let (type_, p4) = match read_str(b, p3) {
        None => {
            return None;
        },
        Some(v) => v,
    };
    Some(
        (
            Instruction {
                index,
                is_inner_instruction: inner,
                inner_instruction_index: inner_index,
                type_,
            },
            p4,
        ),
    )
}

fn read_block(b: &Vec<u8>, pos: usize) -> (r: Option<(Block, usize)>)
    requires
        pos <= b@.len(),
    ensures
        r is Some <==> dec_block(b@, pos as int) is Some,
        r matches Some(v) ==> dec_block(b@, pos as int) == Some((v.0@, v.1 as int)) && v.1
            <= b@.len(),
{
    let (timestamp, p1) = match read_i64(b, pos) {
        None => {
            return None;
        },
        Some(v) => v,
    };
    let (hash, p2) = match read_str(b, p1) {
        None => {
            return None;
        },
        Some(v) => v,
    };
    let (height, p3) = match read_u64(b, p2) {
        None => {
            return None;
        },
        Some(v) => v,
    };
    let (slot, p4) = match read_u64(b, p3) {
        None => {
            return None;
        },
        Some(v) => v,
    };
    Some((Block { timestamp, hash, height, slot }, p4))
}

fn read_transaction(b: &Vec<u8>, pos: usize) -> (r: Option<(Transaction, usize)>)
    requires
        pos <= b@.len(),
    ensures
        r is Some <==> dec_transaction(b@, pos as int) is Some,
        r matches Some(v) ==> dec_transaction(b@, pos as int) == Some((v.0@, v.1 as int)) && v.1
            <= b@.len(),
{
    let (fee, p1) = match read_u64(b, pos) {
        None => {
            return None;
        },
        Some(v) => v,
    };
    let (fee_payer, p2) = match read_str(b, p1) {
        None => {
            return None;
        },
        Some(v) => v,
    };
    let (index, p3) = match read_u32(b, p2) {
        None => {
            return None;
        },
        Some(v) => v,
    };
    let (signature, p4) = match read_str(b, p3) {
        None => {
            return None;
        },
        Some(v) => v,
    };
    let (signer, p5) = match read_str(b, p4) {
        None => {
            return None;
        },
        Some(v) => v,
    };
    let (status, p6) = match read_i32(b, p5) {
        None => {
            return None;
        },
        Some(v) => v,
    };
    Some((Transaction { fee, fee_payer, index, signature, signer, status }, p6))
}

fn read_dapp(b: &Vec<u8>, pos: usize) -> (r: Option<(DApp, usize)>)
    requires
        pos <= b@.len(),
    ensures
        r is Some <==> dec_dapp(b@, pos as int) is Some,
        r matches Some(v) ==> dec_dapp(b@, pos as int) == Some((v.0@, v.1 as int)) && v.1
            <= b@.len(),
{
    let (program_address, p1) = match read_str(b, pos) {
        None => {
            return None;
        },
        Some(v) => v,
    };
    let (inner_program_address, p2) = match read_str(b, p1) {
        None => {
            return None;
        },
        Some(v) => v,
    };
    let (chain, p3) = match read_chain(b, p2) {
        None => {
            return None;
        },
        Some(v) => v,
    };
    Some((DApp { program_address, inner_program_address, chain }, p3))
}

fn read_bonding(b: &Vec<u8>, pos: usize) -> (r: Option<(BondingCurve, usize)>)
    requires
        pos <= b@.len(),
    ensures
        r is Some <==> dec_bonding(b@, pos as int) is Some,
        r matches Some(v) ==> dec_bonding(b@, pos as int) == Some((v.0@, v.1 as int)) && v.1
            <= b@.len(),
{
    let (curve_address, p1) = match read_str(b, pos) {
        None => {
            return None;
        },
        Some(v) => v,
    };
    Some((BondingCurve { curve_address }, p1))
}

fn read_trade(b: &Vec<u8>, pos: usize) -> (r: Option<(Trade, usize)>)
    requires
        pos <= b@.len(),
    ensures
        r is Some <==> dec_trade(b@, pos as int) is Some,
        r matches Some(v) ==> dec_trade(b@, pos as int) == Some((v.0@, v.1 as int)) && v.1
            <= b@.len(),
{
    let (was, p1) = match read_bool(b, pos) {
        None => {
            return None;
        },
        Some(v) => v,
    };
    let (fields, p2) = match read_str_list(b, p1, 24) {
        None => {
            return None;
        },
        Some(v) => v,
    };
    let t = Trade {
        token_a_address: fields[0].clone(),
        token_b_address: fields[1].clone(),
        user_a_token_account_address: fields[2].clone(),
        user_a_account_owner_address: fields[3].clone(),
        user_b_token_account_address: fields[4].clone(),
        user_b_account_owner_address: fields[5].clone(),
        user_a_amount: fields[6].clone(),
        user_b_amount: fields[7].clone(),
        user_a_pre_amount: fields[8].clone(),
        user_a_post_amount: fields[9].clone(),
        user_b_pre_amount: fields[10].clone(),
        user_b_post_amount: fields[11].clone(),
        was_original_direction: was,
        pool_address: fields[12].clone(),
        vault_a: fields[13].clone(),
        vault_b: fields[14].clone(),
        vault_a_owner_address: fields[15].clone(),
        vault_b_owner_address: fields[16].clone(),
        vault_a_amount: fields[17].clone(),
        vault_b_amount: fields[18].clone(),
        vault_a_pre_amount: fields[19].clone(),
        vault_b_pre_amount: fields[20].clone(),
        vault_a_post_amount: fields[21].clone(),
        vault_b_post_amount: fields[22].clone(),
        pool_config_address: fields[23].clone(),
    };
    proof {
        assert(t@ == trade_from_fields(was, fields.deep_view()));
    }
    Some((t, p2))
}

/// Deserializes one event from its canonical byte form; None when the bytes
/// do not hold a valid encoding.
pub fn decode_trade_event(b: &Vec<u8>) -> (r: Option<TradeEvent>)
    ensures
        r is Some <==> dec_event(b@, 0) is Some,
        r matches Some(ev) ==> (dec_event(b@, 0) matches Some(w) && ev@ == w.0),
{
    let (instruction, p1): (Option<Instruction>, usize) = {
        match read_bool(b, 0) {
            None => {
                return None;
            },
            Some((tag, p)) => if tag {
                match read_instruction(b, p) {
                    None => {
                        return None;
                    },
                    Some((x, q)) => (Some(x), q),
                }
            } else {
                (None, p)
            },
        }
    };
    let (block, p2): (Option<Block>, usize) = {
        match read_bool(b, p1) {
            None => {
                return None;
            },
            Some((tag, p)) => if tag {
                match read_block(b, p) {
                    None => {
                        return None;
                    },
                    Some((x, q)) => (Some(x), q),
                }
            } else {
                (None, p)
            },
        }
    };
    let (transaction, p3): (Option<Transaction>, usize) = {
        match read_bool(b, p2) {
            None => {
                return None;
            },
            Some((tag, p)) => if tag {
                match read_transaction(b, p) {
                    None => {
                        return None;
                    },
                    Some((x, q)) => (Some(x), q),
                }
            } else {
                (None, p)
            },
        }
    };
    let (d_app, p4): (Option<DApp>, usize) = {
        match read_bool(b, p3) {
            None => {
                return None;
            },
            Some((tag, p)) => if tag {
                match read_dapp(b, p) {
                    None => {
                        return None;
                    },
                    Some((x, q)) => (Some(x), q),
                }
            } else {
                (None, p)
            },
        }
    };
    let (trade, p5): (Option<Trade>, usize) = {
        match read_bool(b, p4) {
            None => {
                return None;
            },
            Some((tag, p)) => if tag {
                match read_trade(b, p) {
                    None => {
                        return None;
                    },
                    Some((x, q)) => (Some(x), q),
                }
            } else {
                (None, p)
            },
        }
    };
    let (bonding_curve, _p6): (Option<BondingCurve>, usize) = {
        match read_bool(b, p5) {
            None => {
                return None;
            },
            Some((tag, p)) => if tag {
                match read_bonding(b, p) {
                    None => {
                        return None;
                    },
                    Some((x, q)) => (Some(x), q),
                }
            } else {
                (None, p)
            },
        }
    };
    Some(TradeEvent { instruction, block, transaction, d_app, trade, bonding_curve })
}

/// The codec round-trips: decoding an encoded event reproduces it exactly.
pub proof fn lemma_codec_round_trip(e: TradeEventView)
    requires
        wf_event(e),
    ensures
        dec_event(enc_event(e), 0) == Some((e, enc_event(e).len() as int)),
{
    let b = enc_event(e);
    assert(b.subrange(0, b.len() as int) =~= b);
    lemma_dec_event(b, 0, e);
}

} // verus!
