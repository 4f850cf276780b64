//! Account-model protocol decoder (Raydium-style): a swap leaves its evidence
//! in the pre- and post-instruction token-balance snapshots of the four
//! protocol-convention accounts, and the decoder reconciles those snapshots
//! into one canonical trade.

use vstd::prelude::*;
use crate::numeric::{parse_or_zero, sat128, sat_add, sat_sub, parse_i128_or_zero};
use crate::schema::{
    Block, BlockView, Chain, DApp, DAppView, Instruction, InstructionView, Trade, TradeEvent,
    TradeEventView, TradeView, Transaction, TransactionView,
};
use crate::text::{int_to_dec, i128_to_string, str_eq};

verus! {

/// The program identifier whose instructions this decoder recognizes.
pub open spec fn raydium_program_id() -> Seq<char> {
    "675kPX9MHTjS2zt1qfr1NYHuzeLXfQM9H24wFSUt1Mp8"@
}

/// The program identifier as a string slice.
pub fn raydium_program_id_str() -> (s: &'static str)
    ensures
        s@ == raydium_program_id(),
{
    "675kPX9MHTjS2zt1qfr1NYHuzeLXfQM9H24wFSUt1Mp8"
}

/// One token-balance snapshot entry: the owning account and its textual
/// balance.
#[derive(Clone, Debug, PartialEq)]
pub struct TokenBalance {
    pub account: String,
    pub ui_token_amount: String,
}

pub struct TokenBalanceView {
    pub account: Seq<char>,
    pub ui_token_amount: Seq<char>,
}

impl View for TokenBalance {
    type V = TokenBalanceView;

    open spec fn view(&self) -> TokenBalanceView {
        TokenBalanceView { account: self.account@, ui_token_amount: self.ui_token_amount@ }
    }
}

impl DeepView for TokenBalance {
    type V = TokenBalanceView;

    open spec fn deep_view(&self) -> TokenBalanceView {
        self.view()
    }
}

/// Folds the pre-balance entries for `acct` into `acc`, each matching entry
/// subtracting its balance, saturating in the signed 128-bit domain.
pub open spec fn net_after_pre(pre: Seq<TokenBalanceView>, acct: Seq<char>, acc: int) -> int
    decreases pre.len(),
{
    if pre.len() == 0 {
        acc
    } else {
        let acc2 = if pre[0].account == acct {
            sat128(acc - parse_or_zero(pre[0].ui_token_amount))
        } else {
            acc
        };
        net_after_pre(pre.drop_first(), acct, acc2)
    }
}

/// Folds the post-balance entries for `acct` into `acc`, each matching entry
/// adding its balance, saturating in the signed 128-bit domain.
pub open spec fn net_after_post(post: Seq<TokenBalanceView>, acct: Seq<char>, acc: int) -> int
    decreases post.len(),
{
    if post.len() == 0 {
        acc
    } else {
        let acc2 = if post[0].account == acct {
            sat128(acc + parse_or_zero(post[0].ui_token_amount))
        } else {
            acc
        };
        net_after_post(post.drop_first(), acct, acc2)
    }
}

/// Net balance delta of `acct` across the instruction: post-balances added,
/// pre-balances subtracted, over every matching snapshot entry.
pub open spec fn net_delta(
    pre: Seq<TokenBalanceView>,
    post: Seq<TokenBalanceView>,
    acct: Seq<char>,
) -> int {
    net_after_post(post, acct, net_after_pre(pre, acct, 0))
}

/// The balance of the latest snapshot entry for `acct`, zero when no entry
/// matches.
pub open spec fn latest_balance(entries: Seq<TokenBalanceView>, acct: Seq<char>) -> int
    decreases entries.len(),
{
    if entries.len() == 0 {
        0
    } else if entries.last().account == acct {
        parse_or_zero(entries.last().ui_token_amount)
    } else {
        latest_balance(entries.drop_last(), acct)
    }
}

/// For a single pre/post snapshot pair of one account, the net delta is
/// exactly the post-balance minus the pre-balance: the wide-integer domain
/// loses nothing for magnitudes up to 10^30.
pub proof fn lemma_net_delta_single_pair(
    pre: TokenBalanceView,
    post: TokenBalanceView,
    acct: Seq<char>,
)
    requires
        pre.account == acct,
        post.account == acct,
        -1000000000000000000000000000000 <= parse_or_zero(pre.ui_token_amount)
            <= 1000000000000000000000000000000,
        -1000000000000000000000000000000 <= parse_or_zero(post.ui_token_amount)
            <= 1000000000000000000000000000000,
    ensures
        net_delta(seq![pre], seq![post], acct) == parse_or_zero(post.ui_token_amount)
            - parse_or_zero(pre.ui_token_amount),
{
    let p = parse_or_zero(pre.ui_token_amount);
    let q = parse_or_zero(post.ui_token_amount);
    assert(seq![pre].drop_first() =~= Seq::<TokenBalanceView>::empty());
    assert(seq![post].drop_first() =~= Seq::<TokenBalanceView>::empty());
    assert(seq![pre][0] == pre);
    assert(seq![post][0] == post);
    assert(net_after_pre(Seq::<TokenBalanceView>::empty(), acct, sat128(0 - p)) == sat128(0 - p));
    assert(net_after_pre(seq![pre], acct, 0) == sat128(0 - p));
    assert(sat128(0 - p) == -p);
    assert(net_after_post(Seq::<TokenBalanceView>::empty(), acct, sat128(-p + q)) == sat128(
        -p + q,
    ));
    assert(net_after_post(seq![post], acct, -p) == sat128(-p + q));
}

/// The trade this decoder produces: legs named after the two vaults, user
/// deltas reconciled from the snapshots, vault pre/post balances taken from
/// the latest matching entries. Owner addresses are not resolvable from the
/// given inputs and stay empty.
pub open spec fn raydium_trade_view(
    accounts: Seq<Seq<char>>,
    pre: Seq<TokenBalanceView>,
    post: Seq<TokenBalanceView>,
) -> TradeView
    recommends
        accounts.len() >= 4,
{
    let user_a = accounts[0];
    let user_b = accounts[1];
    let vault_a = accounts[2];
    let vault_b = accounts[3];
    let va_pre = latest_balance(pre, vault_a);
    let vb_pre = latest_balance(pre, vault_b);
    let va_post = latest_balance(post, vault_a);
    let vb_post = latest_balance(post, vault_b);
    TradeView {
        token_a_address: vault_a,
        token_b_address: vault_b,
        user_a_token_account_address: user_a,
        user_a_account_owner_address: Seq::empty(),
        user_b_token_account_address: user_b,
        user_b_account_owner_address: Seq::empty(),
        user_a_amount: int_to_dec(net_delta(pre, post, user_a)),
        user_b_amount: int_to_dec(net_delta(pre, post, user_b)),
        user_a_pre_amount: int_to_dec(va_pre),
        user_a_post_amount: int_to_dec(va_post),
        user_b_pre_amount: int_to_dec(vb_pre),
        user_b_post_amount: int_to_dec(vb_post),
        was_original_direction: true,
        pool_address: raydium_program_id(),
        vault_a: vault_a,
        vault_b: vault_b,
        vault_a_owner_address: Seq::empty(),
        vault_b_owner_address: Seq::empty(),
        vault_a_amount: int_to_dec(sat128(va_post - va_pre)),
        vault_b_amount: int_to_dec(sat128(vb_post - vb_pre)),
        vault_a_pre_amount: int_to_dec(va_pre),
        vault_b_pre_amount: int_to_dec(vb_pre),
        vault_a_post_amount: int_to_dec(va_post),
        vault_b_post_amount: int_to_dec(vb_post),
        pool_config_address: Seq::empty(),
    }
}

/// The full event: the trade plus what little context an account-model
/// instruction carries by itself; block and transaction context is the
/// dispatcher's to enrich.
pub open spec fn raydium_event_view(
    instruction_index: u32,
    accounts: Seq<Seq<char>>,
    pre: Seq<TokenBalanceView>,
    post: Seq<TokenBalanceView>,
) -> TradeEventView
    recommends
        accounts.len() >= 4,
{
    TradeEventView {
        instruction: Some(
            InstructionView {
                index: instruction_index,
                is_inner_instruction: false,
                inner_instruction_index: 0,
                type_: "raydium_swap"@,
            },
        ),
        block: Some(BlockView { timestamp: 0, hash: Seq::empty(), height: 0, slot: 0 }),
        transaction: Some(
            TransactionView {
                fee: 0,
                fee_payer: Seq::empty(),
                index: 0,
                signature: Seq::empty(),
                signer: Seq::empty(),
                status: 1,
            },
        ),
        d_app: Some(
            DAppView {
                program_address: raydium_program_id(),
                inner_program_address: Seq::empty(),
                chain: Chain::Solana,
            },
        ),
        trade: Some(raydium_trade_view(accounts, pre, post)),
        bonding_curve: None,
    }
}

/// Decodes one candidate instruction against the balance snapshots.
///
/// No event exists exactly when the invoking program is not this protocol or
/// fewer than four accounts are referenced; positions 0 to 3 are, by protocol
/// convention, user token account A, user token account B, pool vault A and
/// pool vault B. The instruction payload is opaque to balance-delta decoding.
#[allow(unused_variables)]
pub fn parse_trade_instruction(
    instruction_index: u32,
    program_id: &str,
    instruction_data: &[u8],
    accounts: &Vec<String>,
    pre_token_balances: &Vec<TokenBalance>,
    post_token_balances: &Vec<TokenBalance>,
) -> (r: Option<TradeEvent>)
    ensures
        (r is Some) <==> (program_id@ == raydium_program_id() && accounts@.len() >= 4),
        r is Some ==> (r->0)@ == raydium_event_view(
            instruction_index,
            accounts.deep_view(),
            pre_token_balances.deep_view(),
            post_token_balances.deep_view(),
        ),
{
    if !str_eq(program_id, raydium_program_id_str()) {
        return None;
    }
    if accounts.len() < 4 {
        return None;
    }
    let ghost accts = accounts.deep_view();
    let ghost pre_v = pre_token_balances.deep_view();
    let ghost post_v = post_token_balances.deep_view();
    let user_a = accounts[0].clone();
    let user_b = accounts[1].clone();
    let vault_a = accounts[2].clone();
    let vault_b = accounts[3].clone();

    let mut user_a_amount: i128 = 0;
    let mut user_b_amount: i128 = 0;
    let mut vault_a_pre: i128 = 0;
    let mut vault_b_pre: i128 = 0;
    let mut vault_a_post: i128 = 0;
    let mut vault_b_post: i128 = 0;

    let pre_len = pre_token_balances.len();
    proof {
        assert(pre_v.skip(0) =~= pre_v);
        assert(pre_v.take(0) =~= Seq::<TokenBalanceView>::empty());
    }
    let mut i: usize = 0;
    while i < pre_len
        invariant
            0 <= i <= pre_len,
            pre_len == pre_v.len(),
            pre_v == pre_token_balances.deep_view(),
            user_a@ == accts[0],
            user_b@ == accts[1],
            vault_a@ == accts[2],
            vault_b@ == accts[3],
            accts.len() >= 4,
            net_after_pre(pre_v, accts[0], 0) == net_after_pre(
                pre_v.skip(i as int),
                accts[0],
                user_a_amount as int,
            ),
            net_after_pre(pre_v, accts[1], 0) == net_after_pre(
                pre_v.skip(i as int),
                accts[1],
                user_b_amount as int,
            ),
            vault_a_pre as int == latest_balance(pre_v.take(i as int), accts[2]),
            vault_b_pre as int == latest_balance(pre_v.take(i as int), accts[3]),
        decreases pre_len - i,
    {
        let b = &pre_token_balances[i];
        assert(b@ == pre_v[i as int]);
        let v = parse_i128_or_zero(b.ui_token_amount.as_str());
        proof {
            assert(pre_v.skip(i as int)[0] == pre_v[i as int]);
            assert(pre_v.skip(i as int).drop_first() =~= pre_v.skip(i + 1));
            assert(pre_v.take(i + 1).drop_last() =~= pre_v.take(i as int));
            assert(pre_v.take(i + 1).last() == pre_v[i as int]);
        }
        if b.account == user_a {
            user_a_amount = sat_sub(user_a_amount, v);
        }
        if b.account == user_b {
            user_b_amount = sat_sub(user_b_amount, v);
        }
        if b.account == vault_a {
            vault_a_pre = v;
        }
        if b.account == vault_b {
            vault_b_pre = v;
        }
        i = i + 1;
    }
    proof {
        assert(pre_v.skip(pre_len as int) =~= Seq::<TokenBalanceView>::empty());
        assert(pre_v.take(pre_len as int) =~= pre_v);
    }

    let post_len = post_token_balances.len();
    proof {
        assert(post_v.skip(0) =~= post_v);
        assert(post_v.take(0) =~= Seq::<TokenBalanceView>::empty());
    }
    let mut j: usize = 0;
    while j < post_len
        invariant
            0 <= j <= post_len,
            post_len == post_v.len(),
            post_v == post_token_balances.deep_view(),
            user_a@ == accts[0],
            user_b@ == accts[1],
            vault_a@ == accts[2],
            vault_b@ == accts[3],
            accts.len() >= 4,
            net_after_post(post_v, accts[0], net_after_pre(pre_v, accts[0], 0)) == net_after_post(
                post_v.skip(j as int),
                accts[0],
                user_a_amount as int,
            ),
            net_after_post(post_v, accts[1], net_after_pre(pre_v, accts[1], 0)) == net_after_post(
                post_v.skip(j as int),
                accts[1],
                user_b_amount as int,
            ),
            vault_a_pre as int == latest_balance(pre_v, accts[2]),
            vault_b_pre as int == latest_balance(pre_v, accts[3]),
            vault_a_post as int == latest_balance(post_v.take(j as int), accts[2]),
            vault_b_post as int == latest_balance(post_v.take(j as int), accts[3]),
        decreases post_len - j,
    {
        let b = &post_token_balances[j];
        assert(b@ == post_v[j as int]);
        let v = parse_i128_or_zero(b.ui_token_amount.as_str());
        proof {
            assert(post_v.skip(j as int)[0] == post_v[j as int]);
            assert(post_v.skip(j as int).drop_first() =~= post_v.skip(j + 1));
            assert(post_v.take(j + 1).drop_last() =~= post_v.take(j as int));
            assert(post_v.take(j + 1).last() == post_v[j as int]);
        }
        if b.account == user_a {
            user_a_amount = sat_add(user_a_amount, v);
        }
        if b.account == user_b {
            user_b_amount = sat_add(user_b_amount, v);
        }
        if b.account == vault_a {
            vault_a_post = v;
        }
        if b.account == vault_b {
            vault_b_post = v;
        }
        j = j + 1;
    }
    proof {
        assert(post_v.skip(post_len as int) =~= Seq::<TokenBalanceView>::empty());
        assert(post_v.take(post_len as int) =~= post_v);
        assert(user_a_amount as int == net_delta(pre_v, post_v, accts[0]));
        assert(user_b_amount as int == net_delta(pre_v, post_v, accts[1]));
    }

    let vault_a_amount = sat_sub(vault_a_post, vault_a_pre);
    let vault_b_amount = sat_sub(vault_b_post, vault_b_pre);

    let trade = Trade {
        token_a_address: vault_a.clone(),
        token_b_address: vault_b.clone(),
        user_a_token_account_address: user_a,
        user_a_account_owner_address: String::new(),
        user_b_token_account_address: user_b,
        user_b_account_owner_address: String::new(),
        user_a_amount: i128_to_string(user_a_amount),
        user_b_amount: i128_to_string(user_b_amount),
        user_a_pre_amount: i128_to_string(vault_a_pre),
        user_a_post_amount: i128_to_string(vault_a_post),
        user_b_pre_amount: i128_to_string(vault_b_pre),
        user_b_post_amount: i128_to_string(vault_b_post),
        was_original_direction: true,
        pool_address: String::from_str(raydium_program_id_str()),
        vault_a: vault_a,
        vault_b: vault_b,
        vault_a_owner_address: String::new(),
        vault_b_owner_address: String::new(),
        vault_a_amount: i128_to_string(vault_a_amount),
        vault_b_amount: i128_to_string(vault_b_amount),
        vault_a_pre_amount: i128_to_string(vault_a_pre),
        vault_b_pre_amount: i128_to_string(vault_b_pre),
        vault_a_post_amount: i128_to_string(vault_a_post),
        vault_b_post_amount: i128_to_string(vault_b_post),
        pool_config_address: String::new(),
    };

    let event = TradeEvent {
        instruction: Some(
            Instruction {
                index: instruction_index,
                is_inner_instruction: false,
                inner_instruction_index: 0,
                type_: String::from_str("raydium_swap"),
            },
        ),
        block: Some(Block { timestamp: 0, hash: String::new(), height: 0, slot: 0 }),
        transaction: Some(
            Transaction {
                fee: 0,
                fee_payer: String::new(),
                index: 0,
                signature: String::new(),
                signer: String::new(),
                status: 1,
            },
        ),
        d_app: Some(
            DApp {
                program_address: String::from_str(raydium_program_id_str()),
                inner_program_address: String::new(),
                chain: Chain::Solana,
            },
        ),
        trade: Some(trade),
        bonding_curve: None,
    };
    assert(event@ == raydium_event_view(instruction_index, accts, pre_v, post_v));
    Some(event)
}

} // verus!
