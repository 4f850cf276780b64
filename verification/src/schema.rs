//! The canonical, chain-agnostic trade schema: one `TradeEvent` per decoded
//! swap, batched per block as `TradeEvents`. Pure data; every type has a ghost
//! view over character sequences so contracts can pin field contents down.

use vstd::prelude::*;

verus! {

/// Chain identifier of the venue a trade was observed on.
#[derive(Clone, Copy, Debug, PartialEq, Eq, Structural)]
pub enum Chain {
    Unspecified,
    Solana,
    Bsc,
}

/// One normalized swap: the two token legs, the counterparty accounts with
/// their signed amount deltas, and the pool-side vaults with their pre/post
/// balances. Every amount field holds a base-10 signed integer string.
#[derive(Clone, Debug, PartialEq)]
pub struct Trade {
    pub token_a_address: String,
    pub token_b_address: String,
    pub user_a_token_account_address: String,
    pub user_a_account_owner_address: String,
    pub user_b_token_account_address: String,
    pub user_b_account_owner_address: String,
    pub user_a_amount: String,
    pub user_b_amount: String,
    pub user_a_pre_amount: String,
    pub user_a_post_amount: String,
    pub user_b_pre_amount: String,
    pub user_b_post_amount: String,
    pub was_original_direction: bool,
    pub pool_address: String,
    pub vault_a: String,
    pub vault_b: String,
    pub vault_a_owner_address: String,
    pub vault_b_owner_address: String,
    pub vault_a_amount: String,
    pub vault_b_amount: String,
    pub vault_a_pre_amount: String,
    pub vault_b_pre_amount: String,
    pub vault_a_post_amount: String,
    pub vault_b_post_amount: String,
    pub pool_config_address: String,
}

pub struct TradeView {
    pub token_a_address: Seq<char>,
    pub token_b_address: Seq<char>,
    pub user_a_token_account_address: Seq<char>,
    pub user_a_account_owner_address: Seq<char>,
    pub user_b_token_account_address: Seq<char>,
    pub user_b_account_owner_address: Seq<char>,
    pub user_a_amount: Seq<char>,
    pub user_b_amount: Seq<char>,
    pub user_a_pre_amount: Seq<char>,
    pub user_a_post_amount: Seq<char>,
    pub user_b_pre_amount: Seq<char>,
    pub user_b_post_amount: Seq<char>,
    pub was_original_direction: bool,
    pub pool_address: Seq<char>,
    pub vault_a: Seq<char>,
    pub vault_b: Seq<char>,
    pub vault_a_owner_address: Seq<char>,
    pub vault_b_owner_address: Seq<char>,
    pub vault_a_amount: Seq<char>,
    pub vault_b_amount: Seq<char>,
    pub vault_a_pre_amount: Seq<char>,
    pub vault_b_pre_amount: Seq<char>,
    pub vault_a_post_amount: Seq<char>,
    pub vault_b_post_amount: Seq<char>,
    pub pool_config_address: Seq<char>,
}

impl View for Trade {
    type V = TradeView;

    open spec fn view(&self) -> TradeView {
        TradeView {
            token_a_address: self.token_a_address@,
            token_b_address: self.token_b_address@,
            user_a_token_account_address: self.user_a_token_account_address@,
            user_a_account_owner_address: self.user_a_account_owner_address@,
            user_b_token_account_address: self.user_b_token_account_address@,
            user_b_account_owner_address: self.user_b_account_owner_address@,
            user_a_amount: self.user_a_amount@,
            user_b_amount: self.user_b_amount@,
            user_a_pre_amount: self.user_a_pre_amount@,
            user_a_post_amount: self.user_a_post_amount@,
            user_b_pre_amount: self.user_b_pre_amount@,
            user_b_post_amount: self.user_b_post_amount@,
            was_original_direction: self.was_original_direction,
            pool_address: self.pool_address@,
            vault_a: self.vault_a@,
            vault_b: self.vault_b@,
            vault_a_owner_address: self.vault_a_owner_address@,
            vault_b_owner_address: self.vault_b_owner_address@,
            vault_a_amount: self.vault_a_amount@,
            vault_b_amount: self.vault_b_amount@,
            vault_a_pre_amount: self.vault_a_pre_amount@,
            vault_b_pre_amount: self.vault_b_pre_amount@,
            vault_a_post_amount: self.vault_a_post_amount@,
            vault_b_post_amount: self.vault_b_post_amount@,
            pool_config_address: self.pool_config_address@,
        }
    }
}

impl DeepView for Trade {
    type V = TradeView;

    open spec fn deep_view(&self) -> TradeView {
        self.view()
    }
}

/// Position and protocol tag of the decoded instruction.
#[derive(Clone, Debug, PartialEq)]
pub struct Instruction {
    pub index: u32,
    pub is_inner_instruction: bool,
    pub inner_instruction_index: u32,
    pub type_: String,
}

pub struct InstructionView {
    pub index: u32,
    pub is_inner_instruction: bool,
    pub inner_instruction_index: u32,
    pub type_: Seq<char>,
}

impl View for Instruction {
    type V = InstructionView;

    open spec fn view(&self) -> InstructionView {
        InstructionView {
            index: self.index,
            is_inner_instruction: self.is_inner_instruction,
            inner_instruction_index: self.inner_instruction_index,
            type_: self.type_@,
        }
    }
}

impl DeepView for Instruction {
    type V = InstructionView;

    open spec fn deep_view(&self) -> InstructionView {
        self.view()
    }
}

/// Block context of a trade; `slot` is the chain-specific sequence number and
/// is zero where the chain has none.
#[derive(Clone, Debug, PartialEq)]
pub struct Block {
    pub timestamp: i64,
    pub hash: String,
    pub height: u64,
    pub slot: u64,
}

pub struct BlockView {
    pub timestamp: i64,
    pub hash: Seq<char>,
    pub height: u64,
    pub slot: u64,
}

impl View for Block {
    type V = BlockView;

    open spec fn view(&self) -> BlockView {
        BlockView { timestamp: self.timestamp, hash: self.hash@, height: self.height, slot: self.slot }
    }
}

impl DeepView for Block {
    type V = BlockView;

    open spec fn deep_view(&self) -> BlockView {
        self.view()
    }
}

/// Transaction context of a trade.
#[derive(Clone, Debug, PartialEq)]
pub struct Transaction {
    pub fee: u64,
    pub fee_payer: String,
    pub index: u32,
    pub signature: String,
    pub signer: String,
    pub status: i32,
}

pub struct TransactionView {
    pub fee: u64,
    pub fee_payer: Seq<char>,
    pub index: u32,
    pub signature: Seq<char>,
    pub signer: Seq<char>,
    pub status: i32,
}

impl View for Transaction {
    type V = TransactionView;

    open spec fn view(&self) -> TransactionView {
        TransactionView {
            fee: self.fee,
            fee_payer: self.fee_payer@,
            index: self.index,
            signature: self.signature@,
            signer: self.signer@,
            status: self.status,
        }
    }
}

impl DeepView for Transaction {
    type V = TransactionView;

    open spec fn deep_view(&self) -> TransactionView {
        self.view()
    }
}

/// The program or contract invoked, with an optional proxied inner program.
#[derive(Clone, Debug, PartialEq)]
pub struct DApp {
    pub program_address: String,
    pub inner_program_address: String,
    pub chain: Chain,
}

pub struct DAppView {
    pub program_address: Seq<char>,
    pub inner_program_address: Seq<char>,
    pub chain: Chain,
}

impl View for DApp {
    type V = DAppView;

    open spec fn view(&self) -> DAppView {
        DAppView {
            program_address: self.program_address@,
            inner_program_address: self.inner_program_address@,
            chain: self.chain,
        }
    }
}

impl DeepView for DApp {
    type V = DAppView;

    open spec fn deep_view(&self) -> DAppView {
        self.view()
    }
}

/// Reserved variant for bonding-curve venues; not populated by the decoders
/// in scope.
#[derive(Clone, Debug, PartialEq)]
pub struct BondingCurve {
    pub curve_address: String,
}

pub struct BondingCurveView {
    pub curve_address: Seq<char>,
}

impl View for BondingCurve {
    type V = BondingCurveView;

    open spec fn view(&self) -> BondingCurveView {
        BondingCurveView { curve_address: self.curve_address@ }
    }
}

impl DeepView for BondingCurve {
    type V = BondingCurveView;

    open spec fn deep_view(&self) -> BondingCurveView {
        self.view()
    }
}

/// One trade plus its cross-cutting context. Exactly one of `trade` and
/// `bonding_curve` is populated; the decoders here always populate `trade`.
#[derive(Clone, Debug, PartialEq)]
pub struct TradeEvent {
    pub instruction: Option<Instruction>,
    pub block: Option<Block>,
    pub transaction: Option<Transaction>,
    pub d_app: Option<DApp>,
    pub trade: Option<Trade>,
    pub bonding_curve: Option<BondingCurve>,
}

pub struct TradeEventView {
    pub instruction: Option<InstructionView>,
    pub block: Option<BlockView>,
    pub transaction: Option<TransactionView>,
    pub d_app: Option<DAppView>,
    pub trade: Option<TradeView>,
    pub bonding_curve: Option<BondingCurveView>,
}

impl View for TradeEvent {
    type V = TradeEventView;

    open spec fn view(&self) -> TradeEventView {
        TradeEventView {
            instruction: match self.instruction {
                Some(x) => Some(x@),
                None => None,
            },
            block: match self.block {
                Some(x) => Some(x@),
                None => None,
            },
            transaction: match self.transaction {
                Some(x) => Some(x@),
                None => None,
            },
            d_app: match self.d_app {
                Some(x) => Some(x@),
                None => None,
            },
            trade: match self.trade {
                Some(x) => Some(x@),
                None => None,
            },
            bonding_curve: match self.bonding_curve {
                Some(x) => Some(x@),
                None => None,
            },
        }
    }
}

impl DeepView for TradeEvent {
    type V = TradeEventView;

    open spec fn deep_view(&self) -> TradeEventView {
        self.view()
    }
}

/// The batch of trade events decoded from one block, in source order.
#[derive(Clone, Debug, PartialEq)]
pub struct TradeEvents {
    pub events: Vec<TradeEvent>,
}

impl View for TradeEvents {
    type V = Seq<TradeEventView>;

    open spec fn view(&self) -> Seq<TradeEventView> {
        self.events.deep_view()
    }
}

impl TradeEvents {
    /// An empty batch.
    pub fn new() -> (r: TradeEvents)
        ensures
            r@ == Seq::<TradeEventView>::empty(),
    {
        let r = TradeEvents { events: Vec::new() };
        proof {
            assert(r@ =~= Seq::<TradeEventView>::empty());
        }
        r
    }
}

} // verus!
