use vstd::prelude::*;

use crate::claims::Claim;
use crate::error::{ContractError, OverflowError, OverflowOperation};
use crate::expiration::BlockInfo;
use crate::funds::{accepted_amount, payment_amount, payment_ok, Balance, Cw20CoinVerified, Denom};
use crate::history::{lemma_history_before_first, lemma_history_query, weight_at};
use crate::hooks::SubMsg;
use crate::msg::{
    Action, Cw20ReceiveMsg, ExecuteMsg, InstantiateMsg, MessageInfo, QueryMsg, QueryResponse,
    ReceiveMsg, Response, StakedResponse,
};
use crate::state::{
    account_of, claim_ok, first_n, has_account, listed, member_pairs, member_weight, opt_text,
    total_weight, update_ok, StakeModel, StakeState,
};
use crate::weight::Config;

verus! {

/// Members listed when a query names no limit.
pub const DEFAULT_LIMIT: u32 = 10;

/// The most members that one query lists.
pub const MAX_LIMIT: u32 = 30;

/// The messages of a response, as a sequence.
pub open spec fn messages_of(r: Result<Response, ContractError>) -> Result<Seq<SubMsg>, ContractError> {
    match r {
        Ok(resp) => Ok(resp.messages@),
        Err(e) => Err(e),
    }
}

/// A successful response reports `action` on `amount` tokens for `sender`.
pub open spec fn reports(r: Result<Response, ContractError>, action: Action, amount: int, sender: Seq<char>) -> bool {
    r is Ok ==> r->Ok_0.action == action && r->Ok_0.amount == amount && r->Ok_0.sender@ == sender
}

/// The effect of bonding the payment `balance` for `sender` at `height`.
pub open spec fn bond_ok(
    old: StakeModel,
    new: StakeModel,
    sender: Seq<char>,
    balance: Balance,
    height: u64,
    hooks: Seq<String>,
    r: Result<Response, ContractError>,
) -> bool {
    match accepted_amount(old.config.denom, balance) {
        None => r is Err && payment_ok(old.config.denom, balance, Err(r->Err_0)) && new == old,
        Some(a) => {
            let stake = account_of(old, sender).stake;
            if stake + a > u128::MAX {
                r == Err::<Response, ContractError>(
                    ContractError::Overflow(
                        OverflowError { operation: OverflowOperation::Add, operand1: stake, operand2: a },
                    ),
                ) && new == old
            } else {
                update_ok(old, new, sender, (stake + a) as u128, None, height, hooks, messages_of(r))
                    && reports(r, Action::Bond, a as int, sender)
            }
        },
    }
}

/// The claim that an unbond of `amount` at `block` queues: none for zero
/// tokens, since a claim is for a positive amount.
pub open spec fn unbond_claim(config: Config, amount: u128, block: BlockInfo) -> Option<Claim> {
    if amount == 0 {
        None
    } else {
        Some(Claim { amount, release_at: config.unbonding_period.spec_after(block) })
    }
}

/// The effect of unbonding `amount` tokens of `sender` at `block`.
pub open spec fn unbond_ok(
    old: StakeModel,
    new: StakeModel,
    sender: Seq<char>,
    amount: u128,
    block: BlockInfo,
    hooks: Seq<String>,
    r: Result<Response, ContractError>,
) -> bool {
    let stake = account_of(old, sender).stake;
    if amount > stake {
        r == Err::<Response, ContractError>(
            ContractError::Overflow(
                OverflowError { operation: OverflowOperation::Sub, operand1: stake, operand2: amount },
            ),
        ) && new == old
    } else {
        update_ok(
            old,
            new,
            sender,
            (stake - amount) as u128,
            unbond_claim(old.config, amount, block),
            block.height,
            hooks,
            messages_of(r),
        ) && reports(r, Action::Unbond, amount as int, sender)
    }
}

/// Whether `m` pays `amount` of `denom` to `to`.
pub open spec fn is_payment(m: SubMsg, denom: Denom, to: Seq<char>, amount: u128) -> bool {
    match denom {
        Denom::Native(d) => match m {
            SubMsg::BankSend { to_address, denom, amount: x } => to_address@ == to && denom@ == d@
                && x == amount,
            _ => false,
        },
        Denom::Cw20(token) => match m {
            SubMsg::Cw20Transfer { contract_addr, recipient, amount: x } => contract_addr@ == token@
                && recipient@ == to && x == amount,
            _ => false,
        },
    }
}

/// The amount of a response, or its error.
pub open spec fn amount_of(r: Result<Response, ContractError>) -> Result<u128, ContractError> {
    match r {
        Ok(resp) => Ok(resp.amount),
        Err(e) => Err(e),
    }
}

/// The effect of a claim by `sender` at `block`: the matured claims are
/// removed, and one payment of their total goes to the sender.
pub open spec fn claim_response_ok(
    old: StakeModel,
    new: StakeModel,
    sender: Seq<char>,
    block: BlockInfo,
    r: Result<Response, ContractError>,
) -> bool {
    &&& claim_ok(old, new, sender, block, amount_of(r))
    &&& r is Ok ==> r->Ok_0.messages@.len() == 1 && is_payment(
        r->Ok_0.messages@[0],
        old.config.denom,
        sender,
        r->Ok_0.amount,
    ) && reports(r, Action::Claim, r->Ok_0.amount as int, sender)
}

/// The number of members that a list query returns at most.
pub open spec fn page_limit(limit: Option<u32>) -> int {
    let l = match limit {
        Some(l) => l,
        None => DEFAULT_LIMIT,
    };
    if l > MAX_LIMIT {
        MAX_LIMIT as int
    } else {
        l as int
    }
}

/// The answer that `msg` gets from the state `m`.
pub open spec fn query_ok(m: StakeModel, msg: QueryMsg, r: QueryResponse) -> bool {
    match msg {
        QueryMsg::Claims { address } => r matches QueryResponse::Claims(c) && c@ == account_of(
            m,
            address@,
        ).claims,
        QueryMsg::Staked { address } => r matches QueryResponse::Staked(s) && s.stake == account_of(
            m,
            address@,
        ).stake && s.denom == m.config.denom,
        QueryMsg::TotalWeight {  } => r == QueryResponse::TotalWeight(m.total),
        QueryMsg::ListMembers { start_after, limit } => r matches QueryResponse::ListMembers(v)
            && member_pairs(v@) == first_n(listed(m.accounts, opt_text(start_after)), page_limit(limit)),
        QueryMsg::Member { addr, at_height } => r == QueryResponse::Member(
            match at_height {
                None => member_weight(m, addr@),
                Some(h) => weight_at(account_of(m, addr@).history, h as int),
            },
        ),
    }
}

/// Starts a staking state with the rules of `msg`; a minimum bond of zero
/// becomes one token, so that no stake never makes a member.
pub fn instantiate(msg: InstantiateMsg) -> (r: StakeState)
    requires
        msg.tokens_per_weight >= 1,
    ensures
        r.wf(),
        r@.config == (Config {
            denom: msg.denom,
            tokens_per_weight: msg.tokens_per_weight,
            min_bond: if msg.min_bond == 0 {
                1
            } else {
                msg.min_bond
            },
            unbonding_period: msg.unbonding_period,
        }),
        r@.accounts.len() == 0,
        r@.total == 0,
        r@.height == 0,
{
    let min_bond = if msg.min_bond == 0 {
        1
    } else {
        msg.min_bond
    };
    let config = Config {
        denom: msg.denom,
        tokens_per_weight: msg.tokens_per_weight,
        min_bond,
        unbonding_period: msg.unbonding_period,
    };
    StakeState::new(config)
}

/// Bonds the payment `amount` for `sender` at the height of `block`: checks
/// the payment against the staked denomination, adds it to the stake, records
/// the new weight, and tells the hooks if the weight changed.
pub fn execute_bond(
    state: &mut StakeState,
    block: &BlockInfo,
    hooks: &Vec<String>,
    amount: Balance,
    sender: String,
) -> (r: Result<Response, ContractError>)
    requires
        old(state).wf(),
        block.height >= old(state)@.height,
    ensures
        final(state).wf(),
        final(state)@.total == total_weight(final(state)@.accounts),
        bond_ok(old(state)@, final(state)@, sender@, amount, block.height, hooks@, r),
{
    let amount = match payment_amount(&state.config().denom, &amount) {
        Ok(a) => a,
        Err(e) => {
            return Err(e);
        },
    };
    let stake = state.stake_of(sender.as_str());
    if stake > u128::MAX - amount {
        return Err(
            ContractError::Overflow(OverflowError::new(OverflowOperation::Add, stake, amount)),
        );
    }
    let messages = match state.update_membership(
        sender.as_str(),
        stake + amount,
        None,
        block.height,
        hooks,
    ) {
        Ok(m) => m,
        Err(e) => {
            return Err(e);
        },
    };
    Ok(Response { messages, action: Action::Bond, amount, sender })
}

/// Bonds tokens that the token contract `token` forwarded on behalf of
/// `wrapper.sender`.
pub fn execute_receive(
    state: &mut StakeState,
    block: &BlockInfo,
    hooks: &Vec<String>,
    token: String,
    wrapper: Cw20ReceiveMsg,
) -> (r: Result<Response, ContractError>)
    requires
        old(state).wf(),
        block.height >= old(state)@.height,
    ensures
        final(state).wf(),
        final(state)@.total == total_weight(final(state)@.accounts),
        bond_ok(
            old(state)@,
            final(state)@,
            wrapper.sender@,
            Balance::Cw20(Cw20CoinVerified { address: token, amount: wrapper.amount }),
            block.height,
            hooks@,
            r,
        ),
{
    let balance = Balance::Cw20(Cw20CoinVerified { address: token, amount: wrapper.amount });
    match wrapper.msg {
        ReceiveMsg::Bond {  } => execute_bond(state, block, hooks, balance, wrapper.sender),
    }
}

/// Unbonds `amount` tokens of `sender` at `block`: takes them off the stake,
/// records the new weight, tells the hooks if it changed, and queues a claim
/// that matures after the unbonding period.
pub fn execute_unbond(
    state: &mut StakeState,
    block: &BlockInfo,
    hooks: &Vec<String>,
    sender: String,
    amount: u128,
) -> (r: Result<Response, ContractError>)
    requires
        old(state).wf(),
        block.height >= old(state)@.height,
        old(state)@.config.unbonding_period.fits_after(*block),
    ensures
        final(state).wf(),
        final(state)@.total == total_weight(final(state)@.accounts),
        unbond_ok(old(state)@, final(state)@, sender@, amount, *block, hooks@, r),
{
    let stake = state.stake_of(sender.as_str());
    if amount > stake {
        return Err(
            ContractError::Overflow(OverflowError::new(OverflowOperation::Sub, stake, amount)),
        );
    }
    let claim = if amount == 0 {
        None
    } else {
        Some(Claim::new(amount, state.config().unbonding_period.after(block)))
    };
    let messages = match state.update_membership(
        sender.as_str(),
        stake - amount,
        claim,
        block.height,
        hooks,
    ) {
        Ok(m) => m,
        Err(e) => {
            return Err(e);
        },
    };
    Ok(Response { messages, action: Action::Unbond, amount, sender })
}

/// Pays `sender` every claim of theirs that has matured at `block`, in one
/// payment of the staked asset.
pub fn execute_claim(state: &mut StakeState, block: &BlockInfo, sender: String) -> (r: Result<
    Response,
    ContractError,
>)
    requires
        old(state).wf(),
    ensures
        final(state).wf(),
        final(state)@.total == total_weight(final(state)@.accounts),
        claim_response_ok(old(state)@, final(state)@, sender@, *block, r),
{
    let release = match state.claim_tokens(sender.as_str(), block) {
        Ok(a) => a,
        Err(e) => {
            return Err(e);
        },
    };
    let message = match &state.config().denom {
        Denom::Native(denom) => SubMsg::BankSend {
            to_address: sender.clone(),
            denom: denom.clone(),
            amount: release,
        },
        Denom::Cw20(token) => SubMsg::Cw20Transfer {
            contract_addr: token.clone(),
            recipient: sender.clone(),
            amount: release,
        },
    };
    let mut messages: Vec<SubMsg> = Vec::new();
    messages.push(message);
    Ok(Response { messages, action: Action::Claim, amount: release, sender })
}

/// Runs one request from `info.sender` at `block`.
pub fn execute(
    state: &mut StakeState,
    block: &BlockInfo,
    hooks: &Vec<String>,
    info: MessageInfo,
    msg: ExecuteMsg,
) -> (r: Result<Response, ContractError>)
    requires
        old(state).wf(),
        block.height >= old(state)@.height,
        msg is Unbond ==> old(state)@.config.unbonding_period.fits_after(*block),
    ensures
        final(state).wf(),
        final(state)@.total == total_weight(final(state)@.accounts),
        match msg {
            ExecuteMsg::Bond {  } => bond_ok(
                old(state)@,
                final(state)@,
                info.sender@,
                Balance::Native(info.funds),
                block.height,
                hooks@,
                r,
            ),
            ExecuteMsg::Unbond { tokens } => unbond_ok(
                old(state)@,
                final(state)@,
                info.sender@,
                tokens,
                *block,
                hooks@,
                r,
            ),
            ExecuteMsg::Claim {  } => claim_response_ok(
                old(state)@,
                final(state)@,
                info.sender@,
                *block,
                r,
            ),
            ExecuteMsg::Receive(wrapper) => bond_ok(
                old(state)@,
                final(state)@,
                wrapper.sender@,
                Balance::Cw20(Cw20CoinVerified { address: info.sender, amount: wrapper.amount }),
                block.height,
                hooks@,
                r,
            ),
        },
{
    match msg {
        ExecuteMsg::Bond {  } => execute_bond(
            state,
            block,
            hooks,
            Balance::Native(info.funds),
            info.sender,
        ),
        ExecuteMsg::Unbond { tokens } => execute_unbond(state, block, hooks, info.sender, tokens),
        ExecuteMsg::Claim {  } => execute_claim(state, block, info.sender),
        ExecuteMsg::Receive(wrapper) => execute_receive(state, block, hooks, info.sender, wrapper),
    }
}

/// The stake of `addr` and the staked asset.
pub fn query_staked(state: &StakeState, addr: String) -> (r: StakedResponse)
    requires
        state.wf(),
    ensures
        r.stake == account_of(state@, addr@).stake,
        r.denom == state@.config.denom,
{
    let stake = state.stake_of(addr.as_str());
    StakedResponse { stake, denom: state.config().denom.duplicate() }
}

/// Answers one question about the state.
pub fn query(state: &StakeState, msg: QueryMsg) -> (r: QueryResponse)
    requires
        state.wf(),
    ensures
        query_ok(state@, msg, r),
{
    match msg {
        QueryMsg::Claims { address } => QueryResponse::Claims(state.claims_of(address.as_str())),
        QueryMsg::Staked { address } => QueryResponse::Staked(query_staked(state, address)),
        QueryMsg::TotalWeight {  } => QueryResponse::TotalWeight(state.total()),
        QueryMsg::ListMembers { start_after, limit } => {
            let l = match limit {
                Some(l) => l,
                None => DEFAULT_LIMIT,
            };
            let l = if l > MAX_LIMIT {
                MAX_LIMIT
            } else {
                l
            };
            QueryResponse::ListMembers(state.members(&start_after, l as usize))
        },
        QueryMsg::Member { addr, at_height } => QueryResponse::Member(
            state.member_at(addr.as_str(), at_height),
        ),
    }
}

/// The total weight is, in every reachable state, the sum of the current
/// weights of all accounts: every operation above keeps the state invariant,
/// and the invariant holds the total to that sum.
pub proof fn lemma_total_weight_invariant(m: StakeModel)
    requires
        m.wf(),
    ensures
        m.total == total_weight(m.accounts),
{
}

/// History law at the level of the whole state: after a change of stake of
/// `addr` recorded at `height`, a query of `addr` as of any height at or after
/// `height` sees the new weight, a query before `height` sees what it saw
/// before, and every other address sees no change at any height.
pub proof fn lemma_member_history(
    old: StakeModel,
    new: StakeModel,
    addr: Seq<char>,
    new_stake: u128,
    claim: Option<Claim>,
    height: u64,
    hooks: Seq<String>,
    msgs: Seq<SubMsg>,
    other: Seq<char>,
    at: int,
)
    requires
        old.wf(),
        height >= old.height,
        update_ok(old, new, addr, new_stake, claim, height, hooks, Ok(msgs)),
    ensures
        weight_at(account_of(new, addr).history, at) == if at >= height {
            member_weight(new, addr)
        } else {
            weight_at(account_of(old, addr).history, at)
        },
        other != addr ==> weight_at(account_of(new, other).history, at) == weight_at(
            account_of(old, other).history,
            at,
        ),
{
    let h = account_of(old, addr).history;
    if has_account(old, addr) {
        let i = choose|i: int| 0 <= i < old.accounts.len() && #[trigger] old.accounts[i].addr == addr;
        assert(old.accounts[i].addr == addr);
    }
    match crate::state::membership_change(old, addr, new_stake) {
        Ok((w, t)) => {
            lemma_history_query(h, w, height, at);
            assert(has_account(new, other) == has_account(old, other) || other == addr);
        },
        Err(_) => {},
    }
}

/// An address has no weight at any height before its first recorded change.
pub proof fn lemma_no_weight_before_first_bond(m: StakeModel, addr: Seq<char>, at: int)
    requires
        m.wf(),
        account_of(m, addr).history.len() == 0 || at < account_of(m, addr).history[0].height,
    ensures
        weight_at(account_of(m, addr).history, at) is None,
{
    if has_account(m, addr) {
        let i = choose|i: int| 0 <= i < m.accounts.len() && #[trigger] m.accounts[i].addr == addr;
        assert(m.accounts[i].addr == addr);
    }
    lemma_history_before_first(account_of(m, addr).history, at);
}

} // verus!
