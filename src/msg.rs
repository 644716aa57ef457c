use vstd::prelude::*;

use crate::claims::Claim;
use crate::expiration::Duration;
use crate::funds::{Coin, Denom};
use crate::hooks::SubMsg;

verus! {

/// The rules that a staking state starts with. A minimum bond of zero is
/// raised to one token.
#[derive(Clone, Debug, PartialEq, Eq)]
pub struct InstantiateMsg {
    pub denom: Denom,
    pub tokens_per_weight: u128,
    pub min_bond: u128,
    pub unbonding_period: Duration,
}

/// Who sent a request, and the native coins that came with it.
#[derive(Clone, Debug, PartialEq, Eq)]
pub struct MessageInfo {
    pub sender: String,
    pub funds: Vec<Coin>,
}

/// The request that a token contract forwards along with tokens.
#[derive(Clone, Copy, Debug, PartialEq, Eq, Structural)]
pub enum ReceiveMsg {
    /// Bond all the forwarded tokens.
    Bond {},
}

/// Tokens forwarded by a token contract: on whose behalf, how many, and what
/// to do with them.
#[derive(Clone, Debug, PartialEq, Eq)]
pub struct Cw20ReceiveMsg {
    pub sender: String,
    pub amount: u128,
    pub msg: ReceiveMsg,
}

/// The requests that change the staking state.
#[derive(Clone, Debug, PartialEq, Eq)]
pub enum ExecuteMsg {
    /// Bond the native coins sent with the request.
    Bond {},
    /// Start unbonding `tokens`: the weight drops now, and the tokens can be
    /// claimed once the unbonding period has passed.
    Unbond { tokens: u128 },
    /// Pay out every matured claim of the sender.
    Claim {},
    /// Tokens forwarded by a token contract.
    Receive(Cw20ReceiveMsg),
}

/// The questions that can be asked of the staking state.
#[derive(Clone, Debug, PartialEq, Eq)]
pub enum QueryMsg {
    /// The pending claims of `address`.
    Claims { address: String },
    /// The tokens that `address` has bonded.
    Staked { address: String },
    /// The sum of all current weights.
    TotalWeight {},
    /// Members in ascending address order, after `start_after`, at most
    /// `limit` of them (ten by default, thirty at most).
    ListMembers { start_after: Option<String>, limit: Option<u32> },
    /// The weight of `addr` now, or as of `at_height`.
    Member { addr: String, at_height: Option<u64> },
}

/// The stake of one address, and what is staked.
#[derive(Clone, Debug, PartialEq, Eq)]
pub struct StakedResponse {
    pub stake: u128,
    pub denom: Denom,
}

/// A member and its current weight.
#[derive(Clone, Debug, PartialEq, Eq)]
pub struct Member {
    pub addr: String,
    pub weight: u64,
}

/// The answer to a `QueryMsg`, variant for variant.
#[derive(Clone, Debug, PartialEq, Eq)]
pub enum QueryResponse {
    Claims(Vec<Claim>),
    Staked(StakedResponse),
    TotalWeight(u64),
    ListMembers(Vec<Member>),
    Member(Option<u64>),
}

/// The operation that a response reports.
#[derive(Clone, Copy, Debug, PartialEq, Eq, Structural)]
pub enum Action {
    Bond,
    Unbond,
    Claim,
}

/// The result of a successful operation: the messages to dispatch, and what
/// was done, with how many tokens and for whom.
#[derive(Clone, Debug, PartialEq, Eq)]
pub struct Response {
    pub messages: Vec<SubMsg>,
    pub action: Action,
    pub amount: u128,
    pub sender: String,
}

} // verus!
