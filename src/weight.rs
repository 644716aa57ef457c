use vstd::prelude::*;

use crate::error::ContractError;
use crate::expiration::Duration;
use crate::funds::Denom;

verus! {

/// The staking rules: what is staked, how many tokens make one unit of
/// weight, the least stake that makes a member, and how long unbonded tokens
/// wait before they can be claimed.
#[derive(Clone, Debug, PartialEq, Eq)]
pub struct Config {
    pub denom: Denom,
    pub tokens_per_weight: u128,
    pub min_bond: u128,
    pub unbonding_period: Duration,
}

impl Config {
    /// Weight can be derived: at least one token per unit of weight, and a
    /// minimum bond of at least one token, so that no stake is no membership.
    pub open spec fn wf(&self) -> bool {
        self.tokens_per_weight >= 1 && self.min_bond >= 1
    }
}

/// The weight that `stake` gives under `cfg`: none below the minimum bond,
/// else the stake divided by the tokens per weight, rounded down.
pub open spec fn weight_of(stake: int, cfg: Config) -> Option<int> {
    if stake < cfg.min_bond {
        None
    } else {
        Some(stake / (cfg.tokens_per_weight as int))
    }
}

/// `weight_of`, as computed: a weight that does not fit in `u64` is refused.
pub open spec fn weight_result(stake: int, cfg: Config) -> Result<Option<u64>, ContractError> {
    match weight_of(stake, cfg) {
        None => Ok(None),
        Some(w) => if w <= u64::MAX {
            Ok(Some(w as u64))
        } else {
            Err(ContractError::WeightOverflow)
        },
    }
}

/// Weights ordered with "no weight" below every weight.
pub open spec fn weight_le(a: Option<int>, b: Option<int>) -> bool {
    match (a, b) {
        (None, _) => true,
        (Some(_), None) => false,
        (Some(x), Some(y)) => x <= y,
    }
}

/// The weight that `stake` gives under `cfg`.
pub fn calc_weight(stake: u128, cfg: &Config) -> (r: Result<Option<u64>, ContractError>)
    requires
        cfg.wf(),
    ensures
        r == weight_result(stake as int, *cfg),
{
    if stake < cfg.min_bond {
        Ok(None)
    } else {
        let w = stake / cfg.tokens_per_weight;
        if w > u64::MAX as u128 {
            Err(ContractError::WeightOverflow)
        } else {
            Ok(Some(w as u64))
        }
    }
}

/// More stake never gives less weight, rounding down included.
pub proof fn lemma_weight_monotonic(cfg: Config, s1: int, s2: int)
    requires
        cfg.tokens_per_weight >= 1,
        0 <= s1 < s2,
    ensures
        weight_le(weight_of(s1, cfg), weight_of(s2, cfg)),
{
    if s1 >= cfg.min_bond {
        vstd::arithmetic::div_mod::lemma_div_is_ordered(s1, s2, cfg.tokens_per_weight as int);
    }
}

/// A stake has no weight exactly when it is below the minimum bond; a stake
/// equal to the minimum bond always has a weight.
pub proof fn lemma_weight_threshold(cfg: Config, stake: int)
    requires
        cfg.tokens_per_weight >= 1,
        stake >= 0,
    ensures
        weight_of(stake, cfg) is None <==> stake < cfg.min_bond,
        stake == cfg.min_bond ==> weight_of(stake, cfg) is Some,
{
}

/// Monotonicity as computed: where the larger stake's weight fits, so does
/// the smaller one's, and it is no greater.
pub proof fn lemma_weight_result_monotonic(cfg: Config, s1: int, s2: int)
    requires
        cfg.wf(),
        0 <= s1 < s2,
        weight_result(s2, cfg) is Ok,
    ensures
        weight_result(s1, cfg) is Ok,
        weight_le(
            match weight_result(s1, cfg) {
                Ok(Some(w)) => Some(w as int),
                _ => None,
            },
            match weight_result(s2, cfg) {
                Ok(Some(w)) => Some(w as int),
                _ => None,
            },
        ),
{
    lemma_weight_monotonic(cfg, s1, s2);
}

/// The threshold as computed: a stake below the minimum bond gives `Ok(None)`,
/// and a stake equal to it gives its weight whenever that weight fits.
pub proof fn lemma_weight_result_threshold(cfg: Config, stake: int)
    requires
        cfg.wf(),
        stake >= 0,
    ensures
        stake < cfg.min_bond ==> weight_result(stake, cfg) == Ok::<Option<u64>, ContractError>(None),
        stake == cfg.min_bond && (cfg.min_bond as int) / (cfg.tokens_per_weight as int) <= u64::MAX
            ==> weight_result(stake, cfg) == Ok::<Option<u64>, ContractError>(
            Some((cfg.min_bond / cfg.tokens_per_weight) as u64),
        ),
{
}

} // verus!
