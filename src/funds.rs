use vstd::prelude::*;

use crate::error::ContractError;
use crate::text::same_text;

verus! {

/// An amount of one native denomination.
#[derive(Clone, Debug, PartialEq, Eq)]
pub struct Coin {
    pub denom: String,
    pub amount: u128,
}

/// An amount of a token held by a token contract, whose address the host has
/// verified.
#[derive(Clone, Debug, PartialEq, Eq)]
pub struct Cw20CoinVerified {
    pub address: String,
    pub amount: u128,
}

/// The asset that is staked: a native denomination or a token contract.
#[derive(Clone, Debug, PartialEq, Eq)]
pub enum Denom {
    Native(String),
    Cw20(String),
}

/// What came with a bond request: native coins, or tokens forwarded by a token
/// contract.
#[derive(Clone, Debug, PartialEq, Eq)]
pub enum Balance {
    Native(Vec<Coin>),
    Cw20(Cw20CoinVerified),
}

/// The text carried by the error for a payment whose kind (native or token
/// contract) is not the staked one.
pub const MIXED_DENOM_TEXT: &'static str = "Invalid address or denom";

/// Whether `e` is the error `MissingDenom`, `ExtraDenoms` or `InvalidDenom`
/// (by `kind`: 0, 1, 2) naming the denomination `want`.
pub open spec fn names_denom(e: ContractError, kind: int, want: Seq<char>) -> bool {
    match e {
        ContractError::MissingDenom(s) => kind == 0 && s@ == want,
        ContractError::ExtraDenoms(s) => kind == 1 && s@ == want,
        ContractError::InvalidDenom(s) => kind == 2 && s@ == want,
        _ => false,
    }
}

/// The outcome of paying with `coins` where exactly one coin of `want` is
/// expected: its amount, or the reason for refusal.
pub open spec fn native_payment_ok(coins: Seq<Coin>, want: Seq<char>, r: Result<u128, ContractError>) -> bool {
    if coins.len() == 0 {
        r == Err::<u128, ContractError>(ContractError::NoFunds)
    } else if coins.len() == 1 {
        if coins[0].denom@ == want {
            r == Ok::<u128, ContractError>(coins[0].amount)
        } else {
            r is Err && names_denom(r->Err_0, 0, want)
        }
    } else {
        r is Err && names_denom(r->Err_0, 1, want)
    }
}

/// The outcome of a bond payment `balance` where `denom` is staked.
pub open spec fn payment_ok(denom: Denom, balance: Balance, r: Result<u128, ContractError>) -> bool {
    match (denom, balance) {
        (Denom::Native(want), Balance::Native(have)) => native_payment_ok(have@, want@, r),
        (Denom::Cw20(want), Balance::Cw20(have)) => if have.address@ == want@ {
            r == Ok::<u128, ContractError>(have.amount)
        } else {
            r is Err && names_denom(r->Err_0, 2, want@)
        },
        _ => r is Err && r->Err_0 is MixedNativeAndCw20,
    }
}

/// The amount that a bond payment `balance` brings where `denom` is staked;
/// none where the payment is refused.
pub open spec fn accepted_amount(denom: Denom, balance: Balance) -> Option<u128> {
    match (denom, balance) {
        (Denom::Native(want), Balance::Native(have)) => if have@.len() == 1 && have@[0].denom@
            == want@ {
            Some(have@[0].amount)
        } else {
            None
        },
        (Denom::Cw20(want), Balance::Cw20(have)) => if have.address@ == want@ {
            Some(have.amount)
        } else {
            None
        },
        _ => None,
    }
}

impl Denom {
    /// A field-by-field copy.
    pub fn duplicate(&self) -> (r: Denom)
        ensures
            r == *self,
    {
        match self {
            Denom::Native(s) => Denom::Native(s.clone()),
            Denom::Cw20(s) => Denom::Cw20(s.clone()),
        }
    }
}

/// Takes the amount of `denom` out of `balance`, which must hold exactly one
/// coin, of that denomination.
pub fn must_pay_funds(balance: &Vec<Coin>, denom: &str) -> (r: Result<u128, ContractError>)
    ensures
        native_payment_ok(balance@, denom@, r),
{
    let n = balance.len();
    if n == 0 {
        Err(ContractError::NoFunds)
    } else if n == 1 {
        let payment = balance[0].amount;
        if same_text(balance[0].denom.as_str(), denom) {
            Ok(payment)
        } else {
            Err(ContractError::MissingDenom(denom.to_owned()))
        }
    } else {
        Err(ContractError::ExtraDenoms(denom.to_owned()))
    }
}

/// The amount that a bond payment brings, once it is checked against the
/// staked denomination.
pub fn payment_amount(denom: &Denom, balance: &Balance) -> (r: Result<u128, ContractError>)
    ensures
        payment_ok(*denom, *balance, r),
        r is Ok <==> accepted_amount(*denom, *balance) is Some,
        r is Ok ==> r->Ok_0 == accepted_amount(*denom, *balance)->0,
{
    match (denom, balance) {
        (Denom::Native(want), Balance::Native(have)) => must_pay_funds(have, want.as_str()),
        (Denom::Cw20(want), Balance::Cw20(have)) => {
            if *want == have.address {
                Ok(have.amount)
            } else {
                Err(ContractError::InvalidDenom(want.clone()))
            }
        },
        _ => Err(ContractError::MixedNativeAndCw20(MIXED_DENOM_TEXT.to_owned())),
    }
}

} // verus!
