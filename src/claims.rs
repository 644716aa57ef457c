use vstd::prelude::*;

use crate::error::{ContractError, OverflowError, OverflowOperation};
use crate::expiration::{BlockInfo, Duration, Expiration, NANOS_PER_SECOND};

verus! {

broadcast use vstd::seq_lib::group_to_multiset_ensures;

/// Unbonded tokens that can be paid out once `release_at` is reached.
#[derive(Clone, Copy, Debug, PartialEq, Eq, Structural)]
pub struct Claim {
    pub amount: u128,
    pub release_at: Expiration,
}

impl Claim {
    pub fn new(amount: u128, release_at: Expiration) -> (r: Claim)
        ensures
            r == (Claim { amount, release_at }),
    {
        Claim { amount, release_at }
    }
}

/// How a release divides `claims` at `block`: into the claims paid out and
/// the claims left waiting, both in the order they were made. A claim is paid
/// when it has matured and fewer than `limit` claims before it were paid.
pub open spec fn split_claims(claims: Seq<Claim>, block: BlockInfo, limit: Option<usize>) -> (
    Seq<Claim>,
    Seq<Claim>,
)
    decreases claims.len(),
{
    if claims.len() == 0 {
        (Seq::empty(), Seq::empty())
    } else {
        let (paid, waiting) = split_claims(claims.drop_last(), block, limit);
        let c = claims.last();
        if c.release_at.expired_at(block) && (limit is None || paid.len() < limit->0) {
            (paid.push(c), waiting)
        } else {
            (paid, waiting.push(c))
        }
    }
}

/// The sum of the amounts of `claims`.
pub open spec fn sum_amounts(claims: Seq<Claim>) -> int
    decreases claims.len(),
{
    if claims.len() == 0 {
        0
    } else {
        sum_amounts(claims.drop_last()) + claims.last().amount
    }
}

/// The claims paid out of `claims` at `block`.
pub open spec fn paid_claims(claims: Seq<Claim>, block: BlockInfo, limit: Option<usize>) -> Seq<Claim> {
    split_claims(claims, block, limit).0
}

/// The claims left waiting in `claims` at `block`.
pub open spec fn waiting_claims(claims: Seq<Claim>, block: BlockInfo, limit: Option<usize>) -> Seq<
    Claim,
> {
    split_claims(claims, block, limit).1
}

/// The amount that a release of `claims` at `block` pays out.
pub open spec fn released_amount(claims: Seq<Claim>, block: BlockInfo, limit: Option<usize>) -> int {
    sum_amounts(paid_claims(claims, block, limit))
}

proof fn lemma_sum_push(s: Seq<Claim>, c: Claim)
    ensures
        sum_amounts(s.push(c)) == sum_amounts(s) + c.amount,
{
    assert(s.push(c).drop_last() =~= s);
}

/// Releasing more of the claims never pays less.
proof fn lemma_released_grows(claims: Seq<Claim>, block: BlockInfo, limit: Option<usize>, i: int, j: int)
    requires
        0 <= i <= j <= claims.len(),
    ensures
        released_amount(claims.subrange(0, i), block, limit) <= released_amount(
            claims.subrange(0, j),
            block,
            limit,
        ),
    decreases j - i,
{
    if i < j {
        lemma_released_grows(claims, block, limit, i, j - 1);
        assert(claims.subrange(0, j).drop_last() =~= claims.subrange(0, j - 1));
        lemma_sum_push(paid_claims(claims.subrange(0, j - 1), block, limit), claims[j - 1]);
    }
}

/// Pays out the mature claims of `claims` at `block`, oldest first and at
/// most `limit` of them: returns their total and the claims that stay, in
/// order. A total beyond `u128` is refused.
pub fn release(claims: &Vec<Claim>, block: &BlockInfo, limit: Option<usize>) -> (r: Result<
    (u128, Vec<Claim>),
    ContractError,
>)
    ensures
        released_amount(claims@, *block, limit) <= u128::MAX ==> r is Ok && r->Ok_0.0
            == released_amount(claims@, *block, limit) && r->Ok_0.1@ == waiting_claims(
            claims@,
            *block,
            limit,
        ),
        released_amount(claims@, *block, limit) > u128::MAX ==> r is Err && r->Err_0 is Overflow,
{
    let ghost c0 = claims@;
    let mut to_send: u128 = 0;
    let mut paid_count: usize = 0;
    let mut waiting: Vec<Claim> = Vec::new();
    let mut i: usize = 0;
    while i < claims.len()
        invariant
            0 <= i <= c0.len(),
            claims@ == c0,
            to_send == released_amount(c0.subrange(0, i as int), *block, limit),
            paid_count == paid_claims(c0.subrange(0, i as int), *block, limit).len(),
            paid_count <= i,
            waiting@ == waiting_claims(c0.subrange(0, i as int), *block, limit),
        decreases c0.len() - i,
    {
        let c = claims[i];
        proof {
            assert(c0.subrange(0, i + 1).drop_last() =~= c0.subrange(0, i as int));
            assert(c0.subrange(0, i + 1).last() == c);
            lemma_sum_push(paid_claims(c0.subrange(0, i as int), *block, limit), c);
        }
        let under_limit = match limit {
            None => true,
            Some(n) => paid_count < n,
        };
        if c.release_at.is_expired(block) && under_limit {
            if to_send > u128::MAX - c.amount {
                proof {
                    lemma_released_grows(c0, *block, limit, i + 1, c0.len() as int);
                    assert(c0.subrange(0, c0.len() as int) =~= c0);
                }
                return Err(
                    ContractError::Overflow(
                        OverflowError::new(OverflowOperation::Add, to_send, c.amount),
                    ),
                );
            }
            to_send = to_send + c.amount;
            paid_count = paid_count + 1;
        } else {
            waiting.push(c);
        }
        i = i + 1;
    }
    proof {
        assert(c0.subrange(0, i as int) =~= c0);
    }
    Ok((to_send, waiting))
}

/// Release law: a claim is paid only once it has matured; with no limit every
/// matured claim is paid and every waiting one has not matured; and each claim
/// lands, whole, on exactly one side.
pub proof fn lemma_release_partition(claims: Seq<Claim>, block: BlockInfo, limit: Option<usize>)
    ensures
        forall|k: int|
            0 <= k < paid_claims(claims, block, limit).len() ==> (#[trigger] paid_claims(
                claims,
                block,
                limit,
            )[k]).release_at.expired_at(block),
        limit is None ==> forall|k: int|
            0 <= k < waiting_claims(claims, block, limit).len() ==> !(#[trigger] waiting_claims(
                claims,
                block,
                limit,
            )[k]).release_at.expired_at(block),
        paid_claims(claims, block, limit).to_multiset().add(
            waiting_claims(claims, block, limit).to_multiset(),
        ) =~= claims.to_multiset(),
    decreases claims.len(),
{
    if claims.len() > 0 {
        lemma_release_partition(claims.drop_last(), block, limit);
        assert(claims =~= claims.drop_last().push(claims.last()));
    }
}

/// A claim made at `made` that waits `period` matures exactly when the period
/// has passed, and not one block or nanosecond earlier.
pub proof fn lemma_claim_maturity(period: Duration, made: BlockInfo, now: BlockInfo)
    requires
        period.fits_after(made),
    ensures
        period.spec_after(made).expired_at(now) <==> match period {
            Duration::Height(h) => now.height >= made.height + h,
            Duration::Time(t) => now.time >= made.time + t * NANOS_PER_SECOND,
        },
{
}

} // verus!
