use vstd::prelude::*;

use crate::claims::{release, released_amount, waiting_claims, Claim};
use crate::expiration::BlockInfo;
use crate::msg::Member;
use crate::error::ContractError;
use crate::history::{
    current_of, heights_increasing, recorded, weight_at, writable_at, Checkpoint, History,
};
use crate::hooks::{is_hook_msg, prepare_hooks, MemberDiff, SubMsg};
use crate::text::{compare_text, lemma_text_order, text_lt};
use crate::weight::{calc_weight, weight_result, Config};

verus! {

/// One staker: the bonded amount, the history of its weight and its pending
/// claims, oldest first.
pub struct Account {
    addr: String,
    stake: u128,
    history: History,
    claims: Vec<Claim>,
}

/// What an account holds, as mathematical values.
pub struct AccountModel {
    pub addr: Seq<char>,
    pub stake: u128,
    pub history: Seq<Checkpoint>,
    pub claims: Seq<Claim>,
}

impl View for Account {
    type V = AccountModel;

    closed spec fn view(&self) -> AccountModel {
        AccountModel {
            addr: self.addr@,
            stake: self.stake,
            history: self.history@,
            claims: self.claims@,
        }
    }
}

/// The whole staking state: the rules, the accounts in ascending address
/// order, the running total of current weights, and the height of the latest
/// operation.
pub struct StakeState {
    config: Config,
    accounts: Vec<Account>,
    total: u64,
    height: u64,
}

/// One account as plain parts, to be kept outside the library and handed
/// back to `StakeState::from_parts`.
#[derive(Clone, Debug, PartialEq, Eq)]
pub struct AccountRecord {
    pub addr: String,
    pub stake: u128,
    pub checkpoints: Vec<Checkpoint>,
    pub claims: Vec<Claim>,
}

/// What an account record holds.
pub open spec fn record_model(r: AccountRecord) -> AccountModel {
    AccountModel { addr: r.addr@, stake: r.stake, history: r.checkpoints@, claims: r.claims@ }
}

/// The staking state that parts describe.
pub open spec fn parts_model(config: Config, records: Seq<AccountRecord>, total: u64, height: u64) -> StakeModel {
    StakeModel {
        config,
        accounts: records.map_values(|r: AccountRecord| record_model(r)),
        total,
        height,
    }
}

/// Keeping the state outside and bringing it back loses nothing: records
/// that hold the accounts of a valid state, with its rules, total and
/// height, describe exactly that state, and `from_parts` accepts them.
pub proof fn lemma_parts_round_trip(m: StakeModel, records: Seq<AccountRecord>)
    requires
        m.wf(),
        records.map_values(|x: AccountRecord| record_model(x)) == m.accounts,
    ensures
        parts_model(m.config, records, m.total, m.height) == m,
        parts_model(m.config, records, m.total, m.height).wf(),
{
}

/// A copy of a vector of plain values.
pub fn copy_vec<T: Copy>(v: &Vec<T>) -> (r: Vec<T>)
    ensures
        r@ == v@,
{
    let mut r: Vec<T> = Vec::new();
    let mut j: usize = 0;
    while j < v.len()
        invariant
            0 <= j <= v@.len(),
            r@ == v@.subrange(0, j as int),
        decreases v@.len() - j,
    {
        r.push(v[j]);
        j = j + 1;
        assert(r@ =~= v@.subrange(0, j as int));
    }
    assert(v@.subrange(0, j as int) =~= v@);
    r
}

/// The staking state as mathematical values.
pub struct StakeModel {
    pub config: Config,
    pub accounts: Seq<AccountModel>,
    pub total: u64,
    pub height: u64,
}

impl View for StakeState {
    type V = StakeModel;

    closed spec fn view(&self) -> StakeModel {
        StakeModel {
            config: self.config,
            accounts: self.accounts@.map_values(|a: Account| a@),
            total: self.total,
            height: self.height,
        }
    }
}

/// A weight counted in a total: no weight counts as zero.
pub open spec fn counted(w: Option<u64>) -> int {
    match w {
        Some(x) => x as int,
        None => 0,
    }
}

/// The sum of the current weights of `accounts`.
pub open spec fn total_weight(accounts: Seq<AccountModel>) -> int
    decreases accounts.len(),
{
    if accounts.len() == 0 {
        0
    } else {
        total_weight(accounts.drop_last()) + counted(current_of(accounts.last().history))
    }
}

/// Accounts stand in strictly ascending address order.
pub open spec fn sorted_accounts(accounts: Seq<AccountModel>) -> bool {
    forall|i: int, j: int|
        0 <= i < j < accounts.len() ==> text_lt(#[trigger] accounts[i].addr, #[trigger] accounts[j].addr)
}

/// Whether `addr` has an account.
pub open spec fn has_account(m: StakeModel, addr: Seq<char>) -> bool {
    exists|i: int| 0 <= i < m.accounts.len() && #[trigger] m.accounts[i].addr == addr
}

/// The account of an address that never staked.
pub open spec fn empty_account(addr: Seq<char>) -> AccountModel {
    AccountModel { addr, stake: 0, history: Seq::empty(), claims: Seq::empty() }
}

/// The account of `addr`; empty where it has none.
pub open spec fn account_of(m: StakeModel, addr: Seq<char>) -> AccountModel {
    if has_account(m, addr) {
        m.accounts[choose|i: int| 0 <= i < m.accounts.len() && #[trigger] m.accounts[i].addr == addr]
    } else {
        empty_account(addr)
    }
}

/// The current weight of `addr`.
pub open spec fn member_weight(m: StakeModel, addr: Seq<char>) -> Option<u64> {
    current_of(account_of(m, addr).history)
}

impl StakeModel {
    /// The state invariant: valid rules; accounts in strictly ascending
    /// address order; every history in height order, written no later than
    /// the latest operation, and ending in the weight that the stake gives;
    /// and a total equal to the sum of the current weights.
    pub open spec fn wf(self) -> bool {
        &&& self.config.wf()
        &&& sorted_accounts(self.accounts)
        &&& forall|i: int|
            0 <= i < self.accounts.len() ==> {
                &&& heights_increasing(#[trigger] self.accounts[i].history)
                &&& writable_at(self.accounts[i].history, self.height as int)
                &&& weight_result(self.accounts[i].stake as int, self.config) == Ok::<
                    Option<u64>,
                    crate::error::ContractError,
                >(current_of(self.accounts[i].history))
            }
        &&& self.total == total_weight(self.accounts)
    }
}

/// In ordered accounts, the account found at index `k` is the account of its
/// address.
pub proof fn lemma_account_at(m: StakeModel, k: int)
    requires
        sorted_accounts(m.accounts),
        0 <= k < m.accounts.len(),
    ensures
        has_account(m, m.accounts[k].addr),
        account_of(m, m.accounts[k].addr) == m.accounts[k],
{
    let a = m.accounts[k].addr;
    assert(m.accounts[k].addr == a);
    let i = choose|i: int| 0 <= i < m.accounts.len() && #[trigger] m.accounts[i].addr == a;
    if i != k {
        lemma_text_order(a, a, a);
    }
}

/// Every current weight is part of the total.
pub proof fn lemma_total_covers(accounts: Seq<AccountModel>, k: int)
    requires
        0 <= k < accounts.len(),
    ensures
        total_weight(accounts) >= counted(current_of(accounts[k].history)),
    decreases accounts.len(),
{
    lemma_total_nonneg(accounts.drop_last());
    if k < accounts.len() - 1 {
        lemma_total_covers(accounts.drop_last(), k);
    }
}

pub proof fn lemma_total_nonneg(accounts: Seq<AccountModel>)
    ensures
        total_weight(accounts) >= 0,
    decreases accounts.len(),
{
    if accounts.len() > 0 {
        lemma_total_nonneg(accounts.drop_last());
    }
}

/// The total after one account is replaced.
pub proof fn lemma_total_update(accounts: Seq<AccountModel>, k: int, a: AccountModel)
    requires
        0 <= k < accounts.len(),
    ensures
        total_weight(accounts.update(k, a)) == total_weight(accounts) - counted(
            current_of(accounts[k].history),
        ) + counted(current_of(a.history)),
    decreases accounts.len(),
{
    if k < accounts.len() - 1 {
        lemma_total_update(accounts.drop_last(), k, a);
        assert(accounts.update(k, a).drop_last() =~= accounts.drop_last().update(k, a));
    } else {
        assert(accounts.update(k, a).drop_last() =~= accounts.drop_last());
    }
}

/// The total after one account is inserted.
pub proof fn lemma_total_insert(accounts: Seq<AccountModel>, k: int, a: AccountModel)
    requires
        0 <= k <= accounts.len(),
    ensures
        total_weight(accounts.insert(k, a)) == total_weight(accounts) + counted(
            current_of(a.history),
        ),
    decreases accounts.len(),
{
    if k < accounts.len() {
        lemma_total_insert(accounts.drop_last(), k, a);
        assert(accounts.insert(k, a).drop_last() =~= accounts.drop_last().insert(k, a));
    } else {
        assert(accounts.insert(k, a).drop_last() =~= accounts);
    }
}

/// What setting the stake of `addr` to `new_stake` does to the membership:
/// the new weight and the new total, or the reason for refusal.
pub open spec fn membership_change(m: StakeModel, addr: Seq<char>, new_stake: u128) -> Result<
    (Option<u64>, int),
    ContractError,
> {
    match weight_result(new_stake as int, m.config) {
        Err(e) => Err(e),
        Ok(w) => {
            let t = m.total - counted(member_weight(m, addr)) + counted(w);
            if t > u64::MAX {
                Err(ContractError::WeightOverflow)
            } else {
                Ok((w, t))
            }
        },
    }
}

/// The account of `addr` after its stake became `new_stake` and its weight
/// `w` at `height`, with `claim` added to its queue if there is one.
pub open spec fn changed_account(
    m: StakeModel,
    addr: Seq<char>,
    new_stake: u128,
    w: Option<u64>,
    claim: Option<Claim>,
    height: u64,
) -> AccountModel {
    let a = account_of(m, addr);
    AccountModel {
        addr,
        stake: new_stake,
        history: recorded(a.history, w, height),
        claims: match claim {
            Some(c) => a.claims.push(c),
            None => a.claims,
        },
    }
}

/// `new` is `old` with the account of `addr` replaced by `acct` (or added),
/// the total set to `total` and the latest height to `height`; every other
/// account is as it was.
pub open spec fn after_change(
    old: StakeModel,
    new: StakeModel,
    addr: Seq<char>,
    acct: AccountModel,
    total: int,
    height: u64,
) -> bool {
    &&& new.wf()
    &&& new.config == old.config
    &&& new.total == total
    &&& new.height == height
    &&& has_account(new, addr)
    &&& account_of(new, addr) == acct
    &&& forall|a: Seq<char>|
        a != addr ==> (#[trigger] has_account(new, a) == has_account(old, a) && account_of(new, a)
            == account_of(old, a))
}

/// The hook messages for a change of the weight of `addr` from `old_w` to
/// `new_w`: none when it did not change, else one per hook in order.
pub open spec fn hook_msgs_ok(
    msgs: Seq<SubMsg>,
    hooks: Seq<String>,
    addr: Seq<char>,
    old_w: Option<u64>,
    new_w: Option<u64>,
) -> bool {
    if old_w == new_w {
        msgs.len() == 0
    } else {
        msgs.len() == hooks.len() && forall|i: int|
            0 <= i < hooks.len() ==> is_hook_msg(#[trigger] msgs[i], hooks[i]@, addr, old_w, new_w)
    }
}

/// The effect of a change of stake, as promised by `update_membership`.
pub open spec fn update_ok(
    old: StakeModel,
    new: StakeModel,
    addr: Seq<char>,
    new_stake: u128,
    claim: Option<Claim>,
    height: u64,
    hooks: Seq<String>,
    r: Result<Seq<SubMsg>, ContractError>,
) -> bool {
    match membership_change(old, addr, new_stake) {
        Err(e) => r == Err::<Seq<SubMsg>, ContractError>(e) && new == old,
        Ok((w, t)) => r is Ok && after_change(
            old,
            new,
            addr,
            changed_account(old, addr, new_stake, w, claim, height),
            t,
            height,
        ) && hook_msgs_ok(r->Ok_0, hooks, addr, member_weight(old, addr), w),
    }
}

/// Whether `a` is listed by a member query that starts after `start`: it has
/// a weight, and its address comes after `start`.
pub open spec fn listed_after(start: Option<Seq<char>>, a: AccountModel) -> bool {
    current_of(a.history) is Some && match start {
        None => true,
        Some(s) => text_lt(s, a.addr),
    }
}

/// The members after `start`, in the order of `accounts`, with their weights.
pub open spec fn listed(accounts: Seq<AccountModel>, start: Option<Seq<char>>) -> Seq<(Seq<char>, u64)>
    decreases accounts.len(),
{
    if accounts.len() == 0 {
        Seq::empty()
    } else {
        let rest = listed(accounts.drop_last(), start);
        let a = accounts.last();
        if listed_after(start, a) {
            rest.push((a.addr, current_of(a.history)->0))
        } else {
            rest
        }
    }
}

/// The first `n` elements of `s`, or all of them if there are fewer.
pub open spec fn first_n<A>(s: Seq<A>, n: int) -> Seq<A> {
    if s.len() <= n {
        s
    } else {
        s.take(n)
    }
}

/// A list of members as address-weight pairs.
pub open spec fn member_pairs(v: Seq<Member>) -> Seq<(Seq<char>, u64)> {
    v.map_values(|m: Member| (m.addr@, m.weight))
}

/// The view of an optional address.
pub open spec fn opt_text(o: Option<String>) -> Option<Seq<char>> {
    match o {
        Some(s) => Some(s@),
        None => None,
    }
}

/// Total weight only grows along longer prefixes.
proof fn lemma_total_prefix(accounts: Seq<AccountModel>, i: int, j: int)
    requires
        0 <= i <= j <= accounts.len(),
    ensures
        total_weight(accounts.subrange(0, i)) <= total_weight(accounts.subrange(0, j)),
    decreases j - i,
{
    if i < j {
        lemma_total_prefix(accounts, i, j - 1);
        assert(accounts.subrange(0, j).drop_last() =~= accounts.subrange(0, j - 1));
    }
}

/// The effect of a claim by `addr` at `block`, as promised by `claim_tokens`.
pub open spec fn claim_ok(old: StakeModel, new: StakeModel, addr: Seq<char>, block: BlockInfo, r: Result<u128, ContractError>) -> bool {
    let a = account_of(old, addr);
    let amount = released_amount(a.claims, block, None);
    if amount > u128::MAX {
        r is Err && r->Err_0 is Overflow && new == old
    } else if amount == 0 {
        r == Err::<u128, ContractError>(ContractError::NothingToClaim) && new == old
    } else {
        r == Ok::<u128, ContractError>(amount as u128) && after_change(
            old,
            new,
            addr,
            AccountModel { claims: waiting_claims(a.claims, block, None), ..a },
            old.total as int,
            old.height,
        )
    }
}

/// The messages of a result, as a sequence.
pub open spec fn msgs_view(r: Result<Vec<SubMsg>, ContractError>) -> Result<Seq<SubMsg>, ContractError> {
    match r {
        Ok(v) => Ok(v@),
        Err(e) => Err(e),
    }
}

fn same_weight(a: Option<u64>, b: Option<u64>) -> (r: bool)
    ensures
        r == (a == b),
{
    match (a, b) {
        (None, None) => true,
        (Some(x), Some(y)) => x == y,
        _ => false,
    }
}

impl StakeState {
    pub open spec fn wf(&self) -> bool {
        self@.wf()
    }

    /// The state right after instantiation: no accounts, no weight.
    pub fn new(config: Config) -> (r: StakeState)
        requires
            config.wf(),
        ensures
            r.wf(),
            r@.config == config,
            r@.accounts == Seq::<AccountModel>::empty(),
            r@.total == 0,
            r@.height == 0,
    {
        let r = StakeState { config, accounts: Vec::new(), total: 0, height: 0 };
        assert(r@.accounts =~= Seq::<AccountModel>::empty());
        r
    }

    proof fn lemma_view_index(&self, i: int)
        requires
            0 <= i < self.accounts@.len(),
        ensures
            self@.accounts[i] == self.accounts@[i]@,
            self@.accounts.len() == self.accounts@.len(),
    {
    }

    /// Where `addr` stands: `Ok` with its index, or `Err` with the index at
    /// which it would be inserted to keep the order.
    fn find(&self, addr: &str) -> (r: Result<usize, usize>)
        requires
            self.wf(),
        ensures
            match r {
                Ok(i) => i < self@.accounts.len() && self@.accounts[i as int].addr == addr@,
                Err(p) => p <= self@.accounts.len() && !has_account(self@, addr@) && (forall|j: int|
                    0 <= j < p ==> text_lt(#[trigger] self@.accounts[j].addr, addr@)) && (forall|
                    j: int,
                |
                    p <= j < self@.accounts.len() ==> text_lt(addr@, #[trigger] self@.accounts[j].addr)),
            },
    {
        let mut lo: usize = 0;
        let mut hi: usize = self.accounts.len();
        while lo < hi
            invariant
                self.wf(),
                0 <= lo <= hi <= self@.accounts.len(),
                self@.accounts.len() == self.accounts@.len(),
                forall|j: int| 0 <= j < lo ==> text_lt(#[trigger] self@.accounts[j].addr, addr@),
                forall|j: int|
                    hi <= j < self@.accounts.len() ==> text_lt(addr@, #[trigger] self@.accounts[j].addr),
            decreases hi - lo,
        {
            let mid = lo + (hi - lo) / 2;
            proof {
                self.lemma_view_index(mid as int);
            }
            match compare_text(self.accounts[mid].addr.as_str(), addr) {
                core::cmp::Ordering::Less => {
                    assert forall|j: int| 0 <= j < mid + 1 implies text_lt(
                        #[trigger] self@.accounts[j].addr,
                        addr@,
                    ) by {
                        if j < mid {
                            lemma_text_order(self@.accounts[j].addr, self@.accounts[mid as int].addr, addr@);
                        }
                    }
                    lo = mid + 1;
                },
                core::cmp::Ordering::Equal => {
                    return Ok(mid);
                },
                core::cmp::Ordering::Greater => {
                    assert forall|j: int| mid <= j < self@.accounts.len() implies text_lt(
                        addr@,
                        #[trigger] self@.accounts[j].addr,
                    ) by {
                        if j > mid {
                            lemma_text_order(addr@, self@.accounts[mid as int].addr, self@.accounts[j].addr);
                        }
                    }
                    hi = mid;
                },
            }
        }
        assert forall|i: int| 0 <= i < self@.accounts.len() implies #[trigger] self@.accounts[i].addr
            != addr@ by {
            lemma_text_order(addr@, addr@, addr@);
        }
        Err(lo)
    }

    /// Sets the stake of `addr` to `new_stake`, records its new weight at
    /// `height`, adjusts the total, adds `claim` to its queue, and returns the
    /// messages for the hooks. Nothing changes when the weight or the total
    /// does not fit.
    pub(crate) fn update_membership(
        &mut self,
        addr: &str,
        new_stake: u128,
        claim: Option<Claim>,
        height: u64,
        hooks: &Vec<String>,
    ) -> (r: Result<Vec<SubMsg>, ContractError>)
        requires
            old(self).wf(),
            height >= old(self)@.height,
        ensures
            update_ok(old(self)@, final(self)@, addr@, new_stake, claim, height, hooks@, msgs_view(r)),
    {
        let ghost m0 = self@;
        let found = self.find(addr);
        let old_w = match found {
            Ok(i) => self.accounts[i].history.current(),
            Err(_) => None,
        };
        proof {
            match found {
                Ok(i) => {
                    self.lemma_view_index(i as int);
                    lemma_account_at(m0, i as int);
                    lemma_total_covers(m0.accounts, i as int);
                },
                Err(_) => {},
            }
            assert(old_w == member_weight(m0, addr@));
        }
        let w = match calc_weight(new_stake, &self.config) {
            Ok(w) => w,
            Err(e) => {
                return Err(e);
            },
        };
        let old_c: u64 = match old_w {
            Some(x) => x,
            None => 0,
        };
        let new_c: u64 = match w {
            Some(x) => x,
            None => 0,
        };
        let base: u64 = self.total - old_c;
        if new_c > u64::MAX - base {
            return Err(ContractError::WeightOverflow);
        }
        let t: u64 = base + new_c;
        let ghost acct = changed_account(m0, addr@, new_stake, w, claim, height);
        match found {
            Ok(i) => {
                let mut a = self.accounts.remove(i);
                assert(a@ == m0.accounts[i as int]);
                a.history.set(w, height);
                a.stake = new_stake;
                match claim {
                    Some(c) => a.claims.push(c),
                    None => {},
                }
                assert(a@ == acct);
                self.accounts.insert(i, a);
                proof {
                    assert(self@.accounts =~= m0.accounts.update(i as int, acct));
                    lemma_total_update(m0.accounts, i as int, acct);
                }
            },
            Err(p) => {
                let mut history = History::new();
                history.set(w, height);
                let mut claims: Vec<Claim> = Vec::new();
                match claim {
                    Some(c) => claims.push(c),
                    None => {},
                }
                let a = Account { addr: addr.to_owned(), stake: new_stake, history, claims };
                assert(a@.claims =~= acct.claims);
                assert(a@ == acct);
                self.accounts.insert(p, a);
                proof {
                    assert(self@.accounts =~= m0.accounts.insert(p as int, acct));
                    lemma_total_insert(m0.accounts, p as int, acct);
                }
            },
        }
        self.total = t;
        self.height = height;
        proof {
            self.lemma_after_change(m0, addr@, acct, found);
        }
        if same_weight(old_w, w) {
            Ok(Vec::new())
        } else {
            let diff = MemberDiff::new(addr.to_owned(), old_w, w);
            Ok(prepare_hooks(hooks, &diff))
        }
    }

    proof fn lemma_after_change(
        &self,
        m0: StakeModel,
        addr: Seq<char>,
        acct: AccountModel,
        found: Result<usize, usize>,
    )
        requires
            m0.wf(),
            acct.addr == addr,
            heights_increasing(acct.history),
            writable_at(acct.history, self@.height as int),
            weight_result(acct.stake as int, m0.config) == Ok::<Option<u64>, ContractError>(
                current_of(acct.history),
            ),
            self@.config == m0.config,
            self@.height >= m0.height,
            self@.total == total_weight(self@.accounts),
            match found {
                Ok(i) => i < m0.accounts.len() && m0.accounts[i as int].addr == addr
                    && self@.accounts == m0.accounts.update(i as int, acct),
                Err(p) => p <= m0.accounts.len() && !has_account(m0, addr) && (forall|j: int|
                    0 <= j < p ==> text_lt(#[trigger] m0.accounts[j].addr, addr)) && (forall|j: int|
                    p <= j < m0.accounts.len() ==> text_lt(addr, #[trigger] m0.accounts[j].addr))
                    && self@.accounts == m0.accounts.insert(p as int, acct),
            },
        ensures
            self@.wf(),
            has_account(self@, addr),
            account_of(self@, addr) == acct,
            forall|a: Seq<char>|
                a != addr ==> (#[trigger] has_account(self@, a) == has_account(m0, a) && account_of(
                    self@,
                    a,
                ) == account_of(m0, a)),
    {
        let m1 = self@;
        // the position of `addr` in the new order, and how old indices map to new ones
        let k: int = match found {
            Ok(i) => i as int,
            Err(p) => p as int,
        };
        let shift = |j: int| -> int
            {
                match found {
                    Ok(_) => j,
                    Err(p) => if j < p {
                        j
                    } else {
                        j + 1
                    },
                }
            };
        assert(m1.accounts[k] == acct);
        // order
        assert forall|i: int, j: int| 0 <= i < j < m1.accounts.len() implies text_lt(
            #[trigger] m1.accounts[i].addr,
            #[trigger] m1.accounts[j].addr,
        ) by {
            match found {
                Ok(_) => {},
                Err(p) => {
                    if i < p && j > p {
                        lemma_text_order(m1.accounts[i].addr, addr, m1.accounts[j].addr);
                    }
                },
            }
        }
        assert forall|i: int| 0 <= i < m1.accounts.len() implies {
            &&& heights_increasing(#[trigger] m1.accounts[i].history)
            &&& writable_at(m1.accounts[i].history, m1.height as int)
            &&& weight_result(m1.accounts[i].stake as int, m1.config) == Ok::<
                Option<u64>,
                ContractError,
            >(current_of(m1.accounts[i].history))
        } by {
            if i != k {
                let j = match found {
                    Ok(_) => i,
                    Err(p) => if i < p {
                        i
                    } else {
                        i - 1
                    },
                };
                assert(m1.accounts[i] == m0.accounts[j]);
            }
        }
        lemma_account_at(m1, k);
        assert forall|a: Seq<char>| a != addr implies (#[trigger] has_account(m1, a) == has_account(
            m0,
            a,
        ) && account_of(m1, a) == account_of(m0, a)) by {
            if has_account(m0, a) {
                let j = choose|j: int| 0 <= j < m0.accounts.len() && #[trigger] m0.accounts[j].addr == a;
                let j1 = shift(j);
                assert(m1.accounts[j1] == m0.accounts[j]);
                lemma_account_at(m0, j);
                lemma_account_at(m1, j1);
            } else if has_account(m1, a) {
                let j1 = choose|j: int| 0 <= j < m1.accounts.len() && #[trigger] m1.accounts[j].addr == a;
                let j = match found {
                    Ok(_) => j1,
                    Err(p) => if j1 < p {
                        j1
                    } else {
                        j1 - 1
                    },
                };
                assert(m0.accounts[j].addr == a);
            }
        }
    }

    /// The staking rules.
    pub fn config(&self) -> (r: &Config)
        ensures
            *r == self@.config,
    {
        &self.config
    }

    /// The sum of all current weights.
    pub fn total(&self) -> (r: u64)
        ensures
            r == self@.total,
    {
        self.total
    }

    /// The height of the latest bond or unbond; later operations must not
    /// come from an earlier height.
    pub fn height(&self) -> (r: u64)
        ensures
            r == self@.height,
    {
        self.height
    }

    /// The tokens that `addr` has bonded; zero for an unknown address.
    pub fn stake_of(&self, addr: &str) -> (r: u128)
        requires
            self.wf(),
        ensures
            r == account_of(self@, addr@).stake,
    {
        match self.find(addr) {
            Ok(i) => {
                proof {
                    self.lemma_view_index(i as int);
                    lemma_account_at(self@, i as int);
                }
                self.accounts[i].stake
            },
            Err(_) => 0,
        }
    }

    /// The pending claims of `addr`, oldest first.
    pub fn claims_of(&self, addr: &str) -> (r: Vec<Claim>)
        requires
            self.wf(),
        ensures
            r@ == account_of(self@, addr@).claims,
    {
        match self.find(addr) {
            Ok(i) => {
                proof {
                    self.lemma_view_index(i as int);
                    lemma_account_at(self@, i as int);
                }
                copy_vec(&self.accounts[i].claims)
            },
            Err(_) => Vec::new(),
        }
    }

    /// The weight of `addr` now, or as of `at_height`.
    pub fn member_at(&self, addr: &str, at_height: Option<u64>) -> (r: Option<u64>)
        requires
            self.wf(),
        ensures
            r == match at_height {
                None => current_of(account_of(self@, addr@).history),
                Some(h) => weight_at(account_of(self@, addr@).history, h as int),
            },
    {
        match self.find(addr) {
            Ok(i) => {
                proof {
                    self.lemma_view_index(i as int);
                    lemma_account_at(self@, i as int);
                }
                match at_height {
                    None => self.accounts[i].history.current(),
                    Some(h) => self.accounts[i].history.at(h),
                }
            },
            Err(_) => None,
        }
    }

    /// The members whose address comes after `start_after`, in ascending
    /// address order, at most `limit` of them.
    pub fn members(&self, start_after: &Option<String>, limit: usize) -> (r: Vec<Member>)
        requires
            self.wf(),
        ensures
            member_pairs(r@) == first_n(listed(self@.accounts, opt_text(*start_after)), limit as int),
    {
        let ghost start = opt_text(*start_after);
        let mut r: Vec<Member> = Vec::new();
        let mut i: usize = 0;
        while i < self.accounts.len()
            invariant
                self.wf(),
                start == opt_text(*start_after),
                0 <= i <= self@.accounts.len(),
                self@.accounts.len() == self.accounts@.len(),
                member_pairs(r@) == first_n(listed(self@.accounts.subrange(0, i as int), start), limit as int),
            decreases self@.accounts.len() - i,
        {
            proof {
                self.lemma_view_index(i as int);
                assert(self@.accounts.subrange(0, i + 1).drop_last() =~= self@.accounts.subrange(0, i as int));
                assert(self@.accounts.subrange(0, i + 1).last() == self@.accounts[i as int]);
            }
            let a = &self.accounts[i];
            let w = a.history.current();
            let after = match start_after {
                None => true,
                Some(s) => {
                    match compare_text(s.as_str(), a.addr.as_str()) {
                        core::cmp::Ordering::Less => true,
                        _ => false,
                    }
                },
            };
            let ghost before = listed(self@.accounts.subrange(0, i as int), start);
            assert(listed_after(start, self@.accounts[i as int]) == (after && w.is_some()));
            assert(member_pairs(r@).len() == r@.len());
            if after && w.is_some() && r.len() < limit {
                let m = Member { addr: a.addr.clone(), weight: w.unwrap() };
                let ghost pr = member_pairs(r@);
                r.push(m);
                assert(member_pairs(r@) =~= pr.push((m.addr@, m.weight)));
            } else if after && w.is_some() {
                assert(before.len() >= limit);
                assert(before.take(limit as int) =~= first_n(before, limit as int));
                assert(before.push((a.addr@, w.unwrap())).take(limit as int) =~= before.take(limit as int));
            }
            i = i + 1;
        }
        assert(self@.accounts.subrange(0, i as int) =~= self@.accounts);
        r
    }

    /// Pays out every matured claim of `addr` at `block` and returns the
    /// amount. Nothing changes when nothing has matured.
    pub fn claim_tokens(&mut self, addr: &str, block: &BlockInfo) -> (r: Result<u128, ContractError>)
        requires
            old(self).wf(),
        ensures
            claim_ok(old(self)@, final(self)@, addr@, *block, r),
    {
        let ghost m0 = self@;
        match self.find(addr) {
            Ok(i) => {
                proof {
                    self.lemma_view_index(i as int);
                    lemma_account_at(m0, i as int);
                }
                let (amount, waiting) = match release(&self.accounts[i].claims, block, None) {
                    Ok(x) => x,
                    Err(e) => {
                        return Err(e);
                    },
                };
                if amount == 0 {
                    return Err(ContractError::NothingToClaim);
                }
                let ghost acct = AccountModel { claims: waiting@, ..m0.accounts[i as int] };
                let mut a = self.accounts.remove(i);
                a.claims = waiting;
                assert(a@ == acct);
                self.accounts.insert(i, a);
                proof {
                    assert(self@.accounts =~= m0.accounts.update(i as int, acct));
                    lemma_total_update(m0.accounts, i as int, acct);
                    self.lemma_after_change(m0, addr@, acct, Ok(i));
                }
                Ok(amount)
            },
            Err(_) => {
                assert(released_amount(Seq::<Claim>::empty(), *block, None) == 0);
                Err(ContractError::NothingToClaim)
            },
        }
    }

    /// Every account as plain parts, in ascending address order.
    pub fn records(&self) -> (r: Vec<AccountRecord>)
        ensures
            r@.map_values(|x: AccountRecord| record_model(x)) == self@.accounts,
    {
        let mut r: Vec<AccountRecord> = Vec::new();
        let mut i: usize = 0;
        while i < self.accounts.len()
            invariant
                0 <= i <= self.accounts@.len(),
                self@.accounts.len() == self.accounts@.len(),
                r@.len() == i,
                forall|j: int| 0 <= j < i ==> record_model(#[trigger] r@[j]) == self@.accounts[j],
            decreases self.accounts@.len() - i,
        {
            let a = &self.accounts[i];
            let rec = AccountRecord {
                addr: a.addr.clone(),
                stake: a.stake,
                checkpoints: copy_vec(a.history.checkpoints()),
                claims: copy_vec(&a.claims),
            };
            proof {
                self.lemma_view_index(i as int);
            }
            r.push(rec);
            i = i + 1;
        }
        assert(r@.map_values(|x: AccountRecord| record_model(x)) =~= self@.accounts);
        r
    }

    /// The state that the parts describe, if they meet the state invariant;
    /// `None` otherwise.
    pub fn from_parts(config: Config, records: Vec<AccountRecord>, total: u64, height: u64) -> (r:
        Option<StakeState>)
        ensures
            r is Some <==> parts_model(config, records@, total, height).wf(),
            r is Some ==> r->0@ == parts_model(config, records@, total, height),
    {
        let ghost m = parts_model(config, records@, total, height);
        let ghost recs = records@;
        if config.tokens_per_weight == 0 || config.min_bond == 0 {
            return None;
        }
        let mut rest = records;
        let mut accounts: Vec<Account> = Vec::new();
        let mut sum: u64 = 0;
        while rest.len() > 0
            invariant
                config.wf(),
                m == parts_model(config, recs, total, height),
                recs == records@,
                accounts@.len() + rest@.len() == recs.len(),
                rest@ == recs.skip(accounts@.len() as int),
                forall|j: int| 0 <= j < accounts@.len() ==> (#[trigger] accounts@[j])@ == m.accounts[j],
                forall|a: int, b: int|
                    0 <= a < b < accounts@.len() ==> text_lt(
                        #[trigger] m.accounts[a].addr,
                        #[trigger] m.accounts[b].addr,
                    ),
                forall|j: int|
                    0 <= j < accounts@.len() ==> {
                        &&& heights_increasing(#[trigger] m.accounts[j].history)
                        &&& writable_at(m.accounts[j].history, height as int)
                        &&& weight_result(m.accounts[j].stake as int, config) == Ok::<
                            Option<u64>,
                            ContractError,
                        >(current_of(m.accounts[j].history))
                    },
                sum == total_weight(m.accounts.subrange(0, accounts@.len() as int)),
            decreases rest@.len(),
        {
            let k = accounts.len();
            let rec = rest.remove(0);
            assert(rec == recs[k as int]);
            assert(m.accounts[k as int] == record_model(rec));
            if k > 0 {
                match compare_text(accounts[k - 1].addr.as_str(), rec.addr.as_str()) {
                    core::cmp::Ordering::Less => {},
                    _ => {
                        proof {
                            assert(m.accounts[k - 1].addr == accounts@[k - 1]@.addr);
                            if sorted_accounts(m.accounts) {
                                assert(text_lt(m.accounts[k - 1].addr, m.accounts[k as int].addr));
                            }
                        }
                        return None;
                    },
                }
            }
            let ghost acct = m.accounts[k as int];
            let history = match History::from_checkpoints(rec.checkpoints) {
                Some(h) => h,
                None => {
                    assert(!heights_increasing(acct.history));
                    return None;
                },
            };
            let cps = history.checkpoints();
            if cps.len() > 0 && cps[cps.len() - 1].height > height {
                assert(!writable_at(acct.history, height as int));
                return None;
            }
            let cur = history.current();
            match calc_weight(rec.stake, &config) {
                Ok(w) => {
                    if !same_weight(w, cur) {
                        assert(weight_result(acct.stake as int, config) != Ok::<
                            Option<u64>,
                            ContractError,
                        >(current_of(acct.history)));
                        return None;
                    }
                },
                Err(_) => {
                    assert(weight_result(acct.stake as int, config) != Ok::<
                        Option<u64>,
                        ContractError,
                    >(current_of(acct.history)));
                    return None;
                },
            }
            let c: u64 = match cur {
                Some(x) => x,
                None => 0,
            };
            proof {
                assert(m.accounts.subrange(0, k + 1).drop_last() =~= m.accounts.subrange(0, k as int));
            }
            if c > u64::MAX - sum {
                proof {
                    lemma_total_prefix(m.accounts, k + 1, m.accounts.len() as int);
                    assert(m.accounts.subrange(0, m.accounts.len() as int) =~= m.accounts);
                }
                return None;
            }
            sum = sum + c;
            let ghost prev_last = if k > 0 { m.accounts[k - 1].addr } else { rec.addr@ };
            accounts.push(Account { addr: rec.addr, stake: rec.stake, history, claims: rec.claims });
            proof {
                assert(recs.skip(k + 1) =~= recs.skip(k as int).drop_first());
                assert forall|a: int, b: int| 0 <= a < b < k + 1 implies text_lt(
                    #[trigger] m.accounts[a].addr,
                    #[trigger] m.accounts[b].addr,
                ) by {
                    if b == k && a < k - 1 {
                        lemma_text_order(m.accounts[a].addr, m.accounts[k - 1].addr, m.accounts[b].addr);
                    }
                    if b == k {
                        assert(m.accounts[k - 1].addr == accounts@[k - 1]@.addr);
                    }
                }
            }
        }
        assert(m.accounts.subrange(0, accounts@.len() as int) =~= m.accounts);
        if sum != total {
            return None;
        }
        let r = StakeState { config, accounts, total, height };
        assert(r@.accounts =~= m.accounts);
        Some(r)
    }
}

} // verus!
