use cw4_stake::claims::Claim;
use cw4_stake::contract::{execute, instantiate, query, query_staked};
use cw4_stake::error::{ContractError, OverflowError, OverflowOperation};
use cw4_stake::expiration::{BlockInfo, Duration, Expiration};
use cw4_stake::funds::{Coin, Denom};
use cw4_stake::hooks::{MemberDiff, SubMsg};
use cw4_stake::msg::{
    Cw20ReceiveMsg, ExecuteMsg, InstantiateMsg, MessageInfo, QueryMsg, QueryResponse, ReceiveMsg,
};
use cw4_stake::state::StakeState;

const USER1: &str = "somebody";
const USER2: &str = "else";
const USER3: &str = "funny";
const DENOM: &str = "stake";
const TOKENS_PER_WEIGHT: u128 = 1_000;
const MIN_BOND: u128 = 5_000;
const UNBONDING_BLOCKS: u64 = 100;
const CW20_ADDRESS: &str = "wasm1234567890";
const HEIGHT: u64 = 12_345;
const TIME: u64 = 1_571_797_419_879_305_533;

fn block_at(delta: u64) -> BlockInfo {
    BlockInfo { height: HEIGHT + delta, time: TIME }
}

fn coins(amount: u128, denom: &str) -> Vec<Coin> {
    vec![Coin { denom: denom.to_string(), amount }]
}

fn info(sender: &str, funds: Vec<Coin>) -> MessageInfo {
    MessageInfo { sender: sender.to_string(), funds }
}

fn do_instantiate(tokens_per_weight: u128, min_bond: u128, unbonding_period: Duration) -> StakeState {
    instantiate(InstantiateMsg {
        denom: Denom::Native(DENOM.to_string()),
        tokens_per_weight,
        min_bond,
        unbonding_period,
    })
}

fn default_instantiate() -> StakeState {
    do_instantiate(TOKENS_PER_WEIGHT, MIN_BOND, Duration::Height(UNBONDING_BLOCKS))
}

fn cw20_instantiate(unbonding_period: Duration) -> StakeState {
    instantiate(InstantiateMsg {
        denom: Denom::Cw20(CW20_ADDRESS.to_string()),
        tokens_per_weight: TOKENS_PER_WEIGHT,
        min_bond: MIN_BOND,
        unbonding_period,
    })
}

fn bond(state: &mut StakeState, user1: u128, user2: u128, user3: u128, height_delta: u64) {
    let block = block_at(height_delta);
    for (addr, stake) in [(USER1, user1), (USER2, user2), (USER3, user3)] {
        if stake != 0 {
            let msg = ExecuteMsg::Bond {};
            execute(state, &block, &vec![], info(addr, coins(stake, DENOM)), msg).unwrap();
        }
    }
}

fn bond_cw20(state: &mut StakeState, user1: u128, user2: u128, user3: u128, height_delta: u64) {
    let block = block_at(height_delta);
    for (addr, stake) in [(USER1, user1), (USER2, user2), (USER3, user3)] {
        if stake != 0 {
            let msg = ExecuteMsg::Receive(Cw20ReceiveMsg {
                sender: addr.to_string(),
                amount: stake,
                msg: ReceiveMsg::Bond {},
            });
            execute(state, &block, &vec![], info(CW20_ADDRESS, vec![]), msg).unwrap();
        }
    }
}

fn unbond(state: &mut StakeState, user1: u128, user2: u128, user3: u128, height_delta: u64) {
    let block = block_at(height_delta);
    for (addr, stake) in [(USER1, user1), (USER2, user2), (USER3, user3)] {
        if stake != 0 {
            let msg = ExecuteMsg::Unbond { tokens: stake };
            execute(state, &block, &vec![], info(addr, vec![]), msg).unwrap();
        }
    }
}

fn get_member(state: &StakeState, addr: &str, at_height: Option<u64>) -> Option<u64> {
    match query(state, QueryMsg::Member { addr: addr.to_string(), at_height }) {
        QueryResponse::Member(w) => w,
        other => panic!("unexpected response {:?}", other),
    }
}

fn assert_users(
    state: &StakeState,
    user1_weight: Option<u64>,
    user2_weight: Option<u64>,
    user3_weight: Option<u64>,
    height: Option<u64>,
) {
    assert_eq!(get_member(state, USER1, height), user1_weight);
    assert_eq!(get_member(state, USER2, height), user2_weight);
    assert_eq!(get_member(state, USER3, height), user3_weight);

    // this is only valid if we are not doing a historical query
    if height.is_none() {
        let weights = vec![user1_weight, user2_weight, user3_weight];
        let sum: u64 = weights.iter().map(|x| x.unwrap_or_default()).sum();
        let count = weights.iter().filter(|x| x.is_some()).count();

        let msg = QueryMsg::ListMembers { start_after: None, limit: None };
        match query(state, msg) {
            QueryResponse::ListMembers(members) => assert_eq!(count, members.len()),
            other => panic!("unexpected response {:?}", other),
        }
        match query(state, QueryMsg::TotalWeight {}) {
            QueryResponse::TotalWeight(total) => assert_eq!(sum, total),
            other => panic!("unexpected response {:?}", other),
        }
    }
}

fn assert_stake(state: &StakeState, user1_stake: u128, user2_stake: u128, user3_stake: u128) {
    assert_eq!(query_staked(state, USER1.into()).stake, user1_stake);
    assert_eq!(query_staked(state, USER2.into()).stake, user2_stake);
    assert_eq!(query_staked(state, USER3.into()).stake, user3_stake);
}

fn get_claims(state: &StakeState, addr: &str) -> Vec<Claim> {
    match query(state, QueryMsg::Claims { address: addr.to_string() }) {
        QueryResponse::Claims(c) => c,
        other => panic!("unexpected response {:?}", other),
    }
}

#[test]
fn proper_instantiation() {
    let state = default_instantiate();
    match query(&state, QueryMsg::TotalWeight {}) {
        QueryResponse::TotalWeight(total) => assert_eq!(0, total),
        other => panic!("unexpected response {:?}", other),
    }
}

#[test]
fn bond_stake_adds_membership() {
    let mut state = default_instantiate();
    let height = HEIGHT;

    // Assert initial weights
    assert_users(&state, None, None, None, None);

    // ensure it rounds down, and respects cut-off
    bond(&mut state, 12_000, 7_500, 4_000, 1);

    // Assert updated weights
    assert_stake(&state, 12_000, 7_500, 4_000);
    assert_users(&state, Some(12), Some(7), None, None);

    // add some more, ensure the sum is properly respected (7.5 + 7.6 = 15 not 14)
    bond(&mut state, 0, 7_600, 1_200, 2);

    // Assert updated weights
    assert_stake(&state, 12_000, 15_100, 5_200);
    assert_users(&state, Some(12), Some(15), Some(5), None);

    // check historical queries: a weight holds from the height at which it
    // was written on
    assert_users(&state, None, None, None, Some(height)); // before first stake
    assert_users(&state, Some(12), Some(7), None, Some(height + 1)); // after first stake
    assert_users(&state, Some(12), Some(15), Some(5), Some(height + 2)); // after second stake
    assert_users(&state, Some(12), Some(15), Some(5), Some(height + 3));
}

#[test]
fn unbond_stake_update_membership() {
    let mut state = default_instantiate();
    let height = HEIGHT;

    // ensure it rounds down, and respects cut-off
    bond(&mut state, 12_000, 7_500, 4_000, 1);
    unbond(&mut state, 4_500, 2_600, 1_111, 2);

    // Assert updated weights
    assert_stake(&state, 7_500, 4_900, 2_889);
    assert_users(&state, Some(7), None, None, None);

    // Adding a little more returns weight
    bond(&mut state, 600, 100, 2_222, 3);

    // Assert updated weights
    assert_users(&state, Some(8), Some(5), Some(5), None);

    // check historical queries all work
    assert_users(&state, None, None, None, Some(height)); // before first stake
    assert_users(&state, Some(12), Some(7), None, Some(height + 1)); // after first bond
    assert_users(&state, Some(7), None, None, Some(height + 2)); // after first unbond
    assert_users(&state, Some(8), Some(5), Some(5), Some(height + 3)); // after second bond
    assert_users(&state, Some(8), Some(5), Some(5), Some(height + 4));

    // error if try to unbond more than stake (USER2 has 5000 staked)
    let msg = ExecuteMsg::Unbond { tokens: 5100 };
    let err = execute(&mut state, &block_at(5), &vec![], info(USER2, vec![]), msg).unwrap_err();
    assert_eq!(
        err,
        ContractError::Overflow(OverflowError::new(OverflowOperation::Sub, 5000, 5100))
    );
}

#[test]
fn cw20_token_bond() {
    let mut state = cw20_instantiate(Duration::Height(2000));

    // Assert initial weights
    assert_users(&state, None, None, None, None);

    // ensure it rounds down, and respects cut-off
    bond_cw20(&mut state, 12_000, 7_500, 4_000, 1);

    // Assert updated weights
    assert_stake(&state, 12_000, 7_500, 4_000);
    assert_users(&state, Some(12), Some(7), None, None);
}

#[test]
fn cw20_token_claim() {
    let unbonding_period: u64 = 50;
    let unbond_height: u64 = 10;

    let unbonding = Duration::Height(unbonding_period);
    let mut state = cw20_instantiate(unbonding);

    // bond some tokens
    bond_cw20(&mut state, 20_000, 13_500, 500, 1);

    // unbond part
    unbond(&mut state, 7_900, 4_600, 0, unbond_height);

    // Assert updated weights
    assert_stake(&state, 12_100, 8_900, 500);
    assert_users(&state, Some(12), Some(8), None, None);

    // with proper claims
    let mut block = block_at(unbond_height);
    let expires = unbonding.after(&block);
    assert_eq!(get_claims(&state, USER1), vec![Claim::new(7_900, expires)]);

    // wait til they expire and get payout
    block.height += unbonding_period;
    let res = execute(&mut state, &block, &vec![], info(USER1, vec![]), ExecuteMsg::Claim {}).unwrap();
    assert_eq!(res.messages.len(), 1);
    match &res.messages[0] {
        SubMsg::Cw20Transfer { contract_addr, recipient, amount } => {
            assert_eq!(contract_addr.as_str(), CW20_ADDRESS);
            assert_eq!(recipient.as_str(), USER1);
            assert_eq!(*amount, 7_900);
        }
        _ => panic!("Must initiate cw20 transfer"),
    }
}

#[test]
fn raw_queries_work() {
    let mut state = default_instantiate();
    // Set values as (11, 6, None)
    bond(&mut state, 11_000, 6_000, 0, 1);

    // get total
    assert_eq!(17, state.total());

    // get member votes
    assert_eq!(Some(6), get_member(&state, USER2, None));

    // and execute misses
    assert_eq!(None, get_member(&state, USER3, None));
}

#[test]
fn unbond_claim_workflow() {
    let mut state = default_instantiate();

    // create some data
    bond(&mut state, 12_000, 7_500, 4_000, 1);
    unbond(&mut state, 4_500, 2_600, 0, 2);
    let block = block_at(2);

    // check the claims for each user
    let expires = Duration::Height(UNBONDING_BLOCKS).after(&block);
    assert_eq!(get_claims(&state, USER1), vec![Claim::new(4_500, expires)]);
    assert_eq!(get_claims(&state, USER2), vec![Claim::new(2_600, expires)]);
    assert_eq!(get_claims(&state, USER3), vec![]);

    // do another unbond later on
    let block2 = block_at(22);
    unbond(&mut state, 0, 1_345, 1_500, 22);

    // with updated claims
    let expires2 = Duration::Height(UNBONDING_BLOCKS).after(&block2);
    assert_eq!(get_claims(&state, USER1), vec![Claim::new(4_500, expires)]);
    assert_eq!(
        get_claims(&state, USER2),
        vec![Claim::new(2_600, expires), Claim::new(1_345, expires2)]
    );
    assert_eq!(get_claims(&state, USER3), vec![Claim::new(1_500, expires2)]);

    // nothing can be withdrawn yet
    let err = execute(&mut state, &block2, &vec![], info(USER1, vec![]), ExecuteMsg::Claim {})
        .unwrap_err();
    assert_eq!(err, ContractError::NothingToClaim);

    // now mature first section, withdraw that
    let block3 = block_at(2 + UNBONDING_BLOCKS);
    // first one can now release
    let res = execute(&mut state, &block3, &vec![], info(USER1, vec![]), ExecuteMsg::Claim {})
        .unwrap();
    assert_eq!(
        res.messages,
        vec![SubMsg::BankSend { to_address: USER1.into(), denom: DENOM.into(), amount: 4_500 }]
    );

    // second releases partially
    let res = execute(&mut state, &block3, &vec![], info(USER2, vec![]), ExecuteMsg::Claim {})
        .unwrap();
    assert_eq!(
        res.messages,
        vec![SubMsg::BankSend { to_address: USER2.into(), denom: DENOM.into(), amount: 2_600 }]
    );

    // but the third one cannot release
    let err = execute(&mut state, &block3, &vec![], info(USER3, vec![]), ExecuteMsg::Claim {})
        .unwrap_err();
    assert_eq!(err, ContractError::NothingToClaim);

    // claims updated properly
    assert_eq!(get_claims(&state, USER1), vec![]);
    assert_eq!(get_claims(&state, USER2), vec![Claim::new(1_345, expires2)]);
    assert_eq!(get_claims(&state, USER3), vec![Claim::new(1_500, expires2)]);

    // add another few claims for 2
    unbond(&mut state, 0, 600, 0, 30 + UNBONDING_BLOCKS);
    unbond(&mut state, 0, 1_005, 0, 50 + UNBONDING_BLOCKS);

    // ensure second can claim all tokens at once
    let block4 = block_at(55 + UNBONDING_BLOCKS + UNBONDING_BLOCKS);
    let res = execute(&mut state, &block4, &vec![], info(USER2, vec![]), ExecuteMsg::Claim {})
        .unwrap();
    assert_eq!(
        res.messages,
        // 1_345 + 600 + 1_005
        vec![SubMsg::BankSend { to_address: USER2.into(), denom: DENOM.into(), amount: 2_950 }]
    );
    assert_eq!(get_claims(&state, USER2), vec![]);
}

#[test]
fn hooks_fire() {
    let mut state = default_instantiate();
    let contract1 = String::from("hook1");
    let contract2 = String::from("hook2");
    let hooks = vec![contract1.clone(), contract2.clone()];
    let block = block_at(0);

    // check firing on bond
    assert_users(&state, None, None, None, None);
    let res = execute(&mut state, &block, &hooks, info(USER1, coins(13_800, DENOM)), ExecuteMsg::Bond {})
        .unwrap();
    assert_users(&state, Some(13), None, None, None);

    // ensure messages for each of the 2 hooks
    assert_eq!(res.messages.len(), 2);
    let diff = MemberDiff::new(USER1.into(), None, Some(13));
    let msg1 = SubMsg::MemberChanged { contract_addr: contract1.clone(), diff: diff.clone() };
    let msg2 = SubMsg::MemberChanged { contract_addr: contract2.clone(), diff };
    assert_eq!(res.messages, vec![msg1, msg2]);

    // check firing on unbond
    let msg = ExecuteMsg::Unbond { tokens: 7_300 };
    let res = execute(&mut state, &block, &hooks, info(USER1, vec![]), msg).unwrap();
    assert_users(&state, Some(6), None, None, None);

    // ensure messages for each of the 2 hooks
    assert_eq!(res.messages.len(), 2);
    let diff = MemberDiff::new(USER1.into(), Some(13), Some(6));
    let msg1 = SubMsg::MemberChanged { contract_addr: contract1, diff: diff.clone() };
    let msg2 = SubMsg::MemberChanged { contract_addr: contract2, diff };
    assert_eq!(res.messages, vec![msg1, msg2]);
}

#[test]
fn only_bond_valid_coins() {
    let mut state = default_instantiate();
    let block = block_at(0);

    // cannot bond with 0 coins
    let err = execute(&mut state, &block, &vec![], info(USER1, vec![]), ExecuteMsg::Bond {})
        .unwrap_err();
    assert_eq!(err, ContractError::NoFunds);

    // cannot bond with incorrect denom
    let err = execute(&mut state, &block, &vec![], info(USER1, coins(500, "FOO")), ExecuteMsg::Bond {})
        .unwrap_err();
    assert_eq!(err, ContractError::MissingDenom(DENOM.to_string()));

    // cannot bond with 2 coins (even if one is correct)
    let two = vec![
        Coin { denom: DENOM.to_string(), amount: 1234 },
        Coin { denom: "BAR".to_string(), amount: 5000 },
    ];
    let err = execute(&mut state, &block, &vec![], info(USER1, two), ExecuteMsg::Bond {}).unwrap_err();
    assert_eq!(err, ContractError::ExtraDenoms(DENOM.to_string()));

    // can bond with just the proper denom
    execute(&mut state, &block, &vec![], info(USER1, coins(500, DENOM)), ExecuteMsg::Bond {}).unwrap();
}

#[test]
fn ensure_bonding_edge_cases() {
    // use min_bond 0, tokens_per_weight 100
    let mut state = do_instantiate(100, 0, Duration::Height(5));

    // setting 50 tokens, gives us Some(0) weight
    // even setting to 1 token
    bond(&mut state, 50, 1, 102, 1);
    assert_users(&state, Some(0), Some(0), Some(1), None);

    // reducing to 0 token makes us None even with min_bond 0
    unbond(&mut state, 49, 1, 102, 2);
    assert_users(&state, Some(0), None, None, None);
}

#[test]
fn claims_expire_by_time() {
    let mut state = do_instantiate(TOKENS_PER_WEIGHT, MIN_BOND, Duration::Time(60));
    bond(&mut state, 10_000, 0, 0, 1);
    unbond(&mut state, 3_000, 0, 0, 2);
    assert_eq!(
        get_claims(&state, USER1),
        vec![Claim::new(3_000, Expiration::AtTime(TIME + 60_000_000_000))]
    );
    // the height moves on, the time does not: nothing matures
    let later = BlockInfo { height: HEIGHT + 1_000, time: TIME + 59_999_999_999 };
    let err = execute(&mut state, &later, &vec![], info(USER1, vec![]), ExecuteMsg::Claim {})
        .unwrap_err();
    assert_eq!(err, ContractError::NothingToClaim);
    let due = BlockInfo { height: HEIGHT + 1_000, time: TIME + 60_000_000_000 };
    let res = execute(&mut state, &due, &vec![], info(USER1, vec![]), ExecuteMsg::Claim {}).unwrap();
    assert_eq!(res.amount, 3_000);
}
