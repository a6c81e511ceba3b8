use quanta_l1::staking::{Config, DispatchError, Error, Origin, Pallet};

fn pallet() -> Pallet {
    Pallet::new(Config { min_stake: 10, reward_per_inference: 5 })
}

#[test]
fn stake_records_active_stake() {
    let mut p = pallet();
    assert_eq!(p.stake(Origin::Signed(1), 10), Ok(()));
    assert_eq!(p.stake_info(1), (10, true));
    assert_eq!(p.stake_info(2), (0, false));
}

#[test]
fn stake_below_minimum_is_refused() {
    let mut p = pallet();
    assert_eq!(p.stake(Origin::Signed(1), 9), Err(DispatchError::Module(Error::InsufficientStake)));
    assert_eq!(p.stake_info(1), (0, false));
}

#[test]
fn staking_twice_is_refused() {
    let mut p = pallet();
    p.stake(Origin::Signed(1), 100).unwrap();
    assert_eq!(p.stake(Origin::Signed(1), 50), Err(DispatchError::Module(Error::AlreadyStaked)));
    assert_eq!(p.stake_info(1), (100, true));
}

#[test]
fn unsigned_calls_are_refused() {
    let mut p = pallet();
    assert_eq!(p.stake(Origin::Root, 100), Err(DispatchError::BadOrigin));
    assert_eq!(p.stake(Origin::Unsigned, 100), Err(DispatchError::BadOrigin));
    assert_eq!(p.submit_inference(Origin::Root, [0; 32], [0; 32]), Err(DispatchError::BadOrigin));
    assert_eq!(p.claim_reward(Origin::Unsigned), Err(DispatchError::BadOrigin));
    assert_eq!(p.unstake(Origin::Root), Err(DispatchError::BadOrigin));
}

#[test]
fn inference_counts_and_rewards() {
    let mut p = pallet();
    p.stake(Origin::Signed(1), 10).unwrap();
    assert_eq!(p.submit_inference(Origin::Signed(1), [1; 32], [2; 32]), Ok(()));
    assert_eq!(p.submit_inference(Origin::Signed(1), [3; 32], [4; 32]), Ok(()));
    assert_eq!(p.inference_count(1), 2);
    assert_eq!(p.pending_rewards(1), 10);
}

#[test]
fn inference_without_stake_is_refused() {
    let mut p = pallet();
    assert_eq!(
        p.submit_inference(Origin::Signed(7), [0; 32], [0; 32]),
        Err(DispatchError::Module(Error::NotStaked))
    );
    assert_eq!(p.inference_count(7), 0);
}

#[test]
fn claim_resets_pending_rewards() {
    let mut p = pallet();
    p.stake(Origin::Signed(1), 10).unwrap();
    p.submit_inference(Origin::Signed(1), [0; 32], [0; 32]).unwrap();
    assert_eq!(p.claim_reward(Origin::Signed(1)), Ok(()));
    assert_eq!(p.pending_rewards(1), 0);
    assert_eq!(p.inference_count(1), 1);
    assert_eq!(p.claim_reward(Origin::Signed(1)), Err(DispatchError::Module(Error::NothingToClaim)));
}

#[test]
fn claim_with_nothing_pending_is_refused() {
    let mut p = pallet();
    p.stake(Origin::Signed(1), 10).unwrap();
    assert_eq!(p.claim_reward(Origin::Signed(1)), Err(DispatchError::Module(Error::NothingToClaim)));
}

#[test]
fn unstake_clears_everything() {
    let mut p = pallet();
    p.stake(Origin::Signed(1), 10).unwrap();
    p.submit_inference(Origin::Signed(1), [0; 32], [0; 32]).unwrap();
    assert_eq!(p.unstake(Origin::Signed(1)), Ok(()));
    assert_eq!(p.stake_info(1), (0, false));
    assert_eq!(p.inference_count(1), 0);
    assert_eq!(p.pending_rewards(1), 0);
    assert_eq!(p.unstake(Origin::Signed(1)), Err(DispatchError::Module(Error::NotStaked)));
    assert_eq!(p.stake(Origin::Signed(1), 20), Ok(()));
}

#[test]
fn zero_stake_with_zero_minimum_counts_as_not_staked() {
    let mut p = Pallet::new(Config { min_stake: 0, reward_per_inference: 5 });
    assert_eq!(p.stake(Origin::Signed(3), 0), Ok(()));
    assert_eq!(p.stake(Origin::Signed(3), 1), Err(DispatchError::Module(Error::AlreadyStaked)));
    assert_eq!(
        p.submit_inference(Origin::Signed(3), [0; 32], [0; 32]),
        Err(DispatchError::Module(Error::NotStaked))
    );
    assert_eq!(p.unstake(Origin::Signed(3)), Err(DispatchError::Module(Error::NotStaked)));
}

#[test]
fn accounts_are_independent() {
    let mut p = pallet();
    p.stake(Origin::Signed(1), 10).unwrap();
    p.stake(Origin::Signed(2), 30).unwrap();
    p.submit_inference(Origin::Signed(2), [0; 32], [0; 32]).unwrap();
    assert_eq!(p.pending_rewards(1), 0);
    assert_eq!(p.pending_rewards(2), 5);
    p.unstake(Origin::Signed(1)).unwrap();
    assert_eq!(p.stake_info(2), (30, true));
    assert_eq!(p.inference_count(2), 1);
}
