//! Staking of inference workers: a worker stakes at least the minimum, is
//! credited a fixed reward per submitted inference, claims its pending
//! rewards, and unstakes. Refused calls leave the state as it was.
use std::collections::HashMap;
use vstd::prelude::*;

verus! {

broadcast use vstd::std_specs::hash::group_hash_axioms;

/// An account.
pub type AccountId = u64;

/// Who makes a call: a signed account, the root, or nobody (`Unsigned`).
#[derive(Debug, Clone, Copy, PartialEq, Eq)]
pub enum Origin {
    Signed(AccountId),
    Root,
    Unsigned,
}

/// Why a call was refused by the staking rules.
#[derive(Debug, Clone, Copy, PartialEq, Eq)]
pub enum Error {
    InsufficientStake,
    NotStaked,
    AlreadyStaked,
    NothingToClaim,
    InsufficientBalance,
    WorkerInactive,
}

/// Why a call failed: it was not signed, or the rules refused it.
#[derive(Debug, Clone, Copy, PartialEq, Eq)]
pub enum DispatchError {
    BadOrigin,
    Module(Error),
}

/// The events of the staking rules.
#[derive(Debug, Clone, Copy, PartialEq, Eq)]
pub enum Event {
    Staked { who: AccountId, amount: u128 },
    Unstaked { who: AccountId, amount: u128 },
    InferenceSubmitted { who: AccountId, _model_hash: [u8; 32], input_hash: [u8; 32] },
    RewardClaimed { who: AccountId, amount: u128 },
}

/// The constants of the staking rules.
#[derive(Debug, Clone, Copy, PartialEq, Eq)]
pub struct Config {
    pub min_stake: u128,
    pub reward_per_inference: u128,
}

/// The staking state: stake and activity, inference count, and pending
/// rewards of each account that has an entry.
pub struct StakingView {
    pub stakes: Map<AccountId, (u128, bool)>,
    pub counts: Map<AccountId, u64>,
    pub pending: Map<AccountId, u128>,
}

impl StakingView {
    /// An account's stake and activity; `(0, false)` where it has none.
    pub open spec fn stake_of(self, who: AccountId) -> (u128, bool) {
        if self.stakes.contains_key(who) {
            self.stakes[who]
        } else {
            (0, false)
        }
    }

    /// An account's inference count; 0 where it has none.
    pub open spec fn count_of(self, who: AccountId) -> u64 {
        if self.counts.contains_key(who) {
            self.counts[who]
        } else {
            0
        }
    }

    /// An account's pending rewards; 0 where it has none.
    pub open spec fn pending_of(self, who: AccountId) -> u128 {
        if self.pending.contains_key(who) {
            self.pending[who]
        } else {
            0
        }
    }

    /// What every reachable state satisfies: counts and rewards belong to
    /// staked accounts, every stake is active and at least the minimum,
    /// and pending rewards never exceed the reward of the counted inferences.
    pub open spec fn consistent(self, config: Config) -> bool {
        &&& forall|who: AccountId| #[trigger]
            self.counts.contains_key(who) ==> self.stakes.contains_key(who)
        &&& forall|who: AccountId| #[trigger]
            self.pending.contains_key(who) ==> self.stakes.contains_key(who)
        &&& forall|who: AccountId| #[trigger]
            self.stakes.contains_key(who) ==> self.stakes[who].1 && self.stakes[who].0
                >= config.min_stake
        &&& forall|who: AccountId|
            #[trigger] self.pending_of(who) <= self.count_of(who) as int
                * config.reward_per_inference as int
    }
}

/// The empty state.
pub open spec fn empty_view() -> StakingView {
    StakingView { stakes: Map::empty(), counts: Map::empty(), pending: Map::empty() }
}

/// The account that signed `origin`.
pub open spec fn signer(origin: Origin) -> Option<AccountId> {
    match origin {
        Origin::Signed(who) => Some(who),
        _ => None,
    }
}

/// What `submit_inference` answers and leaves, from the state, the constants
/// and the origin alone: the model and input hashes take no part. A signer
/// without a positive stake is refused with `NotStaked`, an inactive one with
/// `WorkerInactive`; otherwise the count goes up by one and the pending
/// rewards by the reward per inference.
pub open spec fn submit_outcome(v: StakingView, config: Config, origin: Origin) -> (
    Result<(), DispatchError>,
    StakingView,
) {
    match signer(origin) {
        None => (Err(DispatchError::BadOrigin), v),
        Some(who) => if v.stake_of(who).0 == 0 {
            (Err(DispatchError::Module(Error::NotStaked)), v)
        } else if !v.stake_of(who).1 {
            (Err(DispatchError::Module(Error::WorkerInactive)), v)
        } else {
            (
                Ok(()),
                StakingView {
                    counts: v.counts.insert(who, (v.count_of(who) + 1) as u64),
                    pending: v.pending.insert(
                        who,
                        (v.pending_of(who) + config.reward_per_inference) as u128,
                    ),
                    ..v
                },
            )
        },
    }
}

/// A state that differs from a consistent one only in the entries of `who`
/// is consistent when those entries are.
pub proof fn lemma_consistent_after_change(
    before: StakingView,
    after: StakingView,
    config: Config,
    who: AccountId,
)
    requires
        before.consistent(config),
        after.stakes.remove(who) == before.stakes.remove(who),
        after.counts.remove(who) == before.counts.remove(who),
        after.pending.remove(who) == before.pending.remove(who),
        after.counts.contains_key(who) ==> after.stakes.contains_key(who),
        after.pending.contains_key(who) ==> after.stakes.contains_key(who),
        after.stakes.contains_key(who) ==> after.stakes[who].1 && after.stakes[who].0
            >= config.min_stake,
        after.pending_of(who) <= after.count_of(who) as int * config.reward_per_inference as int,
    ensures
        after.consistent(config),
{
    assert forall|a: AccountId| a != who implies {
        &&& after.stakes.contains_key(a) == before.stakes.contains_key(a)
        &&& after.counts.contains_key(a) == before.counts.contains_key(a)
        &&& after.pending.contains_key(a) == before.pending.contains_key(a)
        &&& #[trigger] after.stake_of(a) == before.stake_of(a)
        &&& after.count_of(a) == before.count_of(a)
        &&& after.pending_of(a) == before.pending_of(a)
    } by {
        assert(after.stakes.contains_key(a) == after.stakes.remove(who).contains_key(a));
        assert(before.stakes.contains_key(a) == before.stakes.remove(who).contains_key(a));
        assert(after.counts.contains_key(a) == after.counts.remove(who).contains_key(a));
        assert(before.counts.contains_key(a) == before.counts.remove(who).contains_key(a));
        assert(after.pending.contains_key(a) == after.pending.remove(who).contains_key(a));
        assert(before.pending.contains_key(a) == before.pending.remove(who).contains_key(a));
        if after.stakes.contains_key(a) {
            assert(after.stakes[a] == after.stakes.remove(who)[a]);
            assert(before.stakes[a] == before.stakes.remove(who)[a]);
        }
        if after.counts.contains_key(a) {
            assert(after.counts[a] == after.counts.remove(who)[a]);
            assert(before.counts[a] == before.counts.remove(who)[a]);
        }
        if after.pending.contains_key(a) {
            assert(after.pending[a] == after.pending.remove(who)[a]);
            assert(before.pending[a] == before.pending.remove(who)[a]);
        }
    }
    assert forall|a: AccountId| #[trigger] after.counts.contains_key(a) implies after.stakes.contains_key(a) by {
        if a != who {
            assert(after.stake_of(a) == before.stake_of(a));
        }
    }
    assert forall|a: AccountId| #[trigger] after.pending.contains_key(a) implies after.stakes.contains_key(a) by {
        if a != who {
            assert(after.stake_of(a) == before.stake_of(a));
        }
    }
    assert forall|a: AccountId| #[trigger] after.stakes.contains_key(a) implies after.stakes[a].1
        && after.stakes[a].0 >= config.min_stake by {
        if a != who {
            assert(after.stake_of(a) == before.stake_of(a));
        }
    }
    assert forall|a: AccountId|
        #[trigger] after.pending_of(a) <= after.count_of(a) as int * config.reward_per_inference as int by {
        if a != who {
            assert(after.stake_of(a) == before.stake_of(a));
            assert(before.pending_of(a) <= before.count_of(a) as int * config.reward_per_inference as int);
        }
    }
}

/// A successful submission credits exactly one reward on top of what was
/// pending (whatever was claimed or submitted before), counts exactly one
/// more inference, and touches no stake and no other account. A refused one
/// changes nothing.
pub proof fn lemma_submit_credits_one_reward(v: StakingView, config: Config, origin: Origin)
    requires
        match signer(origin) {
            Some(who) => v.stake_of(who).0 > 0 ==> {
                &&& v.count_of(who) < u64::MAX
                &&& v.pending_of(who) + config.reward_per_inference <= u128::MAX
            },
            None => true,
        },
    ensures
        ({
            let (result, after) = submit_outcome(v, config, origin);
            &&& result is Ok ==> ({
                let who = signer(origin)->0;
                &&& signer(origin) is Some
                &&& after.pending_of(who) == v.pending_of(who) + config.reward_per_inference
                &&& after.count_of(who) == v.count_of(who) + 1
                &&& after.stakes == v.stakes
                &&& forall|a: AccountId|
                    a != who ==> #[trigger] after.pending_of(a) == v.pending_of(a)
                        && after.count_of(a) == v.count_of(a)
            })
            &&& result is Err ==> after == v
        }),
{
}

/// The signer of a call, or `BadOrigin`.
pub fn ensure_signed(origin: Origin) -> (who: Result<AccountId, DispatchError>)
    ensures
        match signer(origin) {
            Some(a) => who == Ok::<AccountId, DispatchError>(a),
            None => who == Err::<AccountId, DispatchError>(DispatchError::BadOrigin),
        },
{
    match origin {
        Origin::Signed(who) => Ok(who),
        _ => Err(DispatchError::BadOrigin),
    }
}

/// The staking rules and their state.
pub struct Pallet {
    config: Config,
    stake_info: HashMap<AccountId, (u128, bool)>,
    inference_count: HashMap<AccountId, u64>,
    pending_rewards: HashMap<AccountId, u128>,
}

impl View for Pallet {
    type V = StakingView;

    closed spec fn view(&self) -> StakingView {
        StakingView {
            stakes: self.stake_info@,
            counts: self.inference_count@,
            pending: self.pending_rewards@,
        }
    }
}

impl Pallet {
    /// The constants the rules were set up with.
    pub closed spec fn config(&self) -> Config {
        self.config
    }

    #[verifier::type_invariant]
    closed spec fn reachable(self) -> bool {
        self@.consistent(self.config)
    }

    /// No account staked yet.
    pub fn new(config: Config) -> (pallet: Self)
        ensures
            pallet@ == empty_view(),
            pallet.config() == config,
            pallet@.consistent(pallet.config()),
    {
        let pallet = Pallet {
            config,
            stake_info: HashMap::new(),
            inference_count: HashMap::new(),
            pending_rewards: HashMap::new(),
        };
        assert(pallet@.stakes =~= Map::empty());
        assert(pallet@.counts =~= Map::empty());
        assert(pallet@.pending =~= Map::empty());
        pallet
    }

    /// Moves the state out, leaving an empty pallet with the same constants.
    fn take_parts(&mut self) -> (parts: (
        Config,
        HashMap<AccountId, (u128, bool)>,
        HashMap<AccountId, u64>,
        HashMap<AccountId, u128>,
    ))
        ensures
            parts.0 == old(self).config(),
            parts.1@ == old(self)@.stakes,
            parts.2@ == old(self)@.counts,
            parts.3@ == old(self)@.pending,
            old(self)@.consistent(old(self).config()),
    {
        proof {
            use_type_invariant(&*self);
        }
        let mut taken = Pallet::new(self.config);
        std::mem::swap(&mut taken, self);
        let Pallet { config, stake_info, inference_count, pending_rewards } = taken;
        (config, stake_info, inference_count, pending_rewards)
    }

    /// Puts a consistent state back together.
    fn from_parts(
        config: Config,
        stake_info: HashMap<AccountId, (u128, bool)>,
        inference_count: HashMap<AccountId, u64>,
        pending_rewards: HashMap<AccountId, u128>,
    ) -> (pallet: Pallet)
        requires
            (StakingView {
                stakes: stake_info@,
                counts: inference_count@,
                pending: pending_rewards@,
            }).consistent(config),
        ensures
            pallet.config() == config,
            pallet@ == (StakingView {
                stakes: stake_info@,
                counts: inference_count@,
                pending: pending_rewards@,
            }),
    {
        Pallet { config, stake_info, inference_count, pending_rewards }
    }

    /// An account's stake and whether it is active; `(0, false)` if none.
    pub fn stake_info(&self, who: AccountId) -> (info: (u128, bool))
        ensures
            info == self@.stake_of(who),
    {
        match self.stake_info.get(&who) {
            Some(v) => *v,
            None => (0, false),
        }
    }

    /// An account's inference count; 0 if none.
    pub fn inference_count(&self, who: AccountId) -> (count: u64)
        ensures
            count == self@.count_of(who),
    {
        match self.inference_count.get(&who) {
            Some(v) => *v,
            None => 0,
        }
    }

    /// An account's pending rewards; 0 if none.
    pub fn pending_rewards(&self, who: AccountId) -> (rewards: u128)
        ensures
            rewards == self@.pending_of(who),
    {
        match self.pending_rewards.get(&who) {
            Some(v) => *v,
            None => 0,
        }
    }

    /// Stakes `amount` for the signer, who must not have staked yet; the
    /// amount must be at least the minimum stake.
    pub fn stake(&mut self, origin: Origin, amount: u128) -> (result: Result<(), DispatchError>)
        ensures
            final(self).config() == old(self).config(),
            final(self)@.consistent(final(self).config()),
            match signer(origin) {
                None => result == Err::<(), DispatchError>(DispatchError::BadOrigin) && final(self)@
                    == old(self)@,
                Some(who) => if amount < old(self).config().min_stake {
                    result == Err::<(), DispatchError>(DispatchError::Module(Error::InsufficientStake))
                        && final(self)@ == old(self)@
                } else if old(self)@.stakes.contains_key(who) {
                    result == Err::<(), DispatchError>(DispatchError::Module(Error::AlreadyStaked))
                        && final(self)@ == old(self)@
                } else {
                    result == Ok::<(), DispatchError>(()) && final(self)@ == (StakingView {
                        stakes: old(self)@.stakes.insert(who, (amount, true)),
                        ..old(self)@
                    })
                },
            },
    {
        proof {
            use_type_invariant(&*self);
        }
        let who = match ensure_signed(origin) {
            Ok(who) => who,
            Err(e) => return Err(e),
        };
        if amount < self.config.min_stake {
            return Err(DispatchError::Module(Error::InsufficientStake));
        }
        if self.stake_info.contains_key(&who) {
            return Err(DispatchError::Module(Error::AlreadyStaked));
        }
        let ghost before = self@;
        let (config, mut stake_info, inference_count, pending_rewards) = self.take_parts();
        stake_info.insert(who, (amount, true));
        proof {
            let after = StakingView {
                stakes: stake_info@,
                counts: inference_count@,
                pending: pending_rewards@,
            };
            assert(after.stakes.remove(who) =~= before.stakes.remove(who));
            assert(after.counts.remove(who) =~= before.counts.remove(who));
            assert(after.pending.remove(who) =~= before.pending.remove(who));
            assert(!before.counts.contains_key(who));
            assert(!before.pending.contains_key(who));
            lemma_consistent_after_change(before, after, config, who);
        }
        *self = Pallet::from_parts(config, stake_info, inference_count, pending_rewards);
        Ok(())
    }

    /// Records an inference by the signer, who must be staked and active:
    /// the count goes up by one and the pending rewards by the reward per
    /// inference. The hashes are not checked.
    pub fn submit_inference(
        &mut self,
        origin: Origin,
        _model_hash: [u8; 32],
        _input_hash: [u8; 32],
    ) -> (result: Result<(), DispatchError>)
        requires
            match signer(origin) {
                Some(who) => old(self)@.stake_of(who).0 > 0 ==> {
                    &&& old(self)@.count_of(who) < u64::MAX
                    &&& old(self)@.pending_of(who) + old(self).config().reward_per_inference
                        <= u128::MAX
                },
                None => true,
            },
        ensures
            final(self).config() == old(self).config(),
            final(self)@.consistent(final(self).config()),
            result != Err::<(), DispatchError>(DispatchError::Module(Error::WorkerInactive)),
            (result, final(self)@) == submit_outcome(old(self)@, old(self).config(), origin),
            result is Ok ==> ({
                let who = signer(origin)->0;
                &&& final(self)@.pending_of(who) == old(self)@.pending_of(who)
                    + old(self).config().reward_per_inference
                &&& final(self)@.count_of(who) == old(self)@.count_of(who) + 1
                &&& final(self)@.stakes == old(self)@.stakes
                &&& forall|a: AccountId|
                    a != who ==> #[trigger] final(self)@.pending_of(a) == old(self)@.pending_of(a)
                        && final(self)@.count_of(a) == old(self)@.count_of(a)
            }),
    {
        proof {
            use_type_invariant(&*self);
        }
        let who = match ensure_signed(origin) {
            Ok(who) => who,
            Err(e) => return Err(e),
        };
        let (stake, active) = self.stake_info(who);
        if !(stake > 0) {
            return Err(DispatchError::Module(Error::NotStaked));
        }
        if !active {
            return Err(DispatchError::Module(Error::WorkerInactive));
        }
        let ghost before = self@;
        let count = self.inference_count(who);
        let reward = self.config.reward_per_inference;
        let pending = self.pending_rewards(who);
        let (config, stake_info, mut inference_count, mut pending_rewards) = self.take_parts();
        inference_count.insert(who, count + 1);
        pending_rewards.insert(who, pending + reward);
        proof {
            let after = StakingView {
                stakes: stake_info@,
                counts: inference_count@,
                pending: pending_rewards@,
            };
            assert(after.stakes.remove(who) =~= before.stakes.remove(who));
            assert(after.counts.remove(who) =~= before.counts.remove(who));
            assert(after.pending.remove(who) =~= before.pending.remove(who));
            assert(before.stakes.contains_key(who));
            let c = before.count_of(who) as int;
            assert((c + 1) * reward == c * reward + reward) by (nonlinear_arith);
            lemma_consistent_after_change(before, after, config, who);
        }
        *self = Pallet::from_parts(config, stake_info, inference_count, pending_rewards);
        proof {
            lemma_submit_credits_one_reward(before, config, origin);
        }
        Ok(())
    }

    /// Pays out the signer's pending rewards, which must be positive: they
    /// are set to 0.
    pub fn claim_reward(&mut self, origin: Origin) -> (result: Result<(), DispatchError>)
        ensures
            final(self).config() == old(self).config(),
            final(self)@.consistent(final(self).config()),
            match signer(origin) {
                None => result == Err::<(), DispatchError>(DispatchError::BadOrigin) && final(self)@
                    == old(self)@,
                Some(who) => if old(self)@.pending_of(who) == 0 {
                    result == Err::<(), DispatchError>(DispatchError::Module(Error::NothingToClaim))
                        && final(self)@ == old(self)@
                } else {
                    result == Ok::<(), DispatchError>(()) && final(self)@ == (StakingView {
                        pending: old(self)@.pending.insert(who, 0),
                        ..old(self)@
                    })
                },
            },
    {
        proof {
            use_type_invariant(&*self);
        }
        let who = match ensure_signed(origin) {
            Ok(who) => who,
            Err(e) => return Err(e),
        };
        let rewards = self.pending_rewards(who);
        if !(rewards > 0) {
            return Err(DispatchError::Module(Error::NothingToClaim));
        }
        let ghost before = self@;
        let (config, stake_info, inference_count, mut pending_rewards) = self.take_parts();
        pending_rewards.insert(who, 0);
        proof {
            let after = StakingView {
                stakes: stake_info@,
                counts: inference_count@,
                pending: pending_rewards@,
            };
            assert(after.stakes.remove(who) =~= before.stakes.remove(who));
            assert(after.counts.remove(who) =~= before.counts.remove(who));
            assert(after.pending.remove(who) =~= before.pending.remove(who));
            assert(0 <= after.count_of(who) as int * config.reward_per_inference as int)
                by (nonlinear_arith);
            lemma_consistent_after_change(before, after, config, who);
        }
        *self = Pallet::from_parts(config, stake_info, inference_count, pending_rewards);
        Ok(())
    }

    /// Removes the signer's stake, count and pending rewards; the signer
    /// must have a positive stake.
    pub fn unstake(&mut self, origin: Origin) -> (result: Result<(), DispatchError>)
        ensures
            final(self).config() == old(self).config(),
            final(self)@.consistent(final(self).config()),
            match signer(origin) {
                None => result == Err::<(), DispatchError>(DispatchError::BadOrigin) && final(self)@
                    == old(self)@,
                Some(who) => if old(self)@.stake_of(who).0 == 0 {
                    result == Err::<(), DispatchError>(DispatchError::Module(Error::NotStaked))
                        && final(self)@ == old(self)@
                } else {
                    result == Ok::<(), DispatchError>(()) && final(self)@ == (StakingView {
                        stakes: old(self)@.stakes.remove(who),
                        counts: old(self)@.counts.remove(who),
                        pending: old(self)@.pending.remove(who),
                    })
                },
            },
    {
        proof {
            use_type_invariant(&*self);
        }
        let who = match ensure_signed(origin) {
            Ok(who) => who,
            Err(e) => return Err(e),
        };
        let (amount, _) = self.stake_info(who);
        if !(amount > 0) {
            return Err(DispatchError::Module(Error::NotStaked));
        }
        let ghost before = self@;
        let (config, mut stake_info, mut inference_count, mut pending_rewards) = self.take_parts();
        stake_info.remove(&who);
        inference_count.remove(&who);
        pending_rewards.remove(&who);
        proof {
            let after = StakingView {
                stakes: stake_info@,
                counts: inference_count@,
                pending: pending_rewards@,
            };
            assert(after.stakes.remove(who) =~= before.stakes.remove(who));
            assert(after.counts.remove(who) =~= before.counts.remove(who));
            assert(after.pending.remove(who) =~= before.pending.remove(who));
            lemma_consistent_after_change(before, after, config, who);
        }
        *self = Pallet::from_parts(config, stake_info, inference_count, pending_rewards);
        Ok(())
    }
}

/// Unstaking undoes staking: an account that had no stake, stakes a
/// positive amount and unstakes again leaves the state as it was.
pub proof fn lemma_unstake_undoes_stake(
    v: StakingView,
    config: Config,
    who: AccountId,
    amount: u128,
)
    requires
        v.consistent(config),
        !v.stakes.contains_key(who),
        amount > 0,
    ensures
        ({
            let staked = StakingView { stakes: v.stakes.insert(who, (amount, true)), ..v };
            &&& staked.stake_of(who).0 > 0
            &&& (StakingView {
                stakes: staked.stakes.remove(who),
                counts: staked.counts.remove(who),
                pending: staked.pending.remove(who),
            }) == v
        }),
{
    let staked = StakingView { stakes: v.stakes.insert(who, (amount, true)), ..v };
    assert(!v.counts.contains_key(who));
    assert(!v.pending.contains_key(who));
    assert(staked.stakes.remove(who) =~= v.stakes);
    assert(staked.counts.remove(who) =~= v.counts);
    assert(staked.pending.remove(who) =~= v.pending);
}

} // verus!
