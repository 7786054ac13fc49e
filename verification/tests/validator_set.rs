use snarkvm_app::field::{AccountAddress, Address, PublicKey};
use snarkvm_app::validator::{Stake, Validator, MAX_VOTING_POWER};
use snarkvm_app::validator_set::{
    Reward, StakeError, ValidatorSet, BASELINE_BLOCK_REWARD, MAX_FEE_POT, PROPOSER_REWARD_PERCENTAGE,
};

fn address(n: u64) -> Address {
    Address { w0: n, w1: 0, w2: 0 }
}

fn account(n: u64) -> AccountAddress {
    AccountAddress { w0: n, w1: 0, w2: 0, w3: 1 }
}

fn pub_key(n: u64) -> PublicKey {
    PublicKey { w0: n, w1: 2, w2: 0, w3: 0 }
}

fn validator(n: u64, power: u64) -> Validator {
    Validator { address: address(n), pub_key: pub_key(n), aleo_address: account(n), voting_power: power }
}

fn stake(n: u64, delta: i64) -> Stake {
    Stake { address: address(n), pub_key: pub_key(n), aleo_address: account(n), gates_delta: delta }
}

fn reward(n: u64, gates: u64) -> Reward {
    Reward { address: address(n), owner: account(n), gates }
}

fn set_of(validators: Vec<Validator>) -> ValidatorSet {
    let mut set = ValidatorSet::new();
    set.replace(validators);
    set
}

#[test]
fn the_constants_of_the_reward_policy() {
    assert_eq!(BASELINE_BLOCK_REWARD, 100);
    assert_eq!(PROPOSER_REWARD_PERCENTAGE, 50);
    assert_eq!(MAX_FEE_POT, u64::MAX - BASELINE_BLOCK_REWARD);
    assert_eq!(MAX_VOTING_POWER, i64::MAX as u64);
}

#[test]
fn a_validator_is_addressed_by_the_hash_of_its_key() {
    // the point (0, 1) of the curve
    let mut bytes = [0u8; 32];
    bytes[0] = 1;
    let key = PublicKey::from_le_bytes(&bytes).unwrap();
    let expected = tendermint::account::Id::from(
        tendermint::PublicKey::from_raw_ed25519(&bytes).unwrap().ed25519().unwrap(),
    );
    let v = Validator::new(key, account(5), 12).unwrap();
    assert_eq!(v.address.to_le_bytes(), expected.as_bytes());
    assert_eq!(v.pub_key, key);
    assert_eq!(v.aleo_address, account(5));
    assert_eq!(v.voting_power, 12);
    let digits = "0100000000000000000000000000000000000000000000000000000000000000";
    assert_eq!(Stake::new(digits, account(5), -6).unwrap().address, v.address);
    assert_eq!(Stake::new(digits, account(5), -6).unwrap().pub_key, key);
    assert_eq!(snarkvm_app::validator::address_for_text(digits), Some(v.address));
    assert_eq!(snarkvm_app::validator::address_for_text("v"), None);
}

#[test]
fn replace_loads_the_validators() {
    let set = set_of(vec![validator(1, 10), validator(2, 20)]);
    assert_eq!(set.validators(), vec![validator(1, 10), validator(2, 20)]);
    assert_eq!(set.effective(address(2)), Some(validator(2, 20)));
    assert_eq!(set.effective(address(3)), None);
    assert!(set.pending_updates().is_empty());
}

#[test]
fn replace_lets_the_last_of_one_address_count() {
    let late = Validator { voting_power: 99, aleo_address: account(7), ..validator(1, 10) };
    let set = set_of(vec![validator(1, 10), validator(2, 20), late]);
    assert_eq!(set.validators(), vec![late, validator(2, 20)]);
    let mut set = set;
    set.replace(vec![validator(5, 1)]);
    assert_eq!(set.validators(), vec![validator(5, 1)]);
}

#[test]
fn validate_says_why_a_change_is_not_admissible() {
    let set = set_of(vec![validator(1, 10)]);
    assert_eq!(set.validate(&stake(1, 5)), Ok(()));
    assert_eq!(set.validate(&stake(1, -10)), Ok(()));
    assert_eq!(set.validate(&stake(1, -11)), Err(StakeError::InsufficientPower));
    assert_eq!(set.validate(&stake(2, -1)), Err(StakeError::UnknownValidator));
    assert_eq!(set.validate(&stake(2, 0)), Ok(()));
    assert_eq!(set.validate(&stake(2, 7)), Ok(()));
    assert_eq!(set.validate(&stake(2, i64::MAX)), Ok(()));
    assert_eq!(set.validate(&stake(1, i64::MAX)), Err(StakeError::PowerOverflow));
    assert_eq!(set.validate(&stake(1, i64::MAX - 10)), Ok(()));
    let big = set_of(vec![validator(1, u64::MAX)]);
    assert_eq!(big.validate(&stake(1, 0)), Err(StakeError::PowerOverflow));
    assert_eq!(big.validate(&stake(1, i64::MIN)), Ok(()));
}

#[test]
fn validate_counts_what_is_queued() {
    let mut set = set_of(vec![validator(1, 10)]);
    set.apply(stake(1, -8));
    assert_eq!(set.effective(address(1)), Some(validator(1, 2)));
    assert_eq!(set.validate(&stake(1, -3)), Err(StakeError::InsufficientPower));
    assert_eq!(set.validate(&stake(1, -2)), Ok(()));
    set.apply(stake(2, 4));
    assert_eq!(set.validate(&stake(2, -4)), Ok(()));
    assert_eq!(set.validate(&stake(2, -5)), Err(StakeError::InsufficientPower));
}

#[test]
fn apply_queues_and_leaves_the_live_set() {
    let mut set = set_of(vec![validator(1, 10), validator(2, 20)]);
    set.apply(stake(2, 5));
    set.apply(stake(3, 7));
    set.apply(stake(2, -1));
    assert_eq!(set.validators(), vec![validator(1, 10), validator(2, 20)]);
    assert_eq!(set.pending_updates(), vec![validator(2, 24), validator(3, 7)]);
    set.commit();
    assert_eq!(set.validators(), vec![validator(1, 10), validator(2, 24), validator(3, 7)]);
    assert!(set.pending_updates().is_empty());
}

#[test]
fn apply_keeps_who_the_validator_is() {
    let mut set = set_of(vec![validator(1, 10)]);
    // staked from another account, under another key: the validator stays
    set.apply(Stake { address: address(1), pub_key: pub_key(9), aleo_address: account(9), gates_delta: 5 });
    assert_eq!(set.pending_updates(), vec![validator(1, 15)]);
    // a new validator is as the stake names it
    set.apply(Stake { address: address(2), pub_key: pub_key(8), aleo_address: account(7), gates_delta: 5 });
    assert_eq!(
        set.effective(address(2)),
        Some(Validator { address: address(2), pub_key: pub_key(8), aleo_address: account(7), voting_power: 5 })
    );
}

#[test]
fn apply_skips_what_is_not_admissible() {
    let mut set = set_of(vec![validator(1, 10)]);
    set.apply(stake(1, -11));
    set.apply(stake(2, -1));
    set.apply(stake(1, i64::MAX));
    assert!(set.pending_updates().is_empty());
    assert_eq!(set.effective(address(1)), Some(validator(1, 10)));
    assert_eq!(set.effective(address(2)), None);
}

#[test]
fn pending_updates_names_only_changed_power() {
    let mut set = set_of(vec![validator(1, 10), validator(2, 20)]);
    set.apply(stake(1, 5));
    set.apply(stake(1, -5));
    set.apply(stake(2, -20));
    set.apply(stake(3, 4));
    set.apply(stake(3, -4));
    set.apply(stake(4, 0));
    // 1 is back where it was, 3 and 4 never had power
    assert_eq!(set.pending_updates(), vec![validator(2, 0)]);
    set.commit();
    assert_eq!(set.validators(), vec![validator(1, 10)]);
    assert_eq!(set.effective(address(2)), None);
    assert_eq!(set.validate(&stake(2, -1)), Err(StakeError::UnknownValidator));
}

#[test]
fn collect_fills_the_fee_pot() {
    let mut set = ValidatorSet::new();
    assert_eq!(set.fees(), 0);
    assert!(set.can_collect(5));
    set.collect(5);
    set.collect(7);
    assert_eq!(set.fees(), 12);
    assert!(set.can_collect(MAX_FEE_POT - 12));
    assert!(!set.can_collect(MAX_FEE_POT - 11));
    assert!(!set.can_collect(u64::MAX));
    set.collect(MAX_FEE_POT - 12);
    assert_eq!(set.fees(), MAX_FEE_POT);
    assert!(set.can_collect(0));
    assert!(!set.can_collect(1));
}

#[test]
fn begin_block_notes_the_height() {
    let mut set = ValidatorSet::new();
    assert_eq!(set.height(), 0);
    set.begin_block(address(1), vec![], 42);
    assert_eq!(set.height(), 42);
}

#[test]
fn rewards_go_to_proposer_and_voters() {
    let mut set = set_of(vec![validator(1, 5), validator(2, 10), validator(3, 20)]);
    set.begin_block(address(1), vec![(address(2), 10), (address(3), 20)], 1);
    set.collect(20);
    let rewards = set.block_rewards();
    assert_eq!(rewards, vec![reward(1, 60), reward(2, 20), reward(3, 40)]);
    assert_eq!(rewards.iter().map(|r| r.gates).sum::<u64>(), 20 + BASELINE_BLOCK_REWARD);
    // the accounting of the block is reset
    assert_eq!(set.fees(), 0);
    assert!(set.block_rewards().is_empty());
}

#[test]
fn what_rounding_leaves_goes_to_the_proposer() {
    let mut set = set_of(vec![validator(1, 5), validator(2, 10), validator(3, 20)]);
    set.begin_block(address(1), vec![(address(2), 10), (address(3), 20)], 1);
    set.collect(1);
    // 101 to share: 50 for the voters, of which 16 and 33 can be paid
    assert_eq!(set.block_rewards(), vec![reward(1, 52), reward(2, 16), reward(3, 33)]);
}

#[test]
fn a_proposer_that_voted_gets_one_reward() {
    let mut set = set_of(vec![validator(1, 30), validator(2, 10)]);
    set.begin_block(address(1), vec![(address(1), 30), (address(2), 10)], 1);
    assert_eq!(set.block_rewards(), vec![reward(1, 88), reward(2, 12)]);
}

#[test]
fn votes_of_strangers_do_not_count() {
    let mut set = set_of(vec![validator(1, 30), validator(2, 10)]);
    set.begin_block(address(1), vec![(address(9), 1000), (address(2), 10)], 1);
    assert_eq!(set.block_rewards(), vec![reward(1, 50), reward(2, 50)]);
}

#[test]
fn the_power_of_a_vote_is_the_power_at_the_vote() {
    let mut set = set_of(vec![validator(1, 1), validator(2, 1), validator(3, 1)]);
    set.begin_block(address(1), vec![(address(2), 1), (address(3), 3)], 1);
    assert_eq!(set.block_rewards(), vec![reward(1, 51), reward(2, 12), reward(3, 37)]);
}

#[test]
fn the_last_vote_of_a_voter_counts() {
    let mut set = set_of(vec![validator(1, 1), validator(2, 1), validator(3, 1)]);
    set.begin_block(address(1), vec![(address(2), 1), (address(3), 3), (address(2), 7)], 1);
    // 2 votes with 7, in the place of its first vote
    assert_eq!(set.block_rewards(), vec![reward(1, 50), reward(2, 35), reward(3, 15)]);
}

#[test]
fn without_votes_the_proposer_gets_all() {
    let mut set = set_of(vec![validator(1, 30)]);
    set.begin_block(address(1), vec![], 1);
    set.collect(11);
    assert_eq!(set.block_rewards(), vec![reward(1, 111)]);
    let mut set = set_of(vec![validator(1, 30), validator(2, 0)]);
    set.begin_block(address(1), vec![(address(2), 0)], 1);
    assert_eq!(set.block_rewards(), vec![reward(1, 100), reward(2, 0)]);
}

#[test]
fn without_a_known_proposer_nobody_is_rewarded() {
    let mut set = set_of(vec![validator(1, 30), validator(2, 10)]);
    set.collect(40);
    assert!(set.block_rewards().is_empty());
    assert_eq!(set.fees(), 0);
    set.begin_block(address(9), vec![(address(2), 10)], 1);
    set.collect(40);
    assert!(set.block_rewards().is_empty());
}

#[test]
fn the_largest_rewards_fit() {
    let mut set = set_of(vec![validator(1, 1), validator(2, u64::MAX), validator(3, u64::MAX)]);
    set.begin_block(address(1), vec![(address(2), u64::MAX), (address(3), u64::MAX)], 1);
    set.collect(MAX_FEE_POT);
    let rewards = set.block_rewards();
    let share = u64::MAX / 2;
    let each = share / 2;
    assert_eq!(rewards, vec![reward(1, u64::MAX - 2 * each), reward(2, each), reward(3, each)]);
}

#[test]
fn rewards_are_owed_to_the_owner_of_the_validator() {
    let owned = Validator { aleo_address: account(77), ..validator(2, 10) };
    let mut set = set_of(vec![validator(1, 30), owned]);
    set.begin_block(address(1), vec![(address(2), 10)], 1);
    assert_eq!(
        set.block_rewards(),
        vec![reward(1, 50), Reward { address: address(2), owner: account(77), gates: 50 }]
    );
}

#[test]
fn a_validator_needs_an_address() {
    let v = Validator::at(Some(address(4)), pub_key(4), account(4), 9);
    assert_eq!(v, Ok(validator(4, 9)));
    assert_eq!(
        Validator::at(None, pub_key(4), account(4), 9),
        Err(snarkvm_app::error::TxError::ValidatorKeyInvalid)
    );
    // y = 2 is on no point of the curve
    let mut bytes = [0u8; 32];
    bytes[0] = 2;
    let no_key = PublicKey::from_le_bytes(&bytes).unwrap();
    assert_eq!(tendermint::PublicKey::from_raw_ed25519(&bytes).is_some(), snarkvm_app::validator::address_for(&no_key).is_some());
    assert_eq!(Validator::new(no_key, account(1), 1).is_ok(), snarkvm_app::validator::address_for(&no_key).is_some());
}

#[test]
fn restore_brings_back_what_was_kept() {
    let set = ValidatorSet::restore(
        vec![validator(1, 10), validator(2, 20)],
        vec![validator(2, 25), validator(3, 5)],
        17,
        Some(address(1)),
        vec![(address(2), 20)],
        9,
    );
    assert_eq!(set.validators(), vec![validator(1, 10), validator(2, 20)]);
    assert_eq!(set.pending(), vec![validator(2, 25), validator(3, 5)]);
    assert_eq!(set.pending_updates(), vec![validator(2, 25), validator(3, 5)]);
    assert_eq!(set.fees(), 17);
    assert_eq!(set.proposer(), Some(address(1)));
    assert_eq!(set.votes(), vec![(address(2), 20)]);
    assert_eq!(set.height(), 9);
    let mut set = set;
    assert_eq!(set.block_rewards(), vec![reward(1, 59), reward(2, 58)]);
    let bare = ValidatorSet::restore(vec![], vec![], 0, None, vec![(address(2), 20)], 0);
    assert_eq!(bare.proposer(), None);
    assert_eq!(bare.votes(), vec![(address(2), 20)]);
}

#[test]
fn a_set_is_restored_from_what_it_holds() {
    let mut set = ValidatorSet::new();
    set.replace(vec![validator(1, 10), validator(2, 20)]);
    set.begin_block(address(1), vec![(address(2), 20), (address(1), 10)], 4);
    set.collect(33);
    set.apply(Stake { address: address(3), pub_key: pub_key(3), aleo_address: account(3), gates_delta: 5 });
    let again =
        ValidatorSet::restore(set.validators(), set.pending(), set.fees(), set.proposer(), set.votes(), set.height());
    assert_eq!(again.validators(), set.validators());
    assert_eq!(again.pending(), set.pending());
    assert_eq!(again.pending_updates(), set.pending_updates());
    assert_eq!(again.fees(), 33);
    assert_eq!(again.proposer(), Some(address(1)));
    assert_eq!(again.votes(), set.votes());
    assert_eq!(again.height(), 4);
    let nothing = ValidatorSet::restore(vec![], vec![], 0, None, vec![], 0);
    assert!(nothing.validators().is_empty());
    assert!(nothing.pending().is_empty());
    assert_eq!(nothing.fees(), 0);
    assert_eq!(nothing.proposer(), None);
}
