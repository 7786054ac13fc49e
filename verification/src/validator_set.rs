//! The validator set: who validates, with what power; the changes of power
//! that the block in flight has queued; the fees that it has collected; and
//! the rewards that are due when it is committed.
//!
//! The rewards of a block go to the proposer of that block and to the voters
//! of the block before it: the consensus engine names the voters of a block
//! only when the next one opens.

use vstd::prelude::*;
use vstd::arithmetic::div_mod::{
    lemma_div_is_ordered, lemma_div_multiples_vanish, lemma_remainder_lower,
};
use vstd::arithmetic::mul::{
    lemma_mul_inequality, lemma_mul_is_commutative, lemma_mul_is_distributive_add,
};
use crate::field::{AccountAddress, Address};
use crate::validator::{
    distinct, find, position, power_of, put, put_vote, upsert, upsert_all, upsert_votes, voters,
    without, Stake, Validator, Vote, MAX_VOTING_POWER,
};

verus! {

/// The credits that every block mints, on top of the fees it collected.
pub const BASELINE_BLOCK_REWARD: u64 = 100;

/// The part of a block's rewards that goes to its proposer, in percent. The
/// rest is shared among the voters by the power of their votes; what the
/// rounding leaves over goes to the proposer too.
pub const PROPOSER_REWARD_PERCENTAGE: u64 = 50;

/// The most that the fee pot can hold: the baseline reward must still fit on
/// top of it.
pub const MAX_FEE_POT: u64 = 18446744073709551515;

/// Credits that are due to a validator.
#[derive(Clone, Copy, Debug, PartialEq, Eq, Structural)]
pub struct Reward {
    /// The consensus address of the validator.
    pub address: Address,
    /// The account that the credits are minted to.
    pub owner: AccountAddress,
    /// The credits.
    pub gates: u64,
}

/// Why a change of stake is not admissible.
#[derive(Clone, Copy, Debug, PartialEq, Eq, Structural)]
pub enum StakeError {
    /// Credits are taken back from a validator that is not known.
    UnknownValidator,
    /// More credits are taken back than the validator has power.
    InsufficientPower,
    /// The validator would have more power than the consensus engine can be
    /// told of.
    PowerOverflow,
}

/// The power of the votes that count: those of known validators.
pub open spec fn eligible_power(votes: Seq<Vote>, live: Seq<Validator>) -> nat
    decreases votes.len(),
{
    if votes.len() == 0 {
        0
    } else {
        eligible_power(votes.drop_last(), live) + if find(live, votes.last().0) is Some {
            votes.last().1 as nat
        } else {
            0
        }
    }
}

/// The part of `share` that falls to a vote of the power `power` among votes
/// of the power `total_power`, rounded down.
pub open spec fn share_of(share: nat, power: nat, total_power: nat) -> nat {
    if total_power == 0 {
        0
    } else {
        share * power / total_power
    }
}

/// The rewards of the voters, in the order of their votes: one for each vote
/// of a known validator other than the proposer.
pub open spec fn voter_rewards(
    votes: Seq<Vote>,
    live: Seq<Validator>,
    proposer: Address,
    share: nat,
    total_power: nat,
) -> Seq<Reward>
    decreases votes.len(),
{
    if votes.len() == 0 {
        Seq::empty()
    } else {
        let before = voter_rewards(votes.drop_last(), live, proposer, share, total_power);
        let vote = votes.last();
        match find(live, vote.0) {
            Some(v) => if vote.0 != proposer {
                before.push(
                    Reward {
                        address: vote.0,
                        owner: v.aleo_address,
                        gates: share_of(share, vote.1 as nat, total_power) as u64,
                    },
                )
            } else {
                before
            },
            None => before,
        }
    }
}

/// The credits of all the rewards together.
pub open spec fn total_gates(rewards: Seq<Reward>) -> nat
    decreases rewards.len(),
{
    if rewards.len() == 0 {
        0
    } else {
        total_gates(rewards.drop_last()) + rewards.last().gates as nat
    }
}

/// The queued validators whose power differs from the power they have in the
/// live set, in their order.
pub open spec fn changed(pending: Seq<Validator>, live: Seq<Validator>) -> Seq<Validator>
    decreases pending.len(),
{
    if pending.len() == 0 {
        Seq::empty()
    } else {
        let before = changed(pending.drop_last(), live);
        let p = pending.last();
        if p.voting_power != power_of(live, p.address) {
            before.push(p)
        } else {
            before
        }
    }
}

/// The live set after it took in a queued validator: one without power
/// leaves the set, any other stands for its address.
pub open spec fn absorb(live: Seq<Validator>, p: Validator) -> Seq<Validator> {
    if p.voting_power == 0 {
        without(live, p.address)
    } else {
        upsert(live, p)
    }
}

/// The live set after it took in the queued validators, first to last.
pub open spec fn absorb_all(live: Seq<Validator>, pending: Seq<Validator>) -> Seq<Validator>
    decreases pending.len(),
{
    if pending.len() == 0 {
        live
    } else {
        absorb(absorb_all(live, pending.drop_last()), pending.last())
    }
}

/// The state of a validator set.
pub struct ValidatorSetView {
    /// The validators as of the last commit.
    pub validators: Seq<Validator>,
    /// The validators whose power the block in flight changes, each with the
    /// power it will have.
    pub pending: Seq<Validator>,
    /// The fees that the block in flight has collected.
    pub fees: u64,
    /// The proposer of the block in flight.
    pub proposer: Option<Address>,
    /// The votes on the block before it.
    pub votes: Seq<Vote>,
    /// The height of the block in flight.
    pub height: u64,
}

impl ValidatorSetView {
    /// The set without validators, with nothing queued or collected.
    pub open spec fn empty() -> ValidatorSetView {
        ValidatorSetView {
            validators: Seq::empty(),
            pending: Seq::empty(),
            fees: 0,
            proposer: None,
            votes: Seq::empty(),
            height: 0,
        }
    }

    /// The validator that `a` names once what is queued is counted in.
    pub open spec fn effective(self, a: Address) -> Option<Validator> {
        match find(self.pending, a) {
            Some(v) => Some(v),
            None => find(self.validators, a),
        }
    }

    /// The power that `a` has once what is queued is counted in.
    pub open spec fn effective_power(self, a: Address) -> u64 {
        match self.effective(a) {
            Some(v) => v.voting_power,
            None => 0,
        }
    }

    /// The bulk load: the live set becomes `list`; of several validators
    /// with one address the last one counts.
    pub open spec fn replace(self, list: Seq<Validator>) -> ValidatorSetView {
        ValidatorSetView { validators: upsert_all(Seq::empty(), list), ..self }
    }

    /// The opening of a block.
    pub open spec fn begin_block(self, proposer: Address, votes: Seq<Vote>, height: u64) -> ValidatorSetView {
        ValidatorSetView {
            proposer: Some(proposer),
            votes: upsert_votes(Seq::empty(), votes),
            height,
            ..self
        }
    }

    /// Whether the fee pot has room for `amount`.
    pub open spec fn can_collect(self, amount: u64) -> bool {
        self.fees + amount <= MAX_FEE_POT
    }

    /// The fee pot grown by `amount`.
    pub open spec fn collect(self, amount: u64) -> ValidatorSetView {
        ValidatorSetView { fees: (self.fees + amount) as u64, ..self }
    }

    /// Whether `update` is admissible: credits can be taken back only from a
    /// known validator, and the power it is left with must be from 0 to
    /// `MAX_VOTING_POWER`.
    pub open spec fn validate(self, update: Stake) -> Result<(), StakeError> {
        let next = self.effective_power(update.address) + update.gates_delta;
        if update.gates_delta < 0 && self.effective(update.address) is None {
            Err(StakeError::UnknownValidator)
        } else if next < 0 {
            Err(StakeError::InsufficientPower)
        } else if next > MAX_VOTING_POWER {
            Err(StakeError::PowerOverflow)
        } else {
            Ok(())
        }
    }

    /// The validator as `update` leaves it: a known validator with its power
    /// changed, a new one as `update` names it.
    pub open spec fn staked(self, update: Stake) -> Validator {
        let next = (self.effective_power(update.address) + update.gates_delta) as u64;
        match self.effective(update.address) {
            Some(v) => Validator { voting_power: next, ..v },
            None => Validator {
                address: update.address,
                pub_key: update.pub_key,
                aleo_address: update.aleo_address,
                voting_power: next,
            },
        }
    }

    /// The queueing of `update`: one that is not admissible changes nothing.
    pub open spec fn apply(self, update: Stake) -> ValidatorSetView {
        if self.validate(update) is Ok {
            ValidatorSetView { pending: upsert(self.pending, self.staked(update)), ..self }
        } else {
            self
        }
    }

    /// The validators whose power the block in flight changes, each with the
    /// power it will have.
    pub open spec fn pending_updates(self) -> Seq<Validator> {
        changed(self.pending, self.validators)
    }

    /// The credits that the block in flight distributes.
    pub open spec fn total_rewards(self) -> nat {
        (self.fees + BASELINE_BLOCK_REWARD) as nat
    }

    /// The part of the rewards that the voters share.
    pub open spec fn voters_share(self) -> nat {
        self.total_rewards() * ((100 - PROPOSER_REWARD_PERCENTAGE) as nat) / 100
    }

    /// The rewards of the block in flight: first that of the proposer, then
    /// those of the voters. A block whose proposer is not a known validator
    /// rewards nobody.
    pub open spec fn block_rewards(self) -> Seq<Reward> {
        match self.proposer {
            Some(p) => match find(self.validators, p) {
                Some(v) => {
                    let others = voter_rewards(
                        self.votes,
                        self.validators,
                        p,
                        self.voters_share(),
                        eligible_power(self.votes, self.validators),
                    );
                    seq![
                        Reward {
                            address: p,
                            owner: v.aleo_address,
                            gates: (self.total_rewards() - total_gates(others)) as u64,
                        },
                    ] + others
                },
                None => Seq::empty(),
            },
            None => Seq::empty(),
        }
    }

    /// The set after the rewards were drawn: the accounting of the block is
    /// reset.
    pub open spec fn after_rewards(self) -> ValidatorSetView {
        ValidatorSetView { fees: 0, proposer: None, votes: Seq::empty(), ..self }
    }

    /// The set after a commit: what was queued is in the live set.
    pub open spec fn commit(self) -> ValidatorSetView {
        ValidatorSetView {
            validators: absorb_all(self.validators, self.pending),
            pending: Seq::empty(),
            ..self
        }
    }

    /// The set that is built from what was kept of a set: of several
    /// validators with one address, and of several votes of one voter, the
    /// last one counts.
    pub open spec fn restored(
        validators: Seq<Validator>,
        pending: Seq<Validator>,
        fees: u64,
        proposer: Option<Address>,
        votes: Seq<Vote>,
        height: u64,
    ) -> ValidatorSetView {
        ValidatorSetView {
            validators: upsert_all(Seq::empty(), validators),
            pending: upsert_all(Seq::empty(), pending),
            fees,
            proposer,
            votes: upsert_votes(Seq::empty(), votes),
            height,
        }
    }

    /// What holds of every set that arose from the empty one: an address
    /// names one validator, a voter has one vote, the baseline reward fits on
    /// top of the fee pot, and the consensus engine can be told of every
    /// queued power.
    pub open spec fn wf(self) -> bool {
        &&& distinct(self.validators)
        &&& distinct(self.pending)
        &&& voters(self.votes).no_duplicates()
        &&& self.fees <= MAX_FEE_POT
        &&& forall|i: int|
            0 <= i < self.pending.len() ==> (#[trigger] self.pending[i]).voting_power
                <= MAX_VOTING_POWER
    }
}

/// The votes of a prefix weigh no more than all the votes.
pub proof fn lemma_eligible_power_prefix(votes: Seq<Vote>, live: Seq<Validator>, i: int)
    requires
        0 <= i <= votes.len(),
    ensures
        eligible_power(votes.take(i), live) <= eligible_power(votes, live),
    decreases votes.len(),
{
    if i == votes.len() {
        assert(votes.take(i) =~= votes);
    } else {
        assert(votes.drop_last().take(i) =~= votes.take(i));
        lemma_eligible_power_prefix(votes.drop_last(), live, i);
    }
}

/// A vote takes no more than the whole share, and as many times the total
/// power as the share times its own power.
pub proof fn lemma_share_of(share: nat, power: nat, total_power: nat)
    requires
        power <= total_power,
    ensures
        share_of(share, power, total_power) <= share,
        total_power * share_of(share, power, total_power) <= share * power,
{
    if total_power > 0 {
        let t = total_power as int;
        let x = (share * power) as int;
        assert(0 <= x) by (nonlinear_arith)
            requires
                x == share * power,
        ;
        lemma_remainder_lower(x, t);
        lemma_mul_is_commutative(x / t, t);
        lemma_mul_inequality(power as int, t, share as int);
        lemma_mul_is_commutative(power as int, share as int);
        lemma_mul_is_commutative(t, share as int);
        lemma_div_is_ordered(x, t * share, t);
        lemma_div_multiples_vanish(share as int, t);
    }
}

/// The voters together take no more than their share.
pub proof fn lemma_voter_rewards_bound(
    votes: Seq<Vote>,
    live: Seq<Validator>,
    proposer: Address,
    share: nat,
    total_power: nat,
)
    requires
        eligible_power(votes, live) <= total_power,
        share <= u64::MAX,
    ensures
        total_power * total_gates(voter_rewards(votes, live, proposer, share, total_power))
            <= share * eligible_power(votes, live),
        total_gates(voter_rewards(votes, live, proposer, share, total_power)) <= share,
    decreases votes.len(),
{
    let rewards = voter_rewards(votes, live, proposer, share, total_power);
    if total_power == 0 {
        lemma_voter_rewards_zero(votes, live, proposer, share);
    }
    if votes.len() == 0 {
        assert(share * 0 == 0) by (nonlinear_arith);
        assert(total_power * 0 == 0) by (nonlinear_arith);
    } else {
        let front = votes.drop_last();
        let before = voter_rewards(front, live, proposer, share, total_power);
        lemma_voter_rewards_bound(front, live, proposer, share, total_power);
        let vote = votes.last();
        let g = total_gates(before);
        let e = eligible_power(front, live);
        if find(live, vote.0) is Some {
            let p = vote.1 as nat;
            let r = share_of(share, p, total_power);
            lemma_share_of(share, p, total_power);
            lemma_mul_is_distributive_add(share as int, e as int, p as int);
            if vote.0 != proposer {
                assert(rewards.drop_last() =~= before);
                assert(rewards.last().gates == r);
                lemma_mul_is_distributive_add(total_power as int, g as int, r as int);
            } else {
                assert(share * p >= 0) by (nonlinear_arith);
            }
        }
        let total = total_gates(rewards);
        let el = eligible_power(votes, live);
        assert(total <= share) by (nonlinear_arith)
            requires
                total_power * total <= share * el,
                el <= total_power,
                total_power == 0 ==> total == 0,
        ;
    }
}

/// Where no vote counts, no voter is rewarded with anything.
proof fn lemma_voter_rewards_zero(
    votes: Seq<Vote>,
    live: Seq<Validator>,
    proposer: Address,
    share: nat,
)
    ensures
        total_gates(voter_rewards(votes, live, proposer, share, 0)) == 0,
    decreases votes.len(),
{
    if votes.len() > 0 {
        lemma_voter_rewards_zero(votes.drop_last(), live, proposer, share);
        let rewards = voter_rewards(votes, live, proposer, share, 0);
        let before = voter_rewards(votes.drop_last(), live, proposer, share, 0);
        if find(live, votes.last().0) is Some && votes.last().0 != proposer {
            assert(rewards.drop_last() =~= before);
        }
    }
}

/// The validator set with its block accounting.
pub struct ValidatorSet {
    validators: Vec<Validator>,
    pending: Vec<Validator>,
    fees: u64,
    proposer: Option<Address>,
    votes: Vec<Vote>,
    height: u64,
}

impl View for ValidatorSet {
    type V = ValidatorSetView;

    closed spec fn view(&self) -> ValidatorSetView {
        ValidatorSetView {
            validators: self.validators@,
            pending: self.pending@,
            fees: self.fees,
            proposer: self.proposer,
            votes: self.votes@,
            height: self.height,
        }
    }
}

impl ValidatorSet {
    /// A set without validators.
    pub fn new() -> (set: ValidatorSet)
        ensures
            set@ == ValidatorSetView::empty(),
    {
        ValidatorSet {
            validators: Vec::new(),
            pending: Vec::new(),
            fees: 0,
            proposer: None,
            votes: Vec::new(),
            height: 0,
        }
    }

    /// The set as it was kept on disk. Of several validators with one
    /// address, and of several votes of one voter, the last one counts.
    pub fn restore(
        validators: Vec<Validator>,
        pending: Vec<Validator>,
        fees: u64,
        proposer: Option<Address>,
        votes: Vec<Vote>,
        height: u64,
    ) -> (set: ValidatorSet)
        ensures
            set@ == ValidatorSetView::restored(
                validators@,
                pending@,
                fees,
                proposer,
                votes@,
                height,
            ),
    {
        let mut set = ValidatorSet::new();
        set.replace(pending);
        let queued = set.validators();
        set.replace(validators);
        set.pending = queued;
        set.fees = fees;
        match proposer {
            Some(p) => {
                set.begin_block(p, votes, height);
            },
            None => {
                set.begin_block(Address { w0: 0, w1: 0, w2: 0 }, votes, height);
                set.proposer = None;
            },
        }
        set
    }

    /// Loads the validators of the genesis: the live set becomes `list`.
    pub fn replace(&mut self, list: Vec<Validator>)
        ensures
            final(self)@ == old(self)@.replace(list@),
    {
        let mut live: Vec<Validator> = Vec::new();
        let mut i: usize = 0;
        assert(list@.take(0) =~= Seq::empty());
        while i < list.len()
            invariant
                i <= list.len(),
                live@ == upsert_all(Seq::empty(), list@.take(i as int)),
            decreases list.len() - i,
        {
            assert(list@.take(i + 1).drop_last() =~= list@.take(i as int));
            put(&mut live, list[i]);
            i += 1;
        }
        assert(list@.take(i as int) =~= list@);
        self.validators = live;
    }

    /// Opens a block: notes its proposer, its height, and the votes on the
    /// block before it. Of several votes of one voter the last one counts.
    pub fn begin_block(&mut self, proposer: Address, votes: Vec<Vote>, height: u64)
        ensures
            final(self)@ == old(self)@.begin_block(proposer, votes@, height),
    {
        let mut noted: Vec<Vote> = Vec::new();
        let mut i: usize = 0;
        assert(votes@.take(0) =~= Seq::empty());
        while i < votes.len()
            invariant
                i <= votes.len(),
                noted@ == upsert_votes(Seq::empty(), votes@.take(i as int)),
            decreases votes.len() - i,
        {
            assert(votes@.take(i + 1).drop_last() =~= votes@.take(i as int));
            put_vote(&mut noted, votes[i]);
            i += 1;
        }
        assert(votes@.take(i as int) =~= votes@);
        self.proposer = Some(proposer);
        self.votes = noted;
        self.height = height;
    }

    /// Whether the fee pot has room for `amount`.
    pub fn can_collect(&self, amount: u64) -> (room: bool)
        ensures
            room == self@.can_collect(amount),
    {
        self.fees <= MAX_FEE_POT && amount <= MAX_FEE_POT - self.fees
    }

    /// Adds `amount` to the fee pot.
    pub fn collect(&mut self, amount: u64)
        requires
            old(self)@.can_collect(amount),
        ensures
            final(self)@ == old(self)@.collect(amount),
    {
        self.fees = self.fees + amount;
    }

    /// The validator that `address` names once what is queued is counted in.
    pub fn effective(&self, address: Address) -> (found: Option<Validator>)
        ensures
            found == self@.effective(address),
    {
        let queued = position(&self.pending, address);
        if queued < self.pending.len() {
            Some(self.pending[queued])
        } else {
            let place = position(&self.validators, address);
            if place < self.validators.len() {
                Some(self.validators[place])
            } else {
                None
            }
        }
    }

    /// Says whether `update` is admissible, and why not if it is not.
    pub fn validate(&self, update: &Stake) -> (res: Result<(), StakeError>)
        ensures
            res == self@.validate(*update),
    {
        let current = self.effective(update.address);
        let power: u64 = match current {
            Some(v) => v.voting_power,
            None => 0,
        };
        let next: i128 = power as i128 + update.gates_delta as i128;
        if update.gates_delta < 0 && current.is_none() {
            Err(StakeError::UnknownValidator)
        } else if next < 0 {
            Err(StakeError::InsufficientPower)
        } else if next > MAX_VOTING_POWER as i128 {
            Err(StakeError::PowerOverflow)
        } else {
            Ok(())
        }
    }

    /// Queues `update`. One that is not admissible changes nothing.
    pub fn apply(&mut self, update: Stake)
        ensures
            final(self)@ == old(self)@.apply(update),
    {
        if self.validate(&update).is_ok() {
            let current = self.effective(update.address);
            let staked = match current {
                Some(v) => Validator {
                    address: v.address,
                    pub_key: v.pub_key,
                    aleo_address: v.aleo_address,
                    voting_power: (v.voting_power as i128 + update.gates_delta as i128) as u64,
                },
                None => Validator {
                    address: update.address,
                    pub_key: update.pub_key,
                    aleo_address: update.aleo_address,
                    voting_power: update.gates_delta as u64,
                },
            };
            put(&mut self.pending, staked);
        }
    }

    /// The validators whose power the block in flight changes, each with the
    /// power it will have, in the order in which they were first queued.
    pub fn pending_updates(&self) -> (updates: Vec<Validator>)
        ensures
            updates@ == self@.pending_updates(),
    {
        let mut updates: Vec<Validator> = Vec::new();
        let mut i: usize = 0;
        assert(self.pending@.take(0) =~= Seq::empty());
        while i < self.pending.len()
            invariant
                i <= self.pending.len(),
                updates@ == changed(self.pending@.take(i as int), self.validators@),
            decreases self.pending.len() - i,
        {
            assert(self.pending@.take(i + 1).drop_last() =~= self.pending@.take(i as int));
            let p = self.pending[i];
            let place = position(&self.validators, p.address);
            let power: u64 = if place < self.validators.len() {
                self.validators[place].voting_power
            } else {
                0
            };
            if p.voting_power != power {
                updates.push(p);
            }
            i += 1;
        }
        assert(self.pending@.take(i as int) =~= self.pending@);
        updates
    }

    /// The power of the votes that count.
    fn eligible_power(&self) -> (total: u128)
        ensures
            total == eligible_power(self.votes@, self.validators@),
    {
        let mut total: u128 = 0;
        let mut i: usize = 0;
        assert(self.votes@.take(0) =~= Seq::empty());
        while i < self.votes.len()
            invariant
                i <= self.votes.len(),
                total == eligible_power(self.votes@.take(i as int), self.validators@),
                total <= i * 0xffff_ffff_ffff_ffff,
            decreases self.votes.len() - i,
        {
            assert(self.votes@.take(i + 1).drop_last() =~= self.votes@.take(i as int));
            let vote = self.votes[i];
            if position(&self.validators, vote.0) < self.validators.len() {
                total = total + vote.1 as u128;
            }
            i += 1;
        }
        assert(self.votes@.take(i as int) =~= self.votes@);
        total
    }

    /// Draws the rewards of the block in flight and resets its accounting:
    /// the fee pot is emptied, proposer and votes are forgotten.
    pub fn block_rewards(&mut self) -> (rewards: Vec<Reward>)
        requires
            old(self)@.fees <= MAX_FEE_POT,
        ensures
            rewards@ == old(self)@.block_rewards(),
            final(self)@ == old(self)@.after_rewards(),
    {
        let mut rewards: Vec<Reward> = Vec::new();
        if let Some(proposer) = self.proposer {
            let place = position(&self.validators, proposer);
            if place < self.validators.len() {
                let owner = self.validators[place].aleo_address;
                let total: u64 = self.fees + BASELINE_BLOCK_REWARD;
                let percent: u128 = (100 - PROPOSER_REWARD_PERCENTAGE) as u128;
                assert(total * percent <= 0xffff_ffff_ffff_ffff * 100 && total * percent / 100
                    <= total) by (nonlinear_arith)
                    requires
                        percent <= 100,
                        total <= 0xffff_ffff_ffff_ffff,
                ;
                let share: u64 = (total as u128 * percent / 100) as u64;
                assert(share == old(self)@.voters_share());
                let total_power = self.eligible_power();
                let mut others: Vec<Reward> = Vec::new();
                let mut given: u64 = 0;
                let mut i: usize = 0;
                assert(self.votes@.take(0) =~= Seq::empty());
                while i < self.votes.len()
                    invariant
                        i <= self.votes.len(),
                        share <= total,
                        total_power == eligible_power(self.votes@, self.validators@),
                        others@ == voter_rewards(
                            self.votes@.take(i as int),
                            self.validators@,
                            proposer,
                            share as nat,
                            total_power as nat,
                        ),
                        given == total_gates(others@),
                    decreases self.votes.len() - i,
                {
                    let ghost upto = self.votes@.take(i + 1);
                    assert(upto.drop_last() =~= self.votes@.take(i as int));
                    proof {
                        lemma_eligible_power_prefix(self.votes@, self.validators@, i + 1);
                        lemma_voter_rewards_bound(
                            upto,
                            self.validators@,
                            proposer,
                            share as nat,
                            total_power as nat,
                        );
                    }
                    let vote = self.votes[i];
                    let voter = position(&self.validators, vote.0);
                    if voter < self.validators.len() && vote.0 != proposer {
                        let ghost before = others@;
                        proof {
                            lemma_share_of(share as nat, vote.1 as nat, total_power as nat);
                        }
                        let gates: u64 = if total_power == 0 {
                            0
                        } else {
                            assert(share * vote.1 <= 0xffff_ffff_ffff_ffff * 0xffff_ffff_ffff_ffff)
                                by (nonlinear_arith)
                                requires
                                    share <= 0xffff_ffff_ffff_ffff,
                                    vote.1 <= 0xffff_ffff_ffff_ffff,
                            ;
                            ((share as u128 * vote.1 as u128) / total_power) as u64
                        };
                        others.push(
                            Reward {
                                address: vote.0,
                                owner: self.validators[voter].aleo_address,
                                gates,
                            },
                        );
                        assert(others@.drop_last() =~= before);
                        given = given + gates;
                    }
                    i += 1;
                }
                assert(self.votes@.take(i as int) =~= self.votes@);
                proof {
                    lemma_voter_rewards_bound(
                        self.votes@,
                        self.validators@,
                        proposer,
                        share as nat,
                        total_power as nat,
                    );
                }
                rewards.push(Reward { address: proposer, owner, gates: total - given });
                rewards.append(&mut others);
            }
        }
        self.fees = 0;
        self.proposer = None;
        self.votes = Vec::new();
        rewards
    }

    /// Takes what was queued into the live set, and leaves nothing queued.
    pub fn commit(&mut self)
        ensures
            final(self)@ == old(self)@.commit(),
    {
        let mut i: usize = 0;
        assert(self.pending@.take(0) =~= Seq::empty());
        while i < self.pending.len()
            invariant
                i <= self.pending.len(),
                self.pending == old(self).pending,
                self.fees == old(self).fees,
                self.proposer == old(self).proposer,
                self.votes == old(self).votes,
                self.height == old(self).height,
                self.validators@ == absorb_all(old(self).validators@, self.pending@.take(i as int)),
            decreases self.pending.len() - i,
        {
            assert(self.pending@.take(i + 1).drop_last() =~= self.pending@.take(i as int));
            let p = self.pending[i];
            if p.voting_power == 0 {
                let place = position(&self.validators, p.address);
                if place < self.validators.len() {
                    self.validators.remove(place);
                }
            } else {
                put(&mut self.validators, p);
            }
            i += 1;
        }
        assert(self.pending@.take(i as int) =~= self.pending@);
        self.pending = Vec::new();
    }

    /// The validators as of the last commit.
    pub fn validators(&self) -> (list: Vec<Validator>)
        ensures
            list@ == self@.validators,
    {
        self.validators.clone()
    }

    /// The validators that are queued, each with the power it will have.
    pub fn pending(&self) -> (list: Vec<Validator>)
        ensures
            list@ == self@.pending,
    {
        self.pending.clone()
    }

    /// The proposer of the block in flight.
    pub fn proposer(&self) -> (proposer: Option<Address>)
        ensures
            proposer == self@.proposer,
    {
        self.proposer
    }

    /// The votes on the block before the one in flight.
    pub fn votes(&self) -> (votes: Vec<Vote>)
        ensures
            votes@ == self@.votes,
    {
        let mut votes: Vec<Vote> = Vec::new();
        let mut i: usize = 0;
        while i < self.votes.len()
            invariant
                i <= self.votes.len(),
                votes@ == self.votes@.take(i as int),
            decreases self.votes.len() - i,
        {
            votes.push(self.votes[i]);
            assert(votes@ =~= self.votes@.take(i + 1));
            i += 1;
        }
        assert(votes@ =~= self.votes@);
        votes
    }

    /// The fees that the block in flight has collected.
    pub fn fees(&self) -> (fees: u64)
        ensures
            fees == self@.fees,
    {
        self.fees
    }

    /// The height of the block in flight.
    pub fn height(&self) -> (height: u64)
        ensures
            height == self@.height,
    {
        self.height
    }
}

} // verus!
