//! What holds of the validator set whatever is staked, collected and
//! committed.
//!
//! The laws are stated over `ValidatorSetView`, the state that the contracts
//! of `ValidatorSet` speak of.

use vstd::prelude::*;
use crate::field::Address;
use crate::lookup::{first_index, lemma_first_index, lemma_first_index_is};
use crate::validator::{
    addresses, distinct, find, lemma_place_of_member, lemma_upsert, lemma_upsert_all_distinct,
    lemma_upsert_votes_distinct, lemma_without, power_of, upsert, upsert_all, upsert_votes, voters,
    Stake, Validator, Vote, MAX_VOTING_POWER,
};
use crate::validator_set::{
    absorb_all, changed, eligible_power, lemma_voter_rewards_bound, total_gates, voter_rewards,
    Reward, ValidatorSetView, BASELINE_BLOCK_REWARD, PROPOSER_REWARD_PERCENTAGE,
};

verus! {

/// Whether one of `list` has the address `a`.
pub open spec fn names(list: Seq<Validator>, a: Address) -> bool {
    exists|i: int| 0 <= i < list.len() && (#[trigger] list[i]).address == a
}

/// The bulk load keeps the set well formed.
pub proof fn lemma_replace_keeps_wf(s: ValidatorSetView, list: Seq<Validator>)
    requires
        s.wf(),
    ensures
        s.replace(list).wf(),
{
    assert(addresses(Seq::<Validator>::empty()) =~= Seq::empty());
    lemma_upsert_all_distinct(Seq::empty(), list);
}

/// The opening of a block keeps the set well formed.
pub proof fn lemma_begin_block_keeps_wf(
    s: ValidatorSetView,
    proposer: Address,
    votes: Seq<Vote>,
    height: u64,
)
    requires
        s.wf(),
    ensures
        s.begin_block(proposer, votes, height).wf(),
{
    assert(voters(Seq::<Vote>::empty()) =~= Seq::empty());
    lemma_upsert_votes_distinct(Seq::empty(), votes);
}

/// Collecting a fee that the pot has room for keeps the set well formed.
pub proof fn lemma_collect_keeps_wf(s: ValidatorSetView, amount: u64)
    requires
        s.wf(),
        s.can_collect(amount),
    ensures
        s.collect(amount).wf(),
{
}

/// Queueing a change of stake keeps the set well formed, whether the change
/// is admissible or not.
pub proof fn lemma_apply_keeps_wf(s: ValidatorSetView, update: Stake)
    requires
        s.wf(),
    ensures
        s.apply(update).wf(),
{
    if s.validate(update) is Ok {
        let v = s.staked(update);
        let after = upsert(s.pending, v);
        lemma_upsert(s.pending, v, v.address);
        lemma_first_index(addresses(s.pending), v.address);
        assert forall|i: int| 0 <= i < after.len() implies (#[trigger] after[i]).voting_power
            <= MAX_VOTING_POWER by {
            if i < s.pending.len() && after[i] != v {
                assert(s.pending[i].voting_power <= MAX_VOTING_POWER);
            }
        }
    }
}

/// An admissible change of stake changes the effective power of its
/// validator by the credits staked, and of no other validator.
pub proof fn lemma_apply_changes_power(s: ValidatorSetView, update: Stake, a: Address)
    requires
        s.wf(),
        s.validate(update) is Ok,
    ensures
        s.apply(update).effective_power(a) == if a == update.address {
            s.effective_power(a) + update.gates_delta
        } else {
            s.effective_power(a) as int
        },
{
    let v = s.staked(update);
    if s.effective(update.address) is Some {
        let known = s.effective(update.address)->Some_0;
        if find(s.pending, update.address) is Some {
            lemma_first_index(addresses(s.pending), update.address);
        } else {
            lemma_first_index(addresses(s.validators), update.address);
        }
        assert(known.address == update.address);
    }
    lemma_upsert(s.pending, v, a);
}

/// Drawing the rewards keeps the set well formed.
pub proof fn lemma_after_rewards_keeps_wf(s: ValidatorSetView)
    requires
        s.wf(),
    ensures
        s.after_rewards().wf(),
{
    assert(voters(Seq::<Vote>::empty()) =~= Seq::empty());
}

/// Taking queued validators into the live set keeps its addresses distinct.
pub proof fn lemma_absorb_all_distinct(live: Seq<Validator>, pending: Seq<Validator>)
    requires
        distinct(live),
    ensures
        distinct(absorb_all(live, pending)),
    decreases pending.len(),
{
    if pending.len() > 0 {
        let front = pending.drop_last();
        let p = pending.last();
        lemma_absorb_all_distinct(live, front);
        lemma_upsert(absorb_all(live, front), p, p.address);
        lemma_without(absorb_all(live, front), p.address, p.address);
    }
}

/// A commit keeps the set well formed.
pub proof fn lemma_commit_keeps_wf(s: ValidatorSetView)
    requires
        s.wf(),
    ensures
        s.commit().wf(),
{
    lemma_absorb_all_distinct(s.validators, s.pending);
    assert(addresses(Seq::<Validator>::empty()) =~= Seq::empty());
}

/// In a list without repeated addresses, what an address names is the last
/// validator if that has the address, and else what it names among the
/// others.
proof fn lemma_find_last(list: Seq<Validator>, a: Address)
    requires
        distinct(list),
        list.len() > 0,
    ensures
        distinct(list.drop_last()),
        find(list, a) == if list.last().address == a {
            Some(list.last())
        } else {
            find(list.drop_last(), a)
        },
{
    let front = list.drop_last();
    let keys = addresses(list);
    let front_keys = addresses(front);
    assert(front_keys =~= keys.drop_last());
    assert forall|i: int, j: int|
        0 <= i < front_keys.len() && 0 <= j < front_keys.len() && i != j implies front_keys[i]
        != front_keys[j] by {
        assert(keys[i] != keys[j]);
    }
    if list.last().address == a {
        lemma_place_of_member(list, list.len() - 1);
    } else {
        lemma_first_index(front_keys, a);
        let q = first_index(front_keys, a);
        if q < front_keys.len() {
            assert(keys[q] == a);
            assert forall|k: int| 0 <= k < q implies keys[k] != a by {
                assert(front_keys[k] != a);
            }
            lemma_first_index_is(keys, a, q);
        } else {
            assert forall|k: int| 0 <= k < keys.len() implies keys[k] != a by {
                if k < front_keys.len() {
                    assert(front_keys[k] != a);
                }
            }
            lemma_first_index_is(keys, a, keys.len() as int);
        }
    }
}

/// After the live set took in the queued validators, an address has the
/// power that was queued for it, or, if none was, the power it had.
pub proof fn lemma_absorb_all_power(live: Seq<Validator>, pending: Seq<Validator>, a: Address)
    requires
        distinct(live),
        distinct(pending),
    ensures
        power_of(absorb_all(live, pending), a) == match find(pending, a) {
            Some(p) => p.voting_power,
            None => power_of(live, a),
        },
    decreases pending.len(),
{
    if pending.len() == 0 {
        assert(addresses(pending) =~= Seq::empty());
    } else {
        let front = pending.drop_last();
        let p = pending.last();
        lemma_find_last(pending, a);
        lemma_absorb_all_power(live, front, a);
        lemma_absorb_all_distinct(live, front);
        lemma_upsert(absorb_all(live, front), p, a);
        lemma_without(absorb_all(live, front), p.address, a);
    }
}

/// A queued validator is among the updates exactly if its power differs from
/// the power it has in the live set.
pub proof fn lemma_changed_names(pending: Seq<Validator>, live: Seq<Validator>, a: Address)
    requires
        distinct(pending),
    ensures
        names(changed(pending, live), a) <==> (find(pending, a) matches Some(p) && p.voting_power
            != power_of(live, a)),
        forall|i: int|
            0 <= i < changed(pending, live).len() ==> find(
                pending,
                (#[trigger] changed(pending, live)[i]).address,
            ) == Some(changed(pending, live)[i]),
    decreases pending.len(),
{
    let updates = changed(pending, live);
    if pending.len() == 0 {
        assert(addresses(pending) =~= Seq::empty());
    } else {
        let front = pending.drop_last();
        let p = pending.last();
        let before = changed(front, live);
        lemma_find_last(pending, a);
        lemma_changed_names(front, live, a);
        let takes = p.voting_power != power_of(live, p.address);
        assert forall|i: int| 0 <= i < updates.len() implies find(
            pending,
            (#[trigger] updates[i]).address,
        ) == Some(updates[i]) by {
            lemma_find_last(pending, updates[i].address);
            if i < before.len() {
                assert(updates[i] == before[i]);
                let f = find(front, before[i].address);
                assert(f == Some(before[i]));
                lemma_first_index(addresses(front), before[i].address);
                let q = first_index(addresses(front), before[i].address);
                assert(addresses(pending)[q] == front[q].address);
                assert(addresses(pending)[pending.len() - 1] == p.address);
            }
        }
        if names(updates, a) {
            let i = choose|i: int| 0 <= i < updates.len() && (#[trigger] updates[i]).address == a;
            if i < before.len() {
                assert(before[i].address == a);
            }
        }
        if names(before, a) {
            let i = choose|i: int| 0 <= i < before.len() && (#[trigger] before[i]).address == a;
            assert(updates[i].address == a);
        }
        if takes && p.address == a {
            assert(updates[updates.len() - 1].address == a);
        }
        if names(before, a) && p.address == a {
            let i = choose|i: int| 0 <= i < before.len() && (#[trigger] before[i]).address == a;
            assert(find(front, a) == Some(before[i]));
            lemma_first_index(addresses(front), a);
            let q = first_index(addresses(front), a);
            assert(addresses(pending)[q] == a);
            assert(addresses(pending)[pending.len() - 1] == a);
        }
    }
}

/// Validator updates are complete: the updates that are surfaced at the end
/// of a block name exactly the validators whose power the commit of the
/// block changes, each with the power that it has after the commit.
pub proof fn lemma_pending_updates_complete(s: ValidatorSetView, a: Address)
    requires
        s.wf(),
    ensures
        names(s.pending_updates(), a) <==> power_of(s.commit().validators, a) != power_of(
            s.validators,
            a,
        ),
        forall|i: int|
            0 <= i < s.pending_updates().len() ==> power_of(
                s.commit().validators,
                (#[trigger] s.pending_updates()[i]).address,
            ) == s.pending_updates()[i].voting_power,
{
    lemma_absorb_all_power(s.validators, s.pending, a);
    lemma_changed_names(s.pending, s.validators, a);
    let updates = s.pending_updates();
    assert forall|i: int| 0 <= i < updates.len() implies power_of(
        s.commit().validators,
        (#[trigger] updates[i]).address,
    ) == updates[i].voting_power by {
        lemma_absorb_all_power(s.validators, s.pending, updates[i].address);
    }
}

/// The credits of a reward and of those that follow it add up.
proof fn lemma_total_gates_cons(first: Reward, others: Seq<Reward>)
    ensures
        total_gates(seq![first] + others) == first.gates + total_gates(others),
    decreases others.len(),
{
    let all = seq![first] + others;
    if others.len() == 0 {
        assert(all.drop_last() =~= Seq::empty());
        assert(all.last() == first);
        assert(total_gates(all.drop_last()) == 0);
    } else {
        assert(all.drop_last() =~= seq![first] + others.drop_last());
        assert(all.last() == others.last());
        lemma_total_gates_cons(first, others.drop_last());
    }
}

/// Nothing is lost and nothing is made up: where the proposer of the block
/// is a known validator, the rewards add up to the fees that the block
/// collected plus the baseline reward, and the voters together get no more
/// than their share.
pub proof fn lemma_rewards_add_up(s: ValidatorSetView)
    requires
        s.wf(),
        s.proposer matches Some(p) && find(s.validators, p) is Some,
    ensures
        total_gates(s.block_rewards()) == s.fees + BASELINE_BLOCK_REWARD,
        s.block_rewards().len() > 0,
        s.block_rewards()[0].address == s.proposer->Some_0,
        total_gates(s.block_rewards().drop_first()) <= s.voters_share(),
{
    let p = s.proposer->Some_0;
    let others = voter_rewards(
        s.votes,
        s.validators,
        p,
        s.voters_share(),
        eligible_power(s.votes, s.validators),
    );
    let total = s.total_rewards();
    assert(PROPOSER_REWARD_PERCENTAGE == 50);
    assert(total * 50 / 100 <= total) by (nonlinear_arith)
        requires
            total >= 0,
    ;
    assert(s.voters_share() <= total);
    lemma_voter_rewards_bound(
        s.votes,
        s.validators,
        p,
        s.voters_share(),
        eligible_power(s.votes, s.validators),
    );
    let rewards = s.block_rewards();
    lemma_total_gates_cons(rewards[0], others);
    assert(rewards.drop_first() =~= others);
}

/// A block whose proposer is not a known validator rewards nobody.
pub proof fn lemma_no_proposer_no_rewards(s: ValidatorSetView)
    requires
        s.proposer is None || find(s.validators, s.proposer->Some_0) is None,
    ensures
        s.block_rewards().len() == 0,
{
}

/// Validators of which no two have one address are put into the empty list
/// as they come.
proof fn lemma_upsert_all_of_distinct(list: Seq<Validator>, i: int)
    requires
        0 <= i <= list.len(),
        distinct(list),
    ensures
        upsert_all(Seq::empty(), list.take(i)) == list.take(i),
    decreases i,
{
    if i == 0 {
        assert(list.take(0) =~= Seq::empty());
    } else {
        lemma_upsert_all_of_distinct(list, i - 1);
        let upto = list.take(i);
        let before = list.take(i - 1);
        assert(upto.drop_last() =~= before);
        let a = upto.last().address;
        assert(addresses(list)[i - 1] == a);
        assert forall|k: int| 0 <= k < addresses(before).len() implies addresses(before)[k] != a by {
            assert(addresses(list)[k] == addresses(before)[k]);
        }
        lemma_first_index_is(addresses(before), a, before.len() as int);
        assert(before.push(upto.last()) =~= upto);
    }
}

/// Votes of which no two are of one voter are put into the empty list as
/// they come.
proof fn lemma_upsert_votes_of_distinct(votes: Seq<Vote>, i: int)
    requires
        0 <= i <= votes.len(),
        voters(votes).no_duplicates(),
    ensures
        upsert_votes(Seq::empty(), votes.take(i)) == votes.take(i),
    decreases i,
{
    if i == 0 {
        assert(votes.take(0) =~= Seq::empty());
    } else {
        lemma_upsert_votes_of_distinct(votes, i - 1);
        let upto = votes.take(i);
        let before = votes.take(i - 1);
        assert(upto.drop_last() =~= before);
        let a = upto.last().0;
        assert(voters(votes)[i - 1] == a);
        assert forall|k: int| 0 <= k < voters(before).len() implies voters(before)[k] != a by {
            assert(voters(votes)[k] == voters(before)[k]);
        }
        lemma_first_index_is(voters(before), a, before.len() as int);
        assert(before.push(upto.last()) =~= upto);
    }
}

/// A set is restored from what it holds: building a set from the
/// validators, the queued validators, the fee pot, the proposer, the votes
/// and the height of a set that arose from the empty one gives that set.
pub proof fn lemma_set_is_restored(s: ValidatorSetView)
    requires
        s.wf(),
    ensures
        ValidatorSetView::restored(s.validators, s.pending, s.fees, s.proposer, s.votes, s.height)
            == s,
{
    lemma_upsert_all_of_distinct(s.validators, s.validators.len() as int);
    assert(s.validators.take(s.validators.len() as int) =~= s.validators);
    lemma_upsert_all_of_distinct(s.pending, s.pending.len() as int);
    assert(s.pending.take(s.pending.len() as int) =~= s.pending);
    lemma_upsert_votes_of_distinct(s.votes, s.votes.len() as int);
    assert(s.votes.take(s.votes.len() as int) =~= s.votes);
}

/// Where nothing was kept, the set that is restored is the empty one.
pub proof fn lemma_restore_of_nothing()
    ensures
        ValidatorSetView::restored(Seq::empty(), Seq::empty(), 0, None, Seq::empty(), 0)
            == ValidatorSetView::empty(),
{
}

} // verus!
