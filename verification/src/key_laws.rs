//! What holds of the public keys of the validators.
//!
//! A validator is found by its consensus address, and the consensus engine
//! is told of it by its public key. Where every validator stands under the
//! address that belongs to its key, the two name the same validators: no key
//! occurs twice where no address does.

use vstd::prelude::*;
use crate::error::TxErrorView;
use crate::field::{Address, PublicKey};
use crate::lookup::lemma_first_index;
use crate::transaction::{stake_of, stakes_of, TransitionView};
use crate::validator::{
    address_of_key, addresses, distinct, find, place_of, upsert, upsert_all, without, Stake,
    Validator,
};
use crate::validator_set::{absorb, absorb_all, changed, ValidatorSetView};

verus! {

/// Whether the validator stands under the consensus address that belongs to
/// its public key.
pub open spec fn keyed(v: Validator) -> bool {
    address_of_key(v.pub_key) == Some(v.address)
}

/// Whether each of the validators stands under the address of its key.
pub open spec fn all_keyed(list: Seq<Validator>) -> bool {
    forall|i: int| 0 <= i < list.len() ==> keyed(#[trigger] list[i])
}

/// Whether the change of stake names its validator by the address that
/// belongs to the key it names.
pub open spec fn stake_keyed(update: Stake) -> bool {
    address_of_key(update.pub_key) == Some(update.address)
}

/// The consensus address that belongs to the key, where there is a key.
pub open spec fn address_of(key: Option<PublicKey>) -> Option<Address> {
    match key {
        Some(k) => address_of_key(k),
        None => None,
    }
}

/// Whether every validator of the set, live or queued, stands under the
/// address of its key.
pub open spec fn set_keyed(s: ValidatorSetView) -> bool {
    all_keyed(s.validators) && all_keyed(s.pending)
}

/// Whether no public key occurs twice among the validators.
pub open spec fn keys_differ(list: Seq<Validator>) -> bool {
    forall|i: int, j: int|
        0 <= i < j < list.len() ==> (#[trigger] list[i]).pub_key != (#[trigger] list[j]).pub_key
}

/// Where no address occurs twice and every validator stands under the
/// address of its key, no key occurs twice.
pub proof fn lemma_keyed_keys_differ(list: Seq<Validator>)
    requires
        distinct(list),
        all_keyed(list),
    ensures
        keys_differ(list),
{
    assert forall|i: int, j: int| 0 <= i < j < list.len() implies (#[trigger] list[i]).pub_key
        != (#[trigger] list[j]).pub_key by {
        assert(addresses(list)[i] == list[i].address);
        assert(addresses(list)[j] == list[j].address);
        assert(keyed(list[i]) && keyed(list[j]));
    }
}

/// A validator that is found in a list is one of the list.
proof fn lemma_found_is_keyed(list: Seq<Validator>, a: Address)
    requires
        all_keyed(list),
    ensures
        find(list, a) matches Some(v) ==> keyed(v),
{
    lemma_first_index(addresses(list), a);
}

/// Putting a validator that stands under the address of its key into a
/// list of such validators gives such a list.
pub proof fn lemma_upsert_keeps_keyed(list: Seq<Validator>, v: Validator)
    requires
        all_keyed(list),
        keyed(v),
    ensures
        all_keyed(upsert(list, v)),
{
    lemma_first_index(addresses(list), v.address);
    let after = upsert(list, v);
    assert forall|i: int| 0 <= i < after.len() implies keyed(#[trigger] after[i]) by {
        if i < list.len() && i != place_of(list, v.address) {
            assert(after[i] == list[i]);
        }
    }
}

/// Taking a validator out of a list of validators that stand under the
/// addresses of their keys leaves such a list.
pub proof fn lemma_without_keeps_keyed(list: Seq<Validator>, a: Address)
    requires
        all_keyed(list),
    ensures
        all_keyed(without(list, a)),
{
    lemma_first_index(addresses(list), a);
    let after = without(list, a);
    let place = place_of(list, a);
    assert forall|i: int| 0 <= i < after.len() implies keyed(#[trigger] after[i]) by {
        if place < list.len() {
            if i < place {
                assert(after[i] == list[i]);
            } else {
                assert(after[i] == list[i + 1]);
            }
        }
    }
}

/// Putting validators into a list one after the other keeps every one under
/// the address of its key.
pub proof fn lemma_upsert_all_keeps_keyed(list: Seq<Validator>, more: Seq<Validator>)
    requires
        all_keyed(list),
        all_keyed(more),
    ensures
        all_keyed(upsert_all(list, more)),
    decreases more.len(),
{
    if more.len() > 0 {
        assert forall|i: int| 0 <= i < more.drop_last().len() implies keyed(
            #[trigger] more.drop_last()[i],
        ) by {
            assert(more.drop_last()[i] == more[i]);
        }
        lemma_upsert_all_keeps_keyed(list, more.drop_last());
        lemma_upsert_keeps_keyed(upsert_all(list, more.drop_last()), more.last());
    }
}

/// Taking the queued validators into the live set keeps every one under the
/// address of its key.
pub proof fn lemma_absorb_all_keeps_keyed(live: Seq<Validator>, pending: Seq<Validator>)
    requires
        all_keyed(live),
        all_keyed(pending),
    ensures
        all_keyed(absorb_all(live, pending)),
    decreases pending.len(),
{
    if pending.len() > 0 {
        let front = pending.drop_last();
        assert forall|i: int| 0 <= i < front.len() implies keyed(#[trigger] front[i]) by {
            assert(front[i] == pending[i]);
        }
        lemma_absorb_all_keeps_keyed(live, front);
        let before = absorb_all(live, front);
        if pending.last().voting_power == 0 {
            lemma_without_keeps_keyed(before, pending.last().address);
        } else {
            lemma_upsert_keeps_keyed(before, pending.last());
        }
        assert(absorb_all(live, pending) == absorb(before, pending.last()));
    }
}

/// The bulk load of validators that stand under the addresses of their keys
/// leaves every validator of the set under the address of its key.
pub proof fn lemma_replace_keeps_keyed(s: ValidatorSetView, list: Seq<Validator>)
    requires
        set_keyed(s),
        all_keyed(list),
    ensures
        set_keyed(s.replace(list)),
{
    lemma_upsert_all_keeps_keyed(Seq::empty(), list);
}

/// Queueing a change of stake that names its validator by the address of
/// its key leaves every validator of the set under the address of its key.
pub proof fn lemma_apply_keeps_keyed(s: ValidatorSetView, update: Stake)
    requires
        set_keyed(s),
        stake_keyed(update),
    ensures
        set_keyed(s.apply(update)),
{
    if s.validate(update) is Ok {
        lemma_found_is_keyed(s.pending, update.address);
        lemma_found_is_keyed(s.validators, update.address);
        lemma_first_index(addresses(s.pending), update.address);
        lemma_first_index(addresses(s.validators), update.address);
        let staked = s.staked(update);
        assert(keyed(staked));
        lemma_upsert_keeps_keyed(s.pending, staked);
    }
}

/// The commit of the set leaves every validator under the address of its
/// key.
pub proof fn lemma_commit_keeps_keyed(s: ValidatorSetView)
    requires
        set_keyed(s),
    ensures
        set_keyed(s.commit()),
{
    lemma_absorb_all_keeps_keyed(s.validators, s.pending);
}

/// The queued validators whose power changes are queued validators, and
/// where no address occurs twice among the queued, none does among them.
pub proof fn lemma_changed_is_part(pending: Seq<Validator>, live: Seq<Validator>)
    requires
        distinct(pending),
    ensures
        forall|i: int|
            0 <= i < changed(pending, live).len() ==> pending.contains(
                #[trigger] changed(pending, live)[i],
            ),
        distinct(changed(pending, live)),
    decreases pending.len(),
{
    let updates = changed(pending, live);
    if pending.len() == 0 {
        assert(addresses(updates) =~= Seq::empty());
    } else {
        let front = pending.drop_last();
        let p = pending.last();
        let before = changed(front, live);
        assert(addresses(front) =~= addresses(pending).drop_last());
        lemma_changed_is_part(front, live);
        assert forall|i: int| 0 <= i < updates.len() implies pending.contains(
            #[trigger] updates[i],
        ) by {
            if i < before.len() {
                assert(updates[i] == before[i]);
                assert(front.contains(before[i]));
                let k = choose|k: int| 0 <= k < front.len() && front[k] == before[i];
                assert(pending[k] == before[i]);
            } else {
                assert(pending[pending.len() - 1] == updates[i]);
            }
        }
        assert forall|i: int, j: int|
            0 <= i < addresses(updates).len() && 0 <= j < addresses(updates).len() && i
                != j implies addresses(updates)[i] != addresses(updates)[j] by {
            if i < before.len() && j < before.len() {
                assert(addresses(before)[i] == before[i].address);
                assert(addresses(before)[j] == before[j].address);
            } else {
                let old_one = if i < before.len() {
                    i
                } else {
                    j
                };
                assert(front.contains(before[old_one]));
                let k = choose|k: int| 0 <= k < front.len() && front[k] == before[old_one];
                assert(addresses(pending)[k] == before[old_one].address);
                assert(addresses(pending)[pending.len() - 1] == p.address);
            }
        }
    }
}

/// No public key occurs twice among the updates that are surfaced at the
/// end of a block, where every validator stands under the address of its
/// key.
pub proof fn lemma_pending_updates_keys_differ(s: ValidatorSetView)
    requires
        s.wf(),
        set_keyed(s),
    ensures
        keys_differ(s.pending_updates()),
{
    let updates = s.pending_updates();
    lemma_changed_is_part(s.pending, s.validators);
    assert forall|i: int| 0 <= i < updates.len() implies keyed(#[trigger] updates[i]) by {
        assert(s.pending.contains(updates[i]));
        let k = choose|k: int| 0 <= k < s.pending.len() && s.pending[k] == updates[i];
        assert(keyed(s.pending[k]));
    }
    lemma_keyed_keys_differ(updates);
}

/// The changes of stake that transitions make for a validator that is
/// named by its key name it by the address that belongs to the key.
pub proof fn lemma_stakes_are_keyed(ts: Seq<TransitionView>, key: Option<PublicKey>)
    ensures
        stakes_of(ts, key, address_of(key)) matches Ok(updates) ==> forall|i: int|
            0 <= i < updates.len() ==> stake_keyed(#[trigger] updates[i]),
    decreases ts.len(),
{
    if ts.len() > 0 {
        lemma_stakes_are_keyed(ts.drop_last(), key);
        if let Ok(updates) = stakes_of(ts, key, address_of(key)) {
            let before = stakes_of(ts.drop_last(), key, address_of(key))->Ok_0;
            assert forall|i: int| 0 <= i < updates.len() implies stake_keyed(
                #[trigger] updates[i],
            ) by {
                if i < before.len() {
                    assert(updates[i] == before[i]);
                } else {
                    assert(stake_of(ts.last(), key, address_of(key)) == Ok::<
                        Option<Stake>,
                        TxErrorView,
                    >(Some(updates[i])));
                }
            }
        }
    }
}

} // verus!
