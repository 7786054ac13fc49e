//! What holds of the application over every sequence of hooks.
//!
//! The laws are stated over `AppView`, the state that the contracts of the
//! hooks speak of, so they hold of every state that the executable hooks can
//! reach and of every answer that they give.

use vstd::prelude::*;
use crate::error::TxErrorView;
use crate::field::{key_of_hex, Address, Field};
use crate::height::{can_increment, height_of, lemma_height_round_trip};
use crate::key_laws::{
    address_of, all_keyed, lemma_apply_keeps_keyed, lemma_commit_keeps_keyed,
    lemma_pending_updates_keys_differ, lemma_replace_keeps_keyed, lemma_stakes_are_keyed, set_keyed,
    stake_keyed,
};
use crate::model::{
    add_all, add_each, apply_stakes, counted_votes, first_spent, load_all, spend_all, AppView,
    GenesisStateView, Header, ProofReportView, VoteInfo,
};
use crate::program_store::{
    lemma_add_keeps_programs, lemma_add_keeps_wf, lemma_get_after_add,
    lemma_programs_are_restored, ProgramError,
    ProgramStoreView, ProgramView,
};
use crate::record_laws::{
    added_in, lemma_commit_keeps_answers, lemma_run_keeps_wf, lemma_spent_stays_spent,
    lemma_store_is_restored, lemma_unspent_iff_added_and_not_spent, run,
    spent_in, step, StoreOp,
};
use crate::record_store::{has_commitment, Entry, RecordStoreView, StoreError};
use crate::signed::as_amount;
use crate::transaction::TransactionView;
use crate::validator::{address_of_text, addresses, power_of, voters, Stake, Validator, Vote};
use crate::validator_laws::{
    lemma_after_rewards_keeps_wf, lemma_apply_keeps_wf, lemma_begin_block_keeps_wf,
    lemma_collect_keeps_wf, lemma_commit_keeps_wf, lemma_pending_updates_complete,
    lemma_replace_keeps_wf, lemma_set_is_restored, names,
};
use crate::validator_set::ValidatorSetView;

verus! {

/// A call of a hook, with what the consensus engine and the proof engine
/// hand in.
pub enum Hook {
    InitChain(GenesisStateView),
    Info,
    Query,
    CheckTx(TransactionView, ProofReportView),
    BeginBlock(Header, Seq<VoteInfo>),
    DeliverTx(TransactionView, ProofReportView),
    EndBlock,
    Commit,
    AddRewardRecords(Seq<Entry>),
}

/// The state after a hook.
pub open spec fn app_step(s: AppView, hook: Hook) -> AppView {
    match hook {
        Hook::InitChain(genesis) => s.init_chain(genesis).0,
        Hook::Info => s.info(),
        Hook::Query => s,
        Hook::CheckTx(_, _) => s,
        Hook::BeginBlock(header, votes) => s.begin_block(header, votes),
        Hook::DeliverTx(tx, proofs) => s.deliver_tx(tx, proofs).0,
        Hook::EndBlock => s,
        Hook::Commit => s.commit(),
        Hook::AddRewardRecords(entries) => s.add_reward_records(entries),
    }
}

/// The state after the hooks `hooks`, first to last.
pub open spec fn app_run(s: AppView, hooks: Seq<Hook>) -> AppView
    decreases hooks.len(),
{
    if hooks.len() == 0 {
        s
    } else {
        app_step(app_run(s, hooks.drop_last()), hooks.last())
    }
}

/// Whether the commitments of `entries` are new to the store and differ from
/// one another.
pub open spec fn outputs_are_new(records: RecordStoreView, entries: Seq<Entry>) -> bool {
    &&& forall|i: int| 0 <= i < entries.len() ==> !records.holds((#[trigger] entries[i]).0)
    &&& forall|i: int, j: int|
        0 <= i < j < entries.len() ==> (#[trigger] entries[i]).0 != (#[trigger] entries[j]).0
}

/// Determinism: two replicas that start from the same state and see the same
/// hooks reach the same state.
pub proof fn lemma_replicas_agree(a: AppView, b: AppView, hooks: Seq<Hook>)
    requires
        a == b,
    ensures
        app_run(a, hooks) == app_run(b, hooks),
{
}

/// The store after one more operation.
proof fn lemma_run_push(s: RecordStoreView, ops: Seq<StoreOp>, op: StoreOp)
    ensures
        run(s, ops.push(op)) == step(run(s, ops), op),
{
    assert(ops.push(op).drop_last() =~= ops);
}

/// Operations run one batch after the other are run as one batch.
proof fn lemma_run_concat(s: RecordStoreView, a: Seq<StoreOp>, b: Seq<StoreOp>)
    ensures
        run(run(s, a), b) == run(s, a + b),
    decreases b.len(),
{
    if b.len() == 0 {
        assert(a + b =~= a);
    } else {
        lemma_run_concat(s, a, b.drop_last());
        assert((a + b).drop_last() =~= a + b.drop_last());
    }
}

/// Spending serial numbers one after the other is a run of store operations.
proof fn lemma_spend_all_is_run(records: RecordStoreView, serials: Seq<Field>) -> (ops: Seq<StoreOp>)
    ensures
        spend_all(records, serials).0 == run(records, ops),
    decreases serials.len(),
{
    if serials.len() == 0 {
        Seq::empty()
    } else {
        let ops = lemma_spend_all_is_run(records, serials.drop_last());
        let (before, res) = spend_all(records, serials.drop_last());
        if res is Ok && before.spend(serials.last()) is Ok {
            lemma_run_push(records, ops, StoreOp::Spend(serials.last()));
            ops.push(StoreOp::Spend(serials.last()))
        } else {
            ops
        }
    }
}

/// Adding records one after the other is a run of store operations.
proof fn lemma_add_all_is_run(records: RecordStoreView, entries: Seq<Entry>) -> (ops: Seq<StoreOp>)
    ensures
        add_all(records, entries).0 == run(records, ops),
    decreases entries.len(),
{
    if entries.len() == 0 {
        Seq::empty()
    } else {
        let ops = lemma_add_all_is_run(records, entries.drop_last());
        let (before, res) = add_all(records, entries.drop_last());
        let e = entries.last();
        if res is Ok && before.add(e.0, e.1) is Ok {
            lemma_run_push(records, ops, StoreOp::Add(e.0, e.1));
            ops.push(StoreOp::Add(e.0, e.1))
        } else {
            ops
        }
    }
}

/// Adding the records that the store accepts is a run of store operations.
proof fn lemma_add_each_is_run(records: RecordStoreView, entries: Seq<Entry>) -> (ops: Seq<StoreOp>)
    ensures
        add_each(records, entries) == run(records, ops),
    decreases entries.len(),
{
    if entries.len() == 0 {
        Seq::empty()
    } else {
        let ops = lemma_add_each_is_run(records, entries.drop_last());
        let e = entries.last();
        lemma_run_push(records, ops, StoreOp::Add(e.0, e.1));
        ops.push(StoreOp::Add(e.0, e.1))
    }
}

/// Loading records one after the other is a run of store operations.
proof fn lemma_load_all_is_run(records: RecordStoreView, entries: Seq<Entry>) -> (ops: Seq<StoreOp>)
    ensures
        load_all(records, entries).0 == run(records, ops),
    decreases entries.len(),
{
    if entries.len() == 0 {
        Seq::empty()
    } else {
        let ops = lemma_load_all_is_run(records, entries.drop_last());
        let (before, res) = load_all(records, entries.drop_last());
        let e = entries.last();
        if res is Ok && before.add(e.0, e.1) is Ok {
            let added = ops.push(StoreOp::Add(e.0, e.1));
            lemma_run_push(records, ops, StoreOp::Add(e.0, e.1));
            lemma_run_push(records, added, StoreOp::Commit);
            added.push(StoreOp::Commit)
        } else {
            ops
        }
    }
}

/// Whatever a hook does to the record store, it does by adding, spending and
/// committing.
pub proof fn lemma_step_records_is_run(s: AppView, hook: Hook) -> (ops: Seq<StoreOp>)
    ensures
        app_step(s, hook).records == run(s.records, ops),
{
    match hook {
        Hook::InitChain(genesis) => lemma_load_all_is_run(s.records, genesis.records),
        Hook::DeliverTx(tx, proofs) => {
            if s.screen(tx, proofs) is Ok && s.update_validators(tx).1 is Ok {
                let spends = lemma_spend_all_is_run(s.records, tx.serial_numbers());
                let (spent, r2) = spend_all(s.records, tx.serial_numbers());
                if r2 is Ok {
                    let adds = lemma_add_all_is_run(spent, tx.output_records());
                    lemma_run_concat(s.records, spends, adds);
                    spends + adds
                } else {
                    spends
                }
            } else {
                Seq::empty()
            }
        },
        Hook::Commit => {
            lemma_run_push(s.records, Seq::empty(), StoreOp::Commit);
            Seq::<StoreOp>::empty().push(StoreOp::Commit)
        },
        Hook::AddRewardRecords(entries) => {
            let adds = lemma_add_each_is_run(s.records, entries);
            lemma_run_push(s.records, adds, StoreOp::Commit);
            adds.push(StoreOp::Commit)
        },
        _ => Seq::empty(),
    }
}

/// Whatever a sequence of hooks does to the record store, it does by adding,
/// spending and committing.
pub proof fn lemma_run_records_is_run(s: AppView, hooks: Seq<Hook>) -> (ops: Seq<StoreOp>)
    ensures
        app_run(s, hooks).records == run(s.records, ops),
    decreases hooks.len(),
{
    if hooks.len() == 0 {
        Seq::empty()
    } else {
        let front = lemma_run_records_is_run(s, hooks.drop_last());
        let last = lemma_step_records_is_run(app_run(s, hooks.drop_last()), hooks.last());
        lemma_run_concat(s.records, front, last);
        front + last
    }
}

/// Queueing changes of stake one after the other keeps the validator set
/// well formed.
proof fn lemma_apply_stakes_keeps_wf(validators: ValidatorSetView, updates: Seq<Stake>)
    requires
        validators.wf(),
    ensures
        apply_stakes(validators, updates).wf(),
    decreases updates.len(),
{
    if updates.len() > 0 {
        lemma_apply_stakes_keeps_wf(validators, updates.drop_last());
        lemma_apply_keeps_wf(apply_stakes(validators, updates.drop_last()), updates.last());
    }
}

/// Every hook keeps the state well formed.
pub proof fn lemma_hook_keeps_wf(s: AppView, hook: Hook)
    requires
        s.wf(),
    ensures
        app_step(s, hook).wf(),
{
    let ops = lemma_step_records_is_run(s, hook);
    lemma_run_keeps_wf(s.records, ops);
    match hook {
        Hook::InitChain(genesis) => {
            lemma_replace_keeps_wf(s.validators, genesis.validators);
        },
        Hook::BeginBlock(header, votes) => {
            lemma_begin_block_keeps_wf(
                s.validators,
                header.proposer_address,
                counted_votes(votes),
                as_amount(header.height),
            );
        },
        Hook::DeliverTx(tx, proofs) => {
            if s.screen(tx, proofs) is Ok {
                let amount = s.check_fees(tx)->Ok_0;
                lemma_collect_keeps_wf(s.validators, amount);
                if tx.stake_updates() is Ok {
                    lemma_apply_stakes_keeps_wf(
                        s.validators.collect(amount),
                        tx.stake_updates()->Ok_0,
                    );
                }
                if let TransactionView::Deployment { program, verifying_keys, .. } = tx {
                    lemma_add_keeps_wf(s.programs, program.id, program, verifying_keys);
                }
            }
        },
        Hook::Commit => {
            lemma_after_rewards_keeps_wf(s.validators);
            lemma_commit_keeps_wf(s.validators.after_rewards());
        },
        _ => {},
    }
}

/// Every sequence of hooks keeps the state well formed: from the empty state
/// on, no commitment is stored twice, no serial number is spent twice, no
/// program identifier is taken twice, and no address names two validators.
pub proof fn lemma_hooks_keep_wf(s: AppView, hooks: Seq<Hook>)
    requires
        s.wf(),
    ensures
        app_run(s, hooks).wf(),
    decreases hooks.len(),
{
    if hooks.len() > 0 {
        lemma_hooks_keep_wf(s, hooks.drop_last());
        lemma_hook_keeps_wf(app_run(s, hooks.drop_last()), hooks.last());
    }
}

/// The empty state is well formed.
pub proof fn lemma_empty_is_wf()
    ensures
        AppView::empty().wf(),
{
    assert(addresses(Seq::<Validator>::empty()) =~= Seq::empty());
    assert(voters(Seq::<Vote>::empty()) =~= Seq::empty());
}

/// No hook brings a spent serial number back.
pub proof fn lemma_spent_stays_spent_over_hooks(s: AppView, hooks: Seq<Hook>, sn: Field)
    requires
        s.records.is_spent(sn),
    ensures
        app_run(s, hooks).records.is_spent(sn),
{
    let ops = lemma_run_records_is_run(s, hooks);
    lemma_spent_stays_spent(s.records, ops, sn);
}

/// A delivery leaves the program store as it was or stores the program of
/// the deployment that was delivered.
proof fn lemma_deliver_programs(s: AppView, tx: TransactionView, proofs: ProofReportView)
    ensures
        s.deliver_tx(tx, proofs).0.programs == s.programs || (tx matches TransactionView::Deployment {
            program,
            verifying_keys,
            ..
        } && s.programs.add(program.id, program, verifying_keys) == Ok::<ProgramStoreView, ProgramError>(
            s.deliver_tx(tx, proofs).0.programs)),
{
    if s.screen(tx, proofs) is Ok {
        let (s1, r1) = s.update_validators(tx);
        assert(s1.programs == s.programs);
        if r1 is Ok {
            let (s2, r2) = s1.spend_input_records(tx);
            assert(s2.programs == s.programs);
            if r2 is Ok {
                let (s3, r3) = s2.add_output_records(tx);
                assert(s3.programs == s.programs);
            }
        }
    }
}

/// A hook leaves the program store as it was or stores one more program:
/// the program that is returned.
proof fn lemma_step_programs(s: AppView, hook: Hook) -> (added: Option<
    (Seq<char>, ProgramView, Seq<u8>),
>)
    ensures
        match added {
            None => app_step(s, hook).programs == s.programs,
            Some((id, program, keys)) => s.programs.add(id, program, keys) == Ok::<
                ProgramStoreView,
                ProgramError,
            >(app_step(s, hook).programs),
        },
{
    match hook {
        Hook::DeliverTx(tx, proofs) => {
            lemma_deliver_programs(s, tx, proofs);
            if s.deliver_tx(tx, proofs).0.programs == s.programs {
                None
            } else {
                Some(
                    (
                        tx->Deployment_program.id,
                        tx->Deployment_program,
                        tx->Deployment_verifying_keys,
                    ),
                )
            }
        },
        _ => None,
    }
}

/// Storing one more program leaves what is found under an identifier that
/// was taken before.
proof fn lemma_one_more_program(
    before: ProgramStoreView,
    after: ProgramStoreView,
    added: Option<(Seq<char>, ProgramView, Seq<u8>)>,
    id: Seq<char>,
)
    requires
        before.contains(id),
        match added {
            None => after == before,
            Some((other, program, keys)) => before.add(other, program, keys) == Ok::<
                ProgramStoreView,
                ProgramError,
            >(after),
        },
    ensures
        after.contains(id),
        after.get(id) == before.get(id),
{
    if let Some((other, program, keys)) = added {
        lemma_add_keeps_programs(before, other, program, keys, id);
    }
}

/// No hook removes a program or changes it.
pub proof fn lemma_programs_stay(s: AppView, hooks: Seq<Hook>, id: Seq<char>)
    requires
        s.programs.contains(id),
    ensures
        app_run(s, hooks).programs.contains(id),
        app_run(s, hooks).programs.get(id) == s.programs.get(id),
    decreases hooks.len(),
{
    if hooks.len() > 0 {
        lemma_programs_stay(s, hooks.drop_last(), id);
        let added = lemma_step_programs(app_run(s, hooks.drop_last()), hooks.last());
        lemma_one_more_program(
            app_run(s, hooks.drop_last()).programs,
            app_run(s, hooks).programs,
            added,
            id,
        );
    }
}

/// Where every serial number is unspent and none comes twice, all the spends
/// are staged.
pub proof fn lemma_screened_spends(records: RecordStoreView, serials: Seq<Field>)
    requires
        serials.no_duplicates(),
        first_spent(records, serials) is None,
    ensures
        spend_all(records, serials) == (
            RecordStoreView { pending_spend: records.pending_spend + serials, ..records },
            Ok::<(), TxErrorView>(()),
        ),
    decreases serials.len(),
{
    if serials.len() == 0 {
        assert(records.pending_spend + serials =~= records.pending_spend);
    } else {
        let front = serials.drop_last();
        let last = serials.last();
        assert forall|i: int, j: int| 0 <= i < front.len() && 0 <= j < front.len() && i != j implies front[i]
            != front[j] by {
            assert(serials[i] != serials[j]);
        }
        lemma_screened_spends(records, front);
        let before = RecordStoreView { pending_spend: records.pending_spend + front, ..records };
        assert(records.is_unspent(last));
        assert(!before.pending_spend.contains(last)) by {
            if before.pending_spend.contains(last) {
                let k = choose|k: int| 0 <= k < before.pending_spend.len() && before.pending_spend[k] == last;
                if k < records.pending_spend.len() {
                    assert(records.pending_spend[k] == last);
                } else {
                    assert(serials[k - records.pending_spend.len()] == serials[serials.len() - 1]);
                }
            }
        }
        assert(before.pending_spend.push(last) =~= records.pending_spend + serials);
    }
}

/// Where the commitments of the records are new and differ from one another,
/// all the records are staged.
pub proof fn lemma_new_outputs_are_added(records: RecordStoreView, entries: Seq<Entry>)
    requires
        outputs_are_new(records, entries),
    ensures
        add_all(records, entries) == (
            RecordStoreView { pending_add: records.pending_add + entries, ..records },
            Ok::<(), TxErrorView>(()),
        ),
    decreases entries.len(),
{
    if entries.len() == 0 {
        assert(records.pending_add + entries =~= records.pending_add);
    } else {
        let front = entries.drop_last();
        let last = entries.last();
        assert(outputs_are_new(records, front)) by {
            assert forall|i: int| 0 <= i < front.len() implies !records.holds((#[trigger] front[i]).0) by {
                assert(front[i] == entries[i]);
            }
            assert forall|i: int, j: int| 0 <= i < j < front.len() implies (#[trigger] front[i]).0 != (
            #[trigger] front[j]).0 by {
                assert(front[i] == entries[i] && front[j] == entries[j]);
            }
        }
        lemma_new_outputs_are_added(records, front);
        let before = RecordStoreView { pending_add: records.pending_add + front, ..records };
        assert(!before.holds(last.0)) by {
            assert(!records.holds(entries[entries.len() - 1].0));
            if has_commitment(before.pending_add, last.0) {
                let k = choose|k: int| 0 <= k < before.pending_add.len() && (#[trigger] before.pending_add[k]).0 == last.0;
                if k < records.pending_add.len() {
                    assert(records.pending_add[k].0 == last.0);
                } else {
                    assert(entries[k - records.pending_add.len()].0 != entries[entries.len() - 1].0);
                }
            }
        }
        assert(before.pending_add.push(last) =~= records.pending_add + entries);
    }
}

/// What a delivery does where the validation passes and the commitments of
/// the new records are new: the fees are collected and the changes of stake
/// queued, the inputs are staged as spent, the new records are staged, and
/// the program of a deployment is stored.
pub proof fn lemma_delivery_effect(s: AppView, tx: TransactionView, proofs: ProofReportView)
    requires
        s.screen(tx, proofs) is Ok,
        outputs_are_new(s.records, tx.output_records()),
    ensures
        s.deliver_tx(tx, proofs).1 is Ok,
        s.deliver_tx(tx, proofs).0.records == (RecordStoreView {
            pending_spend: s.records.pending_spend + tx.serial_numbers(),
            pending_add: s.records.pending_add + tx.output_records(),
            ..s.records
        }),
        s.deliver_tx(tx, proofs).0.validators == apply_stakes(
            s.validators.collect(s.check_fees(tx)->Ok_0),
            tx.stake_updates()->Ok_0,
        ),
        s.deliver_tx(tx, proofs).0.programs == (match tx {
            TransactionView::Deployment { program, verifying_keys, .. } => s.programs.add(
                program.id,
                program,
                verifying_keys,
            )->Ok_0,
            _ => s.programs,
        }),
        s.deliver_tx(tx, proofs).0.height == s.height,
{
    let (s1, r1) = s.update_validators(tx);
    assert(r1 is Ok);
    lemma_screened_spends(s.records, tx.serial_numbers());
    let (s2, r2) = s1.spend_input_records(tx);
    assert(r2 is Ok);
    let entries = tx.output_records();
    assert(outputs_are_new(s2.records, entries)) by {
        assert forall|i: int| 0 <= i < entries.len() implies !s2.records.holds(
            (#[trigger] entries[i]).0,
        ) by {
            assert(!s.records.holds(entries[i].0));
        }
    }
    lemma_new_outputs_are_added(s2.records, entries);
    let (s3, r3) = s2.add_output_records(tx);
    assert(r3 is Ok);
}

/// Check/deliver consistency: a transaction that `check_tx` accepts is
/// applied by `deliver_tx` in the same state, where the commitments of the
/// records that it creates are new.
pub proof fn lemma_check_then_deliver(s: AppView, tx: TransactionView, proofs: ProofReportView)
    requires
        s.check_tx(tx, proofs) is Ok,
        outputs_are_new(s.records, tx.output_records()),
    ensures
        s.deliver_tx(tx, proofs).1 is Ok,
{
    lemma_delivery_effect(s, tx, proofs);
}

/// A transaction that `deliver_tx` applies is one that `check_tx` accepts in
/// the same state.
pub proof fn lemma_deliver_then_check(s: AppView, tx: TransactionView, proofs: ProofReportView)
    requires
        s.deliver_tx(tx, proofs).1 is Ok,
    ensures
        s.check_tx(tx, proofs) is Ok,
{
}

/// Staging isolation: a delivery that the validation rejects changes
/// nothing.
pub proof fn lemma_screening_changes_nothing(s: AppView, tx: TransactionView, proofs: ProofReportView)
    requires
        s.screen(tx, proofs) is Err,
    ensures
        s.deliver_tx(tx, proofs) == (s, Err::<(), TxErrorView>(s.screen(tx, proofs)->Err_0)),
        s.check_tx(tx, proofs) == Err::<i64, TxErrorView>(s.screen(tx, proofs)->Err_0),
{
}

/// Staging isolation: a delivery that is rejected changes nothing, where the
/// commitments of the records that the transaction creates are new.
pub proof fn lemma_rejected_delivery_changes_nothing(
    s: AppView,
    tx: TransactionView,
    proofs: ProofReportView,
)
    requires
        s.deliver_tx(tx, proofs).1 is Err,
        outputs_are_new(s.records, tx.output_records()),
    ensures
        s.deliver_tx(tx, proofs).0 == s,
{
    if s.screen(tx, proofs) is Ok {
        lemma_delivery_effect(s, tx, proofs);
    }
}

/// The store refuses a record for one reason only: its commitment is taken.
proof fn lemma_add_all_error(records: RecordStoreView, entries: Seq<Entry>)
    ensures
        add_all(records, entries).1 matches Err(e) ==> e == TxErrorView::Store(
            StoreError::CommitmentExists,
        ),
    decreases entries.len(),
{
    if entries.len() > 0 {
        lemma_add_all_error(records, entries.drop_last());
    }
}

/// Staging isolation: a delivery that is rejected changes nothing, unless it
/// is rejected because the store refused one of the records that the
/// transaction creates.
pub proof fn lemma_rejection_leaves_no_trace(s: AppView, tx: TransactionView, proofs: ProofReportView)
    requires
        s.deliver_tx(tx, proofs).1 matches Err(e) && e != TxErrorView::Store(
            StoreError::CommitmentExists,
        ),
    ensures
        s.deliver_tx(tx, proofs).0 == s,
        s.check_tx(tx, proofs) is Err,
{
    if s.screen(tx, proofs) is Ok {
        let (s1, r1) = s.update_validators(tx);
        assert(r1 is Ok);
        lemma_screened_spends(s.records, tx.serial_numbers());
        let (s2, r2) = s1.spend_input_records(tx);
        assert(r2 is Ok);
        lemma_add_all_error(s2.records, tx.output_records());
        let (s3, r3) = s2.add_output_records(tx);
        if r3 is Ok {
            assert(s3.programs == s.programs);
            assert(s3.store_program(tx).1 is Ok);
        }
    }
}

/// Check/deliver consistency: a transaction that `check_tx` accepts is
/// applied by `deliver_tx` in the same state, unless the store refuses one of
/// the records that it creates.
pub proof fn lemma_check_then_deliver_or_refused(
    s: AppView,
    tx: TransactionView,
    proofs: ProofReportView,
)
    requires
        s.check_tx(tx, proofs) is Ok,
    ensures
        s.deliver_tx(tx, proofs).1 is Ok || s.deliver_tx(tx, proofs).1 == Err::<(), TxErrorView>(
            TxErrorView::Store(StoreError::CommitmentExists),
        ),
{
    if s.deliver_tx(tx, proofs).1 is Err && s.deliver_tx(tx, proofs).1 != Err::<(), TxErrorView>(
        TxErrorView::Store(StoreError::CommitmentExists),
    ) {
        lemma_rejection_leaves_no_trace(s, tx, proofs);
    }
}

/// Where one of the serial numbers is not unspent, there is a first one that
/// is not.
proof fn lemma_first_spent_exists(records: RecordStoreView, serials: Seq<Field>, sn: Field)
    requires
        serials.contains(sn),
        !records.is_unspent(sn),
    ensures
        first_spent(records, serials) is Some,
    decreases serials.len(),
{
    if serials.last() != sn {
        let k = choose|k: int| 0 <= k < serials.len() && serials[k] == sn;
        assert(serials.drop_last()[k] == sn);
        lemma_first_spent_exists(records, serials.drop_last(), sn);
    }
}

/// A transaction that consumes a spent record is rejected, by `check_tx` and
/// by `deliver_tx`, and changes nothing.
pub proof fn lemma_spent_input_is_rejected(
    s: AppView,
    tx: TransactionView,
    proofs: ProofReportView,
    sn: Field,
)
    requires
        tx.serial_numbers().contains(sn),
        s.records.is_spent(sn),
    ensures
        s.check_tx(tx, proofs) is Err,
        s.deliver_tx(tx, proofs).1 is Err,
        s.deliver_tx(tx, proofs).0 == s,
{
    lemma_first_spent_exists(s.records, tx.serial_numbers(), sn);
}

/// A transaction that consumes a record twice is rejected, by `check_tx` and
/// by `deliver_tx`, and changes nothing.
pub proof fn lemma_duplicate_input_is_rejected(s: AppView, tx: TransactionView, proofs: ProofReportView)
    requires
        !tx.serial_numbers().no_duplicates(),
    ensures
        s.check_tx(tx, proofs) is Err,
        s.deliver_tx(tx, proofs).1 is Err,
        s.deliver_tx(tx, proofs).0 == s,
{
}

/// The inputs of a transaction that was applied are spent.
pub proof fn lemma_delivered_inputs_are_spent(
    s: AppView,
    tx: TransactionView,
    proofs: ProofReportView,
    sn: Field,
)
    requires
        s.deliver_tx(tx, proofs).1 is Ok,
        tx.serial_numbers().contains(sn),
    ensures
        s.deliver_tx(tx, proofs).0.records.is_spent(sn),
{
    let serials = tx.serial_numbers();
    lemma_screened_spends(s.records, serials);
    let (s1, r1) = s.update_validators(tx);
    let (s2, r2) = s1.spend_input_records(tx);
    let k = choose|k: int| 0 <= k < serials.len() && serials[k] == sn;
    assert(s2.records.pending_spend[s.records.pending_spend.len() + k] == sn);
    assert(s2.records.is_spent(sn));
    let (s3, r3) = s2.add_output_records(tx);
    let ops = lemma_add_all_is_run(s2.records, tx.output_records());
    lemma_spent_stays_spent(s2.records, ops, sn);
    assert(s.deliver_tx(tx, proofs).0.records == s3.records);
}

/// No double spend: once a transaction that consumes a record was applied,
/// every transaction that consumes the same record is rejected, by `check_tx`
/// and by `deliver_tx`, in the same block and in every later one, whatever
/// hooks were called in between.
pub proof fn lemma_no_double_spend(
    s: AppView,
    tx: TransactionView,
    proofs: ProofReportView,
    hooks: Seq<Hook>,
    later_tx: TransactionView,
    later_proofs: ProofReportView,
    sn: Field,
)
    requires
        s.deliver_tx(tx, proofs).1 is Ok,
        tx.serial_numbers().contains(sn),
        later_tx.serial_numbers().contains(sn),
    ensures
        ({
            let later = app_run(s.deliver_tx(tx, proofs).0, hooks);
            &&& later.check_tx(later_tx, later_proofs) is Err
            &&& later.deliver_tx(later_tx, later_proofs).1 is Err
            &&& later.deliver_tx(later_tx, later_proofs).0 == later
        }),
{
    lemma_delivered_inputs_are_spent(s, tx, proofs, sn);
    lemma_spent_stays_spent_over_hooks(s.deliver_tx(tx, proofs).0, hooks, sn);
    lemma_spent_input_is_rejected(
        app_run(s.deliver_tx(tx, proofs).0, hooks),
        later_tx,
        later_proofs,
        sn,
    );
}

/// The program of a deployment that was applied is stored.
pub proof fn lemma_delivered_program_is_stored(s: AppView, tx: TransactionView, proofs: ProofReportView)
    requires
        s.deliver_tx(tx, proofs).1 is Ok,
        tx is Deployment,
    ensures
        s.deliver_tx(tx, proofs).0.programs.contains(tx->Deployment_program.id),
        s.deliver_tx(tx, proofs).0.programs.get(tx->Deployment_program.id) == Some(
            (tx->Deployment_program, tx->Deployment_verifying_keys),
        ),
{
    let program = tx->Deployment_program;
    let keys = tx->Deployment_verifying_keys;
    lemma_deliver_programs(s, tx, proofs);
    let (s1, r1) = s.update_validators(tx);
    let (s2, r2) = s1.spend_input_records(tx);
    let (s3, r3) = s2.add_output_records(tx);
    assert(s3.programs == s.programs);
    lemma_get_after_add(s.programs, program.id, program, keys);
}

/// A deployment of a program whose identifier is taken is rejected, by
/// `check_tx` and by `deliver_tx`, and changes nothing.
pub proof fn lemma_taken_identifier_is_rejected(s: AppView, tx: TransactionView, proofs: ProofReportView)
    requires
        tx is Deployment,
        s.programs.contains(tx->Deployment_program.id),
    ensures
        s.check_tx(tx, proofs) is Err,
        s.deliver_tx(tx, proofs).1 is Err,
        s.deliver_tx(tx, proofs).0 == s,
{
    assert(s.validate_transaction(tx, proofs) is Err);
    assert(s.screen(tx, proofs) is Err);
}

/// Deployment is unique: once a deployment was applied, every deployment of
/// a program with the same identifier is rejected, by `check_tx` and by
/// `deliver_tx`, and changes nothing, whatever hooks were called in between.
pub proof fn lemma_deployed_once(
    s: AppView,
    tx: TransactionView,
    proofs: ProofReportView,
    hooks: Seq<Hook>,
    again: TransactionView,
    again_proofs: ProofReportView,
)
    requires
        s.deliver_tx(tx, proofs).1 is Ok,
        tx is Deployment,
        again is Deployment,
        again->Deployment_program.id == tx->Deployment_program.id,
    ensures
        ({
            let later = app_run(s.deliver_tx(tx, proofs).0, hooks);
            &&& later.check_tx(again, again_proofs) is Err
            &&& later.deliver_tx(again, again_proofs).1 is Err
            &&& later.deliver_tx(again, again_proofs).0 == later
            &&& later.programs.get(tx->Deployment_program.id) == Some(
                (tx->Deployment_program, tx->Deployment_verifying_keys),
            )
        }),
{
    let first = s.deliver_tx(tx, proofs).0;
    lemma_delivered_program_is_stored(s, tx, proofs);
    lemma_programs_stay(first, hooks, tx->Deployment_program.id);
    lemma_taken_identifier_is_rejected(app_run(first, hooks), again, again_proofs);
}

/// Validator updates are complete: the updates that `end_block` surfaces
/// name exactly the validators whose power the commit of the block changes,
/// each with the power that it has after the commit.
pub proof fn lemma_end_block_is_complete(s: AppView, a: Address)
    requires
        s.wf(),
    ensures
        names(s.validators.pending_updates(), a) <==> power_of(s.commit().validators.validators, a)
            != power_of(s.validators.validators, a),
        forall|i: int|
            0 <= i < s.validators.pending_updates().len() ==> power_of(
                s.commit().validators.validators,
                (#[trigger] s.validators.pending_updates()[i]).address,
            ) == s.validators.pending_updates()[i].voting_power,
{
    lemma_after_rewards_keeps_wf(s.validators);
    lemma_pending_updates_complete(s.validators.after_rewards(), a);
}

/// After a commit nothing is staged in the record store, and nothing is
/// queued in the validator set; the same holds after the reward records were
/// added.
pub proof fn lemma_commit_leaves_nothing_staged(s: AppView, entries: Seq<Entry>)
    ensures
        s.commit().records.staging_is_empty(),
        s.commit().validators.pending.len() == 0,
        s.commit().add_reward_records(entries).records.staging_is_empty(),
{
}

/// A commit raises the height that the height file holds by one.
pub proof fn lemma_commit_raises_height(s: AppView)
    requires
        can_increment(s.height),
    ensures
        height_of(s.commit().height) == Some(
            (height_of(s.height)->Some_0 + 1) as i64,
        ),
{
    lemma_height_round_trip((height_of(s.height)->Some_0 + 1) as i64);
}

/// Queueing changes of stake leaves the fee pot, the proposer, the votes and
/// the live set as they are.
proof fn lemma_apply_stakes_keeps_the_rest(validators: ValidatorSetView, updates: Seq<Stake>)
    ensures
        apply_stakes(validators, updates).fees == validators.fees,
        apply_stakes(validators, updates).validators == validators.validators,
        apply_stakes(validators, updates).proposer == validators.proposer,
        apply_stakes(validators, updates).votes == validators.votes,
        apply_stakes(validators, updates).height == validators.height,
    decreases updates.len(),
{
    if updates.len() > 0 {
        lemma_apply_stakes_keeps_the_rest(validators, updates.drop_last());
    }
}

/// A delivery that is applied adds the fees of the transaction to the fee
/// pot, and leaves the live validator set as it is.
pub proof fn lemma_delivery_collects_fees(s: AppView, tx: TransactionView, proofs: ProofReportView)
    requires
        s.deliver_tx(tx, proofs).1 is Ok,
    ensures
        tx.fees_fit(),
        s.deliver_tx(tx, proofs).0.validators.fees == s.validators.fees + as_amount(
            tx.fees() as i64,
        ),
        s.deliver_tx(tx, proofs).0.validators.validators == s.validators.validators,
{
    let amount = s.check_fees(tx)->Ok_0;
    lemma_apply_stakes_keeps_the_rest(s.validators.collect(amount), tx.stake_updates()->Ok_0);
    let (s1, r1) = s.update_validators(tx);
    let (s2, r2) = s1.spend_input_records(tx);
    let (s3, r3) = s2.add_output_records(tx);
    assert(s.deliver_tx(tx, proofs).0.validators == s1.validators);
}

/// What loading records into a store without staging makes of it: every
/// record is committed, in order, and nothing else changes.
proof fn lemma_load_all_effect(records: RecordStoreView, entries: Seq<Entry>)
    requires
        records.staging_is_empty(),
        load_all(records, entries).1 is Ok,
    ensures
        load_all(records, entries).0 == (RecordStoreView {
            committed: records.committed + entries,
            spent: records.spent,
            pending_add: Seq::empty(),
            pending_spend: Seq::empty(),
        }),
    decreases entries.len(),
{
    if entries.len() == 0 {
        assert(records.committed + entries =~= records.committed);
        assert(records.pending_add =~= Seq::empty());
        assert(records.pending_spend =~= Seq::empty());
    } else {
        lemma_load_all_effect(records, entries.drop_last());
        let before = load_all(records, entries.drop_last()).0;
        assert(before.committed + Seq::<Entry>::empty().push(entries.last()) =~= records.committed
            + entries);
        assert(before.spent + Seq::<Field>::empty() =~= records.spent);
    }
}

/// The records of a genesis that was loaded into the empty state are all
/// unspent, and the validators of the genesis are the validator set.
pub proof fn lemma_genesis_is_loaded(genesis: GenesisStateView, i: int)
    requires
        AppView::empty().init_chain(genesis).1 is Ok,
        0 <= i < genesis.records.len(),
    ensures
        AppView::empty().init_chain(genesis).0.records.is_unspent(genesis.records[i].1.serial_number),
        AppView::empty().init_chain(genesis).0.records.committed == genesis.records,
        AppView::empty().init_chain(genesis).0.validators == ValidatorSetView::empty().replace(
            genesis.validators,
        ),
{
    let empty = AppView::empty();
    lemma_load_all_effect(empty.records, genesis.records);
    let loaded = empty.init_chain(genesis).0.records;
    assert(loaded.committed =~= genesis.records);
    assert(loaded.committed[i].1.serial_number == genesis.records[i].1.serial_number);
}

/// No phantom records: whatever hooks were called since the empty state,
/// the record store is what a sequence of adds, spends and commits made of the
/// empty store, and a serial number is unspent exactly if one of these adds
/// brought a record with it and none of these spends has spent it.
pub proof fn lemma_no_phantom_records(hooks: Seq<Hook>, sn: Field) -> (ops: Seq<StoreOp>)
    ensures
        app_run(AppView::empty(), hooks).records == run(RecordStoreView::empty(), ops),
        app_run(AppView::empty(), hooks).records.is_unspent(sn) <==> added_in(
            RecordStoreView::empty(),
            ops,
            sn,
        ) && !spent_in(RecordStoreView::empty(), ops, sn),
{
    let ops = lemma_run_records_is_run(AppView::empty(), hooks);
    lemma_unspent_iff_added_and_not_spent(ops, sn);
    ops
}

/// Whether the hook brings validators only that stand under the consensus
/// addresses that belong to their public keys.
pub open spec fn brings_keyed(hook: Hook) -> bool {
    hook matches Hook::InitChain(genesis) ==> all_keyed(genesis.validators)
}

/// Queueing changes of stake that name their validators by the addresses of
/// their keys leaves every validator under the address of its key.
proof fn lemma_apply_stakes_keeps_keyed(validators: ValidatorSetView, updates: Seq<Stake>)
    requires
        set_keyed(validators),
        forall|i: int| 0 <= i < updates.len() ==> stake_keyed(#[trigger] updates[i]),
    ensures
        set_keyed(apply_stakes(validators, updates)),
    decreases updates.len(),
{
    if updates.len() > 0 {
        let front = updates.drop_last();
        assert forall|i: int| 0 <= i < front.len() implies stake_keyed(#[trigger] front[i]) by {
            assert(front[i] == updates[i]);
        }
        lemma_apply_stakes_keeps_keyed(validators, front);
        lemma_apply_keeps_keyed(apply_stakes(validators, front), updates.last());
    }
}

/// Every hook leaves every validator under the consensus address that
/// belongs to its public key, where the genesis brings such validators
/// only.
pub proof fn lemma_hook_keeps_keyed(s: AppView, hook: Hook)
    requires
        set_keyed(s.validators),
        brings_keyed(hook),
    ensures
        set_keyed(app_step(s, hook).validators),
{
    match hook {
        Hook::InitChain(genesis) => {
            lemma_replace_keeps_keyed(s.validators, genesis.validators);
        },
        Hook::DeliverTx(tx, proofs) => {
            if s.screen(tx, proofs) is Ok {
                let collected = s.validators.collect(s.check_fees(tx)->Ok_0);
                if let Ok(updates) = tx.stake_updates() {
                    if let TransactionView::Execution { transitions, validator: Some(text), .. } = tx {
                        assert(address_of(key_of_hex(text)) == address_of_text(text));
                        lemma_stakes_are_keyed(transitions, key_of_hex(text));
                    }
                    lemma_apply_stakes_keeps_keyed(collected, updates);
                }
            }
        },
        Hook::Commit => {
            lemma_commit_keeps_keyed(s.validators.after_rewards());
        },
        _ => {},
    }
}

/// Every sequence of hooks leaves every validator under the consensus
/// address that belongs to its public key, where the genesis brings such
/// validators only.
pub proof fn lemma_hooks_keep_keyed(s: AppView, hooks: Seq<Hook>)
    requires
        set_keyed(s.validators),
        forall|i: int| 0 <= i < hooks.len() ==> brings_keyed(#[trigger] hooks[i]),
    ensures
        set_keyed(app_run(s, hooks).validators),
    decreases hooks.len(),
{
    if hooks.len() > 0 {
        let front = hooks.drop_last();
        assert forall|i: int| 0 <= i < front.len() implies brings_keyed(#[trigger] front[i]) by {
            assert(front[i] == hooks[i]);
        }
        lemma_hooks_keep_keyed(s, front);
        lemma_hook_keeps_keyed(app_run(s, front), hooks.last());
    }
}

/// Validator updates name a validator once: among the updates that
/// `end_block` surfaces no public key occurs twice, in every state that
/// arose from the empty one by hooks whose genesis brought validators under
/// the addresses of their keys.
pub proof fn lemma_end_block_names_each_key_once(hooks: Seq<Hook>, i: int, j: int)
    requires
        forall|k: int| 0 <= k < hooks.len() ==> brings_keyed(#[trigger] hooks[k]),
        0 <= i < j < app_run(AppView::empty(), hooks).end_block().len(),
    ensures
        app_run(AppView::empty(), hooks).end_block()[i].pub_key != app_run(
            AppView::empty(),
            hooks,
        ).end_block()[j].pub_key,
{
    let s = app_run(AppView::empty(), hooks);
    lemma_empty_is_wf();
    lemma_hooks_keep_wf(AppView::empty(), hooks);
    lemma_hooks_keep_keyed(AppView::empty(), hooks);
    lemma_pending_updates_keys_differ(s.validators);
    let pending = s.validators.pending_updates();
    assert(pending[i].pub_key != pending[j].pub_key);
}

/// A commit of the block changes no answer of the record store: a serial
/// number is unspent after it exactly if it was before, so a record that
/// the block created can be spent afterwards exactly if the block did not
/// spend it, and what the block spent is among the spent serial numbers and
/// stays spent.
pub proof fn lemma_commit_keeps_unspent(s: AppView, sn: Field)
    ensures
        s.commit().records.is_unspent(sn) <==> s.records.is_unspent(sn),
        s.commit().records.is_spent(sn) <==> s.records.is_spent(sn),
        s.records.is_spent(sn) <==> s.commit().records.spent.contains(sn),
{
    lemma_commit_keeps_answers(s.records, sn);
}

/// A node that starts again over what it kept is in the state it was in.
/// After the commit of a block, with the reward records added, nothing is
/// staged, and the stores and the validator set that are built from what
/// the state holds are those of the state.
pub proof fn lemma_restart_keeps_state(s: AppView, rewards: Seq<Entry>)
    requires
        s.wf(),
    ensures
        ({
            let kept = s.commit().add_reward_records(rewards);
            &&& RecordStoreView::restored(kept.records.committed, kept.records.spent) == Ok::<
                RecordStoreView,
                StoreError,
            >(kept.records)
            &&& ProgramStoreView::restored(kept.programs.programs) == Ok::<
                ProgramStoreView,
                ProgramError,
            >(kept.programs)
            &&& ValidatorSetView::restored(
                kept.validators.validators,
                kept.validators.pending,
                kept.validators.fees,
                kept.validators.proposer,
                kept.validators.votes,
                kept.validators.height,
            ) == kept.validators
        }),
{
    let committed = s.commit();
    let kept = committed.add_reward_records(rewards);
    lemma_hook_keeps_wf(s, Hook::Commit);
    lemma_hook_keeps_wf(committed, Hook::AddRewardRecords(rewards));
    lemma_store_is_restored(kept.records);
    lemma_programs_are_restored(kept.programs);
    lemma_set_is_restored(kept.validators);
}

} // verus!
