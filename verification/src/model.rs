//! The state machine as mathematics: the state of the application and what
//! each hook makes of it.
//!
//! The executable hooks of `application` are proved to compute exactly these
//! functions, and the laws of `laws` are proved of them.

use vstd::prelude::*;
use crate::error::TxErrorView;
use crate::field::{Address, Field, PublicKey};
use crate::height::{height_bytes, height_of};
use crate::program_store::{ProgramStoreView, ProgramView};
use crate::record_store::{Entry, RecordStoreView, StoreError};
use crate::signed::{as_amount, as_signed};
use crate::transaction::{first_repeat_at, TransactionView, TransitionView};
use crate::validator::{Stake, Validator, Vote};
use crate::validator_set::{Reward, ValidatorSetView};

verus! {

/// The word of the proof engine on a transaction.
pub struct ProofReportView {
    /// Whether the engine accepts the program of a deployment with its
    /// verifying keys.
    pub deployment: bool,
    /// Whether the engine accepts the proof of each transition, in the order
    /// of the transitions. A transition beyond the end is not accepted.
    pub transitions: Seq<bool>,
}

impl ProofReportView {
    /// Whether the engine accepts the proof of the transition at `i`.
    pub open spec fn accepts(self, i: int) -> bool {
        0 <= i < self.transitions.len() && self.transitions[i]
    }
}

/// The header of the block that opens.
#[derive(Clone, Copy, Debug, PartialEq, Eq, Structural)]
pub struct Header {
    /// The validator that proposed the block.
    pub proposer_address: Address,
    /// The height of the block.
    pub height: i64,
}

/// The validator behind a vote, as the consensus engine reports it.
#[derive(Clone, Copy, Debug, PartialEq, Eq, Structural)]
pub struct VoteValidator {
    pub address: Address,
    pub power: i64,
}

/// A vote on the previous block, as the consensus engine reports it.
#[derive(Clone, Copy, Debug, PartialEq, Eq, Structural)]
pub struct VoteInfo {
    /// The validator that voted, if the engine names it.
    pub validator: Option<VoteValidator>,
    /// Whether the validator signed the previous block.
    pub signed_last_block: bool,
}

/// A change of the validator set, as the consensus engine is told of it.
#[derive(Clone, Copy, Debug, PartialEq, Eq, Structural)]
pub struct ValidatorUpdate {
    pub pub_key: PublicKey,
    pub power: i64,
}

/// The votes that count for the rewards: those of validators that signed
/// the previous block, are named, and have a power that is not negative.
pub open spec fn counted_votes(infos: Seq<VoteInfo>) -> Seq<Vote>
    decreases infos.len(),
{
    if infos.len() == 0 {
        Seq::empty()
    } else {
        let before = counted_votes(infos.drop_last());
        let info = infos.last();
        match info.validator {
            Some(v) => if info.signed_last_block && v.power >= 0 {
                before.push((v.address, v.power as u64))
            } else {
                before
            },
            None => before,
        }
    }
}

/// The validators as the consensus engine is told of them.
pub open spec fn as_updates(list: Seq<Validator>) -> Seq<ValidatorUpdate> {
    list.map_values(
        |v: Validator| ValidatorUpdate { pub_key: v.pub_key, power: as_signed(v.voting_power) as i64 },
    )
}

/// The first of `serials` that is not the serial number of an unspent
/// record.
pub open spec fn first_spent(records: RecordStoreView, serials: Seq<Field>) -> Option<Field>
    decreases serials.len(),
{
    if serials.len() == 0 {
        None
    } else {
        match first_spent(records, serials.drop_last()) {
            Some(sn) => Some(sn),
            None => if records.is_unspent(serials.last()) {
                None
            } else {
                Some(serials.last())
            },
        }
    }
}

/// The store after the spends of `serials` were staged, one after the other,
/// up to the first that the store refuses.
pub open spec fn spend_all(records: RecordStoreView, serials: Seq<Field>) -> (
    RecordStoreView,
    Result<(), TxErrorView>,
)
    decreases serials.len(),
{
    if serials.len() == 0 {
        (records, Ok(()))
    } else {
        let (before, res) = spend_all(records, serials.drop_last());
        match res {
            Err(e) => (before, Err(e)),
            Ok(_) => match before.spend(serials.last()) {
                Ok(after) => (after, Ok(())),
                Err(e) => (before, Err(TxErrorView::Store(e))),
            },
        }
    }
}

/// The store after `entries` were staged, one after the other, up to the
/// first that the store refuses.
pub open spec fn add_all(records: RecordStoreView, entries: Seq<Entry>) -> (
    RecordStoreView,
    Result<(), TxErrorView>,
)
    decreases entries.len(),
{
    if entries.len() == 0 {
        (records, Ok(()))
    } else {
        let (before, res) = add_all(records, entries.drop_last());
        match res {
            Err(e) => (before, Err(e)),
            Ok(_) => match before.add(entries.last().0, entries.last().1) {
                Ok(after) => (after, Ok(())),
                Err(e) => (before, Err(TxErrorView::Store(e))),
            },
        }
    }
}

/// The store after each of `entries` was added and committed, one after the
/// other, up to the first that the store refuses.
pub open spec fn load_all(records: RecordStoreView, entries: Seq<Entry>) -> (
    RecordStoreView,
    Result<(), StoreError>,
)
    decreases entries.len(),
{
    if entries.len() == 0 {
        (records, Ok(()))
    } else {
        let (before, res) = load_all(records, entries.drop_last());
        match res {
            Err(e) => (before, Err(e)),
            Ok(_) => match before.add(entries.last().0, entries.last().1) {
                Ok(after) => (after.commit(), Ok(())),
                Err(e) => (before, Err(e)),
            },
        }
    }
}

/// The store after each of `entries` was staged that the store accepts.
pub open spec fn add_each(records: RecordStoreView, entries: Seq<Entry>) -> RecordStoreView
    decreases entries.len(),
{
    if entries.len() == 0 {
        records
    } else {
        let before = add_each(records, entries.drop_last());
        match before.add(entries.last().0, entries.last().1) {
            Ok(after) => after,
            Err(_) => before,
        }
    }
}

/// The commitments of those of `entries` that the store refuses when they
/// are staged one after the other.
pub open spec fn refused_of(records: RecordStoreView, entries: Seq<Entry>) -> Seq<Field>
    decreases entries.len(),
{
    if entries.len() == 0 {
        Seq::empty()
    } else {
        let refused = refused_of(records, entries.drop_last());
        if add_each(records, entries.drop_last()).add(entries.last().0, entries.last().1) is Ok {
            refused
        } else {
            refused.push(entries.last().0)
        }
    }
}

/// The first reason for which one of `updates` is not admissible, each taken
/// by itself.
pub open spec fn validate_stakes(validators: ValidatorSetView, updates: Seq<Stake>) -> Result<
    (),
    TxErrorView,
>
    decreases updates.len(),
{
    if updates.len() == 0 {
        Ok(())
    } else {
        match validate_stakes(validators, updates.drop_last()) {
            Err(e) => Err(e),
            Ok(_) => match validators.validate(updates.last()) {
                Ok(_) => Ok(()),
                Err(e) => Err(TxErrorView::StakeInvalid(e)),
            },
        }
    }
}

/// The validator set after `updates` were queued, one after the other.
pub open spec fn apply_stakes(validators: ValidatorSetView, updates: Seq<Stake>) -> ValidatorSetView
    decreases updates.len(),
{
    if updates.len() == 0 {
        validators
    } else {
        apply_stakes(validators, updates.drop_last()).apply(updates.last())
    }
}

/// The genesis of a chain: the records and the validators that it starts
/// with.
pub struct GenesisStateView {
    pub records: Seq<Entry>,
    pub validators: Seq<Validator>,
}

/// The state of the application.
pub struct AppView {
    pub records: RecordStoreView,
    pub programs: ProgramStoreView,
    pub validators: ValidatorSetView,
    /// What the height file holds.
    pub height: Option<Seq<u8>>,
}

impl AppView {
    /// The state of a node that has seen nothing.
    pub open spec fn empty() -> AppView {
        AppView {
            records: RecordStoreView::empty(),
            programs: ProgramStoreView::empty(),
            validators: ValidatorSetView::empty(),
            height: None,
        }
    }

    /// What holds of every state that arose from the empty one.
    pub open spec fn wf(self) -> bool {
        self.records.wf() && self.programs.wf() && self.validators.wf()
    }

    /// The transaction must not consume a record twice.
    pub open spec fn check_no_duplicate_records(self, tx: TransactionView) -> Result<(), TxErrorView> {
        let serials = tx.serial_numbers();
        if serials.no_duplicates() {
            Ok(())
        } else {
            Err(
                TxErrorView::DuplicateInput {
                    serial_number: serials[choose|j: int| first_repeat_at(serials, j)],
                    transaction: tx.id(),
                },
            )
        }
    }

    /// The transaction must consume unspent records only.
    pub open spec fn check_inputs_are_unspent(self, tx: TransactionView) -> Result<(), TxErrorView> {
        match first_spent(self.records, tx.serial_numbers()) {
            Some(sn) => Err(TxErrorView::AlreadySpent(sn)),
            None => Ok(()),
        }
    }

    /// The program of the transition must be deployed, and the proof engine
    /// must have accepted the proof of the transition.
    pub open spec fn verify_transition(self, t: TransitionView, proof_valid: bool) -> Result<
        (),
        TxErrorView,
    > {
        if !self.programs.contains(t.program_id) {
            Err(TxErrorView::ProgramMissing(t.program_id))
        } else if !proof_valid {
            Err(TxErrorView::ProofInvalid)
        } else {
            Ok(())
        }
    }

    /// The first reason for which one of the transitions is not verified.
    pub open spec fn verify_transitions(self, ts: Seq<TransitionView>, proofs: ProofReportView) -> Result<
        (),
        TxErrorView,
    >
        decreases ts.len(),
    {
        if ts.len() == 0 {
            Ok(())
        } else {
            match self.verify_transitions(ts.drop_last(), proofs) {
                Err(e) => Err(e),
                Ok(_) => self.verify_transition(ts.last(), proofs.accepts(ts.len() - 1)),
            }
        }
    }

    /// The structural checks and the proofs. A deployment must bring a new
    /// program, a verified fee transition if it has one, and a program that
    /// the proof engine accepts. An execution must have a transition,
    /// admissible changes of stake, and verified transitions.
    pub open spec fn validate_transaction(self, tx: TransactionView, proofs: ProofReportView) -> Result<
        (),
        TxErrorView,
    > {
        match tx {
            TransactionView::Deployment { program, .. } => {
                if self.programs.contains(program.id) {
                    Err(TxErrorView::ProgramExists(program.id))
                } else {
                    match self.verify_transitions(tx.transitions(), proofs) {
                        Err(e) => Err(e),
                        Ok(_) => if proofs.deployment {
                            Ok(())
                        } else {
                            Err(TxErrorView::ProofInvalid)
                        },
                    }
                }
            },
            TransactionView::Execution { transitions, .. } => {
                if transitions.len() == 0 {
                    Err(TxErrorView::EmptyExecution)
                } else {
                    match tx.stake_updates() {
                        Err(e) => Err(e),
                        Ok(updates) => match validate_stakes(self.validators, updates) {
                            Err(e) => Err(e),
                            Ok(_) => self.verify_transitions(transitions, proofs),
                        },
                    }
                }
            },
        }
    }

    /// The fees of the transaction as the fee pot takes them. They must add
    /// up in 64 bits, and the pot must have room for them.
    pub open spec fn check_fees(self, tx: TransactionView) -> Result<u64, TxErrorView> {
        if !tx.fees_fit() {
            Err(TxErrorView::FeeOverflow)
        } else if !self.validators.can_collect(as_amount(tx.fees() as i64)) {
            Err(TxErrorView::FeeOverflow)
        } else {
            Ok(as_amount(tx.fees() as i64))
        }
    }

    /// The validation that the admission to the mempool and the delivery
    /// share: no record twice, unspent records only, a valid transaction,
    /// fees in range. The first check that fails gives the error.
    pub open spec fn screen(self, tx: TransactionView, proofs: ProofReportView) -> Result<(), TxErrorView> {
        match self.check_no_duplicate_records(tx) {
            Err(e) => Err(e),
            Ok(_) => match self.check_inputs_are_unspent(tx) {
                Err(e) => Err(e),
                Ok(_) => match self.validate_transaction(tx, proofs) {
                    Err(e) => Err(e),
                    Ok(_) => match self.check_fees(tx) {
                        Err(e) => Err(e),
                        Ok(_) => Ok(()),
                    },
                },
            },
        }
    }

    /// The admission to the mempool: the priority of the transaction, which
    /// is its fees, or the reason for which it is rejected.
    pub open spec fn check_tx(self, tx: TransactionView, proofs: ProofReportView) -> Result<i64, TxErrorView> {
        match self.screen(tx, proofs) {
            Err(e) => Err(e),
            Ok(_) => Ok(tx.fees() as i64),
        }
    }

    /// The side effects of the transaction on the validator set: its fees
    /// are collected, then its changes of stake are queued.
    pub open spec fn update_validators(self, tx: TransactionView) -> (AppView, Result<(), TxErrorView>) {
        match self.check_fees(tx) {
            Err(e) => (self, Err(e)),
            Ok(amount) => {
                let collected = self.validators.collect(amount);
                match tx.stake_updates() {
                    Err(e) => (AppView { validators: collected, ..self }, Err(e)),
                    Ok(updates) => (
                        AppView { validators: apply_stakes(collected, updates), ..self },
                        Ok(()),
                    ),
                }
            },
        }
    }

    /// The inputs of the transaction are staged as spent.
    pub open spec fn spend_input_records(self, tx: TransactionView) -> (AppView, Result<(), TxErrorView>) {
        let (records, res) = spend_all(self.records, tx.serial_numbers());
        (AppView { records, ..self }, res)
    }

    /// The records that the transaction creates are staged.
    pub open spec fn add_output_records(self, tx: TransactionView) -> (AppView, Result<(), TxErrorView>) {
        let (records, res) = add_all(self.records, tx.output_records());
        (AppView { records, ..self }, res)
    }

    /// The program of a deployment is stored with its keys.
    pub open spec fn store_program(self, tx: TransactionView) -> (AppView, Result<(), TxErrorView>) {
        match tx {
            TransactionView::Deployment { program, verifying_keys, .. } => match self.programs.add(
                program.id,
                program,
                verifying_keys,
            ) {
                Ok(programs) => (AppView { programs, ..self }, Ok(())),
                Err(_) => (self, Err(TxErrorView::ProgramExists(program.id))),
            },
            _ => (self, Ok(())),
        }
    }

    /// The application of a transaction to the block in flight: validation
    /// first, and only if it passes the validator set, the spends, the new
    /// records and the program, in this order. The first step that fails
    /// gives the error and ends the delivery; what was staged before stays.
    pub open spec fn deliver_tx(self, tx: TransactionView, proofs: ProofReportView) -> (
        AppView,
        Result<(), TxErrorView>,
    ) {
        match self.screen(tx, proofs) {
            Err(e) => (self, Err(e)),
            Ok(_) => {
                let (s1, r1) = self.update_validators(tx);
                match r1 {
                    Err(e) => (s1, Err(e)),
                    Ok(_) => {
                        let (s2, r2) = s1.spend_input_records(tx);
                        match r2 {
                            Err(e) => (s2, Err(e)),
                            Ok(_) => {
                                let (s3, r3) = s2.add_output_records(tx);
                                match r3 {
                                    Err(e) => (s3, Err(e)),
                                    Ok(_) => s3.store_program(tx),
                                }
                            },
                        }
                    },
                }
            },
        }
    }

    /// The opening of a block: the validator set notes the proposer, the
    /// votes that count, and the height.
    pub open spec fn begin_block(self, header: Header, infos: Seq<VoteInfo>) -> AppView {
        AppView {
            validators: self.validators.begin_block(
                header.proposer_address,
                counted_votes(infos),
                as_amount(header.height),
            ),
            ..self
        }
    }

    /// The changes of the validator set that the block in flight makes.
    pub open spec fn end_block(self) -> Seq<ValidatorUpdate> {
        as_updates(self.validators.pending_updates())
    }

    /// The rewards that the commit of the block in flight draws.
    pub open spec fn rewards(self) -> Seq<Reward> {
        self.validators.block_rewards()
    }

    /// The commit of the block in flight: what is staged in the record store
    /// is promoted, the height is raised, the rewards are drawn, and the
    /// queued changes of the validator set take effect.
    pub open spec fn commit(self) -> AppView {
        AppView {
            records: self.records.commit(),
            programs: self.programs,
            validators: self.validators.after_rewards().commit(),
            height: Some(height_bytes((height_of(self.height)->Some_0 + 1) as i64)),
        }
    }

    /// The reward records are added to the store, and committed with it.
    pub open spec fn add_reward_records(self, entries: Seq<Entry>) -> AppView {
        AppView { records: add_each(self.records, entries).commit(), ..self }
    }

    /// The loading of the genesis: its records are added and committed one
    /// after the other, then its validators become the validator set. Where
    /// the store refuses a record, the loading ends there.
    pub open spec fn init_chain(self, genesis: GenesisStateView) -> (AppView, Result<(), StoreError>) {
        let (records, res) = load_all(self.records, genesis.records);
        match res {
            Err(e) => (AppView { records, ..self }, Err(e)),
            Ok(_) => (
                AppView { records, validators: self.validators.replace(genesis.validators), ..self },
                Ok(()),
            ),
        }
    }

    /// The state after `info`: a missing height file is created with the
    /// height zero.
    pub open spec fn info(self) -> AppView {
        AppView {
            height: match self.height {
                Some(bytes) => Some(bytes),
                None => Some(height_bytes(0)),
            },
            ..self
        }
    }

    /// The verifying keys that the proof of each of the transitions is to be
    /// checked against: those of its program, or `None` where the program is
    /// not deployed.
    pub open spec fn verifying_keys_for(self, ts: Seq<TransitionView>) -> Seq<Option<Seq<u8>>> {
        ts.map_values(
            |t: TransitionView|
                match self.programs.get(t.program_id) {
                    Some((_, keys)) => Some(keys),
                    None => None,
                },
        )
    }

    /// The program that a query for `id` is answered with.
    pub open spec fn program(self, id: Seq<char>) -> Option<ProgramView> {
        match self.programs.get(id) {
            Some((program, _)) => Some(program),
            None => None,
        }
    }
}

/// Where a prefix of the serial numbers holds one that is not unspent, that
/// one is the first of all of them that is not unspent.
pub proof fn lemma_first_spent_prefix(records: RecordStoreView, serials: Seq<Field>, i: int)
    requires
        0 <= i <= serials.len(),
        first_spent(records, serials.take(i)) is Some,
    ensures
        first_spent(records, serials) == first_spent(records, serials.take(i)),
    decreases serials.len(),
{
    if i == serials.len() {
        assert(serials.take(i) =~= serials);
    } else {
        assert(serials.drop_last().take(i) =~= serials.take(i));
        lemma_first_spent_prefix(records, serials.drop_last(), i);
    }
}

/// Where a prefix of the spends is refused, the spends end there.
pub proof fn lemma_spend_all_prefix(records: RecordStoreView, serials: Seq<Field>, i: int)
    requires
        0 <= i <= serials.len(),
        spend_all(records, serials.take(i)).1 is Err,
    ensures
        spend_all(records, serials) == spend_all(records, serials.take(i)),
    decreases serials.len(),
{
    if i == serials.len() {
        assert(serials.take(i) =~= serials);
    } else {
        assert(serials.drop_last().take(i) =~= serials.take(i));
        lemma_spend_all_prefix(records, serials.drop_last(), i);
    }
}

/// Where a prefix of the entries is refused, the adding ends there.
pub proof fn lemma_add_all_prefix(
    records: RecordStoreView,
    entries: Seq<Entry>,
    i: int,
)
    requires
        0 <= i <= entries.len(),
        add_all(records, entries.take(i)).1 is Err,
    ensures
        add_all(records, entries) == add_all(records, entries.take(i)),
    decreases entries.len(),
{
    if i == entries.len() {
        assert(entries.take(i) =~= entries);
    } else {
        assert(entries.drop_last().take(i) =~= entries.take(i));
        lemma_add_all_prefix(records, entries.drop_last(), i);
    }
}

/// Where a prefix of the entries is refused, the loading ends there.
pub proof fn lemma_load_all_prefix(
    records: RecordStoreView,
    entries: Seq<Entry>,
    i: int,
)
    requires
        0 <= i <= entries.len(),
        load_all(records, entries.take(i)).1 is Err,
    ensures
        load_all(records, entries) == load_all(records, entries.take(i)),
    decreases entries.len(),
{
    if i == entries.len() {
        assert(entries.take(i) =~= entries);
    } else {
        assert(entries.drop_last().take(i) =~= entries.take(i));
        lemma_load_all_prefix(records, entries.drop_last(), i);
    }
}

/// Where a prefix of the changes of stake holds one that is not admissible,
/// the validation of all of them ends with its error.
pub proof fn lemma_validate_stakes_prefix(
    validators: ValidatorSetView,
    updates: Seq<Stake>,
    i: int,
)
    requires
        0 <= i <= updates.len(),
        validate_stakes(validators, updates.take(i)) is Err,
    ensures
        validate_stakes(validators, updates) == validate_stakes(validators, updates.take(i)),
    decreases updates.len(),
{
    if i == updates.len() {
        assert(updates.take(i) =~= updates);
    } else {
        assert(updates.drop_last().take(i) =~= updates.take(i));
        lemma_validate_stakes_prefix(validators, updates.drop_last(), i);
    }
}

/// Where a prefix of the transitions holds one that is not verified, the
/// verification of all of them ends with its error.
pub proof fn lemma_verify_transitions_prefix(
    s: AppView,
    ts: Seq<TransitionView>,
    proofs: ProofReportView,
    i: int,
)
    requires
        0 <= i <= ts.len(),
        s.verify_transitions(ts.take(i), proofs) is Err,
    ensures
        s.verify_transitions(ts, proofs) == s.verify_transitions(ts.take(i), proofs),
    decreases ts.len(),
{
    if i == ts.len() {
        assert(ts.take(i) =~= ts);
    } else {
        assert(ts.drop_last().take(i) =~= ts.take(i));
        lemma_verify_transitions_prefix(s, ts.drop_last(), proofs, i);
    }
}

} // verus!
