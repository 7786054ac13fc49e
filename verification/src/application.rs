//! The application: the hooks that the consensus engine calls.
//!
//! For each block the engine calls `begin_block`, `deliver_tx` for each
//! transaction, `end_block` and `commit`, in this order; `check_tx`, `info`
//! and `query` come in between. The hooks take what the engine sent as plain
//! values and answer with plain values; decoding requests, running the proof
//! engine and writing to disk are left to the caller.

use vstd::prelude::*;
use crate::error::{viewed, TxError, TxErrorView};
use crate::field::Field;
use crate::height::{can_increment, height_of, readable_or_missing, HeightFile};
use crate::model::{
    add_all, add_each, apply_stakes, as_updates, counted_votes, first_spent, lemma_add_all_prefix,
    lemma_first_spent_prefix, lemma_load_all_prefix, lemma_spend_all_prefix,
    lemma_validate_stakes_prefix, lemma_verify_transitions_prefix, load_all, refused_of, spend_all,
    validate_stakes, AppView, GenesisStateView, Header, ProofReportView, ValidatorUpdate, VoteInfo,
};
use crate::program_store::{Program, ProgramStore, VerifyingKeyMap};
use crate::record_store::{Record, RecordStore, StoreError};
use crate::signed::{amount_of, signed_of};
use crate::transaction::{
    first_duplicate, first_repeat_at, lemma_first_repeat_unique, Transaction, Transition,
};
use crate::validator::{Stake, Validator, Vote};
use crate::validator_set::{Reward, ValidatorSet, MAX_FEE_POT};

verus! {

/// The word of the proof engine on a transaction.
#[derive(Debug, PartialEq, Eq)]
pub struct ProofReport {
    /// Whether the engine accepts the program of a deployment with its
    /// verifying keys. Not read for an execution.
    pub deployment: bool,
    /// Whether the engine accepts the proof of each transition, in the order
    /// of the transitions.
    pub transitions: Vec<bool>,
}

impl View for ProofReport {
    type V = ProofReportView;

    open spec fn view(&self) -> ProofReportView {
        ProofReportView { deployment: self.deployment, transitions: self.transitions@ }
    }
}

/// The genesis of a chain.
#[derive(Debug, PartialEq, Eq)]
pub struct GenesisState {
    /// The records that the chain starts with, each under its commitment.
    pub records: Vec<(Field, Record)>,
    /// The validators that the chain starts with.
    pub validators: Vec<Validator>,
}

impl View for GenesisState {
    type V = GenesisStateView;

    open spec fn view(&self) -> GenesisStateView {
        GenesisStateView { records: self.records.deep_view(), validators: self.validators@ }
    }
}

/// What the consensus engine sends when a block opens.
#[derive(Debug, PartialEq, Eq)]
pub struct RequestBeginBlock {
    /// The header of the block.
    pub header: Option<Header>,
    /// The votes on the previous block.
    pub last_commit_info: Option<Vec<VoteInfo>>,
}

impl RequestBeginBlock {
    /// The votes on the previous block: none where the engine sent none.
    pub open spec fn votes(self) -> Seq<VoteInfo> {
        match self.last_commit_info {
            Some(votes) => votes@,
            None => Seq::empty(),
        }
    }
}

/// A query of the state.
#[derive(Debug, PartialEq, Eq)]
pub enum AbciQuery {
    /// All records, each with its commitment and whether it is spent.
    GetRecords,
    /// The serial numbers of the spent records.
    GetSpentSerialNumbers,
    /// The program that is deployed under an identifier.
    GetProgram { program_id: String },
}

/// The answer to a query.
#[derive(Debug, PartialEq, Eq)]
pub enum QueryReply {
    Records(Vec<(Field, Record, bool)>),
    SpentSerialNumbers(Vec<Field>),
    /// The program without its verifying keys; `None` where none is deployed
    /// under the identifier.
    Program(Option<Program>),
}

/// The answer to `info`.
#[derive(Debug, PartialEq, Eq)]
pub struct ResponseInfo {
    pub data: String,
    pub version: String,
    pub app_version: u64,
    pub last_block_height: i64,
    pub last_block_app_hash: Vec<u8>,
}

/// The answer to `check_tx`.
#[derive(Debug, PartialEq, Eq)]
pub struct ResponseCheckTx {
    /// 0 where the transaction is accepted, 1 where it is rejected.
    pub code: u32,
    pub log: String,
    pub info: String,
    /// The priority of the transaction in the mempool.
    pub priority: i64,
}

/// An attribute of an event.
#[derive(Debug, PartialEq, Eq)]
pub struct EventAttribute {
    pub key: String,
    pub value: String,
    /// Whether the consensus engine indexes the attribute.
    pub index: bool,
}

/// An event that a delivery emits.
#[derive(Debug, PartialEq, Eq)]
pub struct Event {
    pub kind: String,
    pub attributes: Vec<EventAttribute>,
}

/// The answer to `deliver_tx`.
#[derive(Debug, PartialEq, Eq)]
pub struct ResponseDeliverTx {
    /// 0 where the transaction is applied, 1 where it is rejected.
    pub code: u32,
    pub log: String,
    pub info: String,
    pub events: Vec<Event>,
}

/// The answer to `end_block`.
#[derive(Debug, PartialEq, Eq)]
pub struct ResponseEndBlock {
    pub validator_updates: Vec<ValidatorUpdate>,
}

/// The answer to `commit`.
#[derive(Debug, PartialEq, Eq)]
pub struct ResponseCommit {
    /// The hash of the application state: always empty.
    pub data: Vec<u8>,
    pub retain_height: i64,
}

/// What a commit leaves to do: the answer for the consensus engine, and the
/// rewards that are to be minted as records and handed to
/// `add_reward_records`.
#[derive(Debug, PartialEq, Eq)]
pub struct CommitOutcome {
    pub response: ResponseCommit,
    /// The height of the block that was committed.
    pub height: i64,
    pub rewards: Vec<Reward>,
}

/// The answer to `query`.
#[derive(Debug, PartialEq, Eq)]
pub struct ResponseQuery {
    /// 0 where the query is answered, 1 where it could not be read.
    pub code: u32,
    pub log: String,
    pub info: String,
    pub value: Option<QueryReply>,
}

/// Whether `event` is the event that makes the transaction `id` found by
/// its identifier.
pub open spec fn is_index_event(event: Event, id: Seq<char>) -> bool {
    &&& event.kind@ == "app"@
    &&& event.attributes.len() == 1
    &&& event.attributes[0].key@ == "tx_id"@
    &&& event.attributes[0].value@ == id
    &&& event.attributes[0].index
}

/// `prefix` followed by the words of `error`.
fn error_log(prefix: &str, error: &TxError) -> (log: String)
    ensures
        log@ == prefix@ + error@.message_text(),
{
    let mut log = prefix.to_owned();
    let message = error.message();
    log.push_str(message.as_str());
    log
}

/// The application state machine: the record store, the program store, the
/// validator set and the height file.
pub struct SnarkVMApp {
    records: RecordStore,
    programs: ProgramStore,
    validators: ValidatorSet,
    height: HeightFile,
}

impl View for SnarkVMApp {
    type V = AppView;

    closed spec fn view(&self) -> AppView {
        AppView {
            records: self.records@,
            programs: self.programs@,
            validators: self.validators@,
            height: self.height@,
        }
    }
}

impl SnarkVMApp {
    /// The application of a node that has seen nothing: empty stores, no
    /// validators, no height file.
    pub fn new() -> (app: SnarkVMApp)
        ensures
            app@ == AppView::empty(),
    {
        SnarkVMApp {
            records: RecordStore::new(),
            programs: ProgramStore::new(),
            validators: ValidatorSet::new(),
            height: HeightFile::new(None),
        }
    }

    /// The application over stores that were built before.
    pub fn from_parts(
        records: RecordStore,
        programs: ProgramStore,
        validators: ValidatorSet,
        height: HeightFile,
    ) -> (app: SnarkVMApp)
        ensures
            app@ == (AppView {
                records: records@,
                programs: programs@,
                validators: validators@,
                height: height@,
            }),
    {
        SnarkVMApp { records, programs, validators, height }
    }

    /// The record store.
    pub fn records(&self) -> (records: &RecordStore)
        ensures
            records@ == self@.records,
    {
        &self.records
    }

    /// The program store.
    pub fn programs(&self) -> (programs: &ProgramStore)
        ensures
            programs@ == self@.programs,
    {
        &self.programs
    }

    /// The validator set.
    pub fn validators(&self) -> (validators: &ValidatorSet)
        ensures
            validators@ == self@.validators,
    {
        &self.validators
    }

    /// The height file.
    pub fn height_file(&self) -> (height: &HeightFile)
        ensures
            height@ == self@.height,
    {
        &self.height
    }

    /// Fails if the transaction consumes a record twice, and names the first
    /// serial number that comes for the second time.
    pub fn check_no_duplicate_records(&self, transaction: &Transaction) -> (res: Result<(), TxError>)
        ensures
            viewed(res) == self@.check_no_duplicate_records(transaction@),
    {
        let serials = transaction.record_serial_numbers();
        match first_duplicate(&serials) {
            Some(serial_number) => {
                proof {
                    let s = serials@;
                    let j = choose|j: int| first_repeat_at(s, j) && s[j] == serial_number;
                    let k = choose|k: int| 0 <= k < s.take(j).len() && s.take(j)[k] == s[j];
                    assert(s[k] == s[j]);
                    let c = choose|c: int| first_repeat_at(s, c);
                    lemma_first_repeat_unique(s, j, c);
                }
                Err(
                    TxError::DuplicateInput {
                        serial_number,
                        transaction: transaction.id().to_owned(),
                    },
                )
            },
            None => Ok(()),
        }
    }

    /// Fails if the transaction consumes a record that is not known or is
    /// spent already, in the store or in the block in flight, and names the
    /// first such serial number.
    pub fn check_inputs_are_unspent(&self, transaction: &Transaction) -> (res: Result<(), TxError>)
        ensures
            viewed(res) == self@.check_inputs_are_unspent(transaction@),
    {
        let serials = transaction.record_serial_numbers();
        let mut i: usize = 0;
        assert(serials@.take(0) =~= Seq::empty());
        while i < serials.len()
            invariant
                i <= serials.len(),
                serials@ == transaction@.serial_numbers(),
                first_spent(self@.records, serials@.take(i as int)) is None,
            decreases serials.len() - i,
        {
            assert(serials@.take(i + 1).drop_last() =~= serials@.take(i as int));
            assert(serials@.take(i + 1).last() == serials@[i as int]);
            if !self.records.is_unspent(serials[i]) {
                proof {
                    lemma_first_spent_prefix(self@.records, serials@, i + 1);
                }
                return Err(TxError::AlreadySpent(serials[i]));
            }
            i += 1;
        }
        assert(serials@.take(i as int) =~= serials@);
        Ok(())
    }

    /// Stages the spend of every record that the transaction consumes, up to
    /// the first that the store refuses.
    pub fn spend_input_records(&mut self, transaction: &Transaction) -> (res: Result<(), TxError>)
        ensures
            (final(self)@, viewed(res)) == old(self)@.spend_input_records(transaction@),
    {
        let serials = transaction.record_serial_numbers();
        let mut i: usize = 0;
        assert(serials@.take(0) =~= Seq::empty());
        while i < serials.len()
            invariant
                i <= serials.len(),
                self.programs == old(self).programs,
                self.validators == old(self).validators,
                self.height == old(self).height,
                serials@ == transaction@.serial_numbers(),
                spend_all(old(self)@.records, serials@.take(i as int)) == (
                    self@.records,
                    Ok::<(), TxErrorView>(()),
                ),
            decreases serials.len() - i,
        {
            assert(serials@.take(i + 1).drop_last() =~= serials@.take(i as int));
            assert(serials@.take(i + 1).last() == serials@[i as int]);
            match self.records.spend(serials[i]) {
                Ok(_) => {},
                Err(e) => {
                    proof {
                        lemma_spend_all_prefix(old(self)@.records, serials@, i + 1);
                    }
                    return Err(TxError::Store(e));
                },
            }
            i += 1;
        }
        assert(serials@.take(i as int) =~= serials@);
        Ok(())
    }

    /// Stages every record that the transaction creates, up to the first that
    /// the store refuses.
    pub fn add_output_records(&mut self, transaction: &Transaction) -> (res: Result<(), TxError>)
        ensures
            (final(self)@, viewed(res)) == old(self)@.add_output_records(transaction@),
    {
        let entries = transaction.output_records();
        let ghost all = entries.deep_view();
        let mut i: usize = 0;
        assert(all.take(0) =~= Seq::empty());
        while i < entries.len()
            invariant
                i <= entries.len(),
                all == entries.deep_view(),
                all == transaction@.output_records(),
                self.programs == old(self).programs,
                self.validators == old(self).validators,
                self.height == old(self).height,
                add_all(old(self)@.records, all.take(i as int)) == (
                    self@.records,
                    Ok::<(), TxErrorView>(()),
                ),
            decreases entries.len() - i,
        {
            assert(all.take(i + 1).drop_last() =~= all.take(i as int));
            assert(all.take(i + 1).last() == entries[i as int].deep_view());
            match self.records.add(entries[i].0, entries[i].1.clone()) {
                Ok(_) => {},
                Err(e) => {
                    proof {
                        lemma_add_all_prefix(old(self)@.records, all, i + 1);
                    }
                    return Err(TxError::Store(e));
                },
            }
            i += 1;
        }
        assert(all.take(i as int) =~= all);
        Ok(())
    }

    /// The fees of the transaction as the fee pot takes them. Fails if they
    /// do not add up in 64 bits or the pot has no room for them.
    pub fn check_fees(&self, transaction: &Transaction) -> (res: Result<u64, TxError>)
        ensures
            viewed(res) == self@.check_fees(transaction@),
    {
        match transaction.checked_fees() {
            None => Err(TxError::FeeOverflow),
            Some(fees) => {
                let amount = amount_of(fees);
                if self.validators.can_collect(amount) {
                    Ok(amount)
                } else {
                    Err(TxError::FeeOverflow)
                }
            },
        }
    }

    /// Applies the side effects of the transaction on the validator set: the
    /// fees are collected, and the voting power changes as the transaction
    /// stakes and unstakes.
    pub fn update_validators(&mut self, transaction: &Transaction) -> (res: Result<(), TxError>)
        ensures
            (final(self)@, viewed(res)) == old(self)@.update_validators(transaction@),
    {
        let amount = self.check_fees(transaction)?;
        self.validators.collect(amount);
        let updates = transaction.stake_updates()?;
        let ghost collected = self.validators@;
        let mut i: usize = 0;
        assert(updates@.take(0) =~= Seq::empty());
        while i < updates.len()
            invariant
                i <= updates.len(),
                self.records == old(self).records,
                self.programs == old(self).programs,
                self.height == old(self).height,
                self.validators@ == apply_stakes(collected, updates@.take(i as int)),
            decreases updates.len() - i,
        {
            assert(updates@.take(i + 1).drop_last() =~= updates@.take(i as int));
            self.validators.apply(updates[i]);
            i += 1;
        }
        assert(updates@.take(i as int) =~= updates@);
        Ok(())
    }

    /// The verifying keys that the proof engine is to check each transition
    /// of the transaction against: those of the transition's program, or
    /// `None` where the program is not deployed.
    pub fn verifying_keys_for(&self, transaction: &Transaction) -> (keys: Vec<Option<VerifyingKeyMap>>)
        ensures
            keys.deep_view() == self@.verifying_keys_for(transaction@.transitions()),
    {
        let ghost ts = transaction@.transitions();
        let n = transaction.transition_count();
        let mut keys: Vec<Option<VerifyingKeyMap>> = Vec::new();
        let mut i: usize = 0;
        while i < n
            invariant
                i <= n,
                n == ts.len(),
                ts == transaction@.transitions(),
                keys.deep_view() == self@.verifying_keys_for(ts).take(i as int),
            decreases n - i,
        {
            let found = match self.programs.get(&transaction.transition_at(i).program_id) {
                Some((_, k)) => Some(k),
                None => None,
            };
            let ghost before = keys.deep_view();
            let ghost added = found.deep_view();
            keys.push(found);
            assert(keys.deep_view() =~= before.push(added));
            assert(before.push(added) =~= self@.verifying_keys_for(ts).take(i + 1));
            i += 1;
        }
        assert(keys.deep_view() =~= self@.verifying_keys_for(ts));
        keys
    }

    /// Checks a transition against the program store and the word of the
    /// proof engine: the program must be deployed, and `proof_valid` says
    /// whether the engine accepted the proof of the transition against the
    /// verifying keys of the program.
    pub fn verify_transition(&self, transition: &Transition, proof_valid: bool) -> (res: Result<
        (),
        TxError,
    >)
        ensures
            viewed(res) == self@.verify_transition(transition.deep_view(), proof_valid),
    {
        if !self.programs.contains(&transition.program_id) {
            Err(TxError::ProgramMissing(transition.program_id.clone()))
        } else if !proof_valid {
            Err(TxError::ProofInvalid)
        } else {
            Ok(())
        }
    }

    /// Checks the transitions of the transaction, first to last.
    fn verify_transitions(&self, transaction: &Transaction, proofs: &ProofReport) -> (res: Result<
        (),
        TxError,
    >)
        ensures
            viewed(res) == self@.verify_transitions(transaction@.transitions(), proofs@),
    {
        let ghost ts = transaction@.transitions();
        let n = transaction.transition_count();
        let mut i: usize = 0;
        assert(ts.take(0) =~= Seq::empty());
        while i < n
            invariant
                i <= n,
                n == ts.len(),
                ts == transaction@.transitions(),
                self@.verify_transitions(ts.take(i as int), proofs@) is Ok,
            decreases n - i,
        {
            assert(ts.take(i + 1).drop_last() =~= ts.take(i as int));
            let proof_valid = i < proofs.transitions.len() && proofs.transitions[i];
            match self.verify_transition(transaction.transition_at(i), proof_valid) {
                Ok(_) => {},
                Err(e) => {
                    proof {
                        lemma_verify_transitions_prefix(self@, ts, proofs@, i + 1);
                    }
                    return Err(e);
                },
            }
            i += 1;
        }
        assert(ts.take(i as int) =~= ts);
        Ok(())
    }

    /// Checks the changes of stake, each by itself against the validator set
    /// as it is.
    fn validate_stakes(&self, updates: &Vec<Stake>) -> (res: Result<(), TxError>)
        ensures
            viewed(res) == validate_stakes(self@.validators, updates@),
    {
        let mut i: usize = 0;
        assert(updates@.take(0) =~= Seq::empty());
        while i < updates.len()
            invariant
                i <= updates.len(),
                validate_stakes(self@.validators, updates@.take(i as int)) is Ok,
            decreases updates.len() - i,
        {
            assert(updates@.take(i + 1).drop_last() =~= updates@.take(i as int));
            match self.validators.validate(&updates[i]) {
                Ok(_) => {},
                Err(e) => {
                    proof {
                        lemma_validate_stakes_prefix(self@.validators, updates@, i + 1);
                    }
                    return Err(TxError::StakeInvalid(e));
                },
            }
            i += 1;
        }
        assert(updates@.take(i as int) =~= updates@);
        Ok(())
    }

    /// Runs the structural checks on the transaction and reads the word of
    /// the proof engine on it.
    pub fn validate_transaction(&self, transaction: &Transaction, proofs: &ProofReport) -> (res: Result<
        (),
        TxError,
    >)
        ensures
            viewed(res) == self@.validate_transaction(transaction@, proofs@),
    {
        match transaction {
            Transaction::Deployment { program, .. } => {
                if self.programs.contains(&program.id) {
                    return Err(TxError::ProgramExists(program.id.clone()));
                }
                self.verify_transitions(transaction, proofs)?;
                if proofs.deployment {
                    Ok(())
                } else {
                    Err(TxError::ProofInvalid)
                }
            },
            Transaction::Execution { transitions, .. } => {
                if transitions.len() == 0 {
                    return Err(TxError::EmptyExecution);
                }
                let updates = transaction.stake_updates()?;
                self.validate_stakes(&updates)?;
                self.verify_transitions(transaction, proofs)
            },
        }
    }

    /// Stores the program of a deployment with its verifying keys.
    pub fn store_program(&mut self, transaction: &Transaction) -> (res: Result<(), TxError>)
        ensures
            (final(self)@, viewed(res)) == old(self)@.store_program(transaction@),
    {
        match transaction {
            Transaction::Deployment { program, verifying_keys, .. } => {
                match self.programs.add(&program.id, program, verifying_keys) {
                    Ok(_) => Ok(()),
                    Err(_) => Err(TxError::ProgramExists(program.id.clone())),
                }
            },
            _ => Ok(()),
        }
    }

    /// The validation that `check_tx` and `deliver_tx` share.
    fn screen(&self, transaction: &Transaction, proofs: &ProofReport) -> (res: Result<(), TxError>)
        ensures
            viewed(res) == self@.screen(transaction@, proofs@),
    {
        self.check_no_duplicate_records(transaction)?;
        self.check_inputs_are_unspent(transaction)?;
        self.validate_transaction(transaction, proofs)?;
        match self.check_fees(transaction) {
            Ok(_) => Ok(()),
            Err(e) => Err(e),
        }
    }

    /// Loads the genesis: its records, then its validators.
    pub fn init_chain(&mut self, genesis: GenesisState) -> (res: Result<(), StoreError>)
        ensures
            (final(self)@, res) == old(self)@.init_chain(genesis@),
    {
        let GenesisState { records, validators } = genesis;
        let ghost all = records.deep_view();
        let n = records.len();
        let mut i: usize = 0;
        assert(all.take(0) =~= Seq::empty());
        while i < n
            invariant
                i <= n,
                n == records.len(),
                all == records.deep_view(),
                all == genesis@.records,
                self.programs == old(self).programs,
                self.validators == old(self).validators,
                self.height == old(self).height,
                load_all(old(self)@.records, all.take(i as int)) == (
                    self@.records,
                    Ok::<(), StoreError>(()),
                ),
            decreases n - i,
        {
            assert(all.take(i + 1).drop_last() =~= all.take(i as int));
            assert(all.take(i + 1).last() == records[i as int].deep_view());
            match self.records.add(records[i].0, records[i].1.clone()) {
                Ok(_) => {
                    self.records.commit();
                },
                Err(e) => {
                    proof {
                        lemma_load_all_prefix(old(self)@.records, all, i + 1);
                    }
                    return Err(e);
                },
            }
            i += 1;
        }
        assert(all.take(i as int) =~= all);
        self.validators.replace(validators);
        Ok(())
    }

    /// Says what the application is and where it stands. A missing height
    /// file is created with the height zero.
    pub fn info(&mut self) -> (response: ResponseInfo)
        requires
            readable_or_missing(old(self)@.height),
        ensures
            response.data@ == "snarkvm-app"@,
            response.version@ == "0.1.0"@,
            response.app_version == 1,
            response.last_block_app_hash@.len() == 0,
            final(self)@ == old(self)@.info(),
            height_of(final(self)@.height) == Some(response.last_block_height),
    {
        let height = self.height.read_or_create();
        ResponseInfo {
            data: "snarkvm-app".to_owned(),
            version: "0.1.0".to_owned(),
            app_version: 1,
            last_block_height: height,
            last_block_app_hash: Vec::new(),
        }
    }

    /// Answers a query. `query` is what the request decoded to, or the words
    /// of the decoder where it could not be decoded.
    pub fn query(&self, query: Result<AbciQuery, String>) -> (response: ResponseQuery)
        ensures
            match query {
                Ok(AbciQuery::GetRecords) => response.code == 0 && (response.value matches Some(
                    QueryReply::Records(items),
                ) && items.deep_view() == self@.records.scan(None, None)),
                Ok(AbciQuery::GetSpentSerialNumbers) => response.code == 0 && (
                response.value matches Some(QueryReply::SpentSerialNumbers(serials)) && serials@
                    == self@.records.spent),
                Ok(AbciQuery::GetProgram { program_id }) => response.code == 0 && (
                response.value matches Some(QueryReply::Program(program)) && program.deep_view()
                    == self@.program(program_id@)),
                Err(reason) => response.code == 1 && response.value is None && response.log@
                    == "Error running query: "@ + reason@ && response.info@ == response.log@,
            },
            response.code == 0 ==> response.log@.len() == 0 && response.info@.len() == 0,
    {
        match query {
            Ok(AbciQuery::GetRecords) => ResponseQuery {
                code: 0,
                log: String::new(),
                info: String::new(),
                value: Some(QueryReply::Records(self.records.scan(None, None))),
            },
            Ok(AbciQuery::GetSpentSerialNumbers) => ResponseQuery {
                code: 0,
                log: String::new(),
                info: String::new(),
                value: Some(QueryReply::SpentSerialNumbers(self.records.scan_spent())),
            },
            Ok(AbciQuery::GetProgram { program_id }) => {
                let program = match self.programs.get(&program_id) {
                    Some((program, _keys)) => Some(program),
                    None => None,
                };
                ResponseQuery {
                    code: 0,
                    log: String::new(),
                    info: String::new(),
                    value: Some(QueryReply::Program(program)),
                }
            },
            Err(reason) => {
                let mut log = "Error running query: ".to_owned();
                log.push_str(reason.as_str());
                let info = log.clone();
                ResponseQuery { code: 1, log, info, value: None }
            },
        }
    }

    /// The answer of `check_tx` to a transaction that could not be decoded;
    /// `reason` is what the decoder said.
    pub fn check_tx_malformed(reason: &String) -> (response: ResponseCheckTx)
        ensures
            response.code == 1,
            response.priority == 0,
            response.log@ == "Could not verify transaction: "@ + reason@,
            response.info@ == response.log@,
    {
        let mut log = "Could not verify transaction: ".to_owned();
        log.push_str(reason.as_str());
        let info = log.clone();
        ResponseCheckTx { code: 1, log, info, priority: 0 }
    }

    /// The answer of `deliver_tx` to a transaction that could not be
    /// decoded; `reason` is what the decoder said.
    pub fn deliver_tx_malformed(reason: &String) -> (response: ResponseDeliverTx)
        ensures
            response.code == 1,
            response.events.len() == 0,
            response.log@ == "Error delivering transaction: "@ + reason@,
            response.info@ == response.log@,
    {
        let mut log = "Error delivering transaction: ".to_owned();
        log.push_str(reason.as_str());
        let info = log.clone();
        ResponseDeliverTx { code: 1, log, info, events: Vec::new() }
    }

    /// Validates a transaction before it enters the mempool. Changes
    /// nothing. The priority of an accepted transaction is its fees.
    pub fn check_tx(&self, transaction: &Transaction, proofs: &ProofReport) -> (response:
        ResponseCheckTx)
        ensures
            match self@.check_tx(transaction@, proofs@) {
                Ok(priority) => response.code == 0 && response.priority == priority
                    && response.log@.len() == 0 && response.info@.len() == 0,
                Err(e) => response.code == 1 && response.priority == 0 && response.log@
                    == "Could not verify transaction: "@ + e.message_text() && response.info@
                    == response.log@,
            },
    {
        match self.screen(transaction, proofs) {
            Ok(_) => ResponseCheckTx {
                code: 0,
                log: String::new(),
                info: String::new(),
                priority: transaction.fees(),
            },
            Err(e) => {
                let log = error_log("Could not verify transaction: ", &e);
                let info = log.clone();
                ResponseCheckTx { code: 1, log, info, priority: 0 }
            },
        }
    }

    /// Opens a block: notes its proposer and the votes on the block before
    /// it. Votes of validators that did not sign, that the engine does not
    /// name, or whose power is negative do not count.
    pub fn begin_block(&mut self, request: &RequestBeginBlock)
        requires
            request.header is Some,
        ensures
            final(self)@ == old(self)@.begin_block(request.header->Some_0, request.votes()),
    {
        let header = request.header.unwrap();
        let mut votes: Vec<Vote> = Vec::new();
        match &request.last_commit_info {
            Some(infos) => {
                let mut i: usize = 0;
                assert(infos@.take(0) =~= Seq::empty());
                while i < infos.len()
                    invariant
                        i <= infos.len(),
                        votes@ == counted_votes(infos@.take(i as int)),
                    decreases infos.len() - i,
                {
                    assert(infos@.take(i + 1).drop_last() =~= infos@.take(i as int));
                    let info = infos[i];
                    if info.signed_last_block {
                        match info.validator {
                            Some(v) => {
                                if v.power >= 0 {
                                    votes.push((v.address, v.power as u64));
                                }
                            },
                            None => {},
                        }
                    }
                    i += 1;
                }
                assert(infos@.take(i as int) =~= infos@);
            },
            None => {},
        }
        self.validators.begin_block(header.proposer_address, votes, amount_of(header.height));
    }

    /// Validates a transaction and applies it to the block in flight. A
    /// transaction that is applied is answered with the event that indexes it
    /// by its identifier.
    pub fn deliver_tx(&mut self, transaction: &Transaction, proofs: &ProofReport) -> (response:
        ResponseDeliverTx)
        ensures
            final(self)@ == old(self)@.deliver_tx(transaction@, proofs@).0,
            match old(self)@.deliver_tx(transaction@, proofs@).1 {
                Ok(_) => response.code == 0 && response.log@.len() == 0 && response.info@.len()
                    == 0 && response.events.len() == 1 && is_index_event(
                    response.events[0],
                    transaction@.id(),
                ),
                Err(e) => response.code == 1 && response.events.len() == 0 && response.log@
                    == "Error delivering transaction: "@ + e.message_text() && response.info@
                    == response.log@,
            },
    {
        let result = match self.screen(transaction, proofs) {
            Err(e) => Err(e),
            Ok(_) => match self.update_validators(transaction) {
                Err(e) => Err(e),
                Ok(_) => match self.spend_input_records(transaction) {
                    Err(e) => Err(e),
                    Ok(_) => match self.add_output_records(transaction) {
                        Err(e) => Err(e),
                        Ok(_) => self.store_program(transaction),
                    },
                },
            },
        };
        match result {
            Ok(_) => {
                let attribute = EventAttribute {
                    key: "tx_id".to_owned(),
                    value: transaction.id().to_owned(),
                    index: true,
                };
                let mut attributes: Vec<EventAttribute> = Vec::new();
                attributes.push(attribute);
                let mut events: Vec<Event> = Vec::new();
                events.push(Event { kind: "app".to_owned(), attributes });
                ResponseDeliverTx { code: 0, log: String::new(), info: String::new(), events }
            },
            Err(e) => {
                let log = error_log("Error delivering transaction: ", &e);
                let info = log.clone();
                ResponseDeliverTx { code: 1, log, info, events: Vec::new() }
            },
        }
    }

    /// Tells the consensus engine of the validators whose power the block in
    /// flight changes.
    pub fn end_block(&self) -> (response: ResponseEndBlock)
        ensures
            response.validator_updates@ == self@.end_block(),
    {
        let pending = self.validators.pending_updates();
        let mut updates: Vec<ValidatorUpdate> = Vec::new();
        let mut i: usize = 0;
        while i < pending.len()
            invariant
                i <= pending.len(),
                updates@ == as_updates(pending@).take(i as int),
            decreases pending.len() - i,
        {
            updates.push(
                ValidatorUpdate {
                    pub_key: pending[i].pub_key,
                    power: signed_of(pending[i].voting_power),
                },
            );
            assert(updates@ =~= as_updates(pending@).take(i + 1));
            i += 1;
        }
        assert(updates@ =~= as_updates(pending@));
        ResponseEndBlock { validator_updates: updates }
    }

    /// Commits the block in flight: promotes what is staged in the record
    /// store, raises the height, draws the rewards, and lets the queued
    /// changes of the validator set take effect. The rewards are returned to
    /// be minted: the records that come of them go to `add_reward_records`.
    pub fn commit(&mut self) -> (outcome: CommitOutcome)
        requires
            can_increment(old(self)@.height),
            old(self)@.validators.fees <= MAX_FEE_POT,
        ensures
            final(self)@ == old(self)@.commit(),
            final(self)@.records.staging_is_empty(),
            outcome.rewards@ == old(self)@.rewards(),
            height_of(old(self)@.height) matches Some(before) && outcome.height == before + 1,
            height_of(final(self)@.height) == Some(outcome.height),
            outcome.response.data@.len() == 0,
            outcome.response.retain_height == 0,
    {
        self.records.commit();
        let height = self.height.increment();
        let rewards = self.validators.block_rewards();
        self.validators.commit();
        CommitOutcome {
            response: ResponseCommit { data: Vec::new(), retain_height: 0 },
            height,
            rewards,
        }
    }

    /// Adds the records that were minted for the rewards of a commit, and
    /// commits them with the block. A record that the store refuses is left
    /// out; the commitments of those records are returned.
    pub fn add_reward_records(&mut self, records: Vec<(Field, Record)>) -> (refused: Vec<Field>)
        ensures
            final(self)@ == old(self)@.add_reward_records(records.deep_view()),
            refused@ == refused_of(old(self)@.records, records.deep_view()),
    {
        let ghost all = records.deep_view();
        let mut refused: Vec<Field> = Vec::new();
        let mut i: usize = 0;
        assert(all.take(0) =~= Seq::empty());
        while i < records.len()
            invariant
                i <= records.len(),
                all == records.deep_view(),
                self.programs == old(self).programs,
                self.validators == old(self).validators,
                self.height == old(self).height,
                self@.records == add_each(old(self)@.records, all.take(i as int)),
                refused@ == refused_of(old(self)@.records, all.take(i as int)),
            decreases records.len() - i,
        {
            assert(all.take(i + 1).drop_last() =~= all.take(i as int));
            assert(all.take(i + 1).last() == records[i as int].deep_view());
            match self.records.add(records[i].0, records[i].1.clone()) {
                Ok(_) => {},
                Err(_) => {
                    refused.push(records[i].0);
                },
            }
            i += 1;
        }
        assert(all.take(i as int) =~= all);
        self.records.commit();
        refused
    }
}

} // verus!
