//! Transactions: what a client submits and the state machine applies.
//!
//! A transaction deploys a program or executes functions of deployed
//! programs. Each function call is a transition: it consumes records, named by
//! their serial numbers, creates records, and leaves a fee. The proofs that
//! ride with a transition are the proof engine's business; here a transition
//! holds what the state machine reads.

use vstd::prelude::*;
use crate::error::{viewed, TxError, TxErrorView};
use crate::field::{key_of_hex, AccountAddress, Address, Field, PublicKey};
use crate::program_store::{Program, ProgramView, VerifyingKeyMap};
use crate::record_store::{Entry, Record, RecordView};
use crate::signed::{as_signed, signed_of};
use crate::validator::{address_for_text, address_of_text, stake_at, Stake};
use itertools::Itertools;

verus! {

/// An output of a transition.
#[derive(Debug, PartialEq, Eq)]
pub enum Output {
    /// A record that the transition creates, under its commitment.
    Record(Field, Record),
    /// A public 64-bit number.
    U64(u64),
    /// A public account address.
    Address(AccountAddress),
    /// Any other output.
    Other,
}

/// What an `Output` holds.
pub enum OutputView {
    Record(Field, RecordView),
    U64(u64),
    Address(AccountAddress),
    Other,
}

impl DeepView for Output {
    type V = OutputView;

    open spec fn deep_view(&self) -> OutputView {
        match self {
            Output::Record(c, r) => OutputView::Record(*c, r@),
            Output::U64(n) => OutputView::U64(*n),
            Output::Address(a) => OutputView::Address(*a),
            Output::Other => OutputView::Other,
        }
    }
}

impl Clone for Output {
    fn clone(&self) -> (copy: Output)
        ensures
            copy.deep_view() == self.deep_view(),
    {
        match self {
            Output::Record(c, r) => Output::Record(*c, r.clone()),
            Output::U64(n) => Output::U64(*n),
            Output::Address(a) => Output::Address(*a),
            Output::Other => Output::Other,
        }
    }
}

/// One function call of a transaction.
#[derive(Debug, PartialEq, Eq)]
pub struct Transition {
    /// The program that holds the function.
    pub program_id: String,
    /// The function that was called.
    pub function_name: String,
    /// The serial numbers of the records that the call consumes.
    pub serial_numbers: Vec<Field>,
    /// The outputs of the call, in their order.
    pub outputs: Vec<Output>,
    /// The credits that the call consumes beyond those it creates.
    pub fee: i64,
}

/// What a `Transition` holds.
pub struct TransitionView {
    pub program_id: Seq<char>,
    pub function_name: Seq<char>,
    pub serial_numbers: Seq<Field>,
    pub outputs: Seq<OutputView>,
    pub fee: i64,
}

impl DeepView for Transition {
    type V = TransitionView;

    open spec fn deep_view(&self) -> TransitionView {
        TransitionView {
            program_id: self.program_id@,
            function_name: self.function_name@,
            serial_numbers: self.serial_numbers@,
            outputs: self.outputs.deep_view(),
            fee: self.fee,
        }
    }
}

impl Clone for Transition {
    fn clone(&self) -> (copy: Transition)
        ensures
            copy.deep_view() == self.deep_view(),
    {
        let mut outputs: Vec<Output> = Vec::new();
        let mut i: usize = 0;
        while i < self.outputs.len()
            invariant
                i <= self.outputs.len(),
                outputs.deep_view() == self.outputs.deep_view().take(i as int),
            decreases self.outputs.len() - i,
        {
            let output = self.outputs[i].clone();
            let ghost before = outputs.deep_view();
            let ghost added = output.deep_view();
            outputs.push(output);
            assert(outputs.deep_view() =~= before.push(added));
            assert(before.push(added) =~= self.outputs.deep_view().take(i + 1));
            i += 1;
        }
        assert(outputs.deep_view() =~= self.outputs.deep_view());
        Transition {
            program_id: self.program_id.clone(),
            function_name: self.function_name.clone(),
            serial_numbers: self.serial_numbers.clone(),
            outputs,
            fee: self.fee,
        }
    }
}

/// A transaction.
#[derive(Debug, PartialEq, Eq)]
pub enum Transaction {
    /// Installs a program with its verifying keys.
    Deployment {
        id: String,
        program: Program,
        verifying_keys: VerifyingKeyMap,
        /// The transition that pays the fee of the deployment.
        fee: Option<Transition>,
    },
    /// Calls one or more functions.
    Execution {
        id: String,
        transitions: Vec<Transition>,
        /// The validator that staked credits go to or come from, where the
        /// execution stakes or unstakes: its public key in hexadecimal
        /// digits.
        validator: Option<String>,
    },
}

/// What a `Transaction` holds.
pub enum TransactionView {
    Deployment {
        id: Seq<char>,
        program: ProgramView,
        verifying_keys: Seq<u8>,
        fee: Option<TransitionView>,
    },
    Execution { id: Seq<char>, transitions: Seq<TransitionView>, validator: Option<Seq<char>> },
}

impl View for Transaction {
    type V = TransactionView;

    open spec fn view(&self) -> TransactionView {
        match self {
            Transaction::Deployment { id, program, verifying_keys, fee } => {
                TransactionView::Deployment {
                    id: id@,
                    program: program@,
                    verifying_keys: verifying_keys@,
                    fee: match fee {
                        Some(t) => Some(t.deep_view()),
                        None => None,
                    },
                }
            },
            Transaction::Execution { id, transitions, validator } => TransactionView::Execution {
                id: id@,
                transitions: transitions.deep_view(),
                validator: match validator {
                    Some(text) => Some(text@),
                    None => None,
                },
            },
        }
    }
}

/// The serial numbers that the transitions consume, in their order.
pub open spec fn serial_numbers_of(ts: Seq<TransitionView>) -> Seq<Field>
    decreases ts.len(),
{
    if ts.len() == 0 {
        Seq::empty()
    } else {
        serial_numbers_of(ts.drop_last()) + ts.last().serial_numbers
    }
}

/// The records among the outputs, in their order.
pub open spec fn records_among(outputs: Seq<OutputView>) -> Seq<Entry>
    decreases outputs.len(),
{
    if outputs.len() == 0 {
        Seq::empty()
    } else {
        let before = records_among(outputs.drop_last());
        match outputs.last() {
            OutputView::Record(c, r) => before.push((c, r)),
            _ => before,
        }
    }
}

/// The records that the transitions create, in their order.
pub open spec fn output_records_of(ts: Seq<TransitionView>) -> Seq<Entry>
    decreases ts.len(),
{
    if ts.len() == 0 {
        Seq::empty()
    } else {
        output_records_of(ts.drop_last()) + records_among(ts.last().outputs)
    }
}

/// The fees of the transitions together.
pub open spec fn fees_of(ts: Seq<TransitionView>) -> int
    decreases ts.len(),
{
    if ts.len() == 0 {
        0
    } else {
        fees_of(ts.drop_last()) + ts.last().fee
    }
}

/// Whether the fees can be added up, one after the other, in 64 bits.
pub open spec fn fees_fit(ts: Seq<TransitionView>) -> bool
    decreases ts.len(),
{
    ts.len() == 0 || (fees_fit(ts.drop_last()) && i64::MIN <= fees_of(ts) <= i64::MAX)
}

/// The change of stake that the transition makes for the validator with the
/// public key `key` and the consensus address `address`: none unless it calls
/// `stake` or `unstake` of the program `credits`. The credits are the third
/// output and the account is the fourth. The key and the address are asked
/// for last.
pub open spec fn stake_of(
    t: TransitionView,
    key: Option<PublicKey>,
    address: Option<Address>,
) -> Result<Option<Stake>, TxErrorView> {
    let staking = t.function_name == "stake"@;
    if t.program_id != "credits"@ || (!staking && t.function_name != "unstake"@) {
        Ok(None)
    } else if t.outputs.len() <= 2 {
        Err(TxErrorView::StakeOutputMissing)
    } else if !(t.outputs[2] is U64) || (!staking && as_signed(t.outputs[2]->U64_0) == i64::MIN) {
        Err(TxErrorView::StakeOutputInvalid)
    } else if t.outputs.len() <= 3 {
        Err(TxErrorView::StakeOutputMissing)
    } else if !(t.outputs[3] is Address) {
        Err(TxErrorView::StakeOutputInvalid)
    } else {
        let amount = as_signed(t.outputs[2]->U64_0);
        match stake_at(
            address,
            key,
            t.outputs[3]->Address_0,
            (if staking {
                amount
            } else {
                -amount
            }) as i64,
        ) {
            Ok(stake) => Ok(Some(stake)),
            Err(e) => Err(e),
        }
    }
}

/// The changes of stake that the transitions make for the validator `key`,
/// in their order; the error of the first transition that has one.
pub open spec fn stakes_of(
    ts: Seq<TransitionView>,
    key: Option<PublicKey>,
    address: Option<Address>,
) -> Result<Seq<Stake>, TxErrorView>
    decreases ts.len(),
{
    if ts.len() == 0 {
        Ok(Seq::empty())
    } else {
        match stakes_of(ts.drop_last(), key, address) {
            Err(e) => Err(e),
            Ok(before) => match stake_of(ts.last(), key, address) {
                Err(e) => Err(e),
                Ok(None) => Ok(before),
                Ok(Some(s)) => Ok(before.push(s)),
            },
        }
    }
}

/// Whether `j` is the first place of `s` that repeats an earlier one.
pub open spec fn first_repeat_at(s: Seq<Field>, j: int) -> bool {
    &&& 0 <= j < s.len()
    &&& s.take(j).contains(s[j])
    &&& s.take(j).no_duplicates()
}

impl TransactionView {
    /// The identifier of the transaction.
    pub open spec fn id(self) -> Seq<char> {
        match self {
            TransactionView::Deployment { id, .. } => id,
            TransactionView::Execution { id, .. } => id,
        }
    }

    /// The transitions of the transaction: those of an execution, the fee
    /// transition of a deployment.
    pub open spec fn transitions(self) -> Seq<TransitionView> {
        match self {
            TransactionView::Deployment { fee, .. } => match fee {
                Some(t) => seq![t],
                None => Seq::empty(),
            },
            TransactionView::Execution { transitions, .. } => transitions,
        }
    }

    /// The serial numbers of the records that the transaction consumes.
    pub open spec fn serial_numbers(self) -> Seq<Field> {
        serial_numbers_of(self.transitions())
    }

    /// The records that the transaction creates.
    pub open spec fn output_records(self) -> Seq<Entry> {
        output_records_of(self.transitions())
    }

    /// The fees of the transaction.
    pub open spec fn fees(self) -> int {
        fees_of(self.transitions())
    }

    /// Whether the fees can be added up in 64 bits.
    pub open spec fn fees_fit(self) -> bool {
        fees_fit(self.transitions())
    }

    /// Whether the transaction can be described: an execution that names no
    /// validator is described by its first transition, so it needs one.
    pub open spec fn has_description(self) -> bool {
        self matches TransactionView::Execution { transitions, validator: None, .. }
            ==> transitions.len() > 0
    }

    /// The transaction in a few words: the kind, the identifier, and the
    /// program or, for a staking execution, the validator as the
    /// transaction names it.
    pub open spec fn description(self) -> Seq<char> {
        match self {
            TransactionView::Deployment { id, program, .. } => "Deployment("@ + id + ","@
                + program.id + ")"@,
            TransactionView::Execution { id, transitions, validator: None } => "Execution("@
                + transitions[0].program_id + ","@ + id + ")"@,
            TransactionView::Execution { id, validator: Some(text), .. } => "StakingExecution("@
                + id + ","@ + text + ")"@,
        }
    }

    /// The changes of stake that the transaction makes: none unless it is an
    /// execution that names a validator.
    pub open spec fn stake_updates(self) -> Result<Seq<Stake>, TxErrorView> {
        match self {
            TransactionView::Execution { validator: Some(text), .. } => self.stake_updates_at(
                address_of_text(text),
            ),
            _ => Ok(Seq::empty()),
        }
    }

    /// The changes of stake that the transaction makes where `address` is
    /// the consensus address that belongs to the key of the validator that
    /// the transaction names.
    pub open spec fn stake_updates_at(self, address: Option<Address>) -> Result<
        Seq<Stake>,
        TxErrorView,
    > {
        match self {
            TransactionView::Execution { transitions, validator: Some(text), .. } => stakes_of(
                transitions,
                key_of_hex(text),
                address,
            ),
            _ => Ok(Seq::empty()),
        }
    }
}

/// The fees of a prefix can be added up if those of the whole can.
pub proof fn lemma_fees_fit_prefix(ts: Seq<TransitionView>, i: int)
    requires
        0 <= i <= ts.len(),
        fees_fit(ts),
    ensures
        fees_fit(ts.take(i)),
    decreases ts.len(),
{
    if i == ts.len() {
        assert(ts.take(i) =~= ts);
    } else {
        assert(ts.drop_last().take(i) =~= ts.take(i));
        lemma_fees_fit_prefix(ts.drop_last(), i);
    }
}

/// A sequence has at most one first repeat.
pub proof fn lemma_first_repeat_unique(s: Seq<Field>, i: int, j: int)
    requires
        first_repeat_at(s, i),
        first_repeat_at(s, j),
    ensures
        i == j,
{
    if i < j {
        let k = choose|k: int| 0 <= k < i && s.take(i)[k] == s[i];
        assert(s.take(j)[k] == s.take(j)[i]);
    } else if j < i {
        let k = choose|k: int| 0 <= k < j && s.take(j)[k] == s[j];
        assert(s.take(i)[k] == s.take(i)[j]);
    }
}

/// The first of `items` that repeats an earlier one.
///
/// Calls `Itertools::duplicates` on the limbs of the items and takes the first
/// item it yields. That adaptor walks the items in order and yields an item
/// when it meets it for the second time, so the first item it yields stands at
/// the first place that repeats an earlier one; it yields nothing exactly if
/// no item occurs twice.
#[verifier::external_body]
pub(crate) fn first_duplicate(items: &Vec<Field>) -> (dup: Option<Field>)
    ensures
        match dup {
            Some(f) => exists|j: int| first_repeat_at(items@, j) && items@[j] == f,
            None => items@.no_duplicates(),
        },
{
    items.iter().map(|f| (f.w0, f.w1, f.w2, f.w3)).duplicates().next().map(
        |t| Field { w0: t.0, w1: t.1, w2: t.2, w3: t.3 },
    )
}

/// A fresh identifier for a transaction.
///
/// Calls `Uuid::new_v4` and prints the result: a random UUID in its
/// hyphenated form, which has 36 characters. Two calls give different
/// identifiers, so nothing else is said of the result.
#[verifier::external_body]
fn fresh_id() -> (id: String)
    ensures
        id@.len() == 36,
{
    uuid::Uuid::new_v4().to_string()
}

impl Transaction {
    /// A deployment of `program` with `verifying_keys`, under a fresh
    /// identifier; `fee` is the transition that pays for it, if any.
    pub fn deployment(program: Program, verifying_keys: VerifyingKeyMap, fee: Option<Transition>) -> (tx:
        Transaction)
        ensures
            tx@ matches TransactionView::Deployment { id, program: p, verifying_keys: k, fee: f }
                && id.len() == 36 && p == program@ && k == verifying_keys@ && f == (match fee {
                Some(t) => Some(t.deep_view()),
                None => None,
            }),
    {
        Transaction::Deployment { id: fresh_id(), program, verifying_keys, fee }
    }

    /// An execution of `transitions`, under a fresh identifier. The
    /// transition that pays the requested fee, if there is one, comes last.
    pub fn execution(transitions: Vec<Transition>, fee: Option<Transition>) -> (tx: Transaction)
        ensures
            tx@ matches TransactionView::Execution { id, transitions: ts, validator } && id.len()
                == 36 && validator is None && ts == (match fee {
                Some(t) => transitions.deep_view().push(t.deep_view()),
                None => transitions.deep_view(),
            }),
    {
        Transaction::credits_execution(transitions, fee, None)
    }

    /// An execution of functions of the program `credits`, under a fresh
    /// identifier. The transition that pays the requested fee, if there is
    /// one, comes last; `validator` is the validator that the execution
    /// stakes for or unstakes from, if it does either: its public key in
    /// hexadecimal digits.
    pub fn credits_execution(
        transitions: Vec<Transition>,
        fee: Option<Transition>,
        validator: Option<String>,
    ) -> (tx: Transaction)
        ensures
            tx@ matches TransactionView::Execution { id, transitions: ts, validator: v } && id.len()
                == 36 && v == (match validator {
                Some(text) => Some(text@),
                None => None,
            }) && ts == (match fee {
                Some(t) => transitions.deep_view().push(t.deep_view()),
                None => transitions.deep_view(),
            }),
    {
        let mut transitions = transitions;
        let ghost before = transitions.deep_view();
        if let Some(t) = fee {
            let ghost last = t.deep_view();
            transitions.push(t);
            assert(transitions.deep_view() =~= before.push(last));
        }
        Transaction::Execution { id: fresh_id(), transitions, validator }
    }

    /// The fees that the transitions of an execution leave by themselves,
    /// before any fee that was requested on top.
    pub fn implicit_fees(transitions: &Vec<Transition>) -> (fees: Option<i64>)
        ensures
            match fees {
                Some(sum) => fees_fit(transitions.deep_view()) && sum == fees_of(
                    transitions.deep_view(),
                ),
                None => !fees_fit(transitions.deep_view()),
            },
    {
        let ghost ts = transitions.deep_view();
        let mut sum: i64 = 0;
        let mut i: usize = 0;
        assert(ts.take(0) =~= Seq::empty());
        while i < transitions.len()
            invariant
                i <= transitions.len(),
                ts == transitions.deep_view(),
                fees_fit(ts.take(i as int)),
                sum == fees_of(ts.take(i as int)),
            decreases transitions.len() - i,
        {
            assert(ts.take(i + 1).drop_last() =~= ts.take(i as int));
            let next: i128 = sum as i128 + transitions[i].fee as i128;
            if next < i64::MIN as i128 || next > i64::MAX as i128 {
                proof {
                    if fees_fit(ts) {
                        lemma_fees_fit_prefix(ts, i + 1);
                    }
                }
                return None;
            }
            sum = next as i64;
            i += 1;
        }
        assert(ts.take(i as int) =~= ts);
        Some(sum)
    }

    /// The fee that is still to be paid where `requested_fee` was asked for
    /// and the execution leaves `implicit_fee` by itself: nothing where no
    /// fee was asked for or the execution leaves more than was asked for. A
    /// fee cannot be asked of an execution that leaves less than nothing.
    pub fn execute_fee(requested_fee: Option<u64>, implicit_fee: i64) -> (res: Result<
        Option<u64>,
        TxError,
    >)
        ensures
            viewed(res) == (match requested_fee {
                None => Ok::<Option<u64>, TxErrorView>(None),
                Some(gates) => if implicit_fee < 0 {
                    Err(TxErrorView::NegativeFee)
                } else if implicit_fee > as_signed(gates) {
                    Ok(None)
                } else {
                    Ok(Some((gates - implicit_fee) as u64))
                },
            }),
    {
        match requested_fee {
            None => Ok(None),
            Some(gates) => {
                if implicit_fee < 0 {
                    Err(TxError::NegativeFee)
                } else if gates > i64::MAX as u64 || implicit_fee as u64 > gates {
                    Ok(None)
                } else {
                    Ok(Some(gates - implicit_fee as u64))
                }
            },
        }
    }

    /// The identifier of the transaction.
    pub fn id(&self) -> (id: &str)
        ensures
            id@ == self@.id(),
    {
        match self {
            Transaction::Deployment { id, .. } => id.as_str(),
            Transaction::Execution { id, .. } => id.as_str(),
        }
    }

    /// The transaction in a few words, for logs: `Deployment(id,program)`,
    /// `Execution(program,id)` with the program of the first transition, or
    /// `StakingExecution(id,validator)` with the validator as the
    /// transaction names it.
    pub fn describe(&self) -> (text: String)
        requires
            self@.has_description(),
        ensures
            text@ == self@.description(),
    {
        match self {
            Transaction::Deployment { id, program, .. } => {
                let mut text = "Deployment(".to_owned();
                text.push_str(id.as_str());
                text.push_str(",");
                text.push_str(program.id.as_str());
                text.push_str(")");
                text
            },
            Transaction::Execution { id, transitions, validator: None } => {
                let mut text = "Execution(".to_owned();
                text.push_str(transitions[0].program_id.as_str());
                text.push_str(",");
                text.push_str(id.as_str());
                text.push_str(")");
                text
            },
            Transaction::Execution { id, validator: Some(validator), .. } => {
                let mut text = "StakingExecution(".to_owned();
                text.push_str(id.as_str());
                text.push_str(",");
                text.push_str(validator.as_str());
                text.push_str(")");
                text
            },
        }
    }

    /// The number of transitions of the transaction.
    pub fn transition_count(&self) -> (n: usize)
        ensures
            n == self@.transitions().len(),
    {
        match self {
            Transaction::Deployment { fee, .. } => match fee {
                Some(_) => 1,
                None => 0,
            },
            Transaction::Execution { transitions, .. } => transitions.len(),
        }
    }

    /// The transition at the place `i`.
    pub fn transition_at(&self, i: usize) -> (t: &Transition)
        requires
            i < self@.transitions().len(),
        ensures
            t.deep_view() == self@.transitions()[i as int],
    {
        match self {
            Transaction::Deployment { fee, .. } => match fee {
                Some(t) => t,
                None => unreached(),
            },
            Transaction::Execution { transitions, .. } => &transitions[i],
        }
    }

    /// The transitions of the transaction: those of an execution, the fee
    /// transition of a deployment.
    pub fn transitions(&self) -> (ts: Vec<Transition>)
        ensures
            ts.deep_view() == self@.transitions(),
    {
        let mut ts: Vec<Transition> = Vec::new();
        let n = self.transition_count();
        let mut i: usize = 0;
        while i < n
            invariant
                i <= n,
                n == self@.transitions().len(),
                ts.deep_view() == self@.transitions().take(i as int),
            decreases n - i,
        {
            let transition = self.transition_at(i).clone();
            let ghost before = ts.deep_view();
            let ghost added = transition.deep_view();
            ts.push(transition);
            assert(ts.deep_view() =~= before.push(added));
            assert(before.push(added) =~= self@.transitions().take(i + 1));
            i += 1;
        }
        assert(ts.deep_view() =~= self@.transitions());
        ts
    }

    /// The records that the transaction creates, each under its commitment,
    /// in the order of the transitions and of their outputs.
    pub fn output_records(&self) -> (records: Vec<(Field, Record)>)
        ensures
            records.deep_view() == self@.output_records(),
    {
        let ghost ts = self@.transitions();
        let mut records: Vec<(Field, Record)> = Vec::new();
        let n = self.transition_count();
        let mut i: usize = 0;
        assert(ts.take(0) =~= Seq::empty());
        assert(records.deep_view() =~= Seq::empty());
        while i < n
            invariant
                i <= n,
                n == ts.len(),
                ts == self@.transitions(),
                records.deep_view() == output_records_of(ts.take(i as int)),
            decreases n - i,
        {
            let t = self.transition_at(i);
            let ghost outputs = t.outputs.deep_view();
            let ghost done = records.deep_view();
            assert(ts.take(i + 1).drop_last() =~= ts.take(i as int));
            assert(ts.take(i + 1).last().outputs == outputs);
            let mut j: usize = 0;
            assert(outputs.take(0) =~= Seq::empty());
            assert(done + Seq::<Entry>::empty() =~= done);
            while j < t.outputs.len()
                invariant
                    j <= t.outputs.len(),
                    outputs == t.outputs.deep_view(),
                    records.deep_view() == done + records_among(outputs.take(j as int)),
                decreases t.outputs.len() - j,
            {
                assert(outputs.take(j + 1).drop_last() =~= outputs.take(j as int));
                assert(outputs.take(j + 1).last() == outputs[j as int]);
                let ghost so_far = records.deep_view();
                match &t.outputs[j] {
                    Output::Record(c, r) => {
                        records.push((*c, r.clone()));
                        assert(records.deep_view() =~= so_far.push((*c, r@)));
                        assert(so_far.push((*c, r@)) =~= done + records_among(
                            outputs.take(j as int),
                        ).push((*c, r@)));
                    },
                    _ => {},
                }
                j += 1;
            }
            assert(outputs.take(j as int) =~= outputs);
            i += 1;
        }
        assert(ts.take(i as int) =~= ts);
        records
    }

    /// The serial numbers of the records that the transaction consumes, in
    /// the order of the transitions.
    pub fn record_serial_numbers(&self) -> (serials: Vec<Field>)
        ensures
            serials@ == self@.serial_numbers(),
    {
        let ghost ts = self@.transitions();
        let mut serials: Vec<Field> = Vec::new();
        let n = self.transition_count();
        let mut i: usize = 0;
        assert(ts.take(0) =~= Seq::empty());
        while i < n
            invariant
                i <= n,
                n == ts.len(),
                ts == self@.transitions(),
                serials@ == serial_numbers_of(ts.take(i as int)),
            decreases n - i,
        {
            let t = self.transition_at(i);
            let ghost done = serials@;
            assert(ts.take(i + 1).drop_last() =~= ts.take(i as int));
            assert(ts.take(i + 1).last().serial_numbers == t.serial_numbers@);
            let mut j: usize = 0;
            while j < t.serial_numbers.len()
                invariant
                    j <= t.serial_numbers.len(),
                    serials@ =~= done + t.serial_numbers@.take(j as int),
                decreases t.serial_numbers.len() - j,
            {
                serials.push(t.serial_numbers[j]);
                j += 1;
            }
            assert(t.serial_numbers@.take(j as int) =~= t.serial_numbers@);
            i += 1;
        }
        assert(ts.take(i as int) =~= ts);
        serials
    }

    /// The fees of the transaction if they can be added up in 64 bits: for a
    /// deployment the fee of its fee transition, for an execution the fees of
    /// all its transitions.
    pub fn checked_fees(&self) -> (fees: Option<i64>)
        ensures
            match fees {
                Some(sum) => self@.fees_fit() && sum == self@.fees(),
                None => !self@.fees_fit(),
            },
    {
        match self {
            Transaction::Deployment { fee, .. } => match fee {
                Some(t) => {
                    let ghost ts = seq![t.deep_view()];
                    assert(ts.drop_last() =~= Seq::empty());
                    assert(fees_of(ts.drop_last()) == 0);
                    assert(fees_fit(ts.drop_last()));
                    Some(t.fee)
                },
                None => Some(0),
            },
            Transaction::Execution { transitions, .. } => Transaction::implicit_fees(transitions),
        }
    }

    /// The fees of the transaction: for a deployment the fee of its fee
    /// transition, for an execution the fees of all its transitions.
    pub fn fees(&self) -> (fees: i64)
        requires
            self@.fees_fit(),
        ensures
            fees == self@.fees(),
    {
        self.checked_fees().unwrap()
    }

    /// The change of stake that `transition` makes for the validator `key`.
    fn stake_update(
        transition: &Transition,
        key: Option<PublicKey>,
        address: Option<Address>,
    ) -> (res: Result<Option<Stake>, TxError>)
        ensures
            viewed(res) == stake_of(transition.deep_view(), key, address),
    {
        let credits = "credits".to_owned();
        let stake = "stake".to_owned();
        let unstake = "unstake".to_owned();
        let staking = transition.function_name == stake;
        if transition.program_id != credits || (!staking && transition.function_name != unstake) {
            return Ok(None);
        }
        if transition.outputs.len() <= 2 {
            return Err(TxError::StakeOutputMissing);
        }
        let amount: i64 = match &transition.outputs[2] {
            Output::U64(n) => signed_of(*n),
            _ => {
                return Err(TxError::StakeOutputInvalid);
            },
        };
        if !staking && amount == i64::MIN {
            return Err(TxError::StakeOutputInvalid);
        }
        if transition.outputs.len() <= 3 {
            return Err(TxError::StakeOutputMissing);
        }
        let account = match &transition.outputs[3] {
            Output::Address(a) => *a,
            _ => {
                return Err(TxError::StakeOutputInvalid);
            },
        };
        let delta: i64 = if staking {
            amount
        } else {
            -amount
        };
        match Stake::at(address, key, account, delta) {
            Ok(stake) => Ok(Some(stake)),
            Err(e) => Err(e),
        }
    }

    /// The changes of stake that the transaction makes: one for each
    /// transition that calls `stake` or `unstake` of the program `credits`,
    /// if the transaction is an execution that names a validator.
    pub fn stake_updates(&self) -> (res: Result<Vec<Stake>, TxError>)
        ensures
            match self@.stake_updates() {
                Ok(updates) => res matches Ok(v) && v@ == updates,
                Err(e) => res matches Err(x) && x@ == e,
            },
    {
        match self {
            Transaction::Execution { validator: Some(text), .. } => self.stake_updates_at(
                address_for_text(text.as_str()),
            ),
            _ => Ok(Vec::new()),
        }
    }

    /// The changes of stake that the transaction makes where `address` is
    /// the consensus address that belongs to the key of the validator that
    /// the transaction names: one for each transition that calls `stake` or
    /// `unstake` of the program `credits`. Where the key has no address, the
    /// first such transition whose outputs are in order gives the error.
    pub fn stake_updates_at(&self, address: Option<Address>) -> (res: Result<Vec<Stake>, TxError>)
        ensures
            match self@.stake_updates_at(address) {
                Ok(updates) => res matches Ok(v) && v@ == updates,
                Err(e) => res matches Err(x) && x@ == e,
            },
    {
        let mut updates: Vec<Stake> = Vec::new();
        match self {
            Transaction::Execution { transitions, validator: Some(text), .. } => {
                let key = PublicKey::from_hex(text.as_str());
                let ghost ts = transitions.deep_view();
                let mut i: usize = 0;
                assert(ts.take(0) =~= Seq::empty());
                while i < transitions.len()
                    invariant
                        i <= transitions.len(),
                        ts == transitions.deep_view(),
                        self@.stake_updates_at(address) == stakes_of(ts, key, address),
                        stakes_of(ts.take(i as int), key, address) == Ok::<Seq<Stake>, TxErrorView>(
                            updates@,
                        ),
                    decreases transitions.len() - i,
                {
                    assert(ts.take(i + 1).drop_last() =~= ts.take(i as int));
                    assert(ts.take(i + 1).last() == transitions[i as int].deep_view());
                    match Transaction::stake_update(&transitions[i], key, address) {
                        Err(e) => {
                            proof {
                                lemma_stakes_of_prefix_error(ts, key, address, i + 1);
                            }
                            return Err(e);
                        },
                        Ok(None) => {},
                        Ok(Some(stake)) => {
                            updates.push(stake);
                        },
                    }
                    i += 1;
                }
                assert(ts.take(i as int) =~= ts);
                Ok(updates)
            },
            _ => Ok(updates),
        }
    }
}

/// Where the changes of stake of a prefix end in an error, those of the
/// whole end in the same error.
pub proof fn lemma_stakes_of_prefix_error(
    ts: Seq<TransitionView>,
    key: Option<PublicKey>,
    address: Option<Address>,
    i: int,
)
    requires
        0 <= i <= ts.len(),
        stakes_of(ts.take(i), key, address) is Err,
    ensures
        stakes_of(ts, key, address) == stakes_of(ts.take(i), key, address),
    decreases ts.len(),
{
    if i == ts.len() {
        assert(ts.take(i) =~= ts);
    } else {
        assert(ts.drop_last().take(i) =~= ts.take(i));
        lemma_stakes_of_prefix_error(ts.drop_last(), key, address, i);
    }
}

} // verus!
