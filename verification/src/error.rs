//! Why a transaction is rejected.

use vstd::prelude::*;
use crate::field::Field;
use crate::record_store::StoreError;
use crate::text::{field_text, push_field};
use crate::validator_set::StakeError;

verus! {

/// The reason for which a transaction is rejected.
#[derive(Debug, PartialEq, Eq)]
pub enum TxError {
    /// The transaction names this serial number twice among its inputs.
    DuplicateInput {
        serial_number: Field,
        /// The identifier of the transaction.
        transaction: String,
    },
    /// This input is the serial number of no known record, or of a record
    /// that is spent already.
    AlreadySpent(Field),
    /// A program is already deployed under this identifier.
    ProgramExists(String),
    /// A transition runs the program with this identifier, which is not
    /// deployed.
    ProgramMissing(String),
    /// The proof engine did not accept a proof of the transaction.
    ProofInvalid,
    /// A change of stake in the transaction is not admissible.
    StakeInvalid(StakeError),
    /// The execution has no transition.
    EmptyExecution,
    /// A transition that stakes or unstakes lacks the output that holds the
    /// amount or the account.
    StakeOutputMissing,
    /// The output of a transition that stakes or unstakes does not hold an
    /// amount or an account where one belongs.
    StakeOutputInvalid,
    /// The public key of the validator that a staking execution names is not
    /// the encoding of a key.
    ValidatorKeyInvalid,
    /// The fees of the transaction do not fit in 64 bits, or the fee pot has
    /// no room for them.
    FeeOverflow,
    /// A fee was requested of an execution that mints credits.
    NegativeFee,
    /// The record store refused a change.
    Store(StoreError),
}

/// What a `TxError` holds.
pub enum TxErrorView {
    DuplicateInput { serial_number: Field, transaction: Seq<char> },
    AlreadySpent(Field),
    ProgramExists(Seq<char>),
    ProgramMissing(Seq<char>),
    ProofInvalid,
    StakeInvalid(StakeError),
    EmptyExecution,
    StakeOutputMissing,
    StakeOutputInvalid,
    ValidatorKeyInvalid,
    FeeOverflow,
    NegativeFee,
    Store(StoreError),
}

impl View for TxError {
    type V = TxErrorView;

    open spec fn view(&self) -> TxErrorView {
        match self {
            TxError::DuplicateInput { serial_number, transaction } => TxErrorView::DuplicateInput {
                serial_number: *serial_number,
                transaction: transaction@,
            },
            TxError::AlreadySpent(sn) => TxErrorView::AlreadySpent(*sn),
            TxError::ProgramExists(id) => TxErrorView::ProgramExists(id@),
            TxError::ProgramMissing(id) => TxErrorView::ProgramMissing(id@),
            TxError::ProofInvalid => TxErrorView::ProofInvalid,
            TxError::StakeInvalid(e) => TxErrorView::StakeInvalid(*e),
            TxError::EmptyExecution => TxErrorView::EmptyExecution,
            TxError::StakeOutputMissing => TxErrorView::StakeOutputMissing,
            TxError::StakeOutputInvalid => TxErrorView::StakeOutputInvalid,
            TxError::ValidatorKeyInvalid => TxErrorView::ValidatorKeyInvalid,
            TxError::FeeOverflow => TxErrorView::FeeOverflow,
            TxError::NegativeFee => TxErrorView::NegativeFee,
            TxError::Store(e) => TxErrorView::Store(*e),
        }
    }
}

impl Clone for TxError {
    fn clone(&self) -> (copy: TxError)
        ensures
            copy@ == self@,
    {
        match self {
            TxError::DuplicateInput { serial_number, transaction } => TxError::DuplicateInput {
                serial_number: *serial_number,
                transaction: transaction.clone(),
            },
            TxError::AlreadySpent(sn) => TxError::AlreadySpent(*sn),
            TxError::ProgramExists(id) => TxError::ProgramExists(id.clone()),
            TxError::ProgramMissing(id) => TxError::ProgramMissing(id.clone()),
            TxError::ProofInvalid => TxError::ProofInvalid,
            TxError::StakeInvalid(e) => TxError::StakeInvalid(*e),
            TxError::EmptyExecution => TxError::EmptyExecution,
            TxError::StakeOutputMissing => TxError::StakeOutputMissing,
            TxError::StakeOutputInvalid => TxError::StakeOutputInvalid,
            TxError::ValidatorKeyInvalid => TxError::ValidatorKeyInvalid,
            TxError::FeeOverflow => TxError::FeeOverflow,
            TxError::NegativeFee => TxError::NegativeFee,
            TxError::Store(e) => TxError::Store(*e),
        }
    }
}

/// The result with its error as what the error holds.
pub open spec fn viewed<T>(res: Result<T, TxError>) -> Result<T, TxErrorView> {
    match res {
        Ok(value) => Ok(value),
        Err(e) => Err(e@),
    }
}

impl TxErrorView {
    /// The reason in words.
    pub open spec fn message_text(self) -> Seq<char> {
        match self {
            TxErrorView::DuplicateInput { serial_number, transaction } => "record with serial number "@
                + field_text(serial_number) + " in transaction "@ + transaction + " is duplicate"@,
            TxErrorView::AlreadySpent(sn) => "input record serial number "@ + field_text(sn)
                + " is unknown or already spent"@,
            TxErrorView::ProgramExists(id) => "Program already exists: "@ + id,
            TxErrorView::ProgramMissing(id) => "Program "@ + id + " does not exist"@,
            TxErrorView::ProofInvalid => "proof verification failed"@,
            TxErrorView::StakeInvalid(StakeError::UnknownValidator) => "attempted to unstake on unknown validator"@,
            TxErrorView::StakeInvalid(StakeError::InsufficientPower) => "attempted to unstake more voting power than available"@,
            TxErrorView::StakeInvalid(StakeError::PowerOverflow) => "attempted to stake more voting power than allowed"@,
            TxErrorView::EmptyExecution => "There are no transitions in the execution"@,
            TxErrorView::StakeOutputMissing => "couldn't find staking output in transition"@,
            TxErrorView::StakeOutputInvalid => "staking output has an unexpected type"@,
            TxErrorView::ValidatorKeyInvalid => "invalid validator public key"@,
            TxErrorView::FeeOverflow => "transaction fees are out of range"@,
            TxErrorView::NegativeFee => "execution produced a negative fee, cannot create credits"@,
            TxErrorView::Store(StoreError::CommitmentExists) => "record commitment already exists"@,
            TxErrorView::Store(StoreError::UnknownRecord) => "record doesn't exist"@,
            TxErrorView::Store(StoreError::AlreadySpent) => "record already spent"@,
        }
    }
}

impl TxError {
    /// The reason in words. A serial number is written as its value in
    /// decimal digits followed by the word `field`.
    pub fn message(&self) -> (text: String)
        ensures
            text@ == self@.message_text(),
    {
        match self {
            TxError::DuplicateInput { serial_number, transaction } => {
                let mut text = "record with serial number ".to_owned();
                push_field(&mut text, *serial_number);
                text.push_str(" in transaction ");
                text.push_str(transaction.as_str());
                text.push_str(" is duplicate");
                text
            },
            TxError::AlreadySpent(sn) => {
                let mut text = "input record serial number ".to_owned();
                push_field(&mut text, *sn);
                text.push_str(" is unknown or already spent");
                text
            },
            TxError::ProgramExists(id) => {
                let mut text = "Program already exists: ".to_owned();
                text.push_str(id.as_str());
                text
            },
            TxError::ProgramMissing(id) => {
                let mut text = "Program ".to_owned();
                text.push_str(id.as_str());
                text.push_str(" does not exist");
                text
            },
            TxError::ProofInvalid => "proof verification failed".to_owned(),
            TxError::StakeInvalid(StakeError::UnknownValidator) => "attempted to unstake on unknown validator".to_owned(),
            TxError::StakeInvalid(StakeError::InsufficientPower) => "attempted to unstake more voting power than available".to_owned(),
            TxError::StakeInvalid(StakeError::PowerOverflow) => "attempted to stake more voting power than allowed".to_owned(),
            TxError::EmptyExecution => "There are no transitions in the execution".to_owned(),
            TxError::StakeOutputMissing => "couldn't find staking output in transition".to_owned(),
            TxError::StakeOutputInvalid => "staking output has an unexpected type".to_owned(),
            TxError::ValidatorKeyInvalid => "invalid validator public key".to_owned(),
            TxError::FeeOverflow => "transaction fees are out of range".to_owned(),
            TxError::NegativeFee => "execution produced a negative fee, cannot create credits".to_owned(),
            TxError::Store(StoreError::CommitmentExists) => "record commitment already exists".to_owned(),
            TxError::Store(StoreError::UnknownRecord) => "record doesn't exist".to_owned(),
            TxError::Store(StoreError::AlreadySpent) => "record already spent".to_owned(),
        }
    }
}

} // verus!
