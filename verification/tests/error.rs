use snarkvm_app::error::TxError;
use snarkvm_app::field::Field;
use snarkvm_app::record_store::StoreError;
use snarkvm_app::text::{push_decimal, push_field};
use snarkvm_app::validator_set::StakeError;

fn decimal(f: Field) -> String {
    let mut text = String::new();
    push_decimal(&mut text, f);
    text
}

#[test]
fn an_unknown_program_is_named_in_the_message() {
    assert_eq!(TxError::ProgramMissing("hello.aleo".to_string()).message(), "Program hello.aleo does not exist");
    assert_eq!(TxError::ProgramMissing(String::new()).message(), "Program  does not exist");
}

#[test]
fn a_deployed_program_is_named_in_the_message() {
    assert_eq!(TxError::ProgramExists("hello.aleo".to_string()).message(), "Program already exists: hello.aleo");
}

#[test]
fn a_repeated_input_is_named_with_its_transaction() {
    let error = TxError::DuplicateInput { serial_number: Field::from_u64(42), transaction: "tx-7".to_string() };
    assert_eq!(error.message(), "record with serial number 42field in transaction tx-7 is duplicate");
}

#[test]
fn a_spent_input_is_named_in_the_message() {
    assert_eq!(
        TxError::AlreadySpent(Field::from_u64(0)).message(),
        "input record serial number 0field is unknown or already spent"
    );
    assert_eq!(
        TxError::AlreadySpent(Field { w0: 0, w1: 1, w2: 0, w3: 0 }).message(),
        "input record serial number 18446744073709551616field is unknown or already spent"
    );
}

#[test]
fn the_other_messages_are_fixed() {
    assert_eq!(TxError::ProofInvalid.message(), "proof verification failed");
    assert_eq!(
        TxError::StakeInvalid(StakeError::UnknownValidator).message(),
        "attempted to unstake on unknown validator"
    );
    assert_eq!(
        TxError::StakeInvalid(StakeError::InsufficientPower).message(),
        "attempted to unstake more voting power than available"
    );
    assert_eq!(
        TxError::StakeInvalid(StakeError::PowerOverflow).message(),
        "attempted to stake more voting power than allowed"
    );
    assert_eq!(TxError::EmptyExecution.message(), "There are no transitions in the execution");
    assert_eq!(TxError::StakeOutputMissing.message(), "couldn't find staking output in transition");
    assert_eq!(TxError::StakeOutputInvalid.message(), "staking output has an unexpected type");
    assert_eq!(TxError::ValidatorKeyInvalid.message(), "invalid validator public key");
    assert_eq!(TxError::FeeOverflow.message(), "transaction fees are out of range");
    assert_eq!(TxError::NegativeFee.message(), "execution produced a negative fee, cannot create credits");
    assert_eq!(TxError::Store(StoreError::CommitmentExists).message(), "record commitment already exists");
    assert_eq!(TxError::Store(StoreError::UnknownRecord).message(), "record doesn't exist");
    assert_eq!(TxError::Store(StoreError::AlreadySpent).message(), "record already spent");
}

#[test]
fn an_error_is_cloned_with_what_it_names() {
    let error = TxError::DuplicateInput { serial_number: Field::from_u64(3), transaction: "t".to_string() };
    assert_eq!(error.clone(), error);
    let error = TxError::ProgramMissing("p".to_string());
    assert_eq!(error.clone(), error);
    assert_ne!(TxError::ProgramMissing("p".to_string()), TxError::ProgramMissing("q".to_string()));
    assert_ne!(TxError::ProgramMissing("p".to_string()), TxError::ProgramExists("p".to_string()));
}

#[test]
fn a_field_element_is_written_in_decimal() {
    assert_eq!(decimal(Field::from_u64(0)), "0");
    assert_eq!(decimal(Field::from_u64(9)), "9");
    assert_eq!(decimal(Field::from_u64(10)), "10");
    assert_eq!(decimal(Field::from_u64(1234567890)), "1234567890");
    assert_eq!(decimal(Field::from_u64(u64::MAX)), "18446744073709551615");
    assert_eq!(decimal(Field { w0: 0, w1: 0, w2: 1, w3: 0 }), "340282366920938463463374607431768211456");
    assert_eq!(
        decimal(Field { w0: u64::MAX, w1: u64::MAX, w2: u64::MAX, w3: u64::MAX }),
        "115792089237316195423570985008687907853269984665640564039457584007913129639935"
    );
    let mut text = "sn: ".to_string();
    push_field(&mut text, Field::from_u64(77));
    assert_eq!(text, "sn: 77field");
}

#[test]
fn a_field_element_is_divided_by_ten() {
    assert_eq!(Field::from_u64(0).div_ten(), (Field::from_u64(0), 0));
    assert_eq!(Field::from_u64(7).div_ten(), (Field::from_u64(0), 7));
    assert_eq!(Field::from_u64(1239).div_ten(), (Field::from_u64(123), 9));
    // 2^64 = 10 * 1844674407370955161 + 6
    assert_eq!(Field { w0: 0, w1: 1, w2: 0, w3: 0 }.div_ten(), (Field::from_u64(1844674407370955161), 6));
    assert!(Field::from_u64(9).below_ten());
    assert!(!Field::from_u64(10).below_ten());
    assert!(!Field { w0: 1, w1: 0, w2: 0, w3: 1 }.below_ten());
}
