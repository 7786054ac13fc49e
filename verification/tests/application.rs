use snarkvm_app::application::{
    AbciQuery, GenesisState, ProofReport, QueryReply, RequestBeginBlock, SnarkVMApp,
};
use snarkvm_app::error::TxError;
use snarkvm_app::signed::{amount_of, signed_of};
use snarkvm_app::field::{AccountAddress, Address, Field, PublicKey};
use snarkvm_app::height::HeightFile;
use snarkvm_app::model::{Header, ValidatorUpdate, VoteInfo, VoteValidator};
use snarkvm_app::program_store::{Program, ProgramStore, VerifyingKeyMap};
use snarkvm_app::record_store::{Record, RecordStore, StoreError};
use snarkvm_app::transaction::{Output, Transaction, Transition};
use snarkvm_app::validator::Validator;
use snarkvm_app::validator_set::{Reward, StakeError, ValidatorSet, MAX_FEE_POT};

fn field(n: u64) -> Field {
    Field::from_u64(n)
}

fn record(serial: u64) -> Record {
    Record { serial_number: field(serial), ciphertext: vec![serial as u8; 3] }
}


/// A public key that is the encoding of a point, with its consensus address.
fn valid_key(n: u64) -> (PublicKey, Address) {
    let mut bytes = [0u8; 32];
    bytes[0] = n as u8;
    loop {
        if let Some(key) = tendermint::PublicKey::from_raw_ed25519(&bytes) {
            let id = tendermint::account::Id::from(key.ed25519().unwrap());
            return (PublicKey::from_le_bytes(&bytes).unwrap(), Address::from_le_bytes(id.as_bytes()).unwrap());
        }
        bytes[1] += 1;
    }
}

/// 32 bytes that are not the encoding of a point.
fn invalid_key() -> PublicKey {
    let mut bytes = [0u8; 32];
    loop {
        if tendermint::PublicKey::from_raw_ed25519(&bytes).is_none() {
            return PublicKey::from_le_bytes(&bytes).unwrap();
        }
        bytes[1] += 1;
    }
}

fn address(n: u64) -> Address {
    valid_key(n).1
}

fn account(n: u64) -> AccountAddress {
    AccountAddress { w0: n, w1: 0, w2: 0, w3: 1 }
}

fn pub_key(n: u64) -> PublicKey {
    valid_key(n).0
}

fn validator(n: u64, power: u64) -> Validator {
    Validator { address: address(n), pub_key: pub_key(n), aleo_address: account(n), voting_power: power }
}

/// The key of the validator in hexadecimal digits, as a transaction names it.
fn key(n: u64) -> String {
    hex(&pub_key(n))
}

fn hex(key: &PublicKey) -> String {
    let mut text = String::new();
    snarkvm_app::text::push_hex(&mut text, &key.to_le_bytes());
    text
}

fn duplicate(serial: u64, transaction: &str) -> TxError {
    TxError::DuplicateInput { serial_number: field(serial), transaction: transaction.to_string() }
}

fn program(id: &str) -> Program {
    Program { id: id.to_string(), source: format!("program {id};") }
}

fn keys() -> VerifyingKeyMap {
    VerifyingKeyMap { bytes: vec![1, 2, 3] }
}

fn deployment(id: &str, fee: Option<Transition>) -> Transaction {
    Transaction::Deployment { id: format!("deploy-{id}"), program: program(id), verifying_keys: keys(), fee }
}

fn transition(program: &str, function: &str, serials: &[u64], outputs: &[(u64, u64)], fee: i64) -> Transition {
    Transition {
        program_id: program.to_string(),
        function_name: function.to_string(),
        serial_numbers: serials.iter().map(|n| field(*n)).collect(),
        outputs: outputs.iter().map(|(c, s)| Output::Record(field(*c), record(*s))).collect(),
        fee,
    }
}

fn execution(id: &str, transitions: Vec<Transition>) -> Transaction {
    Transaction::Execution { id: id.to_string(), transitions, validator: None }
}

fn staking(id: &str, function: &str, amount: u64, validator: u64) -> Transaction {
    Transaction::Execution {
        id: id.to_string(),
        transitions: vec![Transition {
            program_id: "credits".to_string(),
            function_name: function.to_string(),
            serial_numbers: vec![],
            outputs: vec![Output::Other, Output::Other, Output::U64(amount), Output::Address(account(validator))],
            fee: 0,
        }],
        validator: Some(key(validator)),
    }
}

fn accepted(n: usize) -> ProofReport {
    ProofReport { deployment: true, transitions: vec![true; n] }
}

fn header(proposer: u64, height: i64) -> Option<Header> {
    Some(Header { proposer_address: address(proposer), height })
}

fn vote(n: u64, power: i64, signed: bool) -> VoteInfo {
    VoteInfo { validator: Some(VoteValidator { address: address(n), power }), signed_last_block: signed }
}

/// An application with the programs `records` and `credits` deployed.
fn app_with_programs() -> SnarkVMApp {
    let mut app = SnarkVMApp::new();
    for id in ["records", "credits"] {
        assert_eq!(app.store_program(&deployment(id, None)), Ok(()));
    }
    app
}

fn mint(commitment: u64, serial: u64) -> Transaction {
    execution("mint", vec![transition("records", "mint", &[], &[(commitment, serial)], 0)])
}

fn consume(serials: &[u64]) -> Transaction {
    execution("consume", vec![transition("records", "consume", serials, &[], 0)])
}

#[test]
fn test_abci_hooks() {
    let mut app = SnarkVMApp::new();

    // deploy the program to the app
    let deployment_transaction = deployment("records", None);
    let _ = app.store_program(&deployment_transaction);

    // normal execution to mint a record, validations should succeed
    let transaction = mint(1, 101);
    assert!(app.check_tx(&transaction, &accepted(1)).code == 0);
    // the record is there to be used once the execution is applied
    assert!(app.deliver_tx(&transaction, &accepted(1)).code == 0);

    // utilize the same record twice
    let consume_two_transaction = execution("consume_two", vec![transition("records", "consume_two", &[101, 101], &[], 0)]);

    // both check_tx and deliver_tx validate that inputs are not being spent twice
    assert!(app.check_tx(&consume_two_transaction, &accepted(1)).code != 0);
    assert!(app.deliver_tx(&consume_two_transaction, &accepted(1)).code != 0);

    // because validations failed, inputs should not be spent in the store
    app.check_inputs_are_unspent(&consume_two_transaction).unwrap();

    // consume the record
    let consume_transaction = consume(&[101]);

    // because the transaction is valid, check and deliver should succeed
    assert!(app.check_tx(&consume_transaction, &accepted(1)).code == 0);
    assert!(app.deliver_tx(&consume_transaction, &accepted(1)).code == 0);

    // because deliver_tx() spends the records, further validations should fail
    assert!(app.check_tx(&consume_transaction, &accepted(1)).code != 0);
    assert!(app.deliver_tx(&consume_transaction, &accepted(1)).code != 0);
}

#[test]
fn basic_program() {
    let mut app = app_with_programs();

    // deploy a program
    let deploy = deployment("hello", None);
    let response = app.deliver_tx(&deploy, &accepted(0));
    assert_eq!(response.code, 0);

    // the transaction is indexed by its identifier
    assert_eq!(response.events.len(), 1);
    assert_eq!(response.events[0].kind, "app");
    assert_eq!(response.events[0].attributes.len(), 1);
    assert_eq!(response.events[0].attributes[0].key, "tx_id");
    assert_eq!(response.events[0].attributes[0].value, deploy.id());
    assert!(response.events[0].attributes[0].index);

    // the program is there
    let found = app.query(Ok(AbciQuery::GetProgram { program_id: "hello".to_string() }));
    assert_eq!(found.code, 0);
    assert_eq!(found.value, Some(QueryReply::Program(Some(program("hello")))));

    // execute the program
    let execute = execution("run", vec![transition("hello", "hello", &[], &[], 0)]);
    let response = app.deliver_tx(&execute, &accepted(1));
    assert_eq!(response.code, 0);
    assert_eq!(response.events[0].attributes[0].value, "run");
}

#[test]
fn program_validations() {
    let mut app = app_with_programs();
    let execute = execution("run", vec![transition("hello", "hello", &[], &[], 0)]);

    // fail on execute non deployed command
    assert_eq!(app.check_tx(&execute, &accepted(1)).code, 1);
    assert_eq!(app.deliver_tx(&execute, &accepted(1)).code, 1);

    assert_eq!(app.deliver_tx(&deployment("hello", None), &accepted(0)).code, 0);

    // fail on already deployed
    assert_eq!(app.check_tx(&deployment("hello", None), &accepted(0)).code, 1);
    assert_eq!(app.deliver_tx(&deployment("hello", None), &accepted(0)).code, 1);

    // fail where the proof engine does not accept the call
    let rejected = ProofReport { deployment: true, transitions: vec![false] };
    assert_eq!(app.check_tx(&execute, &rejected).code, 1);
    assert_eq!(app.deliver_tx(&execute, &rejected).code, 1);
    // and where it has no word on it
    assert_eq!(app.deliver_tx(&execute, &accepted(0)).code, 1);

    assert_eq!(app.deliver_tx(&execute, &accepted(1)).code, 0);
}

#[test]
fn mint_then_consume() {
    let mut app = app_with_programs();
    assert_eq!(app.deliver_tx(&mint(1, 101), &accepted(1)).code, 0);
    assert!(app.records().is_unspent(field(101)));
    let tx = consume(&[101]);
    assert_eq!(app.check_tx(&tx, &accepted(1)).code, 0);
    assert_eq!(app.deliver_tx(&tx, &accepted(1)).code, 0);
    let again = app.check_tx(&tx, &accepted(1));
    assert_eq!(again.code, 1);
    assert_eq!(again.log, "Could not verify transaction: input record serial number 101field is unknown or already spent");
    assert_eq!(again.info, again.log);
    assert!(!app.records().is_unspent(field(101)));
}

#[test]
fn double_use_in_one_tx() {
    let mut app = app_with_programs();
    assert_eq!(app.deliver_tx(&mint(1, 101), &accepted(1)).code, 0);
    let tx = execution("consume_two", vec![transition("records", "consume_two", &[101, 101], &[], 0)]);
    let checked = app.check_tx(&tx, &accepted(1));
    assert_eq!(checked.code, 1);
    assert_eq!(
        checked.log,
        "Could not verify transaction: record with serial number 101field in transaction consume_two is duplicate"
    );
    let delivered = app.deliver_tx(&tx, &accepted(1));
    assert_eq!(delivered.code, 1);
    assert_eq!(
        delivered.log,
        "Error delivering transaction: record with serial number 101field in transaction consume_two is duplicate"
    );
    assert_eq!(delivered.info, delivered.log);
    assert!(delivered.events.is_empty());
    assert!(app.records().is_unspent(field(101)));
    // the same across two transitions
    let tx = execution(
        "split",
        vec![transition("records", "consume", &[101], &[], 0), transition("records", "consume", &[101], &[], 0)],
    );
    assert_eq!(app.check_no_duplicate_records(&tx), Err(duplicate(101, "split")));
    assert_eq!(app.deliver_tx(&tx, &accepted(2)).code, 1);
    assert!(app.records().is_unspent(field(101)));
}

#[test]
fn the_first_repeated_serial_number_is_named() {
    let app = SnarkVMApp::new();
    let tx = consume(&[1, 2, 3, 2, 1]);
    assert_eq!(app.check_no_duplicate_records(&tx), Err(duplicate(2, "consume")));
    let tx = consume(&[1, 2, 1, 2]);
    assert_eq!(app.check_no_duplicate_records(&tx), Err(duplicate(1, "consume")));
    let tx = consume(&[7, 7, 7]);
    assert_eq!(app.check_no_duplicate_records(&tx), Err(duplicate(7, "consume")));
    let tx = consume(&[1, 2, 3]);
    assert_eq!(app.check_no_duplicate_records(&tx), Ok(()));
    assert_eq!(app.check_no_duplicate_records(&consume(&[])), Ok(()));
    // serial numbers that differ in a high limb only are different
    let high = Field { w0: 1, w1: 0, w2: 0, w3: 1 };
    let tx = Transaction::Execution {
        id: "t".to_string(),
        transitions: vec![Transition {
            program_id: "records".to_string(),
            function_name: "consume".to_string(),
            serial_numbers: vec![field(1), high, field(1)],
            outputs: vec![],
            fee: 0,
        }],
        validator: None,
    };
    assert_eq!(app.check_no_duplicate_records(&tx), Err(duplicate(1, "t")));
}

#[test]
fn the_first_spent_input_is_named() {
    let mut app = app_with_programs();
    app.deliver_tx(&mint(1, 101), &accepted(1));
    app.deliver_tx(&mint(2, 102), &accepted(1));
    assert_eq!(app.check_inputs_are_unspent(&consume(&[101, 102])), Ok(()));
    assert_eq!(app.check_inputs_are_unspent(&consume(&[101, 5, 102, 6])), Err(TxError::AlreadySpent(field(5))));
    app.deliver_tx(&consume(&[102]), &accepted(1));
    assert_eq!(app.check_inputs_are_unspent(&consume(&[101, 102])), Err(TxError::AlreadySpent(field(102))));
}

#[test]
fn double_deploy() {
    let mut app = app_with_programs();
    let first = deployment("hello", None);
    assert_eq!(app.deliver_tx(&first, &accepted(0)).code, 0);
    let second = Transaction::Deployment {
        id: "deploy-again".to_string(),
        program: Program { id: "hello".to_string(), source: "another source".to_string() },
        verifying_keys: VerifyingKeyMap { bytes: vec![9] },
        fee: None,
    };
    let response = app.deliver_tx(&second, &accepted(0));
    assert_eq!(response.code, 1);
    assert_eq!(response.log, "Error delivering transaction: Program already exists: hello");
    assert_eq!(response.info, response.log);
    assert_eq!(app.validate_transaction(&second, &accepted(0)), Err(TxError::ProgramExists("hello".to_string())));
    assert_eq!(app.programs().get(&"hello".to_string()), Some((program("hello"), keys())));
    assert_eq!(app.store_program(&second), Err(TxError::ProgramExists("hello".to_string())));
    assert_eq!(app.programs().get(&"hello".to_string()), Some((program("hello"), keys())));
}

#[test]
fn unknown_program_execution() {
    let mut app = SnarkVMApp::new();
    let tx = execution("run", vec![transition("nowhere", "f", &[], &[], 0)]);
    let checked = app.check_tx(&tx, &accepted(1));
    assert_eq!(checked.code, 1);
    assert_eq!(checked.log, "Could not verify transaction: Program nowhere does not exist");
    assert_eq!(checked.info, checked.log);
    assert_eq!(checked.priority, 0);
    let delivered = app.deliver_tx(&tx, &accepted(1));
    assert_eq!(delivered.code, 1);
    assert_eq!(delivered.log, "Error delivering transaction: Program nowhere does not exist");
    assert_eq!(delivered.info, delivered.log);
    assert_eq!(app.validate_transaction(&tx, &accepted(1)), Err(TxError::ProgramMissing("nowhere".to_string())));
}

#[test]
fn reward_minting() {
    let mut app = app_with_programs();
    app.info();
    assert_eq!(
        app.init_chain(GenesisState {
            records: vec![(field(1), record(101))],
            validators: vec![validator(1, 5), validator(2, 10), validator(3, 20)],
        }),
        Ok(())
    );
    app.begin_block(&RequestBeginBlock {
        header: header(1, 1),
        last_commit_info: Some(vec![vote(2, 10, true), vote(3, 20, true)]),
    });
    let fee = 20;
    let tx = execution("pay", vec![transition("records", "consume", &[101], &[(2, 102)], fee)]);
    assert_eq!(app.deliver_tx(&tx, &accepted(1)).code, 0);
    assert_eq!(app.validators().fees(), 20);
    let outcome = app.commit();
    assert_eq!(
        outcome.rewards,
        vec![
            Reward { address: address(1), owner: account(1), gates: 60 },
            Reward { address: address(2), owner: account(2), gates: 20 },
            Reward { address: address(3), owner: account(3), gates: 40 },
        ]
    );
    assert_eq!(outcome.rewards.iter().map(|r| r.gates).sum::<u64>(), 20 + 100);
    assert_eq!(outcome.height, 1);
    assert!(outcome.response.data.is_empty());
    assert_eq!(outcome.response.retain_height, 0);
    // the rewards come back as records
    let minted: Vec<(Field, Record)> = vec![(field(60), record(160)), (field(61), record(161)), (field(62), record(162))];
    let before = app.records().scan(None, None).len();
    assert!(app.add_reward_records(minted).is_empty());
    assert_eq!(app.records().scan(None, None).len(), before + 3);
    for serial in [160, 161, 162] {
        assert!(app.records().is_unspent(field(serial)));
    }
    assert_eq!(app.validators().fees(), 0);
}

#[test]
fn reward_records_that_collide_are_left_out() {
    let mut app = SnarkVMApp::new();
    app.init_chain(GenesisState { records: vec![(field(1), record(101))], validators: vec![] }).unwrap();
    let refused = app.add_reward_records(vec![
        (field(2), record(102)),
        (field(1), record(103)),
        (field(2), record(104)),
        (field(3), record(105)),
    ]);
    assert_eq!(refused, vec![field(1), field(2)]);
    let commitments: Vec<Field> = app.records().scan(None, None).into_iter().map(|item| item.0).collect();
    assert_eq!(commitments, vec![field(1), field(2), field(3)]);
}

#[test]
fn genesis_load() {
    let mut app = SnarkVMApp::new();
    assert_eq!(app.info().last_block_height, 0);
    let records: Vec<(Field, Record)> = (1..=5).map(|n| (field(n), record(100 + n))).collect();
    let validators = vec![validator(1, 10), validator(2, 20), validator(3, 30)];
    assert_eq!(app.init_chain(GenesisState { records: records.clone(), validators: validators.clone() }), Ok(()));
    for n in 1..=5 {
        assert!(app.records().is_unspent(field(100 + n)));
    }
    let stored: Vec<(Field, Record, bool)> = records.into_iter().map(|(c, r)| (c, r, false)).collect();
    assert_eq!(app.records().scan(None, None), stored);
    assert_eq!(app.validators().validators(), validators);
    app.begin_block(&RequestBeginBlock { header: header(1, 1), last_commit_info: None });
    assert!(app.end_block().validator_updates.is_empty());
    let outcome = app.commit();
    assert_eq!(outcome.height, 1);
    assert_eq!(app.info().last_block_height, 1);
    assert_eq!(app.height_file().contents(), Some(vec![1, 0, 0, 0, 0, 0, 0, 0]));
}

#[test]
fn genesis_stops_at_a_commitment_that_is_taken() {
    let mut app = SnarkVMApp::new();
    let genesis = GenesisState {
        records: vec![(field(1), record(101)), (field(2), record(102)), (field(1), record(103)), (field(4), record(104))],
        validators: vec![validator(1, 10)],
    };
    assert_eq!(app.init_chain(genesis), Err(StoreError::CommitmentExists));
    let commitments: Vec<Field> = app.records().scan(None, None).into_iter().map(|item| item.0).collect();
    assert_eq!(commitments, vec![field(1), field(2)]);
    assert!(app.validators().validators().is_empty());
}

#[test]
fn info_says_what_the_application_is() {
    let mut app = SnarkVMApp::new();
    let info = app.info();
    assert_eq!(info.data, "snarkvm-app");
    assert_eq!(info.version, "0.1.0");
    assert_eq!(info.app_version, 1);
    assert_eq!(info.last_block_height, 0);
    assert!(info.last_block_app_hash.is_empty());
    assert_eq!(app.height_file().contents(), Some(vec![0; 8]));
    let mut app = SnarkVMApp::from_parts(
        RecordStore::new(),
        ProgramStore::new(),
        ValidatorSet::new(),
        HeightFile::new(Some(vec![41, 0, 0, 0, 0, 0, 0, 0])),
    );
    assert_eq!(app.info().last_block_height, 41);
    assert_eq!(app.commit().height, 42);
    assert_eq!(app.info().last_block_height, 42);
}

#[test]
fn check_tx_gives_the_fees_as_priority_and_changes_nothing() {
    let mut app = app_with_programs();
    app.deliver_tx(&mint(1, 101), &accepted(1));
    let tx = execution(
        "pay",
        vec![transition("records", "consume", &[101], &[(2, 102)], 7), transition("records", "mint", &[], &[], -2)],
    );
    let response = app.check_tx(&tx, &accepted(2));
    assert_eq!(response.code, 0);
    assert_eq!(response.priority, 5);
    assert!(response.log.is_empty());
    assert!(response.info.is_empty());
    // nothing was staged
    assert!(app.records().is_unspent(field(101)));
    assert!(!app.records().is_unspent(field(102)));
    assert_eq!(app.validators().fees(), 0);
    // and the delivery goes through as the check did
    assert_eq!(app.deliver_tx(&tx, &accepted(2)).code, 0);
    assert_eq!(app.validators().fees(), 5);
    assert!(!app.records().is_unspent(field(101)));
    assert!(app.records().is_unspent(field(102)));
}

#[test]
fn a_rejected_delivery_leaves_no_trace() {
    let mut app = app_with_programs();
    app.deliver_tx(&mint(1, 101), &accepted(1));
    app.init_chain(GenesisState { records: vec![], validators: vec![validator(1, 10)] }).unwrap();
    let tx = Transaction::Execution {
        id: "bad".to_string(),
        transitions: vec![
            Transition {
                program_id: "credits".to_string(),
                function_name: "stake".to_string(),
                serial_numbers: vec![field(101)],
                outputs: vec![
                    Output::Record(field(2), record(102)),
                    Output::Other,
                    Output::U64(5),
                    Output::Address(account(1)),
                ],
                fee: 3,
            },
            transition("nowhere", "f", &[], &[], 0),
        ],
        validator: Some(key(1)),
    };
    assert_eq!(app.deliver_tx(&tx, &accepted(2)).code, 1);
    assert!(app.records().is_unspent(field(101)));
    assert!(!app.records().is_unspent(field(102)));
    assert_eq!(app.validators().fees(), 0);
    assert!(app.validators().pending_updates().is_empty());
    assert!(app.end_block().validator_updates.is_empty());
}

#[test]
fn a_record_spent_in_a_block_stays_spent() {
    let mut app = app_with_programs();
    app.info();
    app.deliver_tx(&mint(1, 101), &accepted(1));
    assert_eq!(app.deliver_tx(&consume(&[101]), &accepted(1)).code, 0);
    // in the same block
    assert_eq!(app.deliver_tx(&consume(&[101]), &accepted(1)).code, 1);
    app.commit();
    // and in the next one
    app.begin_block(&RequestBeginBlock { header: header(1, 2), last_commit_info: None });
    assert_eq!(app.check_tx(&consume(&[101]), &accepted(1)).code, 1);
    assert_eq!(app.deliver_tx(&consume(&[101]), &accepted(1)).code, 1);
    assert_eq!(app.records().scan_spent(), vec![field(101)]);
    assert_eq!(app.records().scan(None, None), vec![(field(1), record(101), true)]);
}

#[test]
fn an_output_of_the_block_can_be_spent_in_the_block() {
    let mut app = app_with_programs();
    assert_eq!(app.deliver_tx(&mint(1, 101), &accepted(1)).code, 0);
    // not committed, yet there to spend
    assert!(app.records().scan(None, None).is_empty());
    assert_eq!(app.deliver_tx(&consume(&[101]), &accepted(1)).code, 0);
}

#[test]
fn a_delivery_whose_outputs_collide_stops_half_way() {
    let mut app = app_with_programs();
    app.deliver_tx(&mint(1, 101), &accepted(1));
    let tx = execution(
        "collide",
        vec![transition("records", "swap", &[101], &[(2, 102), (1, 103), (3, 104)], 4)],
    );
    // the mempool check does not look at the outputs
    assert_eq!(app.check_tx(&tx, &accepted(1)).code, 0);
    let response = app.deliver_tx(&tx, &accepted(1));
    assert_eq!(response.code, 1);
    assert_eq!(response.log, "Error delivering transaction: record commitment already exists");
    // what came before the refused record is staged
    assert_eq!(app.validators().fees(), 4);
    assert!(!app.records().is_unspent(field(101)));
    assert!(app.records().is_unspent(field(102)));
    assert!(!app.records().is_unspent(field(103)));
    assert!(!app.records().is_unspent(field(104)));
}

#[test]
fn each_reason_of_rejection() {
    let mut app = app_with_programs();
    app.init_chain(GenesisState { records: vec![(field(1), record(101))], validators: vec![validator(1, 10)] }).unwrap();
    let reason = |app: &SnarkVMApp, tx: &Transaction, proofs: &ProofReport| app.check_tx(tx, proofs).log;
    let prefix = "Could not verify transaction: ";
    let with = |message: &str| format!("{prefix}{message}");

    assert_eq!(reason(&app, &execution("empty", vec![]), &accepted(0)), with("There are no transitions in the execution"));
    assert_eq!(app.validate_transaction(&execution("empty", vec![]), &accepted(0)), Err(TxError::EmptyExecution));

    let rejected = ProofReport { deployment: false, transitions: vec![] };
    assert_eq!(reason(&app, &deployment("hello", None), &rejected), with("proof verification failed"));
    assert_eq!(app.validate_transaction(&deployment("hello", None), &rejected), Err(TxError::ProofInvalid));

    let unstake = staking("unstake", "unstake", 11, 1);
    assert_eq!(reason(&app, &unstake, &accepted(1)), with("attempted to unstake more voting power than available"));
    assert_eq!(
        app.validate_transaction(&unstake, &accepted(1)),
        Err(TxError::StakeInvalid(StakeError::InsufficientPower))
    );
    let stranger = staking("unstake", "unstake", 1, 2);
    assert_eq!(reason(&app, &stranger, &accepted(1)), with("attempted to unstake on unknown validator"));
    let huge = staking("stake", "stake", i64::MAX as u64, 1);
    assert_eq!(reason(&app, &huge, &accepted(1)), with("attempted to stake more voting power than allowed"));

    let malformed = Transaction::Execution {
        id: "m".to_string(),
        transitions: vec![transition("credits", "stake", &[], &[], 0)],
        validator: Some(key(1)),
    };
    assert_eq!(reason(&app, &malformed, &accepted(1)), with("couldn't find staking output in transition"));
    let mistyped = Transaction::Execution {
        id: "m".to_string(),
        transitions: vec![Transition {
            program_id: "credits".to_string(),
            function_name: "stake".to_string(),
            serial_numbers: vec![],
            outputs: vec![Output::Other, Output::Other, Output::Other, Output::Other],
            fee: 0,
        }],
        validator: Some(key(1)),
    };
    assert_eq!(reason(&app, &mistyped, &accepted(1)), with("staking output has an unexpected type"));

    let keyless = Transaction::Execution {
        id: "k".to_string(),
        transitions: vec![Transition {
            program_id: "credits".to_string(),
            function_name: "stake".to_string(),
            serial_numbers: vec![],
            outputs: vec![Output::Other, Output::Other, Output::U64(1), Output::Address(account(1))],
            fee: 0,
        }],
        validator: Some(hex(&invalid_key())),
    };
    assert_eq!(reason(&app, &keyless, &accepted(1)), with("invalid validator public key"));

    let overflow = execution(
        "over",
        vec![transition("records", "f", &[], &[], i64::MAX), transition("records", "g", &[], &[], 1)],
    );
    assert_eq!(reason(&app, &overflow, &accepted(2)), with("transaction fees are out of range"));
    assert_eq!(app.check_fees(&overflow), Err(TxError::FeeOverflow));
    assert_eq!(app.update_validators(&overflow), Err(TxError::FeeOverflow));
    assert_eq!(app.validators().fees(), 0);
}

#[test]
fn the_checks_come_in_their_order() {
    let mut app = app_with_programs();
    app.deliver_tx(&mint(1, 101), &accepted(1));
    // a duplicate comes before a spent input, before a missing program, before the fees
    let tx = execution(
        "all wrong",
        vec![transition("nowhere", "f", &[5, 101, 101], &[], i64::MAX), transition("records", "g", &[], &[], 1)],
    );
    assert_eq!(
        app.check_tx(&tx, &accepted(2)).log,
        "Could not verify transaction: record with serial number 101field in transaction all wrong is duplicate"
    );
    let tx = execution(
        "three wrong",
        vec![transition("nowhere", "f", &[5, 101], &[], i64::MAX), transition("records", "g", &[], &[], 1)],
    );
    assert_eq!(
        app.check_tx(&tx, &accepted(2)).log,
        "Could not verify transaction: input record serial number 5field is unknown or already spent"
    );
    let tx = execution(
        "two wrong",
        vec![transition("nowhere", "f", &[101], &[], i64::MAX), transition("records", "g", &[], &[], 1)],
    );
    assert_eq!(app.check_tx(&tx, &accepted(2)).log, "Could not verify transaction: Program nowhere does not exist");
    let tx = execution(
        "one wrong",
        vec![transition("records", "f", &[101], &[], i64::MAX), transition("records", "g", &[], &[], 1)],
    );
    assert_eq!(app.check_tx(&tx, &accepted(2)).log, "Could not verify transaction: transaction fees are out of range");
    // the first transition that fails gives the reason
    let tx = execution(
        "mixed",
        vec![transition("records", "f", &[], &[], 0), transition("records", "g", &[], &[], 0), transition("nowhere", "h", &[], &[], 0)],
    );
    let proofs = ProofReport { deployment: true, transitions: vec![true, false, true] };
    assert_eq!(app.validate_transaction(&tx, &proofs), Err(TxError::ProofInvalid));
    let proofs = ProofReport { deployment: true, transitions: vec![true, true, true] };
    assert_eq!(app.validate_transaction(&tx, &proofs), Err(TxError::ProgramMissing("nowhere".to_string())));
}

#[test]
fn verify_transition_needs_program_and_proof() {
    let app = app_with_programs();
    let known = transition("records", "mint", &[], &[], 0);
    let unknown = transition("nowhere", "mint", &[], &[], 0);
    assert_eq!(app.verify_transition(&known, true), Ok(()));
    assert_eq!(app.verify_transition(&known, false), Err(TxError::ProofInvalid));
    assert_eq!(app.verify_transition(&unknown, true), Err(TxError::ProgramMissing("nowhere".to_string())));
    assert_eq!(app.verify_transition(&unknown, false), Err(TxError::ProgramMissing("nowhere".to_string())));
}

#[test]
fn a_deployment_pays_its_fee() {
    let mut app = app_with_programs();
    app.deliver_tx(&mint(1, 101), &accepted(1));
    let fee = transition("credits", "fee", &[101], &[(2, 102)], 9);
    let tx = deployment("hello", Some(fee));
    assert_eq!(app.check_tx(&tx, &accepted(1)).priority, 9);
    // the fee transition is verified like any other
    let rejected = ProofReport { deployment: true, transitions: vec![false] };
    assert_eq!(app.validate_transaction(&tx, &rejected), Err(TxError::ProofInvalid));
    assert_eq!(app.deliver_tx(&tx, &accepted(1)).code, 0);
    assert_eq!(app.validators().fees(), 9);
    assert!(!app.records().is_unspent(field(101)));
    assert!(app.records().is_unspent(field(102)));
    assert!(app.programs().contains(&"hello".to_string()));
}

#[test]
fn staking_changes_the_validator_set_at_commit() {
    let mut app = app_with_programs();
    app.info();
    app.init_chain(GenesisState { records: vec![], validators: vec![validator(1, 10), validator(2, 20)] }).unwrap();
    app.begin_block(&RequestBeginBlock { header: header(1, 1), last_commit_info: None });
    assert_eq!(app.deliver_tx(&staking("s1", "stake", 5, 1), &accepted(1)).code, 0);
    assert_eq!(app.deliver_tx(&staking("s2", "unstake", 20, 2), &accepted(1)).code, 0);
    assert_eq!(app.deliver_tx(&staking("s3", "stake", 7, 3), &accepted(1)).code, 0);
    assert_eq!(app.deliver_tx(&staking("s4", "unstake", 1, 2), &accepted(1)).code, 1);
    assert_eq!(
        app.end_block().validator_updates,
        vec![
            ValidatorUpdate { pub_key: pub_key(1), power: 15 },
            ValidatorUpdate { pub_key: pub_key(2), power: 0 },
            ValidatorUpdate { pub_key: pub_key(3), power: 7 },
        ]
    );
    // the live set moves at commit
    assert_eq!(app.validators().validators(), vec![validator(1, 10), validator(2, 20)]);
    app.commit();
    assert_eq!(app.validators().validators(), vec![validator(1, 15), validator(3, 7)]);
    assert!(app.end_block().validator_updates.is_empty());
}

#[test]
fn update_validators_collects_and_queues() {
    let mut app = SnarkVMApp::new();
    let tx = Transaction::Execution {
        id: "s".to_string(),
        transitions: vec![
            Transition {
                program_id: "credits".to_string(),
                function_name: "stake".to_string(),
                serial_numbers: vec![],
                outputs: vec![Output::Other, Output::Other, Output::U64(5), Output::Address(account(1))],
                fee: 3,
            },
            transition("credits", "stake", &[], &[], 0),
        ],
        validator: Some(key(1)),
    };
    // the fees are collected before the changes of stake are read
    assert_eq!(app.update_validators(&tx), Err(TxError::StakeOutputMissing));
    assert_eq!(app.validators().fees(), 3);
    assert!(app.validators().pending_updates().is_empty());
    assert_eq!(app.update_validators(&staking("s", "stake", 5, 1)), Ok(()));
    assert_eq!(app.validators().pending_updates(), vec![validator(1, 5)]);
}

#[test]
fn negative_fees_are_taken_as_the_cast_reads_them() {
    assert_eq!(amount_of(0), 0);
    assert_eq!(amount_of(17), 17);
    assert_eq!(amount_of(i64::MAX), i64::MAX as u64);
    assert_eq!(amount_of(-1), u64::MAX);
    assert_eq!(amount_of(-200), u64::MAX - 199);
    assert_eq!(amount_of(i64::MIN), 1 << 63);
    assert_eq!(signed_of(0), 0);
    assert_eq!(signed_of(i64::MAX as u64), i64::MAX);
    assert_eq!(signed_of(1 << 63), i64::MIN);
    assert_eq!(signed_of(u64::MAX), -1);
    let app = app_with_programs();
    let tx = execution("minting", vec![transition("records", "mint", &[], &[], -1)]);
    assert_eq!(app.check_fees(&tx), Err(TxError::FeeOverflow));
    let tx = execution("minting", vec![transition("records", "mint", &[], &[], -101)]);
    assert_eq!(app.check_fees(&tx), Ok(MAX_FEE_POT));
    assert_eq!(app.check_tx(&tx, &accepted(1)).priority, -101);
}

#[test]
fn spend_and_add_stop_at_the_first_refusal() {
    let mut app = app_with_programs();
    app.deliver_tx(&mint(1, 101), &accepted(1));
    app.deliver_tx(&mint(2, 102), &accepted(1));
    assert_eq!(
        app.spend_input_records(&consume(&[101, 5, 102])),
        Err(TxError::Store(StoreError::UnknownRecord))
    );
    assert!(!app.records().is_unspent(field(101)));
    assert!(app.records().is_unspent(field(102)));
    assert_eq!(
        app.spend_input_records(&consume(&[102, 101])),
        Err(TxError::Store(StoreError::AlreadySpent))
    );
    assert!(!app.records().is_unspent(field(102)));
    let tx = execution("adds", vec![transition("records", "f", &[], &[(3, 103), (1, 104), (4, 105)], 0)]);
    assert_eq!(app.add_output_records(&tx), Err(TxError::Store(StoreError::CommitmentExists)));
    assert!(app.records().is_unspent(field(103)));
    assert!(!app.records().is_unspent(field(105)));
    let tx = execution("adds", vec![transition("records", "f", &[], &[(5, 105), (6, 106)], 0)]);
    assert_eq!(app.add_output_records(&tx), Ok(()));
    assert!(app.records().is_unspent(field(105)));
    assert!(app.records().is_unspent(field(106)));
}

#[test]
fn begin_block_counts_the_votes_that_signed() {
    let mut app = SnarkVMApp::new();
    app.info();
    app.init_chain(GenesisState {
        records: vec![],
        validators: vec![validator(1, 1), validator(2, 1), validator(3, 1), validator(4, 1), validator(5, 1)],
    })
    .unwrap();
    app.begin_block(&RequestBeginBlock {
        header: header(1, 7),
        last_commit_info: Some(vec![
            vote(2, 10, true),
            vote(3, 30, false),
            VoteInfo { validator: None, signed_last_block: true },
            vote(4, -5, true),
            vote(5, 0, true),
            vote(2, 40, true),
        ]),
    });
    assert_eq!(app.validators().height(), 7);
    let outcome = app.commit();
    // 2 voted with 40 in the end, 5 with nothing; 3 did not sign and 4 has no power to count
    assert_eq!(
        outcome.rewards,
        vec![
            Reward { address: address(1), owner: account(1), gates: 50 },
            Reward { address: address(2), owner: account(2), gates: 50 },
            Reward { address: address(5), owner: account(5), gates: 0 },
        ]
    );
}

#[test]
fn rewards_lag_one_block_behind_the_votes() {
    let mut app = SnarkVMApp::new();
    app.info();
    app.init_chain(GenesisState { records: vec![], validators: vec![validator(1, 1), validator(2, 1)] }).unwrap();
    // the first block knows no votes: all goes to its proposer
    app.begin_block(&RequestBeginBlock { header: header(1, 1), last_commit_info: None });
    assert_eq!(app.commit().rewards, vec![Reward { address: address(1), owner: account(1), gates: 100 }]);
    // the second block rewards its own proposer and the voters of the first
    app.begin_block(&RequestBeginBlock { header: header(2, 2), last_commit_info: Some(vec![vote(1, 1, true)]) });
    assert_eq!(
        app.commit().rewards,
        vec![
            Reward { address: address(2), owner: account(2), gates: 50 },
            Reward { address: address(1), owner: account(1), gates: 50 },
        ]
    );
    // a commit without a block in between rewards nobody
    assert!(app.commit().rewards.is_empty());
}

#[test]
fn a_negative_height_is_noted_as_the_cast_reads_it() {
    let mut app = SnarkVMApp::new();
    app.begin_block(&RequestBeginBlock { header: header(1, -1), last_commit_info: None });
    assert_eq!(app.validators().height(), u64::MAX);
}

#[test]
fn queries_read_the_committed_state() {
    let mut app = app_with_programs();
    app.info();
    app.deliver_tx(&mint(1, 101), &accepted(1));
    let records = app.query(Ok(AbciQuery::GetRecords));
    assert_eq!(records.code, 0);
    assert_eq!(records.value, Some(QueryReply::Records(vec![])));
    app.commit();
    app.deliver_tx(&consume(&[101]), &accepted(1));
    assert_eq!(
        app.query(Ok(AbciQuery::GetRecords)).value,
        Some(QueryReply::Records(vec![(field(1), record(101), false)]))
    );
    assert_eq!(
        app.query(Ok(AbciQuery::GetSpentSerialNumbers)).value,
        Some(QueryReply::SpentSerialNumbers(vec![]))
    );
    app.commit();
    assert_eq!(
        app.query(Ok(AbciQuery::GetRecords)).value,
        Some(QueryReply::Records(vec![(field(1), record(101), true)]))
    );
    let spent = app.query(Ok(AbciQuery::GetSpentSerialNumbers));
    assert_eq!(spent.value, Some(QueryReply::SpentSerialNumbers(vec![field(101)])));
    assert!(spent.log.is_empty());
    assert!(spent.info.is_empty());
    assert_eq!(
        app.query(Ok(AbciQuery::GetProgram { program_id: "nowhere".to_string() })).value,
        Some(QueryReply::Program(None))
    );
}

#[test]
fn a_query_that_cannot_be_read_is_an_error() {
    let app = SnarkVMApp::new();
    let response = app.query(Err("unexpected end of file".to_string()));
    assert_eq!(response.code, 1);
    assert_eq!(response.value, None);
    assert_eq!(response.log, "Error running query: unexpected end of file");
    assert_eq!(response.info, response.log);
}

#[test]
fn two_replicas_agree() {
    let run = || {
        let mut app = app_with_programs();
        app.info();
        app.init_chain(GenesisState {
            records: vec![(field(1), record(101)), (field(2), record(102))],
            validators: vec![validator(1, 10), validator(2, 20)],
        })
        .unwrap();
        app.begin_block(&RequestBeginBlock { header: header(1, 1), last_commit_info: Some(vec![vote(2, 20, true)]) });
        let a = app.deliver_tx(&execution("a", vec![transition("records", "f", &[101], &[(3, 103)], 6)]), &accepted(1));
        let b = app.deliver_tx(&staking("b", "stake", 4, 2), &accepted(1));
        let c = app.deliver_tx(&consume(&[101]), &accepted(1));
        let updates = app.end_block();
        let outcome = app.commit();
        (
            (a, b, c, updates, outcome),
            app.records().scan(None, None),
            app.records().scan_spent(),
            app.validators().validators(),
            app.height_file().contents(),
        )
    };
    assert_eq!(run(), run());
}

#[test]
fn the_keys_for_each_transition() {
    let mut app = app_with_programs();
    let other = Transaction::Deployment {
        id: "d".to_string(),
        program: program("hello"),
        verifying_keys: VerifyingKeyMap { bytes: vec![7, 7] },
        fee: None,
    };
    app.deliver_tx(&other, &accepted(0));
    let tx = execution(
        "t",
        vec![
            transition("hello", "f", &[], &[], 0),
            transition("nowhere", "g", &[], &[], 0),
            transition("records", "h", &[], &[], 0),
        ],
    );
    assert_eq!(
        app.verifying_keys_for(&tx),
        vec![Some(VerifyingKeyMap { bytes: vec![7, 7] }), None, Some(keys())]
    );
    assert!(app.verifying_keys_for(&deployment("x", None)).is_empty());
}

#[test]
fn a_transaction_that_cannot_be_decoded_is_rejected() {
    let checked = SnarkVMApp::check_tx_malformed(&"unexpected end of file".to_string());
    assert_eq!(checked.code, 1);
    assert_eq!(checked.priority, 0);
    assert_eq!(checked.log, "Could not verify transaction: unexpected end of file");
    assert_eq!(checked.info, checked.log);
    let delivered = SnarkVMApp::deliver_tx_malformed(&"unexpected end of file".to_string());
    assert_eq!(delivered.code, 1);
    assert!(delivered.events.is_empty());
    assert_eq!(delivered.log, "Error delivering transaction: unexpected end of file");
    assert_eq!(delivered.info, delivered.log);
}

#[test]
fn end_block_names_each_key_once() {
    let mut app = app_with_programs();
    app.info();
    app.init_chain(GenesisState { records: vec![], validators: vec![validator(1, 10), validator(2, 20)] }).unwrap();
    app.begin_block(&RequestBeginBlock { header: header(1, 1), last_commit_info: None });
    for (id, function, amount, n) in
        [("a", "stake", 5, 1), ("b", "stake", 6, 2), ("c", "unstake", 2, 1), ("d", "stake", 1, 3), ("e", "stake", 1, 1)]
    {
        assert_eq!(app.deliver_tx(&staking(id, function, amount, n), &accepted(1)).code, 0);
    }
    let updates = app.end_block().validator_updates;
    assert_eq!(
        updates,
        vec![
            ValidatorUpdate { pub_key: pub_key(1), power: 14 },
            ValidatorUpdate { pub_key: pub_key(2), power: 26 },
            ValidatorUpdate { pub_key: pub_key(3), power: 1 },
        ]
    );
    for i in 0..updates.len() {
        for j in 0..i {
            assert_ne!(updates[i].pub_key, updates[j].pub_key);
        }
    }
}

#[test]
fn a_commit_changes_no_answer_of_the_record_store() {
    let mut app = app_with_programs();
    app.info();
    assert_eq!(app.deliver_tx(&mint(1, 101), &accepted(1)).code, 0);
    assert_eq!(app.deliver_tx(&mint(2, 102), &accepted(1)).code, 0);
    // a record that the block creates and spends is never unspent afterwards
    assert_eq!(app.deliver_tx(&consume(&[102]), &accepted(1)).code, 0);
    assert!(app.records().is_unspent(field(101)));
    assert!(!app.records().is_unspent(field(102)));
    assert!(app.records().scan_spent().is_empty());
    app.commit();
    assert!(app.records().is_unspent(field(101)));
    assert!(!app.records().is_unspent(field(102)));
    assert_eq!(app.records().scan_spent(), vec![field(102)]);
    assert_eq!(app.deliver_tx(&consume(&[101]), &accepted(1)).code, 0);
    app.commit();
    assert!(!app.records().is_unspent(field(101)));
    assert!(!app.records().is_unspent(field(102)));
    assert_eq!(app.records().scan_spent(), vec![field(102), field(101)]);
}

#[test]
fn a_staking_execution_is_described_by_the_name_of_its_validator() {
    let tx = Transaction::Execution { id: "a".to_string(), transitions: vec![], validator: Some("v".to_string()) };
    assert_eq!(tx.describe(), "StakingExecution(a,v)");
    let mut app = app_with_programs();
    // the name is no key: the execution has no transition, so it is refused for that
    assert_eq!(app.deliver_tx(&tx, &accepted(0)).log, "Error delivering transaction: There are no transitions in the execution");
    let named = Transaction::Execution {
        id: "b".to_string(),
        transitions: vec![Transition {
            program_id: "credits".to_string(),
            function_name: "stake".to_string(),
            serial_numbers: vec![],
            outputs: vec![Output::Other, Output::Other, Output::U64(1), Output::Address(account(1))],
            fee: 0,
        }],
        validator: Some("v".to_string()),
    };
    assert_eq!(named.describe(), "StakingExecution(b,v)");
    assert_eq!(app.check_tx(&named, &accepted(1)).log, "Could not verify transaction: invalid validator public key");
    assert_eq!(app.validate_transaction(&named, &accepted(1)), Err(TxError::ValidatorKeyInvalid));
}
