use snarkvm_app::field::Field;
use snarkvm_app::record_store::{Record, RecordStore, StoreError};

fn record(serial: u64, payload: u8) -> Record {
    Record { serial_number: Field::from_u64(serial), ciphertext: vec![payload; 4] }
}

#[test]
fn add_is_staged_until_commit() {
    let mut store = RecordStore::new();
    assert_eq!(store.add(Field::from_u64(1), record(101, 7)), Ok(()));
    assert!(store.scan(None, None).is_empty());
    assert!(store.is_unspent(Field::from_u64(101)));
    store.commit();
    let items = store.scan(None, None);
    assert_eq!(items, vec![(Field::from_u64(1), record(101, 7), false)]);
}

#[test]
fn add_refuses_a_commitment_that_is_staged_or_stored() {
    let mut store = RecordStore::new();
    assert_eq!(store.add(Field::from_u64(1), record(101, 7)), Ok(()));
    assert_eq!(store.add(Field::from_u64(1), record(102, 8)), Err(StoreError::CommitmentExists));
    store.commit();
    assert_eq!(store.add(Field::from_u64(1), record(103, 9)), Err(StoreError::CommitmentExists));
    assert!(!store.is_unspent(Field::from_u64(102)));
    assert!(!store.is_unspent(Field::from_u64(103)));
}

#[test]
fn spend_refuses_unknown_and_spent_records() {
    let mut store = RecordStore::new();
    assert_eq!(store.spend(Field::from_u64(101)), Err(StoreError::UnknownRecord));
    store.add(Field::from_u64(1), record(101, 7)).unwrap();
    assert_eq!(store.spend(Field::from_u64(101)), Ok(()));
    assert_eq!(store.spend(Field::from_u64(101)), Err(StoreError::AlreadySpent));
    assert!(!store.is_unspent(Field::from_u64(101)));
    store.commit();
    assert_eq!(store.spend(Field::from_u64(101)), Err(StoreError::AlreadySpent));
    assert_eq!(store.scan_spent(), vec![Field::from_u64(101)]);
    assert_eq!(store.scan(None, None), vec![(Field::from_u64(1), record(101, 7), true)]);
}

#[test]
fn scan_keeps_to_its_bounds() {
    let mut store = RecordStore::new();
    for c in [5u64, 1, 9, 3] {
        store.add(Field::from_u64(c), record(100 + c, c as u8)).unwrap();
    }
    store.commit();
    let all: Vec<Field> = store.scan(None, None).into_iter().map(|item| item.0).collect();
    assert_eq!(all, vec![Field::from_u64(5), Field::from_u64(1), Field::from_u64(9), Field::from_u64(3)]);
    let some: Vec<Field> = store
        .scan(Some(Field::from_u64(3)), Some(Field::from_u64(9)))
        .into_iter()
        .map(|item| item.0)
        .collect();
    assert_eq!(some, vec![Field::from_u64(5), Field::from_u64(3)]);
    let high = Field { w0: 0, w1: 1, w2: 0, w3: 0 };
    assert!(Field::from_u64(u64::MAX).below(&high));
    assert!(!high.below(&Field::from_u64(u64::MAX)));
}

#[test]
fn commit_empties_the_staging() {
    let mut store = RecordStore::new();
    store.add(Field::from_u64(1), record(101, 7)).unwrap();
    store.add(Field::from_u64(2), record(102, 8)).unwrap();
    store.spend(Field::from_u64(101)).unwrap();
    store.commit();
    // what was staged is committed: a second commit changes nothing
    let before = (store.scan(None, None), store.scan_spent());
    store.commit();
    assert_eq!((store.scan(None, None), store.scan_spent()), before);
    assert_eq!(before.0.len(), 2);
    assert_eq!(before.1, vec![Field::from_u64(101)]);
}

#[test]
fn a_scan_by_pages_sees_every_record_once() {
    let mut store = RecordStore::new();
    for c in 1..=7u64 {
        store.add(Field::from_u64(c), record(100 + c, c as u8)).unwrap();
    }
    store.spend(Field::from_u64(103)).unwrap();
    store.commit();
    store.add(Field::from_u64(8), record(108, 8)).unwrap();
    assert_eq!(store.len(), 7);
    let mut seen = Vec::new();
    let mut start = 0;
    loop {
        let page = store.scan_page(start, 3);
        if page.is_empty() {
            break;
        }
        start += page.len();
        seen.extend(page);
    }
    assert_eq!(seen, store.scan(None, None));
    assert_eq!(seen.len(), 7);
    assert_eq!(store.scan_page(5, 3).len(), 2);
    assert_eq!(store.scan_page(2, 1), vec![(Field::from_u64(3), record(103, 3), true)]);
    assert!(store.scan_page(7, 3).is_empty());
    assert!(store.scan_page(usize::MAX, usize::MAX).is_empty());
    assert_eq!(store.scan_page(0, usize::MAX).len(), 7);
    assert!(store.scan_page(0, 0).is_empty());
}

#[test]
fn records_are_restored_from_what_the_store_holds() {
    let mut store = RecordStore::new();
    for (c, sn) in [(1, 101), (2, 102), (3, 103)] {
        assert_eq!(store.add(Field::from_u64(c), record(sn, c as u8)), Ok(()));
    }
    store.commit();
    assert_eq!(store.spend(Field::from_u64(102)), Ok(()));
    store.commit();
    let records: Vec<(Field, Record)> = store.scan(None, None).into_iter().map(|(c, r, _)| (c, r)).collect();
    let again = RecordStore::restore(records, store.scan_spent()).unwrap();
    assert_eq!(again.scan(None, None), store.scan(None, None));
    assert_eq!(again.scan_spent(), vec![Field::from_u64(102)]);
    assert!(again.is_unspent(Field::from_u64(101)));
    assert!(!again.is_unspent(Field::from_u64(102)));
    assert!(again.is_unspent(Field::from_u64(103)));
    // nothing is staged in it
    let mut again = again;
    again.commit();
    assert_eq!(again.scan(None, None), store.scan(None, None));
    let empty = RecordStore::restore(vec![], vec![]).unwrap();
    assert!(empty.scan(None, None).is_empty());
    assert!(empty.scan_spent().is_empty());
}

#[test]
fn restore_refuses_what_the_store_would_not_have_taken() {
    let records = vec![(Field::from_u64(1), record(101, 1)), (Field::from_u64(2), record(102, 2))];
    let twice = vec![(Field::from_u64(1), record(101, 1)), (Field::from_u64(1), record(102, 2))];
    assert_eq!(RecordStore::restore(twice, vec![]).err(), Some(StoreError::CommitmentExists));
    assert_eq!(
        RecordStore::restore(records.clone(), vec![Field::from_u64(103)]).err(),
        Some(StoreError::UnknownRecord)
    );
    assert_eq!(
        RecordStore::restore(records.clone(), vec![Field::from_u64(101), Field::from_u64(101)]).err(),
        Some(StoreError::AlreadySpent)
    );
    // the records are looked at before the spends
    let twice = vec![(Field::from_u64(1), record(101, 1)), (Field::from_u64(1), record(102, 2))];
    assert_eq!(RecordStore::restore(twice, vec![Field::from_u64(9)]).err(), Some(StoreError::CommitmentExists));
    assert!(RecordStore::restore(records, vec![Field::from_u64(102), Field::from_u64(101)]).is_ok());
}
