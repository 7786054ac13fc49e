use snarkvm_app::program_store::{Program, ProgramError, ProgramStore, VerifyingKeyMap};

fn program(id: &str, source: &str) -> Program {
    Program { id: id.to_string(), source: source.to_string() }
}

fn keys(n: u8) -> VerifyingKeyMap {
    VerifyingKeyMap { bytes: vec![n; 5] }
}

#[test]
fn a_new_store_holds_nothing() {
    let store = ProgramStore::new();
    assert!(!store.contains(&"hello".to_string()));
    assert_eq!(store.get(&"hello".to_string()), None);
}

#[test]
fn a_stored_program_is_found_with_its_keys() {
    let mut store = ProgramStore::new();
    let hello = program("hello", "program hello;");
    assert_eq!(store.add(&hello.id, &hello, &keys(1)), Ok(()));
    assert!(store.contains(&"hello".to_string()));
    assert!(!store.contains(&"hell".to_string()));
    assert_eq!(store.get(&"hello".to_string()), Some((hello, keys(1))));
}

#[test]
fn an_identifier_is_taken_once() {
    let mut store = ProgramStore::new();
    let first = program("hello", "first");
    let second = program("hello", "second");
    assert_eq!(store.add(&first.id, &first, &keys(1)), Ok(()));
    assert_eq!(store.add(&second.id, &second, &keys(2)), Err(ProgramError::ProgramExists));
    assert_eq!(store.get(&"hello".to_string()), Some((first, keys(1))));
}

#[test]
fn programs_do_not_disturb_one_another() {
    let mut store = ProgramStore::new();
    let a = program("a", "program a;");
    let b = program("b", "program b;");
    store.add(&a.id, &a, &keys(1)).unwrap();
    store.add(&b.id, &b, &keys(2)).unwrap();
    assert_eq!(store.get(&"a".to_string()), Some((a, keys(1))));
    assert_eq!(store.get(&"b".to_string()), Some((b.clone(), keys(2))));
    // the key under which a program is stored is the one it is found under
    let mut store = ProgramStore::new();
    store.add(&"alias".to_string(), &b, &keys(3)).unwrap();
    assert!(store.contains(&"alias".to_string()));
    assert!(!store.contains(&"b".to_string()));
    assert_eq!(store.get(&"alias".to_string()), Some((b, keys(3))));
}

#[test]
fn entries_lists_the_programs_in_their_order() {
    let mut store = ProgramStore::new();
    assert!(store.entries().is_empty());
    let a = program("a", "program a;");
    let b = program("b", "program b;");
    store.add(&a.id, &a, &keys(1)).unwrap();
    store.add(&"alias".to_string(), &b, &keys(2)).unwrap();
    assert_eq!(
        store.entries(),
        vec![("a".to_string(), a, keys(1)), ("alias".to_string(), b, keys(2))]
    );
}

#[test]
fn programs_are_restored_from_what_the_store_holds() {
    let mut store = ProgramStore::new();
    let hello = program("hello", "program hello;");
    let other = program("other", "program other;");
    assert_eq!(store.add(&hello.id, &hello, &keys(1)), Ok(()));
    assert_eq!(store.add(&other.id, &other, &keys(2)), Ok(()));
    let again = ProgramStore::restore(store.entries()).unwrap();
    assert_eq!(again.entries(), store.entries());
    assert_eq!(again.get(&"hello".to_string()), Some((hello.clone(), keys(1))));
    assert_eq!(again.get(&"other".to_string()), Some((other, keys(2))));
    assert!(ProgramStore::restore(vec![]).unwrap().entries().is_empty());
    let twice = vec![("hello".to_string(), hello.clone(), keys(1)), ("hello".to_string(), hello, keys(3))];
    assert_eq!(ProgramStore::restore(twice).err(), Some(ProgramError::ProgramExists));
}
