use counter_service::store::CounterStore;

fn ready_store() -> CounterStore {
    let mut store = CounterStore::new();
    store.initialize().unwrap();
    store
}

#[test]
fn round_trip_set_then_get() {
    let mut store = ready_store();
    let rec = store
        .set("orders".to_string(), "processed".to_string(), 42)
        .unwrap();
    assert_eq!(rec.namespace, "orders");
    assert_eq!(rec.name, "processed");
    assert_eq!(rec.count, 42);
    let found = store
        .get(&"orders".to_string(), &"processed".to_string())
        .unwrap()
        .unwrap();
    assert_eq!(found.namespace, "orders");
    assert_eq!(found.name, "processed");
    assert_eq!(found.count, 42);
}

#[test]
fn round_trip_extreme_counts() {
    let mut store = ready_store();
    store.set("n".to_string(), "min".to_string(), i64::MIN).unwrap();
    store.set("n".to_string(), "max".to_string(), i64::MAX).unwrap();
    assert_eq!(
        store.get(&"n".to_string(), &"min".to_string()).unwrap().unwrap().count,
        i64::MIN
    );
    assert_eq!(
        store.get(&"n".to_string(), &"max".to_string()).unwrap().unwrap().count,
        i64::MAX
    );
}

#[test]
fn overwrite_replaces_value() {
    let mut store = ready_store();
    store.set("ns".to_string(), "c".to_string(), 5).unwrap();
    store.set("ns".to_string(), "c".to_string(), 7).unwrap();
    let found = store.get(&"ns".to_string(), &"c".to_string()).unwrap().unwrap();
    assert_eq!(found.count, 7);
}

#[test]
fn get_of_never_set_key_finds_nothing() {
    let store = ready_store();
    let found = store
        .get(&"missing-ns".to_string(), &"missing-name".to_string())
        .unwrap();
    assert!(found.is_none());
}

#[test]
fn keys_are_isolated() {
    let mut store = ready_store();
    store.set("a".to_string(), "x".to_string(), 1).unwrap();
    store.set("b".to_string(), "x".to_string(), 2).unwrap();
    assert_eq!(store.get(&"a".to_string(), &"x".to_string()).unwrap().unwrap().count, 1);
    assert_eq!(store.get(&"b".to_string(), &"x".to_string()).unwrap().unwrap().count, 2);
    store.set("a".to_string(), "y".to_string(), 3).unwrap();
    assert_eq!(store.get(&"a".to_string(), &"x".to_string()).unwrap().unwrap().count, 1);
}

#[test]
fn serialized_writes_leave_one_submitted_value() {
    let submitted = vec![11i64, 22, 33, 44, 55];
    // One serialization order of five contending writers.
    let order = [3usize, 0, 4, 1, 2];
    let mut store = ready_store();
    for &i in order.iter() {
        store.set("ns".to_string(), "c".to_string(), submitted[i]).unwrap();
    }
    let found = store.get(&"ns".to_string(), &"c".to_string()).unwrap().unwrap();
    assert!(submitted.contains(&found.count));
}

#[test]
fn initialize_twice_keeps_data() {
    let mut store = CounterStore::new();
    store.initialize().unwrap();
    store.set("ns".to_string(), "kept".to_string(), 9).unwrap();
    store.initialize().unwrap();
    let found = store.get(&"ns".to_string(), &"kept".to_string()).unwrap().unwrap();
    assert_eq!(found.count, 9);
}
