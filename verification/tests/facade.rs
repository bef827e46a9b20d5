use counter_service::facade::{
    bad_request_reply, get_reply, handle_get, handle_set, not_found_reply, set_reply, valid_key,
};
use counter_service::store::{CounterStore, StoreError, StoredCounter};

fn ready_store() -> CounterStore {
    let mut store = CounterStore::new();
    store.initialize().unwrap();
    store
}

#[test]
fn post_then_get_scenario() {
    let mut store = ready_store();

    let posted = handle_set(
        &mut store,
        "orders".to_string(),
        "processed".to_string(),
        b"{\"count\": 42}",
    );
    assert_eq!(posted.status, 200);
    assert_eq!(posted.body, b"{\"count\":42}".to_vec());

    let read = handle_get(&store, &"orders".to_string(), &"processed".to_string());
    assert_eq!(read.status, 200);
    assert_eq!(read.body, b"{\"count\":42}".to_vec());

    let missing = handle_get(&store, &"orders".to_string(), &"unknown".to_string());
    assert_eq!(missing.status, 404);
    assert_eq!(missing.body, b"{\"error\":\"Counter not found\"}".to_vec());
}

#[test]
fn post_overwrites_earlier_value() {
    let mut store = ready_store();
    handle_set(&mut store, "ns".to_string(), "c".to_string(), b"{\"count\":5}");
    handle_set(&mut store, "ns".to_string(), "c".to_string(), b"{\"count\":7}");
    let read = handle_get(&store, &"ns".to_string(), &"c".to_string());
    assert_eq!(read.status, 200);
    assert_eq!(read.body, b"{\"count\":7}".to_vec());
}

#[test]
fn malformed_body_is_rejected_before_the_store() {
    let mut store = ready_store();
    let reply = handle_set(
        &mut store,
        "ns".to_string(),
        "c".to_string(),
        b"{\"count\": \"many\"}",
    );
    assert_eq!(reply.status, 400);
    assert_eq!(reply.body, b"{\"error\":\"Invalid request\"}".to_vec());
    let read = handle_get(&store, &"ns".to_string(), &"c".to_string());
    assert_eq!(read.status, 404);
}

#[test]
fn empty_path_segment_is_rejected() {
    let mut store = ready_store();
    let reply = handle_set(&mut store, "".to_string(), "c".to_string(), b"{\"count\":1}");
    assert_eq!(reply.status, 400);
    let read = handle_get(&store, &"ns".to_string(), &"".to_string());
    assert_eq!(read.status, 400);
}

#[test]
fn valid_key_requires_both_segments() {
    assert!(valid_key("orders", "processed"));
    assert!(!valid_key("", "processed"));
    assert!(!valid_key("orders", ""));
    assert!(!valid_key("", ""));
}

#[test]
fn set_reply_maps_outcomes() {
    let ok = set_reply(42, Ok(()));
    assert_eq!(ok.status, 200);
    assert_eq!(ok.body, b"{\"count\":42}".to_vec());

    let err = set_reply(42, Err(StoreError::Unavailable("db down".to_string())));
    assert_eq!(err.status, 500);
    assert_eq!(err.body, b"{\"error\":\"db down\"}".to_vec());
}

#[test]
fn get_reply_maps_outcomes() {
    let found = get_reply(Ok(Some(StoredCounter {
        namespace: "a".to_string(),
        name: "b".to_string(),
        count: -3,
    })));
    assert_eq!(found.status, 200);
    assert_eq!(found.body, b"{\"count\":-3}".to_vec());

    let absent = get_reply(Ok(None));
    assert_eq!(absent.status, 404);
    assert_eq!(absent.body, b"{\"error\":\"Counter not found\"}".to_vec());

    let io = get_reply(Err(StoreError::Io("disk \"full\"".to_string())));
    assert_eq!(io.status, 500);
    assert_eq!(io.body, b"{\"error\":\"disk \\\"full\\\"\"}".to_vec());

    let constraint = get_reply(Err(StoreError::ConstraintViolation("dup".to_string())));
    assert_eq!(constraint.status, 500);
    assert_eq!(constraint.body, b"{\"error\":\"dup\"}".to_vec());
}

#[test]
fn canned_replies_have_the_documented_bodies() {
    let nf = not_found_reply();
    assert_eq!(nf.status, 404);
    assert_eq!(nf.body, b"{\"error\":\"Counter not found\"}".to_vec());

    let bad = bad_request_reply();
    assert_eq!(bad.status, 400);
    assert_eq!(bad.body, b"{\"error\":\"Invalid request\"}".to_vec());
}
