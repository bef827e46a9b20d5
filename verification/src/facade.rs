//! The HTTP façade: a stateless translation between store outcomes and HTTP
//! replies.
//!
//! The wire contract: a successful write or read answers 200 with
//! `{"count":<value>}`; a read of an absent counter answers 404 with
//! `{"error":"Counter not found"}`; a backend failure answers 500 with the
//! backend's message in the error body; a malformed path segment or body is
//! rejected with 400 before the store is touched.

use vstd::prelude::*;
use vstd::utf8::{encode_scalar, encode_utf8};
use crate::json::{
    count_body_bytes, count_body_int, error_body_bytes, parse_count_body, render_count_body,
    render_error_body,
};
use crate::store::{get_spec, set_spec, CounterStore, StoreError, StoredCounter};

verus! {

/// An HTTP reply as the façade produces it: a status code and a JSON body.
pub struct HttpReply {
    pub status: u16,
    pub body: Vec<u8>,
}

/// The bytes of the message `Counter not found`.
pub open spec fn not_found_message() -> Seq<u8> {
    seq![
        ('C' as u8),
        ('o' as u8),
        ('u' as u8),
        ('n' as u8),
        ('t' as u8),
        ('e' as u8),
        ('r' as u8),
        (' ' as u8),
        ('n' as u8),
        ('o' as u8),
        ('t' as u8),
        (' ' as u8),
        ('f' as u8),
        ('o' as u8),
        ('u' as u8),
        ('n' as u8),
        ('d' as u8),
    ]
}

/// The bytes of the message `Invalid request`.
pub open spec fn bad_request_message() -> Seq<u8> {
    seq![
        ('I' as u8),
        ('n' as u8),
        ('v' as u8),
        ('a' as u8),
        ('l' as u8),
        ('i' as u8),
        ('d' as u8),
        (' ' as u8),
        ('r' as u8),
        ('e' as u8),
        ('q' as u8),
        ('u' as u8),
        ('e' as u8),
        ('s' as u8),
        ('t' as u8),
    ]
}

/// A UTF-8 encoding is empty exactly when the encoded text is empty.
proof fn lemma_encode_utf8_empty(s: Seq<char>)
    ensures
        (encode_utf8(s).len() == 0) == (s.len() == 0),
{
    if s.len() > 0 {
        assert(encode_utf8(s) == encode_scalar(s[0] as u32) + encode_utf8(s.drop_first()));
        assert(encode_scalar(s[0] as u32).len() >= 1);
    }
}

/// True when both path segments are non-empty, as the store requires.
pub fn valid_key(namespace: &str, name: &str) -> (r: bool)
    ensures
        r == (namespace@.len() > 0 && name@.len() > 0),
{
    proof {
        lemma_encode_utf8_empty(namespace@);
        lemma_encode_utf8_empty(name@);
    }
    namespace.as_bytes().len() > 0 && name.as_bytes().len() > 0
}

/// The 404 reply for a read of an absent counter.
pub fn not_found_reply() -> (r: HttpReply)
    ensures
        r.status == 404,
        r.body@ == error_body_bytes(not_found_message()),
{
    let mut m: Vec<u8> = Vec::new();
    m.push('C' as u8);
    m.push('o' as u8);
    m.push('u' as u8);
    m.push('n' as u8);
    m.push('t' as u8);
    m.push('e' as u8);
    m.push('r' as u8);
    m.push(' ' as u8);
    m.push('n' as u8);
    m.push('o' as u8);
    m.push('t' as u8);
    m.push(' ' as u8);
    m.push('f' as u8);
    m.push('o' as u8);
    m.push('u' as u8);
    m.push('n' as u8);
    m.push('d' as u8);
    proof {
        assert(m@ =~= not_found_message());
    }
    let body = render_error_body(m.as_slice());
    HttpReply { status: 404, body }
}

/// The 400 reply for a malformed path segment or request body.
pub fn bad_request_reply() -> (r: HttpReply)
    ensures
        r.status == 400,
        r.body@ == error_body_bytes(bad_request_message()),
{
    let mut m: Vec<u8> = Vec::new();
    m.push('I' as u8);
    m.push('n' as u8);
    m.push('v' as u8);
    m.push('a' as u8);
    m.push('l' as u8);
    m.push('i' as u8);
    m.push('d' as u8);
    m.push(' ' as u8);
    m.push('r' as u8);
    m.push('e' as u8);
    m.push('q' as u8);
    m.push('u' as u8);
    m.push('e' as u8);
    m.push('s' as u8);
    m.push('t' as u8);
    proof {
        assert(m@ =~= bad_request_message());
    }
    let body = render_error_body(m.as_slice());
    HttpReply { status: 400, body }
}

/// The 500 reply for a backend failure, carrying the backend's message.
pub fn store_error_reply(e: &StoreError) -> (r: HttpReply)
    ensures
        r.status == 500,
        r.body@ == error_body_bytes(encode_utf8(e.message_view())),
{
    let msg = e.message();
    let body = render_error_body(msg.as_str().as_bytes());
    HttpReply { status: 500, body }
}

/// Maps the outcome of an upsert of `value` to the HTTP reply: 200 echoing
/// the submitted count on success, 500 with the backend message on failure.
pub fn set_reply(value: i64, outcome: Result<(), StoreError>) -> (r: HttpReply)
    ensures
        match outcome {
            Ok(_) => r.status == 200 && r.body@ == count_body_bytes(value as int),
            Err(e) => r.status == 500 && r.body@ == error_body_bytes(
                encode_utf8(e.message_view()),
            ),
        },
{
    match outcome {
        Ok(_) => HttpReply { status: 200, body: render_count_body(value) },
        Err(e) => store_error_reply(&e),
    }
}

/// Maps the outcome of a lookup to the HTTP reply: 200 with the stored count,
/// 404 when no record exists, 500 with the backend message on failure.
pub fn get_reply(outcome: Result<Option<StoredCounter>, StoreError>) -> (r: HttpReply)
    ensures
        match outcome {
            Ok(found) => match found {
                Some(rec) => r.status == 200 && r.body@ == count_body_bytes(rec.count as int),
                None => r.status == 404 && r.body@ == error_body_bytes(not_found_message()),
            },
            Err(e) => r.status == 500 && r.body@ == error_body_bytes(
                encode_utf8(e.message_view()),
            ),
        },
{
    match outcome {
        Ok(Some(rec)) => HttpReply { status: 200, body: render_count_body(rec.count) },
        Ok(None) => not_found_reply(),
        Err(e) => store_error_reply(&e),
    }
}

/// Handles `POST /api/{namespace}/{counter}`: validates the path segments and
/// the body, performs the atomic upsert, and answers 200 echoing the submitted
/// count. An empty segment or a malformed body answers 400 and leaves the
/// store untouched.
pub fn handle_set(store: &mut CounterStore, namespace: String, name: String, body: &[u8]) -> (r:
    HttpReply)
    requires
        old(store).wf(),
        old(store).is_ready(),
    ensures
        final(store).wf(),
        final(store).is_ready(),
        ({
            let parsed = count_body_int(body@);
            let valid = namespace@.len() > 0 && name@.len() > 0 && parsed is Some;
            &&& (valid ==> final(store)@ == set_spec(old(store)@, namespace@, name@, parsed->0)
                && r.status == 200 && r.body@ == count_body_bytes(parsed->0))
            &&& (!valid ==> final(store)@ == old(store)@ && r.status == 400 && r.body@
                == error_body_bytes(bad_request_message()))
        }),
{
    if !valid_key(namespace.as_str(), name.as_str()) {
        return bad_request_reply();
    }
    match parse_count_body(body) {
        Some(value) => match store.set(namespace, name, value) {
            Ok(rec) => set_reply(rec.count, Ok(())),
            Err(e) => set_reply(value, Err(e)),
        },
        None => bad_request_reply(),
    }
}

/// Handles `GET /api/{namespace}/{counter}`: answers 200 with the stored
/// count, or 404 when no counter was ever set under the key. An empty segment
/// answers 400 without touching the store.
pub fn handle_get(store: &CounterStore, namespace: &String, name: &String) -> (r: HttpReply)
    requires
        store.wf(),
        store.is_ready(),
    ensures
        ({
            let found = get_spec(store@, namespace@, name@);
            let valid = namespace@.len() > 0 && name@.len() > 0;
            &&& (valid && found is Some ==> r.status == 200 && r.body@ == count_body_bytes(
                found->0,
            ))
            &&& (valid && found is None ==> r.status == 404 && r.body@ == error_body_bytes(
                not_found_message(),
            ))
            &&& (!valid ==> r.status == 400 && r.body@ == error_body_bytes(bad_request_message()))
        }),
{
    if !valid_key(namespace.as_str(), name.as_str()) {
        return bad_request_reply();
    }
    match store.get(namespace, name) {
        Ok(Some(rec)) => HttpReply { status: 200, body: render_count_body(rec.count) },
        Ok(None) => not_found_reply(),
        Err(e) => store_error_reply(&e),
    }
}

} // verus!
