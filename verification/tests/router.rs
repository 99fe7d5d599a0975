use cronserve::router::{
    echo, finish_user, greeting, plan_user, reply_status, route, Method, Params, Route,
    ServerConfig, UserPlan, UserReply,
};
use cronserve::store::{find_first_by_id, DataHandle, Record};

#[test]
fn routes_dispatch_on_method_and_path() {
    assert_eq!(route(Method::Get, b"/"), Route::Root);
    assert_eq!(route(Method::Post, b"/echo"), Route::Echo);
    assert_eq!(route(Method::Get, b"/user"), Route::User);
    assert_eq!(route(Method::Post, b"/"), Route::Unknown);
    assert_eq!(route(Method::Get, b"/echo"), Route::Unknown);
    assert_eq!(route(Method::Post, b"/user"), Route::Unknown);
    assert_eq!(route(Method::Get, b"/nope"), Route::Unknown);
    assert_eq!(route(Method::Get, b""), Route::Unknown);
}

#[test]
fn greeting_is_fixed() {
    let r = greeting();
    assert_eq!(r.status, 200);
    assert_eq!(r.body, b"Hello, world!\n".to_vec());
}

#[test]
fn echo_returns_valid_text_unchanged() {
    // Echo scenario: a text body comes back as-is with 200.
    let r = echo(b"hello");
    assert_eq!(r.status, 200);
    assert_eq!(r.body, b"hello".to_vec());
    let r = echo("grüße".as_bytes());
    assert_eq!(r.status, 200);
    assert_eq!(r.body, "grüße".as_bytes().to_vec());
    let r = echo(b"");
    assert_eq!(r.status, 200);
    assert_eq!(r.body, Vec::<u8>::new());
}

#[test]
fn echo_rejects_invalid_text() {
    // A lone continuation byte is not valid text: 400, empty body.
    let r = echo(&[0x80]);
    assert_eq!(r.status, 400);
    assert!(r.body.is_empty());
    let r = echo(&[0xC3]); // truncated two-byte sequence
    assert_eq!(r.status, 400);
    assert!(r.body.is_empty());
}

#[test]
fn params_decode_and_last_value_wins() {
    let p = Params::parse(b"id=abc123&x=1");
    assert_eq!(p.get(b"id"), Some(&b"abc123".to_vec()));
    assert_eq!(p.get(b"x"), Some(&b"1".to_vec()));
    assert_eq!(p.get(b"y"), None);
    let p = Params::parse(b"a=1&a=2");
    assert_eq!(p.get(b"a"), Some(&b"2".to_vec()));
    let p = Params::parse(b"flag");
    assert_eq!(p.get(b"flag"), Some(&Vec::new()));
    let p = Params::parse(b"");
    assert_eq!(p.get(b""), Some(&Vec::new()));
    assert_eq!(p.get(b"id"), None);
}

fn store() -> Vec<Record> {
    vec![
        Record { id: b"abc123".to_vec(), body: b"{\"name\":\"ada\"}".to_vec() },
        Record { id: b"def456".to_vec(), body: b"{\"name\":\"bob\"}".to_vec() },
    ]
}

fn run_user_query(handle: DataHandle, records: &Vec<Record>, query: &[u8]) -> UserReply {
    let params = Params::parse(query);
    match plan_user(&handle, &params) {
        UserPlan::BadRequest => UserReply::MissingId,
        UserPlan::Unavailable => UserReply::Unavailable,
        UserPlan::Lookup(id) => {
            let found = find_first_by_id(records, id.as_slice()).map(|i| records[i].clone());
            finish_user(found)
        },
    }
}

#[test]
fn user_query_round_trip() {
    // Query-by-id round-trip: a stored record comes back exactly.
    let records = store();
    let handle = DataHandle::new(true);
    let reply = run_user_query(handle, &records, b"id=abc123");
    assert_eq!(reply, UserReply::Found(records[0].clone()));
    assert_eq!(reply_status(&reply), 200);
}

#[test]
fn user_query_unknown_id_is_not_found() {
    let records = store();
    let reply = run_user_query(DataHandle::new(true), &records, b"id=doesnotexist");
    assert_eq!(reply, UserReply::NotFound);
    assert_eq!(reply_status(&reply), 404);
}

#[test]
fn user_query_without_id_is_bad_request() {
    let records = store();
    let reply = run_user_query(DataHandle::new(true), &records, b"");
    assert_eq!(reply, UserReply::MissingId);
    assert_eq!(reply_status(&reply), 400);
}

#[test]
fn user_query_on_failed_handle_is_unavailable() {
    // A handle whose construction failed answers every query with a
    // server error, never a crash.
    let records = store();
    let reply = run_user_query(DataHandle::new(false), &records, b"id=abc123");
    assert_eq!(reply, UserReply::Unavailable);
    assert_eq!(reply_status(&reply), 503);
}

#[test]
fn find_first_takes_the_first_match() {
    let mut records = store();
    records.push(Record { id: b"abc123".to_vec(), body: b"later".to_vec() });
    assert_eq!(find_first_by_id(&records, b"abc123"), Some(0));
    assert_eq!(find_first_by_id(&records, b"def456"), Some(1));
    assert_eq!(find_first_by_id(&records, b"zzz"), None);
}

#[test]
fn server_config_defaults() {
    let cfg = ServerConfig::with_default_addr(DataHandle::new(true));
    assert_eq!(cfg.host, "127.0.0.1");
    assert_eq!(cfg.port, "3000");
    assert!(cfg.handle.available);
    let cfg = ServerConfig::new("0.0.0.0".to_owned(), "8080".to_owned(), DataHandle::new(false));
    assert_eq!(cfg.host, "0.0.0.0");
    assert!(!cfg.handle.available);
}
