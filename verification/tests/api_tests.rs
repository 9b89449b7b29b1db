use grocery_store::api::handle_get;
use grocery_store::api::handle_post;
use grocery_store::api::handle_request;
use grocery_store::api::Method;
use grocery_store::store::Store;

fn post(store: &mut Store, body: &str) -> u16 {
    handle_post(store, &body.as_bytes().to_vec()).status
}

fn get_body(store: &Store) -> String {
    String::from_utf8(handle_get(store).body).unwrap()
}

#[test]
fn empty_store_get() {
    let store = Store::new();
    let r = handle_get(&store);
    assert_eq!(r.status, 200);
    assert_eq!(get_body(&store), "{}");
}

#[test]
fn scenario_sequence() {
    let mut store = Store::new();
    assert_eq!(get_body(&store), "{}");
    assert_eq!(post(&mut store, "{\"name\":\"milk\",\"quantity\":2}"), 201);
    assert_eq!(get_body(&store), "{\"milk\":2}");
    assert_eq!(post(&mut store, "{\"name\":\"milk\",\"quantity\":5}"), 201);
    assert_eq!(get_body(&store), "{\"milk\":5}");
    let huge = vec![b' '; 20000];
    let r = handle_post(&mut store, &huge);
    assert_eq!(r.status, 413);
    assert_eq!(get_body(&store), "{\"milk\":5}");
}

#[test]
fn round_trip_single() {
    let mut store = Store::new();
    assert_eq!(post(&mut store, "{\"name\":\"eggs\",\"quantity\":12}"), 201);
    assert_eq!(get_body(&store), "{\"eggs\":12}");
}

#[test]
fn confirmation_text_on_created() {
    let mut store = Store::new();
    let r = handle_post(&mut store, &b"{\"name\":\"a\",\"quantity\":1}".to_vec());
    assert_eq!(r.status, 201);
    assert_eq!(
        String::from_utf8(r.body).unwrap(),
        "Added items to the grocery list"
    );
}

#[test]
fn overwrite_keeps_one_entry() {
    let mut store = Store::new();
    assert_eq!(post(&mut store, "{\"name\":\"milk\",\"quantity\":1}"), 201);
    assert_eq!(post(&mut store, "{\"name\":\"milk\",\"quantity\":7}"), 201);
    assert_eq!(get_body(&store), "{\"milk\":7}");
}

#[test]
fn disjoint_keys_all_appear() {
    let mut store = Store::new();
    assert_eq!(post(&mut store, "{\"name\":\"a\",\"quantity\":1}"), 201);
    assert_eq!(post(&mut store, "{\"name\":\"b\",\"quantity\":2}"), 201);
    assert_eq!(post(&mut store, "{\"name\":\"c\",\"quantity\":3}"), 201);
    assert_eq!(get_body(&store), "{\"a\":1,\"b\":2,\"c\":3}");
}

#[test]
fn size_guard_rejects_oversized() {
    let mut store = Store::new();
    // A well-formed body padded with trailing whitespace to just over the
    // limit must be refused without being decoded.
    let mut body = b"{\"name\":\"x\",\"quantity\":1}".to_vec();
    body.resize(16385, b' ');
    let r = handle_post(&mut store, &body);
    assert_eq!(r.status, 413);
    assert_eq!(get_body(&store), "{}");
}

#[test]
fn size_limit_is_inclusive() {
    let mut store = Store::new();
    let mut body = b"{\"name\":\"x\",\"quantity\":1}".to_vec();
    body.resize(16384, b' ');
    let r = handle_post(&mut store, &body);
    assert_eq!(r.status, 201);
    assert_eq!(get_body(&store), "{\"x\":1}");
}

#[test]
fn malformed_guard_no_mutation() {
    let mut store = Store::new();
    assert_eq!(post(&mut store, "not json at all"), 400);
    assert_eq!(post(&mut store, "{\"name\":\"x\"}"), 400);
    assert_eq!(post(&mut store, "{\"quantity\":3}"), 400);
    assert_eq!(post(&mut store, "{\"name\":5,\"quantity\":3}"), 400);
    assert_eq!(post(&mut store, "{\"name\":\"x\",\"quantity\":\"3\"}"), 400);
    assert_eq!(post(&mut store, "{}"), 400);
    assert_eq!(post(&mut store, ""), 400);
    // A raw byte that is not valid UTF-8 makes the body not JSON at all.
    let mut bad = b"{\"name\":\"".to_vec();
    bad.push(0xff);
    bad.extend_from_slice(b"\",\"quantity\":1}");
    let r = handle_post(&mut store, &bad);
    assert_eq!(r.status, 400);
    assert_eq!(get_body(&store), "{}");
}

#[test]
fn get_renders_posted_escapes_as_valid_json() {
    let mut store = Store::new();
    assert_eq!(post(&mut store, "{\"name\":\"a\\\"b\",\"quantity\":1}"), 201);
    assert_eq!(get_body(&store), "{\"a\\\"b\":1}");
    assert_eq!(post(&mut store, "{\"name\":\"caf\u{e9}\",\"quantity\":2}"), 201);
    assert_eq!(get_body(&store), "{\"a\\\"b\":1,\"caf\u{e9}\":2}");
}

#[test]
fn routing() {
    let mut store = Store::new();
    let path = b"/v1/groceries".to_vec();
    let other = b"/v1/pantry".to_vec();
    let body = b"{\"name\":\"x\",\"quantity\":1}".to_vec();
    let r = handle_request(&mut store, Method::Post, &other, &body);
    assert_eq!(r.status, 404);
    let r = handle_request(&mut store, Method::Other, &path, &Vec::new());
    assert_eq!(r.status, 405);
    assert_eq!(get_body(&store), "{}");
    let r = handle_request(&mut store, Method::Post, &path, &body);
    assert_eq!(r.status, 201);
    let r = handle_request(&mut store, Method::Get, &path, &Vec::new());
    assert_eq!(r.status, 200);
    assert_eq!(String::from_utf8(r.body).unwrap(), "{\"x\":1}");
}
