use grocery_store::api::Method;
use grocery_store::shared::SharedStore;

#[test]
fn shared_store_upsert_and_snapshot() {
    let shared = SharedStore::new();
    shared.upsert(b"milk".to_vec(), 2);
    shared.upsert(b"eggs".to_vec(), 12);
    shared.upsert(b"milk".to_vec(), 5);
    let snap = shared.snapshot();
    assert_eq!(snap.entries.len(), 2);
    assert_eq!(snap.entries[0].name, b"milk".to_vec());
    assert_eq!(snap.entries[0].quantity, 5);
    assert_eq!(snap.entries[1].name, b"eggs".to_vec());
    assert_eq!(snap.entries[1].quantity, 12);
}

#[test]
fn shared_store_serves_requests() {
    let shared = SharedStore::new();
    let path = b"/v1/groceries".to_vec();
    let r = shared.handle(Method::Get, &path, &Vec::new());
    assert_eq!(r.status, 200);
    assert_eq!(String::from_utf8(r.body).unwrap(), "{}");
    let r = shared.handle(Method::Post, &path, &b"{\"name\":\"milk\",\"quantity\":2}".to_vec());
    assert_eq!(r.status, 201);
    let r = shared.handle(Method::Get, &path, &Vec::new());
    assert_eq!(String::from_utf8(r.body).unwrap(), "{\"milk\":2}");
    let r = shared.handle(Method::Post, &path, &vec![b'x'; 20000]);
    assert_eq!(r.status, 413);
    let r = shared.handle(Method::Post, &path, &b"nonsense".to_vec());
    assert_eq!(r.status, 400);
    let r = shared.handle(Method::Other, &path, &Vec::new());
    assert_eq!(r.status, 405);
    let r = shared.handle(Method::Get, &b"/v2/other".to_vec(), &Vec::new());
    assert_eq!(r.status, 404);
    let r = shared.handle(Method::Get, &path, &Vec::new());
    assert_eq!(String::from_utf8(r.body).unwrap(), "{\"milk\":2}");
}

#[test]
fn publish_message_renders_snapshot() {
    let shared = SharedStore::new();
    assert_eq!(String::from_utf8(shared.publish_message()).unwrap(), "{}");
    shared.upsert(b"rice".to_vec(), 3);
    assert_eq!(String::from_utf8(shared.publish_message()).unwrap(), "{\"rice\":3}");
}
