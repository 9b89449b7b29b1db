use grocery_store::json::parse_item;
use grocery_store::json::render_pairs;
use grocery_store::store::Entry;

fn parse(body: &str) -> Option<(String, i32)> {
    parse_item(&body.as_bytes().to_vec())
        .map(|e| (String::from_utf8(e.name).unwrap(), e.quantity))
}

#[test]
fn parses_compact_body() {
    assert_eq!(parse("{\"name\":\"milk\",\"quantity\":2}"), Some(("milk".to_string(), 2)));
}

#[test]
fn parses_whitespace_and_either_order() {
    assert_eq!(
        parse(" { \"name\" : \"milk\" ,\n\t\"quantity\" : 2 } "),
        Some(("milk".to_string(), 2))
    );
    assert_eq!(
        parse("{\"quantity\":9,\"name\":\"tea\"}"),
        Some(("tea".to_string(), 9))
    );
}

#[test]
fn parses_signed_and_boundary_quantities() {
    assert_eq!(parse("{\"name\":\"x\",\"quantity\":0}"), Some(("x".to_string(), 0)));
    assert_eq!(parse("{\"name\":\"x\",\"quantity\":-3}"), Some(("x".to_string(), -3)));
    assert_eq!(
        parse("{\"name\":\"x\",\"quantity\":2147483647}"),
        Some(("x".to_string(), 2147483647))
    );
    assert_eq!(
        parse("{\"name\":\"x\",\"quantity\":-2147483648}"),
        Some(("x".to_string(), -2147483648))
    );
}

#[test]
fn rejects_out_of_range_quantities() {
    assert_eq!(parse("{\"name\":\"x\",\"quantity\":2147483648}"), None);
    assert_eq!(parse("{\"name\":\"x\",\"quantity\":-2147483649}"), None);
    assert_eq!(parse("{\"name\":\"x\",\"quantity\":99999999999999999999}"), None);
}

#[test]
fn rejects_number_oddities() {
    assert_eq!(parse("{\"name\":\"x\",\"quantity\":05}"), None);
    assert_eq!(parse("{\"name\":\"x\",\"quantity\":-}"), None);
    assert_eq!(parse("{\"name\":\"x\",\"quantity\":1.5}"), None);
    assert_eq!(parse("{\"name\":\"x\",\"quantity\":1e2}"), None);
    assert_eq!(parse("{\"name\":\"x\",\"quantity\":+1}"), None);
}

#[test]
fn rejects_structural_oddities() {
    assert_eq!(parse("{\"name\":\"x\",\"quantity\":1"), None);
    assert_eq!(parse("{\"name\":\"x\",\"quantity\":1}}"), None);
    assert_eq!(parse("{\"name\":\"x\",\"quantity\":1,}"), None);
    assert_eq!(parse("[{\"name\":\"x\",\"quantity\":1}]"), None);
    assert_eq!(parse("{\"name\":\"x\",\"name\":\"y\",\"quantity\":1}"), None);
    assert_eq!(parse("{\"name\":\"x\",\"quantity\":1,\"quantity\":2}"), None);
    assert_eq!(parse("{\"name\":\"x\"}"), None);
    assert_eq!(parse("{\"quantity\":1}"), None);
    assert_eq!(parse("{}"), None);
}

#[test]
fn tolerates_unknown_members() {
    assert_eq!(
        parse("{\"name\":\"x\",\"quantity\":1,\"extra\":2}"),
        Some(("x".to_string(), 1))
    );
    assert_eq!(
        parse("{\"note\":\"hi\",\"name\":\"x\",\"ok\":true,\"quantity\":1,\"gone\":null}"),
        Some(("x".to_string(), 1))
    );
    assert_eq!(
        parse("{\"name\":\"x\",\"ratio\":-1.5e-3,\"quantity\":1,\"flag\":false}"),
        Some(("x".to_string(), 1))
    );
    assert_eq!(
        parse("{\"name\":\"x\",\"deep\":{\"a\":[1,2,{\"b\":\"c\"}],\"d\":[]},\"quantity\":1}"),
        Some(("x".to_string(), 1))
    );
    // A tolerated member must still hold a well-formed JSON value.
    assert_eq!(parse("{\"name\":\"x\",\"quantity\":1,\"bad\":01}"), None);
    assert_eq!(parse("{\"name\":\"x\",\"quantity\":1,\"bad\":[1,]}"), None);
}

#[test]
fn decodes_escapes() {
    assert_eq!(
        parse("{\"name\":\"a\\\"b\",\"quantity\":1}"),
        Some(("a\"b".to_string(), 1))
    );
    assert_eq!(
        parse("{\"name\":\"a\\\\b\\/c\\n\\t\\r\\b\\f\",\"quantity\":1}"),
        Some(("a\\b/c\n\t\r\u{8}\u{c}".to_string(), 1))
    );
    assert_eq!(
        parse("{\"name\":\"\\u0041\\u00e9\\u20ac\",\"quantity\":1}"),
        Some(("A\u{e9}\u{20ac}".to_string(), 1))
    );
    // A surrogate pair decodes to one four-byte code point.
    assert_eq!(
        parse("{\"name\":\"\\ud83d\\ude00\",\"quantity\":1}"),
        Some(("\u{1f600}".to_string(), 1))
    );
    // Field names are matched after decoding their escapes.
    assert_eq!(
        parse("{\"na\\u006de\":\"x\",\"quantity\":1}"),
        Some(("x".to_string(), 1))
    );
}

#[test]
fn rejects_bad_escapes() {
    assert_eq!(parse("{\"name\":\"\\x\",\"quantity\":1}"), None);
    assert_eq!(parse("{\"name\":\"\\u12\",\"quantity\":1}"), None);
    assert_eq!(parse("{\"name\":\"\\ud800\",\"quantity\":1}"), None);
    assert_eq!(parse("{\"name\":\"\\udc00\",\"quantity\":1}"), None);
    assert_eq!(parse("{\"name\":\"\\ud800\\u0041\",\"quantity\":1}"), None);
    assert_eq!(parse("{\"name\":\"x"), None);
}

#[test]
fn raw_utf8_names() {
    assert_eq!(
        parse("{\"name\":\"caf\u{e9}\",\"quantity\":3}"),
        Some(("caf\u{e9}".to_string(), 3))
    );
    // Ill-formed raw bytes are refused: a stray continuation byte, an
    // overlong encoding, and an encoded surrogate.
    let mk = |name_bytes: &[u8]| {
        let mut b = b"{\"name\":\"".to_vec();
        b.extend_from_slice(name_bytes);
        b.extend_from_slice(b"\",\"quantity\":1}");
        parse_item(&b).is_none()
    };
    assert!(mk(&[0xff]));
    assert!(mk(&[0x80]));
    assert!(mk(&[0xc2]));
    assert!(mk(&[0xc0, 0x80]));
    assert!(mk(&[0xed, 0xa0, 0x80]));
    assert!(mk(&[0xf5, 0x80, 0x80, 0x80]));
}

#[test]
fn empty_name_is_accepted() {
    // The layer performs no validation beyond the shape: an empty name is
    // stored like any other.
    assert_eq!(parse("{\"name\":\"\",\"quantity\":4}"), Some(("".to_string(), 4)));
}

fn rendered(entries: Vec<(&str, i32)>) -> String {
    let v: Vec<Entry> = entries
        .into_iter()
        .map(|(n, q)| Entry { name: n.as_bytes().to_vec(), quantity: q })
        .collect();
    String::from_utf8(render_pairs(&v)).unwrap()
}

#[test]
fn renders_empty_object() {
    assert_eq!(rendered(vec![]), "{}");
}

#[test]
fn renders_entries_in_order() {
    assert_eq!(rendered(vec![("milk", 2)]), "{\"milk\":2}");
    assert_eq!(rendered(vec![("b", 1), ("a", 2)]), "{\"b\":1,\"a\":2}");
}

#[test]
fn renders_signed_and_boundary_quantities() {
    assert_eq!(rendered(vec![("x", 0)]), "{\"x\":0}");
    assert_eq!(rendered(vec![("x", -7)]), "{\"x\":-7}");
    assert_eq!(rendered(vec![("x", 2147483647)]), "{\"x\":2147483647}");
    assert_eq!(rendered(vec![("x", -2147483648)]), "{\"x\":-2147483648}");
}

#[test]
fn renders_names_escaped() {
    assert_eq!(rendered(vec![("a\"b", 1)]), "{\"a\\\"b\":1}");
    assert_eq!(rendered(vec![("a\\b", 1)]), "{\"a\\\\b\":1}");
    assert_eq!(rendered(vec![("a\nb\tc", 1)]), "{\"a\\nb\\tc\":1}");
    assert_eq!(rendered(vec![("a\u{1}b", 1)]), "{\"a\\u0001b\":1}");
    assert_eq!(rendered(vec![("caf\u{e9}", 1)]), "{\"caf\u{e9}\":1}");
}
