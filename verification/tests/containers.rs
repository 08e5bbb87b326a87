use json::data_structures::j_value::array_to_string;
use json::data_structures::{JNumber, JObject, JString, JValue, Serialize};
use json::serializer::serialize_string;

#[test]
fn illegal_characters_are_named_in_upper_case_hexadecimal() {
    assert_eq!(
        Err("The string contains an illegal char (0x000B)".to_string()),
        JString::new("a\u{b}")
    );
    assert_eq!(
        Err("The string contains an illegal char (0x001F)".to_string()),
        JString::new("\u{1f}\u{0}")
    );
    assert_eq!(
        Err("The string contains an illegal char (0x0000)".to_string()),
        JString::new("ok\u{0}\u{1}")
    );
    assert_eq!(Err('\u{e}'), JString::from_text("a\tb\u{e}\u{1}").map(|s| s.to_string()));
    assert!(JString::new("\u{8}\t\n\u{c}\r \u{7f}").is_ok());
    assert!(JString::new("").is_ok());
}

#[test]
fn serialize_string_escapes_eight_characters() {
    assert_eq!("\"\"".to_string(), serialize_string(&"".to_string()));
    assert_eq!("\"abc\"".to_string(), serialize_string(&"abc".to_string()));
    assert_eq!(
        "\"\\\"\\\\\\/\\b\\f\\n\\r\\t\"".to_string(),
        serialize_string(&"\"\\/\u{8}\u{c}\n\r\t".to_string())
    );
    assert_eq!("\"\u{1}é🚗\"".to_string(), serialize_string(&"\u{1}é🚗".to_string()));
}

#[test]
fn insert_replaces_the_value_of_a_key_where_it_stands() {
    let mut obj = JObject::new();
    assert_eq!(None, obj.insert("a".to_string(), JValue::Boolean(true)));
    assert_eq!(None, obj.insert("b".to_string(), JValue::Null));
    assert_eq!(None, obj.insert("c".to_string(), JValue::Boolean(false)));
    assert_eq!(Some(JValue::Boolean(true)), obj.insert("a".to_string(), JValue::Array(vec![])));
    assert_eq!(Some(JValue::Null), obj.insert("b".to_string(), JValue::Boolean(true)));
    assert_eq!(3, obj.len());
    assert_eq!("{\"a\":[],\"b\":true,\"c\":false}".to_string(), obj.serialize());
    assert_eq!(Some(JValue::Boolean(false)), obj.insert("c".to_string(), JValue::Null));
    assert_eq!("{\"a\":[],\"b\":true,\"c\":null}".to_string(), obj.serialize());
    assert_eq!(vec!["a".to_string(), "b".to_string(), "c".to_string()], *obj.keys());
    assert_eq!(3, obj.values().len());
}

#[test]
fn remove_keeps_the_order_of_the_other_members() {
    let mut obj = JObject::new();
    obj.insert("a".to_string(), JValue::Boolean(true));
    obj.insert("b".to_string(), JValue::Null);
    obj.insert("c".to_string(), JValue::Boolean(false));
    assert!(obj.contains_key(&"b".to_string()));
    assert_eq!(Some(JValue::Null), obj.remove(&"b".to_string()));
    assert!(!obj.contains_key(&"b".to_string()));
    assert_eq!(None, obj.remove(&"b".to_string()));
    assert_eq!("{\"a\":true,\"c\":false}".to_string(), obj.serialize());
    assert_eq!(Some(JValue::Boolean(true)), obj.remove(&"a".to_string()));
    assert_eq!("{\"c\":false}".to_string(), obj.serialize());
    assert_eq!(Some(&JValue::Boolean(false)), obj.get(&"c".to_string()));
}

#[test]
fn keys_are_escaped_in_the_text_and_shown_as_they_are() {
    let mut obj = JObject::new();
    obj.insert("a\"b/c".to_string(), JValue::String(JString::new("x\ny").unwrap()));
    assert_eq!("{\"a\\\"b\\/c\":\"x\\ny\"}".to_string(), obj.serialize());
    assert_eq!("{a\"b/c : x\ny,}".to_string(), obj.to_string());
}

#[test]
fn objects_are_equal_whatever_the_order_of_their_members() {
    let n = |s: &str| JValue::Number(JNumber::from_str(s).unwrap());
    let mut a = JObject::new();
    a.insert("x".to_string(), n("1.0"));
    a.insert("y".to_string(), JValue::Array(vec![n("2"), n("3e0")]));
    let mut b = JObject::new();
    b.insert("y".to_string(), JValue::Array(vec![n("2.0"), n("3")]));
    b.insert("x".to_string(), n("10e-1"));
    assert_eq!(a, b);
    assert_eq!(JValue::Object(a.clone()), JValue::Object(b.clone()));
    b.insert("z".to_string(), JValue::Null);
    assert_ne!(a, b);
    a.insert("w".to_string(), JValue::Null);
    assert_ne!(a, b);
}

#[test]
fn values_of_different_kinds_differ() {
    let s = |t: &str| JValue::String(JString::new(t).unwrap());
    let n = |t: &str| JValue::Number(JNumber::from_str(t).unwrap());
    assert_ne!(s("1"), n("1"));
    assert_ne!(JValue::Null, JValue::Boolean(false));
    assert_ne!(JValue::Array(vec![]), JValue::Object(JObject::new()));
    assert_ne!(JValue::Array(vec![n("1")]), JValue::Array(vec![n("1"), n("1")]));
    assert_ne!(JValue::Array(vec![n("1"), n("2")]), JValue::Array(vec![n("2"), n("1")]));
    assert_ne!(s("a"), s("A"));
    assert_eq!(JValue::Array(vec![n("1"), s("a")]), JValue::Array(vec![n("1.0"), s("a")]));
}

#[test]
fn a_copy_is_equal_and_independent() {
    let mut obj = JObject::new();
    obj.insert("k".to_string(), JValue::Array(vec![JValue::Null, JValue::Boolean(true)]));
    let first = JValue::Object(obj);
    let mut copy = first.clone();
    assert_eq!(first, copy);
    assert_eq!(first.serialize(), copy.serialize());
    if let JValue::Object(o) = &mut copy {
        *o.get_mut(&"k".to_string()).unwrap() = JValue::Null;
    }
    assert_ne!(first, copy);
    assert_eq!("{\"k\":[null,true]}".to_string(), first.serialize());
    assert_eq!("{\"k\":null}".to_string(), copy.serialize());
}

#[test]
fn arrays_as_text_and_as_shown() {
    let items = vec![
        JValue::String(JString::new("a\"b").unwrap()),
        JValue::Array(vec![JValue::String(JString::new("c").unwrap()), JValue::Null]),
        JValue::Number(JNumber::from_str("1.0e0").unwrap()),
    ];
    assert_eq!("[\"a\\\"b\",[\"c\",null],1]".to_string(), array_to_string(&items, true));
    assert_eq!("[\"a\"b\", [\"c\", null], 1]".to_string(), array_to_string(&items, false));
    assert_eq!("[]".to_string(), array_to_string(&vec![], true));
    assert_eq!("[]".to_string(), array_to_string(&vec![], false));
    assert_eq!("[\"a\"b\", [\"c\", null], 1]".to_string(), JValue::Array(items).to_string());
}
