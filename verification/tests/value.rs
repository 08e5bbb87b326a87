use json::data_structures::{JNumber, JObject, JString, JValue, Serialize};

#[test]
fn test_valid_object() {
    let o1: JValue = JValue::Object(JObject::new());
    assert_eq!("{}".to_string(), o1.to_string());
    let o2: JValue = JValue::Object(JObject::new());
    assert_eq!(o1, o2);
    let mut obj = JObject::new();
    let k1 = "key1".to_string();
    obj.insert(k1, JValue::Null);
    let o3: JValue = JValue::Object(obj);
    assert_eq!("{key1 : null,}".to_string(), o3.to_string());
    assert_ne!(o1, o3);
}

#[test]
fn test_valid_array() {
    let a1: JValue = JValue::Array(vec![JValue::Boolean(true),
                                        JValue::String(JString::new("123").unwrap()),
                                        JValue::Number(JNumber::from_str("3.4e-3").unwrap())]);
    assert_eq!("[true, \"123\", 3.4e-3]".to_string(), a1.to_string());
    let a2: JValue = JValue::Array(vec![JValue::Boolean(true)]);
    assert_ne!(a1, a2);
}

#[test]
fn test_valid_j_string() {
    let s1: JValue = JValue::String(JString::new("Hello World!").unwrap());
    assert_eq!("Hello World!".to_string(), s1.to_string());
    let s2: JValue = JValue::String(JString::new("Hello World!").unwrap());
    assert_eq!(s1, s2);
}

#[test]
fn test_valid_number() {
    let n1 = JValue::Number(JNumber::from_str("90.010").unwrap());
    assert_eq!("90.010".to_string(), n1.to_string());
    let n2 = JValue::Number(JNumber::from_str("90.010").unwrap());
    assert_eq!(n1, n2);
}

#[test]
fn test_valid_boolean() {
    let b1 = JValue::Boolean(true);
    assert_eq!("true".to_string(), b1.to_string());
    let b2 = JValue::Boolean(false);
    assert_eq!("false".to_string(), b2.to_string());
    assert_ne!(b1, b2);
    let b3 = JValue::Boolean(false);
    assert_eq!(b2, b3);
}

#[test]
fn test_valid_null() {
    let x1 = JValue::Null;
    assert_eq!("null".to_string(), x1.to_string());
    let x2 = JValue::Null;
    assert_eq!("null".to_string(), x2.to_string());
    assert_eq!(x1, x2);
}

#[test]
fn j_value_test_serialization() {
    let mut v = JValue::Null;
    assert_eq!("null".to_string(), v.serialize());

    v = JValue::Boolean(true);
    assert_eq!("true".to_string(), v.serialize());

    v = JValue::Boolean(false);
    assert_eq!("false".to_string(), v.serialize());

    v = JValue::Array(vec![]);
    assert_eq!("[]".to_string(), v.serialize());

    v = JValue::Array(vec![JValue::Boolean(true), JValue::Null]);
    assert_eq!("[true,null]".to_string(), v.serialize());

    v = JValue::Object(JObject::new());
    assert_eq!("{}".to_string(), v.serialize());

    let mut obj = JObject::new();
    let k1 = "key1".to_string();
    let k2 = "key2".to_string();
    obj.insert(k1, JValue::Null);
    assert_eq!("{\"key1\":null}".to_string(), obj.serialize());
    obj.insert(k2, JValue::Boolean(false));
    v = JValue::Object(obj);
    assert!("{\"key1\":null,\"key2\":false}".to_string() == v.serialize()
        || "{\"key2\":false,\"key1\":null}".to_string() == v.serialize());

    v = JValue::Number(JNumber::from_str("355.3").unwrap());
    assert_eq!("355.3".to_string(), v.serialize());

    v = JValue::String(JString::new("hello").unwrap());
    assert_eq!("\"hello\"".to_string(), v.serialize());
}
