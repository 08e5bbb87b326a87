use json::data_structures::{JObject, JValue, Serialize};

#[test]
fn test_empty_object() {
    let obj = JObject::new();
    assert_eq!(0, obj.len());
}

#[test]
fn test_inserting() {
    let mut obj = JObject::new();
    let k1 = "key1".to_string();
    let k2 = "key2".to_string();
    assert_eq!(0, obj.len());
    obj.insert(k1.clone(), JValue::Boolean(true));
    assert_eq!("{key1 : true,}".to_string(), obj.to_string());
    assert_eq!(1, obj.len());
    obj.insert(k2.clone(), JValue::Null);
    assert_eq!(2, obj.len());
}

#[test]
fn test_remove() {
    let mut obj = JObject::new();
    let k1 = "key1".to_string();
    let k2 = "key2".to_string();
    assert_eq!(0, obj.len());
    assert_eq!(None, obj.remove(&k1));
    obj.insert(k1.clone(), JValue::Boolean(true));
    obj.insert(k2.clone(), JValue::Null);
    assert_eq!(2, obj.len());
    assert_eq!(JValue::Boolean(true), obj.remove(&k1).unwrap());
    assert_eq!(JValue::Null, obj.remove(&k2).unwrap());
    assert_eq!(0, obj.len());
}

#[test]
fn test_get() {
    let mut obj = JObject::new();
    let k1 = "key1".to_string();
    let k2 = "key2".to_string();
    obj.insert(k1.clone(), JValue::Boolean(true));
    assert_eq!(JValue::Boolean(true), *obj.get(&k1).unwrap());
    assert_eq!(None, obj.get(&k2));
}

#[test]
fn test_get_mut() {
    let mut obj = JObject::new();
    let k1 = "key1".to_string();
    let k2 = "key2".to_string();
    obj.insert(k1.clone(), JValue::Boolean(true));
    assert_eq!(JValue::Boolean(true), *obj.get(&k1).unwrap());
    assert_eq!(None, obj.get_mut(&k2));
    *obj.get_mut(&k1).unwrap() = JValue::Null;
    assert_eq!(JValue::Null, *obj.get(&k1).unwrap());
}

#[test]
fn test_eq() {
    let mut obj1 = JObject::new();
    let mut obj2 = JObject::new();
    let mut obj3 = JObject::new();
    let mut obj4 = JObject::new();
    let k1 = "key1".to_string();
    let k2 = "key2".to_string();
    assert_eq!(obj1, obj2);
    obj1.insert(k1.clone(), JValue::Boolean(true));
    obj1.insert(k2.clone(), JValue::Null);
    assert_ne!(obj1, obj2);
    obj2.insert(k1.clone(), JValue::Boolean(true));
    obj2.insert(k2.clone(), JValue::Null);
    assert_eq!(obj1, obj2);
    obj3.insert(k2.clone(), JValue::Null);
    obj3.insert(k1.clone(), JValue::Boolean(true));
    assert_eq!(obj1, obj3);
    obj4.insert(k1.clone(), JValue::Boolean(false));
    obj4.insert(k2.clone(), JValue::Null);
    assert_ne!(obj1, obj4);
}

#[test]
fn j_object_test_serialization() {
    let mut obj = JObject::new();
    let k1 = "key1".to_string();
    let k2 = "key2".to_string();
    assert_eq!("{}".to_string(), obj.serialize());
    obj.insert(k1.clone(), JValue::Boolean(true));
    assert_eq!("{\"key1\":true}".to_string(), obj.serialize());
    obj.insert(k2.clone(), JValue::Boolean(false));
    assert!("{\"key1\":true,\"key2\":false}".to_string() == obj.serialize()
        || "{\"key2\":false,\"key1\":true}".to_string() == obj.serialize());
}
