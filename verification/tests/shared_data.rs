use roommate::data::Data;
use roommate::json::JsonValue;

#[test]
fn data_shares_one_value() {
    let data = Data::new(vec![1u32, 2, 3]);
    let other = data.clone();
    assert_eq!(*data.inner_data, vec![1, 2, 3]);
    assert_eq!(*other.inner_data, vec![1, 2, 3]);
    assert!(std::sync::Arc::ptr_eq(&data.inner_data, &other.inner_data));
    assert_eq!(data.data_type_id, other.data_type_id);
}

#[test]
fn data_tags_the_state_type() {
    let a = Data::new(0u8);
    let b = Data::new(0u16);
    assert_ne!(a.data_type_id, b.data_type_id);
    assert_eq!(a.data_type_id, Data::new(7u8).data_type_id);
}

#[test]
fn duplicate_is_a_deep_copy() {
    let v = JsonValue::Obj(vec![(
        "xs".to_string(),
        JsonValue::Arr(vec![JsonValue::Num("1".to_string()), JsonValue::Bool(false)]),
    )]);
    let w = v.duplicate();
    assert_eq!(v, w);
}

#[test]
fn get_reads_object_fields() {
    let v = JsonValue::Obj(vec![
        ("a".to_string(), JsonValue::Num("1".to_string())),
        ("b".to_string(), JsonValue::Null),
    ]);
    assert_eq!(v.get("a"), Some(&JsonValue::Num("1".to_string())));
    assert_eq!(v.get("b"), Some(&JsonValue::Null));
    assert_eq!(v.get("c"), None);
    assert_eq!(JsonValue::Null.get("a"), None);
}
