use wgpu_layers::error::Error;
use wgpu_layers::tags::{
    get_string_value, i64_to_string, parse_tags, u64_to_string, Properties, TagValue, Value,
};

fn value_with(f: impl FnOnce(&mut Value)) -> Value {
    let mut v = Value::empty();
    f(&mut v);
    v
}

fn text(s: &str) -> TagValue {
    TagValue::Text(String::from(s))
}

#[test]
fn u64_rendering() {
    assert_eq!(u64_to_string(0), "0");
    assert_eq!(u64_to_string(7), "7");
    assert_eq!(u64_to_string(10), "10");
    assert_eq!(u64_to_string(1234567890), "1234567890");
    assert_eq!(u64_to_string(u64::MAX), "18446744073709551615");
}

#[test]
fn i64_rendering() {
    assert_eq!(i64_to_string(0), "0");
    assert_eq!(i64_to_string(-1), "-1");
    assert_eq!(i64_to_string(42), "42");
    assert_eq!(i64_to_string(i64::MIN), "-9223372036854775808");
    assert_eq!(i64_to_string(i64::MAX), "9223372036854775807");
}

#[test]
fn stringify_first_match_priority() {
    // a string value wins over everything behind it.
    let v = value_with(|v| {
        v.string_value = Some(String::from("name"));
        v.int_value = Some(5);
        v.bool_value = Some(true);
    });
    assert_eq!(get_string_value(&v), text("name"));
    // float bits beat double bits and integers.
    let v = value_with(|v| {
        v.float_bits = Some(0x3f80_0000);
        v.double_bits = Some(1);
        v.uint_value = Some(9);
    });
    assert_eq!(get_string_value(&v), TagValue::Float(0x3f80_0000));
    let v = value_with(|v| {
        v.double_bits = Some(0x3ff0_0000_0000_0000);
        v.sint_value = Some(-2);
    });
    assert_eq!(get_string_value(&v), TagValue::Double(0x3ff0_0000_0000_0000));
    let v = value_with(|v| {
        v.int_value = Some(-17);
        v.uint_value = Some(17);
    });
    assert_eq!(get_string_value(&v), text("-17"));
    let v = value_with(|v| {
        v.uint_value = Some(17);
        v.sint_value = Some(-1);
    });
    assert_eq!(get_string_value(&v), text("17"));
    let v = value_with(|v| {
        v.sint_value = Some(-99);
        v.bool_value = Some(false);
    });
    assert_eq!(get_string_value(&v), text("-99"));
    let v = value_with(|v| {
        v.bool_value = Some(true);
    });
    assert_eq!(get_string_value(&v), text("true"));
    let v = value_with(|v| {
        v.bool_value = Some(false);
    });
    assert_eq!(get_string_value(&v), text("false"));
    // nothing set: the empty text.
    assert_eq!(get_string_value(&Value::empty()), text(""));
}

#[test]
fn parse_tags_builds_the_map() {
    let keys = vec![String::from("kind"), String::from("name")];
    let values = vec![
        value_with(|v| v.string_value = Some(String::from("wood"))),
        value_with(|v| v.int_value = Some(3)),
    ];
    let tags = vec![0u32, 0, 1, 1];
    let props = parse_tags(&tags, &keys, &values).unwrap();
    assert_eq!(props.len(), 2);
    assert_eq!(props.get(&String::from("kind")), Some(&text("wood")));
    assert_eq!(props.get(&String::from("name")), Some(&text("3")));
    assert_eq!(props.get(&String::from("missing")), None);
}

#[test]
fn parse_tags_last_value_wins_per_key() {
    let keys = vec![String::from("kind")];
    let values = vec![
        value_with(|v| v.string_value = Some(String::from("first"))),
        value_with(|v| v.string_value = Some(String::from("second"))),
    ];
    let tags = vec![0u32, 0, 0, 1];
    let props = parse_tags(&tags, &keys, &values).unwrap();
    assert_eq!(props.len(), 1);
    assert_eq!(props.get(&String::from("kind")), Some(&text("second")));
}

// A tag index pointing outside the dictionaries is a fatal
// TagIndexOutOfRange for the feature, not silently skipped.
#[test]
fn out_of_range_key_index_is_fatal() {
    let keys = vec![String::from("only")];
    let values = vec![value_with(|v| v.bool_value = Some(true))];
    let tags = vec![99u32, 0];
    assert_eq!(parse_tags(&tags, &keys, &values).unwrap_err(), Error::TagIndexOutOfRange);
    let tags = vec![0u32, 7];
    assert_eq!(parse_tags(&tags, &keys, &values).unwrap_err(), Error::TagIndexOutOfRange);
}

#[test]
fn dangling_tag_index_is_fatal() {
    let keys = vec![String::from("only")];
    let values = vec![Value::empty()];
    let tags = vec![0u32, 0, 0];
    assert_eq!(parse_tags(&tags, &keys, &values).unwrap_err(), Error::TagIndexOutOfRange);
}

#[test]
fn properties_insert_replaces() {
    let mut props = Properties::new();
    props.insert(String::from("a"), text("1"));
    props.insert(String::from("b"), text("2"));
    props.insert(String::from("a"), text("3"));
    assert_eq!(props.len(), 2);
    assert_eq!(props.get(&String::from("a")), Some(&text("3")));
    assert_eq!(props.get(&String::from("b")), Some(&text("2")));
}
