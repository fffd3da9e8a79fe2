use aether_core::toon::{Toon, ToonValue};

fn obj(fields: Vec<(&str, ToonValue)>) -> ToonValue {
    ToonValue::Object(fields.into_iter().map(|(k, v)| (k.to_string(), v)).collect())
}

fn text(s: &str) -> ToonValue {
    ToonValue::Text(s.to_string())
}

#[test]
fn test_toon_tabular() {
    let data = ToonValue::List(vec![
        obj(vec![("id", ToonValue::Int(1)), ("name", text("Apple")), ("price", ToonValue::Int(10))]),
        obj(vec![("id", ToonValue::Int(2)), ("name", text("Banana")), ("price", ToonValue::Int(5))]),
    ]);
    let toon = Toon::serialize(&data);
    assert!(toon.contains("{id,name,price}"));
    assert!(toon.contains("1,Apple,10"));
}

#[test]
fn test_toon_object() {
    let data = obj(vec![
        ("user", text("admin")),
        ("meta", obj(vec![("last_login", text("2024-01-01"))])),
    ]);
    let toon = Toon::serialize(&data);
    assert!(toon.contains("user: admin"));
    assert!(toon.contains("meta:"));
}

#[test]
fn test_toon_roundtrip() {
    let original = obj(vec![
        ("project", text("Aether")),
        ("active", ToonValue::Bool(true)),
        ("version", ToonValue::Int(1)),
        ("null_val", ToonValue::Null),
        ("tags", ToonValue::List(vec![text("ai"), text("rust"), text("security")])),
        (
            "files",
            ToonValue::List(vec![
                obj(vec![("name", text("main.rs")), ("size", ToonValue::Int(1024))]),
                obj(vec![("name", text("lib.rs")), ("size", ToonValue::Int(2048))]),
            ]),
        ),
    ]);
    let serialized = Toon::serialize(&original);
    println!("Serialized TOON:\n{}", serialized);
    let deserialized = Toon::deserialize(&serialized).unwrap();
    assert_eq!(original, deserialized);
}

#[test]
fn test_toon_roundtrip_escaped_commas() {
    let original = obj(vec![(
        "rows",
        ToonValue::List(vec![
            obj(vec![("name", text("a,b")), ("n", ToonValue::Int(-7))]),
            obj(vec![("name", text("c")), ("n", ToonValue::Null)]),
        ]),
    )]);
    let serialized = Toon::serialize(&original);
    let deserialized = Toon::deserialize(&serialized).unwrap();
    assert_eq!(original, deserialized);
}

#[test]
fn test_toon_roundtrip_nested_objects() {
    let original = obj(vec![
        ("a", obj(vec![("b", obj(vec![("c", ToonValue::Int(42))])), ("d", ToonValue::Bool(false))])),
        ("e", text("deep value with spaces")),
    ]);
    let serialized = Toon::serialize(&original);
    let deserialized = Toon::deserialize(&serialized).unwrap();
    assert_eq!(original, deserialized);
}

#[test]
fn test_toon_scalar_forms() {
    let v = obj(vec![
        ("t", ToonValue::Bool(true)),
        ("f", ToonValue::Bool(false)),
        ("nil", ToonValue::Null),
        ("neg", ToonValue::Int(-12)),
        ("big", ToonValue::Int(9007199254740993)),
    ]);
    let s = Toon::serialize(&v);
    assert!(s.contains("t: T"));
    assert!(s.contains("f: F"));
    assert!(s.contains("nil: ~"));
    assert!(s.contains("neg: -12"));
    let back = Toon::deserialize(&s).unwrap();
    assert_eq!(v, back);
}

#[test]
fn test_toon_deserialize_empty_is_null() {
    let back = Toon::deserialize("").unwrap();
    assert_eq!(back, ToonValue::Null);
}

#[test]
fn test_toon_deserialize_top_level_list() {
    let back = Toon::deserialize("- 1\n- 2\n- x\n").unwrap();
    assert_eq!(
        back,
        ToonValue::List(vec![ToonValue::Int(1), ToonValue::Int(2), text("x")])
    );
}

#[test]
fn test_toon_array_header_has_count() {
    let v = obj(vec![("tags", ToonValue::List(vec![text("a"), text("b")]))]);
    let s = Toon::serialize(&v);
    assert!(s.contains("tags[2]:"));
}
