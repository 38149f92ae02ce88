use dom_finder::{InnerMap, Value};

fn obj(entries: Vec<(&str, Value)>) -> Value {
    let mut m = InnerMap::new();
    for (k, v) in entries {
        m.insert(k.to_string(), v);
    }
    Value::Object(m)
}

fn s(t: &str) -> Value {
    Value::String(t.to_string())
}

#[test]
fn count_path_on_arrays() {
    assert_eq!(Value::Array(vec![]).from_path("#"), Some(Value::Int(0)));
    assert_eq!(Value::Array(vec![s("a"), s("b"), s("c")]).from_path("#"), Some(Value::Int(3)));
}

#[test]
fn path_keys_and_positions() {
    let v = obj(vec![("root", obj(vec![("links", Value::Array(vec![s("x"), s("y")]))]))]);
    assert_eq!(v.from_path("root.links.0"), Some(s("x")));
    assert_eq!(v.from_path("root.links.+1"), Some(s("y")));
    assert_eq!(v.from_path("root.links.2"), None);
    assert_eq!(v.from_path("root.links.-1"), None);
    assert_eq!(v.from_path("root.missing"), None);
    assert_eq!(v.from_path("root.links.#"), Some(Value::Int(2)));
}

#[test]
fn wildcard_projects_and_drops_misses() {
    let v = Value::Array(vec![
        obj(vec![("url", s("u1"))]),
        obj(vec![("other", s("o"))]),
        obj(vec![("url", s("u3"))]),
    ]);
    assert_eq!(v.from_path("#.url"), Some(Value::Array(vec![s("u1"), s("u3")])));
}

#[test]
fn path_past_a_scalar_is_absent() {
    let v = obj(vec![("url", s("u"))]);
    assert_eq!(v.from_path("url.nonsense"), None);
    assert_eq!(Value::Int(3).from_path("a"), None);
    assert_eq!(Value::Null.from_path("#"), None);
}

#[test]
fn is_empty_cases() {
    assert!(Value::Null.is_empty());
    assert!(s("").is_empty());
    assert!(!s("x").is_empty());
    assert!(Value::Array(vec![]).is_empty());
    assert!(Value::Object(InnerMap::new()).is_empty());
    assert!(Value::Int(0).is_empty());
    assert!(!Value::Int(-1).is_empty());
    assert!(Value::Float("0.0".to_string()).is_empty());
    assert!(Value::Float("-0e5".to_string()).is_empty());
    assert!(!Value::Float("0.5".to_string()).is_empty());
    assert!(!Value::Bool(false).is_empty());
}

#[test]
fn map_insert_replaces_in_place() {
    let mut m = InnerMap::new();
    m.insert("a".to_string(), Value::Int(1));
    m.insert("b".to_string(), Value::Int(2));
    m.insert("a".to_string(), Value::Int(3));
    assert_eq!(m.len(), 2);
    assert_eq!(m.get("a"), Some(&Value::Int(3)));
    assert_eq!(m.entries[0].0, "a");
    assert_eq!(m.get("c"), None);
}

#[test]
fn conversions() {
    assert_eq!(s("x").into_string(), Some("x".to_string()));
    assert_eq!(Value::Int(1).into_string(), None);
    assert_eq!(Value::Array(vec![s("a"), s("b")]).into_strings(), Some(vec!["a".to_string(), "b".to_string()]));
    assert_eq!(Value::Array(vec![s("a"), Value::Null]).into_strings(), None);
    let d = obj(vec![("k", Value::Array(vec![s("a")]))]);
    assert_eq!(d.duplicate(), d);
}
