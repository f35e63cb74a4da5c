use jsondiff::compare::compare;
use jsondiff::patch::{Patch, PatchOp};
use jsondiff::paths::{index_path, key_path, whole_path};
use jsondiff::value::{Value, deep_eq, value_clone};

fn text(s: &str) -> Value {
    Value::Text(s.to_string())
}

fn num(s: &str) -> Value {
    Value::Num(s.to_string())
}

fn arr(items: Vec<Value>) -> Value {
    Value::Arr(items)
}

fn obj(pairs: Vec<(&str, Value)>) -> Value {
    Value::Obj(pairs.into_iter().map(|(k, v)| (k.to_string(), v)).collect())
}

fn diff(left: &Value, right: &Value) -> Vec<Patch> {
    let mut patches: Vec<Patch> = Vec::new();
    compare(left, right, &mut patches);
    patches
}

#[test]
fn test_compare_empty_array_nop() {
    assert!(diff(&arr(vec![]), &arr(vec![])).is_empty());
}

#[test]
fn test_compare_empty_object_nop() {
    assert!(diff(&obj(vec![]), &obj(vec![])).is_empty());
}

#[test]
fn test_compare_scalar_cross_type_replace() {
    let patches = diff(&Value::Bool(false), &Value::Null);
    let expected = vec![Patch {
        op: PatchOp::Replace,
        path: "/".to_string(),
        value: Some(Value::Null),
        old_value: Some(Value::Bool(false)),
    }];
    assert_eq!(expected, patches);
}

#[test]
fn test_compare_array_vs_object_replace() {
    let left = arr(vec![text("a")]);
    let right = obj(vec![("a", num("1"))]);
    let patches = diff(&left, &right);
    let expected = vec![Patch {
        op: PatchOp::Replace,
        path: "/".to_string(),
        value: Some(obj(vec![("a", num("1"))])),
        old_value: Some(arr(vec![text("a")])),
    }];
    assert_eq!(expected, patches);
}

#[test]
fn test_compare_array_replace_then_remove_order() {
    let left = arr(vec![text("a"), text("b"), text("c")]);
    let right = arr(vec![text("x")]);
    let patches = diff(&left, &right);
    let expected = vec![
        Patch {
            op: PatchOp::Replace,
            path: "/0".to_string(),
            value: Some(text("x")),
            old_value: Some(text("a")),
        },
        Patch {
            op: PatchOp::Remove,
            path: "/1".to_string(),
            value: None,
            old_value: Some(text("b")),
        },
        Patch {
            op: PatchOp::Remove,
            path: "/2".to_string(),
            value: None,
            old_value: Some(text("c")),
        },
    ];
    assert_eq!(expected, patches);
}

#[test]
fn test_compare_nested_object_in_array() {
    let left = arr(vec![obj(vec![("k", num("1"))])]);
    let right = arr(vec![obj(vec![("k", num("2"))])]);
    let patches = diff(&left, &right);
    let expected = vec![Patch {
        op: PatchOp::Replace,
        path: "/0/k".to_string(),
        value: Some(num("2")),
        old_value: Some(num("1")),
    }];
    assert_eq!(expected, patches);
}

#[test]
fn test_paths_begin_with_separator() {
    let left = obj(vec![
        ("gone", num("1")),
        ("kept", arr(vec![num("1"), num("2"), num("3")])),
    ]);
    let right = obj(vec![
        ("kept", arr(vec![num("1"), num("9")])),
        ("new", Value::Null),
    ]);
    let patches = diff(&left, &right);
    assert!(!patches.is_empty());
    assert!(patches.iter().all(|p| p.path.starts_with('/')));
}

#[test]
fn test_op_names() {
    assert_eq!("add", PatchOp::Add.as_str());
    assert_eq!("remove", PatchOp::Remove.as_str());
    assert_eq!("replace", PatchOp::Replace.as_str());
}

#[test]
fn test_index_path_digits() {
    assert_eq!("/0", index_path("", 0).as_str());
    assert_eq!("/7", index_path("", 7).as_str());
    assert_eq!("/1234567890", index_path("", 1234567890).as_str());
    assert_eq!("/a/10", index_path("/a", 10).as_str());
}

#[test]
fn test_key_and_whole_paths() {
    assert_eq!("/a", key_path("", "a").as_str());
    assert_eq!("/a/b", key_path("/a", "b").as_str());
    assert_eq!("/", whole_path("").as_str());
    assert_eq!("/a/0", whole_path("/a/0").as_str());
}

#[test]
fn test_deep_eq_is_type_sensitive() {
    assert!(!deep_eq(&num("1"), &text("1")));
    assert!(!deep_eq(&num("1"), &num("1.0")));
    assert!(deep_eq(&num("1"), &num("1")));
}

#[test]
fn test_deep_eq_nested() {
    let a = obj(vec![("k", arr(vec![num("1"), Value::Null]))]);
    let b = obj(vec![("k", arr(vec![num("1"), Value::Null]))]);
    let c = obj(vec![("k", arr(vec![num("1"), Value::Bool(false)]))]);
    assert!(deep_eq(&a, &b));
    assert!(!deep_eq(&a, &c));
}

#[test]
fn test_value_clone_is_deep() {
    let a = obj(vec![("k", arr(vec![num("1"), text("x")])), ("n", Value::Null)]);
    let b = value_clone(&a);
    assert_eq!(a, b);
    assert!(deep_eq(&a, &b));
}
