use jsondiff::compare::compare;
use jsondiff::patch::{Patch, PatchOp};
use jsondiff::value::{Value, value_clone};

fn text(s: &str) -> Value {
    Value::Text(s.to_string())
}

fn num(s: &str) -> Value {
    Value::Num(s.to_string())
}

fn arr(items: Vec<Value>) -> Value {
    Value::Arr(items)
}

fn obj(pairs: Vec<(&str, Value)>) -> Value {
    Value::Obj(pairs.into_iter().map(|(k, v)| (k.to_string(), v)).collect())
}

/// The seven-key document that the object tests share.
fn seven_keys() -> Value {
    obj(vec![
        ("string", text("This is a string.")),
        ("integer", num("42")),
        ("float", num("3.14159")),
        ("object", obj(vec![("substring", text("This is another string."))])),
        ("array", arr(vec![text("one"), text("two")])),
        ("boolean", Value::Bool(true)),
        ("null", Value::Null),
    ])
}

#[test]
fn test_compare_array_nop() {
    let doc = arr(vec![text("a"), text("b")]);
    let mut patches: Vec<Patch> = Vec::new();
    compare(&doc, &value_clone(&doc), &mut patches);
    assert!(patches.is_empty());
}

#[test]
fn test_compare_array_added_values() {
    let left = arr(vec![text("a"), text("b")]);
    let right = arr(vec![text("a"), text("b"), text("c"), text("d")]);
    let mut patches: Vec<Patch> = Vec::new();
    compare(&left, &value_clone(&right), &mut patches);
    let expected = vec![
        Patch {
            op: PatchOp::Add,
            path: "/2".to_string(),
            value: Some(text("c")),
            old_value: None,
        },
        Patch {
            op: PatchOp::Add,
            path: "/3".to_string(),
            value: Some(text("d")),
            old_value: None,
        },
    ];
    assert_eq!(expected, patches);
}

#[test]
fn test_compare_array_changed_value() {
    let left = arr(vec![text("a"), text("b"), text("c")]);
    let right = arr(vec![text("a"), num("2"), text("c")]);
    let mut patches: Vec<Patch> = Vec::new();
    compare(&left, &value_clone(&right), &mut patches);
    let expected = vec![Patch {
        op: PatchOp::Replace,
        path: "/1".to_string(),
        value: Some(num("2")),
        old_value: Some(text("b")),
    }];
    assert_eq!(expected, patches);
}

#[test]
fn test_compare_array_changed_nested_value() {
    let left = arr(vec![text("a"), arr(vec![text("b"), text("c")]), text("d")]);
    let right = arr(vec![text("a"), arr(vec![text("b"), num("3")]), text("d")]);
    let mut patches: Vec<Patch> = Vec::new();
    compare(&left, &value_clone(&right), &mut patches);
    let expected = vec![Patch {
        op: PatchOp::Replace,
        path: "/1/1".to_string(),
        value: Some(num("3")),
        old_value: Some(text("c")),
    }];
    assert_eq!(expected, patches);
}

#[test]
fn test_compare_array_removed_value() {
    let left = arr(vec![text("a"), text("b"), text("c"), text("d")]);
    let right = arr(vec![text("a"), text("b")]);
    let mut patches: Vec<Patch> = Vec::new();
    compare(&left, &value_clone(&right), &mut patches);
    let expected = vec![
        Patch {
            op: PatchOp::Remove,
            path: "/2".to_string(),
            value: None,
            old_value: Some(text("c")),
        },
        Patch {
            op: PatchOp::Remove,
            path: "/3".to_string(),
            value: None,
            old_value: Some(text("d")),
        },
    ];
    assert_eq!(expected, patches);
}

#[test]
fn test_compare_object_nop() {
    let doc = seven_keys();
    let mut patches: Vec<Patch> = Vec::new();
    compare(&doc, &value_clone(&doc), &mut patches);
    assert!(patches.is_empty());
}

#[test]
fn test_compare_object_added() {
    let left = obj(vec![]);
    let right = seven_keys();
    let mut patches: Vec<Patch> = Vec::new();
    compare(&left, &right, &mut patches);
    let expected = vec![
        Patch {
            op: PatchOp::Add,
            path: "/string".to_string(),
            value: Some(text("This is a string.")),
            old_value: None,
        },
        Patch {
            op: PatchOp::Add,
            path: "/integer".to_string(),
            value: Some(num("42")),
            old_value: None,
        },
        Patch {
            op: PatchOp::Add,
            path: "/float".to_string(),
            value: Some(num("3.14159")),
            old_value: None,
        },
        Patch {
            op: PatchOp::Add,
            path: "/object".to_string(),
            value: Some(obj(vec![("substring", text("This is another string."))])),
            old_value: None,
        },
        Patch {
            op: PatchOp::Add,
            path: "/array".to_string(),
            value: Some(arr(vec![text("one"), text("two")])),
            old_value: None,
        },
        Patch {
            op: PatchOp::Add,
            path: "/boolean".to_string(),
            value: Some(Value::Bool(true)),
            old_value: None,
        },
        Patch {
            op: PatchOp::Add,
            path: "/null".to_string(),
            value: Some(Value::Null),
            old_value: None,
        },
    ];
    assert_eq!(expected.len(), patches.len());
    assert!(expected.iter().all(|item| patches.contains(item)));
}

#[test]
fn test_compare_object_removed() {
    let left = seven_keys();
    let right = obj(vec![]);
    let mut patches: Vec<Patch> = Vec::new();
    compare(&left, &right, &mut patches);
    let expected = vec![
        Patch {
            op: PatchOp::Remove,
            path: "/string".to_string(),
            value: None,
            old_value: Some(text("This is a string.")),
        },
        Patch {
            op: PatchOp::Remove,
            path: "/integer".to_string(),
            value: None,
            old_value: Some(num("42")),
        },
        Patch {
            op: PatchOp::Remove,
            path: "/float".to_string(),
            value: None,
            old_value: Some(num("3.14159")),
        },
        Patch {
            op: PatchOp::Remove,
            path: "/object".to_string(),
            value: None,
            old_value: Some(obj(vec![("substring", text("This is another string."))])),
        },
        Patch {
            op: PatchOp::Remove,
            path: "/array".to_string(),
            value: None,
            old_value: Some(arr(vec![text("one"), text("two")])),
        },
        Patch {
            op: PatchOp::Remove,
            path: "/boolean".to_string(),
            value: None,
            old_value: Some(Value::Bool(true)),
        },
        Patch {
            op: PatchOp::Remove,
            path: "/null".to_string(),
            value: None,
            old_value: Some(Value::Null),
        },
    ];
    assert_eq!(expected.len(), patches.len());
    assert!(expected.iter().all(|item| patches.contains(item)));
}

#[test]
fn test_compare_object_replaced() {
    let left = obj(vec![
        ("string", text("There are strange things done in the midnight sun")),
        ("integer", num("42")),
        ("float", num("3.14159")),
        ("object", obj(vec![("substring", text("By the men who moil for gold;"))])),
        ("array", arr(vec![text("one"), text("two")])),
        ("boolean", Value::Bool(true)),
        ("null", Value::Null),
    ]);
    let right = obj(vec![
        ("string", text("The Arctic trails have their secret tales")),
        ("integer", num("60606")),
        ("float", num("2.71828")),
        ("object", obj(vec![("substring", text("That would make your blood run cold;"))])),
        ("array", arr(vec![text("a"), text("b")])),
        ("boolean", Value::Bool(false)),
        ("null", text("NOT NULL")),
    ]);
    let mut patches: Vec<Patch> = Vec::new();
    compare(&left, &right, &mut patches);
    let expected = vec![
        Patch {
            op: PatchOp::Replace,
            path: "/string".to_string(),
            value: Some(text("The Arctic trails have their secret tales")),
            old_value: Some(text("There are strange things done in the midnight sun")),
        },
        Patch {
            op: PatchOp::Replace,
            path: "/integer".to_string(),
            value: Some(num("60606")),
            old_value: Some(num("42")),
        },
        Patch {
            op: PatchOp::Replace,
            path: "/float".to_string(),
            value: Some(num("2.71828")),
            old_value: Some(num("3.14159")),
        },
        Patch {
            op: PatchOp::Replace,
            path: "/object/substring".to_string(),
            value: Some(text("That would make your blood run cold;")),
            old_value: Some(text("By the men who moil for gold;")),
        },
        Patch {
            op: PatchOp::Replace,
            path: "/array/0".to_string(),
            value: Some(text("a")),
            old_value: Some(text("one")),
        },
        Patch {
            op: PatchOp::Replace,
            path: "/array/1".to_string(),
            value: Some(text("b")),
            old_value: Some(text("two")),
        },
        Patch {
            op: PatchOp::Replace,
            path: "/boolean".to_string(),
            value: Some(Value::Bool(false)),
            old_value: Some(Value::Bool(true)),
        },
        Patch {
            op: PatchOp::Replace,
            path: "/null".to_string(),
            value: Some(text("NOT NULL")),
            old_value: Some(Value::Null),
        },
    ];
    assert_eq!(expected.len(), patches.len());
    assert!(expected.iter().all(|item| patches.contains(item)));
}

#[test]
fn test_compare_string_nop() {
    let doc = text("There are strange things done in the midnight sun");
    let mut patches: Vec<Patch> = Vec::new();
    compare(&doc, &value_clone(&doc), &mut patches);
    assert!(patches.is_empty());
}

#[test]
fn test_compare_string_changed_value() {
    let left = text("There are strange things done in the midnight sun");
    let right = text("By the men who moil for gold;");
    let mut patches: Vec<Patch> = Vec::new();
    compare(&left, &value_clone(&right), &mut patches);
    let expected = vec![Patch {
        op: PatchOp::Replace,
        path: "/".to_string(),
        value: Some(text("By the men who moil for gold;")),
        old_value: Some(text("There are strange things done in the midnight sun")),
    }];
    assert_eq!(expected, patches);
}

#[test]
fn test_compare_string_changed_type() {
    let left = text("There are strange things done in the midnight sun");
    let right = num("42");
    let mut patches: Vec<Patch> = Vec::new();
    compare(&left, &value_clone(&right), &mut patches);
    let expected = vec![Patch {
        op: PatchOp::Replace,
        path: "/".to_string(),
        value: Some(num("42")),
        old_value: Some(text("There are strange things done in the midnight sun")),
    }];
    assert_eq!(expected, patches);
}
