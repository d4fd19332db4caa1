use kingcobra::ast::Statement;
use kingcobra::environment::{EnvHeap, Environment};
use kingcobra::object::{Builtin, HashKey, HashPairs, Object};

#[test]
fn test_object_formatting() {
    let tests = vec![
        (Object::Integer(5), "5"),
        (Object::Integer(-10), "-10"),
        (Object::Boolean(true), "true"),
        (Object::Boolean(false), "false"),
        (Object::String("hello world".to_string()), "hello world"),
        (Object::Null, "null"),
        (Object::ReturnValue(Box::new(Object::Integer(99))), "99"),
        (Object::Error("Type mismatch".to_string()), "ERROR: Type mismatch"),
    ];

    for (obj, expected) in tests {
        assert_eq!(obj.to_display_string(), expected, "Formatting failed for {:?}", obj);
    }
}

#[test]
fn test_function_formatting() {
    let func = Object::Function {
        parameters: vec!["x".to_string(), "y".to_string()],
        body: Box::new(Statement::Block(vec![])),
    };
    assert_eq!(func.to_display_string(), "fn(x, y) { ... }");
}

#[test]
fn compound_values_format() {
    let arr = Object::Array(vec![Object::Integer(1), Object::String("a".to_string()), Object::Null]);
    assert_eq!(arr.to_display_string(), "[1, a, null]");
    let mut h = HashPairs::new();
    h.insert(HashKey::String("k".to_string()), Object::Integer(1));
    h.insert(HashKey::Integer(2), Object::Boolean(false));
    h.insert(HashKey::Boolean(true), Object::Array(vec![]));
    assert_eq!(Object::Hash(h).to_display_string(), "{\"k\": 1, 2: false, true: []}");
    assert_eq!(Object::Builtin(Builtin::Print).to_display_string(), "native built-in function");
    assert_eq!(Object::Module(0).to_display_string(), "<module>");
    assert_eq!(Object::Class { name: "P".to_string(), environment: 1 }.to_display_string(), "<class P>");
    assert_eq!(
        Object::Instance { class_name: "P".to_string(), class_env: 1, instance_env: 2 }.to_display_string(),
        "<instance P>"
    );
    let bound = Object::BoundMethod {
        instance: Box::new(Object::Null),
        method: Box::new(Object::Function { parameters: vec![], body: Box::new(Statement::Block(vec![])) }),
    };
    assert_eq!(bound.to_display_string(), "<bound method: fn() { ... }>");
    assert_eq!(Object::Integer(i64::MIN).to_display_string(), "-9223372036854775808");
}

#[test]
fn hash_keys_of_values() {
    let heap = EnvHeap::new();
    assert_eq!(Object::Integer(3).get_hash_key(&heap), Ok(HashKey::Integer(3)));
    assert_eq!(Object::String("s".to_string()).get_hash_key(&heap), Ok(HashKey::String("s".to_string())));
    assert_eq!(Object::Boolean(false).get_hash_key(&heap), Ok(HashKey::Boolean(false)));
    assert_eq!(Object::Null.get_hash_key(&heap), Err("Unusable as hash key: Null".to_string()));
}

#[test]
fn unusable_keys_are_written_with_their_scopes() {
    let mut heap = EnvHeap::new();
    let mut e = Environment::new();
    e.set("k".to_string(), Object::String("v\"q".to_string()));
    let id = heap.add(e);
    assert_eq!(
        Object::Module(id).get_hash_key(&heap),
        Err("Unusable as hash key: Module(RefCell { value: Environment { store: {\"k\": String(\"v\\\"q\")}, outer: None } })".to_string())
    );
}

#[test]
fn hash_insert_then_get() {
    let mut h = HashPairs::new();
    assert_eq!(h.len(), 0);
    h.insert(HashKey::Integer(1), Object::Integer(10));
    h.insert(HashKey::Integer(2), Object::Integer(20));
    h.insert(HashKey::Integer(1), Object::Integer(11));
    assert_eq!(h.len(), 2);
    assert_eq!(h.get(&HashKey::Integer(1)), Some(&Object::Integer(11)));
    assert_eq!(h.get(&HashKey::Integer(2)), Some(&Object::Integer(20)));
    assert_eq!(h.get(&HashKey::Integer(3)), None);
    // a replaced value keeps its place
    assert_eq!(h.pairs[0].0, HashKey::Integer(1));
}
