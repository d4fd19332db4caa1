use kingcobra::environment::{EnvHeap, Environment};
use kingcobra::object::Object;

#[test]
fn test_environment_scoping() {
    // Create global scope
    let mut heap = EnvHeap::new();
    let mut global = Environment::new();
    global.set("x".to_string(), Object::Integer(10));
    global.set("y".to_string(), Object::Integer(20));
    let global_id = heap.add(global);

    // Create a local scope (like inside a function)
    let local = Environment::new_enclosed(global_id);

    // The local scope should have access to global variables
    assert_eq!(local.get(&heap, "x"), Some(Object::Integer(10)));
    assert_eq!(local.get(&heap, "y"), Some(Object::Integer(20)));
    assert_eq!(local.get(&heap, "z"), None); // z doesn't exist
}

#[test]
fn test_environment_shadowing() {
    let mut heap = EnvHeap::new();
    let mut global = Environment::new();
    global.set("x".to_string(), Object::Integer(10));
    let global_id = heap.add(global);

    let mut local = Environment::new_enclosed(global_id);
    // The local scope defines its own 'x' (shadowing the global one)
    local.set("x".to_string(), Object::Integer(99));

    // The local scope gets its own 'x'
    assert_eq!(local.get(&heap, "x"), Some(Object::Integer(99)));

    // But the global scope's 'x' is unaffected
    assert_eq!(heap.lookup(global_id, &"x".to_string()), Some(Object::Integer(10)));
}

#[test]
fn set_replaces_earlier_binding_and_returns_value() {
    let heap = EnvHeap::new();
    let mut env = Environment::new();
    assert_eq!(env.set("a".to_string(), Object::Integer(1)), Object::Integer(1));
    assert_eq!(env.set("a".to_string(), Object::Integer(2)), Object::Integer(2));
    assert_eq!(env.get(&heap, "a"), Some(Object::Integer(2)));
}

#[test]
fn heap_set_then_lookup_reads_back() {
    let mut heap = EnvHeap::new();
    let outer = heap.add(Environment::new());
    let inner = heap.add(Environment::new_enclosed(outer));
    heap.set(outer, "g".to_string(), Object::Boolean(true));
    heap.set(inner, "l".to_string(), Object::Integer(7));
    // inner sees its own names and the outer ones
    assert_eq!(heap.lookup(inner, &"l".to_string()), Some(Object::Integer(7)));
    assert_eq!(heap.lookup(inner, &"g".to_string()), Some(Object::Boolean(true)));
    // the outer scope does not see the inner one's names
    assert_eq!(heap.lookup(outer, &"l".to_string()), None);
    // a scope that does not exist holds nothing
    assert_eq!(heap.lookup(5, &"g".to_string()), None);
    assert_eq!(heap.len(), 2);
}

#[test]
fn inner_binding_shadows_outer_in_heap() {
    let mut heap = EnvHeap::new();
    let outer = heap.add(Environment::new());
    let inner = heap.add(Environment::new_enclosed(outer));
    heap.set(outer, "x".to_string(), Object::Integer(1));
    heap.set(inner, "x".to_string(), Object::Integer(2));
    assert_eq!(heap.lookup(inner, &"x".to_string()), Some(Object::Integer(2)));
    assert_eq!(heap.lookup(outer, &"x".to_string()), Some(Object::Integer(1)));
}
