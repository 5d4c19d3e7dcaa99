use imp_interpreter::memory::{HashMemory, Memory};

#[test]
fn test_global_scope() {
    let memory = HashMemory::<u32>::default();
    assert_eq!(memory.depth(), 1);
    assert_eq!(memory.scope_len(0), 0);
}

#[test]
fn test_push_scope() {
    let mut memory = HashMemory::<u32>::default();
    memory.add("x".to_string(), 1);

    memory.push_scope();

    memory.add("y".to_string(), 2);
    assert_eq!(memory.depth(), 2);
    assert_eq!(memory.scope_len(0), 1);
    assert_eq!(memory.get_in_scope(0, "x"), Some(&1));
    assert_eq!(memory.scope_len(1), 1);
    assert_eq!(memory.get_in_scope(1, "y"), Some(&2));
}

#[test]
fn test_dynamic_scoping() {
    let mut memory = HashMemory::<u32>::default();
    memory.add("x".to_string(), 1);

    memory.push_scope();
    assert_eq!(memory.get("x"), Some(&1));
}

#[test]
fn test_dynamic_scoping_shadowing() {
    let mut memory = HashMemory::<u32>::default();
    memory.add("x".to_string(), 1);

    memory.push_scope();

    memory.add("x".to_string(), 10);
    assert_eq!(memory.get("x"), Some(&10));
}

#[test]
fn test_dynamic_scoping_empty_global() {
    let mut memory = HashMemory::<u32>::default();

    memory.push_scope();

    memory.add("x".to_string(), 10);
    assert_eq!(memory.get("x"), Some(&10));
}

#[test]
fn memory_read_after_write_in_same_scope() {
    let mut memory = HashMemory::<u32>::new();
    memory.add("a".to_string(), 3);
    memory.add("b".to_string(), 4);
    memory.add("a".to_string(), 5);
    assert_eq!(memory.get("a"), Some(&5));
    assert_eq!(memory.get("b"), Some(&4));
    assert_eq!(memory.scope_len(0), 2);
}

#[test]
fn memory_pop_scope_restores_outer_binding() {
    let mut memory = HashMemory::<u32>::new();
    memory.add("x".to_string(), 1);
    memory.push_scope();
    memory.add("x".to_string(), 2);
    assert_eq!(memory.get("x"), Some(&2));
    memory.pop_scope();
    assert_eq!(memory.get("x"), Some(&1));
    assert_eq!(memory.depth(), 1);
}

#[test]
fn memory_pop_global_scope_leaves_nothing() {
    let mut memory = HashMemory::<u32>::new();
    memory.add("x".to_string(), 1);
    memory.pop_scope();
    assert_eq!(memory.depth(), 0);
    assert_eq!(memory.get("x"), None);
    memory.pop_scope();
    assert_eq!(memory.depth(), 0);
}

#[test]
fn memory_update_innermost_binding() {
    let mut memory = HashMemory::<u32>::new();
    memory.add("x".to_string(), 1);
    memory.push_scope();
    memory.add("x".to_string(), 2);
    assert_eq!(memory.update("x".to_string(), 20), Some(2));
    assert_eq!(memory.get("x"), Some(&20));
    memory.pop_scope();
    assert_eq!(memory.get("x"), Some(&1));
}

#[test]
fn memory_update_outer_binding_from_inner_scope() {
    let mut memory = HashMemory::<u32>::new();
    memory.add("x".to_string(), 1);
    memory.push_scope();
    assert_eq!(memory.update("x".to_string(), 7), Some(1));
    assert_eq!(memory.scope_len(1), 0);
    memory.pop_scope();
    assert_eq!(memory.get("x"), Some(&7));
}

#[test]
fn memory_update_unknown_name_changes_nothing() {
    let mut memory = HashMemory::<u32>::new();
    memory.add("x".to_string(), 1);
    assert_eq!(memory.update("y".to_string(), 7), None);
    assert_eq!(memory.get("y"), None);
    assert_eq!(memory.scope_len(0), 1);
}

#[test]
fn scope_round_trip_restores_bindings() {
    let mut memory = HashMemory::<u32>::default();
    memory.add("x".to_string(), 1);
    memory.add("y".to_string(), 2);
    memory.push_scope();
    memory.add("x".to_string(), 10);
    memory.add("z".to_string(), 30);
    memory.add("x".to_string(), 11);
    assert_eq!(memory.get("x"), Some(&11));
    memory.pop_scope();
    assert_eq!(memory.depth(), 1);
    assert_eq!(memory.get("x"), Some(&1));
    assert_eq!(memory.get("y"), Some(&2));
    assert_eq!(memory.get("z"), None);
}
