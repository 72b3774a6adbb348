use imp::ast::Value;
use imp::error::NamespaceError;
use imp::namespace::{NameSpace, VNameSpace};

#[test]
fn root_is_empty() {
    let ns = VNameSpace::root();
    assert_eq!(ns.get("x"), None);
    assert!(!ns.is_mutable("x"));
}

#[test]
fn inner_declaration_shadows_until_the_block_ends() {
    let mut ns = VNameSpace::root();
    assert_eq!(ns.add("x".to_string(), Value::Integer(1)), Ok(()));
    ns.enter_block();
    assert_eq!(ns.get("x"), Some(Value::Integer(1)));
    assert_eq!(ns.add("x".to_string(), Value::Integer(2)), Ok(()));
    assert_eq!(ns.get("x"), Some(Value::Integer(2)));
    assert_eq!(ns.exit_block(), Ok(()));
    assert_eq!(ns.get("x"), Some(Value::Integer(1)));
}

#[test]
fn redeclaration_in_one_frame_fails() {
    let mut ns = VNameSpace::root();
    assert_eq!(ns.add("x".to_string(), Value::Integer(1)), Ok(()));
    assert_eq!(ns.add("x".to_string(), Value::Integer(2)), Err(NamespaceError::AlreadyDefined));
    assert_eq!(ns.add_mutable("x".to_string(), Value::Integer(3)), Err(NamespaceError::AlreadyDefined));
    assert_eq!(ns.get("x"), Some(Value::Integer(1)));
    assert!(!ns.is_mutable("x"));
    assert_eq!(ns.add_mutable("y".to_string(), Value::Boolean(true)), Ok(()));
    assert_eq!(ns.add("y".to_string(), Value::Unit), Err(NamespaceError::AlreadyDefined));
    assert_eq!(ns.get("y"), Some(Value::Boolean(true)));
}

#[test]
fn only_mutable_names_are_mutated() {
    let mut ns = VNameSpace::root();
    assert_eq!(ns.add("x".to_string(), Value::Integer(1)), Ok(()));
    assert_eq!(ns.mutate("x".to_string(), Value::Integer(2)), Err(NamespaceError::NotMutable));
    assert_eq!(ns.get("x"), Some(Value::Integer(1)));
    assert_eq!(ns.add_mutable("y".to_string(), Value::Integer(1)), Ok(()));
    assert!(ns.is_mutable("y"));
    assert_eq!(ns.mutate("y".to_string(), Value::Integer(2)), Ok(()));
    assert_eq!(ns.get("y"), Some(Value::Integer(2)));
    assert!(ns.is_mutable("y"));
    assert_eq!(ns.mutate("z".to_string(), Value::Integer(2)), Err(NamespaceError::NotMutable));
    assert_eq!(ns.get("z"), None);
}

#[test]
fn mutation_reaches_the_innermost_binding() {
    let mut ns = VNameSpace::root();
    assert_eq!(ns.add_mutable("x".to_string(), Value::Integer(1)), Ok(()));
    ns.enter_block();
    assert_eq!(ns.mutate("x".to_string(), Value::Integer(5)), Ok(()));
    assert_eq!(ns.get("x"), Some(Value::Integer(5)));
    assert_eq!(ns.add("x".to_string(), Value::Integer(10)), Ok(()));
    assert!(ns.is_mutable("x"));
    assert_eq!(ns.mutate("x".to_string(), Value::Integer(11)), Ok(()));
    assert_eq!(ns.get("x"), Some(Value::Integer(11)));
    assert_eq!(ns.exit_block(), Ok(()));
    assert_eq!(ns.get("x"), Some(Value::Integer(5)));
}

#[test]
fn mutability_ends_with_its_frame() {
    let mut ns = VNameSpace::root();
    assert_eq!(ns.add("x".to_string(), Value::Integer(1)), Ok(()));
    ns.enter_block();
    assert_eq!(ns.add_mutable("x".to_string(), Value::Integer(2)), Ok(()));
    assert!(ns.is_mutable("x"));
    assert_eq!(ns.exit_block(), Ok(()));
    assert!(!ns.is_mutable("x"));
    assert_eq!(ns.mutate("x".to_string(), Value::Integer(3)), Err(NamespaceError::NotMutable));
}

#[test]
fn the_root_frame_is_never_left() {
    let mut ns = VNameSpace::root();
    assert_eq!(ns.exit_block(), Err(NamespaceError::CannotExitRoot));
    assert_eq!(ns.add("x".to_string(), Value::Integer(1)), Ok(()));
    ns.enter_block();
    ns.enter_block();
    assert_eq!(ns.exit_block(), Ok(()));
    assert_eq!(ns.exit_block(), Ok(()));
    assert_eq!(ns.exit_block(), Err(NamespaceError::CannotExitRoot));
    assert_eq!(ns.exit_block(), Err(NamespaceError::CannotExitRoot));
    assert_eq!(ns.get("x"), Some(Value::Integer(1)));
}
