//! The three global-variable tiers: read order, write order, sharing
//! between interpreter clones, and the immutability rules.

use lang_core::errors::Error;
use lang_core::interpreter::{Environment, Interpreter};
use lang_core::scope::Scope;
use lang_core::values::Value;

#[test]
fn unknown_name_reads_as_none() {
    let env = Environment::new();
    let interp = Interpreter::new();
    assert_eq!(interp.get_value(&env, "nope", &Scope::new()), None);
}

#[test]
fn assigning_an_unbound_name_fails() {
    let mut env = Environment::new();
    let mut interp = Interpreter::new();
    let mut scope = Scope::new();
    let r = interp.set_value(&mut env, "nope", &mut scope, Value::Int(1));
    assert!(matches!(r, Err(Error::UnboundName(n)) if n == "nope"));
}

#[test]
fn shared_immutable_globals_are_readable_everywhere() {
    let mut env = Environment::new();
    env.declare_shared_global("answer", Value::Int(42));
    let interp = Interpreter::new();
    assert_eq!(interp.get_value(&env, "answer", &Scope::new()), Some(Value::Int(42)));
    let clone = interp.new_for_thread();
    assert_eq!(clone.get_value(&env, "answer", &Scope::new()), Some(Value::Int(42)));
}

#[test]
fn assignment_to_a_shared_immutable_global_fails_from_any_thread() {
    let mut env = Environment::new();
    env.declare_shared_global("answer", Value::Int(42));
    let mut interp = Interpreter::new();
    let mut scope = Scope::new();
    let r = interp.set_value(&mut env, "answer", &mut scope, Value::Int(7));
    assert!(matches!(r, Err(Error::ImmutableAssignment)));
    let mut clone = interp.new_for_thread();
    let r2 = clone.set_value(&mut env, "answer", &mut scope, Value::Int(7));
    assert!(matches!(r2, Err(Error::ImmutableAssignment)));
    assert_eq!(interp.get_value(&env, "answer", &Scope::new()), Some(Value::Int(42)));
}

#[test]
fn shared_mutable_global_updates_are_seen_by_other_interpreters() {
    let mut env = Environment::new();
    env.declare_mutable_global("x", Value::Int(5));
    let mut writer = Interpreter::new();
    let reader = writer.new_for_thread();
    assert_eq!(reader.get_value(&env, "x", &Scope::new()), Some(Value::Int(5)));
    let mut scope = Scope::new();
    assert!(writer.set_value(&mut env, "x", &mut scope, Value::Int(10)).is_ok());
    let observed = reader.get_value(&env, "x", &Scope::new());
    assert!(observed == Some(Value::Int(5)) || observed == Some(Value::Int(10)));
    assert_eq!(observed, Some(Value::Int(10)));
}

#[test]
fn shared_mutable_assignment_is_type_stable() {
    let mut env = Environment::new();
    env.declare_mutable_global("x", Value::Int(5));
    let mut interp = Interpreter::new();
    let mut scope = Scope::new();
    let r = interp.set_value(&mut env, "x", &mut scope, Value::Char('c'));
    assert!(matches!(r, Err(Error::TypeMismatch { .. })));
    assert_eq!(interp.get_value(&env, "x", &Scope::new()), Some(Value::Int(5)));
}

#[test]
fn thread_local_globals_are_not_inherited_by_clones() {
    let mut env = Environment::new();
    let mut interp = Interpreter::new();
    interp.declare_thread_global(&mut env, "private", Value::Int(1), false);
    assert_eq!(interp.get_value(&env, "private", &Scope::new()), Some(Value::Int(1)));
    let clone = interp.new_for_thread();
    assert_eq!(clone.get_value(&env, "private", &Scope::new()), None);
}

#[test]
fn mutable_thread_local_global_accepts_assignment() {
    let mut env = Environment::new();
    let mut interp = Interpreter::new();
    interp.declare_thread_global(&mut env, "n", Value::Int(1), true);
    let mut scope = Scope::new();
    assert!(interp.set_value(&mut env, "n", &mut scope, Value::Int(2)).is_ok());
    assert_eq!(interp.get_value(&env, "n", &Scope::new()), Some(Value::Int(2)));
}

#[test]
fn immutable_thread_local_global_rejects_assignment() {
    let mut env = Environment::new();
    let mut interp = Interpreter::new();
    interp.declare_thread_global(&mut env, "n", Value::Int(1), false);
    let mut scope = Scope::new();
    let r = interp.set_value(&mut env, "n", &mut scope, Value::Int(2));
    assert!(matches!(r, Err(Error::ImmutableAssignment)));
}

#[test]
fn reads_prefer_the_function_local_scope() {
    let mut env = Environment::new();
    env.declare_shared_global("x", Value::Int(1));
    let mut interp = Interpreter::new();
    interp.declare_thread_global(&mut env, "x", Value::Int(2), false);
    let mut scope = Scope::new();
    scope.insert("x".to_string(), Value::Int(3));
    assert_eq!(interp.get_value(&env, "x", &scope), Some(Value::Int(3)));
    assert_eq!(interp.get_value(&env, "x", &Scope::new()), Some(Value::Int(2)));
}

#[test]
fn writes_prefer_the_shared_mutable_tier_over_inner_scopes() {
    let mut env = Environment::new();
    env.declare_mutable_global("x", Value::Int(1));
    let mut interp = Interpreter::new();
    interp.declare_thread_global(&mut env, "x", Value::Int(2), true);
    let mut scope = Scope::new();
    scope.insert("x".to_string(), Value::Int(3));
    assert!(interp.set_value(&mut env, "x", &mut scope, Value::Int(9)).is_ok());
    assert_eq!(interp.get_value(&env, "x", &scope), Some(Value::Int(3)));
    let fresh = interp.new_for_thread();
    assert_eq!(fresh.get_value(&env, "x", &Scope::new()), Some(Value::Int(9)));
}

#[test]
fn scope_entry_assignment_binds_unconditionally() {
    let mut env = Environment::new();
    let mut interp = Interpreter::new();
    let mut scope = Scope::new();
    scope.insert("v".to_string(), Value::Int(4));
    let r = interp.set_value(&mut env, "v", &mut scope, Value::Char('c'));
    assert!(matches!(r, Err(Error::TypeMismatch { .. })));
    assert_eq!(scope.get(&"v".to_string()), Some(&Value::Int(4)));
    assert!(interp.set_value(&mut env, "v", &mut scope, Value::Int(6)).is_ok());
    assert_eq!(scope.get(&"v".to_string()), Some(&Value::Int(6)));
}
