//! The value model: type derivation, reference cells, snapshots, and the
//! variable binding rules.

use lang_core::errors::Error;
use lang_core::scope::Scope;
use lang_core::types::{Type, TypeUtils};
use lang_core::values::{Store, ValRef, Value};
use lang_core::variable::Variable;

fn single(name: &str) -> Type {
    Type::Single(name.to_string())
}

fn empty_function(body: &str) -> Value {
    Value::Function {
        threaded: false,
        parameters: vec![],
        effects: vec![],
        return_type: Box::new(Type::Unit),
        closure: Scope::new(),
        body: body.to_string(),
    }
}

#[test]
fn scalar_values_have_scalar_types() {
    let store = Store::new();
    assert!(Value::Int(3).get_type(&store).equal(&single("Int")));
    assert!(Value::UInt(3).get_type(&store).equal(&single("UInt")));
    assert!(Value::Float(0).get_type(&store).equal(&single("Float")));
    assert!(Value::Char('x').get_type(&store).equal(&single("Char")));
    assert!(Value::Byte(7).get_type(&store).equal(&single("Byte")));
}

#[test]
fn get_type_is_deterministic_and_idempotent() {
    let store = Store::new();
    let v = Value::Tuple(vec![Value::Int(1), Value::Char('c')]);
    let t1 = v.get_type(&store);
    let t2 = v.get_type(&store);
    assert_eq!(t1.render(), t2.render());
    let t3 = t1.get_type();
    assert_eq!(t1.render(), t3.render());
}

#[test]
fn list_type_uses_the_declared_element_type() {
    let store = Store::new();
    let v = Value::List(vec![Value::Int(1)], single("Int"));
    assert_eq!(v.get_type(&store).render(), "(List Int)");
}

#[test]
fn tuple_type_derives_components() {
    let store = Store::new();
    let v = Value::Tuple(vec![Value::Int(1), Value::Char('c')]);
    assert_eq!(v.get_type(&store).render(), "(Int, Char)");
}

#[test]
fn function_type_reads_declared_parameter_types() {
    let store = Store::new();
    let v = Value::Function {
        threaded: false,
        parameters: vec![
            ("x".to_string(), Some(single("Int"))),
            ("y".to_string(), None),
        ],
        effects: vec![],
        return_type: Box::new(single("Int")),
        closure: Scope::new(),
        body: "b".to_string(),
    };
    assert_eq!(v.get_type(&store).render(), "fn(Int, Any)-> Int");
}

#[test]
fn promise_type_wraps_the_declared_type() {
    let store = Store::new();
    let v = Value::create_promise(0, single("Int"));
    assert_eq!(v.get_type(&store).render(), "(Promise Int)");
}

#[test]
fn alias_value_takes_its_alias_type() {
    let store = Store::new();
    let v = Value::Alias {
        parent: single("Int"),
        name: single("MyInt"),
        value: Box::new(Value::Int(3)),
    };
    assert_eq!(v.get_type(&store).render(), "MyInt");
}

#[test]
fn reference_value_takes_the_type_of_its_cell() {
    let mut store = Store::new();
    let cell = Value::Int(3).new_ref(&mut store);
    assert_eq!(cell.get_type(&store).render(), "Int");
}

#[test]
fn only_references_are_mutable() {
    let mut store = Store::new();
    let cell = Value::Int(3).new_ref(&mut store);
    assert!(cell.is_mutable());
    assert!(cell.is_ref());
    assert!(!Value::Int(3).is_mutable());
    assert!(!Value::Int(3).is_ref());
}

#[test]
fn writes_through_a_reference_are_seen_by_every_alias() {
    let mut store = Store::new();
    let cell = Value::Int(3).new_ref(&mut store);
    let alias = cell.create_reference();
    cell.set_value(&mut store, Value::Int(9));
    assert_eq!(alias.get_immutable(&store), Value::Int(9));
    assert_eq!(cell.get_immutable(&store), Value::Int(9));
}

#[test]
fn set_value_on_a_plain_value_changes_nothing() {
    let mut store = Store::new();
    let v = Value::Int(3);
    v.set_value(&mut store, Value::Int(9));
    assert_eq!(v, Value::Int(3));
}

#[test]
fn snapshots_are_detached_from_the_cell() {
    let mut store = Store::new();
    let cell = Value::Int(3).new_ref(&mut store);
    let snapshot = cell.get_immutable(&store);
    cell.set_value(&mut store, Value::Int(9));
    assert_eq!(snapshot, Value::Int(3));
}

#[test]
fn get_mutable_hands_back_the_aliasing_handle() {
    let mut store = Store::new();
    let cell = Value::Int(3).new_ref(&mut store);
    let handle = cell.get_mutable();
    handle.set_value(&mut store, Value::Int(4));
    assert_eq!(cell.get_immutable(&store), Value::Int(4));
}

#[test]
fn variable_accepts_a_value_of_its_declared_type() {
    let mut store = Store::new();
    let mut var = Variable::new(Value::Int(3), &store);
    assert!(var.assign_value(&mut store, Value::Int(7)).is_err());
    let mut cell_var = Variable::new(Value::Int(3).new_ref(&mut store), &store);
    assert!(cell_var.assign_value(&mut store, Value::Int(7)).is_ok());
    assert_eq!(cell_var.get_immutable(&store), Value::Int(7));
}

#[test]
fn variable_rejects_a_value_of_another_type() {
    let mut store = Store::new();
    let mut var = Variable::new(Value::Int(3).new_ref(&mut store), &store);
    let r = var.assign_value(&mut store, Value::Float(0));
    assert!(matches!(r, Err(Error::TypeMismatch { .. })));
}

#[test]
fn assigning_to_an_immutable_variable_fails() {
    let mut store = Store::new();
    let mut var = Variable::new(Value::Int(3), &store);
    let r = var.assign_value(&mut store, Value::Int(4));
    assert!(matches!(r, Err(Error::ImmutableAssignment)));
}

#[test]
fn an_undeclared_type_reads_as_any_and_accepts_anything() {
    let mut store = Store::new();
    let mut var = Variable::new_declared(None);
    assert!(var.set_value(&mut store, Value::Int(3)).is_ok());
    assert!(var.is_mutable());
    assert!(var.set_value(&mut store, Value::Int(9)).is_ok());
    assert_eq!(var.get_immutable(&store), Value::Int(9));
}

#[test]
fn set_value_gives_an_unbound_variable_a_mutable_cell() {
    let mut store = Store::new();
    let mut var = Variable::new_declared(Some(single("Int")));
    assert!(var.set_value(&mut store, Value::Int(3)).is_ok());
    assert!(var.is_mutable());
    let r = var.set_value(&mut store, Value::Char('c'));
    assert!(matches!(r, Err(Error::TypeMismatch { .. })));
}

#[test]
fn get_mutable_on_a_variable_guards_immutable_data() {
    let mut store = Store::new();
    let var = Variable::new(Value::Int(3), &store);
    assert!(matches!(var.get_mutable(), Err(Error::ImmutableAssignment)));
    let cell_var = Variable::new(Value::Int(3).new_ref(&mut store), &store);
    assert!(cell_var.get_mutable().is_ok());
}

#[test]
fn scope_insert_replaces_and_get_finds() {
    let mut scope = Scope::new();
    scope.insert("x".to_string(), Value::Int(1));
    scope.insert("y".to_string(), Value::Int(2));
    scope.insert("x".to_string(), Value::Int(3));
    assert_eq!(scope.get(&"x".to_string()), Some(&Value::Int(3)));
    assert_eq!(scope.get(&"y".to_string()), Some(&Value::Int(2)));
    assert_eq!(scope.get(&"z".to_string()), None);
}

#[test]
fn function_values_carry_their_body_handle() {
    let store = Store::new();
    let f = empty_function("the-body");
    match &f {
        Value::Function { body, .. } => assert_eq!(body, "the-body"),
        _ => unreachable!(),
    }
    assert_eq!(f.get_type(&store).render(), "fn()-> ()");
}

#[test]
fn val_ref_borrow_reads_the_current_cell_contents() {
    let mut store = Store::new();
    let cell = ValRef::new(Value::Int(3), &mut store);
    assert_eq!(cell.borrow(&store), &Value::Int(3));
    Value::Ref(cell.clone()).set_value(&mut store, Value::Int(8));
    assert_eq!(cell.borrow(&store), &Value::Int(8));
}

#[test]
fn tuple_containing_a_reference_derives_through_the_cell() {
    let mut store = Store::new();
    let cell = Value::Int(3).new_ref(&mut store);
    let v = Value::Tuple(vec![cell, Value::Char('c')]);
    assert_eq!(v.get_type(&store).render(), "(Int, Char)");
}

#[test]
fn absent_declared_type_reads_as_any() {
    let none: Option<Type> = None;
    assert_eq!(TypeUtils::get_type(&none).render(), "Any");
    assert!(!TypeUtils::is_ref(&none));
    let reference: Option<Type> = Some(Type::Ref(Box::new(single("Int"))));
    assert!(TypeUtils::is_ref(&reference));
    assert!(!TypeUtils::is_ref(&Some(single("Int"))));
}

#[test]
fn set_value_overwrites_a_bound_plain_value() {
    let mut store = Store::new();
    let mut var = Variable::new(Value::Int(3), &store);
    assert!(var.set_value(&mut store, Value::Int(7)).is_ok());
    assert_eq!(var.get_immutable(&store), Value::Int(7));
    let r = var.set_value(&mut store, Value::Char('c'));
    assert!(matches!(r, Err(Error::TypeMismatch { .. })));
    assert_eq!(var.get_immutable(&store), Value::Int(7));
}
