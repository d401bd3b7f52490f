//! Function resolution and the invocation protocol: the four callable
//! sources, argument binding, spawning, and the call-time failures.

use lang_core::errors::Error;
use lang_core::interpreter::{Environment, Interpreter, Invocation};
use lang_core::scope::Scope;
use lang_core::types::Type;
use lang_core::values::Value;

fn single(name: &str) -> Type {
    Type::Single(name.to_string())
}

fn function(
    threaded: bool,
    parameters: Vec<(&str, Option<Type>)>,
    return_type: Type,
    body: &str,
) -> Value {
    Value::Function {
        threaded,
        parameters: parameters.into_iter().map(|(n, t)| (n.to_string(), t)).collect(),
        effects: vec![],
        return_type: Box::new(return_type),
        closure: Scope::new(),
        body: body.to_string(),
    }
}

/// A stand-in for the out-of-scope statement evaluator: interprets the few
/// body handles these tests register, against the bound scope.
fn evaluate(scope: &Scope, body: &str) -> Value {
    match body {
        "int-eq" => {
            let x = scope.get(&"x".to_string()).expect("x bound");
            let y = scope.get(&"y".to_string()).expect("y bound");
            Value::Int(if x == y { 1 } else { 0 })
        }
        "forty-two" => Value::Int(42),
        _ => Value::Int(0),
    }
}

#[test]
fn calling_an_unregistered_name_fails_with_unbound_name() {
    let mut env = Environment::new();
    let interp = Interpreter::new();
    let r = interp.call_function(&mut env, "missing", vec![], &Scope::new());
    assert!(matches!(r, Err(Error::UnboundName(n)) if n == "missing"));
}

#[test]
fn calling_a_non_function_fails_with_invalid_call() {
    let mut env = Environment::new();
    env.add_function("x", Value::Int(1));
    let interp = Interpreter::new();
    let r = interp.call_function(&mut env, "x", vec![], &Scope::new());
    assert!(matches!(r, Err(Error::InvalidCall(n)) if n == "x"));
}

#[test]
fn named_function_resolves_and_binds_arguments() {
    let mut env = Environment::new();
    env.add_function(
        "id",
        function(false, vec![("x", Some(single("Int")))], single("Int"), "body-id"),
    );
    let interp = Interpreter::new();
    let r = interp.call_function(&mut env, "id", vec![Value::Int(5)], &Scope::new());
    match r {
        Ok(Invocation::Direct { scope, body }) => {
            assert_eq!(body, "body-id");
            assert_eq!(scope.get(&"x".to_string()), Some(&Value::Int(5)));
        }
        other => panic!("expected a direct invocation, got {:?}", other.is_ok()),
    }
}

#[test]
fn argument_type_mismatch_names_function_and_types() {
    let mut env = Environment::new();
    env.add_function(
        "id",
        function(false, vec![("x", Some(single("Int")))], single("Int"), "body-id"),
    );
    let interp = Interpreter::new();
    let r = interp.call_function(&mut env, "id", vec![Value::Char('c')], &Scope::new());
    match r {
        Err(Error::TypeMismatch { function: Some(f), expected, actual }) => {
            assert_eq!(f, "id");
            assert_eq!(expected.render(), "Int");
            assert_eq!(actual.render(), "Char");
        }
        _ => panic!("expected a call-site type mismatch"),
    }
}

#[test]
fn wildcard_parameter_accepts_any_argument() {
    let mut env = Environment::new();
    env.add_function("any", function(false, vec![("x", None)], single("Int"), "b"));
    let interp = Interpreter::new();
    let r = interp.call_function(&mut env, "any", vec![Value::Char('c')], &Scope::new());
    assert!(r.is_ok());
}

#[test]
fn local_variable_holding_a_function_is_callable() {
    let mut env = Environment::new();
    let interp = Interpreter::new();
    let mut locals = Scope::new();
    locals.insert("f".to_string(), function(false, vec![], single("Int"), "forty-two"));
    let r = interp.call_function(&mut env, "f", vec![], &locals);
    match r {
        Ok(Invocation::Direct { scope, body }) => {
            assert_eq!(evaluate(&scope, &body), Value::Int(42));
        }
        _ => panic!("expected a direct invocation"),
    }
}

#[test]
fn typeclass_instance_dispatches_on_first_argument_type() {
    let mut env = Environment::new();
    let eq_class = Type::TypeList {
        name: Box::new(single("Eq")),
        parameters: vec![single("a")],
    };
    let eq_sig = Type::Function {
        parameters: vec![single("a"), single("a")],
        effects: vec![],
        return_type: Box::new(single("Int")),
    };
    let ne_sig = Type::Function {
        parameters: vec![single("a"), single("a")],
        effects: vec![],
        return_type: Box::new(single("Int")),
    };
    env.add_typeclass(eq_class, vec![Ok(eq_sig), Ok(ne_sig)]);

    let int_instance = Type::TypeList {
        name: Box::new(single("Eq")),
        parameters: vec![single("Int")],
    };
    let eq_body = function(
        false,
        vec![("x", Some(single("Int"))), ("y", Some(single("Int")))],
        single("Int"),
        "int-eq",
    );
    let ne_body = function(
        false,
        vec![("x", Some(single("Int"))), ("y", Some(single("Int")))],
        single("Int"),
        "int-ne",
    );
    let registered = env.add_typeclass_instance(
        int_instance,
        vec![("==".to_string(), eq_body), ("!=".to_string(), ne_body)],
    );
    assert!(registered.is_ok());

    let interp = Interpreter::new();
    let r = interp.call_function(
        &mut env,
        "==",
        vec![Value::Int(3), Value::Int(3)],
        &Scope::new(),
    );
    match r {
        Ok(Invocation::Direct { scope, body }) => {
            assert_eq!(body, "int-eq");
            assert_eq!(evaluate(&scope, &body), Value::Int(1));
        }
        _ => panic!("expected dispatch to the Int instance"),
    }
}

#[test]
fn instance_for_an_undeclared_typeclass_fails() {
    let mut env = Environment::new();
    let ord_instance = Type::TypeList {
        name: Box::new(single("Ord")),
        parameters: vec![single("Int")],
    };
    let body = function(false, vec![], single("Int"), "b");
    let r = env.add_typeclass_instance(ord_instance, vec![("<".to_string(), body)]);
    assert!(matches!(r, Err(Error::UnknownTypeclass)));
}

#[test]
fn default_only_function_is_reachable_through_call_function() {
    let mut env = Environment::new();
    let greeter_class = Type::TypeList {
        name: Box::new(single("Greeter")),
        parameters: vec![single("a")],
    };
    let default_body = function(false, vec![], single("Int"), "forty-two");
    env.add_typeclass(greeter_class, vec![Err(("greet".to_string(), default_body))]);
    let interp = Interpreter::new();
    let r = interp.call_function(&mut env, "greet", vec![], &Scope::new());
    match r {
        Ok(Invocation::Direct { scope, body }) => {
            assert_eq!(body, "forty-two");
            assert_eq!(evaluate(&scope, &body), Value::Int(42));
        }
        _ => panic!("expected the default body to be reachable"),
    }
}

#[test]
fn named_function_shadows_typeclass_default() {
    let mut env = Environment::new();
    let class = Type::TypeList {
        name: Box::new(single("Greeter")),
        parameters: vec![single("a")],
    };
    let default_body = function(false, vec![], single("Int"), "from-default");
    env.add_typeclass(class, vec![Err(("greet".to_string(), default_body))]);
    env.add_function("greet", function(false, vec![], single("Int"), "from-table"));
    let interp = Interpreter::new();
    let r = interp.call_function(&mut env, "greet", vec![], &Scope::new());
    match r {
        Ok(Invocation::Direct { body, .. }) => assert_eq!(body, "from-table"),
        _ => panic!("expected the named function to win"),
    }
}

#[test]
fn spawned_call_returns_a_promise_without_blocking() {
    let mut env = Environment::new();
    env.add_function(
        "bg",
        function(true, vec![("x", Some(single("Int")))], single("Int"), "forty-two"),
    );
    let interp = Interpreter::new();
    let r = interp.call_function(&mut env, "bg", vec![Value::Int(1)], &Scope::new());
    match r {
        Ok(Invocation::Spawned { scope, body, promise, .. }) => {
            assert_eq!(body, "forty-two");
            assert_eq!(scope.get(&"x".to_string()), Some(&Value::Int(1)));
            match promise {
                Value::Promise(_, t) => assert_eq!(t.render(), "Int"),
                _ => panic!("expected a promise value"),
            }
        }
        _ => panic!("expected a spawned invocation"),
    }
}

#[test]
fn each_spawn_gets_a_fresh_promise_handle() {
    let mut env = Environment::new();
    env.add_function("bg", function(true, vec![], single("Int"), "b"));
    let interp = Interpreter::new();
    let first = interp.call_function(&mut env, "bg", vec![], &Scope::new());
    let second = interp.call_function(&mut env, "bg", vec![], &Scope::new());
    let h1 = match first {
        Ok(Invocation::Spawned { promise: Value::Promise(h, _), .. }) => h,
        _ => panic!("expected a spawned invocation"),
    };
    let h2 = match second {
        Ok(Invocation::Spawned { promise: Value::Promise(h, _), .. }) => h,
        _ => panic!("expected a spawned invocation"),
    };
    assert_ne!(h1, h2);
}

#[test]
fn spawned_call_with_a_reference_parameter_fails_up_front() {
    let mut env = Environment::new();
    env.add_function(
        "bg",
        function(
            true,
            vec![("x", Some(Type::Ref(Box::new(single("Int")))))],
            single("Int"),
            "b",
        ),
    );
    let interp = Interpreter::new();
    let r = interp.call_function(&mut env, "bg", vec![Value::Int(1)], &Scope::new());
    assert!(matches!(r, Err(Error::ReferenceInThreadedCall)));
}

#[test]
fn direct_call_with_a_reference_parameter_is_allowed() {
    let mut env = Environment::new();
    env.add_function(
        "inplace",
        function(
            false,
            vec![("x", Some(Type::Ref(Box::new(single("Int")))))],
            single("Int"),
            "b",
        ),
    );
    let interp = Interpreter::new();
    let r = interp.call_function(&mut env, "inplace", vec![Value::Int(1)], &Scope::new());
    assert!(r.is_ok());
}

#[test]
fn closure_scope_is_visible_to_the_body() {
    let mut env = Environment::new();
    let mut closure = Scope::new();
    closure.insert("x".to_string(), Value::Int(3));
    closure.insert("y".to_string(), Value::Int(3));
    env.add_function(
        "closed",
        Value::Function {
            threaded: false,
            parameters: vec![],
            effects: vec![],
            return_type: Box::new(single("Int")),
            closure,
            body: "int-eq".to_string(),
        },
    );
    let interp = Interpreter::new();
    let r = interp.call_function(&mut env, "closed", vec![], &Scope::new());
    match r {
        Ok(Invocation::Direct { scope, body }) => {
            assert_eq!(evaluate(&scope, &body), Value::Int(1));
        }
        _ => panic!("expected a direct invocation"),
    }
}

#[test]
fn bound_parameters_shadow_the_closure() {
    let mut env = Environment::new();
    let mut closure = Scope::new();
    closure.insert("x".to_string(), Value::Int(100));
    env.add_function(
        "shadow",
        Value::Function {
            threaded: false,
            parameters: vec![("x".to_string(), Some(single("Int")))],
            effects: vec![],
            return_type: Box::new(single("Int")),
            closure,
            body: "b".to_string(),
        },
    );
    let interp = Interpreter::new();
    let r = interp.call_function(&mut env, "shadow", vec![Value::Int(1)], &Scope::new());
    match r {
        Ok(Invocation::Direct { scope, .. }) => {
            assert_eq!(scope.get(&"x".to_string()), Some(&Value::Int(1)));
        }
        _ => panic!("expected a direct invocation"),
    }
}

#[test]
fn extra_arguments_beyond_the_parameters_are_ignored() {
    let mut env = Environment::new();
    env.add_function(
        "one",
        function(false, vec![("x", Some(single("Int")))], single("Int"), "b"),
    );
    let interp = Interpreter::new();
    let r = interp.call_function(
        &mut env,
        "one",
        vec![Value::Int(1), Value::Char('c')],
        &Scope::new(),
    );
    assert!(r.is_ok());
}

#[test]
fn reregistered_instance_shadows_the_earlier_one() {
    let mut env = Environment::new();
    let show_class = Type::TypeList {
        name: Box::new(single("Show")),
        parameters: vec![single("a")],
    };
    env.add_typeclass(show_class, vec![]);
    let int_instance = || Type::TypeList {
        name: Box::new(single("Show")),
        parameters: vec![single("Int")],
    };
    let first = function(false, vec![("x", Some(single("Int")))], single("Int"), "first");
    let second = function(false, vec![("x", Some(single("Int")))], single("Int"), "second");
    env.add_typeclass_instance(int_instance(), vec![("show".to_string(), first)])
        .expect("declared class");
    env.add_typeclass_instance(int_instance(), vec![("show".to_string(), second)])
        .expect("declared class");
    let interp = Interpreter::new();
    let r = interp.call_function(&mut env, "show", vec![Value::Int(1)], &Scope::new());
    match r {
        Ok(Invocation::Direct { body, .. }) => assert_eq!(body, "second"),
        _ => panic!("expected dispatch to the latest instance"),
    }
}

#[test]
fn call_resolution_prefers_instances_over_defaults() {
    let mut env = Environment::new();
    let class = Type::TypeList {
        name: Box::new(single("Show")),
        parameters: vec![single("a")],
    };
    let default_body = function(false, vec![("x", None)], single("Int"), "from-default");
    env.add_typeclass(class, vec![Err(("show".to_string(), default_body))]);
    let int_instance = Type::TypeList {
        name: Box::new(single("Show")),
        parameters: vec![single("Int")],
    };
    let instance_body = function(false, vec![("x", Some(single("Int")))], single("Int"), "from-instance");
    env.add_typeclass_instance(int_instance, vec![("show".to_string(), instance_body)])
        .expect("declared class");
    let interp = Interpreter::new();
    let with_int = interp.call_function(&mut env, "show", vec![Value::Int(1)], &Scope::new());
    match with_int {
        Ok(Invocation::Direct { body, .. }) => assert_eq!(body, "from-instance"),
        _ => panic!("expected the instance to win"),
    }
    let with_char = interp.call_function(&mut env, "show", vec![Value::Char('c')], &Scope::new());
    match with_char {
        Ok(Invocation::Direct { body, .. }) => assert_eq!(body, "from-default"),
        _ => panic!("expected the default as a fallback"),
    }
}
