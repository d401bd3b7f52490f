//! Exact surface renderings of each type shape.

use lang_core::types::Type;

fn single(name: &str) -> Type {
    Type::Single(name.to_string())
}

#[test]
fn renders_scalar_name() {
    assert_eq!(single("Int").render(), "Int");
}

#[test]
fn renders_unit() {
    assert_eq!(Type::Unit.render(), "()");
}

#[test]
fn renders_tuple() {
    let t = Type::Tuple(vec![single("Int"), single("Float")]);
    assert_eq!(t.render(), "(Int, Float)");
    assert_eq!(Type::Tuple(vec![single("Int")]).render(), "(Int)");
    assert_eq!(Type::Tuple(vec![]).render(), "()");
}

#[test]
fn renders_function_signature() {
    let f = Type::Function {
        parameters: vec![single("Int"), single("Float")],
        effects: vec![],
        return_type: Box::new(single("Int")),
    };
    assert_eq!(f.render(), "fn(Int, Float)-> Int");
}

#[test]
fn renders_function_effects_each_with_a_space() {
    let f = Type::Function {
        parameters: vec![single("Int")],
        effects: vec![single("IO")],
        return_type: Box::new(single("Int")),
    };
    assert_eq!(f.render(), "fn(Int)IO -> Int");
}

#[test]
fn renders_type_list_application() {
    let l = Type::TypeList {
        name: Box::new(single("List")),
        parameters: vec![single("Int")],
    };
    assert_eq!(l.render(), "(List Int)");
}

#[test]
fn renders_reference_with_ampersand() {
    let r = Type::Ref(Box::new(single("Int")));
    assert_eq!(r.render(), "&Int");
}

#[test]
fn renders_alias_as_its_target() {
    let a = Type::Alias(Box::new(single("MyInt")), Box::new(single("Int")));
    assert_eq!(a.render(), "Int");
}

#[test]
fn renders_nested_types() {
    let l = Type::TypeList {
        name: Box::new(single("List")),
        parameters: vec![Type::Tuple(vec![single("Int"), single("Char")])],
    };
    assert_eq!(l.render(), "(List (Int, Char))");
}
