//! The custom type equality: wildcards, transparency, symmetry on samples,
//! and the deliberate failure of transitivity.

use lang_core::types::Type;

fn single(name: &str) -> Type {
    Type::Single(name.to_string())
}

fn int_t() -> Type {
    single("Int")
}

fn float_t() -> Type {
    single("Float")
}

#[test]
fn wildcard_any_unifies_with_everything() {
    assert!(single("Any").equal(&int_t()));
    assert!(int_t().equal(&single("Any")));
    assert!(single("Any").equal(&Type::Single(String::new())));
}

#[test]
fn single_letter_name_unifies_with_everything() {
    assert!(single("a").equal(&int_t()));
    assert!(int_t().equal(&single("a")));
    assert!(single("b").equal(&single("a")));
}

#[test]
fn equality_is_not_transitive() {
    assert!(single("a").equal(&int_t()));
    assert!(single("a").equal(&float_t()));
    assert!(!int_t().equal(&float_t()));
}

#[test]
fn multi_byte_single_character_is_a_wildcard() {
    assert!(single("\u{3bb}").equal(&int_t()));
    assert!(int_t().equal(&single("\u{3bb}")));
}

#[test]
fn literal_names_compare_by_content() {
    assert!(int_t().equal(&int_t()));
    assert!(!int_t().equal(&single("UInt")));
}

#[test]
fn tuples_compare_elementwise() {
    let t1 = Type::Tuple(vec![int_t(), float_t()]);
    let t2 = Type::Tuple(vec![int_t(), float_t()]);
    let t3 = Type::Tuple(vec![int_t()]);
    let t4 = Type::Tuple(vec![float_t(), float_t()]);
    assert!(t1.equal(&t2));
    assert!(!t1.equal(&t3));
    assert!(!t1.equal(&t4));
}

#[test]
fn tuple_elements_may_unify_through_wildcards() {
    let t1 = Type::Tuple(vec![single("a"), int_t()]);
    let t2 = Type::Tuple(vec![float_t(), int_t()]);
    assert!(t1.equal(&t2));
    assert!(t2.equal(&t1));
}

#[test]
fn references_are_transparent_for_equality() {
    let r = Type::Ref(Box::new(int_t()));
    assert!(r.equal(&int_t()));
    assert!(int_t().equal(&r));
    let rr = Type::Ref(Box::new(Type::Ref(Box::new(int_t()))));
    assert!(rr.equal(&int_t()));
    assert!(!r.equal(&float_t()));
}

#[test]
fn aliases_resolve_to_their_target_for_equality() {
    let al = Type::Alias(Box::new(single("MyInt")), Box::new(int_t()));
    assert!(al.equal(&int_t()));
    assert!(int_t().equal(&al));
    assert!(!al.equal(&single("MyInt")));
}

#[test]
fn unit_equals_only_unit() {
    assert!(Type::Unit.equal(&Type::Unit));
    assert!(!Type::Unit.equal(&int_t()));
    assert!(!int_t().equal(&Type::Unit));
}

#[test]
fn function_signatures_compare_pairwise() {
    let f1 = Type::Function {
        parameters: vec![int_t(), int_t()],
        effects: vec![],
        return_type: Box::new(int_t()),
    };
    let f2 = Type::Function {
        parameters: vec![int_t(), int_t()],
        effects: vec![],
        return_type: Box::new(int_t()),
    };
    let f3 = Type::Function {
        parameters: vec![int_t()],
        effects: vec![],
        return_type: Box::new(int_t()),
    };
    let f4 = Type::Function {
        parameters: vec![int_t(), int_t()],
        effects: vec![],
        return_type: Box::new(float_t()),
    };
    assert!(f1.equal(&f2));
    assert!(!f1.equal(&f3));
    assert!(!f1.equal(&f4));
}

#[test]
fn type_lists_compare_name_and_parameters() {
    let l1 = Type::TypeList { name: Box::new(single("List")), parameters: vec![int_t()] };
    let l2 = Type::TypeList { name: Box::new(single("List")), parameters: vec![int_t()] };
    let l3 = Type::TypeList { name: Box::new(single("List")), parameters: vec![float_t()] };
    assert!(l1.equal(&l2));
    assert!(!l1.equal(&l3));
}

#[test]
fn different_shapes_do_not_unify() {
    let tup = Type::Tuple(vec![int_t()]);
    let lst = Type::TypeList { name: Box::new(single("List")), parameters: vec![int_t()] };
    assert!(!tup.equal(&lst));
    assert!(!tup.equal(&int_t()));
}

#[test]
fn equality_operator_is_the_custom_relation() {
    assert!(single("a") == int_t());
    assert!(int_t() != float_t());
}

#[test]
fn is_reference_detects_only_reference_types() {
    assert!(Type::Ref(Box::new(int_t())).is_reference());
    assert!(!int_t().is_reference());
    assert!(!Type::Unit.is_reference());
}
