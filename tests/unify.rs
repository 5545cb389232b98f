use hm_infer::lang::Type;
use hm_infer::unify::{unify, UnifyError};

fn var(x: &str) -> Type {
    Type::Var(x.to_string())
}

fn fun(a: Type, r: Type) -> Type {
    Type::Function { arg: Box::new(a), result: Box::new(r) }
}

#[test]
fn unify_unit() {
    let tau1 = Type::Unit;
    let tau2 = Type::Unit;
    let s = unify(&tau1, &tau2).unwrap();
    assert_eq!(s.len(), 0);
}

#[test]
fn unify_unit_var() {
    let tau1 = Type::Var("x".to_string());
    let tau2 = Type::Unit;
    let s = unify(&tau1, &tau2).unwrap();
    assert_eq!(s.len(), 1);
    assert_eq!(s.get(&"x".to_string()), Some(&Type::Unit));
}

#[test]
fn unify_unit_with_function_fails() {
    let r = unify(&Type::Unit, &fun(var("a"), Type::Unit));
    match r {
        Err(UnifyError::Mismatch { expected, found }) => {
            assert_eq!(expected, Type::Unit);
            assert_eq!(found, fun(var("a"), Type::Unit));
        },
        _ => panic!("expected a mismatch"),
    }
}

#[test]
fn unify_occurs_check_fails() {
    let r = unify(&var("x"), &fun(var("x"), Type::Unit));
    match r {
        Err(UnifyError::Occurs { var: x, ty }) => {
            assert_eq!(x, "x");
            assert_eq!(ty, fun(var("x"), Type::Unit));
        },
        _ => panic!("expected an occurs-check failure"),
    }
}

#[test]
fn unify_identical_types_gives_empty() {
    let t = fun(var("a"), fun(var("b"), Type::Unit));
    let s = unify(&t, &t.clone()).unwrap();
    assert_eq!(s.len(), 0);
}

#[test]
fn unify_var_on_right() {
    let s = unify(&fun(Type::Unit, Type::Unit), &var("y")).unwrap();
    assert_eq!(s.len(), 1);
    assert_eq!(s.get(&"y".to_string()), Some(&fun(Type::Unit, Type::Unit)));
}

#[test]
fn unify_functions_binds_in_order() {
    let t1 = fun(var("a"), var("b"));
    let t2 = fun(Type::Unit, var("a"));
    let s = unify(&t1, &t2).unwrap();
    assert_eq!(s.len(), 2);
    assert_eq!(s.get(&"a".to_string()), Some(&Type::Unit));
    assert_eq!(s.get(&"b".to_string()), Some(&Type::Unit));
    assert_eq!(t1.substitute_many(&s), t2.substitute_many(&s));
}

#[test]
fn unify_two_variables() {
    let s = unify(&var("a"), &var("b")).unwrap();
    assert_eq!(s.len(), 1);
    assert_eq!(s.get(&"a".to_string()), Some(&var("b")));
}

#[test]
fn unify_nested_clash_fails() {
    let r = unify(&fun(var("a"), Type::Unit), &fun(Type::Unit, fun(Type::Unit, Type::Unit)));
    assert!(matches!(r, Err(UnifyError::Mismatch { .. })));
}
