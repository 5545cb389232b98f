use hm_infer::infer::{algo_w, apply_substitution, Assumptions, InferError};
use hm_infer::lang::{Expr, NameSupply, Type, TypeScheme, TypeSubstitution};
use hm_infer::unify::UnifyError;

fn var(x: &str) -> Type {
    Type::Var(x.to_string())
}

fn fun(a: Type, r: Type) -> Type {
    Type::Function { arg: Box::new(a), result: Box::new(r) }
}

#[test]
fn w_var() {
    let mut a = Assumptions::new();
    a.insert(
        "x".to_string(),
        TypeScheme::Poly {
            var: "a".to_string(),
            body: Box::new(TypeScheme::Type(Type::Var("a".to_string()))),
        },
    );
    let e = Expr::Var("x".to_string());
    let mut supply = NameSupply::starting_at(1);
    let (s, tau) = algo_w(&a, &e, &mut supply).unwrap();
    assert_eq!(tau, Type::Var("a1".to_string()));
    assert_eq!(s.len(), 0);
}

#[test]
fn w_app() {
    let mut a = Assumptions::new();
    a.insert(
        "x".to_string(),
        TypeScheme::Type(Type::Function {
            arg: Box::new(Type::Var("a".to_string())),
            result: Box::new(Type::Unit),
        }),
    );
    let e = Expr::App { fun: Box::new(Expr::Var("x".to_string())), arg: Box::new(Expr::Unit) };
    let mut supply = NameSupply::new();
    let (s, tau) = algo_w(&a, &e, &mut supply).unwrap();
    assert_eq!(s.get(&"a".to_string()), Some(&Type::Unit));
    assert_eq!(tau, Type::Unit);
}

#[test]
fn w_lam() {
    let a = Assumptions::new();
    let e = Expr::Lambda {
        param: "x".to_string(),
        body: Box::new(Expr::Var("x".to_string())),
    };
    let mut supply = NameSupply::starting_at(1);
    let (s, tau) = algo_w(&a, &e, &mut supply).unwrap();
    assert_eq!(s.len(), 0);
    assert_eq!(
        tau,
        Type::Function {
            arg: Box::new(Type::Var("a1".to_string())),
            result: Box::new(Type::Var("a1".to_string())),
        }
    );
}

#[test]
fn infer_unit() {
    let a = Assumptions::new();
    let mut supply = NameSupply::new();
    let (s, tau) = algo_w(&a, &Expr::Unit, &mut supply).unwrap();
    assert_eq!(s.len(), 0);
    assert_eq!(tau, Type::Unit);
    assert_eq!(supply.next, 0);
}

#[test]
fn infer_poly_var_is_fresh_instance() {
    let mut a = Assumptions::new();
    a.insert(
        "x".to_string(),
        TypeScheme::Poly { var: "a".to_string(), body: Box::new(TypeScheme::Type(var("a"))) },
    );
    let mut supply = NameSupply::new();
    let (s, tau) = algo_w(&a, &Expr::Var("x".to_string()), &mut supply).unwrap();
    assert_eq!(s.len(), 0);
    assert_ne!(tau, var("a"));
    assert_eq!(tau, var("a0"));
    let (_, tau2) = algo_w(&a, &Expr::Var("x".to_string()), &mut supply).unwrap();
    assert_ne!(tau, tau2);
}

#[test]
fn infer_identity_lambda() {
    let a = Assumptions::new();
    let e = Expr::Lambda { param: "x".to_string(), body: Box::new(Expr::Var("x".to_string())) };
    let mut supply = NameSupply::new();
    let (s, tau) = algo_w(&a, &e, &mut supply).unwrap();
    assert_eq!(s.len(), 0);
    assert_eq!(tau, fun(var("a0"), var("a0")));
}

#[test]
fn infer_application_result() {
    let mut a = Assumptions::new();
    a.insert("x".to_string(), TypeScheme::Type(fun(var("a"), Type::Unit)));
    let e = Expr::App { fun: Box::new(Expr::Var("x".to_string())), arg: Box::new(Expr::Unit) };
    let mut supply = NameSupply::new();
    let (s, tau) = algo_w(&a, &e, &mut supply).unwrap();
    assert_eq!(s.get(&"a".to_string()), Some(&Type::Unit));
    assert_eq!(s.get(&"a0".to_string()), Some(&Type::Unit));
    assert_eq!(s.len(), 2);
    assert_eq!(tau, Type::Unit);
    assert_eq!(supply.next, 1);
}

#[test]
fn infer_lambda_applied_to_unit() {
    let a = Assumptions::new();
    let id = Expr::Lambda { param: "x".to_string(), body: Box::new(Expr::Var("x".to_string())) };
    let e = Expr::App { fun: Box::new(id), arg: Box::new(Expr::Unit) };
    let mut supply = NameSupply::new();
    let (_, tau) = algo_w(&a, &e, &mut supply).unwrap();
    assert_eq!(tau, Type::Unit);
}

#[test]
fn infer_unbound_variable() {
    let a = Assumptions::new();
    let mut supply = NameSupply::new();
    let r = algo_w(&a, &Expr::Var("y".to_string()), &mut supply);
    match r {
        Err(InferError::UnboundVariable(y)) => assert_eq!(y, "y"),
        _ => panic!("expected an unbound variable"),
    }
}

#[test]
fn infer_let_is_unsupported() {
    let a = Assumptions::new();
    let e = Expr::Let {
        var: "x".to_string(),
        value: Box::new(Expr::Unit),
        body: Box::new(Expr::Var("x".to_string())),
    };
    let mut supply = NameSupply::new();
    assert!(matches!(algo_w(&a, &e, &mut supply), Err(InferError::UnsupportedConstruct)));
}

#[test]
fn infer_applying_unit_fails() {
    let a = Assumptions::new();
    let e = Expr::App { fun: Box::new(Expr::Unit), arg: Box::new(Expr::Unit) };
    let mut supply = NameSupply::new();
    let r = algo_w(&a, &e, &mut supply);
    assert!(matches!(r, Err(InferError::Unification(UnifyError::Mismatch { .. }))));
}

#[test]
fn infer_self_application_fails_occurs_check() {
    let a = Assumptions::new();
    let e = Expr::Lambda {
        param: "x".to_string(),
        body: Box::new(Expr::App {
            fun: Box::new(Expr::Var("x".to_string())),
            arg: Box::new(Expr::Var("x".to_string())),
        }),
    };
    let mut supply = NameSupply::new();
    let r = algo_w(&a, &e, &mut supply);
    assert!(matches!(r, Err(InferError::Unification(UnifyError::Occurs { .. }))));
}

#[test]
fn infer_names_exhausted() {
    let a = Assumptions::new();
    let e = Expr::Lambda { param: "x".to_string(), body: Box::new(Expr::Unit) };
    let mut supply = NameSupply::starting_at(u64::MAX);
    assert!(matches!(algo_w(&a, &e, &mut supply), Err(InferError::NamesExhausted)));
}

#[test]
fn assumptions_shadow_and_extend() {
    let mut a = Assumptions::new();
    a.insert("x".to_string(), TypeScheme::Type(Type::Unit));
    a.insert("x".to_string(), TypeScheme::Type(var("b")));
    assert_eq!(a.get(&"x".to_string()), Some(&TypeScheme::Type(var("b"))));
    let mut s = TypeSubstitution::new();
    s.insert("y".to_string(), Type::Unit);
    let a2 = apply_substitution(&a, &s);
    assert_eq!(a2.get(&"y".to_string()), Some(&TypeScheme::Type(Type::Unit)));
    assert_eq!(a2.get(&"x".to_string()), Some(&TypeScheme::Type(var("b"))));
    assert_eq!(a.get(&"y".to_string()), None);
}
