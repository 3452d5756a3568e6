use lang_frontend::error::Error;
use lang_frontend::occurs::occurs_check;
use lang_frontend::subst::Subst;
use lang_frontend::type_env::{TypeEnv, TypeResolved, TypeSubstitute};
use lang_frontend::types::{CallConstraint, FuncType, TupleType, Type};

fn tv(id: usize) -> Type {
    Type::TyVar(id, None)
}

fn func(params: Vec<Type>, ret: Type) -> Type {
    Type::Fn(Box::new(FuncType { param_types: params, ret_type: ret }))
}

fn tuple(es: Vec<Type>) -> Type {
    Type::TupleType(Box::new(TupleType { element_tys: es }))
}

#[test]
fn occurs_check_direct_chain_and_constraint() {
    let empty = Subst::new();
    assert!(occurs_check(&empty, &tv(3), &3));
    assert!(occurs_check(&empty, &func(vec![Type::Int32], tuple(vec![tv(3)])), &3));
    assert!(!occurs_check(&empty, &func(vec![Type::Int32], tuple(vec![tv(4)])), &3));
    assert!(!occurs_check(&empty, &Type::Int32, &3));
    assert!(!occurs_check(&empty, &Type::Bool, &3));
    // 1 -> 2 -> Fn([3]) -> Int32
    let chain = Subst::one_with(1, tv(2)).merge(Subst::one_with(2, func(vec![tv(3)], Type::Int32))).unwrap();
    assert!(occurs_check(&chain, &tv(1), &3));
    assert!(!occurs_check(&chain, &tv(1), &5));
    let constrained = Type::TyVar(
        8,
        Some(Box::new(CallConstraint { param_types: vec![Type::Int32], ret_type: tv(3) })),
    );
    assert!(occurs_check(&empty, &constrained, &3));
    assert!(!occurs_check(&empty, &constrained, &4));
}

#[test]
fn unify_rejects_infinite_type() {
    let r = TypeSubstitute::new().unify(tv(0), func(vec![tv(0)], Type::Int32));
    assert!(matches!(r, Err(Error::UnificationFailure(_, _))));
    let r = TypeSubstitute::new().unify(tuple(vec![tv(1)]), tv(1));
    assert!(matches!(r, Err(Error::UnificationFailure(_, _))));
}

#[test]
fn insert_binds_new_and_unifies_bound() {
    let s = TypeSubstitute::new().insert(0, Type::Bool).unwrap();
    assert_eq!(s.look_up(&0), Type::Bool);
    let s = s.insert(0, Type::Bool).unwrap();
    assert!(matches!(s.insert(0, Type::Int32), Err(Error::UnificationFailure(_, _))));
    let s = TypeSubstitute::new().insert(1, tv(2)).unwrap();
    let s = s.insert(1, Type::Int32).unwrap();
    assert_eq!(s.look_up(&1), Type::Int32);
    assert_eq!(s.look_up(&2), Type::Int32);
}

#[test]
fn unify_arity_mismatch_fails() {
    let r = TypeSubstitute::new().unify(func(vec![Type::Int32], Type::Bool), func(vec![], Type::Bool));
    assert!(matches!(r, Err(Error::UnificationFailure(_, _))));
    let r = TypeSubstitute::new().unify(tuple(vec![tv(0)]), tuple(vec![Type::Int32, Type::Bool]));
    assert!(matches!(r, Err(Error::UnificationFailure(_, _))));
}

#[test]
fn unify_function_types() {
    let s = TypeSubstitute::new();
    let s = s.unify(func(vec![Type::Int32], Type::Bool), func(vec![tv(10)], tv(11))).unwrap();
    assert_eq!(s.look_up(&10), Type::Int32);
    assert_eq!(s.look_up(&11), Type::Bool);
}

#[test]
fn unify_int_with_bool_fails() {
    let r = TypeSubstitute::new().unify(Type::Int32, Type::Bool);
    match r {
        Err(Error::UnificationFailure(a, b)) => {
            assert_eq!(a, Type::Int32);
            assert_eq!(b, Type::Bool);
        },
        _ => panic!("expected a unification failure"),
    }
}

#[test]
fn unify_bound_variable_checks_agreement() {
    let s = TypeSubstitute::new().unify(tv(1), Type::Int32).unwrap();
    let s = s.unify(tv(1), Type::Int32).unwrap();
    assert!(matches!(s.unify(tv(1), Type::Bool), Err(Error::UnificationFailure(_, _))));
}

#[test]
fn unify_variables_then_resolve() {
    let s = TypeSubstitute::new().unify(tv(1), tv(2)).unwrap();
    let s = s.unify(tv(2), tuple(vec![Type::Int32, tv(3)])).unwrap();
    let s = s.unify(tv(3), Type::Bool).unwrap();
    assert_eq!(s.look_up(&1), tuple(vec![Type::Int32, Type::Bool]));
    assert_eq!(s.look_up(&7), tuple(vec![]));
}

#[test]
fn type_env_get_is_stable_and_remove_frees_name() {
    let env = TypeEnv::new();
    let (a, env) = env.get("x".to_string());
    let (b, env) = env.get("x".to_string());
    assert_eq!(a, b);
    let (c, env) = env.get("y".to_string());
    assert_ne!(a, c);
    let (d, env) = env.no_name_get();
    assert_ne!(d, a);
    assert_ne!(d, c);
    let env = env.remove(&"x".to_string());
    let (e, _env) = env.get("x".to_string());
    assert_ne!(e, a);
    assert_ne!(e, c);
    assert_ne!(e, d);
}

#[test]
fn type_resolved_table() {
    let env = TypeEnv::new();
    let (x, env) = env.get("x".to_string());
    let (f, env) = env.get("f".to_string());
    let (_u, env) = env.get("u".to_string());
    let s = TypeSubstitute::new().unify(tv(x), Type::Int32).unwrap();
    let s = s.unify(tv(f), func(vec![tv(x)], Type::Bool)).unwrap();
    let resolved = TypeResolved::new(env, s);
    assert_eq!(resolved.get("x".to_string()), Type::Int32);
    assert_eq!(resolved.get("f".to_string()), func(vec![Type::Int32], Type::Bool));
    assert_eq!(resolved.get("u".to_string()), tuple(vec![]));
}
