use lang_frontend::error::Error;
use lang_frontend::subst::Subst;
use lang_frontend::types::Type;

fn var(id: usize) -> Type {
    Type::TyVar(id, None)
}

#[test]
fn merge_test() {
    let a: usize = 0;
    let b: usize = 1;
    let c: usize = 2;

    let s1 = Subst::one_with(b, Type::Int32);
    let s1 = s1.merge(Subst::one_with(a, var(c))).unwrap();

    let s2 = Subst::one_with(a, var(b));

    // applying s2 and then s1 is applying s1.right_merge(s2)
    assert_eq!(var(a).apply(&s2).apply(&s1), Type::Int32);
    assert_eq!(var(a).apply(&s1.right_merge(s2)), Type::Int32)
}

#[test]
fn merge_conflict_on_shared_variable() {
    let r = Subst::one_with(0, Type::Int32).merge(Subst::one_with(0, Type::Bool));
    assert!(matches!(r, Err(Error::MergeConflict)));
}

#[test]
fn merge_agreeing_is_commutative() {
    let mk_a = || {
        let s = Subst::one_with(0, Type::Int32);
        s.merge(Subst::one_with(1, Type::Bool)).unwrap()
    };
    let mk_b = || {
        let s = Subst::one_with(0, Type::Int32);
        s.merge(Subst::one_with(2, var(5))).unwrap()
    };
    let ab = mk_a().merge(mk_b()).unwrap();
    let ba = mk_b().merge(mk_a()).unwrap();
    for v in 0..6 {
        assert_eq!(var(v).apply(&ab), var(v).apply(&ba));
    }
    assert_eq!(ab.len(), 3);
    assert_eq!(var(2).apply(&ab), var(5));
}

#[test]
fn right_merge_is_sequential_composition() {
    // s1 = {x0 -> Int32, x1 -> x3}, s2 = {x2 -> x1, x1 -> Bool}
    let s1 = Subst::one_with(0, Type::Int32).merge(Subst::one_with(1, var(3))).unwrap();
    let s2 = Subst::one_with(2, var(1)).merge(Subst::one_with(1, Type::Bool)).unwrap();
    let s1_copy = s1.clone_subst();
    let s2_copy = s2.clone_subst();
    let merged = s1.right_merge(s2);
    for v in 0..5 {
        assert_eq!(var(v).apply(&merged), var(v).apply(&s2_copy).apply(&s1_copy));
    }
    assert_eq!(var(2).apply(&merged), var(3));
    assert_eq!(var(1).apply(&merged), Type::Bool);
    assert_eq!(var(0).apply(&merged), Type::Int32);
}

#[test]
fn merge_compares_full_resolutions() {
    // {0: x1, 1: Int32} and {0: Int32} agree on 0 once resolved
    let a = || Subst::one_with(0, var(1)).merge(Subst::one_with(1, Type::Int32)).unwrap();
    assert!(a().merge(Subst::one_with(0, Type::Int32)).is_ok());
    // {0: x1, 1: Int32} and {0: x1} do not: 0 is Int32 in one, x1 in the other
    assert!(matches!(a().merge(Subst::one_with(0, var(1))), Err(Error::MergeConflict)));
    assert!(matches!(Subst::one_with(0, var(1)).merge(a()), Err(Error::MergeConflict)));
}

#[test]
fn chase_follows_bindings() {
    let s = Subst::one_with(0, var(1)).merge(Subst::one_with(1, Type::Bool)).unwrap();
    assert_eq!(var(0).chase(&s, s.len()), Type::Bool);
    assert_eq!(var(0).apply(&s), var(1));
    assert_eq!(var(7).chase(&s, s.len()), var(7));
}

#[test]
fn subst_get_and_new() {
    let s = Subst::new();
    assert!(s.get(&0).is_none());
    let s = Subst::one_with(4, Type::Bool);
    assert_eq!(s.get(&4), Some(&Type::Bool));
    assert!(s.get(&3).is_none());
}
