use vstd::prelude::*;
use crate::types::{Type, Ty, TupleType, StructInternalType, lemma_tys_view, lemma_fields_view, tys_view, fields_view};
use crate::subst::Subst;

verus! {

broadcast use {vstd::seq::group_seq_axioms, vstd::std_specs::vec::group_vec_axioms};

/// Whether variable `v` occurs in `t`, following bound variables through `m`
/// at most `fuel` times along any path, and looking into call constraints and
/// every structural child.
pub open spec fn occurs(m: Map<usize, Ty>, t: Ty, v: usize, fuel: nat) -> bool
    decreases fuel, t,
{
    match t {
        Ty::Int32 | Ty::Bool => false,
        Ty::Var(id, c) => {
            (match c {
                Some(sig) => occurs_any(m, sig.0, v, fuel) || occurs(m, *sig.1, v, fuel),
                None => false,
            }) || id == v || (m.contains_key(id) && fuel > 0 && occurs(m, m[id], v, (fuel - 1) as nat))
        },
        Ty::Func(ps, r) => occurs_any(m, ps, v, fuel) || occurs(m, *r, v, fuel),
        Ty::Tuple(es) => occurs_any(m, es, v, fuel),
        Ty::TupleStruct(es) => occurs_any(m, es, v, fuel),
        Ty::Lambda(env, ps, r) => {
            (match env {
                Some(es) => occurs_any(m, es, v, fuel),
                None => false,
            }) || occurs_any(m, ps, v, fuel) || occurs(m, *r, v, fuel)
        },
        Ty::RecordStruct(fs) => occurs_fields(m, fs, v, fuel),
    }
}

/// Whether `v` occurs in the type of some field of `fs`.
pub open spec fn occurs_fields(m: Map<usize, Ty>, fs: Seq<(Seq<char>, Ty)>, v: usize, fuel: nat) -> bool
    decreases fuel, fs,
{
    exists|j: int| 0 <= j < fs.len() && occurs(m, fs[j].1, v, fuel)
}

/// Whether `v` occurs in some element of `ts`.
pub open spec fn occurs_any(m: Map<usize, Ty>, ts: Seq<Ty>, v: usize, fuel: nat) -> bool
    decreases fuel, ts,
{
    exists|j: int| 0 <= j < ts.len() && occurs(m, ts[j], v, fuel)
}

/// A variable occurs in itself, whatever its call constraint.
pub proof fn lemma_occurs_itself(m: Map<usize, Ty>, v: usize, c: Option<(Seq<Ty>, Box<Ty>)>, fuel: nat)
    ensures
        occurs(m, Ty::Var(v, c), v, fuel),
{
}

/// `v` occurs in a variable bound to a type in which `v` occurs, given one
/// more step of fuel.
pub proof fn lemma_occurs_through_binding(
    m: Map<usize, Ty>,
    k: usize,
    c: Option<(Seq<Ty>, Box<Ty>)>,
    v: usize,
    fuel: nat,
)
    requires
        m.contains_key(k),
        occurs(m, m[k], v, fuel),
    ensures
        occurs(m, Ty::Var(k, c), v, fuel + 1),
{
}

/// `v` occurs in a variable whose call constraint mentions it.
pub proof fn lemma_occurs_through_constraint(
    m: Map<usize, Ty>,
    k: usize,
    params: Seq<Ty>,
    ret: Ty,
    v: usize,
    fuel: nat,
)
    requires
        occurs(m, ret, v, fuel) || occurs_any(m, params, v, fuel),
    ensures
        occurs(m, Ty::Var(k, Some((params, Box::new(ret)))), v, fuel),
{
}

/// No variable occurs in a base type.
pub proof fn lemma_no_occurrence_in_base(m: Map<usize, Ty>, v: usize, fuel: nat)
    ensures
        !occurs(m, Ty::Int32, v, fuel),
        !occurs(m, Ty::Bool, v, fuel),
{
}

/// Whether type variable `ty_id` occurs in `ty`, looking through the bindings
/// of `hash_map` (transitively, cut after as many steps as there are bindings,
/// which an acyclic map never needs), through call constraints and through
/// every structural child.
pub fn occurs_check(hash_map: &Subst, ty: &Type, ty_id: &usize) -> (r: bool)
    ensures
        r == occurs(hash_map@, ty@, *ty_id, hash_map@.dom().len()),
{
    occurs_within(hash_map, ty, *ty_id, hash_map.len())
}

fn occurs_within(m: &Subst, ty: &Type, v: usize, fuel: usize) -> (r: bool)
    ensures
        r == occurs(m@, ty@, v, fuel as nat),
    decreases fuel, ty,
{
    match ty {
        Type::Int32 | Type::Bool => false,
        Type::TyVar(id, c) => {
            let in_constraint = match c {
                Some(c) => occurs_in_list(m, &c.param_types, v, fuel) || occurs_within(
                    m,
                    &c.ret_type,
                    v,
                    fuel,
                ),
                None => false,
            };
            if in_constraint || *id == v {
                return true;
            }
            if fuel == 0 {
                return false;
            }
            match m.get(id) {
                Some(bound) => occurs_within(m, bound, v, fuel - 1),
                None => false,
            }
        },
        Type::Fn(f) => occurs_in_list(m, &f.param_types, v, fuel) || occurs_within(
            m,
            &f.ret_type,
            v,
            fuel,
        ),
        Type::TupleType(x) => tuple_occurs(m, x, v, fuel),
        Type::LambdaType(l) => {
            let in_env = match &l.env_ty {
                Some(e) => tuple_occurs(m, e, v, fuel),
                None => false,
            };
            in_env || occurs_in_list(m, &l.func_ty.param_types, v, fuel) || occurs_within(
                m,
                &l.func_ty.ret_type,
                v,
                fuel,
            )
        },
        Type::StructType(s) => match &**s {
            StructInternalType::TupleType(x) => tuple_occurs(m, x, v, fuel),
            StructInternalType::RecordType(fs) => occurs_in_fields(m, fs, v, fuel),
        },
    }
}

fn tuple_occurs(m: &Subst, x: &TupleType, v: usize, fuel: usize) -> (r: bool)
    ensures
        r == occurs_any(m@, tys_view(x.element_tys@), v, fuel as nat),
    decreases fuel, x,
{
    occurs_in_list(m, &x.element_tys, v, fuel)
}

fn occurs_in_list(m: &Subst, tys: &Vec<Type>, v: usize, fuel: usize) -> (r: bool)
    ensures
        r == occurs_any(m@, tys_view(tys@), v, fuel as nat),
    decreases fuel, tys,
{
    proof {
        lemma_tys_view(tys@);
    }
    let mut i: usize = 0;
    while i < tys.len()
        invariant
            i <= tys@.len(),
            tys_view(tys@).len() == tys@.len(),
            forall|k: int| 0 <= k < tys@.len() ==> #[trigger] tys_view(tys@)[k] == tys@[k]@,
            forall|k: int| 0 <= k < i ==> !occurs(m@, #[trigger] tys_view(tys@)[k], v, fuel as nat),
        decreases tys@.len() - i,
    {
        if occurs_within(m, &tys[i], v, fuel) {
            assert(occurs(m@, tys_view(tys@)[i as int], v, fuel as nat));
            return true;
        }
        i += 1;
    }
    false
}

fn occurs_in_fields(m: &Subst, fs: &Vec<(String, Type)>, v: usize, fuel: usize) -> (r: bool)
    ensures
        r == occurs_fields(m@, fields_view(fs@), v, fuel as nat),
    decreases fuel, fs,
{
    proof {
        lemma_fields_view(fs@);
    }
    let mut i: usize = 0;
    while i < fs.len()
        invariant
            i <= fs@.len(),
            fields_view(fs@).len() == fs@.len(),
            forall|k: int|
                0 <= k < fs@.len() ==> #[trigger] fields_view(fs@)[k] == (fs@[k].0@, fs@[k].1@),
            forall|k: int|
                0 <= k < i ==> !occurs(m@, #[trigger] fields_view(fs@)[k].1, v, fuel as nat),
        decreases fs@.len() - i,
    {
        if occurs_within(m, &fs[i].1, v, fuel) {
            assert(occurs(m@, fields_view(fs@)[i as int].1, v, fuel as nat));
            return true;
        }
        i += 1;
    }
    false
}

} // verus!
