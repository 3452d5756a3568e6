use vstd::prelude::*;
use crate::table::{NameMap, names_distinct, named_map, lemma_named_map_at};
use crate::types::{Type, Ty, FuncType, TupleType, tys_view, lemma_tys_view};
use crate::subst::Subst;
use crate::occurs::{occurs, occurs_check};
use crate::error::Error;
use crate::seq_util::reversed;

verus! {

/// Model of a type environment: the variable bound to each symbol, and the
/// next fresh variable id.
pub struct EnvModel {
    pub names: Map<Seq<char>, usize>,
    pub next: nat,
}

/// `get` on the model: the variable of a known symbol, or a fresh one
/// recorded for it.
pub open spec fn env_get(e: EnvModel, symbol: Seq<char>) -> (usize, EnvModel) {
    if e.names.contains_key(symbol) {
        (e.names[symbol], e)
    } else {
        (e.next as usize, EnvModel { names: e.names.insert(symbol, e.next as usize), next: e.next + 1 })
    }
}

/// `no_name_get` on the model: a fresh variable bound to no symbol.
pub open spec fn env_fresh(e: EnvModel) -> (usize, EnvModel) {
    (e.next as usize, EnvModel { next: e.next + 1, ..e })
}

/// `remove` on the model: the symbol's binding is gone.
pub open spec fn env_remove(e: EnvModel, symbol: Seq<char>) -> EnvModel {
    EnvModel { names: e.names.remove(symbol), ..e }
}

/// Every bound variable was handed out before the next fresh one.
pub open spec fn env_wf(e: EnvModel) -> bool {
    &&& e.next <= usize::MAX
    &&& forall|k: Seq<char>| #[trigger] e.names.contains_key(k) ==> (e.names[k] as nat) < e.next
}

/// The type environment: symbol name to type variable id, with a counter of
/// fresh ids.
pub struct TypeEnv {
    env: NameMap<usize>,
    id: usize,
}

impl TypeEnv {
    #[verifier::type_invariant]
    spec fn inv(&self) -> bool {
        env_wf(EnvModel { names: self.env@, next: self.id as nat })
    }

    pub closed spec fn view(&self) -> EnvModel {
        EnvModel { names: self.env@, next: self.id as nat }
    }

    /// The empty environment, whose first fresh id is 0.
    pub fn new() -> (r: TypeEnv)
        ensures
            r@.names == Map::<Seq<char>, usize>::empty(),
            r@.next == 0,
            env_wf(r@),
    {
        TypeEnv { env: NameMap::new(), id: 0 }
    }

    /// The variable of `symbol`, allocated and recorded if `symbol` is new.
    pub fn get(self, symbol: String) -> (r: (usize, TypeEnv))
        requires
            self@.names.contains_key(symbol@) || self@.next < usize::MAX,
        ensures
            (r.0, r.1@) == env_get(self@, symbol@),
            env_wf(self@),
            env_wf(r.1@),
    {
        proof {
            use_type_invariant(&self);
        }
        let ghost old_names = self@.names;
        assert(env_wf(self@));
        match self.env.get(&symbol) {
            Some(x) => {
                let x = *x;
                (x, self)
            },
            None => {
                let TypeEnv { mut env, id } = self;
                let ghost before = env@;
                let ghost sym = symbol@;
                env.insert(symbol, id);
                assert forall|k: Seq<char>| #[trigger] env@.contains_key(k) implies (env@[k] as nat) < id + 1 by {
                    if k != sym {
                        assert(old_names.contains_key(k));
                    }
                }
                let r = TypeEnv { env, id: id + 1 };
                (id, r)
            },
        }
    }

    /// A fresh variable bound to no symbol.
    pub fn no_name_get(self) -> (r: (usize, TypeEnv))
        requires
            self@.next < usize::MAX,
        ensures
            (r.0, r.1@) == env_fresh(self@),
            env_wf(self@),
            env_wf(r.1@),
    {
        proof {
            use_type_invariant(&self);
        }
        let ghost old_names = self@.names;
        assert(env_wf(self@));
        let TypeEnv { env, id } = self;
        assert forall|k: Seq<char>| #[trigger] env@.contains_key(k) implies (env@[k] as nat) < id + 1 by {
            assert(old_names.contains_key(k));
        }
        (id, TypeEnv { env, id: id + 1 })
    }

    /// Ends the scope of `symbol`: its binding is dropped.
    pub fn remove(self, symbol: &String) -> (r: TypeEnv)
        ensures
            r@ == env_remove(self@, symbol@),
            env_wf(self@),
            env_wf(r@),
    {
        proof {
            use_type_invariant(&self);
        }
        let ghost old_names = self@.names;
        assert(env_wf(self@));
        let TypeEnv { mut env, id } = self;
        let ghost before = env@;
        env.remove(symbol);
        assert forall|k: Seq<char>| #[trigger] env@.contains_key(k) implies (env@[k] as nat) < id by {
            assert(before.contains_key(k));
        }
        TypeEnv { env, id }
    }

    /// The environment's bindings, consumed.
    pub fn into_bindings(self) -> (r: NameMap<usize>)
        ensures
            r@ == self@.names,
    {
        self.env
    }
}

/// Asking twice for the same symbol gives the same variable.
pub proof fn lemma_get_twice(e: EnvModel, symbol: Seq<char>)
    ensures
        env_get(env_get(e, symbol).1, symbol).0 == env_get(e, symbol).0,
        env_get(env_get(e, symbol).1, symbol).1 == env_get(e, symbol).1,
{
}

/// After a symbol's scope ends, asking for it again allocates a variable that
/// no symbol was bound to, the removed one included.
pub proof fn lemma_remove_then_get_is_fresh(e: EnvModel, symbol: Seq<char>)
    requires
        env_wf(e),
    ensures
        env_get(env_remove(e, symbol), symbol).0 == e.next,
        forall|k: Seq<char>| #[trigger] e.names.contains_key(k)
            ==> e.names[k] != env_get(env_remove(e, symbol), symbol).0,
{
}

/// How many bound variables unification may follow along one path; the
/// bound makes termination provable and is never reached in practice.
pub const UNIFY_FUEL: usize = 0xffff_ffff;

/// The unification state: type variable id to the type it is bound to.
pub struct TypeSubstitute {
    subst: Subst,
}

/// Unification of `t1` with `t2` from the bindings `m`, following at most
/// `fuel` bound variables along any path: the extended bindings, or the pair
/// of types that could not be made equal.
/// - Equal types need nothing.
/// - A variable bound in `m` has its type unified with the other side.
/// - An unbound variable facing itself needs nothing; facing a bound
///   variable, it is unified with that variable's type; otherwise it is bound
///   to the other side, unless the occurs check finds it there.
/// - Functions of equal arity unify parameter by parameter, then on the
///   result; tuples of equal length element by element.
/// - Any other pair fails.
pub open spec fn unify_spec(m: Map<usize, Ty>, t1: Ty, t2: Ty, fuel: nat) -> Result<Map<usize, Ty>, (Ty, Ty)>
    decreases fuel, t1,
{
    if t1 == t2 {
        Ok(m)
    } else if t1 is Var || t2 is Var {
        let var_first = t1 is Var;
        let id = if var_first { t1->Var_0 } else { t2->Var_0 };
        let other = if var_first { t2 } else { t1 };
        if m.contains_key(id) {
            if fuel == 0 {
                Err((t1, t2))
            } else {
                unify_spec(m, other, m[id], (fuel - 1) as nat)
            }
        } else if other is Var && other->Var_0 == id {
            Ok(m)
        } else if other is Var && m.contains_key(other->Var_0) {
            if fuel == 0 {
                Err((t1, t2))
            } else {
                unify_spec(m, Ty::Var(id, None), m[other->Var_0], (fuel - 1) as nat)
            }
        } else if occurs(m, other, id, m.dom().len()) {
            Err((t1, t2))
        } else {
            Ok(m.insert(id, other))
        }
    } else {
        match t1 {
            Ty::Func(p1, r1) => match t2 {
                Ty::Func(p2, r2) => if p1.len() != p2.len() {
                    Err((t1, t2))
                } else {
                    match unify_seq(m, p1, p2, fuel) {
                        Ok(m2) => unify_spec(m2, *r1, *r2, fuel),
                        Err(e) => Err(e),
                    }
                },
                _ => Err((t1, t2)),
            },
            Ty::Tuple(e1) => match t2 {
                Ty::Tuple(e2) => if e1.len() != e2.len() {
                    Err((t1, t2))
                } else {
                    unify_seq(m, e1, e2, fuel)
                },
                _ => Err((t1, t2)),
            },
            _ => Err((t1, t2)),
        }
    }
}

/// Unification of two lists pair by pair, from the front, threading the
/// bindings; the first failure stops it.
pub open spec fn unify_seq(m: Map<usize, Ty>, xs: Seq<Ty>, ys: Seq<Ty>, fuel: nat) -> Result<Map<usize, Ty>, (Ty, Ty)>
    decreases fuel, xs,
{
    if xs.len() == 0 || ys.len() == 0 {
        Ok(m)
    } else {
        match unify_spec(m, xs[0], ys[0], fuel) {
            Ok(m2) => unify_seq(m2, xs.drop_first(), ys.drop_first(), fuel),
            Err(e) => Err(e),
        }
    }
}

/// `insert` on the model: an unbound variable is bound directly (the caller
/// has run the occurs check); a bound one has its type unified with `t`.
pub open spec fn insert_spec(m: Map<usize, Ty>, id: usize, t: Ty, fuel: nat) -> Result<Map<usize, Ty>, (Ty, Ty)> {
    if m.contains_key(id) {
        unify_spec(m, t, m[id], fuel)
    } else {
        Ok(m.insert(id, t))
    }
}

/// Whether an exec outcome is the model outcome `o`.
pub open spec fn outcome_is(r: Result<TypeSubstitute, Error>, o: Result<Map<usize, Ty>, (Ty, Ty)>) -> bool {
    match r {
        Ok(s) => o == Ok::<Map<usize, Ty>, (Ty, Ty)>(s@),
        Err(Error::UnificationFailure(a, b)) => o == Err::<Map<usize, Ty>, (Ty, Ty)>((a@, b@)),
        Err(_) => false,
    }
}

/// Unifying an unbound variable with a compound or base type that contains
/// it fails: no infinite type is ever bound.
pub proof fn lemma_unify_rejects_cyclic_binding(m: Map<usize, Ty>, v: usize, t: Ty, fuel: nat)
    requires
        !m.contains_key(v),
        !(t is Var),
        occurs(m, t, v, m.dom().len()),
    ensures
        unify_spec(m, Ty::Var(v, None), t, fuel) is Err,
        unify_spec(m, t, Ty::Var(v, None), fuel) is Err,
{
}

/// The empty tuple, the type an unconstrained variable resolves to.
pub open spec fn unit() -> Ty {
    Ty::Tuple(Seq::empty())
}

/// `t` with its variables resolved through `m`, following at most `fuel`
/// bindings along any path, into function and tuple types; an unbound
/// variable (or one past the fuel) resolves to the unit type.
pub open spec fn resolve(m: Map<usize, Ty>, t: Ty, fuel: nat) -> Ty
    decreases fuel, t,
{
    match t {
        Ty::Var(id, _) => if m.contains_key(id) && fuel > 0 {
            resolve(m, m[id], (fuel - 1) as nat)
        } else {
            unit()
        },
        Ty::Func(ps, r) => Ty::Func(resolve_seq(m, ps, fuel), Box::new(resolve(m, *r, fuel))),
        Ty::Tuple(es) => Ty::Tuple(resolve_seq(m, es, fuel)),
        _ => t,
    }
}

pub open spec fn resolve_seq(m: Map<usize, Ty>, ts: Seq<Ty>, fuel: nat) -> Seq<Ty>
    decreases fuel, ts,
{
    if ts.len() == 0 {
        Seq::empty()
    } else {
        resolve_seq(m, ts.drop_last(), fuel).push(resolve(m, ts.last(), fuel))
    }
}

pub proof fn lemma_resolve_seq(m: Map<usize, Ty>, ts: Seq<Ty>, fuel: nat)
    ensures
        resolve_seq(m, ts, fuel).len() == ts.len(),
        forall|i: int| 0 <= i < ts.len() ==> #[trigger] resolve_seq(m, ts, fuel)[i] == resolve(m, ts[i], fuel),
    decreases ts.len(),
{
    if ts.len() > 0 {
        lemma_resolve_seq(m, ts.drop_last(), fuel);
    }
}

impl TypeSubstitute {
    pub closed spec fn view(&self) -> Map<usize, Ty> {
        self.subst@
    }

    /// The state with no binding.
    pub fn new() -> (r: TypeSubstitute)
        ensures
            r@ == Map::<usize, Ty>::empty(),
    {
        TypeSubstitute { subst: Subst::new() }
    }

    /// The bindings, as a substitution.
    pub fn as_subst(&self) -> (r: &Subst)
        ensures
            r@ == self@,
    {
        &self.subst
    }

    /// Records what is known of variable `id`: that it is `ty` (see
    /// `insert_spec`). A new variable is bound as it stands, so the caller
    /// must have run the occurs check on it.
    pub fn insert(self, id: usize, ty: Type) -> (r: Result<TypeSubstitute, Error>)
        requires
            !self@.contains_key(id) ==> !occurs(self@, ty@, id, self@.dom().len()),
        ensures
            outcome_is(r, insert_spec(self@, id, ty@, UNIFY_FUEL as nat)),
    {
        match self.subst.get(&id) {
            Some(bound) => {
                let bound = bound.clone_type();
                self.unify_within(ty, bound, UNIFY_FUEL)
            },
            None => {
                let mut subst = self.subst;
                subst.insert(id, ty);
                Ok(TypeSubstitute { subst })
            },
        }
    }

    /// Makes `ty1` and `ty2` equal by extending the bindings (see
    /// `unify_spec`).
    pub fn unify(self, ty1: Type, ty2: Type) -> (r: Result<TypeSubstitute, Error>)
        ensures
            outcome_is(r, unify_spec(self@, ty1@, ty2@, UNIFY_FUEL as nat)),
    {
        self.unify_within(ty1, ty2, UNIFY_FUEL)
    }

    #[verifier::loop_isolation(false)]
    fn unify_within(self, ty1: Type, ty2: Type, fuel: usize) -> (r: Result<TypeSubstitute, Error>)
        ensures
            outcome_is(r, unify_spec(self@, ty1@, ty2@, fuel as nat)),
        decreases fuel, ty1,
    {
        if ty1.equals(&ty2) {
            return Ok(self);
        }
        let var_first = matches!(ty1, Type::TyVar(..));
        let id = match (&ty1, &ty2) {
            (Type::TyVar(id, _), _) => Some(*id),
            (_, Type::TyVar(id, _)) => Some(*id),
            _ => None,
        };
        match id {
            Some(id) => {
                let other = if var_first { &ty2 } else { &ty1 };
                match self.subst.get(&id) {
                    Some(bound) => {
                        if fuel == 0 {
                            return Err(Error::UnificationFailure(ty1, ty2));
                        }
                        let bound = bound.clone_type();
                        let other = if var_first { ty2 } else { ty1 };
                        return self.unify_within(other, bound, fuel - 1);
                    },
                    None => {},
                }
                let other_var = match other {
                    Type::TyVar(x, _) => Some(*x),
                    _ => None,
                };
                match other_var {
                    Some(x) => {
                        if x == id {
                            return Ok(self);
                        }
                        match self.subst.get(&x) {
                            Some(bound) => {
                                if fuel == 0 {
                                    return Err(Error::UnificationFailure(ty1, ty2));
                                }
                                let bound = bound.clone_type();
                                return self.unify_within(Type::TyVar(id, None), bound, fuel - 1);
                            },
                            None => {},
                        }
                    },
                    None => {},
                }
                let found = occurs_check(&self.subst, other, &id);
                if found {
                    return Err(Error::UnificationFailure(ty1, ty2));
                }
                let mut subst = self.subst;
                if var_first {
                    subst.insert(id, ty2);
                } else {
                    subst.insert(id, ty1);
                }
                Ok(TypeSubstitute { subst })
            },
            None => {
                let ghost t1v = ty1@;
                let ghost t2v = ty2@;
                match (ty1, ty2) {
                    (Type::Fn(f1), Type::Fn(f2)) => {
                        if f1.param_types.len() != f2.param_types.len() {
                            proof {
                                lemma_tys_view(f1.param_types@);
                                lemma_tys_view(f2.param_types@);
                            }
                            return Err(Error::UnificationFailure(Type::Fn(f1), Type::Fn(f2)));
                        }
                        proof {
                            lemma_tys_view(f1.param_types@);
                            lemma_tys_view(f2.param_types@);
                        }
                        let f1 = *f1;
                        let f2 = *f2;
                        let r = self.unify_list(f1.param_types, f2.param_types, fuel);
                        match r {
                            Ok(cur) => cur.unify_within(f1.ret_type, f2.ret_type, fuel),
                            Err(e) => Err(e),
                        }
                    },
                    (Type::TupleType(t1), Type::TupleType(t2)) => {
                        if t1.element_tys.len() != t2.element_tys.len() {
                            proof {
                                lemma_tys_view(t1.element_tys@);
                                lemma_tys_view(t2.element_tys@);
                            }
                            return Err(Error::UnificationFailure(Type::TupleType(t1), Type::TupleType(t2)));
                        }
                        proof {
                            lemma_tys_view(t1.element_tys@);
                            lemma_tys_view(t2.element_tys@);
                        }
                        let t1 = *t1;
                        let t2 = *t2;
                        self.unify_list(t1.element_tys, t2.element_tys, fuel)
                    },
                    (a, b) => Err(Error::UnificationFailure(a, b)),
                }
            },
        }
    }

    /// Unifies two lists of equal length pair by pair (see `unify_seq`).
    fn unify_list(self, xs: Vec<Type>, ys: Vec<Type>, fuel: usize) -> (r: Result<TypeSubstitute, Error>)
        requires
            xs@.len() == ys@.len(),
        ensures
            outcome_is(r, unify_seq(self@, tys_view(xs@), tys_view(ys@), fuel as nat)),
        decreases fuel, xs,
    {
        let ghost ox = xs@;
        let ghost oy = ys@;
        proof {
            lemma_tys_view(ox);
            lemma_tys_view(oy);
        }
        let ghost total = unify_seq(self@, tys_view(ox), tys_view(oy), fuel as nat);
        assert(tys_view(ox).skip(0) =~= tys_view(ox));
        assert(tys_view(oy).skip(0) =~= tys_view(oy));
        let mut cur = self;
        let mut rx = reversed(xs);
        let mut ry = reversed(ys);
        let ghost mut k: int = 0;
        while rx.len() > 0
            invariant
                0 <= k <= ox.len(),
                ox.len() == oy.len(),
                ox == xs@,
                oy == ys@,
                total == unify_seq(self@, tys_view(xs@), tys_view(ys@), fuel as nat),
                rx@ == ox.subrange(k, ox.len() as int).reverse(),
                ry@ == oy.subrange(k, oy.len() as int).reverse(),
                tys_view(ox).len() == ox.len(),
                tys_view(oy).len() == oy.len(),
                forall|j: int| 0 <= j < ox.len() ==> #[trigger] tys_view(ox)[j] == ox[j]@,
                forall|j: int| 0 <= j < oy.len() ==> #[trigger] tys_view(oy)[j] == oy[j]@,
                total == unify_seq(cur@, tys_view(ox).skip(k), tys_view(oy).skip(k), fuel as nat),
            decreases rx@.len(),
        {
            let x = rx.pop().unwrap();
            let y = ry.pop().unwrap();
            assert(x == ox[k] && y == oy[k]);
            let ghost sx = tys_view(ox).skip(k);
            let ghost sy = tys_view(oy).skip(k);
            assert(sx.len() > 0 && sy.len() > 0);
            assert(sx[0] == x@ && sy[0] == y@);
            assert(sx.drop_first() =~= tys_view(ox).skip(k + 1));
            assert(sy.drop_first() =~= tys_view(oy).skip(k + 1));
            let ghost before = cur@;
            let step = cur.unify_within(x, y, fuel);
            assert(unify_seq(before, sx, sy, fuel as nat) == match unify_spec(before, sx[0], sy[0], fuel as nat) {
                Ok(m2) => unify_seq(m2, sx.drop_first(), sy.drop_first(), fuel as nat),
                Err(e) => Err(e),
            });
            cur = match step {
                Ok(c) => c,
                Err(e) => {
                    return Err(e);
                },
            };
            proof {
                k = k + 1;
            }
            assert(rx@ =~= ox.subrange(k, ox.len() as int).reverse());
            assert(ry@ =~= oy.subrange(k, oy.len() as int).reverse());
        }
        assert(tys_view(ox).skip(k).len() == 0);
        Ok(cur)
    }
}

impl TypeSubstitute {
    /// The type that variable `id` resolves to through the bindings, unbound
    /// variables becoming the unit type (see `resolve`).
    pub fn look_up(&self, id: &usize) -> (r: Type)
        ensures
            r@ == resolve(self@, Ty::Var(*id, None), self@.dom().len()),
    {
        let v = Type::TyVar(*id, None);
        self.type_look_up(&v, self.subst.len())
    }

    fn type_look_up(&self, ty: &Type, fuel: usize) -> (r: Type)
        ensures
            r@ == resolve(self@, ty@, fuel as nat),
        decreases fuel, ty,
    {
        match ty {
            Type::TyVar(id, _) => {
                if fuel > 0 {
                    match self.subst.get(id) {
                        Some(b) => {
                            return self.type_look_up(b, fuel - 1);
                        },
                        None => {},
                    }
                }
                let element_tys: Vec<Type> = Vec::new();
                assert(element_tys@ =~= Seq::<Type>::empty());
                assert(tys_view(element_tys@) =~= Seq::<Ty>::empty());
                Type::TupleType(Box::new(TupleType { element_tys }))
            },
            Type::Fn(f) => {
                let param_types = self.types_look_up(&f.param_types, fuel);
                let ret_type = self.type_look_up(&f.ret_type, fuel);
                Type::Fn(Box::new(FuncType { param_types, ret_type }))
            },
            Type::TupleType(x) => {
                let element_tys = self.types_look_up(&x.element_tys, fuel);
                Type::TupleType(Box::new(TupleType { element_tys }))
            },
            _ => ty.clone_type(),
        }
    }

    fn types_look_up(&self, v: &Vec<Type>, fuel: usize) -> (r: Vec<Type>)
        ensures
            tys_view(r@) == resolve_seq(self@, tys_view(v@), fuel as nat),
        decreases fuel, v,
    {
        let mut r: Vec<Type> = Vec::new();
        let mut i: usize = 0;
        while i < v.len()
            invariant
                i <= v@.len(),
                r@.len() == i,
                forall|k: int| 0 <= k < i ==> #[trigger] r@[k]@ == resolve(self@, v@[k]@, fuel as nat),
            decreases v@.len() - i,
        {
            r.push(self.type_look_up(&v[i], fuel));
            i += 1;
        }
        proof {
            lemma_tys_view(r@);
            lemma_tys_view(v@);
            lemma_resolve_seq(self@, tys_view(v@), fuel as nat);
            assert(tys_view(r@) =~= resolve_seq(self@, tys_view(v@), fuel as nat));
        }
        r
    }
}

/// The outcome of inference: each symbol's fully resolved type.
pub struct TypeResolved {
    types: NameMap<Type>,
}

impl TypeResolved {
    pub closed spec fn view(&self) -> Map<Seq<char>, Ty> {
        self.types@.map_values(|t: Type| t@)
    }

    /// Resolves the variable of every symbol of `ty_env` through `ty_subst`.
    pub fn new(ty_env: TypeEnv, ty_subst: TypeSubstitute) -> (r: TypeResolved)
        ensures
            r@.dom() == ty_env@.names.dom(),
            forall|k: Seq<char>| #[trigger] ty_env@.names.contains_key(k) ==> r@[k] == resolve(
                ty_subst@,
                Ty::Var(ty_env@.names[k], None),
                ty_subst@.dom().len(),
            ),
    {
        let ghost names = ty_env@.names;
        let entries = ty_env.into_bindings().into_entries();
        let ghost orig = entries@;
        let mut out: Vec<(String, Type)> = Vec::new();
        let mut i: usize = 0;
        while i < entries.len()
            invariant
                i <= orig.len(),
                orig == entries@,
                out@.len() == i,
                names_distinct(orig),
                named_map(orig) == names,
                forall|j: int| 0 <= j < i ==> #[trigger] out@[j].0@ == orig[j].0@
                    && out@[j].1@ == resolve(ty_subst@, Ty::Var(orig[j].1, None), ty_subst@.dom().len()),
            decreases orig.len() - i,
        {
            let name = entries[i].0.clone();
            let t = ty_subst.look_up(&entries[i].1);
            out.push((name, t));
            i += 1;
        }
        let ghost res = out@;
        proof {
            assert forall|a: int, b: int| 0 <= a < res.len() && 0 <= b < res.len() && a != b
                implies res[a].0@ != res[b].0@ by {
                assert(res[a].0@ == orig[a].0@);
                assert(res[b].0@ == orig[b].0@);
            }
            assert forall|q: Seq<char>| #[trigger] named_map(res).contains_key(q)
                == names.contains_key(q) by {
                if names.contains_key(q) {
                    let j = choose|j: int| 0 <= j < orig.len() && orig[j].0@ == q;
                    assert(res[j].0@ == q);
                }
                if named_map(res).contains_key(q) {
                    let j = choose|j: int| 0 <= j < res.len() && res[j].0@ == q;
                    assert(orig[j].0@ == q);
                }
            }
            assert forall|q: Seq<char>| #[trigger] names.contains_key(q)
                implies named_map(res)[q]@ == resolve(ty_subst@, Ty::Var(names[q], None), ty_subst@.dom().len()) by {
                let j = choose|j: int| 0 <= j < orig.len() && orig[j].0@ == q;
                lemma_named_map_at(orig, j);
                lemma_named_map_at(res, j);
                assert(res[j].0@ == q);
            }
        }
        let r = TypeResolved { types: NameMap::from_entries(out) };
        assert(r@.dom() =~= names.dom());
        r
    }

    /// The resolved type of symbol `id`, which must be in the table.
    pub fn get(&self, id: String) -> (r: Type)
        requires
            self@.contains_key(id@),
        ensures
            r@ == self@[id@],
    {
        match self.types.get(&id) {
            Some(t) => t.clone_type(),
            None => Type::Int32,
        }
    }
}

} // verus!
