use vstd::prelude::*;
use crate::types::{Type, Ty, CallConstraint, FuncType, TupleType, LambdaType, StructInternalType, tys_view, fields_view, lemma_tys_view, lemma_fields_view};
use crate::error::Error;

verus! {

broadcast use {vstd::seq::group_seq_axioms, vstd::std_specs::vec::group_vec_axioms};

/// The map from type variables to types that a list of pairs with distinct
/// keys stands for.
pub open spec fn pairs_map(s: Seq<(usize, Type)>) -> Map<usize, Ty> {
    Map::new(
        |k: usize| exists|i: int| 0 <= i < s.len() && s[i].0 == k,
        |k: usize| s[choose|i: int| 0 <= i < s.len() && s[i].0 == k].1@,
    )
}

pub open spec fn keys_distinct(s: Seq<(usize, Type)>) -> bool {
    forall|i: int, j: int| 0 <= i < s.len() && 0 <= j < s.len() && i != j ==> s[i].0 != s[j].0
}

pub proof fn lemma_pairs_map_at(s: Seq<(usize, Type)>, i: int)
    requires
        keys_distinct(s),
        0 <= i < s.len(),
    ensures
        pairs_map(s).contains_key(s[i].0),
        pairs_map(s)[s[i].0] == s[i].1@,
{
    let k = s[i].0;
    assert(exists|j: int| 0 <= j < s.len() && s[j].0 == k);
    let c = choose|j: int| 0 <= j < s.len() && s[j].0 == k;
    assert(c == i);
}

/// `t` with every variable bound in `m` replaced, once and simultaneously, by
/// its binding; an unbound variable keeps its place, its call constraint
/// substituted in turn.
pub open spec fn apply(m: Map<usize, Ty>, t: Ty) -> Ty
    decreases t,
{
    match t {
        Ty::Int32 => Ty::Int32,
        Ty::Bool => Ty::Bool,
        Ty::Var(id, c) => if m.contains_key(id) {
            m[id]
        } else {
            Ty::Var(
                id,
                match c {
                    None => None,
                    Some(sig) => Some((apply_seq(m, sig.0), Box::new(apply(m, *sig.1)))),
                },
            )
        },
        Ty::Func(ps, r) => Ty::Func(apply_seq(m, ps), Box::new(apply(m, *r))),
        Ty::Tuple(es) => Ty::Tuple(apply_seq(m, es)),
        Ty::TupleStruct(es) => Ty::TupleStruct(apply_seq(m, es)),
        Ty::Lambda(env, ps, r) => Ty::Lambda(
            match env {
                None => None,
                Some(es) => Some(apply_seq(m, es)),
            },
            apply_seq(m, ps),
            Box::new(apply(m, *r)),
        ),
        Ty::RecordStruct(fs) => Ty::RecordStruct(apply_fields(m, fs)),
    }
}

pub open spec fn apply_seq(m: Map<usize, Ty>, ts: Seq<Ty>) -> Seq<Ty>
    decreases ts,
{
    if ts.len() == 0 {
        Seq::empty()
    } else {
        apply_seq(m, ts.drop_last()).push(apply(m, ts.last()))
    }
}

pub open spec fn apply_fields(m: Map<usize, Ty>, fs: Seq<(Seq<char>, Ty)>) -> Seq<(Seq<char>, Ty)>
    decreases fs,
{
    if fs.len() == 0 {
        Seq::empty()
    } else {
        apply_fields(m, fs.drop_last()).push((fs.last().0, apply(m, fs.last().1)))
    }
}

pub proof fn lemma_apply_seq(m: Map<usize, Ty>, ts: Seq<Ty>)
    ensures
        apply_seq(m, ts).len() == ts.len(),
        forall|i: int| 0 <= i < ts.len() ==> #[trigger] apply_seq(m, ts)[i] == apply(m, ts[i]),
    decreases ts.len(),
{
    if ts.len() > 0 {
        lemma_apply_seq(m, ts.drop_last());
    }
}

pub proof fn lemma_apply_fields(m: Map<usize, Ty>, fs: Seq<(Seq<char>, Ty)>)
    ensures
        apply_fields(m, fs).len() == fs.len(),
        forall|i: int|
            0 <= i < fs.len() ==> #[trigger] apply_fields(m, fs)[i] == (fs[i].0, apply(m, fs[i].1)),
    decreases fs.len(),
{
    if fs.len() > 0 {
        lemma_apply_fields(m, fs.drop_last());
    }
}

/// `t` resolved fully through `m`: every bound variable replaced by its
/// binding, itself resolved in turn, following at most `fuel` bindings along
/// any path (enough for any acyclic `m` when `fuel` is the number of
/// bindings); unbound variables stay.
pub open spec fn chase(m: Map<usize, Ty>, t: Ty, fuel: nat) -> Ty
    decreases fuel, t,
{
    match t {
        Ty::Int32 => Ty::Int32,
        Ty::Bool => Ty::Bool,
        Ty::Var(id, _) => if m.contains_key(id) && fuel > 0 {
            chase(m, m[id], (fuel - 1) as nat)
        } else {
            t
        },
        Ty::Func(ps, r) => Ty::Func(chase_seq(m, ps, fuel), Box::new(chase(m, *r, fuel))),
        Ty::Tuple(es) => Ty::Tuple(chase_seq(m, es, fuel)),
        Ty::TupleStruct(es) => Ty::TupleStruct(chase_seq(m, es, fuel)),
        Ty::Lambda(env, ps, r) => Ty::Lambda(
            match env {
                None => None,
                Some(es) => Some(chase_seq(m, es, fuel)),
            },
            chase_seq(m, ps, fuel),
            Box::new(chase(m, *r, fuel)),
        ),
        Ty::RecordStruct(fs) => Ty::RecordStruct(chase_fields(m, fs, fuel)),
    }
}

pub open spec fn chase_seq(m: Map<usize, Ty>, ts: Seq<Ty>, fuel: nat) -> Seq<Ty>
    decreases fuel, ts,
{
    if ts.len() == 0 {
        Seq::empty()
    } else {
        chase_seq(m, ts.drop_last(), fuel).push(chase(m, ts.last(), fuel))
    }
}

pub open spec fn chase_fields(m: Map<usize, Ty>, fs: Seq<(Seq<char>, Ty)>, fuel: nat) -> Seq<(Seq<char>, Ty)>
    decreases fuel, fs,
{
    if fs.len() == 0 {
        Seq::empty()
    } else {
        chase_fields(m, fs.drop_last(), fuel).push((fs.last().0, chase(m, fs.last().1, fuel)))
    }
}

pub proof fn lemma_chase_seq(m: Map<usize, Ty>, ts: Seq<Ty>, fuel: nat)
    ensures
        chase_seq(m, ts, fuel).len() == ts.len(),
        forall|i: int| 0 <= i < ts.len() ==> #[trigger] chase_seq(m, ts, fuel)[i] == chase(m, ts[i], fuel),
    decreases ts.len(),
{
    if ts.len() > 0 {
        lemma_chase_seq(m, ts.drop_last(), fuel);
    }
}

pub proof fn lemma_chase_fields(m: Map<usize, Ty>, fs: Seq<(Seq<char>, Ty)>, fuel: nat)
    ensures
        chase_fields(m, fs, fuel).len() == fs.len(),
        forall|i: int|
            0 <= i < fs.len() ==> #[trigger] chase_fields(m, fs, fuel)[i] == (fs[i].0, chase(m, fs[i].1, fuel)),
    decreases fs.len(),
{
    if fs.len() > 0 {
        lemma_chase_fields(m, fs.drop_last(), fuel);
    }
}

/// Applying `left` and then `right` in one substitution: each binding of
/// `right` with `left` applied to it, and the bindings of `left` for the
/// variables that `right` leaves alone.
pub open spec fn compose(left: Map<usize, Ty>, right: Map<usize, Ty>) -> Map<usize, Ty> {
    Map::new(
        |k: usize| left.contains_key(k) || right.contains_key(k),
        |k: usize| if right.contains_key(k) {
            apply(left, right[k])
        } else {
            left[k]
        },
    )
}

/// Whether two substitutions agree on every variable they share: resolved
/// fully through each (see `chase`), it gives the same type.
pub open spec fn agree(a: Map<usize, Ty>, b: Map<usize, Ty>) -> bool {
    forall|k: usize| #[trigger] a.contains_key(k) && b.contains_key(k) ==> chase(a, Ty::Var(k, None), a.dom().len())
        == chase(b, Ty::Var(k, None), b.dom().len())
}

fn apply_types(v: &Vec<Type>, s: &Subst) -> (r: Vec<Type>)
    ensures
        tys_view(r@) == apply_seq(s@, tys_view(v@)),
    decreases v,
{
    let mut r: Vec<Type> = Vec::new();
    let mut i: usize = 0;
    while i < v.len()
        invariant
            i <= v@.len(),
            r@.len() == i,
            forall|k: int| 0 <= k < i ==> #[trigger] r@[k]@ == apply(s@, v@[k]@),
        decreases v@.len() - i,
    {
        r.push(v[i].apply(s));
        i += 1;
    }
    proof {
        lemma_tys_view(r@);
        lemma_tys_view(v@);
        lemma_apply_seq(s@, tys_view(v@));
        assert(tys_view(r@) =~= apply_seq(s@, tys_view(v@)));
    }
    r
}

fn apply_tuple(t: &TupleType, s: &Subst) -> (r: TupleType)
    ensures
        tys_view(r.element_tys@) == apply_seq(s@, tys_view(t.element_tys@)),
    decreases t,
{
    TupleType { element_tys: apply_types(&t.element_tys, s) }
}

fn apply_field_types(v: &Vec<(String, Type)>, s: &Subst) -> (r: Vec<(String, Type)>)
    ensures
        fields_view(r@) == apply_fields(s@, fields_view(v@)),
    decreases v,
{
    let mut r: Vec<(String, Type)> = Vec::new();
    let mut i: usize = 0;
    while i < v.len()
        invariant
            i <= v@.len(),
            r@.len() == i,
            forall|k: int| #![trigger r@[k]] 0 <= k < i ==> r@[k].0@ == v@[k].0@ && r@[k].1@ == apply(s@, v@[k].1@),
        decreases v@.len() - i,
    {
        r.push((v[i].0.clone(), v[i].1.apply(s)));
        i += 1;
    }
    proof {
        lemma_fields_view(r@);
        lemma_fields_view(v@);
        lemma_apply_fields(s@, fields_view(v@));
        assert(fields_view(r@) =~= apply_fields(s@, fields_view(v@)));
    }
    r
}

impl Type {
    /// `self` with the substitution applied (see `apply`).
    pub fn apply(&self, s: &Subst) -> (r: Type)
        ensures
            r@ == apply(s@, self@),
        decreases self,
    {
        match self {
            Type::Int32 => Type::Int32,
            Type::Bool => Type::Bool,
            Type::TyVar(id, c) => match s.get(id) {
                Some(t) => t.clone_type(),
                None => match c {
                    None => Type::TyVar(*id, None),
                    Some(c) => Type::TyVar(
                        *id,
                        Some(
                            Box::new(
                                CallConstraint {
                                    param_types: apply_types(&c.param_types, s),
                                    ret_type: c.ret_type.apply(s),
                                },
                            ),
                        ),
                    ),
                },
            },
            Type::Fn(f) => Type::Fn(
                Box::new(
                    FuncType {
                        param_types: apply_types(&f.param_types, s),
                        ret_type: f.ret_type.apply(s),
                    },
                ),
            ),
            Type::TupleType(x) => Type::TupleType(Box::new(apply_tuple(x, s))),
            Type::LambdaType(l) => {
                let env_ty = match &l.env_ty {
                    None => None,
                    Some(e) => Some(apply_tuple(e, s)),
                };
                let func_ty = FuncType {
                    param_types: apply_types(&l.func_ty.param_types, s),
                    ret_type: l.func_ty.ret_type.apply(s),
                };
                Type::LambdaType(Box::new(LambdaType { env_ty, func_ty }))
            },
            Type::StructType(st) => match &**st {
                StructInternalType::TupleType(x) => Type::StructType(
                    Box::new(StructInternalType::TupleType(apply_tuple(x, s))),
                ),
                StructInternalType::RecordType(fs) => Type::StructType(
                    Box::new(StructInternalType::RecordType(apply_field_types(fs, s))),
                ),
            },
        }
    }
}

fn chase_types(v: &Vec<Type>, s: &Subst, fuel: usize) -> (r: Vec<Type>)
    ensures
        tys_view(r@) == chase_seq(s@, tys_view(v@), fuel as nat),
    decreases fuel, v,
{
    let mut r: Vec<Type> = Vec::new();
    let mut i: usize = 0;
    while i < v.len()
        invariant
            i <= v@.len(),
            r@.len() == i,
            forall|k: int| 0 <= k < i ==> #[trigger] r@[k]@ == chase(s@, v@[k]@, fuel as nat),
        decreases v@.len() - i,
    {
        r.push(v[i].chase(s, fuel));
        i += 1;
    }
    proof {
        lemma_tys_view(r@);
        lemma_tys_view(v@);
        lemma_chase_seq(s@, tys_view(v@), fuel as nat);
        assert(tys_view(r@) =~= chase_seq(s@, tys_view(v@), fuel as nat));
    }
    r
}

fn chase_tuple(t: &TupleType, s: &Subst, fuel: usize) -> (r: TupleType)
    ensures
        tys_view(r.element_tys@) == chase_seq(s@, tys_view(t.element_tys@), fuel as nat),
    decreases fuel, t,
{
    TupleType { element_tys: chase_types(&t.element_tys, s, fuel) }
}

fn chase_field_types(v: &Vec<(String, Type)>, s: &Subst, fuel: usize) -> (r: Vec<(String, Type)>)
    ensures
        fields_view(r@) == chase_fields(s@, fields_view(v@), fuel as nat),
    decreases fuel, v,
{
    let mut r: Vec<(String, Type)> = Vec::new();
    let mut i: usize = 0;
    while i < v.len()
        invariant
            i <= v@.len(),
            r@.len() == i,
            forall|k: int| #![trigger r@[k]] 0 <= k < i ==> r@[k].0@ == v@[k].0@ && r@[k].1@ == chase(s@, v@[k].1@, fuel as nat),
        decreases v@.len() - i,
    {
        r.push((v[i].0.clone(), v[i].1.chase(s, fuel)));
        i += 1;
    }
    proof {
        lemma_fields_view(r@);
        lemma_fields_view(v@);
        lemma_chase_fields(s@, fields_view(v@), fuel as nat);
        assert(fields_view(r@) =~= chase_fields(s@, fields_view(v@), fuel as nat));
    }
    r
}

impl Type {
    /// `self` resolved fully through `s`, following at most `fuel` bindings
    /// along any path (see `chase`).
    pub fn chase(&self, s: &Subst, fuel: usize) -> (r: Type)
        ensures
            r@ == chase(s@, self@, fuel as nat),
        decreases fuel, self,
    {
        match self {
            Type::Int32 => Type::Int32,
            Type::Bool => Type::Bool,
            Type::TyVar(id, _) => {
                if fuel > 0 {
                    match s.get(id) {
                        Some(t) => {
                            return t.chase(s, fuel - 1);
                        },
                        None => {},
                    }
                }
                self.clone_type()
            },
            Type::Fn(f) => Type::Fn(
                Box::new(
                    FuncType {
                        param_types: chase_types(&f.param_types, s, fuel),
                        ret_type: f.ret_type.chase(s, fuel),
                    },
                ),
            ),
            Type::TupleType(x) => Type::TupleType(Box::new(chase_tuple(x, s, fuel))),
            Type::LambdaType(l) => {
                let env_ty = match &l.env_ty {
                    None => None,
                    Some(e) => Some(chase_tuple(e, s, fuel)),
                };
                let func_ty = FuncType {
                    param_types: chase_types(&l.func_ty.param_types, s, fuel),
                    ret_type: l.func_ty.ret_type.chase(s, fuel),
                };
                Type::LambdaType(Box::new(LambdaType { env_ty, func_ty }))
            },
            Type::StructType(st) => match &**st {
                StructInternalType::TupleType(x) => Type::StructType(
                    Box::new(StructInternalType::TupleType(chase_tuple(x, s, fuel))),
                ),
                StructInternalType::RecordType(fs) => Type::StructType(
                    Box::new(StructInternalType::RecordType(chase_field_types(fs, s, fuel))),
                ),
            },
        }
    }
}

proof fn lemma_pairs_map_same(a: Seq<(usize, Type)>, b: Seq<(usize, Type)>)
    requires
        keys_distinct(a),
        a.len() == b.len(),
        forall|i: int| #![trigger a[i]] 0 <= i < a.len() ==> a[i].0 == b[i].0 && a[i].1@ == b[i].1@,
    ensures
        keys_distinct(b),
        pairs_map(a) == pairs_map(b),
{
    assert forall|i: int, j: int| 0 <= i < b.len() && 0 <= j < b.len() && i != j implies b[i].0 != b[j].0 by {
        assert(a[i].0 == b[i].0 && a[j].0 == b[j].0);
    }
    assert forall|k: usize| #[trigger] pairs_map(a).contains_key(k) == pairs_map(b).contains_key(k) by {
        if pairs_map(a).contains_key(k) {
            let j = choose|j: int| 0 <= j < a.len() && a[j].0 == k;
            assert(a[j].0 == b[j].0);
        }
        if pairs_map(b).contains_key(k) {
            let j = choose|j: int| 0 <= j < b.len() && b[j].0 == k;
            assert(a[j].0 == b[j].0);
        }
    }
    assert forall|k: usize| #[trigger] pairs_map(a).contains_key(k) implies pairs_map(a)[k] == pairs_map(b)[k] by {
        let j = choose|j: int| 0 <= j < a.len() && a[j].0 == k;
        assert(a[j].0 == b[j].0 && a[j].1@ == b[j].1@);
        lemma_pairs_map_at(a, j);
        lemma_pairs_map_at(b, j);
    }
    assert(pairs_map(a) =~= pairs_map(b));
}

fn position(entries: &Vec<(usize, Type)>, v: usize) -> (r: Option<usize>)
    ensures
        match r {
            Some(i) => i < entries@.len() && entries@[i as int].0 == v,
            None => forall|j: int| 0 <= j < entries@.len() ==> entries@[j].0 != v,
        },
{
    let mut i: usize = 0;
    while i < entries.len()
        invariant
            i <= entries@.len(),
            forall|j: int| 0 <= j < i ==> entries@[j].0 != v,
        decreases entries@.len() - i,
    {
        if entries[i].0 == v {
            return Some(i);
        }
        i += 1;
    }
    None
}

/// A list of pairs with distinct keys has as many bindings as pairs.
pub proof fn lemma_pairs_map_len(s: Seq<(usize, Type)>)
    requires
        keys_distinct(s),
    ensures
        pairs_map(s).dom().finite(),
        pairs_map(s).dom().len() == s.len(),
{
    let keys = s.map_values(|p: (usize, Type)| p.0);
    assert(keys.no_duplicates());
    keys.unique_seq_to_set();
    assert forall|k: usize| #[trigger] pairs_map(s).dom().contains(k) == keys.to_set().contains(k) by {
        if pairs_map(s).dom().contains(k) {
            let j = choose|j: int| 0 <= j < s.len() && s[j].0 == k;
            assert(keys[j] == k);
        }
        if keys.to_set().contains(k) {
            let j = choose|j: int| 0 <= j < keys.len() && keys[j] == k;
            assert(s[j].0 == k);
        }
    }
    assert(pairs_map(s).dom() =~= keys.to_set());
    vstd::seq_lib::seq_to_set_is_finite(keys);
}

/// A substitution: a finite map from type variable ids to types.
///
/// The bindings are a `Vec` of pairs with distinct keys rather than a
/// `HashMap`: `right_merge`, `merge` and `clone_subst` walk every binding,
/// and a loop over a `Vec` proves what it has visited, which iterating a
/// `HashMap` does not give as readily.
pub struct Subst {
    entries: Vec<(usize, Type)>,
}

impl Subst {
    #[verifier::type_invariant]
    spec fn inv(&self) -> bool {
        keys_distinct(self.entries@)
    }

    pub closed spec fn view(&self) -> Map<usize, Ty> {
        pairs_map(self.entries@)
    }

    /// The empty substitution.
    pub fn new() -> (r: Subst)
        ensures
            r@ == Map::<usize, Ty>::empty(),
    {
        let r = Subst { entries: Vec::new() };
        assert(r@ =~= Map::<usize, Ty>::empty());
        r
    }

    /// The substitution with the single binding `v ↦ t`.
    pub fn one_with(v: usize, t: Type) -> (r: Subst)
        ensures
            r@ == map![v => t@],
    {
        let r = Subst { entries: vec![(v, t)] };
        proof {
            lemma_pairs_map_at(r.entries@, 0);
        }
        assert(r@ =~= map![v => t@]);
        r
    }

    /// The number of bindings.
    pub fn len(&self) -> (r: usize)
        ensures
            r == self@.dom().len(),
            self@.dom().finite(),
    {
        proof {
            use_type_invariant(self);
            lemma_pairs_map_len(self.entries@);
        }
        self.entries.len()
    }

    /// A copy with the same bindings.
    pub fn clone_subst(&self) -> (r: Subst)
        ensures
            r@ == self@,
    {
        proof {
            use_type_invariant(self);
        }
        let mut entries: Vec<(usize, Type)> = Vec::new();
        let mut i: usize = 0;
        while i < self.entries.len()
            invariant
                i <= self.entries@.len(),
                entries@.len() == i,
                forall|k: int| #![trigger entries@[k]] 0 <= k < i ==> entries@[k].0 == self.entries@[k].0
                    && entries@[k].1@ == self.entries@[k].1@,
            decreases self.entries@.len() - i,
        {
            entries.push((self.entries[i].0, self.entries[i].1.clone_type()));
            i += 1;
        }
        proof {
            lemma_pairs_map_same(self.entries@, entries@);
        }
        Subst { entries }
    }

    /// Binds `v` to `t`, replacing any earlier binding of `v`.
    pub fn insert(&mut self, v: usize, t: Type)
        ensures
            final(self)@ == old(self)@.insert(v, t@),
    {
        proof {
            use_type_invariant(&*self);
        }
        let ghost old_entries = self.entries@;
        let ghost tv = t@;
        let mut entries = Vec::new();
        std::mem::swap(&mut entries, &mut self.entries);
        let ghost n = old_entries.len() as int;
        let i = match position(&entries, v) {
            Some(i) => {
                entries.set(i, (v, t));
                assert(entries@ == old_entries.update(i as int, (v, t)));
                i
            },
            None => {
                let i = entries.len();
                entries.push((v, t));
                assert(entries@ == old_entries.push((v, t)));
                i
            },
        };
        let ghost e = entries@;
        let ghost at = i as int;
        proof {
            assert(e[at].0 == v && e[at].1@ == tv);
            assert(forall|j: int| 0 <= j < n && j != at ==> e[j] == old_entries[j]);
            assert(at < n ==> old_entries[at].0 == v);
            assert(at == n ==> e.len() == n + 1 && forall|j: int| 0 <= j < n ==> old_entries[j].0 != v);
            assert(at < n ==> e.len() == n);
            assert forall|a: int, b: int| 0 <= a < e.len() && 0 <= b < e.len() && a != b
                implies e[a].0 != e[b].0 by {
                if a != at && b != at {
                    assert(old_entries[a].0 != old_entries[b].0);
                } else if a == at {
                    if at < n {
                        assert(old_entries[at].0 != old_entries[b].0);
                    }
                } else {
                    if at < n {
                        assert(old_entries[at].0 != old_entries[a].0);
                    }
                }
            }
            assert forall|q: usize| #[trigger] pairs_map(e).contains_key(q)
                == old(self)@.insert(v, tv).contains_key(q) by {
                if q != v {
                    if old(self)@.contains_key(q) {
                        let j = choose|j: int| 0 <= j < old_entries.len() && old_entries[j].0 == q;
                        assert(e[j].0 == q);
                    }
                    if pairs_map(e).contains_key(q) {
                        let j = choose|j: int| 0 <= j < e.len() && e[j].0 == q;
                        assert(old_entries[j].0 == q);
                    }
                } else {
                    assert(e[at].0 == q);
                }
            }
            assert forall|q: usize| #[trigger] pairs_map(e).contains_key(q)
                implies pairs_map(e)[q] == old(self)@.insert(v, tv)[q] by {
                let j = choose|j: int| 0 <= j < e.len() && e[j].0 == q;
                lemma_pairs_map_at(e, j);
                if j != at {
                    lemma_pairs_map_at(old_entries, j);
                }
            }
            assert(pairs_map(e) =~= old(self)@.insert(v, tv));
        }
        self.entries = entries;
    }

    /// Sequential composition: the substitution that applies `self` and then
    /// `right` (see `compose`); `right`'s bindings win on shared variables.
    pub fn right_merge(self, right: Self) -> (r: Self)
        ensures
            r@ == compose(self@, right@),
    {
        proof {
            use_type_invariant(&right);
        }
        let ghost re = right.entries@;
        let mut r = self.clone_subst();
        let mut i: usize = 0;
        while i < right.entries.len()
            invariant
                i <= re.len(),
                re == right.entries@,
                keys_distinct(re),
                forall|k: usize| #[trigger] r@.contains_key(k) == (self@.contains_key(k) || exists|j: int|
                    0 <= j < i && re[j].0 == k),
                forall|j: int| 0 <= j < i ==> #[trigger] r@[re[j].0] == apply(self@, re[j].1@),
                forall|k: usize| self@.contains_key(k) && (forall|j: int| 0 <= j < i ==> re[j].0 != k)
                    ==> #[trigger] r@[k] == self@[k],
            decreases re.len() - i,
        {
            let t = right.entries[i].1.apply(&self);
            let ghost before = r@;
            r.insert(right.entries[i].0, t);
            proof {
                let k0 = re[i as int].0;
                assert forall|j: int| 0 <= j < i + 1 implies #[trigger] r@[re[j].0] == apply(self@, re[j].1@) by {
                    if j < i {
                        assert(re[j].0 != k0);
                    }
                }
                assert forall|k: usize| #[trigger] r@.contains_key(k) == (self@.contains_key(k) || exists|j: int|
                    0 <= j < i + 1 && re[j].0 == k) by {
                    if k == k0 {
                        assert(re[i as int].0 == k);
                    } else if before.contains_key(k) && !self@.contains_key(k) {
                        let j = choose|j: int| 0 <= j < i && re[j].0 == k;
                        assert(0 <= j < i + 1 && re[j].0 == k);
                    } else if exists|j: int| 0 <= j < i + 1 && re[j].0 == k {
                        let j = choose|j: int| 0 <= j < i + 1 && re[j].0 == k;
                        assert(j != i);
                    }
                }
            }
            i += 1;
        }
        proof {
            assert forall|k: usize| #[trigger] r@.contains_key(k) == compose(self@, right@).contains_key(k) by {
                if right@.contains_key(k) {
                    let j = choose|j: int| 0 <= j < re.len() && re[j].0 == k;
                    assert(0 <= j < i && re[j].0 == k);
                }
            }
            assert forall|k: usize| #[trigger] r@.contains_key(k) implies r@[k] == compose(self@, right@)[k] by {
                if right@.contains_key(k) {
                    let j = choose|j: int| 0 <= j < re.len() && re[j].0 == k;
                    lemma_pairs_map_at(re, j);
                } else {
                    assert forall|j: int| 0 <= j < i implies re[j].0 != k by {
                        lemma_pairs_map_at(re, j);
                    }
                }
            }
            assert(r@ =~= compose(self@, right@));
        }
        r
    }

    /// Consistency-checked union: fails with `MergeConflict` exactly when the
    /// two bind some shared variable differently.
    pub fn merge(self, other: Self) -> (r: Result<Self, Error>)
        ensures
            r is Ok <==> agree(self@, other@),
            match r {
                Ok(m) => m@ == self@.union_prefer_right(other@),
                Err(e) => e is MergeConflict,
            },
    {
        proof {
            use_type_invariant(&self);
            use_type_invariant(&other);
        }
        let ghost se = self.entries@;
        let ghost oe = other.entries@;
        let mut i: usize = 0;
        while i < self.entries.len()
            invariant
                i <= se.len(),
                se == self.entries@,
                keys_distinct(se),
                forall|j: int| 0 <= j < i && #[trigger] other@.contains_key(se[j].0) ==> chase(
                    self@,
                    Ty::Var(se[j].0, None),
                    self@.dom().len(),
                ) == chase(other@, Ty::Var(se[j].0, None), other@.dom().len()),
            decreases se.len() - i,
        {
            let k = self.entries[i].0;
            if other.get(&k).is_some() {
                let x = Type::TyVar(k, None);
                let ra = x.chase(&self, self.len());
                let rb = x.chase(&other, other.len());
                if !ra.equals(&rb) {
                    proof {
                        lemma_pairs_map_at(se, i as int);
                        assert(self@.contains_key(k) && other@.contains_key(k));
                    }
                    return Err(Error::MergeConflict);
                }
            }
            i += 1;
        }
        proof {
            assert forall|k: usize| #[trigger] self@.contains_key(k) && other@.contains_key(k)
                implies chase(self@, Ty::Var(k, None), self@.dom().len()) == chase(other@, Ty::Var(k, None), other@.dom().len()) by {
                let j = choose|j: int| 0 <= j < se.len() && se[j].0 == k;
            }
        }
        let mut r = self.clone_subst();
        let mut i: usize = 0;
        while i < other.entries.len()
            invariant
                i <= oe.len(),
                oe == other.entries@,
                keys_distinct(oe),
                forall|k: usize| #[trigger] r@.contains_key(k) == (self@.contains_key(k) || exists|j: int|
                    0 <= j < i && oe[j].0 == k),
                forall|j: int| 0 <= j < i ==> #[trigger] r@[oe[j].0] == oe[j].1@,
                forall|k: usize| self@.contains_key(k) && (forall|j: int| 0 <= j < i ==> oe[j].0 != k)
                    ==> #[trigger] r@[k] == self@[k],
            decreases oe.len() - i,
        {
            let t = other.entries[i].1.clone_type();
            let ghost before = r@;
            r.insert(other.entries[i].0, t);
            proof {
                let k0 = oe[i as int].0;
                assert forall|j: int| 0 <= j < i + 1 implies #[trigger] r@[oe[j].0] == oe[j].1@ by {
                    if j < i {
                        assert(oe[j].0 != k0);
                    }
                }
                assert forall|k: usize| #[trigger] r@.contains_key(k) == (self@.contains_key(k) || exists|j: int|
                    0 <= j < i + 1 && oe[j].0 == k) by {
                    if k == k0 {
                        assert(oe[i as int].0 == k);
                    } else if before.contains_key(k) && !self@.contains_key(k) {
                        let j = choose|j: int| 0 <= j < i && oe[j].0 == k;
                        assert(0 <= j < i + 1 && oe[j].0 == k);
                    } else if exists|j: int| 0 <= j < i + 1 && oe[j].0 == k {
                        let j = choose|j: int| 0 <= j < i + 1 && oe[j].0 == k;
                        assert(j != i);
                    }
                }
            }
            i += 1;
        }
        proof {
            let u = self@.union_prefer_right(other@);
            assert forall|k: usize| #[trigger] r@.contains_key(k) == u.contains_key(k) by {
                if other@.contains_key(k) {
                    let j = choose|j: int| 0 <= j < oe.len() && oe[j].0 == k;
                    assert(0 <= j < i && oe[j].0 == k);
                }
            }
            assert forall|k: usize| #[trigger] r@.contains_key(k) implies r@[k] == u[k] by {
                if other@.contains_key(k) {
                    let j = choose|j: int| 0 <= j < oe.len() && oe[j].0 == k;
                    lemma_pairs_map_at(oe, j);
                } else {
                    assert forall|j: int| 0 <= j < i implies oe[j].0 != k by {
                        lemma_pairs_map_at(oe, j);
                    }
                }
            }
            assert(r@ =~= u);
        }
        Ok(r)
    }

    /// The type bound to `v`, if any.
    pub fn get(&self, v: &usize) -> (r: Option<&Type>)
        ensures
            match r {
                Some(t) => self@.contains_key(*v) && self@[*v] == t@,
                None => !self@.contains_key(*v),
            },
    {
        proof {
            use_type_invariant(self);
        }
        let mut i: usize = 0;
        while i < self.entries.len()
            invariant
                i <= self.entries@.len(),
                keys_distinct(self.entries@),
                forall|j: int| 0 <= j < i ==> self.entries@[j].0 != *v,
            decreases self.entries@.len() - i,
        {
            if self.entries[i].0 == *v {
                proof {
                    lemma_pairs_map_at(self.entries@, i as int);
                }
                return Some(&self.entries[i].1);
            }
            i += 1;
        }
        None
    }
}

/// Applying the composition of `s1` and `s2` to any type is applying `s2`
/// and then `s1`.
pub proof fn lemma_compose_apply(s1: Map<usize, Ty>, s2: Map<usize, Ty>, t: Ty)
    ensures
        apply(compose(s1, s2), t) == apply(s1, apply(s2, t)),
    decreases t,
{
    match t {
        Ty::Int32 | Ty::Bool => {},
        Ty::Var(id, c) => {
            if !s2.contains_key(id) && !s1.contains_key(id) {
                match c {
                    Some(sig) => {
                        lemma_compose_apply_seq(s1, s2, sig.0);
                        lemma_compose_apply(s1, s2, *sig.1);
                    },
                    None => {},
                }
            }
        },
        Ty::Func(ps, r) => {
            lemma_compose_apply_seq(s1, s2, ps);
            lemma_compose_apply(s1, s2, *r);
        },
        Ty::Tuple(es) => lemma_compose_apply_seq(s1, s2, es),
        Ty::TupleStruct(es) => lemma_compose_apply_seq(s1, s2, es),
        Ty::Lambda(env, ps, r) => {
            match env {
                Some(es) => lemma_compose_apply_seq(s1, s2, es),
                None => {},
            }
            lemma_compose_apply_seq(s1, s2, ps);
            lemma_compose_apply(s1, s2, *r);
        },
        Ty::RecordStruct(fs) => lemma_compose_apply_fields(s1, s2, fs),
    }
}

pub proof fn lemma_compose_apply_seq(s1: Map<usize, Ty>, s2: Map<usize, Ty>, ts: Seq<Ty>)
    ensures
        apply_seq(compose(s1, s2), ts) == apply_seq(s1, apply_seq(s2, ts)),
    decreases ts,
{
    if ts.len() > 0 {
        lemma_compose_apply_seq(s1, s2, ts.drop_last());
        lemma_compose_apply(s1, s2, ts.last());
        let inner = apply_seq(s2, ts);
        assert(inner.drop_last() =~= apply_seq(s2, ts.drop_last()));
        assert(inner.last() == apply(s2, ts.last()));
        assert(inner.len() > 0);
    }
}

pub proof fn lemma_compose_apply_fields(s1: Map<usize, Ty>, s2: Map<usize, Ty>, fs: Seq<(Seq<char>, Ty)>)
    ensures
        apply_fields(compose(s1, s2), fs) == apply_fields(s1, apply_fields(s2, fs)),
    decreases fs,
{
    if fs.len() > 0 {
        lemma_compose_apply_fields(s1, s2, fs.drop_last());
        lemma_compose_apply(s1, s2, fs.last().1);
        let inner = apply_fields(s2, fs);
        assert(inner.drop_last() =~= apply_fields(s2, fs.drop_last()));
        assert(inner.last() == (fs.last().0, apply(s2, fs.last().1)));
        assert(inner.len() > 0);
    }
}

/// `s1.right_merge(s2)` applied to a type gives what applying `s2` and then
/// `s1` gives.
pub proof fn lemma_right_merge_is_sequential(s1: Subst, s2: Subst, merged: Subst, t: Ty)
    requires
        merged@ == compose(s1@, s2@),
    ensures
        apply(merged@, t) == apply(s1@, apply(s2@, t)),
{
    lemma_compose_apply(s1@, s2@, t);
}

/// Merging is commutative in outcome: `a` agrees with `b` exactly when `b`
/// agrees with `a`, and both unions bind the same variables, each variable
/// that only one side binds to that side's type.
pub proof fn lemma_merge_commutes(a: Subst, b: Subst)
    ensures
        agree(a@, b@) == agree(b@, a@),
        a@.union_prefer_right(b@).dom() == b@.union_prefer_right(a@).dom(),
        forall|k: usize| #[trigger] a@.contains_key(k) && !b@.contains_key(k) ==> a@.union_prefer_right(b@)[k]
            == a@[k] && b@.union_prefer_right(a@)[k] == a@[k],
        forall|k: usize| #[trigger] b@.contains_key(k) && !a@.contains_key(k) ==> a@.union_prefer_right(b@)[k]
            == b@[k] && b@.union_prefer_right(a@)[k] == b@[k],
{
    assert(a@.union_prefer_right(b@).dom() =~= b@.union_prefer_right(a@).dom());
}
} // verus!
