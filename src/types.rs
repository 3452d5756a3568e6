use vstd::prelude::*;

verus! {

broadcast use {vstd::seq::group_seq_axioms, vstd::std_specs::vec::group_vec_axioms};

/// Deferred obligation on a type variable: once resolved, it must be
/// callable with these parameter types, returning `ret_type`.
#[derive(Debug)]
pub struct CallConstraint {
    pub param_types: Vec<Type>,
    pub ret_type: Type,
}

#[derive(Debug)]
pub struct FuncType {
    pub param_types: Vec<Type>,
    pub ret_type: Type,
}

#[derive(Debug)]
pub struct TupleType {
    pub element_tys: Vec<Type>,
}

#[derive(Debug)]
pub struct LambdaType {
    pub env_ty: Option<TupleType>,
    pub func_ty: FuncType,
}

#[derive(Debug)]
pub enum StructInternalType {
    TupleType(TupleType),
    RecordType(Vec<(String, Type)>),
}

/// The type algebra of the language.
#[derive(Debug)]
pub enum Type {
    Int32,
    Bool,
    TyVar(usize, Option<Box<CallConstraint>>),
    Fn(Box<FuncType>),
    TupleType(Box<TupleType>),
    LambdaType(Box<LambdaType>),
    StructType(Box<StructInternalType>),
}

/// Mathematical model of a `Type`.
pub enum Ty {
    Int32,
    Bool,
    Var(usize, Option<(Seq<Ty>, Box<Ty>)>),
    Func(Seq<Ty>, Box<Ty>),
    Tuple(Seq<Ty>),
    Lambda(Option<Seq<Ty>>, Seq<Ty>, Box<Ty>),
    TupleStruct(Seq<Ty>),
    RecordStruct(Seq<(Seq<char>, Ty)>),
}

pub open spec fn tys_view(s: Seq<Type>) -> Seq<Ty>
    decreases s,
{
    if s.len() == 0 {
        Seq::empty()
    } else {
        tys_view(s.drop_last()).push(type_view(s.last()))
    }
}

pub open spec fn fields_view(s: Seq<(String, Type)>) -> Seq<(Seq<char>, Ty)>
    decreases s,
{
    if s.len() == 0 {
        Seq::empty()
    } else {
        fields_view(s.drop_last()).push((s.last().0@, type_view(s.last().1)))
    }
}

pub open spec fn type_view(t: Type) -> Ty
    decreases t,
{
    match t {
        Type::Int32 => Ty::Int32,
        Type::Bool => Ty::Bool,
        Type::TyVar(id, None) => Ty::Var(id, None),
        Type::TyVar(id, Some(c)) => Ty::Var(
            id,
            Some((tys_view(c.param_types@), Box::new(type_view(c.ret_type)))),
        ),
        Type::Fn(f) => Ty::Func(tys_view(f.param_types@), Box::new(type_view(f.ret_type))),
        Type::TupleType(x) => Ty::Tuple(tys_view(x.element_tys@)),
        Type::LambdaType(l) => Ty::Lambda(
            match l.env_ty {
                None => None,
                Some(e) => Some(tys_view(e.element_tys@)),
            },
            tys_view(l.func_ty.param_types@),
            Box::new(type_view(l.func_ty.ret_type)),
        ),
        Type::StructType(s) => match *s {
            StructInternalType::TupleType(x) => Ty::TupleStruct(tys_view(x.element_tys@)),
            StructInternalType::RecordType(r) => Ty::RecordStruct(fields_view(r@)),
        },
    }
}

impl View for Type {
    type V = Ty;

    open spec fn view(&self) -> Ty {
        type_view(*self)
    }
}

pub proof fn lemma_tys_view(s: Seq<Type>)
    ensures
        tys_view(s).len() == s.len(),
        forall|i: int| 0 <= i < s.len() ==> #[trigger] tys_view(s)[i] == s[i]@,
    decreases s.len(),
{
    if s.len() > 0 {
        lemma_tys_view(s.drop_last());
    }
}

pub proof fn lemma_fields_view(s: Seq<(String, Type)>)
    ensures
        fields_view(s).len() == s.len(),
        forall|i: int|
            0 <= i < s.len() ==> #[trigger] fields_view(s)[i] == (s[i].0@, s[i].1@),
    decreases s.len(),
{
    if s.len() > 0 {
        lemma_fields_view(s.drop_last());
    }
}

pub proof fn lemma_tys_view_eq(a: Seq<Type>, b: Seq<Type>)
    requires
        a.len() == b.len(),
        forall|i: int| 0 <= i < a.len() ==> #[trigger] a[i]@ == b[i]@,
    ensures
        tys_view(a) == tys_view(b),
{
    lemma_tys_view(a);
    lemma_tys_view(b);
    assert(tys_view(a) =~= tys_view(b));
}

pub proof fn lemma_fields_view_eq(a: Seq<(String, Type)>, b: Seq<(String, Type)>)
    requires
        a.len() == b.len(),
        forall|i: int| #![trigger a[i]] 0 <= i < a.len() ==> a[i].0@ == b[i].0@ && a[i].1@ == b[i].1@,
    ensures
        fields_view(a) == fields_view(b),
{
    lemma_fields_view(a);
    lemma_fields_view(b);
    assert(fields_view(a) =~= fields_view(b));
}

fn clone_types(v: &Vec<Type>) -> (r: Vec<Type>)
    ensures
        tys_view(r@) == tys_view(v@),
    decreases v,
{
    let mut r: Vec<Type> = Vec::new();
    let mut i: usize = 0;
    while i < v.len()
        invariant
            i <= v@.len(),
            r@.len() == i,
            forall|k: int| 0 <= k < i ==> #[trigger] r@[k]@ == v@[k]@,
        decreases v@.len() - i,
    {
        r.push(v[i].clone_type());
        i += 1;
    }
    proof {
        lemma_tys_view_eq(r@, v@);
    }
    r
}

fn clone_fields(v: &Vec<(String, Type)>) -> (r: Vec<(String, Type)>)
    ensures
        fields_view(r@) == fields_view(v@),
    decreases v,
{
    let mut r: Vec<(String, Type)> = Vec::new();
    let mut i: usize = 0;
    while i < v.len()
        invariant
            i <= v@.len(),
            r@.len() == i,
            forall|k: int| #![trigger r@[k]] 0 <= k < i ==> r@[k].0@ == v@[k].0@ && r@[k].1@ == v@[k].1@,
        decreases v@.len() - i,
    {
        r.push((v[i].0.clone(), v[i].1.clone_type()));
        i += 1;
    }
    proof {
        lemma_fields_view_eq(r@, v@);
    }
    r
}

fn clone_tuple(t: &TupleType) -> (r: TupleType)
    ensures
        tys_view(r.element_tys@) == tys_view(t.element_tys@),
    decreases t,
{
    TupleType { element_tys: clone_types(&t.element_tys) }
}

fn types_equal(a: &Vec<Type>, b: &Vec<Type>) -> (r: bool)
    ensures
        r == (tys_view(a@) == tys_view(b@)),
    decreases a,
{
    proof {
        lemma_tys_view(a@);
        lemma_tys_view(b@);
    }
    if a.len() != b.len() {
        return false;
    }
    let mut i: usize = 0;
    while i < a.len()
        invariant
            i <= a@.len(),
            a@.len() == b@.len(),
            tys_view(a@).len() == a@.len(),
            tys_view(b@).len() == b@.len(),
            forall|k: int| 0 <= k < a@.len() ==> #[trigger] tys_view(a@)[k] == a@[k]@,
            forall|k: int| 0 <= k < b@.len() ==> #[trigger] tys_view(b@)[k] == b@[k]@,
            forall|k: int| 0 <= k < i ==> #[trigger] a@[k]@ == b@[k]@,
        decreases a@.len() - i,
    {
        if !a[i].equals(&b[i]) {
            assert(tys_view(a@)[i as int] != tys_view(b@)[i as int]);
            return false;
        }
        i += 1;
    }
    proof {
        lemma_tys_view_eq(a@, b@);
    }
    true
}

fn fields_equal(a: &Vec<(String, Type)>, b: &Vec<(String, Type)>) -> (r: bool)
    ensures
        r == (fields_view(a@) == fields_view(b@)),
    decreases a,
{
    proof {
        lemma_fields_view(a@);
        lemma_fields_view(b@);
    }
    if a.len() != b.len() {
        return false;
    }
    let mut i: usize = 0;
    while i < a.len()
        invariant
            i <= a@.len(),
            a@.len() == b@.len(),
            fields_view(a@).len() == a@.len(),
            fields_view(b@).len() == b@.len(),
            forall|k: int| 0 <= k < a@.len() ==> #[trigger] fields_view(a@)[k] == (a@[k].0@, a@[k].1@),
            forall|k: int| 0 <= k < b@.len() ==> #[trigger] fields_view(b@)[k] == (b@[k].0@, b@[k].1@),
            forall|k: int| #![trigger a@[k]] 0 <= k < i ==> a@[k].0@ == b@[k].0@ && a@[k].1@ == b@[k].1@,
        decreases a@.len() - i,
    {
        if !(a[i].0 == b[i].0) || !a[i].1.equals(&b[i].1) {
            assert(fields_view(a@)[i as int] != fields_view(b@)[i as int]);
            return false;
        }
        i += 1;
    }
    proof {
        lemma_fields_view_eq(a@, b@);
    }
    true
}

impl Type {
    /// A copy with the same model.
    pub fn clone_type(&self) -> (r: Type)
        ensures
            r@ == self@,
        decreases self,
    {
        match self {
            Type::Int32 => Type::Int32,
            Type::Bool => Type::Bool,
            Type::TyVar(id, None) => Type::TyVar(*id, None),
            Type::TyVar(id, Some(c)) => Type::TyVar(
                *id,
                Some(
                    Box::new(
                        CallConstraint {
                            param_types: clone_types(&c.param_types),
                            ret_type: c.ret_type.clone_type(),
                        },
                    ),
                ),
            ),
            Type::Fn(f) => Type::Fn(
                Box::new(
                    FuncType {
                        param_types: clone_types(&f.param_types),
                        ret_type: f.ret_type.clone_type(),
                    },
                ),
            ),
            Type::TupleType(x) => Type::TupleType(Box::new(clone_tuple(x))),
            Type::LambdaType(l) => {
                let env_ty = match &l.env_ty {
                    None => None,
                    Some(e) => Some(clone_tuple(e)),
                };
                let func_ty = FuncType {
                    param_types: clone_types(&l.func_ty.param_types),
                    ret_type: l.func_ty.ret_type.clone_type(),
                };
                Type::LambdaType(Box::new(LambdaType { env_ty, func_ty }))
            },
            Type::StructType(s) => match &**s {
                StructInternalType::TupleType(x) => Type::StructType(
                    Box::new(StructInternalType::TupleType(clone_tuple(x))),
                ),
                StructInternalType::RecordType(fs) => Type::StructType(
                    Box::new(StructInternalType::RecordType(clone_fields(fs))),
                ),
            },
        }
    }

    /// Structural equality of the models.
    pub fn equals(&self, other: &Type) -> (r: bool)
        ensures
            r == (self@ == other@),
        decreases self,
    {
        match (self, other) {
            (Type::Int32, Type::Int32) => true,
            (Type::Bool, Type::Bool) => true,
            (Type::TyVar(a, None), Type::TyVar(b, None)) => *a == *b,
            (Type::TyVar(a, Some(c)), Type::TyVar(b, Some(d))) => *a == *b && types_equal(
                &c.param_types,
                &d.param_types,
            ) && c.ret_type.equals(&d.ret_type),
            (Type::Fn(f), Type::Fn(g)) => types_equal(&f.param_types, &g.param_types)
                && f.ret_type.equals(&g.ret_type),
            (Type::TupleType(x), Type::TupleType(y)) => types_equal(&x.element_tys, &y.element_tys),
            (Type::LambdaType(l), Type::LambdaType(k)) => {
                let env_eq = match (&l.env_ty, &k.env_ty) {
                    (None, None) => true,
                    (Some(e), Some(f)) => types_equal(&e.element_tys, &f.element_tys),
                    _ => false,
                };
                env_eq && types_equal(&l.func_ty.param_types, &k.func_ty.param_types)
                    && l.func_ty.ret_type.equals(&k.func_ty.ret_type)
            },
            (Type::StructType(s), Type::StructType(t)) => match (&**s, &**t) {
                (StructInternalType::TupleType(x), StructInternalType::TupleType(y)) => types_equal(
                    &x.element_tys,
                    &y.element_tys,
                ),
                (StructInternalType::RecordType(x), StructInternalType::RecordType(y)) => fields_equal(x, y),
                _ => false,
            },
            _ => false,
        }
    }
}

impl PartialEq for Type {
    fn eq(&self, other: &Type) -> (r: bool)
        ensures
            r == (self@ == other@),
    {
        self.equals(other)
    }
}

impl vstd::std_specs::cmp::PartialEqSpecImpl for Type {
    open spec fn obeys_eq_spec() -> bool {
        true
    }

    open spec fn eq_spec(&self, other: &Type) -> bool {
        self@ == other@
    }
}

} // verus!
