use vstd::prelude::*;
use crate::ast::{same_expr, same_exprs, DefFuncAST, ParenAST, ExprAST, VariableAST, LambdaAST, TupleAST, FuncCallAST, OpAST, IfAST, TupleStructAST, IndexPropertyAST, NamePropertyAST};
use crate::hir::ProgramHir;
use crate::table::{NameMap, names_distinct, named_map, lemma_named_map_at};
use crate::seq_util::reversed;

verus! {

broadcast use {vstd::seq::group_seq_axioms, vstd::std_specs::vec::group_vec_axioms};

/// Whether no named-field constructor call occurs in `e`; currying expects
/// that form to be gone already.
pub open spec fn free_of_named_ctor(e: ExprAST) -> bool
    decreases e,
{
    match e {
        ExprAST::NumAST(_) | ExprAST::BoolAST(_) | ExprAST::VariableAST(_) => true,
        ExprAST::OpAST(x) => free_of_named_ctor(x.l_expr) && free_of_named_ctor(x.r_expr),
        ExprAST::FuncCallAST(x) => free_of_named_ctor(x.func) && free_of_named_ctor(x.param),
        ExprAST::LambdaAST(x) => free_of_named_ctor(x.body),
        ExprAST::TupleAST(x) => all_free_of_named_ctor(x.elements@),
        ExprAST::ParenAST(x) => free_of_named_ctor(x.expr),
        ExprAST::IfAST(x) => free_of_named_ctor(x.cond) && free_of_named_ctor(x.t_expr)
            && free_of_named_ctor(x.f_expr),
        ExprAST::NamedParamsConstructorCallAST(_) => false,
        ExprAST::TupleStructAST(x) => all_free_of_named_ctor(x.tuple.elements@),
        ExprAST::IndexPropertyAST(x) => free_of_named_ctor(x.expr),
        ExprAST::NamePropertyAST(x) => free_of_named_ctor(x.expr),
    }
}

pub open spec fn all_free_of_named_ctor(es: Seq<ExprAST>) -> bool
    decreases es,
{
    forall|i: int| 0 <= i < es.len() ==> free_of_named_ctor(#[trigger] es[i])
}

/// `out` is `e` curried with the pending parameters `params` and the captured
/// environment `env`: each pending parameter becomes a one-parameter lambda
/// that captures the parameters consumed before it; a lambda met once no
/// parameter is pending is flattened against its own parameters and
/// environment, the outermost lambda built from it keeping its position;
/// every other node, parentheses included, is rebuilt from its curried
/// children, each started with nothing pending and an empty environment.
pub open spec fn curried(e: ExprAST, params: Seq<VariableAST>, env: Seq<VariableAST>, out: ExprAST) -> bool
    decreases e, params.len(),
{
    if params.len() > 0 {
        match out {
            ExprAST::LambdaAST(l) => l.pos == e.spec_pos() && l.params@ == seq![params[0]] && l.env@
                == env && curried(e, params.drop_first(), env.push(params[0]), l.body),
            _ => false,
        }
    } else {
        match e {
            ExprAST::LambdaAST(x) => if x.params@.len() > 0 {
                match out {
                    ExprAST::LambdaAST(l) => l.pos == x.pos && l.params@ == seq![x.params@[0]] && l.env@
                        == x.env@ && curried(x.body, x.params@.drop_first(), x.env@.push(x.params@[0]), l.body),
                    _ => false,
                }
            } else {
                curried(x.body, seq![], x.env@, out)
            },
            ExprAST::ParenAST(x) => match out {
                ExprAST::ParenAST(y) => y.pos == x.pos && curried(x.expr, seq![], seq![], y.expr),
                _ => false,
            },
            ExprAST::TupleAST(x) => match out {
                ExprAST::TupleAST(y) => y.pos == x.pos && all_curried(x.elements@, y.elements@),
                _ => false,
            },
            ExprAST::FuncCallAST(x) => match out {
                ExprAST::FuncCallAST(y) => y.pos == x.pos && curried(x.func, seq![], seq![], y.func)
                    && curried(x.param, seq![], seq![], y.param),
                _ => false,
            },
            ExprAST::OpAST(x) => match out {
                ExprAST::OpAST(y) => y.pos == x.pos && y.op == x.op && curried(
                    x.l_expr,
                    seq![],
                    seq![],
                    y.l_expr,
                ) && curried(x.r_expr, seq![], seq![], y.r_expr),
                _ => false,
            },
            ExprAST::IfAST(x) => match out {
                ExprAST::IfAST(y) => y.pos == x.pos && curried(x.cond, seq![], seq![], y.cond)
                    && curried(x.t_expr, seq![], seq![], y.t_expr) && curried(
                    x.f_expr,
                    seq![],
                    seq![],
                    y.f_expr,
                ),
                _ => false,
            },
            ExprAST::NamedParamsConstructorCallAST(_) => false,
            ExprAST::TupleStructAST(x) => match out {
                ExprAST::TupleStructAST(y) => y.pos == x.pos && y.name == x.name && y.tuple.pos
                    == x.tuple.pos && all_curried(x.tuple.elements@, y.tuple.elements@),
                _ => false,
            },
            ExprAST::IndexPropertyAST(x) => match out {
                ExprAST::IndexPropertyAST(y) => y.pos == x.pos && y.index == x.index && curried(
                    x.expr,
                    seq![],
                    seq![],
                    y.expr,
                ),
                _ => false,
            },
            ExprAST::NamePropertyAST(x) => match out {
                ExprAST::NamePropertyAST(y) => y.pos == x.pos && y.property == x.property
                    && curried(x.expr, seq![], seq![], y.expr),
                _ => false,
            },
            ExprAST::NumAST(_) | ExprAST::BoolAST(_) | ExprAST::VariableAST(_) => out == e,
        }
    }
}

/// Element-wise currying of a sequence, each element on its own.
pub open spec fn all_curried(es: Seq<ExprAST>, outs: Seq<ExprAST>) -> bool
    decreases es,
{
    outs.len() == es.len() && forall|i: int|
        0 <= i < es.len() ==> curried(#[trigger] es[i], seq![], seq![], outs[i])
}

/// Currying has one result: two outcomes of currying the same expression
/// with the same pending parameters and environment are the same tree.
pub proof fn lemma_curried_unique(
    e: ExprAST,
    params: Seq<VariableAST>,
    env: Seq<VariableAST>,
    o1: ExprAST,
    o2: ExprAST,
)
    requires
        curried(e, params, env, o1),
        curried(e, params, env, o2),
    ensures
        same_expr(o1, o2),
    decreases e, params.len(),
{
    if params.len() > 0 {
        let l1 = o1->LambdaAST_0;
        let l2 = o2->LambdaAST_0;
        lemma_curried_unique(e, params.drop_first(), env.push(params[0]), l1.body, l2.body);
    } else {
        match e {
            ExprAST::LambdaAST(x) => {
                if x.params@.len() > 0 {
                    let l1 = o1->LambdaAST_0;
                    let l2 = o2->LambdaAST_0;
                    lemma_curried_unique(x.body, x.params@.drop_first(), x.env@.push(x.params@[0]), l1.body, l2.body);
                } else {
                    lemma_curried_unique(x.body, seq![], x.env@, o1, o2);
                }
            },
            ExprAST::ParenAST(x) => {
                lemma_curried_unique(x.expr, seq![], seq![], o1->ParenAST_0.expr, o2->ParenAST_0.expr);
            },
            ExprAST::TupleAST(x) => {
                let a = o1->TupleAST_0.elements@;
                let b = o2->TupleAST_0.elements@;
                assert(all_curried(x.elements@, a) && all_curried(x.elements@, b));
                assert forall|i: int| 0 <= i < a.len() implies same_expr(#[trigger] a[i], b[i]) by {
                    assert(curried(x.elements@[i], seq![], seq![], a[i]));
                    assert(curried(x.elements@[i], seq![], seq![], b[i]));
                    lemma_curried_unique(x.elements@[i], seq![], seq![], a[i], b[i]);
                }
                assert(same_exprs(a, b));
            },
            ExprAST::TupleStructAST(x) => {
                let a = o1->TupleStructAST_0.tuple.elements@;
                let b = o2->TupleStructAST_0.tuple.elements@;
                assert(all_curried(x.tuple.elements@, a) && all_curried(x.tuple.elements@, b));
                assert forall|i: int| 0 <= i < a.len() implies same_expr(#[trigger] a[i], b[i]) by {
                    assert(curried(x.tuple.elements@[i], seq![], seq![], a[i]));
                    assert(curried(x.tuple.elements@[i], seq![], seq![], b[i]));
                    lemma_curried_unique(x.tuple.elements@[i], seq![], seq![], a[i], b[i]);
                }
                assert(same_exprs(a, b));
            },
            ExprAST::FuncCallAST(x) => {
                lemma_curried_unique(x.func, seq![], seq![], o1->FuncCallAST_0.func, o2->FuncCallAST_0.func);
                lemma_curried_unique(x.param, seq![], seq![], o1->FuncCallAST_0.param, o2->FuncCallAST_0.param);
            },
            ExprAST::OpAST(x) => {
                lemma_curried_unique(x.l_expr, seq![], seq![], o1->OpAST_0.l_expr, o2->OpAST_0.l_expr);
                lemma_curried_unique(x.r_expr, seq![], seq![], o1->OpAST_0.r_expr, o2->OpAST_0.r_expr);
            },
            ExprAST::IfAST(x) => {
                lemma_curried_unique(x.cond, seq![], seq![], o1->IfAST_0.cond, o2->IfAST_0.cond);
                lemma_curried_unique(x.t_expr, seq![], seq![], o1->IfAST_0.t_expr, o2->IfAST_0.t_expr);
                lemma_curried_unique(x.f_expr, seq![], seq![], o1->IfAST_0.f_expr, o2->IfAST_0.f_expr);
            },
            ExprAST::IndexPropertyAST(x) => {
                lemma_curried_unique(x.expr, seq![], seq![], o1->IndexPropertyAST_0.expr, o2->IndexPropertyAST_0.expr);
            },
            ExprAST::NamePropertyAST(x) => {
                lemma_curried_unique(x.expr, seq![], seq![], o1->NamePropertyAST_0.expr, o2->NamePropertyAST_0.expr);
            },
            _ => {},
        }
    }
}

/// The name of the placeholder parameter given to a definition without one.
pub open spec fn discard_name() -> Seq<char> {
    seq!['_']
}

/// `out` is definition `d` curried: its one parameter is the first of `d`'s
/// (a placeholder `_` at `d`'s position where `d` has none) and its body is
/// `d`'s body curried with the remaining parameters pending and that first
/// parameter captured.
pub open spec fn def_curried(d: DefFuncAST, out: DefFuncAST) -> bool {
    &&& out.pos == d.pos
    &&& out.name == d.name
    &&& out.params@.len() == 1
    &&& if d.params@.len() == 0 {
        &&& out.params@[0].pos == d.pos
        &&& out.params@[0].id@ == discard_name()
        &&& curried(d.body, seq![], seq![out.params@[0]], out.body)
    } else {
        &&& out.params@[0] == d.params@[0]
        &&& curried(d.body, d.params@.drop_first(), seq![d.params@[0]], out.body)
    }
}

/// Whether every definition body in `defs` is free of named-field constructor calls.
pub open spec fn defs_free_of_named_ctor(defs: Map<Seq<char>, DefFuncAST>) -> bool {
    forall|k: Seq<char>| #[trigger] defs.contains_key(k) ==> free_of_named_ctor(defs[k].body)
}

/// An expression already in curried form: every lambda has exactly one
/// parameter, and no named-field constructor call remains.
pub open spec fn in_curried_form(e: ExprAST) -> bool
    decreases e,
{
    match e {
        ExprAST::NumAST(_) | ExprAST::BoolAST(_) | ExprAST::VariableAST(_) => true,
        ExprAST::OpAST(x) => in_curried_form(x.l_expr) && in_curried_form(x.r_expr),
        ExprAST::FuncCallAST(x) => in_curried_form(x.func) && in_curried_form(x.param),
        ExprAST::LambdaAST(x) => x.params@.len() == 1 && in_curried_form(x.body),
        ExprAST::TupleAST(x) => all_in_curried_form(x.elements@),
        ExprAST::ParenAST(x) => in_curried_form(x.expr),
        ExprAST::IfAST(x) => in_curried_form(x.cond) && in_curried_form(x.t_expr) && in_curried_form(
            x.f_expr,
        ),
        ExprAST::NamedParamsConstructorCallAST(_) => false,
        ExprAST::TupleStructAST(x) => all_in_curried_form(x.tuple.elements@),
        ExprAST::IndexPropertyAST(x) => in_curried_form(x.expr),
        ExprAST::NamePropertyAST(x) => in_curried_form(x.expr),
    }
}

pub open spec fn all_in_curried_form(es: Seq<ExprAST>) -> bool
    decreases es,
{
    forall|i: int| 0 <= i < es.len() ==> in_curried_form(#[trigger] es[i])
}

/// An expression in curried form is its own currying.
pub proof fn lemma_curried_form_is_fixed(e: ExprAST, env: Seq<VariableAST>)
    requires
        in_curried_form(e),
    ensures
        curried(e, seq![], env, e),
    decreases e,
{
    match e {
        ExprAST::LambdaAST(x) => {
            lemma_curried_form_is_fixed(x.body, x.env@.push(x.params@[0]));
            assert(x.params@.drop_first() =~= seq![]);
            assert(x.params@ =~= seq![x.params@[0]]);
        },
        ExprAST::ParenAST(x) => lemma_curried_form_is_fixed(x.expr, seq![]),
        ExprAST::OpAST(x) => {
            lemma_curried_form_is_fixed(x.l_expr, seq![]);
            lemma_curried_form_is_fixed(x.r_expr, seq![]);
        },
        ExprAST::FuncCallAST(x) => {
            lemma_curried_form_is_fixed(x.func, seq![]);
            lemma_curried_form_is_fixed(x.param, seq![]);
        },
        ExprAST::IfAST(x) => {
            lemma_curried_form_is_fixed(x.cond, seq![]);
            lemma_curried_form_is_fixed(x.t_expr, seq![]);
            lemma_curried_form_is_fixed(x.f_expr, seq![]);
        },
        ExprAST::TupleAST(x) => {
            assert forall|i: int| 0 <= i < x.elements@.len() implies curried(
                #[trigger] x.elements@[i],
                seq![],
                seq![],
                x.elements@[i],
            ) by {
                assert(all_in_curried_form(x.elements@));
                lemma_curried_form_is_fixed(x.elements@[i], seq![]);
            }
            assert(all_curried(x.elements@, x.elements@));
        },
        ExprAST::TupleStructAST(x) => {
            assert forall|i: int| 0 <= i < x.tuple.elements@.len() implies curried(
                #[trigger] x.tuple.elements@[i],
                seq![],
                seq![],
                x.tuple.elements@[i],
            ) by {
                assert(all_in_curried_form(x.tuple.elements@));
                lemma_curried_form_is_fixed(x.tuple.elements@[i], seq![]);
            }
            assert(all_curried(x.tuple.elements@, x.tuple.elements@));
        },
        ExprAST::IndexPropertyAST(x) => lemma_curried_form_is_fixed(x.expr, seq![]),
        ExprAST::NamePropertyAST(x) => lemma_curried_form_is_fixed(x.expr, seq![]),
        _ => {},
    }
}

/// Currying a definition that is already curried (one parameter, a body in
/// curried form) may give back the definition itself.
pub proof fn lemma_currying_curried_def(d: DefFuncAST)
    requires
        d.params@.len() == 1,
        in_curried_form(d.body),
    ensures
        def_curried(d, d),
{
    lemma_curried_form_is_fixed(d.body, seq![d.params@[0]]);
    assert(d.params@.drop_first() =~= seq![]);
}

/// A definition `f(x, y, z) = body` curries to a definition on `x` whose
/// body is a lambda on `y` capturing `[x]`, whose body is a lambda on `z`
/// capturing `[x, y]`, whose body is `body` (when `body` is already in
/// curried form).
pub proof fn lemma_currying_three_params(d: DefFuncAST, out: DefFuncAST)
    requires
        d.params@.len() == 3,
        in_curried_form(d.body),
        def_curried(d, out),
    ensures
        out.params@ == seq![d.params@[0]],
        out.body is LambdaAST,
        out.body->LambdaAST_0.params@ == seq![d.params@[1]],
        out.body->LambdaAST_0.env@ == seq![d.params@[0]],
        out.body->LambdaAST_0.body is LambdaAST,
        out.body->LambdaAST_0.body->LambdaAST_0.params@ == seq![d.params@[2]],
        out.body->LambdaAST_0.body->LambdaAST_0.env@ == seq![d.params@[0], d.params@[1]],
        same_expr(out.body->LambdaAST_0.body->LambdaAST_0.body, d.body),
{
    let p = d.params@;
    assert(out.params@ =~= seq![p[0]]);
    let ps1 = p.drop_first();
    assert(curried(d.body, ps1, seq![p[0]], out.body));
    assert(ps1.len() == 2 && ps1[0] == p[1]);
    let l1 = out.body->LambdaAST_0;
    let ps2 = ps1.drop_first();
    let env2 = seq![p[0]].push(ps1[0]);
    assert(env2 =~= seq![p[0], p[1]]);
    assert(curried(d.body, ps2, env2, l1.body));
    assert(ps2.len() == 1 && ps2[0] == p[2]);
    let l2 = l1.body->LambdaAST_0;
    let env3 = env2.push(ps2[0]);
    assert(ps2.drop_first() =~= seq![]);
    assert(curried(d.body, ps2.drop_first(), env3, l2.body));
    lemma_curried_form_is_fixed(d.body, env3);
    lemma_curried_unique(d.body, seq![], env3, l2.body, d.body);
}

/// Currying is a no-op on a definition that is already curried: whatever
/// currying gives back is the same definition, its body the same tree.
pub proof fn lemma_currying_curried_def_unchanged(d: DefFuncAST, out: DefFuncAST)
    requires
        d.params@.len() == 1,
        in_curried_form(d.body),
        def_curried(d, out),
    ensures
        out.pos == d.pos,
        out.name == d.name,
        out.params@ == d.params@,
        same_expr(out.body, d.body),
{
    lemma_currying_curried_def(d);
    assert(d.params@.drop_first() =~= seq![]);
    assert(d.params@ =~= seq![d.params@[0]]);
    lemma_curried_unique(d.body, seq![], seq![d.params@[0]], out.body, d.body);
}

fn clone_var(v: &VariableAST) -> (r: VariableAST)
    ensures
        r == *v,
{
    VariableAST { pos: v.pos, id: v.id.clone() }
}

fn clone_vars(vs: &Vec<VariableAST>) -> (r: Vec<VariableAST>)
    ensures
        r@ == vs@,
{
    let mut r: Vec<VariableAST> = Vec::new();
    let mut i: usize = 0;
    while i < vs.len()
        invariant
            i <= vs@.len(),
            r@ == vs@.take(i as int),
        decreases vs@.len() - i,
    {
        r.push(clone_var(&vs[i]));
        i += 1;
        assert(r@ =~= vs@.take(i as int));
    }
    assert(vs@.take(i as int) =~= vs@);
    r
}

fn curry_all(es: Vec<ExprAST>) -> (r: Vec<ExprAST>)
    requires
        all_free_of_named_ctor(es@),
    ensures
        all_curried(es@, r@),
    decreases es, 0nat,
{
    let ghost orig = es@;
    let mut rest = reversed(es);
    let mut r: Vec<ExprAST> = Vec::new();
    while rest.len() > 0
        invariant
            r@.len() <= orig.len(),
            rest@ == orig.subrange(r@.len() as int, orig.len() as int).reverse(),
            forall|i: int| 0 <= i < r@.len() ==> curried(#[trigger] orig[i], seq![], seq![], r@[i]),
            all_free_of_named_ctor(orig),
            orig == es@,
        decreases rest@.len(),
    {
        let e = rest.pop().unwrap();
        let ghost k = r@.len() as int;
        assert(e == orig[k]);
        assert(free_of_named_ctor(orig[k]));
        let c = e.currying(Vec::new(), Vec::new());
        assert(Seq::<VariableAST>::empty() =~= seq![]);
        r.push(c);
        assert(rest@ =~= orig.subrange(r@.len() as int, orig.len() as int).reverse());
    }
    r
}

impl ProgramHir {
    /// Curries every function definition; the other tables are kept.
    pub fn currying(self) -> (r: ProgramHir)
        requires
            defs_free_of_named_ctor(self@.defs),
        ensures
            r@.infixes == self@.infixes,
            r@.decs == self@.decs,
            r@.ex_decs == self@.ex_decs,
            r@.defs.dom() == self@.defs.dom(),
            forall|k: Seq<char>| #[trigger] self@.defs.contains_key(k)
                ==> def_curried(self@.defs[k], r@.defs[k]),
    {
        let ghost defs = self@.defs;
        let entries = self.def_func_list.into_entries();
        let ghost orig = entries@;
        let mut rest = reversed(entries);
        let mut out: Vec<(String, DefFuncAST)> = Vec::new();
        while rest.len() > 0
            invariant
                out@.len() <= orig.len(),
                rest@ == orig.subrange(out@.len() as int, orig.len() as int).reverse(),
                names_distinct(orig),
                named_map(orig) == defs,
                defs_free_of_named_ctor(defs),
                forall|i: int| 0 <= i < out@.len() ==> #[trigger] out@[i].0@ == orig[i].0@
                    && def_curried(orig[i].1, out@[i].1),
            decreases rest@.len(),
        {
            let (name, d) = rest.pop().unwrap();
            let ghost k = out@.len() as int;
            proof {
                lemma_named_map_at(orig, k);
            }
            out.push((name, d.currying()));
            assert(rest@ =~= orig.subrange(out@.len() as int, orig.len() as int).reverse());
        }
        let ghost res = out@;
        proof {
            assert forall|a: int, b: int| 0 <= a < res.len() && 0 <= b < res.len() && a != b
                implies res[a].0@ != res[b].0@ by {
                assert(res[a].0@ == orig[a].0@);
                assert(res[b].0@ == orig[b].0@);
            }
            assert forall|q: Seq<char>| #[trigger] named_map(res).contains_key(q)
                == defs.contains_key(q) by {
                if defs.contains_key(q) {
                    let j = choose|j: int| 0 <= j < orig.len() && orig[j].0@ == q;
                    assert(res[j].0@ == q);
                }
                if named_map(res).contains_key(q) {
                    let j = choose|j: int| 0 <= j < res.len() && res[j].0@ == q;
                    assert(orig[j].0@ == q);
                }
            }
            assert(named_map(res).dom() =~= defs.dom());
            assert forall|q: Seq<char>| #[trigger] defs.contains_key(q)
                implies def_curried(defs[q], named_map(res)[q]) by {
                let j = choose|j: int| 0 <= j < orig.len() && orig[j].0@ == q;
                lemma_named_map_at(orig, j);
                lemma_named_map_at(res, j);
                assert(res[j].0@ == q);
            }
        }
        ProgramHir {
            infix_list: self.infix_list,
            dec_func_list: self.dec_func_list,
            def_func_list: NameMap::from_entries(out),
            ex_dec_func_list: self.ex_dec_func_list,
        }
    }
}

impl DefFuncAST {
    /// Leaves the definition with one parameter, the others becoming nested
    /// one-parameter lambdas (see `def_curried`).
    pub fn currying(self) -> (r: DefFuncAST)
        requires
            free_of_named_ctor(self.body),
        ensures
            def_curried(self, r),
    {
        let mut params = self.params;
        if params.len() == 0 {
            let id = "_".to_owned();
            proof {
                reveal_strlit("_");
            }
            assert(id@ =~= discard_name());
            params.push(VariableAST { pos: self.pos, id });
        }
        let ghost ps = params@;
        let first = params.remove(0);
        assert(params@ =~= ps.drop_first());
        let mut env = Vec::new();
        env.push(clone_var(&first));
        assert(env@ =~= seq![ps[0]]);
        let body = self.body.currying(params, env);
        let mut own = Vec::new();
        own.push(first);
        assert(own@ =~= seq![ps[0]]);
        DefFuncAST { pos: self.pos, name: self.name, params: own, body }
    }
}

impl ExprAST {
    /// Curries `self` with the pending parameters `params` and captured
    /// environment `env` (see `curried`).
    fn currying(self, params: Vec<VariableAST>, env: Vec<VariableAST>) -> (r: ExprAST)
        requires
            free_of_named_ctor(self),
        ensures
            curried(self, params@, env@, r),
        decreases self, params@.len(),
    {
        if params.len() > 0 {
            let mut params = params;
            let ghost ps = params@;
            let v = params.remove(0);
            assert(params@ =~= ps.drop_first());
            let mut next_env = clone_vars(&env);
            next_env.push(clone_var(&v));
            assert(next_env@ =~= env@.push(ps[0]));
            let pos = self.get_pos();
            let body = self.currying(params, next_env);
            let mut own = Vec::new();
            own.push(v);
            assert(own@ =~= seq![ps[0]]);
            let lam = LambdaAST { pos, env, params: own, body };
            assert(curried(self, ps.drop_first(), lam.env@.push(ps[0]), lam.body));
            return ExprAST::LambdaAST(Box::new(lam));
        }
        assert(params@ =~= seq![]);
        match self {
            ExprAST::LambdaAST(x) => {
                let x = *x;
                if x.params.len() == 0 {
                    assert(x.params@ =~= seq![]);
                    return x.body.currying(x.params, x.env);
                }
                let mut params = x.params;
                let ghost ps = params@;
                let first = params.remove(0);
                assert(params@ =~= ps.drop_first());
                let mut next_env = clone_vars(&x.env);
                next_env.push(clone_var(&first));
                assert(next_env@ =~= x.env@.push(ps[0]));
                let body = x.body.currying(params, next_env);
                let mut own = Vec::new();
                own.push(first);
                assert(own@ =~= seq![ps[0]]);
                ExprAST::LambdaAST(Box::new(LambdaAST { pos: x.pos, env: x.env, params: own, body }))
            },
            ExprAST::TupleAST(x) => {
                let x = *x;
                let elements = curry_all(x.elements);
                ExprAST::TupleAST(Box::new(TupleAST { pos: x.pos, elements }))
            },
            ExprAST::FuncCallAST(x) => {
                let x = *x;
                let func = x.func.currying(Vec::new(), Vec::new());
                let param = x.param.currying(Vec::new(), Vec::new());
                ExprAST::FuncCallAST(Box::new(FuncCallAST { pos: x.pos, func, param }))
            },
            ExprAST::OpAST(x) => {
                let x = *x;
                let l_expr = x.l_expr.currying(Vec::new(), Vec::new());
                let r_expr = x.r_expr.currying(Vec::new(), Vec::new());
                ExprAST::OpAST(Box::new(OpAST { pos: x.pos, op: x.op, l_expr, r_expr }))
            },
            ExprAST::ParenAST(x) => {
                let x = *x;
                let expr = x.expr.currying(Vec::new(), Vec::new());
                ExprAST::ParenAST(Box::new(ParenAST { pos: x.pos, expr }))
            },
            ExprAST::IfAST(x) => {
                let x = *x;
                let cond = x.cond.currying(Vec::new(), Vec::new());
                let t_expr = x.t_expr.currying(Vec::new(), Vec::new());
                let f_expr = x.f_expr.currying(Vec::new(), Vec::new());
                ExprAST::IfAST(Box::new(IfAST { pos: x.pos, cond, t_expr, f_expr }))
            },
            ExprAST::TupleStructAST(x) => {
                let x = *x;
                let elements = curry_all(x.tuple.elements);
                let tuple = TupleAST { pos: x.tuple.pos, elements };
                ExprAST::TupleStructAST(Box::new(TupleStructAST { pos: x.pos, name: x.name, tuple }))
            },
            ExprAST::IndexPropertyAST(x) => {
                let x = *x;
                let expr = x.expr.currying(Vec::new(), Vec::new());
                ExprAST::IndexPropertyAST(Box::new(IndexPropertyAST { pos: x.pos, expr, index: x.index }))
            },
            ExprAST::NamePropertyAST(x) => {
                let x = *x;
                let expr = x.expr.currying(Vec::new(), Vec::new());
                ExprAST::NamePropertyAST(
                    Box::new(NamePropertyAST { pos: x.pos, expr, property: x.property }),
                )
            },
            ExprAST::NumAST(_) | ExprAST::BoolAST(_) | ExprAST::VariableAST(_) => self,
            // excluded by the precondition
            ExprAST::NamedParamsConstructorCallAST(_) => self,
        }
    }
}

} // verus!
