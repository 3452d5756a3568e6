use vstd::prelude::*;
use crate::ast::{
    same_expr, same_exprs,
    Pos,
    ExprAST, InfixAST, InfixType, OpAST, DefFuncAST, FuncCallAST, LambdaAST, TupleAST, ParenAST,
    IfAST, NamedParamsConstructorCallAST, TupleStructAST, IndexPropertyAST, NamePropertyAST,
};
use crate::error::Error;
use crate::hir::ProgramHir;
use crate::table::{NameMap, names_distinct, named_map, lemma_named_map_at};
use crate::seq_util::reversed;

verus! {

broadcast use {vstd::seq::group_seq_axioms, vstd::std_specs::vec::group_vec_axioms};

/// The number of expression nodes in `e`.
pub open spec fn size(e: ExprAST) -> nat
    decreases e,
{
    match e {
        ExprAST::NumAST(_) | ExprAST::BoolAST(_) | ExprAST::VariableAST(_) => 1,
        ExprAST::OpAST(x) => 1 + size(x.l_expr) + size(x.r_expr),
        ExprAST::FuncCallAST(x) => 1 + size(x.func) + size(x.param),
        ExprAST::LambdaAST(x) => 1 + size(x.body),
        ExprAST::TupleAST(x) => 1 + size_all(x.elements@),
        ExprAST::ParenAST(x) => 1 + size(x.expr),
        ExprAST::IfAST(x) => 1 + size(x.cond) + size(x.t_expr) + size(x.f_expr),
        ExprAST::NamedParamsConstructorCallAST(x) => 1 + size_named(x.params@),
        ExprAST::TupleStructAST(x) => 1 + size_all(x.tuple.elements@),
        ExprAST::IndexPropertyAST(x) => 1 + size(x.expr),
        ExprAST::NamePropertyAST(x) => 1 + size(x.expr),
    }
}

pub open spec fn size_all(es: Seq<ExprAST>) -> nat
    decreases es,
{
    if es.len() == 0 {
        0
    } else {
        size_all(es.drop_last()) + size(es.last())
    }
}

pub open spec fn size_named(ps: Seq<(String, ExprAST)>) -> nat
    decreases ps,
{
    if ps.len() == 0 {
        0
    } else {
        size_named(ps.drop_last()) + size(ps.last().1)
    }
}

/// The operators of `e`, symbol and position, read left to right.
pub open spec fn ops(e: ExprAST) -> Seq<(Seq<char>, Pos)>
    decreases e,
{
    match e {
        ExprAST::NumAST(_) | ExprAST::BoolAST(_) | ExprAST::VariableAST(_) => seq![],
        ExprAST::OpAST(x) => ops(x.l_expr) + seq![(x.op@, x.pos)] + ops(x.r_expr),
        ExprAST::FuncCallAST(x) => ops(x.func) + ops(x.param),
        ExprAST::LambdaAST(x) => ops(x.body),
        ExprAST::TupleAST(x) => ops_all(x.elements@),
        ExprAST::ParenAST(x) => ops(x.expr),
        ExprAST::IfAST(x) => ops(x.cond) + ops(x.t_expr) + ops(x.f_expr),
        ExprAST::NamedParamsConstructorCallAST(x) => ops_named(x.params@),
        ExprAST::TupleStructAST(x) => ops_all(x.tuple.elements@),
        ExprAST::IndexPropertyAST(x) => ops(x.expr),
        ExprAST::NamePropertyAST(x) => ops(x.expr),
    }
}

pub open spec fn ops_all(es: Seq<ExprAST>) -> Seq<(Seq<char>, Pos)>
    decreases es,
{
    if es.len() == 0 {
        seq![]
    } else {
        ops_all(es.drop_last()) + ops(es.last())
    }
}

pub open spec fn ops_named(ps: Seq<(String, ExprAST)>) -> Seq<(Seq<char>, Pos)>
    decreases ps,
{
    if ps.len() == 0 {
        seq![]
    } else {
        ops_named(ps.drop_last()) + ops(ps.last().1)
    }
}

/// Whether every symbol of `os` has an entry in the infix table.
pub open spec fn all_declared(os: Seq<(Seq<char>, Pos)>, table: Map<Seq<char>, InfixAST>) -> bool {
    forall|i: int| 0 <= i < os.len() ==> table.contains_key(#[trigger] os[i].0)
}

/// Whether some operator of `os` at position `p` has no entry in the table.
pub open spec fn undeclared_at(os: Seq<(Seq<char>, Pos)>, table: Map<Seq<char>, InfixAST>, p: Pos) -> bool {
    exists|i: int| 0 <= i < os.len() && #[trigger] os[i].1 == p && !table.contains_key(os[i].0)
}

pub broadcast proof fn lemma_undeclared_concat(
    a: Seq<(Seq<char>, Pos)>,
    b: Seq<(Seq<char>, Pos)>,
    table: Map<Seq<char>, InfixAST>,
    p: Pos,
)
    ensures
        #[trigger] undeclared_at(a + b, table, p) == (undeclared_at(a, table, p) || undeclared_at(b, table, p)),
{
    if undeclared_at(a, table, p) {
        let i = choose|i: int| 0 <= i < a.len() && #[trigger] a[i].1 == p && !table.contains_key(a[i].0);
        assert((a + b)[i] == a[i]);
    }
    if undeclared_at(b, table, p) {
        let i = choose|i: int| 0 <= i < b.len() && #[trigger] b[i].1 == p && !table.contains_key(b[i].0);
        assert((a + b)[i + a.len()] == b[i]);
    }
    if undeclared_at(a + b, table, p) {
        let i = choose|i: int| 0 <= i < (a + b).len() && #[trigger] (a + b)[i].1 == p && !table.contains_key((a + b)[i].0);
        if i < a.len() {
            assert((a + b)[i] == a[i]);
        } else {
            assert((a + b)[i] == b[i - a.len()]);
        }
    }
}

/// Whether an operator with entry `parent`, whose left operand is an operator
/// with entry `child`, binds tighter than it: by a greater priority, or, on
/// equal priorities and a shared right associativity.
pub open spec fn binds_tighter(parent: InfixAST, child: InfixAST) -> bool {
    parent.priority > child.priority || (parent.priority == child.priority && parent.ty == child.ty
        && parent.ty == InfixType::Right)
}

pub broadcast proof fn lemma_declared_concat(
    a: Seq<(Seq<char>, Pos)>,
    b: Seq<(Seq<char>, Pos)>,
    table: Map<Seq<char>, InfixAST>,
)
    ensures
        #[trigger] all_declared(a + b, table) == (all_declared(a, table) && all_declared(b, table)),
{
    if all_declared(a, table) && all_declared(b, table) {
        assert forall|i: int| 0 <= i < (a + b).len() implies table.contains_key(#[trigger] (a + b)[i].0) by {
            if i >= a.len() {
                assert((a + b)[i] == b[i - a.len()]);
            }
        }
    }
    if all_declared(a + b, table) {
        assert forall|i: int| 0 <= i < a.len() implies table.contains_key(#[trigger] a[i].0) by {
            assert((a + b)[i] == a[i]);
        }
        assert forall|i: int| 0 <= i < b.len() implies table.contains_key(#[trigger] b[i].0) by {
            assert((a + b)[i + a.len()] == b[i]);
        }
    }
}

proof fn lemma_size_all_elem(es: Seq<ExprAST>, i: int)
    requires
        0 <= i < es.len(),
    ensures
        size(es[i]) <= size_all(es),
    decreases es.len(),
{
    if i < es.len() - 1 {
        lemma_size_all_elem(es.drop_last(), i);
    }
}

proof fn lemma_size_named_elem(ps: Seq<(String, ExprAST)>, i: int)
    requires
        0 <= i < ps.len(),
    ensures
        size(ps[i].1) <= size_named(ps),
    decreases ps.len(),
{
    if i < ps.len() - 1 {
        lemma_size_named_elem(ps.drop_last(), i);
    }
}

proof fn lemma_ops_all_declared(es: Seq<ExprAST>, table: Map<Seq<char>, InfixAST>)
    ensures
        all_declared(ops_all(es), table) == forall|i: int|
            0 <= i < es.len() ==> all_declared(ops(#[trigger] es[i]), table),
    decreases es.len(),
{
    broadcast use lemma_declared_concat;
    if es.len() > 0 {
        lemma_ops_all_declared(es.drop_last(), table);
        assert(ops_all(es) == ops_all(es.drop_last()) + ops(es.last()));
        if !all_declared(ops_all(es), table) {
            if !all_declared(ops_all(es.drop_last()), table) {
                let i = choose|i: int|
                    0 <= i < es.len() - 1 && !all_declared(ops(#[trigger] es.drop_last()[i]), table);
                assert(es[i] == es.drop_last()[i]);
            }
        } else {
            assert forall|i: int| 0 <= i < es.len() implies all_declared(ops(#[trigger] es[i]), table) by {
                if i < es.len() - 1 {
                    assert(es[i] == es.drop_last()[i]);
                }
            }
        }
    }
}

proof fn lemma_ops_named_declared(ps: Seq<(String, ExprAST)>, table: Map<Seq<char>, InfixAST>)
    ensures
        all_declared(ops_named(ps), table) == forall|i: int|
            0 <= i < ps.len() ==> all_declared(ops(#[trigger] ps[i].1), table),
    decreases ps.len(),
{
    broadcast use lemma_declared_concat;
    if ps.len() > 0 {
        lemma_ops_named_declared(ps.drop_last(), table);
        assert(ops_named(ps) == ops_named(ps.drop_last()) + ops(ps.last().1));
        if !all_declared(ops_named(ps), table) {
            if !all_declared(ops_named(ps.drop_last()), table) {
                let i = choose|i: int|
                    0 <= i < ps.len() - 1 && !all_declared(ops(#[trigger] ps.drop_last()[i].1), table);
                assert(ps[i] == ps.drop_last()[i]);
            }
        } else {
            assert forall|i: int| 0 <= i < ps.len() implies all_declared(ops(#[trigger] ps[i].1), table) by {
                if i < ps.len() - 1 {
                    assert(ps[i] == ps.drop_last()[i]);
                }
            }
        }
    }
}

/// Whether, along every chain of operator nodes in `e`, no operator binds
/// tighter than the operator that is its left operand: what re-association
/// establishes.
pub open spec fn left_assoc_ok(e: ExprAST, table: Map<Seq<char>, InfixAST>) -> bool
    decreases e,
{
    match e {
        ExprAST::OpAST(x) => {
            &&& left_assoc_ok(x.l_expr, table)
            &&& left_assoc_ok(x.r_expr, table)
            &&& x.l_expr is OpAST ==> !binds_tighter(table[x.op@], table[x.l_expr->OpAST_0.op@])
        },
        _ => true,
    }
}

/// `out` is what resolving `e` by `table` gives, when every operator of `e`
/// is declared. An operator node resolves its left operand first; if that is
/// an operator that the node binds tighter than, the tree rotates: the
/// operand's right operand becomes the node's left one, the node is resolved
/// anew and becomes the operand's right operand. Otherwise the node keeps the
/// resolved left operand and resolves its right one. Any other node keeps its
/// kind and fields, each child resolved on its own; parentheses stay.
pub open spec fn res_ok(e: ExprAST, table: Map<Seq<char>, InfixAST>, out: ExprAST) -> bool
    decreases size(e), 1nat,
{
    match e {
        ExprAST::OpAST(x) => match out {
            ExprAST::OpAST(y) => {
                ||| {
                    &&& y.pos == x.pos
                    &&& y.op == x.op
                    &&& res_ok(x.l_expr, table, y.l_expr)
                    &&& !(y.l_expr is OpAST && binds_tighter(table[x.op@], table[y.l_expr->OpAST_0.op@]))
                    &&& res_ok(x.r_expr, table, y.r_expr)
                }
                ||| {
                    &&& binds_tighter(table[x.op@], table[y.op@])
                    &&& exists|lr: ExprAST|
                        #![trigger size(lr)]
                        size(lr) < size(x.l_expr) && res_ok(
                            x.l_expr,
                            table,
                            ExprAST::OpAST(Box::new(OpAST { pos: y.pos, op: y.op, l_expr: y.l_expr, r_expr: lr })),
                        ) && res_ok(
                            ExprAST::OpAST(Box::new(OpAST { pos: x.pos, op: x.op, l_expr: lr, r_expr: x.r_expr })),
                            table,
                            y.r_expr,
                        )
                }
            },
            _ => false,
        },
        ExprAST::ParenAST(x) => match out {
            ExprAST::ParenAST(y) => y.pos == x.pos && res_ok(x.expr, table, y.expr),
            _ => false,
        },
        ExprAST::FuncCallAST(x) => match out {
            ExprAST::FuncCallAST(y) => y.pos == x.pos && res_ok(x.func, table, y.func) && res_ok(
                x.param,
                table,
                y.param,
            ),
            _ => false,
        },
        ExprAST::LambdaAST(x) => match out {
            ExprAST::LambdaAST(y) => y.pos == x.pos && y.env == x.env && y.params == x.params && res_ok(
                x.body,
                table,
                y.body,
            ),
            _ => false,
        },
        ExprAST::TupleAST(x) => match out {
            ExprAST::TupleAST(y) => y.pos == x.pos && res_ok_all(x.elements@, table, y.elements@),
            _ => false,
        },
        ExprAST::IfAST(x) => match out {
            ExprAST::IfAST(y) => y.pos == x.pos && res_ok(x.cond, table, y.cond) && res_ok(
                x.t_expr,
                table,
                y.t_expr,
            ) && res_ok(x.f_expr, table, y.f_expr),
            _ => false,
        },
        ExprAST::NamedParamsConstructorCallAST(x) => match out {
            ExprAST::NamedParamsConstructorCallAST(y) => y.pos == x.pos && y.name == x.name
                && res_ok_named(x.params@, table, y.params@),
            _ => false,
        },
        ExprAST::TupleStructAST(x) => match out {
            ExprAST::TupleStructAST(y) => y.pos == x.pos && y.name == x.name && y.tuple.pos == x.tuple.pos
                && res_ok_all(x.tuple.elements@, table, y.tuple.elements@),
            _ => false,
        },
        ExprAST::IndexPropertyAST(x) => match out {
            ExprAST::IndexPropertyAST(y) => y.pos == x.pos && y.index == x.index && res_ok(
                x.expr,
                table,
                y.expr,
            ),
            _ => false,
        },
        ExprAST::NamePropertyAST(x) => match out {
            ExprAST::NamePropertyAST(y) => y.pos == x.pos && y.property == x.property && res_ok(
                x.expr,
                table,
                y.expr,
            ),
            _ => false,
        },
        ExprAST::NumAST(_) | ExprAST::BoolAST(_) | ExprAST::VariableAST(_) => out == e,
    }
}

/// Element-wise `res_ok`.
pub open spec fn res_ok_all(es: Seq<ExprAST>, table: Map<Seq<char>, InfixAST>, outs: Seq<ExprAST>) -> bool
    decreases size_all(es), es.len() + 2,
{
    &&& outs.len() == es.len()
    &&& es.len() > 0 ==> res_ok_all(es.drop_last(), table, outs.drop_last()) && res_ok(
        es.last(),
        table,
        outs.last(),
    )
}

/// Field-wise `res_ok`: the names kept, each argument resolved.
pub open spec fn res_ok_named(
    ps: Seq<(String, ExprAST)>,
    table: Map<Seq<char>, InfixAST>,
    outs: Seq<(String, ExprAST)>,
) -> bool
    decreases size_named(ps), ps.len() + 2,
{
    &&& outs.len() == ps.len()
    &&& ps.len() > 0 ==> outs.last().0 == ps.last().0 && res_ok_named(ps.drop_last(), table, outs.drop_last())
        && res_ok(ps.last().1, table, outs.last().1)
}

/// Resolution has one result: resolving the same tree twice (or two copies
/// of one tree) gives the same tree.
pub proof fn lemma_res_ok_unique(e1: ExprAST, e2: ExprAST, table: Map<Seq<char>, InfixAST>, o1: ExprAST, o2: ExprAST)
    requires
        same_expr(e1, e2),
        res_ok(e1, table, o1),
        res_ok(e2, table, o2),
    ensures
        same_expr(o1, o2),
    decreases size(e1), 1nat,
{
    match e1 {
        ExprAST::OpAST(x1) => {
            let x2 = e2->OpAST_0;
            let y1 = o1->OpAST_0;
            let y2 = o2->OpAST_0;
            let first1 = res_ok(x1.l_expr, table, y1.l_expr) && !(y1.l_expr is OpAST && binds_tighter(
                table[x1.op@],
                table[y1.l_expr->OpAST_0.op@],
            )) && y1.pos == x1.pos && y1.op == x1.op && res_ok(x1.r_expr, table, y1.r_expr);
            let first2 = res_ok(x2.l_expr, table, y2.l_expr) && !(y2.l_expr is OpAST && binds_tighter(
                table[x2.op@],
                table[y2.l_expr->OpAST_0.op@],
            )) && y2.pos == x2.pos && y2.op == x2.op && res_ok(x2.r_expr, table, y2.r_expr);
            if first1 && first2 {
                lemma_res_ok_unique(x1.l_expr, x2.l_expr, table, y1.l_expr, y2.l_expr);
                lemma_res_ok_unique(x1.r_expr, x2.r_expr, table, y1.r_expr, y2.r_expr);
            } else if first1 {
                let lr2 = choose|lr: ExprAST|
                    #![trigger size(lr)]
                    size(lr) < size(x2.l_expr) && res_ok(
                        x2.l_expr,
                        table,
                        ExprAST::OpAST(Box::new(OpAST { pos: y2.pos, op: y2.op, l_expr: y2.l_expr, r_expr: lr })),
                    ) && res_ok(
                        ExprAST::OpAST(Box::new(OpAST { pos: x2.pos, op: x2.op, l_expr: lr, r_expr: x2.r_expr })),
                        table,
                        y2.r_expr,
                    );
                lemma_res_ok_unique(
                    x1.l_expr,
                    x2.l_expr,
                    table,
                    y1.l_expr,
                    ExprAST::OpAST(Box::new(OpAST { pos: y2.pos, op: y2.op, l_expr: y2.l_expr, r_expr: lr2 })),
                );
            } else if first2 {
                let lr1 = choose|lr: ExprAST|
                    #![trigger size(lr)]
                    size(lr) < size(x1.l_expr) && res_ok(
                        x1.l_expr,
                        table,
                        ExprAST::OpAST(Box::new(OpAST { pos: y1.pos, op: y1.op, l_expr: y1.l_expr, r_expr: lr })),
                    ) && res_ok(
                        ExprAST::OpAST(Box::new(OpAST { pos: x1.pos, op: x1.op, l_expr: lr, r_expr: x1.r_expr })),
                        table,
                        y1.r_expr,
                    );
                lemma_res_ok_unique(
                    x1.l_expr,
                    x2.l_expr,
                    table,
                    ExprAST::OpAST(Box::new(OpAST { pos: y1.pos, op: y1.op, l_expr: y1.l_expr, r_expr: lr1 })),
                    y2.l_expr,
                );
            } else {
                let lr1 = choose|lr: ExprAST|
                    #![trigger size(lr)]
                    size(lr) < size(x1.l_expr) && res_ok(
                        x1.l_expr,
                        table,
                        ExprAST::OpAST(Box::new(OpAST { pos: y1.pos, op: y1.op, l_expr: y1.l_expr, r_expr: lr })),
                    ) && res_ok(
                        ExprAST::OpAST(Box::new(OpAST { pos: x1.pos, op: x1.op, l_expr: lr, r_expr: x1.r_expr })),
                        table,
                        y1.r_expr,
                    );
                let lr2 = choose|lr: ExprAST|
                    #![trigger size(lr)]
                    size(lr) < size(x2.l_expr) && res_ok(
                        x2.l_expr,
                        table,
                        ExprAST::OpAST(Box::new(OpAST { pos: y2.pos, op: y2.op, l_expr: y2.l_expr, r_expr: lr })),
                    ) && res_ok(
                        ExprAST::OpAST(Box::new(OpAST { pos: x2.pos, op: x2.op, l_expr: lr, r_expr: x2.r_expr })),
                        table,
                        y2.r_expr,
                    );
                let c1 = ExprAST::OpAST(Box::new(OpAST { pos: y1.pos, op: y1.op, l_expr: y1.l_expr, r_expr: lr1 }));
                let c2 = ExprAST::OpAST(Box::new(OpAST { pos: y2.pos, op: y2.op, l_expr: y2.l_expr, r_expr: lr2 }));
                lemma_res_ok_unique(x1.l_expr, x2.l_expr, table, c1, c2);
                let i1 = ExprAST::OpAST(Box::new(OpAST { pos: x1.pos, op: x1.op, l_expr: lr1, r_expr: x1.r_expr }));
                let i2 = ExprAST::OpAST(Box::new(OpAST { pos: x2.pos, op: x2.op, l_expr: lr2, r_expr: x2.r_expr }));
                assert(same_expr(i1, i2));
                lemma_res_ok_unique(i1, i2, table, y1.r_expr, y2.r_expr);
            }
        },
        ExprAST::ParenAST(x) => lemma_res_ok_unique(x.expr, e2->ParenAST_0.expr, table, o1->ParenAST_0.expr, o2->ParenAST_0.expr),
        ExprAST::FuncCallAST(x) => {
            lemma_res_ok_unique(x.func, e2->FuncCallAST_0.func, table, o1->FuncCallAST_0.func, o2->FuncCallAST_0.func);
            lemma_res_ok_unique(x.param, e2->FuncCallAST_0.param, table, o1->FuncCallAST_0.param, o2->FuncCallAST_0.param);
        },
        ExprAST::LambdaAST(x) => lemma_res_ok_unique(x.body, e2->LambdaAST_0.body, table, o1->LambdaAST_0.body, o2->LambdaAST_0.body),
        ExprAST::TupleAST(x) => lemma_res_ok_all_unique(
            x.elements@,
            e2->TupleAST_0.elements@,
            table,
            o1->TupleAST_0.elements@,
            o2->TupleAST_0.elements@,
        ),
        ExprAST::IfAST(x) => {
            lemma_res_ok_unique(x.cond, e2->IfAST_0.cond, table, o1->IfAST_0.cond, o2->IfAST_0.cond);
            lemma_res_ok_unique(x.t_expr, e2->IfAST_0.t_expr, table, o1->IfAST_0.t_expr, o2->IfAST_0.t_expr);
            lemma_res_ok_unique(x.f_expr, e2->IfAST_0.f_expr, table, o1->IfAST_0.f_expr, o2->IfAST_0.f_expr);
        },
        ExprAST::NamedParamsConstructorCallAST(x) => lemma_res_ok_named_unique(
            x.params@,
            e2->NamedParamsConstructorCallAST_0.params@,
            table,
            o1->NamedParamsConstructorCallAST_0.params@,
            o2->NamedParamsConstructorCallAST_0.params@,
        ),
        ExprAST::TupleStructAST(x) => lemma_res_ok_all_unique(
            x.tuple.elements@,
            e2->TupleStructAST_0.tuple.elements@,
            table,
            o1->TupleStructAST_0.tuple.elements@,
            o2->TupleStructAST_0.tuple.elements@,
        ),
        ExprAST::IndexPropertyAST(x) => lemma_res_ok_unique(x.expr, e2->IndexPropertyAST_0.expr, table, o1->IndexPropertyAST_0.expr, o2->IndexPropertyAST_0.expr),
        ExprAST::NamePropertyAST(x) => lemma_res_ok_unique(x.expr, e2->NamePropertyAST_0.expr, table, o1->NamePropertyAST_0.expr, o2->NamePropertyAST_0.expr),
        _ => {},
    }
}

proof fn lemma_res_ok_all_unique(
    es1: Seq<ExprAST>,
    es2: Seq<ExprAST>,
    table: Map<Seq<char>, InfixAST>,
    os1: Seq<ExprAST>,
    os2: Seq<ExprAST>,
)
    requires
        same_exprs(es1, es2),
        res_ok_all(es1, table, os1),
        res_ok_all(es2, table, os2),
    ensures
        same_exprs(os1, os2),
    decreases size_all(es1), es1.len() + 2,
{
    if es1.len() > 0 {
        let n = es1.len() - 1;
        assert(same_exprs(es1.drop_last(), es2.drop_last())) by {
            assert forall|i: int| 0 <= i < n implies same_expr(#[trigger] es1.drop_last()[i], es2.drop_last()[i]) by {
                assert(same_expr(es1[i], es2[i]));
            }
        }
        lemma_res_ok_all_unique(es1.drop_last(), es2.drop_last(), table, os1.drop_last(), os2.drop_last());
        assert(same_expr(es1[n], es2[n]));
        lemma_res_ok_unique(es1.last(), es2.last(), table, os1.last(), os2.last());
        assert forall|i: int| 0 <= i < os1.len() implies same_expr(#[trigger] os1[i], os2[i]) by {
            if i < n {
                assert(same_expr(os1.drop_last()[i], os2.drop_last()[i]));
            }
        }
    }
}

proof fn lemma_res_ok_named_unique(
    ps1: Seq<(String, ExprAST)>,
    ps2: Seq<(String, ExprAST)>,
    table: Map<Seq<char>, InfixAST>,
    os1: Seq<(String, ExprAST)>,
    os2: Seq<(String, ExprAST)>,
)
    requires
        ps1.len() == ps2.len(),
        forall|i: int| #![trigger ps1[i]] 0 <= i < ps1.len() ==> ps1[i].0 == ps2[i].0 && same_expr(ps1[i].1, ps2[i].1),
        res_ok_named(ps1, table, os1),
        res_ok_named(ps2, table, os2),
    ensures
        os1.len() == os2.len(),
        forall|i: int| #![trigger os1[i]] 0 <= i < os1.len() ==> os1[i].0 == os2[i].0 && same_expr(os1[i].1, os2[i].1),
    decreases size_named(ps1), ps1.len() + 2,
{
    if ps1.len() > 0 {
        let n = ps1.len() - 1;
        assert forall|i: int| #![trigger ps1.drop_last()[i]] 0 <= i < n implies ps1.drop_last()[i].0 == ps2.drop_last()[i].0
            && same_expr(ps1.drop_last()[i].1, ps2.drop_last()[i].1) by {
            assert(ps1[i].0 == ps2[i].0 && same_expr(ps1[i].1, ps2[i].1));
        }
        lemma_res_ok_named_unique(ps1.drop_last(), ps2.drop_last(), table, os1.drop_last(), os2.drop_last());
        assert(ps1[n].0 == ps2[n].0 && same_expr(ps1[n].1, ps2[n].1));
        lemma_res_ok_unique(ps1.last().1, ps2.last().1, table, os1.last().1, os2.last().1);
        assert forall|i: int| #![trigger os1[i]] 0 <= i < os1.len() implies os1[i].0 == os2[i].0 && same_expr(os1[i].1, os2[i].1) by {
            if i < n {
                assert(os1.drop_last()[i] == os1[i] && os2.drop_last()[i] == os2[i]);
            }
        }
    }
}

proof fn lemma_undeclared_in_elem(es: Seq<ExprAST>, k: int, table: Map<Seq<char>, InfixAST>, p: Pos)
    requires
        0 <= k < es.len(),
        undeclared_at(ops(es[k]), table, p),
    ensures
        undeclared_at(ops_all(es), table, p),
    decreases es.len(),
{
    broadcast use lemma_undeclared_concat;
    assert(ops_all(es) == ops_all(es.drop_last()) + ops(es.last()));
    if k < es.len() - 1 {
        assert(es.drop_last()[k] == es[k]);
        lemma_undeclared_in_elem(es.drop_last(), k, table, p);
    }
}

proof fn lemma_undeclared_in_named(ps: Seq<(String, ExprAST)>, k: int, table: Map<Seq<char>, InfixAST>, p: Pos)
    requires
        0 <= k < ps.len(),
        undeclared_at(ops(ps[k].1), table, p),
    ensures
        undeclared_at(ops_named(ps), table, p),
    decreases ps.len(),
{
    broadcast use lemma_undeclared_concat;
    assert(ops_named(ps) == ops_named(ps.drop_last()) + ops(ps.last().1));
    if k < ps.len() - 1 {
        assert(ps.drop_last()[k] == ps[k]);
        lemma_undeclared_in_named(ps.drop_last(), k, table, p);
    }
}

enum Resolved {
    OtherExprAST(ExprAST),
    OpAST(OpAST, InfixAST),
}

impl Resolved {
    spec fn expr(self) -> ExprAST {
        match self {
            Resolved::OpAST(x, _) => ExprAST::OpAST(Box::new(x)),
            Resolved::OtherExprAST(x) => x,
        }
    }

    /// An operator result carries its operator's infix entry; any other
    /// result is not an operator.
    spec fn well_tagged(self, table: Map<Seq<char>, InfixAST>) -> bool {
        match self {
            Resolved::OpAST(x, inf) => table.contains_key(x.op@) && table[x.op@] == inf,
            Resolved::OtherExprAST(x) => !(x is OpAST),
        }
    }

    fn get_expr_ast(self) -> (r: ExprAST)
        ensures
            r == self.expr(),
    {
        match self {
            Resolved::OpAST(x, _) => ExprAST::OpAST(Box::new(x)),
            Resolved::OtherExprAST(x) => x,
        }
    }
}

/// The contract every resolution step meets: success exactly when every
/// operator is declared; an undeclared operator as the only failure; on
/// success the same number of nodes and the same operators in the same order.
spec fn resolves(e: ExprAST, table: Map<Seq<char>, InfixAST>, r: Result<Resolved, Error>) -> bool {
    &&& r is Ok <==> all_declared(ops(e), table)
    &&& match r {
        Ok(x) => size(x.expr()) == size(e) && ops(x.expr()) == ops(e) && x.well_tagged(table)
            && left_assoc_ok(x.expr(), table) && res_ok(e, table, x.expr()),
        Err(err) => err is UndeclaredOperator && undeclared_at(ops(e), table, err->UndeclaredOperator_0),
    }
}

/// Resolves each expression of `es` on its own, in order.
fn resolve_all(es: Vec<ExprAST>, table: &NameMap<InfixAST>) -> (r: Result<Vec<ExprAST>, Error>)
    ensures
        r is Ok <==> all_declared(ops_all(es@), table@),
        match r {
            Ok(v) => size_all(v@) == size_all(es@) && ops_all(v@) == ops_all(es@) && res_ok_all(es@, table@, v@),
            Err(err) => err is UndeclaredOperator && undeclared_at(ops_all(es@), table@, err->UndeclaredOperator_0),
        },
    decreases size_all(es@), 2nat,
{
    let ghost orig = es@;
    proof {
        lemma_ops_all_declared(orig, table@);
    }
    let mut rest = reversed(es);
    let mut out: Vec<ExprAST> = Vec::new();
    while rest.len() > 0
        invariant
            out@.len() <= orig.len(),
            orig == es@,
            rest@ == orig.subrange(out@.len() as int, orig.len() as int).reverse(),
            size_all(out@) == size_all(orig.take(out@.len() as int)),
            ops_all(out@) == ops_all(orig.take(out@.len() as int)),
            res_ok_all(orig.take(out@.len() as int), table@, out@),
            forall|i: int| 0 <= i < out@.len() ==> all_declared(ops(#[trigger] orig[i]), table@),
            all_declared(ops_all(orig), table@) == forall|i: int|
                0 <= i < orig.len() ==> all_declared(ops(#[trigger] orig[i]), table@),
        decreases rest@.len(),
    {
        let e = rest.pop().unwrap();
        let ghost k = out@.len() as int;
        assert(e == orig[k]);
        proof {
            lemma_size_all_elem(orig, k);
        }
        let x = match e.resolve_op(table) {
            Ok(x) => x,
            Err(err) => {
                proof {
                    lemma_undeclared_in_elem(orig, k, table@, err->UndeclaredOperator_0);
                }
                return Err(err);
            },
        };
        let ghost before = out@;
        out.push(x.get_expr_ast());
        assert(out@.drop_last() =~= before);
        assert(orig.take(k + 1).drop_last() =~= orig.take(k));
        assert(orig.take(k + 1).last() == orig[k]);
        assert(rest@ =~= orig.subrange(out@.len() as int, orig.len() as int).reverse());
    }
    assert(orig.take(orig.len() as int) =~= orig);
    Ok(out)
}

/// Resolves the argument of each named field on its own, in order.
fn resolve_named(
    ps: Vec<(String, ExprAST)>,
    table: &NameMap<InfixAST>,
) -> (r: Result<Vec<(String, ExprAST)>, Error>)
    ensures
        r is Ok <==> all_declared(ops_named(ps@), table@),
        match r {
            Ok(v) => size_named(v@) == size_named(ps@) && ops_named(v@) == ops_named(ps@) && res_ok_named(ps@, table@, v@),
            Err(err) => err is UndeclaredOperator && undeclared_at(ops_named(ps@), table@, err->UndeclaredOperator_0),
        },
    decreases size_named(ps@), 2nat,
{
    let ghost orig = ps@;
    proof {
        lemma_ops_named_declared(orig, table@);
    }
    let mut rest = reversed(ps);
    let mut out: Vec<(String, ExprAST)> = Vec::new();
    while rest.len() > 0
        invariant
            out@.len() <= orig.len(),
            orig == ps@,
            rest@ == orig.subrange(out@.len() as int, orig.len() as int).reverse(),
            size_named(out@) == size_named(orig.take(out@.len() as int)),
            ops_named(out@) == ops_named(orig.take(out@.len() as int)),
            res_ok_named(orig.take(out@.len() as int), table@, out@),
            forall|i: int| 0 <= i < out@.len() ==> all_declared(ops(#[trigger] orig[i].1), table@),
            all_declared(ops_named(orig), table@) == forall|i: int|
                0 <= i < orig.len() ==> all_declared(ops(#[trigger] orig[i].1), table@),
        decreases rest@.len(),
    {
        let (name, e) = rest.pop().unwrap();
        let ghost k = out@.len() as int;
        assert(e == orig[k].1);
        proof {
            lemma_size_named_elem(orig, k);
        }
        let x = match e.resolve_op(table) {
            Ok(x) => x,
            Err(err) => {
                proof {
                    lemma_undeclared_in_named(orig, k, table@, err->UndeclaredOperator_0);
                }
                return Err(err);
            },
        };
        let ghost before = out@;
        out.push((name, x.get_expr_ast()));
        assert(out@.drop_last() =~= before);
        assert(orig.take(k + 1).drop_last() =~= orig.take(k));
        assert(orig.take(k + 1).last() == orig[k]);
        assert(rest@ =~= orig.subrange(out@.len() as int, orig.len() as int).reverse());
    }
    assert(orig.take(orig.len() as int) =~= orig);
    Ok(out)
}

impl OpAST {
    /// Resolves an operator node: its left operand first; where that is an
    /// operator that the node binds tighter than, the tree is rotated so that
    /// the node takes the child's right operand and becomes the child's right
    /// operand; otherwise both operands are resolved in place.
    fn swap_op(self, table: &NameMap<InfixAST>) -> (r: Result<Resolved, Error>)
        ensures
            resolves(ExprAST::OpAST(Box::new(self)), table@, r),
            r is Ok ==> r->Ok_0 is OpAST,
            !table@.contains_key(self.op@) ==> (r is Err && r->Err_0 == Error::UndeclaredOperator(self.pos)),
        decreases size(ExprAST::OpAST(Box::new(self))), 0nat,
    {
        broadcast use lemma_declared_concat, lemma_undeclared_concat;
        let ghost whole = ExprAST::OpAST(Box::new(self));
        let ghost l_ops = ops(self.l_expr);
        assert(ops(whole)[l_ops.len() as int] == (self.op@, self.pos));
        assert(ops(whole)[l_ops.len() as int].0 == self.op@);
        let self_infix = match table.get(&self.op) {
            None => {
                proof {
                    let i = l_ops.len() as int;
                    assert(ops(whole)[i].1 == self.pos && !table@.contains_key(ops(whole)[i].0));
                    assert(undeclared_at(ops(whole), table@, self.pos));
                    assert(!all_declared(ops(whole), table@));
                }
                return Err(Error::UndeclaredOperator(self.pos));
            },
            Some(x) => x.clone_infix(),
        };
        let OpAST { pos, op, l_expr, r_expr } = self;
        let left = match l_expr.resolve_op(table) {
            Ok(x) => x,
            Err(err) => return Err(err),
        };
        match left {
            Resolved::OpAST(child, child_infix) => {
                if self_infix.is_priority_greater(&child_infix) {
                    let ghost child_e = ExprAST::OpAST(Box::new(child));
                    let OpAST { pos: c_pos, op: c_op, l_expr: c_l, r_expr: c_r } = child;
                    let ghost lr = c_r;
                    let ghost c_r_ops = ops(c_r);
                    let inner = OpAST { pos, op, l_expr: c_r, r_expr };
                    assert(ops(ExprAST::OpAST(Box::new(inner))) =~= c_r_ops + seq![(op@, pos)] + ops(r_expr));
                    assert(ops(whole) =~= ops(c_l) + seq![(c_op@, c_pos)] + (c_r_ops + seq![(op@, pos)] + ops(r_expr)));
                    let right = match ExprAST::OpAST(Box::new(inner)).resolve_op(table) {
                        Ok(x) => x,
                        Err(err) => return Err(err),
                    };
                    let r_expr = right.get_expr_ast();
                    let res = OpAST { pos: c_pos, op: c_op, l_expr: c_l, r_expr };
                    assert(ops(ExprAST::OpAST(Box::new(res))) =~= ops(whole));
                    proof {
                        let y = res;
                        assert(child_e == ExprAST::OpAST(Box::new(OpAST { pos: y.pos, op: y.op, l_expr: y.l_expr, r_expr: lr })));
                        assert(size(lr) < size(self.l_expr));
                        assert(res_ok(self.l_expr, table@, child_e));
                        assert(binds_tighter(table@[self.op@], table@[y.op@]));
                        assert(res_ok(
                            ExprAST::OpAST(Box::new(OpAST { pos: self.pos, op: self.op, l_expr: lr, r_expr: self.r_expr })),
                            table@,
                            y.r_expr,
                        ));
                        let x = self;
                        assert(exists|q: ExprAST|
                            size(q) < size(x.l_expr) && res_ok(
                                x.l_expr,
                                table@,
                                ExprAST::OpAST(Box::new(OpAST { pos: y.pos, op: y.op, l_expr: y.l_expr, r_expr: q })),
                            ) && res_ok(
                                ExprAST::OpAST(Box::new(OpAST { pos: x.pos, op: x.op, l_expr: q, r_expr: x.r_expr })),
                                table@,
                                y.r_expr,
                            ));
                        assert(res_ok(whole, table@, ExprAST::OpAST(Box::new(y))));
                    }
                    Ok(Resolved::OpAST(res, child_infix))
                } else {
                    let right = match r_expr.resolve_op(table) {
                        Ok(x) => x,
                        Err(err) => return Err(err),
                    };
                    let res = OpAST {
                        pos,
                        op,
                        l_expr: ExprAST::OpAST(Box::new(child)),
                        r_expr: right.get_expr_ast(),
                    };
                    assert(ops(ExprAST::OpAST(Box::new(res))) =~= ops(whole));
                    Ok(Resolved::OpAST(res, self_infix))
                }
            },
            other => {
                let l_expr = other.get_expr_ast();
                let right = match r_expr.resolve_op(table) {
                    Ok(x) => x,
                    Err(err) => return Err(err),
                };
                let res = OpAST { pos, op, l_expr, r_expr: right.get_expr_ast() };
                assert(ops(ExprAST::OpAST(Box::new(res))) =~= ops(whole));
                Ok(Resolved::OpAST(res, self_infix))
            },
        }
    }
}

impl ExprAST {
    /// Re-associates every operator tree in `self` by the infix table; each
    /// sub-expression that is not an operand starts afresh.
    fn resolve_op(self, table: &NameMap<InfixAST>) -> (r: Result<Resolved, Error>)
        ensures
            resolves(self, table@, r),
        decreases size(self), 1nat,
    {
        broadcast use lemma_declared_concat, lemma_undeclared_concat;
        match self {
            ExprAST::OpAST(x) => x.swap_op(table),
            ExprAST::ParenAST(x) => {
                let x = *x;
                let expr = match x.expr.resolve_op(table) {
                    Ok(e) => e.get_expr_ast(),
                    Err(err) => return Err(err),
                };
                Ok(Resolved::OtherExprAST(ExprAST::ParenAST(Box::new(ParenAST { pos: x.pos, expr }))))
            },
            ExprAST::FuncCallAST(x) => {
                let x = *x;
                let ghost g = x;
                let param = match x.param.resolve_op(table) {
                    Ok(e) => e.get_expr_ast(),
                    Err(err) => return Err(err),
                };
                let func = match x.func.resolve_op(table) {
                    Ok(e) => e.get_expr_ast(),
                    Err(err) => return Err(err),
                };
                let res = FuncCallAST { pos: x.pos, func, param };
                Ok(Resolved::OtherExprAST(ExprAST::FuncCallAST(Box::new(res))))
            },
            ExprAST::LambdaAST(x) => {
                let x = *x;
                let body = match x.body.resolve_op(table) {
                    Ok(e) => e.get_expr_ast(),
                    Err(err) => return Err(err),
                };
                let res = LambdaAST { pos: x.pos, env: x.env, params: x.params, body };
                Ok(Resolved::OtherExprAST(ExprAST::LambdaAST(Box::new(res))))
            },
            ExprAST::TupleAST(x) => {
                let x = *x;
                let elements = match resolve_all(x.elements, table) {
                    Ok(v) => v,
                    Err(err) => return Err(err),
                };
                Ok(Resolved::OtherExprAST(ExprAST::TupleAST(Box::new(TupleAST { pos: x.pos, elements }))))
            },
            ExprAST::IfAST(x) => {
                let x = *x;
                let cond = match x.cond.resolve_op(table) {
                    Ok(e) => e.get_expr_ast(),
                    Err(err) => return Err(err),
                };
                let t_expr = match x.t_expr.resolve_op(table) {
                    Ok(e) => e.get_expr_ast(),
                    Err(err) => return Err(err),
                };
                let f_expr = match x.f_expr.resolve_op(table) {
                    Ok(e) => e.get_expr_ast(),
                    Err(err) => return Err(err),
                };
                let res = IfAST { pos: x.pos, cond, t_expr, f_expr };
                assert(ops(ExprAST::IfAST(Box::new(res))) =~= ops(x.cond) + ops(x.t_expr) + ops(x.f_expr));
                Ok(Resolved::OtherExprAST(ExprAST::IfAST(Box::new(res))))
            },
            ExprAST::NamedParamsConstructorCallAST(x) => {
                let x = *x;
                let params = match resolve_named(x.params, table) {
                    Ok(v) => v,
                    Err(err) => return Err(err),
                };
                let res = NamedParamsConstructorCallAST { pos: x.pos, name: x.name, params };
                Ok(Resolved::OtherExprAST(ExprAST::NamedParamsConstructorCallAST(Box::new(res))))
            },
            ExprAST::TupleStructAST(x) => {
                let x = *x;
                let elements = match resolve_all(x.tuple.elements, table) {
                    Ok(v) => v,
                    Err(err) => return Err(err),
                };
                let tuple = TupleAST { pos: x.tuple.pos, elements };
                let res = TupleStructAST { pos: x.pos, name: x.name, tuple };
                Ok(Resolved::OtherExprAST(ExprAST::TupleStructAST(Box::new(res))))
            },
            ExprAST::IndexPropertyAST(x) => {
                let x = *x;
                let expr = match x.expr.resolve_op(table) {
                    Ok(e) => e.get_expr_ast(),
                    Err(err) => return Err(err),
                };
                let res = IndexPropertyAST { pos: x.pos, expr, index: x.index };
                Ok(Resolved::OtherExprAST(ExprAST::IndexPropertyAST(Box::new(res))))
            },
            ExprAST::NamePropertyAST(x) => {
                let x = *x;
                let expr = match x.expr.resolve_op(table) {
                    Ok(e) => e.get_expr_ast(),
                    Err(err) => return Err(err),
                };
                let res = NamePropertyAST { pos: x.pos, expr, property: x.property };
                Ok(Resolved::OtherExprAST(ExprAST::NamePropertyAST(Box::new(res))))
            },
            ExprAST::NumAST(_) | ExprAST::BoolAST(_) | ExprAST::VariableAST(_) => Ok(
                Resolved::OtherExprAST(self),
            ),
        }
    }
}

/// `out` is definition `d` with its body resolved by `table` (see `res_ok`): the same
/// node count and the same operators in the same order, no operator binding
/// tighter than its left operand, all else kept.
pub open spec fn def_resolved(d: DefFuncAST, out: DefFuncAST, table: Map<Seq<char>, InfixAST>) -> bool {
    &&& res_ok(d.body, table, out.body)
    &&& left_assoc_ok(out.body, table)
    &&& out.pos == d.pos
    &&& out.name == d.name
    &&& out.params == d.params
    &&& size(out.body) == size(d.body)
    &&& ops(out.body) == ops(d.body)
}

/// Whether every operator in every definition body has an infix entry.
pub open spec fn defs_declared(
    defs: Map<Seq<char>, DefFuncAST>,
    table: Map<Seq<char>, InfixAST>,
) -> bool {
    forall|k: Seq<char>| #[trigger] defs.contains_key(k) ==> all_declared(ops(defs[k].body), table)
}

impl ProgramHir {
    /// Re-associates the operator trees of every definition body by the infix
    /// table; fails if some operator has no entry.
    pub fn resolve_op(self) -> (r: Result<ProgramHir, Error>)
        ensures
            r is Ok <==> defs_declared(self@.defs, self@.infixes),
            match r {
                Ok(h) => {
                    &&& h@.infixes == self@.infixes
                    &&& h@.decs == self@.decs
                    &&& h@.ex_decs == self@.ex_decs
                    &&& h@.defs.dom() == self@.defs.dom()
                    &&& forall|k: Seq<char>| #[trigger] self@.defs.contains_key(k)
                        ==> def_resolved(self@.defs[k], h@.defs[k], self@.infixes)
                },
                Err(err) => err is UndeclaredOperator && exists|k: Seq<char>| #[trigger] self@.defs.contains_key(k)
                    && undeclared_at(ops(self@.defs[k].body), self@.infixes, err->UndeclaredOperator_0),
            },
    {
        let ghost defs = self@.defs;
        let ghost table = self@.infixes;
        let entries = self.def_func_list.into_entries();
        let ghost orig = entries@;
        let mut rest = reversed(entries);
        let mut out: Vec<(String, DefFuncAST)> = Vec::new();
        while rest.len() > 0
            invariant
                out@.len() <= orig.len(),
                rest@ == orig.subrange(out@.len() as int, orig.len() as int).reverse(),
                names_distinct(orig),
                named_map(orig) == defs,
                table == self.infix_list@,
                defs == self@.defs,
                table == self@.infixes,
                forall|i: int| 0 <= i < out@.len() ==> #[trigger] out@[i].0@ == orig[i].0@
                    && def_resolved(orig[i].1, out@[i].1, table) && all_declared(ops(orig[i].1.body), table),
            decreases rest@.len(),
        {
            let (name, d) = rest.pop().unwrap();
            let ghost k = out@.len() as int;
            proof {
                lemma_named_map_at(orig, k);
            }
            assert(d == orig[k].1);
            let d2 = match d.resolve_op(&self.infix_list) {
                Ok(d2) => d2,
                Err(err) => {
                    assert(defs.contains_key(orig[k].0@));
                    return Err(err);
                },
            };
            out.push((name, d2));
            assert(rest@ =~= orig.subrange(out@.len() as int, orig.len() as int).reverse());
        }
        let ghost res = out@;
        proof {
            assert forall|a: int, b: int| 0 <= a < res.len() && 0 <= b < res.len() && a != b
                implies res[a].0@ != res[b].0@ by {
                assert(res[a].0@ == orig[a].0@);
                assert(res[b].0@ == orig[b].0@);
            }
            assert forall|q: Seq<char>| #[trigger] named_map(res).contains_key(q)
                == defs.contains_key(q) by {
                if defs.contains_key(q) {
                    let j = choose|j: int| 0 <= j < orig.len() && orig[j].0@ == q;
                    assert(res[j].0@ == q);
                }
                if named_map(res).contains_key(q) {
                    let j = choose|j: int| 0 <= j < res.len() && res[j].0@ == q;
                    assert(orig[j].0@ == q);
                }
            }
            assert(named_map(res).dom() =~= defs.dom());
            assert forall|q: Seq<char>| #[trigger] defs.contains_key(q)
                implies def_resolved(defs[q], named_map(res)[q], table) && all_declared(ops(defs[q].body), table) by {
                let j = choose|j: int| 0 <= j < orig.len() && orig[j].0@ == q;
                lemma_named_map_at(orig, j);
                lemma_named_map_at(res, j);
                assert(res[j].0@ == q);
            }
        }
        Ok(ProgramHir {
            infix_list: self.infix_list,
            dec_func_list: self.dec_func_list,
            def_func_list: NameMap::from_entries(out),
            ex_dec_func_list: self.ex_dec_func_list,
        })
    }
}

impl DefFuncAST {
    /// Re-associates the operator trees of the body by the infix table.
    pub fn resolve_op(self, table: &NameMap<InfixAST>) -> (r: Result<DefFuncAST, Error>)
        ensures
            r is Ok <==> all_declared(ops(self.body), table@),
            match r {
                Ok(d) => def_resolved(self, d, table@),
                Err(err) => err is UndeclaredOperator && undeclared_at(ops(self.body), table@, err->UndeclaredOperator_0),
            },
    {
        let body = match self.body.resolve_op(table) {
            Ok(x) => x.get_expr_ast(),
            Err(err) => return Err(err),
        };
        Ok(DefFuncAST { pos: self.pos, name: self.name, params: self.params, body })
    }
}

impl InfixAST {
    fn clone_infix(&self) -> (r: InfixAST)
        ensures
            r == *self,
    {
        InfixAST { pos: self.pos, op: self.op.clone(), priority: self.priority, ty: self.ty }
    }

    /// Whether `self`, as the operator above `child`, binds tighter than it.
    fn is_priority_greater(&self, child: &InfixAST) -> (r: bool)
        ensures
            r == binds_tighter(*self, *child),
    {
        if self.priority > child.priority {
            return true;
        }
        if self.priority == child.priority && self.ty == child.ty {
            return match self.ty {
                InfixType::Left => false,
                InfixType::Right => true,
            };
        }
        false
    }
}

} // verus!
