use vstd::prelude::*;

verus! {

/// A source position, carried by every node for diagnostics.
#[derive(Clone, Copy, Debug, PartialEq, Eq, Structural)]
pub struct Pos {
    pub line: usize,
    pub column: usize,
}

#[derive(Clone, Copy, Debug, PartialEq, Eq, Structural)]
pub enum InfixType {
    Left,
    Right,
}

/// An infix declaration: operator symbol, priority and associativity.
#[derive(Debug)]
pub struct InfixAST {
    pub pos: Pos,
    pub op: String,
    pub priority: i64,
    pub ty: InfixType,
}

#[derive(Debug)]
pub struct VariableAST {
    pub pos: Pos,
    pub id: String,
}

/// A function declaration; `extern_flag` marks an external one.
#[derive(Debug)]
pub struct DecFuncAST {
    pub pos: Pos,
    pub name: String,
    pub params: Vec<VariableAST>,
    pub extern_flag: bool,
}

/// A function definition `name(params) = body`.
#[derive(Debug)]
pub struct DefFuncAST {
    pub pos: Pos,
    pub name: String,
    pub params: Vec<VariableAST>,
    pub body: ExprAST,
}

#[derive(Debug)]
pub enum StmtAST {
    InfixAST(InfixAST),
    DefFuncAST(DefFuncAST),
    DecFuncAST(DecFuncAST),
    NoneAST,
}

/// A parsed program: its top-level statements in source order.
#[derive(Debug)]
pub struct ProgramAST {
    pub stmt_list: Vec<StmtAST>,
}

#[derive(Debug)]
pub struct NumAST {
    pub pos: Pos,
    pub num: i64,
}

#[derive(Debug)]
pub struct BoolAST {
    pub pos: Pos,
    pub b: bool,
}

#[derive(Debug)]
pub struct OpAST {
    pub pos: Pos,
    pub op: String,
    pub l_expr: ExprAST,
    pub r_expr: ExprAST,
}

#[derive(Debug)]
pub struct FuncCallAST {
    pub pos: Pos,
    pub func: ExprAST,
    pub param: ExprAST,
}

#[derive(Debug)]
pub struct LambdaAST {
    pub pos: Pos,
    pub env: Vec<VariableAST>,
    pub params: Vec<VariableAST>,
    pub body: ExprAST,
}

#[derive(Debug)]
pub struct TupleAST {
    pub pos: Pos,
    pub elements: Vec<ExprAST>,
}

#[derive(Debug)]
pub struct ParenAST {
    pub pos: Pos,
    pub expr: ExprAST,
}

#[derive(Debug)]
pub struct IfAST {
    pub pos: Pos,
    pub cond: ExprAST,
    pub t_expr: ExprAST,
    pub f_expr: ExprAST,
}

#[derive(Debug)]
pub struct NamedParamsConstructorCallAST {
    pub pos: Pos,
    pub name: String,
    pub params: Vec<(String, ExprAST)>,
}

#[derive(Debug)]
pub struct TupleStructAST {
    pub pos: Pos,
    pub name: String,
    pub tuple: TupleAST,
}

#[derive(Debug)]
pub struct IndexPropertyAST {
    pub pos: Pos,
    pub expr: ExprAST,
    pub index: i64,
}

#[derive(Debug)]
pub struct NamePropertyAST {
    pub pos: Pos,
    pub expr: ExprAST,
    pub property: VariableAST,
}

#[derive(Debug)]
pub enum ExprAST {
    NumAST(NumAST),
    BoolAST(BoolAST),
    VariableAST(VariableAST),
    OpAST(Box<OpAST>),
    FuncCallAST(Box<FuncCallAST>),
    LambdaAST(Box<LambdaAST>),
    TupleAST(Box<TupleAST>),
    ParenAST(Box<ParenAST>),
    IfAST(Box<IfAST>),
    NamedParamsConstructorCallAST(Box<NamedParamsConstructorCallAST>),
    TupleStructAST(Box<TupleStructAST>),
    IndexPropertyAST(Box<IndexPropertyAST>),
    NamePropertyAST(Box<NamePropertyAST>),
}

impl ExprAST {
    pub open spec fn spec_pos(&self) -> Pos {
        match self {
            ExprAST::NumAST(x) => x.pos,
            ExprAST::BoolAST(x) => x.pos,
            ExprAST::VariableAST(x) => x.pos,
            ExprAST::OpAST(x) => x.pos,
            ExprAST::FuncCallAST(x) => x.pos,
            ExprAST::LambdaAST(x) => x.pos,
            ExprAST::TupleAST(x) => x.pos,
            ExprAST::ParenAST(x) => x.pos,
            ExprAST::IfAST(x) => x.pos,
            ExprAST::NamedParamsConstructorCallAST(x) => x.pos,
            ExprAST::TupleStructAST(x) => x.pos,
            ExprAST::IndexPropertyAST(x) => x.pos,
            ExprAST::NamePropertyAST(x) => x.pos,
        }
    }

    /// The source position of the node.
    #[verifier::when_used_as_spec(spec_pos)]
    pub fn get_pos(&self) -> (r: Pos)
        ensures
            r == self.spec_pos(),
    {
        match self {
            ExprAST::NumAST(x) => x.pos,
            ExprAST::BoolAST(x) => x.pos,
            ExprAST::VariableAST(x) => x.pos,
            ExprAST::OpAST(x) => x.pos,
            ExprAST::FuncCallAST(x) => x.pos,
            ExprAST::LambdaAST(x) => x.pos,
            ExprAST::TupleAST(x) => x.pos,
            ExprAST::ParenAST(x) => x.pos,
            ExprAST::IfAST(x) => x.pos,
            ExprAST::NamedParamsConstructorCallAST(x) => x.pos,
            ExprAST::TupleStructAST(x) => x.pos,
            ExprAST::IndexPropertyAST(x) => x.pos,
            ExprAST::NamePropertyAST(x) => x.pos,
        }
    }
}

/// Whether two expressions are the same tree: the same kinds, fields and
/// children, sequences of children compared element by element.
pub open spec fn same_expr(a: ExprAST, b: ExprAST) -> bool
    decreases a,
{
    match (a, b) {
        (ExprAST::OpAST(x), ExprAST::OpAST(y)) => x.pos == y.pos && x.op == y.op && same_expr(x.l_expr, y.l_expr)
            && same_expr(x.r_expr, y.r_expr),
        (ExprAST::FuncCallAST(x), ExprAST::FuncCallAST(y)) => x.pos == y.pos && same_expr(x.func, y.func)
            && same_expr(x.param, y.param),
        (ExprAST::LambdaAST(x), ExprAST::LambdaAST(y)) => x.pos == y.pos && x.env@ == y.env@ && x.params@
            == y.params@ && same_expr(x.body, y.body),
        (ExprAST::TupleAST(x), ExprAST::TupleAST(y)) => x.pos == y.pos && same_exprs(x.elements@, y.elements@),
        (ExprAST::ParenAST(x), ExprAST::ParenAST(y)) => x.pos == y.pos && same_expr(x.expr, y.expr),
        (ExprAST::IfAST(x), ExprAST::IfAST(y)) => x.pos == y.pos && same_expr(x.cond, y.cond) && same_expr(
            x.t_expr,
            y.t_expr,
        ) && same_expr(x.f_expr, y.f_expr),
        (ExprAST::NamedParamsConstructorCallAST(x), ExprAST::NamedParamsConstructorCallAST(y)) => x.pos
            == y.pos && x.name == y.name && x.params@.len() == y.params@.len() && forall|i: int|
            #![trigger x.params@[i]]
            0 <= i < x.params@.len() ==> x.params@[i].0 == y.params@[i].0 && same_expr(
                x.params@[i].1,
                y.params@[i].1,
            ),
        (ExprAST::TupleStructAST(x), ExprAST::TupleStructAST(y)) => x.pos == y.pos && x.name == y.name
            && x.tuple.pos == y.tuple.pos && same_exprs(x.tuple.elements@, y.tuple.elements@),
        (ExprAST::IndexPropertyAST(x), ExprAST::IndexPropertyAST(y)) => x.pos == y.pos && x.index == y.index
            && same_expr(x.expr, y.expr),
        (ExprAST::NamePropertyAST(x), ExprAST::NamePropertyAST(y)) => x.pos == y.pos && x.property
            == y.property && same_expr(x.expr, y.expr),
        (ExprAST::NumAST(_), _) | (ExprAST::BoolAST(_), _) | (ExprAST::VariableAST(_), _) => a == b,
        _ => false,
    }
}

/// Element-wise `same_expr`.
pub open spec fn same_exprs(a: Seq<ExprAST>, b: Seq<ExprAST>) -> bool
    decreases a,
{
    a.len() == b.len() && forall|i: int| 0 <= i < a.len() ==> same_expr(#[trigger] a[i], b[i])
}

} // verus!
