use lang_frontend::ast::{
    BoolAST, DecFuncAST, DefFuncAST, ExprAST, FuncCallAST, IfAST, InfixAST, InfixType, LambdaAST,
    NumAST, OpAST, ParenAST, Pos, ProgramAST, StmtAST, TupleAST, VariableAST,
};
use lang_frontend::error::Error;
use lang_frontend::hir::ProgramHir;

fn at(line: usize) -> Pos {
    Pos { line, column: 0 }
}

fn v(name: &str) -> VariableAST {
    VariableAST { pos: at(0), id: name.to_string() }
}

fn ev(name: &str) -> ExprAST {
    ExprAST::VariableAST(v(name))
}

fn num(n: i64) -> ExprAST {
    ExprAST::NumAST(NumAST { pos: at(0), num: n })
}

fn op(sym: &str, l: ExprAST, r: ExprAST) -> ExprAST {
    ExprAST::OpAST(Box::new(OpAST { pos: at(0), op: sym.to_string(), l_expr: l, r_expr: r }))
}

fn paren(e: ExprAST) -> ExprAST {
    ExprAST::ParenAST(Box::new(ParenAST { pos: at(0), expr: e }))
}

fn infix(sym: &str, priority: i64, ty: InfixType) -> StmtAST {
    StmtAST::InfixAST(InfixAST { pos: at(0), op: sym.to_string(), priority, ty })
}

fn def(name: &str, params: &[&str], body: ExprAST) -> StmtAST {
    StmtAST::DefFuncAST(def_ast(name, params, body))
}

fn def_ast(name: &str, params: &[&str], body: ExprAST) -> DefFuncAST {
    DefFuncAST {
        pos: at(1),
        name: name.to_string(),
        params: params.iter().map(|p| v(p)).collect(),
        body,
    }
}

fn dec(name: &str, extern_flag: bool, line: usize) -> StmtAST {
    StmtAST::DecFuncAST(DecFuncAST { pos: at(line), name: name.to_string(), params: vec![], extern_flag })
}

fn vars(vs: &[VariableAST]) -> String {
    vs.iter().map(|x| x.id.clone()).collect::<Vec<_>>().join(",")
}

/// A compact rendering of an expression: operators fully parenthesised,
/// lambdas as `\params[env].body`.
fn show(e: &ExprAST) -> String {
    match e {
        ExprAST::NumAST(x) => x.num.to_string(),
        ExprAST::BoolAST(x) => x.b.to_string(),
        ExprAST::VariableAST(x) => x.id.clone(),
        ExprAST::OpAST(x) => format!("({} {} {})", show(&x.l_expr), x.op, show(&x.r_expr)),
        ExprAST::FuncCallAST(x) => format!("{}({})", show(&x.func), show(&x.param)),
        ExprAST::LambdaAST(x) => format!("\\{}[{}].{}", vars(&x.params), vars(&x.env), show(&x.body)),
        ExprAST::TupleAST(x) => format!("<{}>", x.elements.iter().map(show).collect::<Vec<_>>().join(",")),
        ExprAST::ParenAST(x) => format!("[{}]", show(&x.expr)),
        ExprAST::IfAST(x) => format!("if {} then {} else {}", show(&x.cond), show(&x.t_expr), show(&x.f_expr)),
        _ => "?".to_string(),
    }
}

fn lower(stmts: Vec<StmtAST>) -> ProgramHir {
    ProgramAST { stmt_list: stmts }.to_hir().unwrap()
}

fn body_of(h: &ProgramHir, name: &str) -> String {
    show(&h.def_func_list.get(&name.to_string()).unwrap().body)
}

#[test]
fn lowering_partitions_statements() {
    let h = lower(vec![
        infix("+", 1, InfixType::Left),
        def("f", &["x"], num(1)),
        dec("g", false, 2),
        dec("g", true, 3),
        StmtAST::NoneAST,
        def("h", &[], num(2)),
    ]);
    assert!(h.infix_list.contains_key(&"+".to_string()));
    assert!(h.def_func_list.contains_key(&"f".to_string()));
    assert!(h.def_func_list.contains_key(&"h".to_string()));
    assert_eq!(h.dec_func_list.get(&"g".to_string()).unwrap().pos, at(2));
    assert_eq!(h.ex_dec_func_list.get(&"g".to_string()).unwrap().pos, at(3));
    assert!(!h.def_func_list.contains_key(&"g".to_string()));
    assert!(!h.dec_func_list.contains_key(&"f".to_string()));
}

#[test]
fn lowering_rejects_duplicate_definition() {
    let mut second = def_ast("f", &[], num(2));
    second.pos = at(7);
    let r = ProgramAST { stmt_list: vec![def("f", &[], num(1)), StmtAST::DefFuncAST(second)] }.to_hir();
    assert!(matches!(r, Err(Error::DuplicateDefinition(p)) if p == at(7)));
}

#[test]
fn lowering_rejects_duplicate_declaration_per_category() {
    let r = ProgramAST { stmt_list: vec![dec("g", false, 1), dec("g", false, 4)] }.to_hir();
    assert!(matches!(r, Err(Error::DuplicateDeclaration(p)) if p == at(4)));
    let r = ProgramAST { stmt_list: vec![dec("g", true, 1), dec("g", true, 5)] }.to_hir();
    assert!(matches!(r, Err(Error::DuplicateDeclaration(p)) if p == at(5)));
    let r = ProgramAST { stmt_list: vec![dec("g", true, 1), dec("g", false, 5)] }.to_hir();
    assert!(r.is_ok());
}

#[test]
fn lowering_later_infix_overwrites() {
    let h = lower(vec![infix("+", 1, InfixType::Left), infix("+", 6, InfixType::Right)]);
    let e = h.infix_list.get(&"+".to_string()).unwrap();
    assert_eq!(e.priority, 6);
    assert_eq!(e.ty, InfixType::Right);
}

#[test]
fn precedence_mul_binds_tighter_than_add() {
    let h = lower(vec![
        infix("+", 1, InfixType::Left),
        infix("*", 2, InfixType::Left),
        def("f", &[], op("*", op("+", ev("a"), ev("b")), ev("c"))),
    ]);
    let h = h.resolve_op().unwrap();
    assert_eq!(body_of(&h, "f"), "(a + (b * c))");
}

#[test]
fn precedence_right_associative_operator() {
    let h = lower(vec![
        infix("^", 3, InfixType::Right),
        def("f", &[], op("^", op("^", ev("a"), ev("b")), ev("c"))),
    ]);
    let h = h.resolve_op().unwrap();
    assert_eq!(body_of(&h, "f"), "(a ^ (b ^ c))");
}

#[test]
fn precedence_left_associative_and_looser_kept() {
    let h = lower(vec![
        infix("-", 1, InfixType::Left),
        infix("*", 2, InfixType::Left),
        def("f", &[], op("-", op("-", ev("a"), ev("b")), ev("c"))),
        def("g", &[], op("+", ev("a"), ev("b"))),
    ]);
    let h2 = lower(vec![
        infix("-", 1, InfixType::Left),
        infix("*", 2, InfixType::Left),
        def("f", &[], op("-", op("-", ev("a"), ev("b")), ev("c"))),
        def("g", &[], op("-", op("*", ev("a"), ev("b")), paren(op("-", ev("c"), ev("d"))))),
    ]);
    assert!(matches!(h.resolve_op(), Err(Error::UndeclaredOperator(_))));
    let h2 = h2.resolve_op().unwrap();
    assert_eq!(body_of(&h2, "f"), "((a - b) - c)");
    assert_eq!(body_of(&h2, "g"), "((a * b) - [(c - d)])");
}

#[test]
fn precedence_longer_chain() {
    // 1 + 2 * 3 + 4, parsed left-nested: ((1 + 2) * 3) + 4
    let h = lower(vec![
        infix("+", 1, InfixType::Left),
        infix("*", 2, InfixType::Left),
        def("f", &[], op("+", op("*", op("+", num(1), num(2)), num(3)), num(4))),
    ]);
    let h = h.resolve_op().unwrap();
    assert_eq!(body_of(&h, "f"), "((1 + (2 * 3)) + 4)");
}

#[test]
fn undeclared_operator_fails_anywhere() {
    let top = lower(vec![def("f", &[], op("@", num(1), num(2)))]);
    assert!(matches!(top.resolve_op(), Err(Error::UndeclaredOperator(_))));
    let nested_if = ExprAST::IfAST(Box::new(IfAST {
        pos: at(0),
        cond: ExprAST::BoolAST(BoolAST { pos: at(0), b: true }),
        t_expr: num(1),
        f_expr: paren(op("@", num(1), num(2))),
    }));
    let deep = lower(vec![infix("+", 1, InfixType::Left), def("f", &[], op("+", num(0), nested_if))]);
    assert!(matches!(deep.resolve_op(), Err(Error::UndeclaredOperator(_))));
    let call = ExprAST::FuncCallAST(Box::new(FuncCallAST {
        pos: at(0),
        func: ev("g"),
        param: ExprAST::TupleAST(Box::new(TupleAST { pos: at(0), elements: vec![num(1), op("@", num(1), num(2))] })),
    }));
    let in_tuple = lower(vec![def("f", &[], call)]);
    assert!(matches!(in_tuple.resolve_op(), Err(Error::UndeclaredOperator(_))));
}

#[test]
fn currying_three_parameters() {
    let h = lower(vec![def("f", &["x", "y", "z"], ev("body"))]).currying();
    let d = h.def_func_list.get(&"f".to_string()).unwrap();
    assert_eq!(vars(&d.params), "x");
    assert_eq!(show(&d.body), "\\y[x].\\z[x,y].body");
}

#[test]
fn currying_zero_parameters() {
    let h = lower(vec![def("g", &[], num(1))]).currying();
    let d = h.def_func_list.get(&"g".to_string()).unwrap();
    assert_eq!(vars(&d.params), "_");
    assert_eq!(d.params[0].pos, d.pos);
    assert_eq!(show(&d.body), "1");
}

#[test]
fn currying_twice_changes_nothing() {
    let lam = ExprAST::LambdaAST(Box::new(LambdaAST {
        pos: at(0),
        env: vec![],
        params: vec![v("a"), v("b")],
        body: op("+", ev("a"), ev("b")),
    }));
    let h = lower(vec![def("f", &["x", "y"], paren(lam))]).currying();
    let once = format!("{:?}", h.def_func_list.get(&"f".to_string()).unwrap());
    let h = h.currying();
    let twice = format!("{:?}", h.def_func_list.get(&"f".to_string()).unwrap());
    assert_eq!(once, twice);
    assert_eq!(body_of(&h, "f"), "\\y[x].[\\a[].\\b[a].(a + b)]");
}

#[test]
fn currying_resets_environment_in_subexpressions() {
    let inner = ExprAST::LambdaAST(Box::new(LambdaAST {
        pos: at(0),
        env: vec![],
        params: vec![v("p"), v("q")],
        body: ev("p"),
    }));
    let body = ExprAST::TupleAST(Box::new(TupleAST { pos: at(0), elements: vec![inner, ev("x")] }));
    let h = lower(vec![def("f", &["x", "y"], body)]).currying();
    assert_eq!(body_of(&h, "f"), "\\y[x].<\\p[].\\q[p].p,x>");
}

#[test]
fn undeclared_operator_reports_its_position() {
    let bad = ExprAST::OpAST(Box::new(OpAST { pos: at(9), op: "@".to_string(), l_expr: ev("b"), r_expr: ev("c") }));
    let h = lower(vec![infix("+", 1, InfixType::Left), def("f", &[], op("+", ev("a"), paren(bad)))]);
    assert!(matches!(h.resolve_op(), Err(Error::UndeclaredOperator(p)) if p == at(9)));
}

#[test]
fn resolution_keeps_operands_and_parentheses() {
    let call = ExprAST::FuncCallAST(Box::new(FuncCallAST {
        pos: at(0),
        func: ev("g"),
        param: paren(op("*", op("+", ev("x"), ev("y")), ev("z"))),
    }));
    let h = lower(vec![
        infix("+", 1, InfixType::Left),
        infix("*", 2, InfixType::Left),
        def("f", &[], op("+", op("*", ev("a"), ev("b")), call)),
    ]);
    let h = h.resolve_op().unwrap();
    assert_eq!(body_of(&h, "f"), "((a * b) + g([(x + (y * z))]))");
}

#[test]
fn currying_keeps_parentheses_and_lambda_position() {
    let lam = ExprAST::LambdaAST(Box::new(LambdaAST {
        pos: at(5),
        env: vec![],
        params: vec![v("a"), v("b")],
        body: paren(num(1)),
    }));
    let h = lower(vec![def("f", &["x"], paren(lam)), def("g", &["x"], paren(num(1)))]).currying();
    assert_eq!(body_of(&h, "g"), "[1]");
    assert_eq!(body_of(&h, "f"), "[\\a[].\\b[a].[1]]");
    match &h.def_func_list.get(&"f".to_string()).unwrap().body {
        ExprAST::ParenAST(p) => match &p.expr {
            ExprAST::LambdaAST(l) => assert_eq!(l.pos, at(5)),
            _ => panic!("expected a lambda"),
        },
        _ => panic!("expected parentheses"),
    }
}
