use vstd::prelude::*;
use crate::ast::{InfixAST, DecFuncAST, DefFuncAST, StmtAST, ProgramAST};
use crate::error::Error;
use crate::table::NameMap;
use crate::seq_util::reversed;

verus! {

broadcast use {vstd::seq::group_seq_axioms, vstd::std_specs::vec::group_vec_axioms};

/// The lowered program: four tables keyed by name.
pub struct ProgramHir {
    pub infix_list: NameMap<InfixAST>,
    pub dec_func_list: NameMap<DecFuncAST>,
    pub def_func_list: NameMap<DefFuncAST>,
    pub ex_dec_func_list: NameMap<DecFuncAST>,
}

/// Model of a lowered program.
pub struct HirTables {
    pub infixes: Map<Seq<char>, InfixAST>,
    pub decs: Map<Seq<char>, DecFuncAST>,
    pub defs: Map<Seq<char>, DefFuncAST>,
    pub ex_decs: Map<Seq<char>, DecFuncAST>,
}

impl ProgramHir {
    pub open spec fn view(&self) -> HirTables {
        HirTables {
            infixes: self.infix_list@,
            decs: self.dec_func_list@,
            defs: self.def_func_list@,
            ex_decs: self.ex_dec_func_list@,
        }
    }
}

pub open spec fn empty_tables() -> HirTables {
    HirTables { infixes: Map::empty(), decs: Map::empty(), defs: Map::empty(), ex_decs: Map::empty() }
}

/// Adds one statement to the tables: an infix declaration replaces an earlier
/// one of the same operator; a name already in its own table is an error.
pub open spec fn lower_step(t: HirTables, s: StmtAST) -> Result<HirTables, Error> {
    match s {
        StmtAST::InfixAST(x) => Ok(HirTables { infixes: t.infixes.insert(x.op@, x), ..t }),
        StmtAST::DefFuncAST(x) => if t.defs.contains_key(x.name@) {
            Err(Error::DuplicateDefinition(x.pos))
        } else {
            Ok(HirTables { defs: t.defs.insert(x.name@, x), ..t })
        },
        StmtAST::DecFuncAST(x) => if x.extern_flag {
            if t.ex_decs.contains_key(x.name@) {
                Err(Error::DuplicateDeclaration(x.pos))
            } else {
                Ok(HirTables { ex_decs: t.ex_decs.insert(x.name@, x), ..t })
            }
        } else {
            if t.decs.contains_key(x.name@) {
                Err(Error::DuplicateDeclaration(x.pos))
            } else {
                Ok(HirTables { decs: t.decs.insert(x.name@, x), ..t })
            }
        },
        StmtAST::NoneAST => Ok(t),
    }
}

/// The statements lowered in order, stopping at the first error.
pub open spec fn lower(stmts: Seq<StmtAST>) -> Result<HirTables, Error>
    decreases stmts.len(),
{
    if stmts.len() == 0 {
        Ok(empty_tables())
    } else {
        match lower(stmts.drop_last()) {
            Ok(t) => lower_step(t, stmts.last()),
            Err(e) => Err(e),
        }
    }
}

/// Once a prefix of the statements fails, the whole list fails the same way.
pub proof fn lemma_lower_error_persists(stmts: Seq<StmtAST>, n: int)
    requires
        0 <= n <= stmts.len(),
        lower(stmts.take(n)) is Err,
    ensures
        lower(stmts) == lower(stmts.take(n)),
    decreases stmts.len() - n,
{
    if n < stmts.len() {
        assert(stmts.take(n + 1).drop_last() =~= stmts.take(n));
        lemma_lower_error_persists(stmts, n + 1);
    } else {
        assert(stmts.take(n) =~= stmts);
    }
}

/// Whether two statements claim the same slot: the same operator, the same
/// defined name, or the same declared name in the same category.
pub open spec fn same_slot(a: StmtAST, b: StmtAST) -> bool {
    match (a, b) {
        (StmtAST::InfixAST(x), StmtAST::InfixAST(y)) => x.op@ == y.op@,
        (StmtAST::DefFuncAST(x), StmtAST::DefFuncAST(y)) => x.name@ == y.name@,
        (StmtAST::DecFuncAST(x), StmtAST::DecFuncAST(y)) => x.extern_flag == y.extern_flag && x.name@
            == y.name@,
        _ => false,
    }
}

/// Whether no two statements claim the same slot.
pub open spec fn slots_distinct(stmts: Seq<StmtAST>) -> bool {
    forall|i: int, j: int| 0 <= i < j < stmts.len() ==> !same_slot(#[trigger] stmts[i], #[trigger] stmts[j])
}

/// Whether statement `s` stands in its own table of `t`, under its name.
pub open spec fn placed(t: HirTables, s: StmtAST) -> bool {
    match s {
        StmtAST::InfixAST(x) => t.infixes.contains_key(x.op@) && t.infixes[x.op@] == x,
        StmtAST::DefFuncAST(x) => t.defs.contains_key(x.name@) && t.defs[x.name@] == x,
        StmtAST::DecFuncAST(x) => if x.extern_flag {
            t.ex_decs.contains_key(x.name@) && t.ex_decs[x.name@] == x
        } else {
            t.decs.contains_key(x.name@) && t.decs[x.name@] == x
        },
        StmtAST::NoneAST => true,
    }
}

/// Whether every entry of the tables of `t` comes from a statement of `stmts`
/// of its kind.
pub open spec fn drawn_from(t: HirTables, stmts: Seq<StmtAST>) -> bool {
    &&& forall|k: Seq<char>| #[trigger] t.infixes.contains_key(k) ==> exists|i: int|
        0 <= i < stmts.len() && stmts[i] is InfixAST && stmts[i]->InfixAST_0.op@ == k
    &&& forall|k: Seq<char>| #[trigger] t.defs.contains_key(k) ==> exists|i: int|
        0 <= i < stmts.len() && stmts[i] is DefFuncAST && stmts[i]->DefFuncAST_0.name@ == k
    &&& forall|k: Seq<char>| #[trigger] t.decs.contains_key(k) ==> exists|i: int|
        0 <= i < stmts.len() && stmts[i] is DecFuncAST && !stmts[i]->DecFuncAST_0.extern_flag
            && stmts[i]->DecFuncAST_0.name@ == k
    &&& forall|k: Seq<char>| #[trigger] t.ex_decs.contains_key(k) ==> exists|i: int|
        0 <= i < stmts.len() && stmts[i] is DecFuncAST && stmts[i]->DecFuncAST_0.extern_flag
            && stmts[i]->DecFuncAST_0.name@ == k
}

/// Lowering a program in which no two statements claim the same slot
/// succeeds, puts every statement in its own table under its name, and adds
/// nothing that no statement gave: the tables partition the statements.
pub proof fn lemma_lower_partitions(stmts: Seq<StmtAST>)
    requires
        slots_distinct(stmts),
    ensures
        lower(stmts) is Ok,
        forall|i: int| 0 <= i < stmts.len() ==> placed(lower(stmts)->Ok_0, #[trigger] stmts[i]),
        drawn_from(lower(stmts)->Ok_0, stmts),
    decreases stmts.len(),
{
    if stmts.len() > 0 {
        let pre = stmts.drop_last();
        let n = stmts.len() - 1;
        assert forall|i: int, j: int| 0 <= i < j < pre.len() implies !same_slot(#[trigger] pre[i], #[trigger] pre[j]) by {
            assert(pre[i] == stmts[i] && pre[j] == stmts[j]);
        }
        lemma_lower_partitions(pre);
        let t = lower(pre)->Ok_0;
        let last = stmts.last();
        assert(forall|i: int| 0 <= i < pre.len() ==> pre[i] == #[trigger] stmts[i]);
        match last {
            StmtAST::InfixAST(x) => {},
            StmtAST::DefFuncAST(x) => {
                if t.defs.contains_key(x.name@) {
                    let i = choose|i: int| 0 <= i < pre.len() && pre[i] is DefFuncAST
                        && pre[i]->DefFuncAST_0.name@ == x.name@;
                    assert(same_slot(stmts[i], stmts[n]));
                }
            },
            StmtAST::DecFuncAST(x) => {
                if x.extern_flag && t.ex_decs.contains_key(x.name@) {
                    let i = choose|i: int| 0 <= i < pre.len() && pre[i] is DecFuncAST
                        && pre[i]->DecFuncAST_0.extern_flag && pre[i]->DecFuncAST_0.name@ == x.name@;
                    assert(same_slot(stmts[i], stmts[n]));
                }
                if !x.extern_flag && t.decs.contains_key(x.name@) {
                    let i = choose|i: int| 0 <= i < pre.len() && pre[i] is DecFuncAST
                        && !pre[i]->DecFuncAST_0.extern_flag && pre[i]->DecFuncAST_0.name@ == x.name@;
                    assert(same_slot(stmts[i], stmts[n]));
                }
            },
            StmtAST::NoneAST => {},
        }
        let t2 = lower(stmts)->Ok_0;
        assert forall|i: int| 0 <= i < stmts.len() implies placed(t2, #[trigger] stmts[i]) by {
            if i < n {
                assert(placed(t, pre[i]));
                assert(!same_slot(stmts[i], stmts[n]));
            }
        }
        assert forall|k: Seq<char>| #[trigger] t2.defs.contains_key(k) implies exists|i: int|
            0 <= i < stmts.len() && stmts[i] is DefFuncAST && stmts[i]->DefFuncAST_0.name@ == k by {
            if t.defs.contains_key(k) {
                let i = choose|i: int| 0 <= i < pre.len() && pre[i] is DefFuncAST && pre[i]->DefFuncAST_0.name@ == k;
                assert(stmts[i] == pre[i]);
            } else {
                assert(stmts[n] is DefFuncAST);
            }
        }
        assert forall|k: Seq<char>| #[trigger] t2.infixes.contains_key(k) implies exists|i: int|
            0 <= i < stmts.len() && stmts[i] is InfixAST && stmts[i]->InfixAST_0.op@ == k by {
            if t.infixes.contains_key(k) {
                let i = choose|i: int| 0 <= i < pre.len() && pre[i] is InfixAST && pre[i]->InfixAST_0.op@ == k;
                assert(stmts[i] == pre[i]);
            } else {
                assert(stmts[n] is InfixAST);
            }
        }
        assert forall|k: Seq<char>| #[trigger] t2.decs.contains_key(k) implies exists|i: int|
            0 <= i < stmts.len() && stmts[i] is DecFuncAST && !stmts[i]->DecFuncAST_0.extern_flag
                && stmts[i]->DecFuncAST_0.name@ == k by {
            if t.decs.contains_key(k) {
                let i = choose|i: int| 0 <= i < pre.len() && pre[i] is DecFuncAST
                    && !pre[i]->DecFuncAST_0.extern_flag && pre[i]->DecFuncAST_0.name@ == k;
                assert(stmts[i] == pre[i]);
            } else {
                assert(stmts[n] is DecFuncAST);
            }
        }
        assert forall|k: Seq<char>| #[trigger] t2.ex_decs.contains_key(k) implies exists|i: int|
            0 <= i < stmts.len() && stmts[i] is DecFuncAST && stmts[i]->DecFuncAST_0.extern_flag
                && stmts[i]->DecFuncAST_0.name@ == k by {
            if t.ex_decs.contains_key(k) {
                let i = choose|i: int| 0 <= i < pre.len() && pre[i] is DecFuncAST
                    && pre[i]->DecFuncAST_0.extern_flag && pre[i]->DecFuncAST_0.name@ == k;
                assert(stmts[i] == pre[i]);
            } else {
                assert(stmts[n] is DecFuncAST);
            }
        }
    }
}

/// Two definitions of one name make lowering fail with `DuplicateDefinition`
/// at the second, when no earlier pair of statements claims a slot twice.
pub proof fn lemma_duplicate_definition(stmts: Seq<StmtAST>, i: int, j: int)
    requires
        0 <= i < j < stmts.len(),
        stmts[i] is DefFuncAST,
        stmts[j] is DefFuncAST,
        stmts[i]->DefFuncAST_0.name@ == stmts[j]->DefFuncAST_0.name@,
        slots_distinct(stmts.take(j)),
    ensures
        lower(stmts) == Err::<HirTables, Error>(Error::DuplicateDefinition(stmts[j]->DefFuncAST_0.pos)),
{
    let pre = stmts.take(j);
    lemma_lower_partitions(pre);
    assert(pre[i] == stmts[i]);
    assert(placed(lower(pre)->Ok_0, pre[i]));
    assert(stmts.take(j + 1).drop_last() =~= pre);
    assert(stmts.take(j + 1).last() == stmts[j]);
    lemma_lower_error_persists(stmts, j + 1);
}

impl ProgramAST {
    /// Groups the statements into the four tables of the lowered program.
    pub fn to_hir(self) -> (r: Result<ProgramHir, Error>)
        ensures
            lower(self.stmt_list@) == match r {
                Ok(h) => Ok(h@),
                Err(e) => Err::<HirTables, Error>(e),
            },
    {
        let ghost orig = self.stmt_list@;
        let mut program_hir = ProgramHir {
            infix_list: NameMap::new(),
            dec_func_list: NameMap::new(),
            def_func_list: NameMap::new(),
            ex_dec_func_list: NameMap::new(),
        };
        let mut rest = reversed(self.stmt_list);
        let ghost mut i: int = 0;
        assert(orig.take(0) =~= Seq::<StmtAST>::empty());
        assert(program_hir@ == empty_tables());
        while rest.len() > 0
            invariant
                0 <= i <= orig.len(),
                orig == self.stmt_list@,
                rest@ == orig.subrange(i, orig.len() as int).reverse(),
                lower(orig.take(i)) == Ok::<HirTables, Error>(program_hir@),
            decreases rest@.len(),
        {
            let stmt = rest.pop().unwrap();
            assert(stmt == orig[i]);
            assert(orig.take(i + 1).drop_last() =~= orig.take(i));
            assert(orig.take(i + 1).last() == orig[i]);
            let ghost before = program_hir@;
            proof {
                i = i + 1;
            }
            assert(lower(orig.take(i)) == lower_step(before, stmt));
            assert(rest@ =~= orig.subrange(i, orig.len() as int).reverse());
            match stmt {
                StmtAST::InfixAST(x) => {
                    let key = x.op.clone();
                    program_hir.infix_list.insert(key, x);
                },
                StmtAST::DefFuncAST(x) => {
                    if program_hir.def_func_list.contains_key(&x.name) {
                        proof {
                            lemma_lower_error_persists(orig, i);
                        }
                        return Err(Error::DuplicateDefinition(x.pos));
                    }
                    let key = x.name.clone();
                    program_hir.def_func_list.insert(key, x);
                },
                StmtAST::DecFuncAST(x) => {
                    if x.extern_flag {
                        if program_hir.ex_dec_func_list.contains_key(&x.name) {
                            proof {
                                lemma_lower_error_persists(orig, i);
                            }
                            return Err(Error::DuplicateDeclaration(x.pos));
                        }
                        let key = x.name.clone();
                        program_hir.ex_dec_func_list.insert(key, x);
                    } else {
                        if program_hir.dec_func_list.contains_key(&x.name) {
                            proof {
                                lemma_lower_error_persists(orig, i);
                            }
                            return Err(Error::DuplicateDeclaration(x.pos));
                        }
                        let key = x.name.clone();
                        program_hir.dec_func_list.insert(key, x);
                    }
                },
                StmtAST::NoneAST => {},
            }
        }
        assert(orig.take(i) =~= orig);
        Ok(program_hir)
    }
}

} // verus!
