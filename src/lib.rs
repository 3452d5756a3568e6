// Front end of a small statically typed functional language: lowering of the
// parsed program into name-keyed tables, operator re-association, currying,
// and the type algebra with substitution, occurs check and unification.

pub mod ast;
pub mod error;
pub mod table;
pub mod seq_util;
pub mod hir;
pub mod resolve_op;
pub mod currying;
pub mod types;
pub mod subst;
pub mod occurs;
pub mod type_env;
