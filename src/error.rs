use vstd::prelude::*;
use crate::ast::Pos;
use crate::types::Type;

verus! {

/// The failures of the front end; each is fatal to the compilation unit.
#[derive(Debug)]
pub enum Error {
    /// A function defined twice, at the second definition.
    DuplicateDefinition(Pos),
    /// A function declared twice in the same category (internal or external).
    DuplicateDeclaration(Pos),
    /// An operator with no infix declaration, at its use.
    UndeclaredOperator(Pos),
    /// Two types that cannot be made equal: the expected and the actual one.
    UnificationFailure(Type, Type),
    /// Two substitutions that disagree on a shared variable.
    MergeConflict,
}

} // verus!
