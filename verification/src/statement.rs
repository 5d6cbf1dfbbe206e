//! The statement model and its ghost counterpart.

use vstd::prelude::*;

use crate::expression::{expr_view, wf_expr, ExprV, Expression};

verus! {

/// One statement of a program.
#[derive(Debug, PartialEq)]
pub enum Statement {
    /// An expression evaluated for its effect, result discarded.
    Expression(Expression),
    /// An expression evaluated and its value displayed.
    Print(Expression),
    /// A declaration of a binding, optionally assigning a value.
    VariableDeclaration(String, Option<Expression>),
}

/// The mathematical shape of a [`Statement`].
pub enum StmtV {
    Expression(ExprV),
    Print(ExprV),
    VariableDeclaration(Seq<char>, Option<ExprV>),
}

/// The ghost counterpart of a statement.
pub open spec fn stmt_view(s: Statement) -> StmtV {
    match s {
        Statement::Expression(e) => StmtV::Expression(expr_view(e)),
        Statement::Print(e) => StmtV::Print(expr_view(e)),
        Statement::VariableDeclaration(name, init) => StmtV::VariableDeclaration(
            name@,
            match init {
                Some(e) => Some(expr_view(e)),
                None => None,
            },
        ),
    }
}

/// The ghost counterpart of a statement sequence.
pub open spec fn stmts_view(ss: Seq<Statement>) -> Seq<StmtV> {
    ss.map(|i: int, s: Statement| stmt_view(s))
}

/// A well-formed statement: its expressions are well formed.
pub open spec fn wf_stmt(s: StmtV) -> bool {
    match s {
        StmtV::Expression(e) => wf_expr(e),
        StmtV::Print(e) => wf_expr(e),
        StmtV::VariableDeclaration(_, init) => match init {
            Some(e) => wf_expr(e),
            None => true,
        },
    }
}

} // verus!
