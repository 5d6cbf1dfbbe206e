//! The expression model: a closed tagged variant, tree-shaped, with
//! exclusive ownership of children, and its ghost counterpart.

use vstd::prelude::*;

use crate::token::{token_view, Token, TokenV};

verus! {

/// An expression node. Operators and literal payloads are tokens.
#[derive(Debug, PartialEq)]
pub enum Expression {
    Literal(LiteralExpression),
    Binary(Box<BinaryExpression>),
    Grouping(Box<Expression>),
    Unary(Box<UnaryExpression>),
    VariableReference(String),
}

/// A binary operator application; both operands are owned exclusively by
/// this node.
#[derive(Debug, PartialEq)]
pub struct BinaryExpression {
    pub left: Expression,
    pub operator: Token,
    pub right: Expression,
}

impl BinaryExpression {
    pub fn new(left: Expression, operator: Token, right: Expression) -> (r: Self)
        ensures
            r.left == left,
            r.operator == operator,
            r.right == right,
    {
        Self { left, operator, right }
    }
}

/// A literal-category token as an expression.
#[derive(Debug, PartialEq)]
pub struct LiteralExpression {
    pub value: Token,
}

impl LiteralExpression {
    pub fn new(value: Token) -> (r: Self)
        ensures
            r.value == value,
    {
        Self { value }
    }
}

/// A unary operator application.
#[derive(Debug, PartialEq)]
pub struct UnaryExpression {
    pub operator: Token,
    pub expression: Expression,
}

impl UnaryExpression {
    pub fn new(operator: Token, expression: Expression) -> (r: Self)
        ensures
            r.operator == operator,
            r.expression == expression,
    {
        Self { operator, expression }
    }
}

/// The mathematical shape of an [`Expression`].
pub enum ExprV {
    Literal(TokenV),
    Binary(Box<ExprV>, TokenV, Box<ExprV>),
    Grouping(Box<ExprV>),
    Unary(TokenV, Box<ExprV>),
    VariableReference(Seq<char>),
}

/// The ghost counterpart of an expression tree.
pub open spec fn expr_view(e: Expression) -> ExprV
    decreases e,
{
    match e {
        Expression::Literal(l) => ExprV::Literal(token_view(l.value)),
        Expression::Binary(b) => ExprV::Binary(
            Box::new(expr_view(b.left)),
            token_view(b.operator),
            Box::new(expr_view(b.right)),
        ),
        Expression::Grouping(inner) => ExprV::Grouping(Box::new(expr_view(*inner))),
        Expression::Unary(u) => ExprV::Unary(token_view(u.operator), Box::new(expr_view(u.expression))),
        Expression::VariableReference(name) => ExprV::VariableReference(name@),
    }
}

/// Whether a token may stand as the payload of a literal expression.
pub open spec fn wf_literal(t: TokenV) -> bool {
    t matches TokenV::String(_) || t matches TokenV::Number(_) || t matches TokenV::Bool(_)
        || t matches TokenV::Nil
}

/// Whether a token is one of the binary operators the evaluator defines.
pub open spec fn wf_binary_operator(t: TokenV) -> bool {
    t matches TokenV::Minus || t matches TokenV::Plus || t matches TokenV::Slash
        || t matches TokenV::Star || t matches TokenV::Greater || t matches TokenV::GreaterEqual
        || t matches TokenV::Less || t matches TokenV::LessEqual || t matches TokenV::BangEqual
        || t matches TokenV::EqualEqual
}

/// Whether a token is one of the unary operators the evaluator defines.
pub open spec fn wf_unary_operator(t: TokenV) -> bool {
    t matches TokenV::Bang || t matches TokenV::Minus
}

/// A well-formed expression: every literal holds a literal-category token
/// and every operator is one the evaluator defines. The parser only builds
/// well-formed expressions.
pub open spec fn wf_expr(e: ExprV) -> bool
    decreases e,
{
    match e {
        ExprV::Literal(t) => wf_literal(t),
        ExprV::Binary(l, op, r) => wf_binary_operator(op) && wf_expr(*l) && wf_expr(*r),
        ExprV::Grouping(inner) => wf_expr(*inner),
        ExprV::Unary(op, inner) => wf_unary_operator(op) && wf_expr(*inner),
        ExprV::VariableReference(_) => true,
    }
}

/// Whether an expression reads the variable named `n`.
pub open spec fn expr_references(e: ExprV, n: Seq<char>) -> bool
    decreases e,
{
    match e {
        ExprV::Literal(_) => false,
        ExprV::Binary(l, _, r) => expr_references(*l, n) || expr_references(*r, n),
        ExprV::Grouping(inner) => expr_references(*inner, n),
        ExprV::Unary(_, inner) => expr_references(*inner, n),
        ExprV::VariableReference(m) => m == n,
    }
}

} // verus!
