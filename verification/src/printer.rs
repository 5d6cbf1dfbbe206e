//! Rendering of tokens, expressions and statements in fully-parenthesized
//! prefix form.

use vstd::prelude::*;
use vstd::string::StringExecFns;

use crate::expression::{
    expr_view, BinaryExpression, ExprV, Expression, LiteralExpression, UnaryExpression,
};
use crate::number::{number_text, render_number};
use crate::statement::{stmt_view, Statement, StmtV};
use crate::token::{token_view, Token, TokenV};

verus! {

/// The display text of a token: its payload for literal-carrying
/// categories, its lexeme otherwise.
pub open spec fn token_text(t: TokenV) -> Seq<char> {
    match t {
        TokenV::LeftParen => "("@,
        TokenV::RightParen => ")"@,
        TokenV::LeftBrace => "{"@,
        TokenV::RightBrace => "}"@,
        TokenV::Comma => ","@,
        TokenV::Dot => "."@,
        TokenV::Minus => "-"@,
        TokenV::Plus => "+"@,
        TokenV::Semicolon => ";"@,
        TokenV::Slash => "/"@,
        TokenV::Star => "*"@,
        TokenV::Bang => "!"@,
        TokenV::BangEqual => "!="@,
        TokenV::Equal => "="@,
        TokenV::EqualEqual => "=="@,
        TokenV::Greater => ">"@,
        TokenV::GreaterEqual => ">="@,
        TokenV::Less => "<"@,
        TokenV::LessEqual => "<="@,
        TokenV::Identifier(s) => s,
        TokenV::String(s) => s,
        TokenV::Number(bits) => number_text(bits),
        TokenV::Bool(b) => if b {
            "true"@
        } else {
            "false"@
        },
        TokenV::Nil => "nil"@,
        TokenV::And => "and"@,
        TokenV::Class => "class"@,
        TokenV::Else => "else"@,
        TokenV::Fun => "fun"@,
        TokenV::For => "for"@,
        TokenV::If => "if"@,
        TokenV::Or => "or"@,
        TokenV::Print => "print"@,
        TokenV::Return => "return"@,
        TokenV::Super => "super"@,
        TokenV::This => "this"@,
        TokenV::Var => "var"@,
        TokenV::While => "while"@,
    }
}

/// The fully-parenthesized prefix rendering of an expression.
pub open spec fn expr_text(e: ExprV) -> Seq<char>
    decreases e,
{
    match e {
        ExprV::Literal(t) => token_text(t),
        ExprV::Binary(l, op, r) => "("@ + token_text(op) + " "@ + expr_text(*l) + " "@ + expr_text(
            *r,
        ) + ")"@,
        ExprV::Grouping(inner) => "(group "@ + expr_text(*inner) + ")"@,
        ExprV::Unary(op, inner) => "("@ + token_text(op) + " "@ + expr_text(*inner) + ")"@,
        ExprV::VariableReference(n) => "(value_of "@ + n + ")"@,
    }
}

/// The prefix rendering of a statement.
pub open spec fn stmt_text(s: StmtV) -> Seq<char> {
    match s {
        StmtV::Expression(e) => "(expression "@ + expr_text(e) + ")"@,
        StmtV::Print(e) => "(print "@ + expr_text(e) + ")"@,
        StmtV::VariableDeclaration(n, init) => "(var "@ + n + " ("@ + (match init {
            Some(e) => expr_text(e),
            None => Seq::empty(),
        }) + "))"@,
    }
}

impl Token {
    /// The display text of this token.
    pub fn render(&self) -> (r: String)
        ensures
            r@ == token_text(token_view(*self)),
    {
        match self {
            Token::LeftParen => String::from_str("("),
            Token::RightParen => String::from_str(")"),
            Token::LeftBrace => String::from_str("{"),
            Token::RightBrace => String::from_str("}"),
            Token::Comma => String::from_str(","),
            Token::Dot => String::from_str("."),
            Token::Minus => String::from_str("-"),
            Token::Plus => String::from_str("+"),
            Token::Semicolon => String::from_str(";"),
            Token::Slash => String::from_str("/"),
            Token::Star => String::from_str("*"),
            Token::Bang => String::from_str("!"),
            Token::BangEqual => String::from_str("!="),
            Token::Equal => String::from_str("="),
            Token::EqualEqual => String::from_str("=="),
            Token::Greater => String::from_str(">"),
            Token::GreaterEqual => String::from_str(">="),
            Token::Less => String::from_str("<"),
            Token::LessEqual => String::from_str("<="),
            Token::Identifier(s) => s.clone(),
            Token::String(s) => s.clone(),
            Token::Number(bits) => render_number(*bits),
            Token::Bool(b) => if *b {
                String::from_str("true")
            } else {
                String::from_str("false")
            },
            Token::Nil => String::from_str("nil"),
            Token::And => String::from_str("and"),
            Token::Class => String::from_str("class"),
            Token::Else => String::from_str("else"),
            Token::Fun => String::from_str("fun"),
            Token::For => String::from_str("for"),
            Token::If => String::from_str("if"),
            Token::Or => String::from_str("or"),
            Token::Print => String::from_str("print"),
            Token::Return => String::from_str("return"),
            Token::Super => String::from_str("super"),
            Token::This => String::from_str("this"),
            Token::Var => String::from_str("var"),
            Token::While => String::from_str("while"),
        }
    }
}

impl Expression {
    /// The fully-parenthesized prefix rendering of this expression.
    pub fn render(&self) -> (r: String)
        ensures
            r@ == expr_text(expr_view(*self)),
        decreases *self,
    {
        match self {
            Expression::Literal(l) => l.render(),
            Expression::Binary(b) => b.render(),
            Expression::Unary(u) => u.render(),
            Expression::Grouping(inner) => {
                let mut out = String::from_str("(group ");
                let body = inner.render();
                out.append(body.as_str());
                out.append(")");
                out
            },
            Expression::VariableReference(n) => {
                let mut out = String::from_str("(value_of ");
                out.append(n.as_str());
                out.append(")");
                out
            },
        }
    }
}

impl LiteralExpression {
    /// The rendering of the literal's token.
    pub fn render(&self) -> (r: String)
        ensures
            r@ == token_text(token_view(self.value)),
    {
        self.value.render()
    }
}

impl BinaryExpression {
    /// `(operator left right)`.
    pub fn render(&self) -> (r: String)
        ensures
            r@ == "("@ + token_text(token_view(self.operator)) + " "@ + expr_text(
                expr_view(self.left),
            ) + " "@ + expr_text(expr_view(self.right)) + ")"@,
        decreases *self,
    {
        let mut out = String::from_str("(");
        let op = self.operator.render();
        out.append(op.as_str());
        out.append(" ");
        let left = self.left.render();
        out.append(left.as_str());
        out.append(" ");
        let right = self.right.render();
        out.append(right.as_str());
        out.append(")");
        out
    }
}

impl UnaryExpression {
    /// `(operator operand)`.
    pub fn render(&self) -> (r: String)
        ensures
            r@ == "("@ + token_text(token_view(self.operator)) + " "@ + expr_text(
                expr_view(self.expression),
            ) + ")"@,
        decreases *self,
    {
        let mut out = String::from_str("(");
        let op = self.operator.render();
        out.append(op.as_str());
        out.append(" ");
        let inner = self.expression.render();
        out.append(inner.as_str());
        out.append(")");
        out
    }
}

impl Statement {
    /// The prefix rendering of this statement.
    pub fn render(&self) -> (r: String)
        ensures
            r@ == stmt_text(stmt_view(*self)),
    {
        match self {
            Statement::Expression(e) => {
                let mut out = String::from_str("(expression ");
                let body = e.render();
                out.append(body.as_str());
                out.append(")");
                out
            },
            Statement::Print(e) => {
                let mut out = String::from_str("(print ");
                let body = e.render();
                out.append(body.as_str());
                out.append(")");
                out
            },
            Statement::VariableDeclaration(name, init) => {
                let mut out = String::from_str("(var ");
                out.append(name.as_str());
                out.append(" (");
                match init {
                    Some(e) => {
                        let body = e.render();
                        out.append(body.as_str());
                    },
                    None => {},
                }
                out.append("))");
                out
            },
        }
    }
}

} // verus!
