//! The parser: recursive descent over a token sequence, producing a
//! statement sequence, with operator-precedence climbing for expressions
//! and panic-mode recovery at statement level.
//!
//! The executable [`Parser`] is specified against a functional model: one
//! spec function per grammar rule says exactly which expression or
//! statement is produced, where the cursor lands, and which errors are
//! recorded.
//!
//! Grammar, highest precedence last:
//!
//! ```text
//! program     -> declaration* end
//! declaration -> varDecl | statement
//! varDecl     -> "var" IDENT ( "=" expression )? ";"
//! statement   -> printStmt | exprStmt
//! printStmt   -> "print" expression ";"
//! exprStmt    -> expression ";"
//! expression  -> equality
//! equality    -> comparison ( ("!="|"==") comparison )*
//! comparison  -> term ( (">"|">="|"<"|"<=") term )*
//! term        -> factor ( ("-"|"+") factor )*
//! factor      -> unary ( ("/"|"*") unary )*
//! unary       -> ("!"|"-") unary | primary
//! primary     -> IDENT | literal | "(" expression ")"
//! ```

use vstd::prelude::*;
use vstd::string::StringExecFns;

use crate::error::ParserErrorReporter;
use crate::expression::{
    expr_view, wf_expr, BinaryExpression, ExprV, Expression, LiteralExpression, UnaryExpression,
};
use crate::statement::{stmt_view, stmts_view, wf_stmt, Statement, StmtV};
use crate::token::{
    spec_is_literal, spec_is_start_of_statement, token_view, tokens_view, Token, TokenV,
};

verus! {

/// One parse error, with the offending token where one was seen.
#[derive(Debug, PartialEq)]
pub enum ParserError {
    /// A grouping was opened and its `)` never came.
    UnclosedGrouping,
    /// A statement was not closed by `;`.
    UnterminatedStatement,
    /// A token that cannot begin an expression (or, after `var`, is not an
    /// identifier) was found.
    ExpectedValidExpression(Token),
    /// The input ended where an expression or identifier was expected.
    /// Deliberately recorded in the ordinary batch rather than treated as
    /// a hard failure distinct from it: the parser is total and never
    /// panics, so this case synchronizes and continues like every other
    /// parse error.
    UnexpectedEndOfInput,
}

impl ParserError {
    /// A one-line diagnostic for this error, naming the offending token
    /// where one was seen.
    pub fn message(&self) -> (r: String)
        ensures
            *self == ParserError::UnclosedGrouping ==> r@ == "Unclosed delimiter, expected ')'"@,
            *self == ParserError::UnterminatedStatement ==> r@
                == "Unterminated statement, expected ';'"@,
            ({
                match parser_err_view(*self) {
                    ParseErrV::ExpectedValidExpression(t) => r@
                        == "Expected valid expression, found '"@ + crate::printer::token_text(t)
                        + "'"@,
                    _ => true,
                }
            }),
            *self == ParserError::UnexpectedEndOfInput ==> r@
                == "Expected valid expression, found end of input"@,
    {
        match self {
            ParserError::UnclosedGrouping => String::from_str("Unclosed delimiter, expected ')'"),
            ParserError::UnterminatedStatement => String::from_str(
                "Unterminated statement, expected ';'",
            ),
            ParserError::ExpectedValidExpression(t) => {
                let mut out = String::from_str("Expected valid expression, found '");
                let found = t.render();
                out.append(found.as_str());
                out.append("'");
                out
            },
            ParserError::UnexpectedEndOfInput => String::from_str(
                "Expected valid expression, found end of input",
            ),
        }
    }
}

/// The mathematical shape of a [`ParserError`].
pub enum ParseErrV {
    UnclosedGrouping,
    UnterminatedStatement,
    ExpectedValidExpression(TokenV),
    UnexpectedEndOfInput,
}

/// The ghost counterpart of a parse error.
pub open spec fn parser_err_view(e: ParserError) -> ParseErrV {
    match e {
        ParserError::UnclosedGrouping => ParseErrV::UnclosedGrouping,
        ParserError::UnterminatedStatement => ParseErrV::UnterminatedStatement,
        ParserError::ExpectedValidExpression(t) => ParseErrV::ExpectedValidExpression(
            token_view(t),
        ),
        ParserError::UnexpectedEndOfInput => ParseErrV::UnexpectedEndOfInput,
    }
}

/// The ghost counterpart of a sequence of parse errors.
pub open spec fn errs_view(es: Seq<ParserError>) -> Seq<ParseErrV> {
    es.map(|i: int, e: ParserError| parser_err_view(e))
}

/// The outcome of parsing one expression-level rule: the expression if one
/// was produced, the cursor after the attempt, and the errors recorded
/// during it, in order.
pub struct PExpr {
    pub e: Option<ExprV>,
    pub j: int,
    pub errs: Seq<ParseErrV>,
}

/// The outcome of parsing one statement-level rule.
pub struct PStmt {
    pub s: Option<StmtV>,
    pub j: int,
    pub errs: Seq<ParseErrV>,
}

/// `j` clamped into `[lo, hi]`; the identity whenever `lo <= j <= hi`.
/// Only used to make the termination of the spec parser manifest: the
/// executable parser proves every use is the identity.
pub open spec fn clampi(j: int, lo: int, hi: int) -> int {
    if lo <= j && j <= hi {
        j
    } else if lo <= hi {
        lo
    } else {
        hi
    }
}

pub open spec fn is_equality_op(t: TokenV) -> bool {
    t matches TokenV::BangEqual || t matches TokenV::EqualEqual
}

pub open spec fn is_comparison_op(t: TokenV) -> bool {
    t matches TokenV::Greater || t matches TokenV::GreaterEqual || t matches TokenV::Less
        || t matches TokenV::LessEqual
}

pub open spec fn is_term_op(t: TokenV) -> bool {
    t matches TokenV::Minus || t matches TokenV::Plus
}

pub open spec fn is_factor_op(t: TokenV) -> bool {
    t matches TokenV::Slash || t matches TokenV::Star
}

pub open spec fn is_unary_op(t: TokenV) -> bool {
    t matches TokenV::Bang || t matches TokenV::Minus
}

/// `primary -> IDENT | literal | "(" expression ")"`. The token at the
/// cursor is always consumed; a token that cannot begin an expression is
/// recorded as an error, as is an unclosed grouping or end of input.
pub open spec fn spec_primary(toks: Seq<TokenV>, i: int) -> PExpr
    decreases toks.len() - i, 0int,
{
    let len = toks.len() as int;
    if i >= len {
        PExpr { e: None, j: i, errs: seq![ParseErrV::UnexpectedEndOfInput] }
    } else {
        match toks[i] {
            TokenV::Identifier(n) => PExpr {
                e: Some(ExprV::VariableReference(n)),
                j: i + 1,
                errs: Seq::empty(),
            },
            TokenV::LeftParen => {
                let r = spec_expression(toks, clampi(i + 1, i + 1, len));
                match r.e {
                    None => PExpr { e: None, j: r.j, errs: r.errs },
                    Some(inner) => if r.j < len && (toks[r.j] matches TokenV::RightParen) {
                        PExpr {
                            e: Some(ExprV::Grouping(Box::new(inner))),
                            j: r.j + 1,
                            errs: r.errs,
                        }
                    } else {
                        PExpr {
                            e: None,
                            j: r.j,
                            errs: r.errs + seq![ParseErrV::UnclosedGrouping],
                        }
                    },
                }
            },
            t => if spec_is_literal(t) {
                PExpr { e: Some(ExprV::Literal(t)), j: i + 1, errs: Seq::empty() }
            } else {
                PExpr { e: None, j: i + 1, errs: seq![ParseErrV::ExpectedValidExpression(t)] }
            },
        }
    }
}

/// `unary -> ("!"|"-") unary | primary`.
pub open spec fn spec_unary(toks: Seq<TokenV>, i: int) -> PExpr
    decreases toks.len() - i, 1int,
{
    let len = toks.len() as int;
    if i < len && is_unary_op(toks[i]) {
        let r = spec_unary(toks, i + 1);
        match r.e {
            Some(inner) => PExpr {
                e: Some(ExprV::Unary(toks[i], Box::new(inner))),
                j: r.j,
                errs: r.errs,
            },
            None => r,
        }
    } else {
        spec_primary(toks, i)
    }
}

/// The fold of `factor`'s trailing `( ("/"|"*") unary )*`, left
/// associative.
pub open spec fn spec_factor_rest(toks: Seq<TokenV>, i: int, left: ExprV, errs: Seq<ParseErrV>) -> PExpr
    decreases toks.len() - i, 2int,
{
    let len = toks.len() as int;
    if i < len && is_factor_op(toks[i]) {
        let r = spec_unary(toks, i + 1);
        match r.e {
            None => PExpr { e: None, j: r.j, errs: errs + r.errs },
            Some(right) => spec_factor_rest(
                toks,
                clampi(r.j, i + 2, len),
                ExprV::Binary(Box::new(left), toks[i], Box::new(right)),
                errs + r.errs,
            ),
        }
    } else {
        PExpr { e: Some(left), j: i, errs }
    }
}

/// `factor -> unary ( ("/"|"*") unary )*`.
pub open spec fn spec_factor(toks: Seq<TokenV>, i: int) -> PExpr
    decreases toks.len() - i, 3int,
{
    let len = toks.len() as int;
    let r = spec_unary(toks, i);
    match r.e {
        None => r,
        Some(left) => if i < len {
            spec_factor_rest(toks, clampi(r.j, i + 1, len), left, r.errs)
        } else {
            r
        },
    }
}

/// The fold of `term`'s trailing `( ("-"|"+") factor )*`.
pub open spec fn spec_term_rest(toks: Seq<TokenV>, i: int, left: ExprV, errs: Seq<ParseErrV>) -> PExpr
    decreases toks.len() - i, 4int,
{
    let len = toks.len() as int;
    if i < len && is_term_op(toks[i]) {
        let r = spec_factor(toks, i + 1);
        match r.e {
            None => PExpr { e: None, j: r.j, errs: errs + r.errs },
            Some(right) => spec_term_rest(
                toks,
                clampi(r.j, i + 2, len),
                ExprV::Binary(Box::new(left), toks[i], Box::new(right)),
                errs + r.errs,
            ),
        }
    } else {
        PExpr { e: Some(left), j: i, errs }
    }
}

/// `term -> factor ( ("-"|"+") factor )*`.
pub open spec fn spec_term(toks: Seq<TokenV>, i: int) -> PExpr
    decreases toks.len() - i, 5int,
{
    let len = toks.len() as int;
    let r = spec_factor(toks, i);
    match r.e {
        None => r,
        Some(left) => if i < len {
            spec_term_rest(toks, clampi(r.j, i + 1, len), left, r.errs)
        } else {
            r
        },
    }
}

/// The fold of `comparison`'s trailing `( (">"|">="|"<"|"<=") term )*`.
pub open spec fn spec_comparison_rest(
    toks: Seq<TokenV>,
    i: int,
    left: ExprV,
    errs: Seq<ParseErrV>,
) -> PExpr
    decreases toks.len() - i, 6int,
{
    let len = toks.len() as int;
    if i < len && is_comparison_op(toks[i]) {
        let r = spec_term(toks, i + 1);
        match r.e {
            None => PExpr { e: None, j: r.j, errs: errs + r.errs },
            Some(right) => spec_comparison_rest(
                toks,
                clampi(r.j, i + 2, len),
                ExprV::Binary(Box::new(left), toks[i], Box::new(right)),
                errs + r.errs,
            ),
        }
    } else {
        PExpr { e: Some(left), j: i, errs }
    }
}

/// `comparison -> term ( (">"|">="|"<"|"<=") term )*`.
pub open spec fn spec_comparison(toks: Seq<TokenV>, i: int) -> PExpr
    decreases toks.len() - i, 7int,
{
    let len = toks.len() as int;
    let r = spec_term(toks, i);
    match r.e {
        None => r,
        Some(left) => if i < len {
            spec_comparison_rest(toks, clampi(r.j, i + 1, len), left, r.errs)
        } else {
            r
        },
    }
}

/// The fold of `equality`'s trailing `( ("!="|"==") comparison )*`.
pub open spec fn spec_equality_rest(toks: Seq<TokenV>, i: int, left: ExprV, errs: Seq<ParseErrV>) -> PExpr
    decreases toks.len() - i, 8int,
{
    let len = toks.len() as int;
    if i < len && is_equality_op(toks[i]) {
        let r = spec_comparison(toks, i + 1);
        match r.e {
            None => PExpr { e: None, j: r.j, errs: errs + r.errs },
            Some(right) => spec_equality_rest(
                toks,
                clampi(r.j, i + 2, len),
                ExprV::Binary(Box::new(left), toks[i], Box::new(right)),
                errs + r.errs,
            ),
        }
    } else {
        PExpr { e: Some(left), j: i, errs }
    }
}

/// `equality -> comparison ( ("!="|"==") comparison )*`.
pub open spec fn spec_equality(toks: Seq<TokenV>, i: int) -> PExpr
    decreases toks.len() - i, 9int,
{
    let len = toks.len() as int;
    let r = spec_comparison(toks, i);
    match r.e {
        None => r,
        Some(left) => if i < len {
            spec_equality_rest(toks, clampi(r.j, i + 1, len), left, r.errs)
        } else {
            r
        },
    }
}

/// `expression -> equality`.
pub open spec fn spec_expression(toks: Seq<TokenV>, i: int) -> PExpr
    decreases toks.len() - i, 10int,
{
    spec_equality(toks, i)
}

/// `varDecl`'s tail, entered with `var` already consumed: an identifier,
/// an optional `= expression`, and the closing `;`. A missing identifier
/// or semicolon is recorded as an error.
pub open spec fn spec_var_declaration(toks: Seq<TokenV>, i: int) -> PStmt
    decreases toks.len() - i, 11int,
{
    let len = toks.len() as int;
    if i < len && (toks[i] matches TokenV::Identifier(_)) {
        let n = toks[i]->Identifier_0;
        if i + 1 < len && (toks[i + 1] matches TokenV::Equal) {
            let r = spec_expression(toks, clampi(i + 2, i + 2, len));
            match r.e {
                None => PStmt { s: None, j: r.j, errs: r.errs },
                Some(e) => if r.j < len && (toks[r.j] matches TokenV::Semicolon) {
                    PStmt {
                        s: Some(StmtV::VariableDeclaration(n, Some(e))),
                        j: r.j + 1,
                        errs: r.errs,
                    }
                } else {
                    PStmt { s: None, j: r.j, errs: r.errs + seq![ParseErrV::UnterminatedStatement] }
                },
            }
        } else {
            if i + 1 < len && (toks[i + 1] matches TokenV::Semicolon) {
                PStmt { s: Some(StmtV::VariableDeclaration(n, None)), j: i + 2, errs: Seq::empty() }
            } else {
                PStmt { s: None, j: i + 1, errs: seq![ParseErrV::UnterminatedStatement] }
            }
        }
    } else if i >= len {
        PStmt { s: None, j: i, errs: seq![ParseErrV::UnexpectedEndOfInput] }
    } else {
        PStmt { s: None, j: i, errs: seq![ParseErrV::ExpectedValidExpression(toks[i])] }
    }
}

/// `printStmt`'s tail, entered with `print` already consumed: an
/// expression and the closing `;`.
pub open spec fn spec_print_statement(toks: Seq<TokenV>, i: int) -> PStmt
    decreases toks.len() - i, 11int,
{
    let len = toks.len() as int;
    let r = spec_expression(toks, i);
    match r.e {
        None => PStmt { s: None, j: r.j, errs: r.errs },
        Some(e) => if r.j < len && (toks[r.j] matches TokenV::Semicolon) {
            PStmt { s: Some(StmtV::Print(e)), j: r.j + 1, errs: r.errs }
        } else {
            PStmt { s: None, j: r.j, errs: r.errs + seq![ParseErrV::UnterminatedStatement] }
        },
    }
}

/// `exprStmt -> expression ";"`.
pub open spec fn spec_expression_statement(toks: Seq<TokenV>, i: int) -> PStmt
    decreases toks.len() - i, 11int,
{
    let len = toks.len() as int;
    let r = spec_expression(toks, i);
    match r.e {
        None => PStmt { s: None, j: r.j, errs: r.errs },
        Some(e) => if r.j < len && (toks[r.j] matches TokenV::Semicolon) {
            PStmt { s: Some(StmtV::Expression(e)), j: r.j + 1, errs: r.errs }
        } else {
            PStmt { s: None, j: r.j, errs: r.errs + seq![ParseErrV::UnterminatedStatement] }
        },
    }
}

/// `statement -> printStmt | exprStmt`.
pub open spec fn spec_statement(toks: Seq<TokenV>, i: int) -> PStmt
    decreases toks.len() - i, 12int,
{
    let len = toks.len() as int;
    if i < len && (toks[i] matches TokenV::Print) {
        spec_print_statement(toks, i + 1)
    } else {
        spec_expression_statement(toks, i)
    }
}

/// `declaration -> varDecl | statement`.
pub open spec fn spec_declaration(toks: Seq<TokenV>, i: int) -> PStmt
    decreases toks.len() - i, 13int,
{
    let len = toks.len() as int;
    if i < len && (toks[i] matches TokenV::Var) {
        spec_var_declaration(toks, i + 1)
    } else {
        spec_statement(toks, i)
    }
}

/// Panic-mode synchronization: discard tokens until either the input is
/// exhausted, a `;` has just been consumed, or the next token begins a new
/// declaration or statement.
pub open spec fn spec_sync(toks: Seq<TokenV>, i: int) -> int
    decreases toks.len() - i,
{
    let len = toks.len() as int;
    if i >= len {
        i
    } else if (toks[i] matches TokenV::Semicolon) {
        i + 1
    } else if i + 1 >= len {
        i + 1
    } else if spec_is_start_of_statement(toks[i + 1]) {
        i + 1
    } else {
        spec_sync(toks, i + 2)
    }
}

/// Synchronization never moves backwards, always past the current token,
/// and never past the end.
pub proof fn lemma_sync_bounds(toks: Seq<TokenV>, i: int)
    requires
        i <= toks.len(),
    ensures
        i < toks.len() ==> i + 1 <= spec_sync(toks, i) <= toks.len(),
        i == toks.len() ==> spec_sync(toks, i) == i,
    decreases toks.len() - i,
{
    let len = toks.len() as int;
    if i < len && !(toks[i] matches TokenV::Semicolon) && i + 1 < len && !spec_is_start_of_statement(
        toks[i + 1],
    ) {
        lemma_sync_bounds(toks, i + 2);
    }
}

/// The whole program: declarations parsed in order; after a failed one,
/// the cursor synchronizes and parsing continues, the errors accumulating.
pub open spec fn spec_try_parse(toks: Seq<TokenV>, i: int) -> (Seq<StmtV>, Seq<ParseErrV>)
    decreases toks.len() - i,
{
    let len = toks.len() as int;
    if i >= len {
        (Seq::empty(), Seq::empty())
    } else {
        let d = spec_declaration(toks, i);
        match d.s {
            Some(s) => {
                let rest = spec_try_parse(toks, clampi(d.j, i + 1, len));
                (seq![s] + rest.0, d.errs + rest.1)
            },
            None => {
                let k = spec_sync(toks, clampi(d.j, i, len));
                let rest = spec_try_parse(toks, clampi(k, i + 1, len));
                (rest.0, d.errs + rest.1)
            },
        }
    }
}

proof fn lemma_concat_empty<A>(s: Seq<A>)
    ensures
        s + Seq::<A>::empty() == s,
{
    assert(s + Seq::<A>::empty() =~= s);
}

proof fn lemma_push_is_concat<A>(s: Seq<A>, x: A)
    ensures
        s.push(x) == s + seq![x],
{
    assert(s.push(x) =~= s + seq![x]);
}

proof fn lemma_concat_assoc<A>(a: Seq<A>, b: Seq<A>, c: Seq<A>)
    ensures
        (a + b) + c == a + (b + c),
{
    assert((a + b) + c =~= a + (b + c));
}

/// The recursive-descent parser over an owned token sequence.
#[derive(Debug)]
pub struct Parser {
    tokens: Vec<Token>,
    pos: usize,
    error_reporter: ParserErrorReporter,
}

impl Parser {
    /// The ghost token sequence being parsed.
    pub closed spec fn toks(&self) -> Seq<TokenV> {
        tokens_view(self.tokens@)
    }

    /// The cursor: the index of the next token to consume.
    pub closed spec fn cursor(&self) -> int {
        self.pos as int
    }

    /// The errors recorded so far, in order.
    pub closed spec fn errs(&self) -> Seq<ParseErrV> {
        self.error_reporter.view()
    }

    /// The cursor never leaves the token sequence.
    pub closed spec fn wf(&self) -> bool {
        self.pos <= self.tokens@.len()
    }

    /// A fresh parser over the given tokens.
    pub fn new(tokens: Vec<Token>) -> (p: Parser)
        ensures
            p.wf(),
            p.toks() == tokens_view(tokens@),
            p.cursor() == 0,
            p.errs() == Seq::<ParseErrV>::empty(),
    {
        Parser { tokens, pos: 0, error_reporter: ParserErrorReporter::new() }
    }

    /// Record one error.
    fn add_error(&mut self, error: ParserError)
        requires
            old(self).wf(),
        ensures
            final(self).wf(),
            final(self).toks() == old(self).toks(),
            final(self).cursor() == old(self).cursor(),
            final(self).errs() == old(self).errs() + seq![parser_err_view(error)],
    {
        let ghost ev = parser_err_view(error);
        let ghost before = self.errs();
        self.error_reporter.add_parser_error(error);
        proof {
            lemma_push_is_concat(before, ev);
        }
    }

    /// Consume the token at the cursor if it is an equality operator.
    fn match_equality_op(&mut self) -> (r: Option<Token>)
        requires
            old(self).wf(),
        ensures
            final(self).wf(),
            final(self).toks() == old(self).toks(),
            final(self).errs() == old(self).errs(),
            ({
                let t = old(self).toks();
                let i = old(self).cursor();
                if i < t.len() && is_equality_op(t[i]) {
                    match r {
                        Some(op) => token_view(op) == t[i] && final(self).cursor() == i + 1,
                        None => false,
                    }
                } else {
                    r is None && *final(self) == *old(self)
                }
            }),
    {
        if self.pos < self.tokens.len() && matches!(
            self.tokens[self.pos],
            Token::BangEqual | Token::EqualEqual,
        ) {
            let op = self.tokens[self.pos].duplicate();
            self.pos = self.pos + 1;
            Some(op)
        } else {
            None
        }
    }

    /// Consume the token at the cursor if it is a comparison operator.
    fn match_comparison_op(&mut self) -> (r: Option<Token>)
        requires
            old(self).wf(),
        ensures
            final(self).wf(),
            final(self).toks() == old(self).toks(),
            final(self).errs() == old(self).errs(),
            ({
                let t = old(self).toks();
                let i = old(self).cursor();
                if i < t.len() && is_comparison_op(t[i]) {
                    match r {
                        Some(op) => token_view(op) == t[i] && final(self).cursor() == i + 1,
                        None => false,
                    }
                } else {
                    r is None && *final(self) == *old(self)
                }
            }),
    {
        if self.pos < self.tokens.len() && matches!(
            self.tokens[self.pos],
            Token::Greater | Token::GreaterEqual | Token::Less | Token::LessEqual,
        ) {
            let op = self.tokens[self.pos].duplicate();
            self.pos = self.pos + 1;
            Some(op)
        } else {
            None
        }
    }

    /// Consume the token at the cursor if it is `-` or `+`.
    fn match_term_op(&mut self) -> (r: Option<Token>)
        requires
            old(self).wf(),
        ensures
            final(self).wf(),
            final(self).toks() == old(self).toks(),
            final(self).errs() == old(self).errs(),
            ({
                let t = old(self).toks();
                let i = old(self).cursor();
                if i < t.len() && is_term_op(t[i]) {
                    match r {
                        Some(op) => token_view(op) == t[i] && final(self).cursor() == i + 1,
                        None => false,
                    }
                } else {
                    r is None && *final(self) == *old(self)
                }
            }),
    {
        if self.pos < self.tokens.len() && matches!(
            self.tokens[self.pos],
            Token::Minus | Token::Plus,
        ) {
            let op = self.tokens[self.pos].duplicate();
            self.pos = self.pos + 1;
            Some(op)
        } else {
            None
        }
    }

    /// Consume the token at the cursor if it is `/` or `*`.
    fn match_factor_op(&mut self) -> (r: Option<Token>)
        requires
            old(self).wf(),
        ensures
            final(self).wf(),
            final(self).toks() == old(self).toks(),
            final(self).errs() == old(self).errs(),
            ({
                let t = old(self).toks();
                let i = old(self).cursor();
                if i < t.len() && is_factor_op(t[i]) {
                    match r {
                        Some(op) => token_view(op) == t[i] && final(self).cursor() == i + 1,
                        None => false,
                    }
                } else {
                    r is None && *final(self) == *old(self)
                }
            }),
    {
        if self.pos < self.tokens.len() && matches!(
            self.tokens[self.pos],
            Token::Slash | Token::Star,
        ) {
            let op = self.tokens[self.pos].duplicate();
            self.pos = self.pos + 1;
            Some(op)
        } else {
            None
        }
    }

    /// Consume the token at the cursor if it is `!` or `-`.
    fn match_unary_op(&mut self) -> (r: Option<Token>)
        requires
            old(self).wf(),
        ensures
            final(self).wf(),
            final(self).toks() == old(self).toks(),
            final(self).errs() == old(self).errs(),
            ({
                let t = old(self).toks();
                let i = old(self).cursor();
                if i < t.len() && is_unary_op(t[i]) {
                    match r {
                        Some(op) => token_view(op) == t[i] && final(self).cursor() == i + 1,
                        None => false,
                    }
                } else {
                    r is None && *final(self) == *old(self)
                }
            }),
    {
        if self.pos < self.tokens.len() && matches!(
            self.tokens[self.pos],
            Token::Bang | Token::Minus,
        ) {
            let op = self.tokens[self.pos].duplicate();
            self.pos = self.pos + 1;
            Some(op)
        } else {
            None
        }
    }

    /// Consume the token at the cursor if it is `;`.
    fn match_semicolon(&mut self) -> (m: bool)
        requires
            old(self).wf(),
        ensures
            final(self).wf(),
            final(self).toks() == old(self).toks(),
            final(self).errs() == old(self).errs(),
            ({
                let t = old(self).toks();
                let i = old(self).cursor();
                if i < t.len() && (t[i] matches TokenV::Semicolon) {
                    m && final(self).cursor() == i + 1
                } else {
                    !m && *final(self) == *old(self)
                }
            }),
    {
        if self.pos < self.tokens.len() && matches!(self.tokens[self.pos], Token::Semicolon) {
            self.pos = self.pos + 1;
            true
        } else {
            false
        }
    }

    /// Consume the token at the cursor if it is `)`.
    fn match_right_paren(&mut self) -> (m: bool)
        requires
            old(self).wf(),
        ensures
            final(self).wf(),
            final(self).toks() == old(self).toks(),
            final(self).errs() == old(self).errs(),
            ({
                let t = old(self).toks();
                let i = old(self).cursor();
                if i < t.len() && (t[i] matches TokenV::RightParen) {
                    m && final(self).cursor() == i + 1
                } else {
                    !m && *final(self) == *old(self)
                }
            }),
    {
        if self.pos < self.tokens.len() && matches!(self.tokens[self.pos], Token::RightParen) {
            self.pos = self.pos + 1;
            true
        } else {
            false
        }
    }

    /// Consume the token at the cursor if it is `=`.
    fn match_equal(&mut self) -> (m: bool)
        requires
            old(self).wf(),
        ensures
            final(self).wf(),
            final(self).toks() == old(self).toks(),
            final(self).errs() == old(self).errs(),
            ({
                let t = old(self).toks();
                let i = old(self).cursor();
                if i < t.len() && (t[i] matches TokenV::Equal) {
                    m && final(self).cursor() == i + 1
                } else {
                    !m && *final(self) == *old(self)
                }
            }),
    {
        if self.pos < self.tokens.len() && matches!(self.tokens[self.pos], Token::Equal) {
            self.pos = self.pos + 1;
            true
        } else {
            false
        }
    }

    /// Consume the token at the cursor if it is `print`.
    fn match_print(&mut self) -> (m: bool)
        requires
            old(self).wf(),
        ensures
            final(self).wf(),
            final(self).toks() == old(self).toks(),
            final(self).errs() == old(self).errs(),
            ({
                let t = old(self).toks();
                let i = old(self).cursor();
                if i < t.len() && (t[i] matches TokenV::Print) {
                    m && final(self).cursor() == i + 1
                } else {
                    !m && *final(self) == *old(self)
                }
            }),
    {
        if self.pos < self.tokens.len() && matches!(self.tokens[self.pos], Token::Print) {
            self.pos = self.pos + 1;
            true
        } else {
            false
        }
    }

    /// Consume the token at the cursor if it is `var`.
    fn match_var(&mut self) -> (m: bool)
        requires
            old(self).wf(),
        ensures
            final(self).wf(),
            final(self).toks() == old(self).toks(),
            final(self).errs() == old(self).errs(),
            ({
                let t = old(self).toks();
                let i = old(self).cursor();
                if i < t.len() && (t[i] matches TokenV::Var) {
                    m && final(self).cursor() == i + 1
                } else {
                    !m && *final(self) == *old(self)
                }
            }),
    {
        if self.pos < self.tokens.len() && matches!(self.tokens[self.pos], Token::Var) {
            self.pos = self.pos + 1;
            true
        } else {
            false
        }
    }

    /// `primary -> IDENT | literal | "(" expression ")"`; exactly
    /// [`spec_primary`] on the current state.
    fn parse_primary(&mut self) -> (r: Option<Expression>)
        requires
            old(self).wf(),
        ensures
            final(self).wf(),
            final(self).toks() == old(self).toks(),
            old(self).cursor() <= final(self).cursor() <= old(self).toks().len(),
            r is Some ==> final(self).cursor() > old(self).cursor(),
            ({
                let pr = spec_primary(old(self).toks(), old(self).cursor());
                &&& pr.j == final(self).cursor()
                &&& final(self).errs() == old(self).errs() + pr.errs
                &&& (match r {
                    Some(e) => pr.e == Some(expr_view(e)) && wf_expr(expr_view(e)),
                    None => pr.e is None,
                })
            }),
        decreases self.tokens@.len() - self.pos, 0int,
    {
        let ghost t = self.toks();
        let ghost i = self.cursor();
        let ghost errs0 = self.errs();
        if self.pos >= self.tokens.len() {
            self.add_error(ParserError::UnexpectedEndOfInput);
            return None;
        }
        let tok = self.tokens[self.pos].duplicate();
        self.pos = self.pos + 1;
        match tok {
            Token::Identifier(name) => {
                proof {
                    lemma_concat_empty(errs0);
                }
                Some(Expression::VariableReference(name))
            },
            Token::LeftParen => {
                let inner = match self.parse_expression() {
                    Some(e) => e,
                    None => {
                        return None;
                    },
                };
                let ghost r_inner = spec_expression(t, i + 1);
                if self.match_right_paren() {
                    Some(Expression::Grouping(Box::new(inner)))
                } else {
                    self.add_error(ParserError::UnclosedGrouping);
                    proof {
                        lemma_concat_assoc(errs0, r_inner.errs, seq![ParseErrV::UnclosedGrouping]);
                    }
                    None
                }
            },
            t2 => {
                if t2.is_literal() {
                    proof {
                        lemma_concat_empty(errs0);
                    }
                    return Some(Expression::Literal(LiteralExpression::new(t2)));
                }
                self.add_error(ParserError::ExpectedValidExpression(t2));
                None
            },
        }
    }

    /// `unary -> ("!"|"-") unary | primary`; exactly [`spec_unary`].
    fn parse_unary_expression(&mut self) -> (r: Option<Expression>)
        requires
            old(self).wf(),
        ensures
            final(self).wf(),
            final(self).toks() == old(self).toks(),
            old(self).cursor() <= final(self).cursor() <= old(self).toks().len(),
            r is Some ==> final(self).cursor() > old(self).cursor(),
            ({
                let pr = spec_unary(old(self).toks(), old(self).cursor());
                &&& pr.j == final(self).cursor()
                &&& final(self).errs() == old(self).errs() + pr.errs
                &&& (match r {
                    Some(e) => pr.e == Some(expr_view(e)) && wf_expr(expr_view(e)),
                    None => pr.e is None,
                })
            }),
        decreases self.tokens@.len() - self.pos, 1int,
    {
        match self.match_unary_op() {
            Some(op) => match self.parse_unary_expression() {
                Some(e) => Some(Expression::Unary(Box::new(UnaryExpression::new(op, e)))),
                None => None,
            },
            None => self.parse_primary(),
        }
    }

    /// `factor -> unary ( ("/"|"*") unary )*`; exactly [`spec_factor`].
    #[verifier::loop_isolation(false)]
    fn factor(&mut self) -> (r: Option<Expression>)
        requires
            old(self).wf(),
        ensures
            final(self).wf(),
            final(self).toks() == old(self).toks(),
            old(self).cursor() <= final(self).cursor() <= old(self).toks().len(),
            r is Some ==> final(self).cursor() > old(self).cursor(),
            ({
                let pr = spec_factor(old(self).toks(), old(self).cursor());
                &&& pr.j == final(self).cursor()
                &&& final(self).errs() == old(self).errs() + pr.errs
                &&& (match r {
                    Some(e) => pr.e == Some(expr_view(e)) && wf_expr(expr_view(e)),
                    None => pr.e is None,
                })
            }),
        decreases self.tokens@.len() - self.pos, 3int,
    {
        let ghost t = self.toks();
        let ghost i0 = self.cursor();
        let ghost errs0 = self.errs();
        let first = self.parse_unary_expression();
        let mut expr = match first {
            Some(e) => e,
            None => {
                return None;
            },
        };
        let ghost mut emitted = spec_unary(t, i0).errs;
        loop
            invariant
                self.wf(),
                self.toks() == t,
                i0 < self.cursor() <= t.len(),
                wf_expr(expr_view(expr)),
                self.errs() == errs0 + emitted,
                spec_factor(t, i0) == spec_factor_rest(t, self.cursor(), expr_view(expr), emitted),
            decreases t.len() - self.cursor(),
        {
            let ghost c = self.cursor();
            let ghost left_v = expr_view(expr);
            let op = match self.match_factor_op() {
                Some(op) => op,
                None => {
                    return Some(expr);
                },
            };
            let right = match self.parse_unary_expression() {
                Some(e) => e,
                None => {
                    proof {
                        lemma_concat_assoc(errs0, emitted, spec_unary(t, c + 1).errs);
                    }
                    return None;
                },
            };
            proof {
                lemma_concat_assoc(errs0, emitted, spec_unary(t, c + 1).errs);
                emitted = emitted + spec_unary(t, c + 1).errs;
            }
            expr = Expression::Binary(Box::new(BinaryExpression::new(expr, op, right)));
        }
    }

    /// `term -> factor ( ("-"|"+") factor )*`; exactly [`spec_term`].
    #[verifier::loop_isolation(false)]
    fn term(&mut self) -> (r: Option<Expression>)
        requires
            old(self).wf(),
        ensures
            final(self).wf(),
            final(self).toks() == old(self).toks(),
            old(self).cursor() <= final(self).cursor() <= old(self).toks().len(),
            r is Some ==> final(self).cursor() > old(self).cursor(),
            ({
                let pr = spec_term(old(self).toks(), old(self).cursor());
                &&& pr.j == final(self).cursor()
                &&& final(self).errs() == old(self).errs() + pr.errs
                &&& (match r {
                    Some(e) => pr.e == Some(expr_view(e)) && wf_expr(expr_view(e)),
                    None => pr.e is None,
                })
            }),
        decreases self.tokens@.len() - self.pos, 5int,
    {
        let ghost t = self.toks();
        let ghost i0 = self.cursor();
        let ghost errs0 = self.errs();
        let first = self.factor();
        let mut expr = match first {
            Some(e) => e,
            None => {
                return None;
            },
        };
        let ghost mut emitted = spec_factor(t, i0).errs;
        loop
            invariant
                self.wf(),
                self.toks() == t,
                i0 < self.cursor() <= t.len(),
                wf_expr(expr_view(expr)),
                self.errs() == errs0 + emitted,
                spec_term(t, i0) == spec_term_rest(t, self.cursor(), expr_view(expr), emitted),
            decreases t.len() - self.cursor(),
        {
            let ghost c = self.cursor();
            let op = match self.match_term_op() {
                Some(op) => op,
                None => {
                    return Some(expr);
                },
            };
            let right = match self.factor() {
                Some(e) => e,
                None => {
                    proof {
                        lemma_concat_assoc(errs0, emitted, spec_factor(t, c + 1).errs);
                    }
                    return None;
                },
            };
            proof {
                lemma_concat_assoc(errs0, emitted, spec_factor(t, c + 1).errs);
                emitted = emitted + spec_factor(t, c + 1).errs;
            }
            expr = Expression::Binary(Box::new(BinaryExpression::new(expr, op, right)));
        }
    }

    /// `comparison -> term ( (">"|">="|"<"|"<=") term )*`; exactly
    /// [`spec_comparison`].
    #[verifier::loop_isolation(false)]
    fn comparison(&mut self) -> (r: Option<Expression>)
        requires
            old(self).wf(),
        ensures
            final(self).wf(),
            final(self).toks() == old(self).toks(),
            old(self).cursor() <= final(self).cursor() <= old(self).toks().len(),
            r is Some ==> final(self).cursor() > old(self).cursor(),
            ({
                let pr = spec_comparison(old(self).toks(), old(self).cursor());
                &&& pr.j == final(self).cursor()
                &&& final(self).errs() == old(self).errs() + pr.errs
                &&& (match r {
                    Some(e) => pr.e == Some(expr_view(e)) && wf_expr(expr_view(e)),
                    None => pr.e is None,
                })
            }),
        decreases self.tokens@.len() - self.pos, 7int,
    {
        let ghost t = self.toks();
        let ghost i0 = self.cursor();
        let ghost errs0 = self.errs();
        let first = self.term();
        let mut expr = match first {
            Some(e) => e,
            None => {
                return None;
            },
        };
        let ghost mut emitted = spec_term(t, i0).errs;
        loop
            invariant
                self.wf(),
                self.toks() == t,
                i0 < self.cursor() <= t.len(),
                wf_expr(expr_view(expr)),
                self.errs() == errs0 + emitted,
                spec_comparison(t, i0) == spec_comparison_rest(
                    t,
                    self.cursor(),
                    expr_view(expr),
                    emitted,
                ),
            decreases t.len() - self.cursor(),
        {
            let ghost c = self.cursor();
            let op = match self.match_comparison_op() {
                Some(op) => op,
                None => {
                    return Some(expr);
                },
            };
            let right = match self.term() {
                Some(e) => e,
                None => {
                    proof {
                        lemma_concat_assoc(errs0, emitted, spec_term(t, c + 1).errs);
                    }
                    return None;
                },
            };
            proof {
                lemma_concat_assoc(errs0, emitted, spec_term(t, c + 1).errs);
                emitted = emitted + spec_term(t, c + 1).errs;
            }
            expr = Expression::Binary(Box::new(BinaryExpression::new(expr, op, right)));
        }
    }

    /// `equality -> comparison ( ("!="|"==") comparison )*`; exactly
    /// [`spec_equality`].
    #[verifier::loop_isolation(false)]
    fn equality(&mut self) -> (r: Option<Expression>)
        requires
            old(self).wf(),
        ensures
            final(self).wf(),
            final(self).toks() == old(self).toks(),
            old(self).cursor() <= final(self).cursor() <= old(self).toks().len(),
            r is Some ==> final(self).cursor() > old(self).cursor(),
            ({
                let pr = spec_equality(old(self).toks(), old(self).cursor());
                &&& pr.j == final(self).cursor()
                &&& final(self).errs() == old(self).errs() + pr.errs
                &&& (match r {
                    Some(e) => pr.e == Some(expr_view(e)) && wf_expr(expr_view(e)),
                    None => pr.e is None,
                })
            }),
        decreases self.tokens@.len() - self.pos, 9int,
    {
        let ghost t = self.toks();
        let ghost i0 = self.cursor();
        let ghost errs0 = self.errs();
        let first = self.comparison();
        let mut expr = match first {
            Some(e) => e,
            None => {
                return None;
            },
        };
        let ghost mut emitted = spec_comparison(t, i0).errs;
        loop
            invariant
                self.wf(),
                self.toks() == t,
                i0 < self.cursor() <= t.len(),
                wf_expr(expr_view(expr)),
                self.errs() == errs0 + emitted,
                spec_equality(t, i0) == spec_equality_rest(
                    t,
                    self.cursor(),
                    expr_view(expr),
                    emitted,
                ),
            decreases t.len() - self.cursor(),
        {
            let ghost c = self.cursor();
            let op = match self.match_equality_op() {
                Some(op) => op,
                None => {
                    return Some(expr);
                },
            };
            let right = match self.comparison() {
                Some(e) => e,
                None => {
                    proof {
                        lemma_concat_assoc(errs0, emitted, spec_comparison(t, c + 1).errs);
                    }
                    return None;
                },
            };
            proof {
                lemma_concat_assoc(errs0, emitted, spec_comparison(t, c + 1).errs);
                emitted = emitted + spec_comparison(t, c + 1).errs;
            }
            expr = Expression::Binary(Box::new(BinaryExpression::new(expr, op, right)));
        }
    }

    /// `expression -> equality`; exactly [`spec_expression`].
    pub fn parse_expression(&mut self) -> (r: Option<Expression>)
        requires
            old(self).wf(),
        ensures
            final(self).wf(),
            final(self).toks() == old(self).toks(),
            old(self).cursor() <= final(self).cursor() <= old(self).toks().len(),
            r is Some ==> final(self).cursor() > old(self).cursor(),
            ({
                let pr = spec_expression(old(self).toks(), old(self).cursor());
                &&& pr.j == final(self).cursor()
                &&& final(self).errs() == old(self).errs() + pr.errs
                &&& (match r {
                    Some(e) => pr.e == Some(expr_view(e)) && wf_expr(expr_view(e)),
                    None => pr.e is None,
                })
            }),
        decreases self.toks().len() - self.cursor(), 10int,
    {
        self.equality()
    }

    /// `varDecl`'s tail, after `var`; exactly [`spec_var_declaration`].
    fn parse_var_declaration(&mut self) -> (r: Option<Statement>)
        requires
            old(self).wf(),
        ensures
            final(self).wf(),
            final(self).toks() == old(self).toks(),
            old(self).cursor() <= final(self).cursor() <= old(self).toks().len(),
            r is Some ==> final(self).cursor() > old(self).cursor(),
            ({
                let pr = spec_var_declaration(old(self).toks(), old(self).cursor());
                &&& pr.j == final(self).cursor()
                &&& final(self).errs() == old(self).errs() + pr.errs
                &&& (match r {
                    Some(s) => pr.s == Some(stmt_view(s)) && wf_stmt(stmt_view(s)),
                    None => pr.s is None,
                })
            }),
        decreases self.tokens@.len() - self.pos, 11int,
    {
        let ghost t = self.toks();
        let ghost i = self.cursor();
        let ghost errs0 = self.errs();
        if self.pos >= self.tokens.len() {
            self.add_error(ParserError::UnexpectedEndOfInput);
            return None;
        }
        let tok = self.tokens[self.pos].duplicate();
        match tok {
            Token::Identifier(name) => {
                self.pos = self.pos + 1;
                let init = if self.match_equal() {
                    match self.parse_expression() {
                        Some(e) => Some(e),
                        None => {
                            return None;
                        },
                    }
                } else {
                    None
                };
                if self.match_semicolon() {
                    proof {
                        if init is None {
                            lemma_concat_empty(errs0);
                        }
                    }
                    Some(Statement::VariableDeclaration(name, init))
                } else {
                    let ghost r_init_errs = if init is Some {
                        spec_expression(t, i + 2).errs
                    } else {
                        Seq::<ParseErrV>::empty()
                    };
                    self.add_error(ParserError::UnterminatedStatement);
                    proof {
                        if init is Some {
                            lemma_concat_assoc(
                                errs0,
                                r_init_errs,
                                seq![ParseErrV::UnterminatedStatement],
                            );
                        }
                    }
                    None
                }
            },
            t2 => {
                self.add_error(ParserError::ExpectedValidExpression(t2));
                None
            },
        }
    }

    /// `printStmt`'s tail, after `print`; exactly [`spec_print_statement`].
    fn parse_print_statement(&mut self) -> (r: Option<Statement>)
        requires
            old(self).wf(),
        ensures
            final(self).wf(),
            final(self).toks() == old(self).toks(),
            old(self).cursor() <= final(self).cursor() <= old(self).toks().len(),
            r is Some ==> final(self).cursor() > old(self).cursor(),
            ({
                let pr = spec_print_statement(old(self).toks(), old(self).cursor());
                &&& pr.j == final(self).cursor()
                &&& final(self).errs() == old(self).errs() + pr.errs
                &&& (match r {
                    Some(s) => pr.s == Some(stmt_view(s)) && wf_stmt(stmt_view(s)),
                    None => pr.s is None,
                })
            }),
        decreases self.tokens@.len() - self.pos, 11int,
    {
        let ghost t = self.toks();
        let ghost i = self.cursor();
        let ghost errs0 = self.errs();
        let expression = match self.parse_expression() {
            Some(e) => e,
            None => {
                return None;
            },
        };
        if self.match_semicolon() {
            Some(Statement::Print(expression))
        } else {
            self.add_error(ParserError::UnterminatedStatement);
            proof {
                lemma_concat_assoc(
                    errs0,
                    spec_expression(t, i).errs,
                    seq![ParseErrV::UnterminatedStatement],
                );
            }
            None
        }
    }

    /// `exprStmt -> expression ";"`; exactly [`spec_expression_statement`].
    fn parse_expression_statement(&mut self) -> (r: Option<Statement>)
        requires
            old(self).wf(),
        ensures
            final(self).wf(),
            final(self).toks() == old(self).toks(),
            old(self).cursor() <= final(self).cursor() <= old(self).toks().len(),
            r is Some ==> final(self).cursor() > old(self).cursor(),
            ({
                let pr = spec_expression_statement(old(self).toks(), old(self).cursor());
                &&& pr.j == final(self).cursor()
                &&& final(self).errs() == old(self).errs() + pr.errs
                &&& (match r {
                    Some(s) => pr.s == Some(stmt_view(s)) && wf_stmt(stmt_view(s)),
                    None => pr.s is None,
                })
            }),
        decreases self.tokens@.len() - self.pos, 11int,
    {
        let ghost t = self.toks();
        let ghost i = self.cursor();
        let ghost errs0 = self.errs();
        let expression = match self.parse_expression() {
            Some(e) => e,
            None => {
                return None;
            },
        };
        if self.match_semicolon() {
            Some(Statement::Expression(expression))
        } else {
            self.add_error(ParserError::UnterminatedStatement);
            proof {
                lemma_concat_assoc(
                    errs0,
                    spec_expression(t, i).errs,
                    seq![ParseErrV::UnterminatedStatement],
                );
            }
            None
        }
    }

    /// `statement -> printStmt | exprStmt`; exactly [`spec_statement`].
    fn parse_statement(&mut self) -> (r: Option<Statement>)
        requires
            old(self).wf(),
        ensures
            final(self).wf(),
            final(self).toks() == old(self).toks(),
            old(self).cursor() <= final(self).cursor() <= old(self).toks().len(),
            r is Some ==> final(self).cursor() > old(self).cursor(),
            ({
                let pr = spec_statement(old(self).toks(), old(self).cursor());
                &&& pr.j == final(self).cursor()
                &&& final(self).errs() == old(self).errs() + pr.errs
                &&& (match r {
                    Some(s) => pr.s == Some(stmt_view(s)) && wf_stmt(stmt_view(s)),
                    None => pr.s is None,
                })
            }),
        decreases self.tokens@.len() - self.pos, 12int,
    {
        if self.match_print() {
            self.parse_print_statement()
        } else {
            self.parse_expression_statement()
        }
    }

    /// `declaration -> varDecl | statement`; exactly [`spec_declaration`].
    fn parse_declaration(&mut self) -> (r: Option<Statement>)
        requires
            old(self).wf(),
        ensures
            final(self).wf(),
            final(self).toks() == old(self).toks(),
            old(self).cursor() <= final(self).cursor() <= old(self).toks().len(),
            r is Some ==> final(self).cursor() > old(self).cursor(),
            ({
                let pr = spec_declaration(old(self).toks(), old(self).cursor());
                &&& pr.j == final(self).cursor()
                &&& final(self).errs() == old(self).errs() + pr.errs
                &&& (match r {
                    Some(s) => pr.s == Some(stmt_view(s)) && wf_stmt(stmt_view(s)),
                    None => pr.s is None,
                })
            }),
        decreases self.tokens@.len() - self.pos, 13int,
    {
        if self.match_var() {
            self.parse_var_declaration()
        } else {
            self.parse_statement()
        }
    }

    /// Panic-mode synchronization; the cursor lands exactly where
    /// [`spec_sync`] says.
    #[verifier::loop_isolation(false)]
    fn synchronize_after_error(&mut self)
        requires
            old(self).wf(),
        ensures
            final(self).wf(),
            final(self).toks() == old(self).toks(),
            final(self).errs() == old(self).errs(),
            final(self).cursor() == spec_sync(old(self).toks(), old(self).cursor()),
            final(self).cursor() >= old(self).cursor(),
    {
        let ghost t = self.toks();
        let ghost i0 = self.cursor();
        loop
            invariant
                self.wf(),
                self.toks() == t,
                self.errs() == old(self).errs(),
                i0 <= self.cursor(),
                spec_sync(t, self.cursor()) == spec_sync(t, i0),
            decreases t.len() - self.cursor(),
        {
            if self.pos >= self.tokens.len() {
                return;
            }
            let was_semicolon = matches!(self.tokens[self.pos], Token::Semicolon);
            self.pos = self.pos + 1;
            if was_semicolon {
                return;
            }
            if self.pos >= self.tokens.len() {
                return;
            }
            if self.tokens[self.pos].is_start_of_statement() {
                return;
            }
            self.pos = self.pos + 1;
        }
    }

    /// Parse the whole token sequence: the statements in order, or the
    /// full batch of errors found; exactly [`spec_try_parse`].
    #[verifier::loop_isolation(false)]
    #[verifier::rlimit(60)]
    pub fn try_parse(self) -> (r: Result<Vec<Statement>, ParserErrorReporter>)
        requires
            self.wf(),
        ensures
            ({
                let pr = spec_try_parse(self.toks(), self.cursor());
                match r {
                    Ok(v) => {
                        &&& self.errs() + pr.1 == Seq::<ParseErrV>::empty()
                        &&& stmts_view(v@) == pr.0
                        &&& forall|k: int| 0 <= k < pr.0.len() ==> wf_stmt(#[trigger] pr.0[k])
                    },
                    Err(rep) => {
                        &&& rep.view() == self.errs() + pr.1
                        &&& (self.errs() + pr.1).len() > 0
                    },
                }
            }),
    {
        let mut this = self;
        let ghost t = this.toks();
        let ghost i0 = this.cursor();
        let ghost errs0 = this.errs();
        let mut statements: Vec<Statement> = Vec::new();
        let ghost whole = spec_try_parse(t, i0);
        loop
            invariant
                this.wf(),
                this.toks() == t,
                i0 <= this.cursor() <= t.len(),
                ({
                    let rest = spec_try_parse(t, this.cursor());
                    &&& whole.0 == stmts_view(statements@) + rest.0
                    &&& errs0 + whole.1 == this.errs() + rest.1
                }),
                forall|k: int|
                    0 <= k < statements@.len() ==> wf_stmt(#[trigger] stmts_view(statements@)[k]),
            decreases t.len() - this.cursor(),
        {
            if this.pos >= this.tokens.len() {
                break;
            }
            let ghost c = this.cursor();
            let ghost errs_before = this.errs();
            let ghost d = spec_declaration(t, c);
            match this.parse_declaration() {
                Some(statement) => {
                    let ghost prev = statements@;
                    let ghost rest_next = spec_try_parse(t, d.j);
                    statements.push(statement);
                    proof {
                        assert(stmts_view(prev.push(statement)) =~= stmts_view(prev).push(
                            stmt_view(statement),
                        ));
                        lemma_push_is_concat(stmts_view(prev), stmt_view(statement));
                        lemma_concat_assoc(stmts_view(prev), seq![stmt_view(statement)], rest_next.0);
                        lemma_concat_assoc(errs_before, d.errs, rest_next.1);
                    }
                },
                None => {
                    let ghost rest_after = spec_try_parse(t, spec_sync(t, d.j));
                    proof {
                        lemma_sync_bounds(t, d.j);
                    }
                    this.synchronize_after_error();
                    proof {
                        lemma_concat_assoc(errs_before, d.errs, rest_after.1);
                    }
                },
            }
        }
        proof {
            lemma_concat_empty(stmts_view(statements@));
            lemma_concat_empty(this.errs());
        }
        let Parser { tokens: _leftover, pos: _done, error_reporter } = this;
        if error_reporter.has_errors() {
            Err(error_reporter)
        } else {
            proof {
                assert(errs0 + whole.1 =~= Seq::<ParseErrV>::empty());
            }
            Ok(statements)
        }
    }
}

/// Panic-mode recovery, stated over every continuation: a statement that
/// opens a grouping and never closes it — `( a + b ;` for any number
/// payloads — records exactly one `UnclosedGrouping` error, and the rest
/// of the program, whatever it holds, is parsed exactly as a parse
/// starting at the token after the synchronizing `;`. In particular a
/// well-formed statement following the malformed one parses cleanly, and
/// the malformed statement contributes no error beyond its own.
#[verifier::rlimit(60)]
pub proof fn lemma_unclosed_grouping_recovers(a: u64, b: u64, rest: Seq<TokenV>)
    ensures
        ({
            let toks = seq![
                TokenV::LeftParen,
                TokenV::Number(a),
                TokenV::Plus,
                TokenV::Number(b),
                TokenV::Semicolon,
            ] + rest;
            let whole = spec_try_parse(toks, 0);
            let after = spec_try_parse(toks, 5);
            whole.0 == after.0 && whole.1 == seq![ParseErrV::UnclosedGrouping] + after.1
        }),
{
    let prefix = seq![
        TokenV::LeftParen,
        TokenV::Number(a),
        TokenV::Plus,
        TokenV::Number(b),
        TokenV::Semicolon,
    ];
    let toks = prefix + rest;
    let len = toks.len() as int;
    assert(toks[0] == TokenV::LeftParen);
    assert(toks[1] == TokenV::Number(a));
    assert(toks[2] == TokenV::Plus);
    assert(toks[3] == TokenV::Number(b));
    assert(toks[4] == TokenV::Semicolon);
    let e0 = Seq::<ParseErrV>::empty();
    let lit_a = ExprV::Literal(TokenV::Number(a));
    let lit_b = ExprV::Literal(TokenV::Number(b));
    let sum = ExprV::Binary(Box::new(lit_a), TokenV::Plus, Box::new(lit_b));
    assert(e0 + e0 =~= e0);
    assert((e0 + e0) + seq![ParseErrV::UnclosedGrouping] =~= seq![ParseErrV::UnclosedGrouping]);
    // The operand `a`.
    assert(spec_primary(toks, 1) == (PExpr { e: Some(lit_a), j: 2, errs: e0 }));
    assert(spec_unary(toks, 1) == (PExpr { e: Some(lit_a), j: 2, errs: e0 }));
    assert(spec_factor(toks, 1) == (PExpr { e: Some(lit_a), j: 2, errs: e0 }));
    // The operand `b`.
    assert(spec_primary(toks, 3) == (PExpr { e: Some(lit_b), j: 4, errs: e0 }));
    assert(spec_unary(toks, 3) == (PExpr { e: Some(lit_b), j: 4, errs: e0 }));
    assert(spec_factor(toks, 3) == (PExpr { e: Some(lit_b), j: 4, errs: e0 }));
    // The sum `a + b`, stopped by the `;`.
    assert(spec_term_rest(toks, 4, sum, e0 + e0) == (PExpr { e: Some(sum), j: 4, errs: e0 + e0 }));
    assert(spec_term_rest(toks, 2, lit_a, e0) == (PExpr { e: Some(sum), j: 4, errs: e0 + e0 }));
    assert(spec_term(toks, 1) == (PExpr { e: Some(sum), j: 4, errs: e0 + e0 }));
    assert(spec_comparison(toks, 1) == (PExpr { e: Some(sum), j: 4, errs: e0 + e0 }));
    assert(spec_equality(toks, 1) == (PExpr { e: Some(sum), j: 4, errs: e0 + e0 }));
    assert(spec_expression(toks, 1) == (PExpr { e: Some(sum), j: 4, errs: e0 + e0 }));
    // The grouping never closes: one recorded error, cursor at the `;`.
    assert(spec_primary(toks, 0) == (PExpr {
        e: None,
        j: 4,
        errs: seq![ParseErrV::UnclosedGrouping],
    }));
    assert(spec_unary(toks, 0) == (PExpr {
        e: None,
        j: 4,
        errs: seq![ParseErrV::UnclosedGrouping],
    }));
    assert(spec_factor(toks, 0) == (PExpr {
        e: None,
        j: 4,
        errs: seq![ParseErrV::UnclosedGrouping],
    }));
    assert(spec_term(toks, 0) == (PExpr {
        e: None,
        j: 4,
        errs: seq![ParseErrV::UnclosedGrouping],
    }));
    assert(spec_comparison(toks, 0) == (PExpr {
        e: None,
        j: 4,
        errs: seq![ParseErrV::UnclosedGrouping],
    }));
    assert(spec_equality(toks, 0) == (PExpr {
        e: None,
        j: 4,
        errs: seq![ParseErrV::UnclosedGrouping],
    }));
    assert(spec_declaration(toks, 0) == (PStmt {
        s: None,
        j: 4,
        errs: seq![ParseErrV::UnclosedGrouping],
    }));
    // Synchronization consumes the `;` and parsing resumes right after.
    assert(spec_sync(toks, 4) == 5);
    assert(clampi(spec_sync(toks, clampi(4, 0, len)), 1, len) == 5);
}

} // verus!
