//! The evaluator: walks the syntax tree and produces runtime values,
//! mutating the variable environment for variable declarations and
//! appending displayed values to a caller-supplied output sink.
//!
//! Execution is fail-fast: the first runtime error aborts the statement
//! sequence, unlike the parser's error batching.

use vstd::prelude::*;
use vstd::string::StringExecFns;

use crate::error::Error;
use crate::expression::{expr_references, expr_view, wf_expr, ExprV, Expression};
use crate::lexer::{spec_scan, PosV, Scanner};
use crate::number::{
    add_bits, add_numbers, div_bits, div_numbers, eq_bits, eq_numbers, ge_bits, ge_numbers,
    gt_bits, gt_numbers, le_bits, le_numbers, lt_bits, lt_numbers, mul_bits, mul_numbers,
    neg_bits, negate_number, number_text, render_number, sub_bits, sub_numbers,
};
use crate::parser::{spec_try_parse, Parser};
use crate::printer::token_text;
use crate::statement::{stmt_view, stmts_view, wf_stmt, Statement, StmtV};
use crate::token::{token_view, Token, TokenV};

verus! {

/// A runtime value: a closed tagged variant. A number is carried as the
/// bit pattern of its 64-bit binary floating-point encoding.
#[derive(Debug, PartialEq)]
pub enum Value {
    String(String),
    Number(u64),
    Bool(bool),
    Nil,
}

/// The mathematical shape of a [`Value`].
pub enum ValueV {
    String(Seq<char>),
    Number(u64),
    Bool(bool),
    Nil,
}

/// The ghost counterpart of a runtime value.
pub open spec fn value_view(v: Value) -> ValueV {
    match v {
        Value::String(s) => ValueV::String(s@),
        Value::Number(bits) => ValueV::Number(bits),
        Value::Bool(b) => ValueV::Bool(b),
        Value::Nil => ValueV::Nil,
    }
}

/// The ghost counterpart of a sequence of runtime values.
pub open spec fn values_view(vs: Seq<Value>) -> Seq<ValueV> {
    vs.map(|i: int, v: Value| value_view(v))
}

/// The display text of a value: the payload for strings, the decimal
/// rendering for numbers, `true` or `false`, `nil`.
pub open spec fn value_text(v: ValueV) -> Seq<char> {
    match v {
        ValueV::String(s) => s,
        ValueV::Number(bits) => number_text(bits),
        ValueV::Bool(b) => if b {
            "true"@
        } else {
            "false"@
        },
        ValueV::Nil => "nil"@,
    }
}

impl Value {
    /// The display text of this value.
    pub fn render(&self) -> (r: String)
        ensures
            r@ == value_text(value_view(*self)),
    {
        match self {
            Value::String(s) => s.clone(),
            Value::Number(bits) => render_number(*bits),
            Value::Bool(b) => if *b {
                String::from_str("true")
            } else {
                String::from_str("false")
            },
            Value::Nil => String::from_str("nil"),
        }
    }

    /// The number bits this value holds; only meaningful on a `Number`.
    pub fn to_number(&self) -> (r: u64)
        requires
            value_view(*self) matches ValueV::Number(_),
        ensures
            value_view(*self) == ValueV::Number(r),
    {
        match self {
            Value::Number(bits) => *bits,
            _ => 0,
        }
    }

    /// An equal value, as a fresh copy.
    pub fn duplicate(&self) -> (r: Value)
        ensures
            r == *self,
    {
        match self {
            Value::String(s) => Value::String(s.clone()),
            Value::Number(bits) => Value::Number(*bits),
            Value::Bool(b) => Value::Bool(*b),
            Value::Nil => Value::Nil,
        }
    }
}

/// A runtime error, one at a time: the evaluator stops at the first.
#[derive(Debug, PartialEq)]
pub enum RuntimeError {
    /// The operand of unary `-` was not a number.
    UnaryExpressionExpectedNumber(Token, Value),
    /// The right operand of a numeric binary operator was not a number.
    BinaryExpressionExpectedNumberAtRight(Token, Value),
    /// The left operand of a numeric binary operator was not a number.
    BinaryExpressionExpectedNumberAtLeft(Token, Value),
    /// Neither operand of a numeric binary operator was a number.
    BinaryExpressionExpectedNumberBothSides(Token, Value, Value),
    /// The name was never declared.
    UndefinedVariable(String),
    /// The name was declared without a value and never assigned one.
    UninitializedVariable(String),
}

/// The mathematical shape of a [`RuntimeError`].
pub enum RunErrV {
    UnaryExpressionExpectedNumber(TokenV, ValueV),
    BinaryExpressionExpectedNumberAtRight(TokenV, ValueV),
    BinaryExpressionExpectedNumberAtLeft(TokenV, ValueV),
    BinaryExpressionExpectedNumberBothSides(TokenV, ValueV, ValueV),
    UndefinedVariable(Seq<char>),
    UninitializedVariable(Seq<char>),
}

/// The ghost counterpart of a runtime error.
pub open spec fn runtime_err_view(e: RuntimeError) -> RunErrV {
    match e {
        RuntimeError::UnaryExpressionExpectedNumber(t, v) => RunErrV::UnaryExpressionExpectedNumber(
            token_view(t),
            value_view(v),
        ),
        RuntimeError::BinaryExpressionExpectedNumberAtRight(t, v) => RunErrV::BinaryExpressionExpectedNumberAtRight(
            token_view(t),
            value_view(v),
        ),
        RuntimeError::BinaryExpressionExpectedNumberAtLeft(t, v) => RunErrV::BinaryExpressionExpectedNumberAtLeft(
            token_view(t),
            value_view(v),
        ),
        RuntimeError::BinaryExpressionExpectedNumberBothSides(t, l, r) => RunErrV::BinaryExpressionExpectedNumberBothSides(
            token_view(t),
            value_view(l),
            value_view(r),
        ),
        RuntimeError::UndefinedVariable(n) => RunErrV::UndefinedVariable(n@),
        RuntimeError::UninitializedVariable(n) => RunErrV::UninitializedVariable(n@),
    }
}

impl RuntimeError {
    /// A one-line diagnostic for this error.
    pub fn message(&self) -> (r: String)
        ensures
            ({
                match runtime_err_view(*self) {
                    RunErrV::UnaryExpressionExpectedNumber(t, _) => r@
                        == "Expected number after unary operator '"@ + token_text(t) + "'"@,
                    RunErrV::BinaryExpressionExpectedNumberAtRight(t, v) => r@
                        == "Expected number after binary operator '"@ + token_text(t)
                        + "', found "@ + value_text(v) + " instead."@,
                    RunErrV::BinaryExpressionExpectedNumberAtLeft(t, v) => r@
                        == "Expected number before binary operator '"@ + token_text(t)
                        + "', found "@ + value_text(v) + " instead."@,
                    RunErrV::BinaryExpressionExpectedNumberBothSides(t, l, v) => r@
                        == "Operator '"@ + token_text(t) + "' should be surrounded by numbers, found "@
                        + value_text(l) + " and "@ + value_text(v) + " instead."@,
                    RunErrV::UndefinedVariable(n) => r@ == "variable '"@ + n
                        + "' is not defined"@,
                    RunErrV::UninitializedVariable(n) => r@ == "variable '"@ + n
                        + "' is defined but uninitialized"@,
                }
            }),
    {
        match self {
            RuntimeError::UnaryExpressionExpectedNumber(t, _) => {
                let mut out = String::from_str("Expected number after unary operator '");
                let op = t.render();
                out.append(op.as_str());
                out.append("'");
                out
            },
            RuntimeError::BinaryExpressionExpectedNumberAtRight(t, v) => {
                let mut out = String::from_str("Expected number after binary operator '");
                let op = t.render();
                out.append(op.as_str());
                out.append("', found ");
                let shown = v.render();
                out.append(shown.as_str());
                out.append(" instead.");
                out
            },
            RuntimeError::BinaryExpressionExpectedNumberAtLeft(t, v) => {
                let mut out = String::from_str("Expected number before binary operator '");
                let op = t.render();
                out.append(op.as_str());
                out.append("', found ");
                let shown = v.render();
                out.append(shown.as_str());
                out.append(" instead.");
                out
            },
            RuntimeError::BinaryExpressionExpectedNumberBothSides(t, l, v) => {
                let mut out = String::from_str("Operator '");
                let op = t.render();
                out.append(op.as_str());
                out.append("' should be surrounded by numbers, found ");
                let left_shown = l.render();
                out.append(left_shown.as_str());
                out.append(" and ");
                let right_shown = v.render();
                out.append(right_shown.as_str());
                out.append(" instead.");
                out
            },
            RuntimeError::UndefinedVariable(n) => {
                let mut out = String::from_str("variable '");
                out.append(n.as_str());
                out.append("' is not defined");
                out
            },
            RuntimeError::UninitializedVariable(n) => {
                let mut out = String::from_str("variable '");
                out.append(n.as_str());
                out.append("' is defined but uninitialized");
                out
            },
        }
    }
}

/// The mutable mapping from variable name to an optional value: `None`
/// stands for declared-but-uninitialized.
pub struct Environment {
    variables: vstd::hash_map::StringHashMap<Option<Value>>,
}

impl Environment {
    /// The ghost mapping from name to optional value.
    pub closed spec fn env(&self) -> Map<Seq<char>, Option<ValueV>> {
        self.variables@.map_values(
            |ov: Option<Value>|
                match ov {
                    Some(v) => Some(value_view(v)),
                    None => None,
                },
        )
    }

    /// A fresh, empty environment.
    pub fn new() -> (r: Self)
        ensures
            r.env() == Map::<Seq<char>, Option<ValueV>>::empty(),
    {
        let r = Environment { variables: vstd::hash_map::StringHashMap::new() };
        proof {
            assert(r.env() =~= Map::<Seq<char>, Option<ValueV>>::empty());
        }
        r
    }

    /// Declare a name without a value, overwriting any prior binding.
    pub fn define(&mut self, identifier: String)
        ensures
            final(self).env() == old(self).env().insert(identifier@, None),
    {
        let ghost k = identifier@;
        self.variables.insert(identifier, None);
        proof {
            assert(self.env() =~= old(self).env().insert(k, None));
        }
    }

    /// Bind a name to a value, overwriting any prior binding.
    pub fn set_value(&mut self, identifier: String, value: Value)
        ensures
            final(self).env() == old(self).env().insert(identifier@, Some(value_view(value))),
    {
        let ghost k = identifier@;
        let ghost vv = value_view(value);
        self.variables.insert(identifier, Some(value));
        proof {
            assert(self.env() =~= old(self).env().insert(k, Some(vv)));
        }
    }

    /// The binding of a name: `None` if never declared, `Some(None)` if
    /// declared but uninitialized, `Some(Some(v))` if bound to `v`.
    pub fn get_value(&self, identifier: &str) -> (r: Option<Option<Value>>)
        ensures
            ({
                let m = self.env();
                match r {
                    None => !m.contains_key(identifier@),
                    Some(slot) => m.contains_key(identifier@) && m[identifier@] == (match slot {
                        Some(v) => Some(value_view(v)),
                        None => None,
                    }),
                }
            }),
    {
        match self.variables.get(identifier) {
            None => None,
            Some(slot) => match slot {
                Some(v) => Some(Some(v.duplicate())),
                None => Some(None),
            },
        }
    }
}

/// Truthiness: everything is truthy except `nil` and `false`.
pub open spec fn spec_is_truthy(v: ValueV) -> bool {
    !(v matches ValueV::Nil || v == ValueV::Bool(false))
}

fn is_truthy(value: Value) -> (r: bool)
    ensures
        r == spec_is_truthy(value_view(value)),
{
    !matches!(value, Value::Nil | Value::Bool(false))
}

/// Structural equality of values: per variant, with numbers compared by
/// IEEE-754 equality.
pub open spec fn spec_value_eq(a: ValueV, b: ValueV) -> bool {
    match (a, b) {
        (ValueV::String(x), ValueV::String(y)) => x == y,
        (ValueV::Number(x), ValueV::Number(y)) => eq_bits(x, y),
        (ValueV::Bool(x), ValueV::Bool(y)) => x == y,
        (ValueV::Nil, ValueV::Nil) => true,
        _ => false,
    }
}

/// The typed-operand check of the numeric binary operators: both operands
/// must be numbers, and the error names which side failed.
pub open spec fn spec_check_numbers(op: TokenV, l: ValueV, r: ValueV) -> Result<(), RunErrV> {
    match (l, r) {
        (ValueV::Number(_), ValueV::Number(_)) => Ok(()),
        (ValueV::Number(_), _) => Err(RunErrV::BinaryExpressionExpectedNumberAtRight(op, r)),
        (_, ValueV::Number(_)) => Err(RunErrV::BinaryExpressionExpectedNumberAtLeft(op, l)),
        _ => Err(RunErrV::BinaryExpressionExpectedNumberBothSides(op, l, r)),
    }
}

fn check_number_operands(operator: &Token, lhs_val: &Value, rhs_val: &Value) -> (r: Result<
    (),
    RuntimeError,
>)
    ensures
        ({
            let c = spec_check_numbers(
                token_view(*operator),
                value_view(*lhs_val),
                value_view(*rhs_val),
            );
            match r {
                Ok(u) => c is Ok,
                Err(e) => c == Err::<(), RunErrV>(runtime_err_view(e)),
            }
        }),
{
    match (lhs_val, rhs_val) {
        (Value::Number(_), Value::Number(_)) => Ok(()),
        (Value::Number(_), _) => Err(
            RuntimeError::BinaryExpressionExpectedNumberAtRight(
                operator.duplicate(),
                rhs_val.duplicate(),
            ),
        ),
        (_, Value::Number(_)) => Err(
            RuntimeError::BinaryExpressionExpectedNumberAtLeft(
                operator.duplicate(),
                lhs_val.duplicate(),
            ),
        ),
        _ => Err(
            RuntimeError::BinaryExpressionExpectedNumberBothSides(
                operator.duplicate(),
                lhs_val.duplicate(),
                rhs_val.duplicate(),
            ),
        ),
    }
}

/// The value of one binary operator application. `==` compares values
/// structurally across all variants; `!=` is defined only numerically,
/// preserving the language's asymmetry between the two; `+` adds numbers
/// and concatenates strings.
pub open spec fn spec_apply_binary(op: TokenV, l: ValueV, r: ValueV) -> Result<ValueV, RunErrV> {
    match op {
        TokenV::EqualEqual => Ok(ValueV::Bool(spec_value_eq(l, r))),
        TokenV::Plus => match (l, r) {
            (ValueV::Number(a), ValueV::Number(b)) => Ok(ValueV::Number(add_bits(a, b))),
            (ValueV::String(a), ValueV::String(b)) => Ok(ValueV::String(a + b)),
            _ => match spec_check_numbers(op, l, r) {
                Err(e) => Err(e),
                Ok(u) => Ok(ValueV::Nil),
            },
        },
        _ => match spec_check_numbers(op, l, r) {
            Err(e) => Err(e),
            Ok(u) => {
                let a = l->Number_0;
                let b = r->Number_0;
                match op {
                    TokenV::Minus => Ok(ValueV::Number(sub_bits(a, b))),
                    TokenV::Slash => Ok(ValueV::Number(div_bits(a, b))),
                    TokenV::Star => Ok(ValueV::Number(mul_bits(a, b))),
                    TokenV::Greater => Ok(ValueV::Bool(gt_bits(a, b))),
                    TokenV::GreaterEqual => Ok(ValueV::Bool(ge_bits(a, b))),
                    TokenV::Less => Ok(ValueV::Bool(lt_bits(a, b))),
                    TokenV::LessEqual => Ok(ValueV::Bool(le_bits(a, b))),
                    TokenV::BangEqual => Ok(ValueV::Bool(!eq_bits(a, b))),
                    _ => Ok(ValueV::Nil),
                }
            },
        },
    }
}

/// The value of an expression in an environment. Literal payloads map
/// directly to values; a variable reference looks its name up; `-`
/// requires a number; `!` negates truthiness. Evaluation is pure: the
/// environment is read, never written.
pub open spec fn spec_eval(e: ExprV, env: Map<Seq<char>, Option<ValueV>>) -> Result<
    ValueV,
    RunErrV,
>
    decreases e,
{
    match e {
        ExprV::Literal(t) => match t {
            TokenV::String(s) => Ok(ValueV::String(s)),
            TokenV::Number(bits) => Ok(ValueV::Number(bits)),
            TokenV::Bool(b) => Ok(ValueV::Bool(b)),
            _ => Ok(ValueV::Nil),
        },
        ExprV::VariableReference(n) => if !env.contains_key(n) {
            Err(RunErrV::UndefinedVariable(n))
        } else {
            match env[n] {
                Some(v) => Ok(v),
                None => Err(RunErrV::UninitializedVariable(n)),
            }
        },
        ExprV::Grouping(inner) => spec_eval(*inner, env),
        ExprV::Unary(op, inner) => match spec_eval(*inner, env) {
            Err(er) => Err(er),
            Ok(v) => match op {
                TokenV::Bang => Ok(ValueV::Bool(!spec_is_truthy(v))),
                _ => match v {
                    ValueV::Number(bits) => Ok(ValueV::Number(neg_bits(bits))),
                    _ => Err(RunErrV::UnaryExpressionExpectedNumber(op, v)),
                },
            },
        },
        ExprV::Binary(l, op, r) => match spec_eval(*l, env) {
            Err(er) => Err(er),
            Ok(lv) => match spec_eval(*r, env) {
                Err(er) => Err(er),
                Ok(rv) => spec_apply_binary(op, lv, rv),
            },
        },
    }
}

impl Expression {
    /// Evaluate this expression; exactly [`spec_eval`] on its shape.
    pub fn evaluate(&self, environment: &Environment) -> (r: Result<Value, RuntimeError>)
        requires
            wf_expr(expr_view(*self)),
        ensures
            ({
                let ev = spec_eval(expr_view(*self), environment.env());
                match r {
                    Ok(v) => ev == Ok::<ValueV, RunErrV>(value_view(v)),
                    Err(e) => ev == Err::<ValueV, RunErrV>(runtime_err_view(e)),
                }
            }),
        decreases *self,
    {
        match self {
            Expression::Literal(l) => {
                let value = match &l.value {
                    Token::String(s) => Value::String(s.clone()),
                    Token::Number(bits) => Value::Number(*bits),
                    Token::Bool(b) => Value::Bool(*b),
                    _ => Value::Nil,
                };
                Ok(value)
            },
            Expression::VariableReference(identifier) => {
                match environment.get_value(identifier.as_str()) {
                    Some(slot) => match slot {
                        Some(value) => Ok(value),
                        None => Err(RuntimeError::UninitializedVariable(identifier.clone())),
                    },
                    None => Err(RuntimeError::UndefinedVariable(identifier.clone())),
                }
            },
            Expression::Grouping(inner) => inner.evaluate(environment),
            Expression::Unary(u) => {
                let value = u.expression.evaluate(environment)?;
                match &u.operator {
                    Token::Bang => Ok(Value::Bool(!is_truthy(value))),
                    _ => {
                        if !matches!(value, Value::Number(_)) {
                            return Err(
                                RuntimeError::UnaryExpressionExpectedNumber(
                                    u.operator.duplicate(),
                                    value,
                                ),
                            );
                        }
                        Ok(Value::Number(negate_number(value.to_number())))
                    },
                }
            },
            Expression::Binary(b) => {
                let lhs = b.left.evaluate(environment)?;
                let rhs = b.right.evaluate(environment)?;
                match &b.operator {
                    Token::EqualEqual => Ok(Value::Bool(value_eq(&lhs, &rhs))),
                    Token::Plus => match (lhs, rhs) {
                        (Value::Number(a), Value::Number(c)) => Ok(
                            Value::Number(add_numbers(a, c)),
                        ),
                        (Value::String(a), Value::String(c)) => Ok(
                            Value::String(a.concat(c.as_str())),
                        ),
                        (l2, r2) => match check_number_operands(&b.operator, &l2, &r2) {
                            Err(e) => Err(e),
                            Ok(u2) => Ok(Value::Nil),
                        },
                    },
                    op => {
                        check_number_operands(op, &lhs, &rhs)?;
                        let a = lhs.to_number();
                        let c = rhs.to_number();
                        match op {
                            Token::Minus => Ok(Value::Number(sub_numbers(a, c))),
                            Token::Slash => Ok(Value::Number(div_numbers(a, c))),
                            Token::Star => Ok(Value::Number(mul_numbers(a, c))),
                            Token::Greater => Ok(Value::Bool(gt_numbers(a, c))),
                            Token::GreaterEqual => Ok(Value::Bool(ge_numbers(a, c))),
                            Token::Less => Ok(Value::Bool(lt_numbers(a, c))),
                            Token::LessEqual => Ok(Value::Bool(le_numbers(a, c))),
                            Token::BangEqual => Ok(Value::Bool(!eq_numbers(a, c))),
                            _ => Ok(Value::Nil),
                        }
                    },
                }
            },
        }
    }
}

/// Structural equality of two runtime values.
fn value_eq(a: &Value, b: &Value) -> (r: bool)
    ensures
        r == spec_value_eq(value_view(*a), value_view(*b)),
{
    match (a, b) {
        (Value::String(x), Value::String(y)) => x.eq(y),
        (Value::Number(x), Value::Number(y)) => eq_numbers(*x, *y),
        (Value::Bool(x), Value::Bool(y)) => *x == *y,
        (Value::Nil, Value::Nil) => true,
        _ => false,
    }
}

/// The effect of one statement: its result, the environment after it, and
/// the values it displayed.
pub open spec fn spec_exec_stmt(s: StmtV, env: Map<Seq<char>, Option<ValueV>>) -> (
    Result<ValueV, RunErrV>,
    Map<Seq<char>, Option<ValueV>>,
    Seq<ValueV>,
) {
    match s {
        StmtV::Expression(e) => match spec_eval(e, env) {
            Ok(v) => (Ok(v), env, Seq::empty()),
            Err(er) => (Err(er), env, Seq::empty()),
        },
        StmtV::Print(e) => match spec_eval(e, env) {
            Ok(v) => (Ok(v), env, seq![v]),
            Err(er) => (Err(er), env, Seq::empty()),
        },
        StmtV::VariableDeclaration(n, init) => match init {
            Some(e) => match spec_eval(e, env) {
                Ok(v) => (Ok(ValueV::Nil), env.insert(n, Some(v)), Seq::empty()),
                Err(er) => (Err(er), env, Seq::empty()),
            },
            None => (Ok(ValueV::Nil), env.insert(n, None), Seq::empty()),
        },
    }
}

impl Statement {
    /// Execute this statement; exactly [`spec_exec_stmt`] on its shape.
    pub fn evaluate(&self, environment: &mut Environment, output: &mut Vec<Value>) -> (r: Result<
        Value,
        RuntimeError,
    >)
        requires
            wf_stmt(stmt_view(*self)),
        ensures
            ({
                let st = spec_exec_stmt(stmt_view(*self), old(environment).env());
                &&& final(environment).env() == st.1
                &&& values_view(final(output)@) == values_view(old(output)@) + st.2
                &&& (match r {
                    Ok(v) => st.0 == Ok::<ValueV, RunErrV>(value_view(v)),
                    Err(e) => st.0 == Err::<ValueV, RunErrV>(runtime_err_view(e)),
                })
            }),
    {
        let ghost out0 = output@;
        match self {
            Statement::Expression(inner) => {
                let r = inner.evaluate(environment);
                proof {
                    assert(values_view(out0) + Seq::<ValueV>::empty() =~= values_view(out0));
                }
                r
            },
            Statement::Print(inner) => match inner.evaluate(environment) {
                Ok(v) => {
                    let shown = v.duplicate();
                    output.push(shown);
                    proof {
                        assert(values_view(out0.push(v)) =~= values_view(out0) + seq![
                            value_view(v),
                        ]);
                    }
                    Ok(v)
                },
                Err(e) => {
                    proof {
                        assert(values_view(out0) + Seq::<ValueV>::empty() =~= values_view(out0));
                    }
                    Err(e)
                },
            },
            Statement::VariableDeclaration(identifier, initial_value_expression) => {
                proof {
                    assert(values_view(out0) + Seq::<ValueV>::empty() =~= values_view(out0));
                }
                match initial_value_expression {
                    Some(expression) => {
                        let value = expression.evaluate(environment)?;
                        environment.set_value(identifier.clone(), value);
                    },
                    None => {
                        environment.define(identifier.clone());
                    },
                }
                Ok(Value::Nil)
            },
        }
    }
}

/// The effect of a statement sequence, executed in order, stopping at the
/// first runtime error.
pub open spec fn spec_exec_program(ss: Seq<StmtV>, env: Map<Seq<char>, Option<ValueV>>) -> (
    Result<(), RunErrV>,
    Map<Seq<char>, Option<ValueV>>,
    Seq<ValueV>,
)
    decreases ss.len(),
{
    if ss.len() == 0 {
        (Ok(()), env, Seq::empty())
    } else {
        let st = spec_exec_stmt(ss[0], env);
        match st.0 {
            Err(er) => (Err(er), st.1, st.2),
            Ok(v) => {
                let rest = spec_exec_program(ss.drop_first(), st.1);
                (rest.0, rest.1, st.2 + rest.2)
            },
        }
    }
}

/// Execute the statements in order against the environment, stopping at
/// the first runtime error; displayed values are appended to `output`.
#[verifier::loop_isolation(false)]
pub fn interpret_program(
    statements: Vec<Statement>,
    environment: &mut Environment,
    output: &mut Vec<Value>,
) -> (r: Result<(), RuntimeError>)
    requires
        forall|k: int|
            0 <= k < statements@.len() ==> wf_stmt(#[trigger] stmts_view(statements@)[k]),
    ensures
        ({
            let pr = spec_exec_program(stmts_view(statements@), old(environment).env());
            &&& final(environment).env() == pr.1
            &&& values_view(final(output)@) == values_view(old(output)@) + pr.2
            &&& (match r {
                Ok(u) => pr.0 is Ok,
                Err(e) => pr.0 == Err::<(), RunErrV>(runtime_err_view(e)),
            })
        }),
{
    let ghost sv = stmts_view(statements@);
    let ghost env0 = environment.env();
    let ghost out0 = output@;
    let ghost whole = spec_exec_program(sv, env0);
    let mut k: usize = 0;
    proof {
        assert(sv.skip(0) =~= sv);
        assert(values_view(out0) + Seq::<ValueV>::empty() =~= values_view(out0));
    }
    while k < statements.len()
        invariant
            k <= statements@.len(),
            ({
                let rest = spec_exec_program(sv.skip(k as int), environment.env());
                &&& whole.0 == rest.0
                &&& whole.1 == rest.1
                &&& values_view(output@) + rest.2 == values_view(out0) + whole.2
            }),
        decreases statements@.len() - k,
    {
        let ghost env_k = environment.env();
        let ghost outs_k = output@;
        let ghost st = spec_exec_stmt(sv[k as int], env_k);
        proof {
            assert(sv.skip(k as int)[0] == sv[k as int]);
            assert(sv.skip(k as int).drop_first() =~= sv.skip(k as int + 1));
        }
        match statements[k].evaluate(environment, output) {
            Ok(_) => {},
            Err(e) => {
                proof {
                    let rest2 = spec_exec_program(sv.skip(k as int + 1), environment.env());
                    assert(values_view(output@) =~= values_view(outs_k) + st.2);
                }
                return Err(e);
            },
        }
        proof {
            let rest2 = spec_exec_program(sv.skip(k as int + 1), environment.env());
            assert((values_view(outs_k) + st.2) + rest2.2 =~= values_view(outs_k) + (st.2
                + rest2.2));
        }
        k = k + 1;
    }
    proof {
        assert(sv.skip(statements@.len() as int) =~= Seq::<StmtV>::empty());
        assert(values_view(output@) + Seq::<ValueV>::empty() =~= values_view(output@));
    }
    Ok(())
}

/// Evaluating the binary expression `a / b` on two numbers yields exactly
/// the number holding their IEEE-754 quotient, in every environment.
/// Division by zero is not a runtime error: the quotient bits then encode
/// an infinity or a not-a-number value, per standard float semantics.
pub proof fn lemma_division_yields_quotient(
    a: u64,
    b: u64,
    env: Map<Seq<char>, Option<ValueV>>,
)
    ensures
        spec_eval(
            ExprV::Binary(
                Box::new(ExprV::Literal(TokenV::Number(a))),
                TokenV::Slash,
                Box::new(ExprV::Literal(TokenV::Number(b))),
            ),
            env,
        ) == Ok::<ValueV, RunErrV>(ValueV::Number(div_bits(a, b))),
{
    reveal_with_fuel(spec_eval, 3);
}

/// An expression that never reads `n` evaluates the same after a binding
/// of `n` is added or changed.
pub proof fn lemma_eval_insert_irrelevant(
    e: ExprV,
    env: Map<Seq<char>, Option<ValueV>>,
    n: Seq<char>,
    slot: Option<ValueV>,
)
    requires
        !expr_references(e, n),
    ensures
        spec_eval(e, env.insert(n, slot)) == spec_eval(e, env),
    decreases e,
{
    match e {
        ExprV::Literal(_) => {},
        ExprV::VariableReference(m) => {},
        ExprV::Grouping(inner) => {
            lemma_eval_insert_irrelevant(*inner, env, n, slot);
        },
        ExprV::Unary(_, inner) => {
            lemma_eval_insert_irrelevant(*inner, env, n, slot);
        },
        ExprV::Binary(l, _, r) => {
            lemma_eval_insert_irrelevant(*l, env, n, slot);
            lemma_eval_insert_irrelevant(*r, env, n, slot);
        },
    }
}

/// Idempotence of declaration: executing the same variable declaration
/// with an initializer twice in the same environment is observably
/// equivalent to executing it once, provided the initializer does not read
/// the variable it declares: the second execution merely overwrites the
/// binding with the same value, succeeds, and displays nothing.
pub proof fn lemma_variable_declaration_idempotent(
    n: Seq<char>,
    e: ExprV,
    env: Map<Seq<char>, Option<ValueV>>,
)
    requires
        !expr_references(e, n),
    ensures
        ({
            let once = spec_exec_stmt(StmtV::VariableDeclaration(n, Some(e)), env);
            let twice = spec_exec_stmt(StmtV::VariableDeclaration(n, Some(e)), once.1);
            once.0 is Ok ==> {
                &&& twice.0 == Ok::<ValueV, RunErrV>(ValueV::Nil)
                &&& twice.1 == once.1
                &&& twice.2 == Seq::<ValueV>::empty()
            }
        }),
{
    let v = spec_eval(e, env);
    if v is Ok {
        lemma_eval_insert_irrelevant(e, env, n, Some(v->Ok_0));
        assert(env.insert(n, Some(v->Ok_0)).insert(n, Some(v->Ok_0)) =~= env.insert(
            n,
            Some(v->Ok_0),
        ));
    }
}

/// Run a whole source text against the given environment: scan, parse,
/// execute; displayed values are appended to `output`. Fails with the
/// batch of lexical or parse errors before anything runs, or with the
/// first runtime error.
pub fn interpret_lox_with_state(text: &str, state: &mut Environment, output: &mut Vec<Value>) -> (r:
    Result<(), Error>)
    requires
        text@.len() < usize::MAX,
    ensures
        ({
            let scan = spec_scan(text@, 0, PosV { line: 1, column: 1 });
            match r {
                Err(Error::Lexer(e)) => {
                    &&& scan == Err::<Seq<TokenV>, crate::lexer::LexerError>(e)
                    &&& final(state).env() == old(state).env()
                    &&& final(output)@ == old(output)@
                },
                Err(Error::Parser(rep)) => {
                    &&& scan is Ok
                    &&& ({
                        let pr = spec_try_parse(scan->Ok_0, 0);
                        rep.view() == pr.1 && pr.1.len() > 0
                    })
                    &&& final(state).env() == old(state).env()
                    &&& final(output)@ == old(output)@
                },
                Err(Error::Runtime(e)) => {
                    &&& scan is Ok
                    &&& ({
                        let pr = spec_try_parse(scan->Ok_0, 0);
                        let ex = spec_exec_program(pr.0, old(state).env());
                        &&& pr.1.len() == 0
                        &&& ex.0 == Err::<(), RunErrV>(runtime_err_view(e))
                        &&& final(state).env() == ex.1
                        &&& values_view(final(output)@) == values_view(old(output)@) + ex.2
                    })
                },
                Ok(u) => {
                    &&& scan is Ok
                    &&& ({
                        let pr = spec_try_parse(scan->Ok_0, 0);
                        let ex = spec_exec_program(pr.0, old(state).env());
                        &&& pr.1.len() == 0
                        &&& ex.0 is Ok
                        &&& final(state).env() == ex.1
                        &&& values_view(final(output)@) == values_view(old(output)@) + ex.2
                    })
                },
            }
        }),
{
    let scanner = Scanner::new(text);
    let tokens = match scanner.try_scan_all() {
        Ok(ts) => ts,
        Err(e) => {
            return Err(Error::Lexer(e));
        },
    };
    let parser = Parser::new(tokens);
    let statements = match parser.try_parse() {
        Ok(ss) => ss,
        Err(rep) => {
            return Err(Error::Parser(rep));
        },
    };
    match interpret_program(statements, state, output) {
        Ok(u) => Ok(()),
        Err(e) => Err(Error::Runtime(e)),
    }
}

/// Run a whole source text against a fresh environment; the displayed
/// values are returned on success.
pub fn interpret_lox(text: &str) -> (r: Result<Vec<Value>, Error>)
    requires
        text@.len() < usize::MAX,
    ensures
        ({
            let scan = spec_scan(text@, 0, PosV { line: 1, column: 1 });
            match r {
                Ok(outputs) => {
                    &&& scan is Ok
                    &&& ({
                        let pr = spec_try_parse(scan->Ok_0, 0);
                        let ex = spec_exec_program(
                            pr.0,
                            Map::<Seq<char>, Option<ValueV>>::empty(),
                        );
                        &&& pr.1.len() == 0
                        &&& ex.0 is Ok
                        &&& values_view(outputs@) == ex.2
                    })
                },
                Err(Error::Lexer(e)) => scan == Err::<Seq<TokenV>, crate::lexer::LexerError>(e),
                Err(Error::Parser(rep)) => {
                    &&& scan is Ok
                    &&& ({
                        let pr = spec_try_parse(scan->Ok_0, 0);
                        rep.view() == pr.1 && pr.1.len() > 0
                    })
                },
                Err(Error::Runtime(e)) => {
                    &&& scan is Ok
                    &&& ({
                        let pr = spec_try_parse(scan->Ok_0, 0);
                        let ex = spec_exec_program(
                            pr.0,
                            Map::<Seq<char>, Option<ValueV>>::empty(),
                        );
                        &&& pr.1.len() == 0
                        &&& ex.0 == Err::<(), RunErrV>(runtime_err_view(e))
                    })
                },
            }
        }),
{
    let mut environment = Environment::new();
    let mut output: Vec<Value> = Vec::new();
    match interpret_lox_with_state(text, &mut environment, &mut output) {
        Ok(u) => {
            proof {
                assert(values_view(Seq::<Value>::empty()) =~= Seq::<ValueV>::empty());
            }
            Ok(output)
        },
        Err(e) => Err(e),
    }
}

} // verus!
