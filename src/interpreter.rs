//! The tree-walking evaluator.
use vstd::prelude::*;
use crate::environment::{Environment, Type};
use crate::lexer::Token;
use crate::number::{ArithError, Number};
use crate::parser::{expr_view, expr_views, Expr, ExprView, is_operator};

verus! {

/// Why an expression has no value.
#[derive(Debug, Clone, Copy, PartialEq, Eq, Structural)]
pub enum RuntimeError {
    /// A literal node holds a token that is no literal.
    NotALiteral,
    /// An operator that does not apply to operands of this type.
    UnexpectedOperator,
    /// A boolean combined with a number.
    BoolNumMismatch,
    /// A number combined with a boolean.
    NumBoolMismatch,
    /// Any other operand pairing, or an operand that failed.
    BadOperands,
    /// `not` applied to a number.
    NotOnNum,
    /// `not` applied to a string.
    NotOnStr,
    /// `not` without an operand, or with one that failed.
    NotEnoughArguments,
    /// An operator call without operands.
    MissingOperands,
    /// A call of a name that is no built-in operator.
    UnknownFunction,
    /// The expression of an assignment failed.
    AssignmentFailed,
    /// A variable without a binding.
    VariableNotFound,
    /// A variable node that holds no name.
    InvalidVariableName,
    /// A node that cannot be evaluated.
    InvalidExpression,
    /// Arithmetic without a result.
    Arithmetic(ArithError),
}

impl RuntimeError {
    /// The text of the message that describes the error.
    pub open spec fn text(&self) -> Seq<char> {
        match self {
            RuntimeError::NotALiteral => "Not a literal"@,
            RuntimeError::UnexpectedOperator => "Unexpected operator"@,
            RuntimeError::BoolNumMismatch => "Cannot compare Bool and Num"@,
            RuntimeError::NumBoolMismatch => "Cannot compare Num and Bool"@,
            RuntimeError::BadOperands => "Runtime Error: something wrong with operands!"@,
            RuntimeError::NotOnNum => "Cannot apply function 'not' to type num"@,
            RuntimeError::NotOnStr => "Cannot apply function 'not' to type str"@,
            RuntimeError::NotEnoughArguments => "Not enough arguments to function 'not'"@,
            RuntimeError::MissingOperands => "Not enough arguments"@,
            RuntimeError::UnknownFunction => "Function does not exist"@,
            RuntimeError::AssignmentFailed => "Problem in assignment"@,
            RuntimeError::VariableNotFound => "Variable name not found"@,
            RuntimeError::InvalidVariableName => "Invalid variable name"@,
            RuntimeError::InvalidExpression => "Invalid expression"@,
            RuntimeError::Arithmetic(ArithError::Overflow) => "Number out of range"@,
            RuntimeError::Arithmetic(ArithError::DivisionByZero) => "Division by zero"@,
        }
    }

    /// The message that describes the error.
    pub fn message(&self) -> (r: &'static str)
        ensures
            r@ == self.text(),
    {
        match self {
            RuntimeError::NotALiteral => "Not a literal",
            RuntimeError::UnexpectedOperator => "Unexpected operator",
            RuntimeError::BoolNumMismatch => "Cannot compare Bool and Num",
            RuntimeError::NumBoolMismatch => "Cannot compare Num and Bool",
            RuntimeError::BadOperands => "Runtime Error: something wrong with operands!",
            RuntimeError::NotOnNum => "Cannot apply function 'not' to type num",
            RuntimeError::NotOnStr => "Cannot apply function 'not' to type str",
            RuntimeError::NotEnoughArguments => "Not enough arguments to function 'not'",
            RuntimeError::MissingOperands => "Not enough arguments",
            RuntimeError::UnknownFunction => "Function does not exist",
            RuntimeError::AssignmentFailed => "Problem in assignment",
            RuntimeError::VariableNotFound => "Variable name not found",
            RuntimeError::InvalidVariableName => "Invalid variable name",
            RuntimeError::InvalidExpression => "Invalid expression",
            RuntimeError::Arithmetic(ArithError::Overflow) => "Number out of range",
            RuntimeError::Arithmetic(ArithError::DivisionByZero) => "Division by zero",
        }
    }
}

pub type Env = Map<Seq<char>, Type>;

/// Whether the operator folds its operands pairwise.
pub open spec fn is_binary(t: Token) -> bool {
    is_operator(t) && !(t is Not)
}

pub open spec fn literal_value(t: Token) -> Result<Type, RuntimeError> {
    match t {
        Token::Str(s) => Ok(Type::Str(s)),
        Token::Num(n) => Ok(Type::Num(n)),
        Token::True => Ok(Type::Bool(true)),
        Token::False => Ok(Type::Bool(false)),
        Token::Nil => Ok(Type::Nil),
        Token::Symbol(s) => Ok(Type::Str(s)),
        Token::EOF => Ok(Type::Nil),
        _ => Err(RuntimeError::NotALiteral),
    }
}

pub open spec fn arith(r: Result<Number, ArithError>) -> Result<Type, RuntimeError> {
    match r {
        Ok(n) => Ok(Type::Num(n)),
        Err(e) => Err(RuntimeError::Arithmetic(e)),
    }
}

/// An operator on two numbers.
pub open spec fn num_op(op: Token, x: Number, y: Number) -> Result<Type, RuntimeError> {
    match op {
        Token::Add => arith(x.spec_add(y)),
        Token::Subtract => arith(x.spec_sub(y)),
        Token::Multiply => arith(x.spec_mul(y)),
        Token::Divide => arith(x.spec_div(y)),
        Token::GreaterThan => Ok(Type::Bool(y.spec_lt(x))),
        Token::LessThan => Ok(Type::Bool(x.spec_lt(y))),
        Token::GreaterThanOrEqual => Ok(Type::Bool(!x.spec_lt(y))),
        Token::LessThanOrEqual => Ok(Type::Bool(!y.spec_lt(x))),
        Token::Equal => Ok(Type::Bool(x.same_value(y))),
        _ => Err(RuntimeError::UnexpectedOperator),
    }
}

/// An operator on two booleans.
pub open spec fn bool_op(op: Token, x: bool, y: bool) -> Result<Type, RuntimeError> {
    match op {
        Token::And => Ok(Type::Bool(x && y)),
        Token::Or => Ok(Type::Bool(x || y)),
        Token::Equal => Ok(Type::Bool(x == y)),
        _ => Err(RuntimeError::UnexpectedOperator),
    }
}

/// One step of the pairwise fold: the result so far with the next operand.
pub open spec fn combine(
    op: Token,
    a: Result<Type, RuntimeError>,
    b: Result<Type, RuntimeError>,
) -> Result<Type, RuntimeError> {
    match (a, b) {
        (Ok(Type::Num(x)), Ok(Type::Num(y))) => num_op(op, x, y),
        (Ok(Type::Bool(x)), Ok(Type::Bool(y))) => bool_op(op, x, y),
        (Ok(Type::Bool(_)), Ok(Type::Num(_))) => Err(RuntimeError::BoolNumMismatch),
        (Ok(Type::Num(_)), Ok(Type::Bool(_))) => Err(RuntimeError::NumBoolMismatch),
        _ => Err(RuntimeError::BadOperands),
    }
}

/// The operand results folded from the left: `((r0 op r1) op r2) ...`.
pub open spec fn fold(op: Token, rs: Seq<Result<Type, RuntimeError>>) -> Result<Type, RuntimeError>
    decreases rs.len(),
{
    if rs.len() == 0 {
        Err(RuntimeError::MissingOperands)
    } else if rs.len() == 1 {
        rs[0]
    } else {
        combine(op, fold(op, rs.drop_last()), rs.last())
    }
}

/// `not` of an operand result.
pub open spec fn negation(r: Result<Type, RuntimeError>) -> Result<Type, RuntimeError> {
    match r {
        Ok(Type::Bool(a)) => Ok(Type::Bool(!a)),
        Ok(Type::Nil) => Ok(Type::Bool(true)),
        Ok(Type::Num(_)) => Err(RuntimeError::NotOnNum),
        Ok(Type::Str(_)) => Err(RuntimeError::NotOnStr),
        _ => Err(RuntimeError::NotEnoughArguments),
    }
}

/// The value of `e` in `env`, and the table after it.
pub open spec fn eval(e: ExprView, env: Env) -> (Result<Type, RuntimeError>, Env)
    decreases e,
{
    match e {
        ExprView::Literal { token } => (literal_value(token), env),
        ExprView::FunctionCall { operator, operand } => {
            if is_binary(operator) {
                let (rs, env2) = eval_all(operand, env);
                (fold(operator, rs), env2)
            } else if operator is Not {
                if operand.len() == 0 {
                    (Err(RuntimeError::NotEnoughArguments), env)
                } else {
                    let (r, env2) = eval(operand[0], env);
                    (negation(r), env2)
                }
            } else {
                (Err(RuntimeError::UnknownFunction), env)
            }
        },
        ExprView::Assignment { name, type_decl, expr } => {
            let (r, env2) = eval(*expr, env);
            match r {
                Ok(v) => (Ok(Type::Nil), env2.insert(name@, v)),
                Err(_) => (Err(RuntimeError::AssignmentFailed), env2),
            }
        },
        ExprView::Variable { name } => match name {
            Token::Symbol(s) => if env.contains_key(s@) {
                (Ok(env[s@]), env)
            } else {
                (Err(RuntimeError::VariableNotFound), env)
            },
            _ => (Err(RuntimeError::InvalidVariableName), env),
        },
        ExprView::Operator { .. } => (Err(RuntimeError::InvalidExpression), env),
    }
}

/// The results of the operands in order, each evaluated in the table the one
/// before left, and the table after the last.
pub open spec fn eval_all(es: Seq<ExprView>, env: Env) -> (Seq<Result<Type, RuntimeError>>, Env)
    decreases es,
{
    if es.len() == 0 {
        (seq![], env)
    } else {
        let (rs, env1) = eval_all(es.drop_last(), env);
        let (r, env2) = eval(es.last(), env1);
        (rs.push(r), env2)
    }
}

/// The values of top-level expressions evaluated in order, up to the first
/// failure and its error, and the table after them.
pub open spec fn run(es: Seq<ExprView>, env: Env) -> (Seq<Type>, Option<RuntimeError>, Env)
    decreases es.len(),
{
    if es.len() == 0 {
        (seq![], None, env)
    } else {
        let (vs, err, env1) = run(es.drop_last(), env);
        if err is Some {
            (vs, err, env1)
        } else {
            let (r, env2) = eval(es.last(), env1);
            match r {
                Ok(v) => (vs.push(v), None, env2),
                Err(e) => (vs, Some(e), env2),
            }
        }
    }
}

pub proof fn lemma_expr_views_index(v: Seq<Expr>)
    ensures
        expr_views(v).len() == v.len(),
        forall|i: int| 0 <= i < v.len() ==> #[trigger] expr_views(v)[i] == expr_view(v[i]),
    decreases v.len(),
{
    if v.len() > 0 {
        lemma_expr_views_index(v.drop_last());
    }
}

fn literal_of(t: &Token) -> (r: Result<Type, RuntimeError>)
    ensures
        r == literal_value(*t),
{
    match t {
        Token::Str(s) => Ok(Type::Str(s.clone())),
        Token::Num(n) => Ok(Type::Num(*n)),
        Token::True => Ok(Type::Bool(true)),
        Token::False => Ok(Type::Bool(false)),
        Token::Nil => Ok(Type::Nil),
        Token::Symbol(s) => Ok(Type::Str(s.clone())),
        Token::EOF => Ok(Type::Nil),
        _ => Err(RuntimeError::NotALiteral),
    }
}

fn arith_result(r: Result<Number, ArithError>) -> (t: Result<Type, RuntimeError>)
    ensures
        t == arith(r),
{
    match r {
        Ok(n) => Ok(Type::Num(n)),
        Err(e) => Err(RuntimeError::Arithmetic(e)),
    }
}

fn apply_num(op: &Token, x: &Number, y: &Number) -> (r: Result<Type, RuntimeError>)
    ensures
        r == num_op(*op, *x, *y),
{
    match op {
        Token::Add => arith_result(x.add(y)),
        Token::Subtract => arith_result(x.sub(y)),
        Token::Multiply => arith_result(x.mul(y)),
        Token::Divide => arith_result(x.div(y)),
        Token::GreaterThan => Ok(Type::Bool(y.lt(x))),
        Token::LessThan => Ok(Type::Bool(x.lt(y))),
        Token::GreaterThanOrEqual => Ok(Type::Bool(!x.lt(y))),
        Token::LessThanOrEqual => Ok(Type::Bool(!y.lt(x))),
        Token::Equal => Ok(Type::Bool(x.eq_value(y))),
        _ => Err(RuntimeError::UnexpectedOperator),
    }
}

fn apply_bool(op: &Token, x: bool, y: bool) -> (r: Result<Type, RuntimeError>)
    ensures
        r == bool_op(*op, x, y),
{
    match op {
        Token::And => Ok(Type::Bool(x && y)),
        Token::Or => Ok(Type::Bool(x || y)),
        Token::Equal => Ok(Type::Bool(x == y)),
        _ => Err(RuntimeError::UnexpectedOperator),
    }
}

fn combine_results(
    op: &Token,
    a: Result<Type, RuntimeError>,
    b: Result<Type, RuntimeError>,
) -> (r: Result<Type, RuntimeError>)
    ensures
        r == combine(*op, a, b),
{
    match (a, b) {
        (Ok(Type::Num(x)), Ok(Type::Num(y))) => apply_num(op, &x, &y),
        (Ok(Type::Bool(x)), Ok(Type::Bool(y))) => apply_bool(op, x, y),
        (Ok(Type::Bool(_)), Ok(Type::Num(_))) => Err(RuntimeError::BoolNumMismatch),
        (Ok(Type::Num(_)), Ok(Type::Bool(_))) => Err(RuntimeError::NumBoolMismatch),
        _ => Err(RuntimeError::BadOperands),
    }
}

fn negate(r: Result<Type, RuntimeError>) -> (t: Result<Type, RuntimeError>)
    ensures
        t == negation(r),
{
    match r {
        Ok(Type::Bool(a)) => Ok(Type::Bool(!a)),
        Ok(Type::Nil) => Ok(Type::Bool(true)),
        Ok(Type::Num(_)) => Err(RuntimeError::NotOnNum),
        Ok(Type::Str(_)) => Err(RuntimeError::NotOnStr),
        _ => Err(RuntimeError::NotEnoughArguments),
    }
}

fn token_is_binary(t: &Token) -> (r: bool)
    ensures
        r == is_binary(*t),
{
    match t {
        Token::Add | Token::Subtract | Token::Multiply | Token::Divide | Token::GreaterThan
        | Token::LessThan | Token::GreaterThanOrEqual | Token::LessThanOrEqual | Token::Equal
        | Token::And | Token::Or => true,
        _ => false,
    }
}

/// An evaluator with its symbol table.
pub struct Interpreter {
    environment: Environment,
}

impl Interpreter {
    pub closed spec fn env(&self) -> Env {
        self.environment@
    }

    /// An evaluator with an empty symbol table.
    pub fn new() -> (r: Interpreter)
        ensures
            r.env() == Map::<Seq<char>, Type>::empty(),
    {
        Interpreter { environment: Environment::new() }
    }

    /// Evaluates the top-level expressions in order: the value of each, up
    /// to the first failure, with its error.
    pub fn interpret(&mut self, exprs: &[Expr]) -> (r: (Vec<Type>, Option<RuntimeError>))
        ensures
            ({
                let (vs, err, env) = run(expr_views(exprs@), old(self).env());
                r.0@ == vs && r.1 == err && final(self).env() == env
            }),
    {
        let ghost es = expr_views(exprs@);
        proof {
            lemma_expr_views_index(exprs@);
        }
        let mut values: Vec<Type> = Vec::new();
        let mut i: usize = 0;
        assert(es.subrange(0, 0) =~= Seq::<ExprView>::empty());
        while i < exprs.len()
            invariant
                i <= exprs@.len(),
                es == expr_views(exprs@),
                es.len() == exprs@.len(),
                forall|j: int| 0 <= j < exprs@.len() ==> #[trigger] es[j] == expr_view(exprs@[j]),
                run(es.subrange(0, i as int), old(self).env()) == (
                    values@,
                    None::<RuntimeError>,
                    self.env(),
                ),
            decreases exprs@.len() - i,
        {
            assert(es.subrange(0, i + 1).drop_last() =~= es.subrange(0, i as int));
            match self.evaluate_expression(&exprs[i]) {
                Ok(v) => {
                    values.push(v);
                },
                Err(e) => {
                    proof {
                        lemma_run_stops(es, i + 1, old(self).env());
                    }
                    return (values, Some(e));
                },
            }
            i = i + 1;
        }
        assert(es.subrange(0, i as int) =~= es);
        (values, None)
    }

    /// The value of one expression; an assignment binds its name in the table.
    pub fn evaluate_expression(&mut self, expression: &Expr) -> (r: Result<Type, RuntimeError>)
        ensures
            (r, final(self).env()) == eval(expression@, old(self).env()),
        decreases expression,
    {
        match expression {
            Expr::Literal { token } => literal_of(token),
            Expr::FunctionCall { operator, operand } => {
                proof {
                    lemma_expr_views_index(operand@);
                }
                let ghost es = expr_views(operand@);
                let ghost env0 = self.env();
                if token_is_binary(operator) {
                    let mut acc: Result<Type, RuntimeError> = Err(RuntimeError::MissingOperands);
                    let mut i: usize = 0;
                    let ghost mut rs: Seq<Result<Type, RuntimeError>> = seq![];
                    assert(es.subrange(0, 0) =~= Seq::<ExprView>::empty());
                    #[verifier::loop_isolation(false)]
                    while i < operand.len()
                        invariant
                            i <= operand@.len(),
                            es == expr_views(operand@),
                            es.len() == operand@.len(),
                            forall|j: int|
                                0 <= j < operand@.len() ==> #[trigger] es[j] == expr_view(
                                    operand@[j],
                                ),
                            eval_all(es.subrange(0, i as int), env0) == (rs, self.env()),
                            rs.len() == i,
                            acc == fold(*operator, rs),
                        decreases operand@.len() - i,
                    {
                        assert(es.subrange(0, i + 1).drop_last() =~= es.subrange(0, i as int));
                        proof {
                            vstd::std_specs::vec::axiom_vec_index_decreases(*operand, i as int);

                        }
                        let r = self.evaluate_expression(&operand[i]);
                        proof {
                            assert(rs.push(r).drop_last() =~= rs);
                            rs = rs.push(r);
                        }
                        acc = if i == 0 {
                            r
                        } else {
                            combine_results(operator, acc, r)
                        };
                        i = i + 1;
                    }
                    assert(es.subrange(0, i as int) =~= es);
                    acc
                } else if let Token::Not = operator {
                    if operand.len() == 0 {
                        Err(RuntimeError::NotEnoughArguments)
                    } else {
                        let r = self.evaluate_expression(&operand[0]);
                        negate(r)
                    }
                } else {
                    Err(RuntimeError::UnknownFunction)
                }
            },
            Expr::Assignment { name, type_decl, expr } => {
                match self.evaluate_expression(expr) {
                    Ok(v) => {
                        self.environment.define(name.clone(), v);
                        Ok(Type::Nil)
                    },
                    Err(_) => Err(RuntimeError::AssignmentFailed),
                }
            },
            Expr::Variable { name } => match name {
                Token::Symbol(s) => match self.environment.retrieve(s) {
                    Some(t) => Ok(t.duplicate()),
                    None => Err(RuntimeError::VariableNotFound),
                },
                _ => Err(RuntimeError::InvalidVariableName),
            },
            Expr::Operator { .. } => Err(RuntimeError::InvalidExpression),
        }
    }
}

/// Once a run has failed, later expressions change nothing.
pub proof fn lemma_run_stops(es: Seq<ExprView>, n: int, env: Env)
    requires
        0 <= n <= es.len(),
        run(es.subrange(0, n), env).1 is Some,
    ensures
        run(es, env) == run(es.subrange(0, n), env),
    decreases es.len() - n,
{
    if n < es.len() {
        assert(es.subrange(0, n + 1).drop_last() =~= es.subrange(0, n));
        lemma_run_stops(es, n + 1, env);
    } else {
        assert(es.subrange(0, n) =~= es);
    }
}

/// Operands fold strictly from the left: the result for operands `rs`
/// followed by `r` combines the result for `rs` with `r`.
pub proof fn law_fold_from_left(
    op: Token,
    rs: Seq<Result<Type, RuntimeError>>,
    r: Result<Type, RuntimeError>,
)
    requires
        rs.len() > 0,
    ensures
        fold(op, rs.push(r)) == combine(op, fold(op, rs), r),
{
    assert(rs.push(r).drop_last() =~= rs);
}

/// A boolean and a number under a comparison fail as a type mismatch, in
/// either order and whatever the values.
pub proof fn law_mismatch_is_typed(b: Token, n: Number, env: Env)
    requires
        b is True || b is False,
    ensures
        eval(
            ExprView::FunctionCall {
                operator: Token::GreaterThan,
                operand: seq![ExprView::Literal { token: b }, ExprView::Literal { token: Token::Num(n) }],
            },
            env,
        ).0 == Err::<Type, RuntimeError>(RuntimeError::BoolNumMismatch),
        eval(
            ExprView::FunctionCall {
                operator: Token::GreaterThan,
                operand: seq![ExprView::Literal { token: Token::Num(n) }, ExprView::Literal { token: b }],
            },
            env,
        ).0 == Err::<Type, RuntimeError>(RuntimeError::NumBoolMismatch),
{
    let x = ExprView::Literal { token: b };
    let y = ExprView::Literal { token: Token::Num(n) };
    let one = seq![x, y];
    let two = seq![y, x];
    assert(one.drop_last() =~= seq![x]);
    assert(two.drop_last() =~= seq![y]);
    assert(seq![x].drop_last() =~= Seq::<ExprView>::empty());
    assert(seq![y].drop_last() =~= Seq::<ExprView>::empty());
    let vb = literal_value(b);
    let vn = literal_value(Token::Num(n));
    assert(eval_all(Seq::<ExprView>::empty(), env).0 =~= Seq::<Result<Type, RuntimeError>>::empty());
    assert(seq![x].last() == x);
    assert(seq![y].last() == y);
    assert(eval(x, env).0 == vb);
    assert(eval(y, env).0 == vn);
    assert(Seq::<Result<Type, RuntimeError>>::empty().push(vb) =~= seq![vb]);
    assert(Seq::<Result<Type, RuntimeError>>::empty().push(vn) =~= seq![vn]);
    assert(eval_all(seq![x], env).0 =~= seq![vb]);
    assert(eval_all(seq![y], env).0 =~= seq![vn]);
    assert(eval_all(one, env).0 =~= seq![vb, vn]);
    assert(eval_all(two, env).0 =~= seq![vn, vb]);
    assert(seq![vb, vn].drop_last() =~= seq![vb]);
    assert(seq![vn, vb].drop_last() =~= seq![vn]);
    assert(seq![vb, vn].last() == vn);
    assert(seq![vn, vb].last() == vb);
    assert(fold(Token::GreaterThan, seq![vb]) == vb);
    assert(fold(Token::GreaterThan, seq![vn]) == vn);
    assert(fold(Token::GreaterThan, seq![vb, vn]) == combine(Token::GreaterThan, vb, vn));
    assert(fold(Token::GreaterThan, seq![vn, vb]) == combine(Token::GreaterThan, vn, vb));
}

/// Evaluates top-level expressions in a fresh interpreter.
pub fn interpret(exprs: &[Expr]) -> (r: (Vec<Type>, Option<RuntimeError>))
    ensures
        ({
            let (vs, err, env) = run(expr_views(exprs@), Map::empty());
            r.0@ == vs && r.1 == err
        }),
{
    let mut interpreter = Interpreter::new();
    interpreter.interpret(exprs)
}

} // verus!
