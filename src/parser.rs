//! The recursive-descent parser: tokens to expression trees.
use vstd::prelude::*;
use crate::lexer::Token;

verus! {

/// An expression tree.
#[derive(Debug)]
#[allow(inconsistent_fields)]
pub enum Expr {
    Assignment { name: String, type_decl: String, expr: Box<Expr> },
    Literal { token: Token },
    FunctionCall { operator: Token, operand: Vec<Expr> },
    Operator { token: Token },
    Variable { name: Token },
}

/// An expression tree as a mathematical value, with its operands as a sequence.
#[allow(inconsistent_fields)]
pub enum ExprView {
    Assignment { name: String, type_decl: String, expr: Box<ExprView> },
    Literal { token: Token },
    FunctionCall { operator: Token, operand: Seq<ExprView> },
    Operator { token: Token },
    Variable { name: Token },
}

/// Why a declaration did not parse.
#[derive(Debug, Clone, Copy, PartialEq, Eq, Structural)]
pub enum ParseError {
    /// `def` is not followed by a name.
    InvalidVariableName,
    /// The name after `def` is not followed by `:`, a type name and `->`.
    InvalidSyntaxAfterDef,
    /// The expression of a `def` is followed by a token that cannot end it.
    NoExpressionAfterDeclaration,
    /// A call whose head is neither a name nor an operator.
    InvalidFunctionName,
    /// `$` where an operand or a head is expected.
    MisplacedApplication,
    /// A token that cannot start an operand or a head.
    UnexpectedToken,
    /// The tokens ended where an operand or a head is expected.
    EndOfInput,
}

impl ParseError {
    /// The text of the message that describes the error.
    pub open spec fn text(&self) -> Seq<char> {
        match self {
            ParseError::InvalidVariableName => "Invalid variable name."@,
            ParseError::InvalidSyntaxAfterDef => "Error in global variable declaration: invalid syntax after \"def\""@,
            ParseError::NoExpressionAfterDeclaration => "Error in global variable declaration: no expression following variable declaration."@,
            ParseError::InvalidFunctionName => "Invalid function name"@,
            ParseError::MisplacedApplication => "Cannot pass an application symbol ($) there."@,
            ParseError::UnexpectedToken => "Problem parsing primary."@,
            ParseError::EndOfInput => "Problem advancing parser."@,
        }
    }

    /// The message that describes the error.
    pub fn message(&self) -> (r: &'static str)
        ensures
            r@ == self.text(),
    {
        match self {
            ParseError::InvalidVariableName => "Invalid variable name.",
            ParseError::InvalidSyntaxAfterDef => "Error in global variable declaration: invalid syntax after \"def\"",
            ParseError::NoExpressionAfterDeclaration => "Error in global variable declaration: no expression following variable declaration.",
            ParseError::InvalidFunctionName => "Invalid function name",
            ParseError::MisplacedApplication => "Cannot pass an application symbol ($) there.",
            ParseError::UnexpectedToken => "Problem parsing primary.",
            ParseError::EndOfInput => "Problem advancing parser.",
        }
    }
}

pub open spec fn expr_view(e: Expr) -> ExprView
    decreases e,
{
    match e {
        Expr::Assignment { name, type_decl, expr } => ExprView::Assignment {
            name,
            type_decl,
            expr: Box::new(expr_view(*expr)),
        },
        Expr::Literal { token } => ExprView::Literal { token },
        Expr::FunctionCall { operator, operand } => ExprView::FunctionCall {
            operator,
            operand: expr_views(operand@),
        },
        Expr::Operator { token } => ExprView::Operator { token },
        Expr::Variable { name } => ExprView::Variable { name },
    }
}

pub open spec fn expr_views(v: Seq<Expr>) -> Seq<ExprView>
    decreases v,
{
    if v.len() == 0 {
        seq![]
    } else {
        expr_views(v.drop_last()).push(expr_view(v.last()))
    }
}

impl View for Expr {
    type V = ExprView;

    open spec fn view(&self) -> ExprView {
        expr_view(*self)
    }
}

pub proof fn lemma_expr_views_push(v: Seq<Expr>, x: Expr)
    ensures
        expr_views(v.push(x)) == expr_views(v).push(expr_view(x)),
{
    assert(v.push(x).drop_last() =~= v);
}

/// A parse of some tokens: the tree or the error, and the position after it.
pub type Parsed = (Result<ExprView, ParseError>, int);

pub open spec fn peek(ts: Seq<Token>, i: int) -> Option<Token> {
    if 0 <= i < ts.len() {
        Some(ts[i])
    } else {
        None
    }
}

/// The position after taking one token at `i`, where there is one.
pub open spec fn after(ts: Seq<Token>, i: int) -> int {
    if 0 <= i < ts.len() {
        i + 1
    } else {
        i
    }
}

pub open spec fn is_literal(t: Token) -> bool {
    t is Num || t is Str || t is EOF || t is True || t is False || t is Nil
}

pub open spec fn is_operator(t: Token) -> bool {
    t is Add || t is Subtract || t is Multiply || t is Divide || t is GreaterThan || t is LessThan
        || t is GreaterThanOrEqual || t is LessThanOrEqual || t is Equal || t is And || t is Or
        || t is Not
}

/// Tokens that start the operand list of a call.
pub open spec fn starts_operands(t: Token) -> bool {
    t is Symbol || t is Str || t is Num || t is True || t is False || t is Nil || t is Appl
        || t is Indent || t is LeftParen
}

/// Tokens after which a whole expression follows as an operand.
pub open spec fn opens_operand(t: Token) -> bool {
    t is Appl || t is LeftParen || t is Indent
}

/// Tokens that end an operand list, left in place.
pub open spec fn ends_operands(t: Token) -> bool {
    t is RightParen || t is Dedent || t is EOF || t is Newline
}

/// Tokens that close a call and are taken with it.
pub open spec fn closes_call(t: Token) -> bool {
    t is RightParen || t is Newline || t is Dedent
}

/// Tokens that may follow the expression of a `def`, taken with it.
pub open spec fn ends_declaration(t: Token) -> bool {
    t is Indent || t is LeftParen || t is Appl || t is Newline || t is EOF
}

/// One token as a head or an operand.
pub open spec fn primary(ts: Seq<Token>, i: int) -> Parsed {
    match peek(ts, i) {
        None => (Err(ParseError::EndOfInput), i),
        Some(t) => (
            if is_literal(t) {
                Ok(ExprView::Literal { token: t })
            } else if is_operator(t) {
                Ok(ExprView::Operator { token: t })
            } else if t is Symbol {
                Ok(ExprView::Variable { name: t })
            } else if t is Appl {
                Err(ParseError::MisplacedApplication)
            } else {
                Err(ParseError::UnexpectedToken)
            },
            i + 1,
        ),
    }
}

/// The call of `head` on `operand`, where `head` names a function.
pub open spec fn applied(head: ExprView, operand: Seq<ExprView>) -> Result<ExprView, ParseError> {
    match head {
        ExprView::Variable { name } => Ok(ExprView::FunctionCall { operator: name, operand }),
        ExprView::Operator { token } => Ok(ExprView::FunctionCall { operator: token, operand }),
        _ => Err(ParseError::InvalidFunctionName),
    }
}

/// An expression from `i` on: a head followed by its operand lists.
pub open spec fn call(ts: Seq<Token>, i: int) -> Parsed
    decreases ts.len() - i, 0nat,
{
    if i < 0 || i >= ts.len() {
        primary(ts, i)
    } else {
        let (p, j) = primary(ts, i);
        match p {
            Ok(head) => call_rest(ts, head, j),
            Err(e) => (Err(e), j),
        }
    }
}

/// What follows a head at `j`: further operand lists, each making a call the new head.
pub open spec fn call_rest(ts: Seq<Token>, head: ExprView, j: int) -> Parsed
    decreases ts.len() - j, 2nat,
{
    if j < 0 || j >= ts.len() {
        (Ok(head), j)
    } else if starts_operands(ts[j]) {
        let (r, m) = operand(ts, j);
        match r {
            Ok(x) => if j < m <= ts.len() {
                operands(ts, head, seq![x], m)
            } else {
                (Ok(head), m)
            },
            Err(e) => (Err(e), m),
        }
    } else if closes_call(ts[j]) {
        (Ok(head), j + 1)
    } else {
        (Ok(head), j)
    }
}

/// The rest of an operand list of `head` from `k` on, after the operands `acc`.
pub open spec fn operands(ts: Seq<Token>, head: ExprView, acc: Seq<ExprView>, k: int) -> Parsed
    decreases ts.len() - k, 3nat,
{
    if k < 0 || k > ts.len() {
        (Ok(head), k)
    } else if k < ts.len() && ends_operands(ts[k]) {
        match applied(head, acc) {
            Ok(c) => call_rest(ts, c, k),
            Err(e) => (Err(e), k),
        }
    } else {
        let (r, m) = operand(ts, k);
        match r {
            Ok(x) => if k < m <= ts.len() {
                operands(ts, head, acc.push(x), m)
            } else {
                (Ok(head), m)
            },
            Err(e) => (Err(e), m),
        }
    }
}

/// One operand at `k`: a whole expression after `$`, `(` or an indent, an
/// expression that an operator starts, or a single token.
pub open spec fn operand(ts: Seq<Token>, k: int) -> Parsed
    decreases ts.len() - k, 1nat,
{
    if k < 0 || k >= ts.len() {
        primary(ts, k)
    } else if opens_operand(ts[k]) {
        call(ts, k + 1)
    } else if is_operator(ts[k]) {
        call(ts, k)
    } else {
        primary(ts, k)
    }
}

/// A top-level declaration at `i`: `def name: type -> expression`, or an expression.
pub open spec fn declaration(ts: Seq<Token>, i: int) -> Parsed {
    if peek(ts, i) == Some(Token::Def) && peek(ts, i + 1) is Some && ts[i + 1] is Symbol {
        let name = ts[i + 1]->Symbol_0;
        let i2 = i + 2;
        let i3 = after(ts, i2);
        let i4 = after(ts, i3);
        if peek(ts, i2) == Some(Token::TypeDelim) && peek(ts, i3) is Some && ts[i3] is TypeDecl
            && peek(ts, i4) == Some(Token::Assign) {
            let (r, j) = call(ts, i4 + 1);
            match r {
                Ok(x) => if peek(ts, j) is Some && ends_declaration(ts[j]) {
                    (
                        Ok(
                            ExprView::Assignment {
                                name,
                                type_decl: ts[i3]->TypeDecl_0,
                                expr: Box::new(x),
                            },
                        ),
                        j + 1,
                    )
                } else {
                    (Err(ParseError::NoExpressionAfterDeclaration), j)
                },
                Err(e) => (Err(e), j),
            }
        } else {
            (Err(ParseError::InvalidSyntaxAfterDef), i4)
        }
    } else if peek(ts, i) == Some(Token::Def) {
        (Err(ParseError::InvalidVariableName), after(ts, i + 1))
    } else {
        call(ts, i)
    }
}

/// The declarations from `i` on, with newlines between them skipped, after
/// the trees `exprs` and the errors `errs` of those before.
pub open spec fn program(ts: Seq<Token>, i: int, exprs: Seq<ExprView>, errs: Seq<ParseError>) -> (
    Seq<ExprView>,
    Seq<ParseError>,
)
    decreases ts.len() - i,
{
    if i < 0 || i >= ts.len() {
        (exprs, errs)
    } else if ts[i] is Newline {
        program(ts, i + 1, exprs, errs)
    } else {
        let (r, j) = declaration(ts, i);
        if i < j <= ts.len() {
            match r {
                Ok(x) => program(ts, j, exprs.push(x), errs),
                Err(e) => program(ts, j, exprs, errs.push(e)),
            }
        } else {
            (exprs, errs)
        }
    }
}

/// The trees of all declarations, or every error met, in order.
pub open spec fn parse_tokens(ts: Seq<Token>) -> Result<Seq<ExprView>, Seq<ParseError>> {
    let (exprs, errs) = program(ts, 0, seq![], seq![]);
    if errs.len() > 0 {
        Err(errs)
    } else {
        Ok(exprs)
    }
}

/// A parse as a mathematical value.
pub open spec fn parsed(r: (Result<Expr, ParseError>, usize)) -> Parsed {
    (
        match r.0 {
            Ok(e) => Ok(e@),
            Err(x) => Err(x),
        },
        r.1 as int,
    )
}

/// A parsing result as a mathematical value.
pub open spec fn parse_result(r: Result<Vec<Expr>, Vec<ParseError>>) -> Result<
    Seq<ExprView>,
    Seq<ParseError>,
> {
    match r {
        Ok(v) => Ok(expr_views(v@)),
        Err(es) => Err(es@),
    }
}

fn token_is_literal(t: &Token) -> (r: bool)
    ensures
        r == is_literal(*t),
{
    match t {
        Token::Num(_) | Token::Str(_) | Token::EOF | Token::True | Token::False | Token::Nil => true,
        _ => false,
    }
}

fn token_is_operator(t: &Token) -> (r: bool)
    ensures
        r == is_operator(*t),
{
    match t {
        Token::Add | Token::Subtract | Token::Multiply | Token::Divide | Token::GreaterThan
        | Token::LessThan | Token::GreaterThanOrEqual | Token::LessThanOrEqual | Token::Equal
        | Token::And | Token::Or | Token::Not => true,
        _ => false,
    }
}

fn token_starts_operands(t: &Token) -> (r: bool)
    ensures
        r == starts_operands(*t),
{
    match t {
        Token::Symbol(_) | Token::Str(_) | Token::Num(_) | Token::True | Token::False | Token::Nil
        | Token::Appl | Token::Indent | Token::LeftParen => true,
        _ => false,
    }
}

fn token_opens_operand(t: &Token) -> (r: bool)
    ensures
        r == opens_operand(*t),
{
    match t {
        Token::Appl | Token::LeftParen | Token::Indent => true,
        _ => false,
    }
}

fn token_ends_operands(t: &Token) -> (r: bool)
    ensures
        r == ends_operands(*t),
{
    match t {
        Token::RightParen | Token::Dedent | Token::EOF | Token::Newline => true,
        _ => false,
    }
}

fn token_closes_call(t: &Token) -> (r: bool)
    ensures
        r == closes_call(*t),
{
    match t {
        Token::RightParen | Token::Newline | Token::Dedent => true,
        _ => false,
    }
}

fn token_ends_declaration(t: &Token) -> (r: bool)
    ensures
        r == ends_declaration(*t),
{
    match t {
        Token::Indent | Token::LeftParen | Token::Appl | Token::Newline | Token::EOF => true,
        _ => false,
    }
}

/// The call of `head` on `acc`, where `head` names a function.
fn apply(head: Expr, acc: Vec<Expr>) -> (r: Result<Expr, ParseError>)
    ensures
        (match r {
            Ok(e) => Ok(e@),
            Err(x) => Err(x),
        }) == applied(head@, expr_views(acc@)),
{
    match head {
        Expr::Variable { name } => Ok(Expr::FunctionCall { operator: name, operand: acc }),
        Expr::Operator { token } => Ok(Expr::FunctionCall { operator: token, operand: acc }),
        _ => Err(ParseError::InvalidFunctionName),
    }
}

/// A parser over a token sequence, with its position.
pub struct Parser<'a> {
    tokens: &'a [Token],
    idx: usize,
}

impl<'a> Parser<'a> {
    pub closed spec fn spec_tokens(&self) -> Seq<Token> {
        self.tokens@
    }

    pub closed spec fn spec_idx(&self) -> int {
        self.idx as int
    }

    fn new(tokens: &'a [Token]) -> (r: Parser<'a>)
        ensures
            r.tokens@ == tokens@,
            r.idx == 0,
    {
        Parser { tokens, idx: 0 }
    }

    /// All declarations from the current position on; the trees, or every error.
    pub fn parse(&mut self) -> (r: Result<Vec<Expr>, Vec<ParseError>>)
        ensures
            ({
                let (exprs, errs) = program(
                    old(self).spec_tokens(),
                    old(self).spec_idx(),
                    seq![],
                    seq![],
                );
                parse_result(r) == if errs.len() > 0 {
                    Err::<Seq<ExprView>, Seq<ParseError>>(errs)
                } else {
                    Ok(exprs)
                }
            }),
    {
        let ghost ts = self.tokens@;
        let ghost start = self.idx as int;
        let mut exprs: Vec<Expr> = Vec::new();
        let mut errs: Vec<ParseError> = Vec::new();
        while self.idx < self.tokens.len()
            invariant
                ts == self.tokens@,
                ts == old(self).tokens@,
                start == old(self).idx,
                program(ts, start, seq![], seq![]) == program(
                    ts,
                    self.idx as int,
                    expr_views(exprs@),
                    errs@,
                ),
            decreases self.tokens@.len() - self.idx,
        {
            if let Token::Newline = self.tokens[self.idx] {
                self.idx = self.idx + 1;
            } else {
                let (r, j) = self.declaration(self.idx);
                self.idx = j;
                match r {
                    Ok(e) => {
                        proof {
                            lemma_expr_views_push(exprs@, e);
                        }
                        exprs.push(e);
                    },
                    Err(e) => {
                        errs.push(e);
                    },
                }
            }
        }
        if errs.len() > 0 {
            Err(errs)
        } else {
            Ok(exprs)
        }
    }

    fn declaration(&self, i: usize) -> (r: (Result<Expr, ParseError>, usize))
        requires
            i <= self.tokens@.len(),
        ensures
            parsed(r) == declaration(self.tokens@, i as int),
            r.1 <= self.tokens@.len(),
            i < self.tokens@.len() ==> i < r.1,
    {
        let n = self.tokens.len();
        if i < n && matches!(self.tokens[i], Token::Def) {
            if i + 1 < n {
                if let Token::Symbol(name) = &self.tokens[i + 1] {
                    let i2 = i + 2;
                    let i3 = if i2 < n {
                        i2 + 1
                    } else {
                        i2
                    };
                    let i4 = if i3 < n {
                        i3 + 1
                    } else {
                        i3
                    };
                    if i2 < n && matches!(self.tokens[i2], Token::TypeDelim) && i3 < n && i4 < n
                        && matches!(self.tokens[i4], Token::Assign) {
                        if let Token::TypeDecl(ty) = &self.tokens[i3] {
                            let (r, j) = self.call(i4 + 1);
                            match r {
                                Ok(x) => {
                                    if j < n && token_ends_declaration(&self.tokens[j]) {
                                        (
                                            Ok(
                                                Expr::Assignment {
                                                    name: name.clone(),
                                                    type_decl: ty.clone(),
                                                    expr: Box::new(x),
                                                },
                                            ),
                                            j + 1,
                                        )
                                    } else {
                                        (Err(ParseError::NoExpressionAfterDeclaration), j)
                                    }
                                },
                                Err(e) => (Err(e), j),
                            }
                        } else {
                            (Err(ParseError::InvalidSyntaxAfterDef), i4)
                        }
                    } else {
                        (Err(ParseError::InvalidSyntaxAfterDef), i4)
                    }
                } else {
                    (Err(ParseError::InvalidVariableName), i + 2)
                }
            } else {
                (Err(ParseError::InvalidVariableName), i + 1)
            }
        } else {
            self.call(i)
        }
    }

    fn primary(&self, i: usize) -> (r: (Result<Expr, ParseError>, usize))
        requires
            i <= self.tokens@.len(),
        ensures
            parsed(r) == primary(self.tokens@, i as int),
            i <= r.1 <= self.tokens@.len(),
            i < self.tokens@.len() ==> i < r.1,
    {
        if i >= self.tokens.len() {
            return (Err(ParseError::EndOfInput), i);
        }
        let t = &self.tokens[i];
        let r = if token_is_literal(t) {
            Ok(Expr::Literal { token: t.duplicate() })
        } else if token_is_operator(t) {
            Ok(Expr::Operator { token: t.duplicate() })
        } else if let Token::Symbol(_) = t {
            Ok(Expr::Variable { name: t.duplicate() })
        } else if let Token::Appl = t {
            Err(ParseError::MisplacedApplication)
        } else {
            Err(ParseError::UnexpectedToken)
        };
        (r, i + 1)
    }

    fn call(&self, i: usize) -> (r: (Result<Expr, ParseError>, usize))
        requires
            i <= self.tokens@.len(),
        ensures
            parsed(r) == call(self.tokens@, i as int),
            i <= r.1 <= self.tokens@.len(),
            i < self.tokens@.len() ==> i < r.1,
        decreases self.tokens@.len() - i, 0nat,
    {
        let (p, j) = self.primary(i);
        if i >= self.tokens.len() {
            return (p, j);
        }
        match p {
            Ok(head) => self.call_rest(head, j),
            Err(e) => (Err(e), j),
        }
    }

    fn call_rest(&self, head: Expr, j: usize) -> (r: (Result<Expr, ParseError>, usize))
        requires
            j <= self.tokens@.len(),
        ensures
            parsed(r) == call_rest(self.tokens@, head@, j as int),
            j <= r.1 <= self.tokens@.len(),
        decreases self.tokens@.len() - j, 2nat,
    {
        if j >= self.tokens.len() {
            return (Ok(head), j);
        }
        let t = &self.tokens[j];
        if token_starts_operands(t) {
            let (r, m) = self.operand(j);
            match r {
                Ok(x) => {
                    let mut acc: Vec<Expr> = Vec::new();
                    proof {
                        lemma_expr_views_push(acc@, x);
                        assert(acc@.push(x) =~= seq![x]);
                        assert(expr_views(acc@) =~= seq![]);
                    }
                    acc.push(x);
                    self.operands(head, acc, m)
                },
                Err(e) => (Err(e), m),
            }
        } else if token_closes_call(t) {
            (Ok(head), j + 1)
        } else {
            (Ok(head), j)
        }
    }

    fn operands(&self, head: Expr, acc: Vec<Expr>, k: usize) -> (r: (
        Result<Expr, ParseError>,
        usize,
    ))
        requires
            k <= self.tokens@.len(),
        ensures
            parsed(r) == operands(self.tokens@, head@, expr_views(acc@), k as int),
            k <= r.1 <= self.tokens@.len(),
        decreases self.tokens@.len() - k, 3nat,
    {
        if k < self.tokens.len() && token_ends_operands(&self.tokens[k]) {
            match apply(head, acc) {
                Ok(c) => self.call_rest(c, k),
                Err(e) => (Err(e), k),
            }
        } else {
            let (r, m) = self.operand(k);
            match r {
                Ok(x) => {
                    let mut acc = acc;
                    proof {
                        lemma_expr_views_push(acc@, x);
                    }
                    acc.push(x);
                    self.operands(head, acc, m)
                },
                Err(e) => (Err(e), m),
            }
        }
    }

    fn operand(&self, k: usize) -> (r: (Result<Expr, ParseError>, usize))
        requires
            k <= self.tokens@.len(),
        ensures
            parsed(r) == operand(self.tokens@, k as int),
            k <= r.1 <= self.tokens@.len(),
            k < self.tokens@.len() ==> k < r.1,
        decreases self.tokens@.len() - k, 1nat,
    {
        if k >= self.tokens.len() {
            return self.primary(k);
        }
        let t = &self.tokens[k];
        if token_opens_operand(t) {
            self.call(k + 1)
        } else if token_is_operator(t) {
            self.call(k)
        } else {
            self.primary(k)
        }
    }
}

/// Parses a token sequence into the trees of its declarations, or every error met.
pub fn parse(tokens: &[Token]) -> (r: Result<Vec<Expr>, Vec<ParseError>>)
    ensures
        parse_result(r) == parse_tokens(tokens@),
{
    let mut parser = Parser::new(tokens);
    parser.parse()
}

} // verus!
