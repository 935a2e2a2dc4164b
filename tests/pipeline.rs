use linus::environment::{Environment, Type};
use linus::interpreter::{interpret, Interpreter, RuntimeError};
use linus::lexer::{lex, LexError, Token};
use linus::number::{ArithError, Number};
use linus::parser::{parse, Expr, ParseError};
use linus::source::{Source, SourceError};

fn parse_source(src: &str) -> Result<Vec<Expr>, Vec<ParseError>> {
    let tokens = lex(src.to_string()).unwrap();
    parse(&tokens)
}

fn run_source(src: &str) -> (Vec<Type>, Option<RuntimeError>) {
    let exprs = parse_source(src).unwrap();
    interpret(&exprs)
}

fn first_value(src: &str) -> Result<Type, RuntimeError> {
    let (values, err) = run_source(src);
    match err {
        Some(e) => Err(e),
        None => Ok(values[0].clone()),
    }
}

fn num(n: i64) -> Type {
    Type::Num(Number::integer(n))
}

#[test]
fn tokenizes_definition_exactly() {
    let tokens = lex("def x: num -> 1".to_string()).unwrap();
    assert_eq!(
        tokens,
        vec![
            Token::Def,
            Token::Symbol("x".to_string()),
            Token::TypeDelim,
            Token::TypeDecl("num".to_string()),
            Token::Assign,
            Token::Num(Number::integer(1)),
            Token::EOF,
        ]
    );
}

#[test]
fn comment_line_leaves_only_eof() {
    assert_eq!(lex("# a comment line".to_string()).unwrap(), vec![Token::EOF]);
    assert_eq!(
        lex("# first\n# second".to_string()).unwrap(),
        vec![Token::EOF]
    );
}

#[test]
fn definition_binds_sum() {
    let exprs = parse_source("def x: num -> + 1 2").unwrap();
    assert_eq!(exprs.len(), 1);
    let mut interpreter = Interpreter::new();
    assert_eq!(interpreter.evaluate_expression(&exprs[0]), Ok(Type::Nil));
    let (values, err) = run_source("def x: num -> + 1 2\n\nx");
    assert_eq!(err, None);
    assert_eq!(values, vec![Type::Nil, num(3), Type::Nil]);
}

#[test]
fn bare_sum_prints_three() {
    assert_eq!(first_value("+ 1 2"), Ok(num(3)));
}

#[test]
fn not_of_values() {
    assert_eq!(first_value("not true"), Ok(Type::Bool(false)));
    assert_eq!(first_value("not none"), Ok(Type::Bool(true)));
    assert_eq!(first_value("not 5"), Err(RuntimeError::NotOnNum));
    assert_eq!(first_value("not \"s\""), Err(RuntimeError::NotOnStr));
    assert_eq!(first_value("not x"), Err(RuntimeError::NotEnoughArguments));
}

#[test]
fn operands_fold_from_the_left() {
    assert_eq!(first_value("- 10 2 3"), Ok(num(5)));
    assert_eq!(first_value("/ 8 2 2"), Ok(num(2)));
    assert_eq!(first_value("+ 1 2 3"), Ok(num(6)));
}

#[test]
fn boolean_and_number_mismatch() {
    assert_eq!(first_value("> true 1"), Err(RuntimeError::BoolNumMismatch));
    assert_eq!(first_value("> 1 true"), Err(RuntimeError::NumBoolMismatch));
}

#[test]
fn comparisons_and_logic() {
    assert_eq!(first_value("> 3 2"), Ok(Type::Bool(true)));
    assert_eq!(first_value("< 3 2"), Ok(Type::Bool(false)));
    assert_eq!(first_value(">= 2 2"), Ok(Type::Bool(true)));
    assert_eq!(first_value("<= 3 2"), Ok(Type::Bool(false)));
    assert_eq!(first_value("= 1.5 1.50"), Ok(Type::Bool(true)));
    assert_eq!(first_value("and true false"), Ok(Type::Bool(false)));
    assert_eq!(first_value("or true false"), Ok(Type::Bool(true)));
    assert_eq!(first_value("= true true"), Ok(Type::Bool(true)));
    assert_eq!(first_value("> true false"), Err(RuntimeError::UnexpectedOperator));
    assert_eq!(first_value("and 1 2"), Err(RuntimeError::UnexpectedOperator));
}

#[test]
fn exact_fractions() {
    assert_eq!(first_value("* 1.5 2"), Ok(Type::Num(Number::ratio(30, 10))));
    assert_eq!(first_value("/ 1 4"), Ok(Type::Num(Number::ratio(1, 4))));
    assert_eq!(first_value("- 1 4"), Ok(num(-3)));
}

#[test]
fn results_are_in_lowest_terms() {
    let mut sum = Number::integer(0);
    let tenth = lex("0.1".to_string()).unwrap()[0].clone();
    let tenth = match tenth {
        Token::Num(n) => n,
        _ => panic!("not a number"),
    };
    for _ in 0..40 {
        sum = sum.add(&tenth).unwrap();
    }
    assert_eq!(sum.numerator(), 4);
    assert_eq!(sum.denominator(), 1);
    let half = Number::ratio(3, 6).mul(&Number::integer(1)).unwrap();
    assert_eq!((half.numerator(), half.denominator()), (1, 2));
    let neg = Number::integer(-4).div(&Number::integer(-6)).unwrap();
    assert_eq!((neg.numerator(), neg.denominator()), (2, 3));
    let neg = Number::integer(4).div(&Number::integer(-6)).unwrap();
    assert_eq!((neg.numerator(), neg.denominator()), (-2, 3));
}

#[test]
fn runtime_errors() {
    assert_eq!(first_value("+ \"a\" 1"), Err(RuntimeError::BadOperands));
    assert_eq!(first_value("print 1"), Err(RuntimeError::UnknownFunction));
    assert_eq!(first_value("x"), Err(RuntimeError::VariableNotFound));
    assert_eq!(
        first_value("/ 1 0"),
        Err(RuntimeError::Arithmetic(ArithError::DivisionByZero))
    );
    assert_eq!(
        first_value("* 9223372036854775807 2"),
        Err(RuntimeError::Arithmetic(ArithError::Overflow))
    );
    assert_eq!(first_value("+ x 1"), Err(RuntimeError::BadOperands));
    assert_eq!(first_value("def y: num -> x"), Err(RuntimeError::AssignmentFailed));
    let mut interpreter = Interpreter::new();
    let empty = Expr::FunctionCall { operator: Token::Add, operand: vec![] };
    assert_eq!(
        interpreter.evaluate_expression(&empty),
        Err(RuntimeError::MissingOperands)
    );
    let bare = Expr::Operator { token: Token::Add };
    assert_eq!(
        interpreter.evaluate_expression(&bare),
        Err(RuntimeError::InvalidExpression)
    );
}

#[test]
fn run_stops_at_first_failure() {
    let (values, err) = run_source("+ 1 1\n/ 1 0\n+ 2 2");
    assert_eq!(values, vec![num(2)]);
    assert_eq!(err, Some(RuntimeError::Arithmetic(ArithError::DivisionByZero)));
}

#[test]
fn literals_keep_their_text() {
    assert_eq!(first_value("\"quoted\""), Ok(Type::Str("\"quoted\"".to_string())));
    assert_eq!(first_value("false"), Ok(Type::Bool(false)));
}

#[test]
fn numeric_literal_errors() {
    assert_eq!(lex("1.2.3".to_string()), Err(LexError::MalformedNumber));
    assert_eq!(
        lex("99999999999999999999".to_string()),
        Err(LexError::NumberOutOfRange)
    );
    assert_eq!(
        lex("1.5".to_string()).unwrap(),
        vec![Token::Num(Number::ratio(15, 10)), Token::EOF]
    );
}

#[test]
fn operators_and_layout_tokens() {
    assert_eq!(
        lex(">= <= > < = -> - $ \\ ( )".to_string()).unwrap(),
        vec![
            Token::GreaterThanOrEqual,
            Token::LessThanOrEqual,
            Token::GreaterThan,
            Token::LessThan,
            Token::Equal,
            Token::Assign,
            Token::Subtract,
            Token::Appl,
            Token::AnonFn,
            Token::LeftParen,
            Token::RightParen,
            Token::EOF,
        ]
    );
    assert_eq!(
        lex("a\n b\nc\n".to_string()).unwrap(),
        vec![
            Token::Symbol("a".to_string()),
            Token::Indent,
            Token::Symbol("b".to_string()),
            Token::Dedent,
            Token::Symbol("c".to_string()),
            Token::Newline,
            Token::EOF,
        ]
    );
}

#[test]
fn indents_match_dedents_when_balanced() {
    let tokens = lex("a\n b\nc\n d\ne".to_string()).unwrap();
    let indents = tokens.iter().filter(|t| **t == Token::Indent).count();
    let dedents = tokens.iter().filter(|t| **t == Token::Dedent).count();
    assert_eq!(indents, 2);
    assert_eq!(dedents, 2);
    let trailing = lex("a\n b".to_string()).unwrap();
    assert_eq!(trailing.iter().filter(|t| **t == Token::Dedent).count(), 0);
}

#[test]
fn keywords_and_unicode_space() {
    assert_eq!(
        lex("none let do loop try catch finally throw str bool _".to_string()).unwrap(),
        vec![
            Token::Nil,
            Token::Let,
            Token::Do,
            Token::Loop,
            Token::Try,
            Token::Catch,
            Token::Finally,
            Token::Throw,
            Token::TypeDecl("str".to_string()),
            Token::TypeDecl("bool".to_string()),
            Token::TypeDecl("_".to_string()),
            Token::EOF,
        ]
    );
    assert_eq!(
        lex("a\u{3000}b".to_string()).unwrap(),
        vec![
            Token::Symbol("a".to_string()),
            Token::Symbol("\u{3000}b".to_string()),
            Token::EOF,
        ]
    );
    assert_eq!(
        lex("\"open".to_string()).unwrap(),
        vec![Token::Str("\"open".to_string()), Token::EOF]
    );
}

#[test]
fn respelled_tokens_lex_the_same() {
    let tokens = lex("plus 12 \"s t\" (x) $ y".to_string()).unwrap();
    let again = lex("plus 12 \"s t\" ( x ) $ y".to_string()).unwrap();
    assert_eq!(tokens, again);
}

#[test]
fn parse_errors_accumulate() {
    assert_eq!(
        parse_source("def x: num -> 1 :").unwrap_err(),
        vec![ParseError::NoExpressionAfterDeclaration, ParseError::UnexpectedToken]
    );
    assert_eq!(parse_source("def 1").unwrap_err()[0], ParseError::InvalidVariableName);
    assert_eq!(parse_source("def x 1").unwrap_err()[0], ParseError::InvalidSyntaxAfterDef);
    assert_eq!(parse_source("$").unwrap_err()[0], ParseError::MisplacedApplication);
    assert_eq!(parse_source("1 2").unwrap_err()[0], ParseError::InvalidFunctionName);
    assert_eq!(parse(&[]).unwrap().len(), 0);
}

#[test]
fn nested_calls_parse() {
    assert_eq!(first_value("+ 1 (* 2 3)"), Ok(num(7)));
    assert_eq!(first_value("+ 1 $ * 2 3"), Ok(num(7)));
    assert_eq!(first_value("+ 1\n    * 2 3"), Ok(num(7)));
    assert_eq!(first_value("+ 1 * 2 3"), Ok(num(7)));
}

#[test]
fn environment_replaces_bindings() {
    let mut env = Environment::new();
    assert_eq!(env.retrieve(&"a".to_string()), None);
    env.define("a".to_string(), num(1));
    env.define("b".to_string(), Type::Bool(true));
    env.define("a".to_string(), num(2));
    assert_eq!(env.retrieve(&"a".to_string()), Some(&num(2)));
    assert_eq!(env.retrieve(&"b".to_string()), Some(&Type::Bool(true)));
}

#[test]
fn path_argument_is_second() {
    let args = vec!["linus".to_string(), "prog.ln".to_string()];
    assert_eq!(Source::path_argument(&args), Ok(&"prog.ln".to_string()));
    assert_eq!(
        Source::path_argument(&vec!["linus".to_string()]),
        Err(SourceError::NoSourceFile)
    );
}
