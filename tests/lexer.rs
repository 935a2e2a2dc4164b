use linus::lexer::{lex, Token};
use linus::number::Number;

#[test]
fn test_num_assignment() {
    let result = lex("def first_num: num -> 1".to_string()).unwrap();

    let mut result_iter = result.iter();
    assert_eq!(
        result_iter.next().expect("Error reading test: test_num_assignment"),
        &Token::Def
    );
    assert_eq!(
        result_iter.next().expect("Error reading test: test_num_assignment"),
        &Token::Symbol("first_num".to_string())
    );
    assert_eq!(
        result_iter.next().expect("Error reading test: test_num_assignment"),
        &Token::TypeDelim
    );
    assert_eq!(
        result_iter.next().expect("Error reading test: test_num_assignment"),
        &Token::TypeDecl("num".to_string())
    );
    assert_eq!(
        result_iter.next().expect("Error reading test: test_num_assignment"),
        &Token::Assign
    );
    assert_eq!(
        result_iter.next().expect("Error reading test: test_num_assignment"),
        &Token::Num(Number::integer(1))
    );
    assert_eq!(
        result_iter.next().expect("Error reading test: test_func_assignment"),
        &Token::EOF
    );
}

#[test]
fn test_str_assignment() {
    let result = lex("def test_string: str -> \"this is a test\"".to_string()).unwrap();

    let mut result_iter = result.iter();
    assert_eq!(
        result_iter.next().expect("Error reading test: test_str_assignment"),
        &Token::Def
    );
    assert_eq!(
        result_iter.next().expect("Error reading test: test_str_assignment"),
        &Token::Symbol("test_string".to_string())
    );
    assert_eq!(
        result_iter.next().expect("Error reading test: test_str_assignment"),
        &Token::TypeDelim
    );
    assert_eq!(
        result_iter.next().expect("Error reading test: test_str_assignment"),
        &Token::TypeDecl("str".to_string())
    );
    assert_eq!(
        result_iter.next().expect("Error reading test: test_str_assignment"),
        &Token::Assign
    );
    assert_eq!(
        result_iter.next().expect("Error reading test: test_str_assignment"),
        &Token::Str("\"this is a test\"".to_string())
    );
    assert_eq!(
        result_iter.next().expect("Error reading test: test_func_assignment"),
        &Token::EOF
    );
}

#[test]
fn test_bool_assignment() {
    let result = lex("def is_bool: bool -> true".to_string()).unwrap();

    let mut result_iter = result.iter();
    assert_eq!(
        result_iter.next().expect("Error reading test: test_bool_assignment"),
        &Token::Def
    );
    assert_eq!(
        result_iter.next().expect("Error reading test: test_bool_assignment"),
        &Token::Symbol("is_bool".to_string())
    );
    assert_eq!(
        result_iter.next().expect("Error reading test: test_bool_assignment"),
        &Token::TypeDelim
    );
    assert_eq!(
        result_iter.next().expect("Error reading test: test_bool_assignment"),
        &Token::TypeDecl("bool".to_string())
    );
    assert_eq!(
        result_iter.next().expect("Error reading test: test_bool_assignment"),
        &Token::Assign
    );
    assert_eq!(
        result_iter.next().expect("Error reading test: test_bool_assignment"),
        &Token::True
    );
    assert_eq!(
        result_iter.next().expect("Error reading test: test_func_assignment"),
        &Token::EOF
    );
}

#[test]
fn test_none_assignment() {
    let result = lex("def is_none: _ ->none".to_string()).unwrap();

    let mut result_iter = result.iter();
    assert_eq!(
        result_iter.next().expect("Error reading test: test_none_assignment"),
        &Token::Def
    );
    assert_eq!(
        result_iter.next().expect("Error reading test: test_none_assignment"),
        &Token::Symbol("is_none".to_string())
    );
    assert_eq!(
        result_iter.next().expect("Error reading test: test_none_assignment"),
        &Token::TypeDelim
    );
    assert_eq!(
        result_iter.next().expect("Error reading test: test_none_assignment"),
        &Token::TypeDecl("_".to_string())
    );
    assert_eq!(
        result_iter.next().expect("Error reading test: test_none_assignment"),
        &Token::Assign
    );
    assert_eq!(
        result_iter.next().expect("Error reading test: test_none_assignment"),
        &Token::Nil
    );
    assert_eq!(
        result_iter.next().expect("Error reading test: test_func_assignment"),
        &Token::EOF
    );
}

#[test]
fn test_func_assignment() {
    let result = lex("def no_args_func: _ -> print \"Hello, world!\"".to_string()).unwrap();

    let mut result_iter = result.iter();
    assert_eq!(
        result_iter.next().expect("Error reading test: test_none_assignment"),
        &Token::Def
    );
    assert_eq!(
        result_iter.next().expect("Error reading test: test_func_assignment"),
        &Token::Symbol("no_args_func".to_string())
    );
    assert_eq!(
        result_iter.next().expect("Error reading test: test_func_assignment"),
        &Token::TypeDelim
    );
    assert_eq!(
        result_iter.next().expect("Error reading test: test_func_assignment"),
        &Token::TypeDecl("_".to_string())
    );
    assert_eq!(
        result_iter.next().expect("Error reading test: test_func_assignment"),
        &Token::Assign
    );
    assert_eq!(
        result_iter.next().expect("Error reading test: test_func_assignment"),
        &Token::Symbol("print".to_string())
    );
    assert_eq!(
        result_iter.next().expect("Error reading test: test_func_assignment"),
        &Token::Str("\"Hello, world!\"".to_string())
    );
    assert_eq!(
        result_iter.next().expect("Error reading test: test_func_assignment"),
        &Token::EOF
    );
}

#[test]
fn test_func_call() {
    let result = lex("print test_string".to_string()).unwrap();

    let mut result_iter = result.iter();
    assert_eq!(
        result_iter.next().expect("Error reading test: test_func_call"),
        &Token::Symbol("print".to_string())
    );
    assert_eq!(
        result_iter.next().expect("Error reading test: test_func_call"),
        &Token::Symbol("test_string".to_string())
    );
    assert_eq!(
        result_iter.next().expect("Error reading test: test_func_assignment"),
        &Token::EOF
    );
}

#[test]
fn test_multiline_func_call() {
    let result = lex("def sum: num\n    x: num\n    y: num ->\n    + x y".to_string()).unwrap();

    let mut result_iter = result.iter();
    assert_eq!(
        result_iter.next().expect("Error reading test: test_multiline_func_call"),
        &Token::Def
    );
    assert_eq!(
        result_iter.next().expect("Error reading test: test_multiline_func_call"),
        &Token::Symbol("sum".to_string())
    );
    assert_eq!(
        result_iter.next().expect("Error reading test: test_multiline_func_call"),
        &Token::TypeDelim
    );
    assert_eq!(
        result_iter.next().expect("Error reading test: test_multiline_func_call"),
        &Token::TypeDecl("num".to_string())
    );
    assert_eq!(
        result_iter.next().expect("Error reading test: test_multiline_func_call"),
        &Token::Indent
    );
    assert_eq!(
        result_iter.next().expect("Error reading test: test_multiline_func_call"),
        &Token::Symbol("x".to_string())
    );
    assert_eq!(
        result_iter.next().expect("Error reading test: test_multiline_func_call"),
        &Token::TypeDelim
    );
    assert_eq!(
        result_iter.next().expect("Error reading test: test_multiline_func_call"),
        &Token::TypeDecl("num".to_string())
    );
    assert_eq!(
        result_iter.next().expect("Error reading test: test_multiline_function_def"),
        &Token::Indent
    );
    assert_eq!(
        result_iter.next().expect("Error reading test: test_multiline_func_call"),
        &Token::Symbol("y".to_string())
    );
    assert_eq!(
        result_iter.next().expect("Error reading test: test_multiline_func_call"),
        &Token::TypeDelim
    );
    assert_eq!(
        result_iter.next().expect("Error reading test: test_multiline_func_call"),
        &Token::TypeDecl("num".to_string())
    );
    assert_eq!(
        result_iter.next().expect("Error reading test: test_multiline_func_call"),
        &Token::Assign
    );
    assert_eq!(
        result_iter.next().expect("Error reading test: test_multiline_function_def"),
        &Token::Indent
    );
    assert_eq!(
        result_iter.next().expect("Error reading test: test_multiline_func_call"),
        &Token::Add
    );
    assert_eq!(
        result_iter.next().expect("Error reading test: test_multiline_func_call"),
        &Token::Symbol("x".to_string())
    );
    assert_eq!(
        result_iter.next().expect("Error reading test: test_multiline_func_call"),
        &Token::Symbol("y".to_string())
    );
    assert_eq!(
        result_iter.next().expect("Error reading test: test_func_assignment"),
        &Token::EOF
    );
}

#[test]
fn test_comment1() {
    let result = lex("# this is a comment".to_string()).unwrap();

    let mut result_iter = result.iter();
    assert_eq!(
        result_iter.next().expect("Error reading test: test_multiline_func_call"),
        &Token::EOF
    );
}

#[test]
fn test_comment2() {
    let result = lex("# this # is # also # a comment".to_string()).unwrap();

    let mut result_iter = result.iter();
    assert_eq!(
        result_iter.next().expect("Error reading test: test_multiline_func_call"),
        &Token::EOF
    );
}

#[test]
fn test_comment3() {
    let result = lex("# this \"should also be a comment\"".to_string()).unwrap();

    let mut result_iter = result.iter();
    assert_eq!(
        result_iter.next().expect("Error reading test: test_multiline_func_call"),
        &Token::EOF
    );
}

#[test]
fn test_inline_comment() {
    let result = lex("symbol sym#comment".to_string()).unwrap();

    let mut result_iter = result.iter();
    assert_eq!(
        result_iter.next().expect("Error reading test: test_inline_comment"),
        &Token::Symbol("symbol".to_string())
    );
    assert_eq!(
        result_iter.next().expect("Error reading test: test_inline_comment"),
        &Token::Symbol("sym".to_string())
    );
    assert_eq!(
        result_iter.next().expect("Error reading test: test_func_assignment"),
        &Token::EOF
    );
}

#[test]
fn test_string_with_comment_symbol() {
    let result = lex("\"this is # not a comment\"".to_string()).unwrap();

    let mut result_iter = result.iter();
    assert_eq!(
        result_iter.next().expect("Error reading test: test_string_with_comment_symbol"),
        &Token::Str("\"this is # not a comment\"".to_string())
    );
    assert_eq!(
        result_iter.next().expect("Error reading test: test_func_assignment"),
        &Token::EOF
    );
}

#[test]
fn test_long_function_def() {
    let result = lex("def x: num -> + 1 / 2 * 3 - 4 5".to_string()).unwrap();

    let mut result_iter = result.iter();
    assert_eq!(
        result_iter.next().expect("Error reading test: test_long_function_def"),
        &Token::Def
    );
    assert_eq!(
        result_iter.next().expect("Error reading test: test_long_function_def"),
        &Token::Symbol("x".to_string())
    );
    assert_eq!(
        result_iter.next().expect("Error reading test: test_long_function_def"),
        &Token::TypeDelim
    );
    assert_eq!(
        result_iter.next().expect("Error reading test: test_long_function_def"),
        &Token::TypeDecl("num".to_string())
    );
    assert_eq!(
        result_iter.next().expect("Error reading test: test_long_function_def"),
        &Token::Assign
    );
    assert_eq!(
        result_iter.next().expect("Error reading test: test_long_function_def"),
        &Token::Add
    );
    assert_eq!(
        result_iter.next().expect("Error reading test: test_long_function_def"),
        &Token::Num(Number::integer(1))
    );
    assert_eq!(
        result_iter.next().expect("Error reading test: test_long_function_def"),
        &Token::Divide
    );
    assert_eq!(
        result_iter.next().expect("Error reading test: test_long_function_def"),
        &Token::Num(Number::integer(2))
    );
    assert_eq!(
        result_iter.next().expect("Error reading test: test_long_function_def"),
        &Token::Multiply
    );
    assert_eq!(
        result_iter.next().expect("Error reading test: test_long_function_def"),
        &Token::Num(Number::integer(3))
    );
    assert_eq!(
        result_iter.next().expect("Error reading test: test_long_function_def"),
        &Token::Subtract
    );
    assert_eq!(
        result_iter.next().expect("Error reading test: test_long_function_def"),
        &Token::Num(Number::integer(4))
    );
    assert_eq!(
        result_iter.next().expect("Error reading test: test_long_function_def"),
        &Token::Num(Number::integer(5))
    );
    assert_eq!(
        result_iter.next().expect("Error reading test: test_func_assignment"),
        &Token::EOF
    );
}

#[test]
fn test_multiline_func_def() {
    let result = lex("def x: num -> sum 1\n    divide 2\n        multiply 3\n            subtract 4 5".to_string()).unwrap();

    let mut result_iter = result.iter();
    assert_eq!(
        result_iter.next().expect("Error reading test: test_multiline_function_def"),
        &Token::Def
    );
    assert_eq!(
        result_iter.next().expect("Error reading test: test_multiline_function_def"),
        &Token::Symbol("x".to_string())
    );
    assert_eq!(
        result_iter.next().expect("Error reading test: test_multiline_function_def"),
        &Token::TypeDelim
    );
    assert_eq!(
        result_iter.next().expect("Error reading test: test_multiline_function_def"),
        &Token::TypeDecl("num".to_string())
    );
    assert_eq!(
        result_iter.next().expect("Error reading test: test_multiline_function_def"),
        &Token::Assign
    );
    assert_eq!(
        result_iter.next().expect("Error reading test: test_multiline_function_def"),
        &Token::Symbol("sum".to_string())
    );
    assert_eq!(
        result_iter.next().expect("Error reading test: test_multiline_function_def"),
        &Token::Num(Number::integer(1))
    );
    assert_eq!(
        result_iter.next().expect("Error reading test: test_multiline_function_def"),
        &Token::Indent
    );
    assert_eq!(
        result_iter.next().expect("Error reading test: test_multiline_function_def"),
        &Token::Symbol("divide".to_string())
    );
    assert_eq!(
        result_iter.next().expect("Error reading test: test_multiline_function_def"),
        &Token::Num(Number::integer(2))
    );
    assert_eq!(
        result_iter.next().expect("Error reading test: test_multiline_function_def"),
        &Token::Indent
    );
    assert_eq!(
        result_iter.next().expect("Error reading test: test_multiline_function_def"),
        &Token::Symbol("multiply".to_string())
    );
    assert_eq!(
        result_iter.next().expect("Error reading test: test_multiline_function_def"),
        &Token::Num(Number::integer(3))
    );
    assert_eq!(
        result_iter.next().expect("Error reading test: test_multiline_function_def"),
        &Token::Indent
    );
    assert_eq!(
        result_iter.next().expect("Error reading test: test_multiline_function_def"),
        &Token::Symbol("subtract".to_string())
    );
    assert_eq!(
        result_iter.next().expect("Error reading test: test_multiline_function_def"),
        &Token::Num(Number::integer(4))
    );
    assert_eq!(
        result_iter.next().expect("Error reading test: test_multiline_function_def"),
        &Token::Num(Number::integer(5))
    );
    assert_eq!(
        result_iter.next().expect("Error reading test: test_func_assignment"),
        &Token::EOF
    );
}

#[test]
fn test_two_func_decls() {
    let result = lex("def func_1: _ ->\n    print \"Hello, world!\"\ndef func_2: num ->\n    + 2 2".to_string()).unwrap();

    let mut result_iter = result.iter();
    assert_eq!(
        result_iter.next().expect("Error reading test: test_two_func_decls"),
        &Token::Def
    );
    assert_eq!(
        result_iter.next().expect("Error reading test: test_two_func_decls"),
        &Token::Symbol("func_1".to_string())
    );
    assert_eq!(
        result_iter.next().expect("Error reading test: test_two_func_decls"),
        &Token::TypeDelim
    );
    assert_eq!(
        result_iter.next().expect("Error reading test: test_two_func_decls"),
        &Token::TypeDecl("_".to_string())
    );
    assert_eq!(
        result_iter.next().expect("Error reading test: test_two_func_decls"),
        &Token::Assign
    );
    assert_eq!(
        result_iter.next().expect("Error reading test: test_two_func_decls"),
        &Token::Indent
    );
    assert_eq!(
        result_iter.next().expect("Error reading test: test_two_func_decls"),
        &Token::Symbol("print".to_string())
    );
    assert_eq!(
        result_iter.next().expect("Error reading test: test_two_func_decls"),
        &Token::Str("\"Hello, world!\"".to_string())
    );
    assert_eq!(
        result_iter.next().expect("Error reading test: test_two_func_decls"),
        &Token::Dedent
    );
    assert_eq!(
        result_iter.next().expect("Error reading test: test_two_func_decls"),
        &Token::Def
    );
    assert_eq!(
        result_iter.next().expect("Error reading test: test_two_func_decls"),
        &Token::Symbol("func_2".to_string())
    );
    assert_eq!(
        result_iter.next().expect("Error reading test: test_two_func_decls"),
        &Token::TypeDelim
    );
    assert_eq!(
        result_iter.next().expect("Error reading test: test_two_func_decls"),
        &Token::TypeDecl("num".to_string())
    );
    assert_eq!(
        result_iter.next().expect("Error reading test: test_two_func_decls"),
        &Token::Assign
    );
    assert_eq!(
        result_iter.next().expect("Error reading test: test_two_func_decls"),
        &Token::Indent
    );
    assert_eq!(
        result_iter.next().expect("Error reading test: test_two_func_decls"),
        &Token::Add
    );
    assert_eq!(
        result_iter.next().expect("Error reading test: test_two_func_decls"),
        &Token::Num(Number::integer(2))
    );
    assert_eq!(
        result_iter.next().expect("Error reading test: test_two_func_decls"),
        &Token::Num(Number::integer(2))
    );
    assert_eq!(
        result_iter.next().expect("Error reading test: test_func_assignment"),
        &Token::EOF
    );
}

#[test]
fn test_appl() {
    let result = lex("plus 1 2 $ divide 3 4".to_string()).unwrap();

    let mut result_iter = result.iter();
    assert_eq!(
        result_iter.next().expect("Error reading test: test_two_func_decls"),
        &Token::Symbol("plus".to_string())
    );
    assert_eq!(
        result_iter.next().expect("Error reading test: test_two_func_decls"),
        &Token::Num(Number::integer(1))
    );
    assert_eq!(
        result_iter.next().expect("Error reading test: test_two_func_decls"),
        &Token::Num(Number::integer(2))
    );
    assert_eq!(
        result_iter.next().expect("Error reading test: test_two_func_decls"),
        &Token::Appl
    );
    assert_eq!(
        result_iter.next().expect("Error reading test: test_two_func_decls"),
        &Token::Symbol("divide".to_string())
    );
    assert_eq!(
        result_iter.next().expect("Error reading test: test_two_func_decls"),
        &Token::Num(Number::integer(3))
    );
    assert_eq!(
        result_iter.next().expect("Error reading test: test_two_func_decls"),
        &Token::Num(Number::integer(4))
    );
}

#[test]
fn test_paren_expr() {
    let result = lex("plus 1 2 (divide 3 4)".to_string()).unwrap();

    let mut result_iter = result.iter();
    assert_eq!(
        result_iter.next().expect("Error reading test: test_two_func_decls"),
        &Token::Symbol("plus".to_string())
    );
    assert_eq!(
        result_iter.next().expect("Error reading test: test_two_func_decls"),
        &Token::Num(Number::integer(1))
    );
    assert_eq!(
        result_iter.next().expect("Error reading test: test_two_func_decls"),
        &Token::Num(Number::integer(2))
    );
    assert_eq!(
        result_iter.next().expect("Error reading test: test_two_func_decls"),
        &Token::LeftParen
    );
    assert_eq!(
        result_iter.next().expect("Error reading test: test_two_func_decls"),
        &Token::Symbol("divide".to_string())
    );
    assert_eq!(
        result_iter.next().expect("Error reading test: test_two_func_decls"),
        &Token::Num(Number::integer(3))
    );
    assert_eq!(
        result_iter.next().expect("Error reading test: test_two_func_decls"),
        &Token::Num(Number::integer(4))
    );
    assert_eq!(
        result_iter.next().expect("Error reading test: test_two_func_decls"),
        &Token::RightParen
    );
}
