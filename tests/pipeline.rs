use kdnlang::ast::{Expression, Program, Statement};
use kdnlang::interpreter::{Interpreter, InterpreterError};
use kdnlang::lexer::{Lexer, LexerError};
use kdnlang::parser::{Found, Parser, ParserError};
use kdnlang::token::{Span, TokenKind};
use kdnlang::value::Value;

fn parse(src: &str) -> Result<Program, ParserError> {
    let lexer = Lexer::new(src);
    let mut parser = Parser::new(lexer, src.to_string())?;
    parser.parse_program()
}

fn run(src: &str) -> (Interpreter, Result<(), InterpreterError>) {
    let program = parse(src).expect("program should parse");
    let mut interpreter = Interpreter::new(src.to_string());
    let result = interpreter.interpret(program);
    (interpreter, result)
}

fn output_of(src: &str) -> String {
    let (interpreter, result) = run(src);
    assert_eq!(result, Ok(()));
    interpreter.output().clone()
}

fn kinds(src: &str) -> Result<Vec<TokenKind>, LexerError> {
    let mut lexer = Lexer::new(src);
    let mut out = Vec::new();
    loop {
        let token = lexer.next_token()?;
        let kind = token.kind().clone();
        let done = kind == TokenKind::Eof;
        out.push(kind);
        if done {
            return Ok(out);
        }
    }
}

#[test]
fn if_statement_prints_bound_value() {
    let (interpreter, result) = run("x = 5\nif x > 3\n  print(x)\n");
    assert_eq!(result, Ok(()));
    assert_eq!(interpreter.output(), "5\n");
    assert_eq!(interpreter.variable(&"x".to_string()), Some(Value::Number(5)));
}

#[test]
fn for_loop_prints_each_number() {
    assert_eq!(output_of("for i = 1 to 3\n  print(i)\n"), "1\n2\n3\n");
}

#[test]
fn division_by_zero_is_runtime_error() {
    let (_, result) = run("y = 10 / 0");
    assert_eq!(
        result,
        Err(InterpreterError::RuntimeError { message: "Division by zero".to_string() })
    );
}

#[test]
fn unterminated_string_from_lexer() {
    assert_eq!(
        kinds("s = \"abc"),
        Err(LexerError::UnterminatedString { span: Span { start: 4, end: 8 } })
    );
}

#[test]
fn unterminated_string_through_parser() {
    assert_eq!(
        parse("s = \"abc").unwrap_err(),
        ParserError::UnexpectedToken {
            expected: "any token".to_string(),
            found: Found::LexerFailure(LexerError::UnterminatedString {
                span: Span { start: 4, end: 8 }
            }),
            span: Span { start: 4, end: 8 },
        }
    );
}

#[test]
fn dedent_to_unknown_width_is_indentation_error() {
    let result = kinds("if x\n    a = 1\n  b = 2\n");
    assert_eq!(
        result,
        Err(LexerError::IndentationError { span: Span { start: 15, end: 17 } })
    );
}

#[test]
fn string_plus_number_concatenates() {
    assert_eq!(output_of("print(\"n=\" + 5)"), "n=5\n");
}

#[test]
fn number_plus_string_concatenates() {
    assert_eq!(output_of("print(5 + \"x\", \"a\" + \"b\")"), "5x ab\n");
}

#[test]
fn number_plus_boolean_is_type_error() {
    let (_, result) = run("print(1 + (2 > 1))");
    assert_eq!(
        result,
        Err(InterpreterError::TypeError {
            message: "Cannot apply operator Add to Number and Boolean".to_string()
        })
    );
}

#[test]
fn text_minus_number_is_type_error() {
    let (_, result) = run("x = \"a\" - 1");
    assert_eq!(
        result,
        Err(InterpreterError::TypeError {
            message: "Cannot apply operator Subtract to String and Number".to_string()
        })
    );
}

#[test]
fn indents_and_dedents_balance() {
    let tokens = kinds("a = 1\nif a\n  if a\n    b = 2\n  c = 3\nd = 4\nwhile a\n  a = 0\n").unwrap();
    let indents = tokens.iter().filter(|k| matches!(k, TokenKind::Indent(_))).count();
    let dedents = tokens.iter().filter(|k| matches!(k, TokenKind::Dedent(_))).count();
    assert_eq!(indents, 3);
    assert_eq!(dedents, 3);
}

#[test]
fn dedents_are_flushed_at_end_of_input() {
    let tokens = kinds("if a\n  if b\n    c = 1").unwrap();
    let tail: Vec<TokenKind> = tokens[tokens.len() - 3..].to_vec();
    assert_eq!(tail, vec![TokenKind::Dedent(4), TokenKind::Dedent(2), TokenKind::Eof]);
}

#[test]
fn eof_repeats() {
    let mut lexer = Lexer::new("x");
    assert_eq!(lexer.next_token().unwrap().kind(), &TokenKind::Identifier("x".to_string()));
    assert_eq!(lexer.next_token().unwrap().kind(), &TokenKind::Eof);
    assert_eq!(lexer.next_token().unwrap().kind(), &TokenKind::Eof);
}

#[test]
fn division_truncates_toward_zero() {
    assert_eq!(
        output_of("a = 0 - 7\nb = 0 - 2\nprint(7 / 2, a / 2, 7 / b, a / b)"),
        "3 -3 -3 3\n"
    );
}

#[test]
fn undefined_variable_fails() {
    let (_, result) = run("print(y)");
    assert_eq!(result, Err(InterpreterError::UndefinedVariable { name: "y".to_string() }));
}

#[test]
fn variable_assigned_only_in_branch_not_taken_is_undefined() {
    let (interpreter, result) = run("if 0\n  y = 1\nprint(y)\n");
    assert_eq!(result, Err(InterpreterError::UndefinedVariable { name: "y".to_string() }));
    assert_eq!(interpreter.output(), "");
}

#[test]
fn for_loop_with_end_below_start_runs_no_time() {
    let (interpreter, result) = run("for i = 3 to 1\n  print(i)\n");
    assert_eq!(result, Ok(()));
    assert_eq!(interpreter.output(), "");
    assert_eq!(interpreter.variable(&"i".to_string()), None);
}

#[test]
fn for_loop_variable_keeps_last_value() {
    assert_eq!(output_of("s = 0\nfor i = 2 to 4\n  s = s + i\nprint(s, i)\n"), "9 4\n");
}

#[test]
fn for_loop_bound_must_be_number() {
    let (_, result) = run("for i = \"a\" to 3\n  print(i)\n");
    assert_eq!(
        result,
        Err(InterpreterError::TypeError {
            message: "For loop start value must be a number".to_string()
        })
    );
}

#[test]
fn truthiness_of_each_kind() {
    assert!(Value::Boolean(true).is_truthy());
    assert!(!Value::Boolean(false).is_truthy());
    assert!(Value::Number(-1).is_truthy());
    assert!(!Value::Number(0).is_truthy());
    assert!(Value::String("a".to_string()).is_truthy());
    assert!(!Value::String(String::new()).is_truthy());
    assert!(!Value::Null.is_truthy());
}

#[test]
fn display_of_each_kind() {
    assert_eq!(Value::Number(-42).display(), "-42");
    assert_eq!(Value::Number(i64::MIN).display(), "-9223372036854775808");
    assert_eq!(Value::Number(0).display(), "0");
    assert_eq!(Value::Boolean(true).display(), "true");
    assert_eq!(Value::String("hi".to_string()).display(), "hi");
    assert_eq!(Value::Null.display(), "null");
}

#[test]
fn while_loop_repeats_until_false() {
    assert_eq!(output_of("i = 0\nwhile i < 3\n  i = i + 1\nprint(i)\n"), "3\n");
}

#[test]
fn else_branch_runs_when_condition_false() {
    assert_eq!(output_of("x = 1\nif x > 3\n  print(1)\nelse\n  print(2)\nprint(3)\n"), "2\n3\n");
}

#[test]
fn nested_blocks_end_at_dedent() {
    let src = "for i = 1 to 2\n  if i == 2\n    print(\"two\")\n  print(i)\nprint(\"end\")\n";
    assert_eq!(output_of(src), "1\ntwo\n2\nend\n");
}

#[test]
fn comparisons_give_booleans() {
    assert_eq!(output_of("print(1 < 2, 2 <= 1, 3 >= 3, 4 == 5)"), "true false true false\n");
}

#[test]
fn precedence_and_parentheses() {
    assert_eq!(output_of("print(1 + 2 * 3, (1 + 2) * 3, 10 - 4 - 3)"), "7 9 3\n");
}

#[test]
fn overflow_is_runtime_error() {
    let (_, result) = run("x = 9223372036854775807 + 1");
    assert_eq!(
        result,
        Err(InterpreterError::RuntimeError { message: "Integer overflow".to_string() })
    );
}

#[test]
fn call_in_expression_is_runtime_error() {
    let (_, result) = run("x = f(1, 2)");
    assert_eq!(
        result,
        Err(InterpreterError::RuntimeError {
            message: "Function calls not supported in expressions: f".to_string()
        })
    );
}

#[test]
fn unknown_function_statement_is_runtime_error() {
    let program = Program {
        statements: vec![Statement::FunctionCall {
            name: "shout".to_string(),
            arguments: vec![Expression::Number(1)],
        }],
    };
    let mut interpreter = Interpreter::new(String::new());
    assert_eq!(
        interpreter.interpret(program),
        Err(InterpreterError::RuntimeError { message: "Unknown function: shout".to_string() })
    );
}

#[test]
fn comments_and_blank_lines_are_skipped() {
    assert_eq!(output_of("# note\n\nx = 2 # two\n   \n  # indented note\nprint(x)\n"), "2\n");
}

#[test]
fn string_escapes_are_unescaped() {
    assert_eq!(
        kinds("\"a\\n\\t\\\"b\\\\\"").unwrap()[0],
        TokenKind::String("a\n\t\"b\\".to_string())
    );
}

#[test]
fn invalid_escape_sequence() {
    assert_eq!(
        kinds("\"a\\q\""),
        Err(LexerError::InvalidEscapeSequence { character: 'q', span: Span { start: 2, end: 4 } })
    );
}

#[test]
fn unexpected_character() {
    assert_eq!(
        kinds("x = @"),
        Err(LexerError::UnexpectedCharacter { character: '@', span: Span { start: 4, end: 5 } })
    );
    assert_eq!(
        kinds("a & b"),
        Err(LexerError::UnexpectedCharacter { character: '&', span: Span { start: 2, end: 3 } })
    );
}

#[test]
fn number_too_large_is_invalid() {
    assert_eq!(
        kinds("x = 99999999999999999999"),
        Err(LexerError::InvalidNumber { span: Span { start: 4, end: 24 } })
    );
    assert_eq!(kinds("9223372036854775807").unwrap()[0], TokenKind::Number(i64::MAX));
}

#[test]
fn operators_and_delimiters() {
    assert_eq!(
        kinds("== = >= > <= < && || ! ( ) [ ] { } ; : , + - * /").unwrap(),
        vec![
            TokenKind::DoubleEquals,
            TokenKind::Equals,
            TokenKind::GreaterThanEquals,
            TokenKind::GreaterThan,
            TokenKind::LessThanEquals,
            TokenKind::LessThan,
            TokenKind::And,
            TokenKind::Or,
            TokenKind::Not,
            TokenKind::LeftParen,
            TokenKind::RightParen,
            TokenKind::LeftBracket,
            TokenKind::RightBracket,
            TokenKind::LeftCurlyBracket,
            TokenKind::RightCurlyBracket,
            TokenKind::Semicolon,
            TokenKind::Colon,
            TokenKind::Comma,
            TokenKind::Plus,
            TokenKind::Minus,
            TokenKind::Asterisk,
            TokenKind::Slash,
            TokenKind::Eof,
        ]
    );
}

#[test]
fn token_spans_count_characters() {
    let mut lexer = Lexer::new("é = 1");
    assert_eq!(
        lexer.next_token(),
        Err(LexerError::UnexpectedCharacter { character: 'é', span: Span { start: 0, end: 1 } })
    );
    let mut lexer = Lexer::new("ab = 12");
    assert_eq!(lexer.next_token().unwrap().span(), Span { start: 0, end: 2 });
    assert_eq!(lexer.next_token().unwrap().span(), Span { start: 3, end: 4 });
    assert_eq!(lexer.next_token().unwrap().span(), Span { start: 5, end: 7 });
}

#[test]
fn crlf_is_one_line_break() {
    assert_eq!(
        kinds("a\r\nb").unwrap(),
        vec![
            TokenKind::Identifier("a".to_string()),
            TokenKind::Newline,
            TokenKind::Identifier("b".to_string()),
            TokenKind::Eof,
        ]
    );
}

#[test]
fn missing_expression_at_end_is_unexpected_eof() {
    assert_eq!(parse("x = ").unwrap_err(), ParserError::UnexpectedEOF { span: Span { start: 4, end: 4 } });
}

#[test]
fn bare_identifier_is_unexpected_token() {
    assert_eq!(
        parse("x + 1").unwrap_err(),
        ParserError::UnexpectedToken {
            expected: "= or (".to_string(),
            found: Found::Token(TokenKind::Plus),
            span: Span { start: 2, end: 3 },
        }
    );
}

#[test]
fn call_statement_other_than_print_is_rejected() {
    match parse("shout(1)").unwrap_err() {
        ParserError::UnexpectedToken { found, .. } => {
            assert_eq!(found, Found::Token(TokenKind::LeftParen))
        }
        other => panic!("unexpected error {:?}", other),
    }
}

#[test]
fn missing_closing_parenthesis() {
    assert_eq!(
        parse("print(1, 2\nx = 1").unwrap_err(),
        ParserError::UnexpectedToken {
            expected: ")".to_string(),
            found: Found::Token(TokenKind::Newline),
            span: Span { start: 10, end: 11 },
        }
    );
}

#[test]
fn parsed_program_shape() {
    let program = parse("x = 1 + 2\n").unwrap();
    assert_eq!(program.statements.len(), 1);
    match &program.statements[0] {
        Statement::Assignment { identifier, expression } => {
            assert_eq!(identifier, "x");
            assert!(matches!(**expression, Expression::BinaryOp { .. }));
        }
        other => panic!("unexpected statement {:?}", other),
    }
}
