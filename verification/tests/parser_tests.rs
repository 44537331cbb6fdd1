use aguda_rs::diagnostics::errors::{LexicalErrorKind, SyntaxErrorKind};
use aguda_rs::syntax::ast::{Decl, Expr, Op, Span};
use aguda_rs::syntax::lexer::{Lexer, Token};
use aguda_rs::syntax::parser::Parser;

fn tokens_of(src: &str) -> Vec<Token> {
    Lexer::new(src).tokenize().unwrap().into_iter().map(|t| t.value).collect()
}

#[test]
fn lexer_reads_keywords_names_and_numbers() {
    assert_eq!(
        tokens_of("let x : Int = 42 -- a comment\nlety"),
        vec![
            Token::Let,
            Token::Id("x".to_string()),
            Token::Colon,
            Token::IntType,
            Token::Assign,
            Token::Int(42),
            Token::Id("lety".to_string()),
        ]
    );
}

#[test]
fn lexer_takes_the_longer_operator() {
    assert_eq!(
        tokens_of("== = != ! <= < >= > -> - || | &&"),
        vec![
            Token::Equal,
            Token::Assign,
            Token::NotEqual,
            Token::Not,
            Token::LessOrEqual,
            Token::Less,
            Token::GreaterOrEqual,
            Token::Greater,
            Token::Arrow,
            Token::Minus,
            Token::Or,
            Token::Pipe,
            Token::And,
        ]
    );
}

#[test]
fn lexer_spans_are_byte_offsets() {
    let tokens = Lexer::new("é\"é\" x").tokenize();
    let err = tokens.unwrap_err();
    assert_eq!(err.kind, LexicalErrorKind::UnrecognizedToken);
    assert_eq!(err.span, Span { start: 0, end: 2 });
    let tokens = Lexer::new("\"é\" x").tokenize().unwrap();
    assert_eq!(tokens[0].value, Token::String("é".to_string()));
    assert_eq!(tokens[0].span, Span { start: 0, end: 4 });
    assert_eq!(tokens[1].span, Span { start: 5, end: 6 });
}

#[test]
fn lexer_unescapes_strings() {
    assert_eq!(
        tokens_of(r#""a\n\t\"\\b""#),
        vec![Token::String("a\n\t\"\\b".to_string())]
    );
}

#[test]
fn lexer_reports_each_error_kind() {
    let kind = |src: &str| Lexer::new(src).tokenize().unwrap_err().kind;
    assert_eq!(kind("1.5"), LexicalErrorKind::FloatingPointNumber);
    assert_eq!(kind("9223372036854775808"), LexicalErrorKind::IntegerOverflow);
    assert_eq!(kind("\"abc"), LexicalErrorKind::UnterminatedString);
    assert_eq!(kind("\"abc\ndef\""), LexicalErrorKind::UnterminatedString);
    assert_eq!(kind("\"a\\qb\""), LexicalErrorKind::InvalidEscape);
    assert_eq!(kind("x # y"), LexicalErrorKind::UnrecognizedToken);
    assert_eq!(tokens_of("9223372036854775807"), vec![Token::Int(i64::MAX)]);
}

#[test]
fn lexer_error_span_covers_the_float() {
    let err = Lexer::new("x = 12.75 + 1").tokenize().unwrap_err();
    assert_eq!(err.span, Span { start: 4, end: 9 });
}

fn parse(src: &str) -> Result<aguda_rs::syntax::ast::Program, aguda_rs::diagnostics::errors::SyntaxError> {
    let tokens = Lexer::new(src).tokenize().unwrap();
    Parser::new(tokens).parse()
}

fn body_of(src: &str) -> Expr {
    let program = parse(src).unwrap();
    match program.decls.into_iter().next().unwrap().value {
        Decl::Var { expr, .. } => expr.value,
        Decl::Fun { expr, .. } => expr.value,
    }
}

#[test]
fn parser_gives_multiplication_precedence_over_addition() {
    match body_of("let x : Int = 1 + 2 * 3") {
        Expr::BinOp { lhs, op: Op::Add, rhs } => {
            assert_eq!(lhs.value, Expr::Int(1));
            match rhs.value {
                Expr::BinOp { op: Op::Mul, .. } => {}
                other => panic!("unexpected {:?}", other),
            }
        }
        other => panic!("unexpected {:?}", other),
    }
}

#[test]
fn parser_groups_subtraction_left_and_power_right() {
    match body_of("let x : Int = 1 - 2 - 3") {
        Expr::BinOp { lhs, op: Op::Sub, rhs } => {
            assert_eq!(rhs.value, Expr::Int(3));
            assert!(matches!(lhs.value, Expr::BinOp { op: Op::Sub, .. }));
        }
        other => panic!("unexpected {:?}", other),
    }
    match body_of("let x : Int = 2 ^ 3 ^ 4") {
        Expr::BinOp { lhs, op: Op::Pow, rhs } => {
            assert_eq!(lhs.value, Expr::Int(2));
            assert!(matches!(rhs.value, Expr::BinOp { op: Op::Pow, .. }));
        }
        other => panic!("unexpected {:?}", other),
    }
}

#[test]
fn parser_chains_to_the_right() {
    match body_of("let main(_) : (Unit) -> Unit = let x : Int = 0; print(x); unit") {
        Expr::Chain { lhs, rhs } => {
            assert!(matches!(lhs.value, Expr::Let { .. }));
            assert!(matches!(rhs.value, Expr::Chain { .. }));
        }
        other => panic!("unexpected {:?}", other),
    }
}

#[test]
fn parser_writes_negation_as_subtraction_from_zero() {
    match body_of("let x : Int = -5") {
        Expr::BinOp { lhs, op: Op::Sub, rhs } => {
            assert_eq!(lhs.value, Expr::Int(0));
            assert_eq!(lhs.span, Span { start: 14, end: 15 });
            assert_eq!(rhs.value, Expr::Int(5));
        }
        other => panic!("unexpected {:?}", other),
    }
}

#[test]
fn parser_spans_cover_the_source_text() {
    let program = parse("let x : Int = (1 + 2)").unwrap();
    let decl = &program.decls[0];
    assert_eq!(decl.span, Span { start: 0, end: 21 });
    match &decl.value {
        Decl::Var { id, ty, expr } => {
            assert_eq!(id.span, Span { start: 4, end: 5 });
            assert_eq!(ty.span, Span { start: 8, end: 11 });
            assert_eq!(expr.span, Span { start: 14, end: 21 });
        }
        other => panic!("unexpected {:?}", other),
    }
}

#[test]
fn parser_reports_unexpected_token_with_expected_names() {
    let err = parse("let x Int = 1").unwrap_err();
    assert_eq!(err.span, Span { start: 6, end: 9 });
    assert_eq!(
        err.kind,
        SyntaxErrorKind::UnexpectedToken(vec![":".to_string(), "(".to_string()], Token::IntType)
    );
}

#[test]
fn parser_reports_end_of_input_behind_the_last_token() {
    let err = parse("let x : Int = 1;").unwrap_err();
    assert_eq!(err.span, Span { start: 16, end: 16 });
    assert!(matches!(err.kind, SyntaxErrorKind::UnexpectedEof(_)));
}

#[test]
fn parser_does_not_chain_comparisons() {
    assert!(parse("let x : Bool = 1 < 2 < 3").is_err());
    assert!(parse("let x : Bool = 1 == 2 == 3").is_err());
}

#[test]
fn parser_reads_functions_arrays_and_calls() {
    let src = "let f(a, n) : (Int[], Int) -> Int = set a[n] = a[n - 1] + length(a); a[0]\n\
               let main(_) : (Unit) -> Unit = print(f(new Int[3 | 0], 2))";
    let program = parse(src).unwrap();
    assert_eq!(program.decls.len(), 2);
    assert_eq!(
        program.to_text(),
        "let f (a, n) : (Int[], Int) -> Int =\n  set a[n] = a[n - 1] + length(a);\n  a[0]\n\n\
         let main (_) : (Unit) -> Unit =\n  print(f(new Int[3 | 0], 2))"
    );
}
