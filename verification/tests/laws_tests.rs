use aguda_rs::compile_aguda_program;
use aguda_rs::diagnostics::errors::{
    CompileError, DeclarationError, DeclarationErrorKind, SemanticError, TypeError, TypeErrorKind,
};
use aguda_rs::diagnostics::formatting::{format_message, Tint};
use aguda_rs::semantic::symbol_table::SymbolTable;
use aguda_rs::semantic::type_checker::TypeChecker;
use aguda_rs::semantic::{get_init_symbols, Symbol};
use aguda_rs::syntax::ast::{Decl, Expr, Lhs, Program, Span, Spanned, Type};
use aguda_rs::syntax::lexer::Lexer;
use aguda_rs::syntax::parser::Parser;
use aguda_rs::utils::get_position_in_src;

const SAMPLE: &str = "-- a sample\n\
let limit : Int = 10\n\
let fill(a, n, v) : (Int[], Int, Int) -> Unit =\n\
  let i : Int = 0;\n\
  while i < n do (set a[i] = v * -i; set i = i + 1)\n\
let main(_) : (Unit) -> Unit =\n\
  let a : Int[] = new Int[limit | 0];\n\
  fill(a, length(a), 2 ^ 3 ^ 2);\n\
  if a[0] == 0 && !(limit < 0) then print(a[1]) else print(\"no\\n\")\n";

fn within(inner: Span, outer: Span) -> bool {
    outer.start <= inner.start && inner.end <= outer.end
}

fn lhs_nested(l: &Spanned<Lhs>) -> bool {
    l.span.start <= l.span.end
        && match &l.value {
            Lhs::Var { id } => within(id.span, l.span),
            Lhs::Index { lhs, index } => {
                within(lhs.span, l.span)
                    && within(index.span, l.span)
                    && lhs_nested(lhs)
                    && nested(index)
            }
        }
}

fn nested(e: &Spanned<Expr>) -> bool {
    let inside = |child: &Spanned<Expr>| within(child.span, e.span) && nested(child);
    e.span.start <= e.span.end
        && match &e.value {
            Expr::Chain { lhs, rhs } => inside(lhs) && inside(rhs),
            Expr::Let { id, ty, expr } => {
                within(id.span, e.span) && within(ty.span, e.span) && inside(expr)
            }
            Expr::SetLhs { lhs, expr } => {
                within(lhs.span, e.span) && lhs_nested(lhs) && inside(expr)
            }
            Expr::BinOp { lhs, rhs, .. } => inside(lhs) && inside(rhs),
            Expr::Not { expr } => inside(expr),
            Expr::While { cond, expr } => inside(cond) && inside(expr),
            Expr::IfElse { cond, then, els } => inside(cond) && inside(then) && inside(els),
            Expr::FunCall { id, args } => within(id.span, e.span) && args.iter().all(inside),
            Expr::NewArray { ty, size, init } => {
                within(ty.span, e.span) && inside(size) && inside(init)
            }
            Expr::ArrayIndex { lhs, index } => {
                within(lhs.span, e.span) && lhs_nested(lhs) && inside(index)
            }
            Expr::Id(id) => within(id.span, e.span),
            _ => true,
        }
}

fn parse(src: &str) -> Program {
    Parser::new(Lexer::new(src).tokenize().unwrap()).parse().unwrap()
}

#[test]
fn every_node_spans_its_children() {
    let program = parse(SAMPLE);
    assert_eq!(program.decls.len(), 3);
    for decl in &program.decls {
        let body = match &decl.value {
            Decl::Var { id, ty, expr } => {
                assert!(within(id.span, decl.span) && within(ty.span, decl.span));
                expr
            }
            Decl::Fun { id, params, ty, expr } => {
                assert!(within(id.span, decl.span) && within(ty.span, decl.span));
                assert!(params.iter().all(|p| within(p.span, decl.span)));
                expr
            }
        };
        assert!(within(body.span, decl.span));
        assert!(nested(body));
    }
}

#[test]
fn tokens_partition_the_source_but_for_trivia() {
    let tokens = Lexer::new(SAMPLE).tokenize().unwrap();
    let mut at = 0;
    for token in &tokens {
        assert!(at <= token.span.start && token.span.start < token.span.end);
        let gap = &SAMPLE[at..token.span.start];
        let is_trivia = gap
            .lines()
            .all(|line| line.trim().is_empty() || line.trim_start().starts_with("--"));
        assert!(is_trivia, "unexpected text between tokens: {:?}", gap);
        at = token.span.end;
    }
    assert!(SAMPLE[at..].trim().is_empty());
}

#[test]
fn an_accepted_expression_has_a_concrete_type() {
    let program = parse("let main(_) : (Unit) -> Unit = print(1 + 2)");
    let mut checker = TypeChecker::new();
    match &program.decls[0].value {
        Decl::Fun { expr, .. } => {
            let ty = checker.type_of(expr);
            assert_eq!(ty, Type::Unit);
            assert!(checker.errors.is_empty());
            match &expr.value {
                Expr::FunCall { args, .. } => {
                    assert_eq!(checker.type_of(&args[0]), Type::Int);
                }
                other => panic!("unexpected {:?}", other),
            }
        }
        other => panic!("unexpected {:?}", other),
    }
}

#[test]
fn an_unresolved_name_has_the_placeholder_type() {
    let program = parse("let main(_) : (Unit) -> Unit = print(nothing)");
    let mut checker = TypeChecker::new();
    match &program.decls[0].value {
        Decl::Fun { expr, .. } => match &expr.value {
            Expr::FunCall { args, .. } => {
                assert_eq!(checker.type_of(&args[0]), Type::Any);
                assert!(checker.errors.is_empty());
            }
            other => panic!("unexpected {:?}", other),
        },
        other => panic!("unexpected {:?}", other),
    }
}

#[test]
fn an_accepted_program_has_one_main_of_the_right_type() {
    let src = "let helper(x) : (Int) -> Int = x let main(_) : (Unit) -> Unit = print(helper(1))";
    let (program, _) = compile_aguda_program(src).unwrap();
    let mains: Vec<_> = program
        .decls
        .iter()
        .filter_map(|d| match &d.value {
            Decl::Fun { id, ty, .. } if id.value == "main" => Some(ty),
            _ => None,
        })
        .collect();
    assert_eq!(mains.len(), 1);
    assert_eq!(mains[0].value.params, vec![Type::Unit]);
    assert_eq!(*mains[0].value.ret, Type::Unit);
}

#[test]
fn analysis_is_a_function_of_the_source() {
    let first = compile_aguda_program(SAMPLE);
    let second = compile_aguda_program(SAMPLE);
    assert_eq!(first, second);
    assert!(first.is_ok());
    let broken = "let main(_) : (Unit) -> Unit = prnt(x) + true";
    assert_eq!(compile_aguda_program(broken), compile_aguda_program(broken));
}

#[test]
fn text_form_of_the_sample() {
    let program = parse(SAMPLE);
    assert_eq!(
        program.to_text(),
        "let limit : Int =\n  10\n\n\
         let fill (a, n, v) : (Int[], Int, Int) -> Unit =\n  \
         let i : Int = 0;\n  \
         while i < n do\n    (set a[i] = v * (0 - i);\n    set i = i + 1)\n\n\
         let main (_) : (Unit) -> Unit =\n  \
         let a : Int[] = new Int[limit | 0];\n  \
         fill(a, length(a), 2 ** 3 ** 2);\n  \
         if a[0] == 0 && !(limit < 0) then\n    print(a[1])\n  else\n    print(\"no\\n\")"
    );
}

#[test]
fn positions_count_characters_not_bytes() {
    assert_eq!(get_position_in_src("é\nxy", 3), (2, 1));
    assert_eq!(get_position_in_src("éa", 2), (1, 2));
    assert_eq!(get_position_in_src("éa", 1), (1, 3));
    assert_eq!(get_position_in_src("", 0), (1, 1));
}

#[test]
fn a_carriage_return_in_front_of_a_line_feed_is_no_part_of_the_line() {
    colored::control::set_override(false);
    let text = format_message("f", "ab\r\ncd\r\n", Span { start: 4, end: 6 }, "L:", "d", Tint::Red);
    assert_eq!(text, "f:2:1\nL: d at line 2, column 1\n\tcd\n\t^^");
}

#[test]
fn every_span_lies_inside_the_text() {
    let src = "let s : String = \"ü\" -- ç\nlet main(_) : (Unit) -> Unit = print(s)  ";
    let tokens = Lexer::new(src).tokenize().unwrap();
    for token in &tokens {
        assert!(token.span.start < token.span.end);
        assert!(token.span.end <= src.len());
    }
    let program = Parser::new(tokens).parse().unwrap();
    for decl in &program.decls {
        assert!(decl.span.start < decl.span.end);
        assert!(decl.span.end <= src.len());
    }
    assert_eq!(program.decls[1].span.end, src.len() - 2);
}

fn semantic_errors(src: &str) -> (Vec<DeclarationError>, Vec<TypeError>) {
    let mut declarations = Vec::new();
    let mut types = Vec::new();
    for error in compile_aguda_program(src).unwrap_err() {
        match error {
            CompileError::Semantic(SemanticError::Declaration(e)) => declarations.push(e),
            CompileError::Semantic(SemanticError::Type(e)) => types.push(e),
            other => panic!("unexpected {:?}", other),
        }
    }
    (declarations, types)
}

#[test]
fn each_main_behind_the_first_is_reported_at_its_name() {
    let src = "let main(_):(Unit)->Unit = unit let f(x):(Int)->Int = x \
               let main(_):(Unit)->Unit = unit let main(_):(Unit)->Unit = unit";
    let (declarations, types) = semantic_errors(src);
    assert!(types.is_empty());
    let second = src.match_indices("main").nth(1).unwrap().0;
    let third = src.match_indices("main").nth(2).unwrap().0;
    assert_eq!(
        declarations,
        vec![
            DeclarationError {
                kind: DeclarationErrorKind::DuplicateMain,
                span: Span { start: second, end: second + 4 },
            },
            DeclarationError {
                kind: DeclarationErrorKind::DuplicateMain,
                span: Span { start: third, end: third + 4 },
            },
        ]
    );
}

#[test]
fn a_missing_main_is_the_last_error_and_the_only_one_of_its_kind() {
    let (declarations, _) = semantic_errors("let x : Int = y let print : Int = 1");
    let missing: Vec<usize> = declarations
        .iter()
        .enumerate()
        .filter(|(_, e)| e.kind == DeclarationErrorKind::MissingMain)
        .map(|(i, _)| i)
        .collect();
    assert_eq!(missing, vec![declarations.len() - 1]);
    assert_eq!(declarations.last().unwrap().span, Span { start: 0, end: 0 });
    assert!(declarations.len() >= 2);
}

#[test]
fn a_main_of_another_type_is_reported_at_its_type() {
    let src = "let main(n) : (Int) -> Unit = print(n + true)";
    let (declarations, types) = semantic_errors(src);
    assert!(declarations.is_empty());
    let mismatches: Vec<&TypeError> =
        types.iter().filter(|e| e.kind == TypeErrorKind::MainSignatureMismatch).collect();
    assert_eq!(mismatches.len(), 1);
    let start = src.find("(Int)").unwrap();
    assert_eq!(mismatches[0].span, Span { start, end: start + "(Int) -> Unit".len() });
    assert_eq!(types.len(), 2);
    let right = "let main(_) : (Unit) -> Unit = print(1 + true)";
    let (_, types) = semantic_errors(right);
    assert!(types.iter().all(|e| e.kind != TypeErrorKind::MainSignatureMismatch));
    assert_eq!(types.len(), 1);
}

#[test]
fn a_scope_binds_a_name_once() {
    let mut table: SymbolTable<Symbol> = SymbolTable::new(get_init_symbols());
    let of = |ty: Type| Symbol { ty, span: Span { start: 0, end: 0 } };
    table.enter_scope();
    assert!(table.declare("x", of(Type::Int)));
    assert!(table.declare("y", of(Type::Int)));
    assert!(table.declare("x", of(Type::Bool)));
    let names: Vec<&str> =
        table.scopes.last().unwrap().symbols.iter().map(|(name, _)| name.as_str()).collect();
    assert_eq!(names, vec!["x", "y"]);
    assert_eq!(table.lookup("x").unwrap().ty, Type::Bool);
    table.exit_scope();
    assert!(!table.declare("length", of(Type::Int)));
    assert_eq!(table.scopes[0].symbols.len(), 2);
}

#[test]
fn only_white_space_and_comments_stand_between_tokens() {
    let src = "-- first\nlet x : Int = 1 -- a - b\n\t \r\n let y : Int = x--end";
    let tokens = Lexer::new(src).tokenize().unwrap();
    let bytes = src.as_bytes();
    for at in 0..bytes.len() {
        if tokens.iter().any(|t| t.span.start <= at && at < t.span.end) {
            continue;
        }
        let line_start = bytes[..at].iter().rposition(|b| *b == b'\n').map_or(0, |i| i + 1);
        let in_comment = (line_start..=at).any(|start| src[start..].starts_with("--"));
        let blank = matches!(bytes[at], b' ' | b'\t' | b'\r' | b'\n' | 0x0c);
        assert!(blank || in_comment, "byte {} belongs to nothing", at);
    }
    assert_eq!(tokens.len(), 12);
}

#[test]
fn only_references_that_do_not_resolve_are_reported_as_undeclared() {
    let src = "let g : Int = 1 \
               let f(a) : (Int) -> Int = let b : Int = a + g; b + c + f(a) + h(b) \
               let main(_) : (Unit) -> Unit = print(f(g)); let d : Int = 1; print(d + e)";
    let (declarations, _) = semantic_errors(src);
    let names: Vec<(String, usize)> = declarations
        .into_iter()
        .map(|e| match e.kind {
            DeclarationErrorKind::UndeclaredIdentifier(name, _) => (name, e.span.start),
            other => panic!("unexpected {:?}", other),
        })
        .collect();
    let place = |text: &str| src.find(text).unwrap();
    assert_eq!(
        names,
        vec![
            ("c".to_string(), place("c + f(a)")),
            ("h".to_string(), place("h(b)")),
            ("e".to_string(), place("e)")),
        ]
    );
}
