use aguda_rs::syntax::ast::{Decl, Expr, Lhs, Op, Program, Span, Spanned};
use aguda_rs::syntax::lexer::Lexer;
use aguda_rs::syntax::parser::Parser;

fn read(src: &str) -> Program {
    Parser::new(Lexer::new(src).tokenize().unwrap()).parse().unwrap()
}

fn nowhere<T>(value: T) -> Spanned<T> {
    Spanned { value, span: Span { start: 0, end: 0 } }
}

fn bare_lhs(l: Spanned<Lhs>) -> Spanned<Lhs> {
    nowhere(match l.value {
        Lhs::Var { id } => Lhs::Var { id: nowhere(id.value) },
        Lhs::Index { lhs, index } => {
            Lhs::Index { lhs: Box::new(bare_lhs(*lhs)), index: Box::new(bare(*index)) }
        }
    })
}

fn bare(e: Spanned<Expr>) -> Spanned<Expr> {
    nowhere(match e.value {
        Expr::Chain { lhs, rhs } => {
            Expr::Chain { lhs: Box::new(bare(*lhs)), rhs: Box::new(bare(*rhs)) }
        }
        Expr::Let { id, ty, expr } => {
            Expr::Let { id: nowhere(id.value), ty: nowhere(ty.value), expr: Box::new(bare(*expr)) }
        }
        Expr::SetLhs { lhs, expr } => {
            Expr::SetLhs { lhs: bare_lhs(lhs), expr: Box::new(bare(*expr)) }
        }
        Expr::BinOp { lhs, op, rhs } => {
            Expr::BinOp { lhs: Box::new(bare(*lhs)), op, rhs: Box::new(bare(*rhs)) }
        }
        Expr::Not { expr } => Expr::Not { expr: Box::new(bare(*expr)) },
        Expr::While { cond, expr } => {
            Expr::While { cond: Box::new(bare(*cond)), expr: Box::new(bare(*expr)) }
        }
        Expr::IfElse { cond, then, els } => Expr::IfElse {
            cond: Box::new(bare(*cond)),
            then: Box::new(bare(*then)),
            els: Box::new(bare(*els)),
        },
        Expr::FunCall { id, args } => {
            Expr::FunCall { id: nowhere(id.value), args: args.into_iter().map(bare).collect() }
        }
        Expr::NewArray { ty, size, init } => Expr::NewArray {
            ty: nowhere(ty.value),
            size: Box::new(bare(*size)),
            init: Box::new(bare(*init)),
        },
        Expr::ArrayIndex { lhs, index } => {
            Expr::ArrayIndex { lhs: bare_lhs(lhs), index: Box::new(bare(*index)) }
        }
        Expr::Id(id) => Expr::Id(nowhere(id.value)),
        other => other,
    })
}

fn bare_program(p: Program) -> Vec<Decl> {
    p.decls
        .into_iter()
        .map(|d| match d.value {
            Decl::Var { id, ty, expr } => {
                Decl::Var { id: nowhere(id.value), ty: nowhere(ty.value), expr: bare(expr) }
            }
            Decl::Fun { id, params, ty, expr } => Decl::Fun {
                id: nowhere(id.value),
                params: params.into_iter().map(|p| nowhere(p.value)).collect(),
                ty: nowhere(ty.value),
                expr: bare(expr),
            },
        })
        .collect()
}

/// The text of the program that `src` writes, after a check that the text
/// writes the same program.
fn text_read_back(src: &str) -> String {
    let text = read(src).to_text();
    assert_eq!(bare_program(read(&text)), bare_program(read(src)), "text: {}", text);
    text
}

fn num(n: i64) -> Box<Spanned<Expr>> {
    Box::new(nowhere(Expr::Int(n)))
}

fn binary(lhs: Box<Spanned<Expr>>, op: Op, rhs: Box<Spanned<Expr>>) -> Box<Spanned<Expr>> {
    Box::new(nowhere(Expr::BinOp { lhs, op, rhs }))
}

fn body(src: &str) -> Spanned<Expr> {
    match bare_program(read(src)).into_iter().next().unwrap() {
        Decl::Var { expr, .. } => expr,
        Decl::Fun { expr, .. } => expr,
    }
}

#[test]
fn a_product_of_a_sum_keeps_its_brackets() {
    let text = text_read_back("let x : Int = (1+2)*3");
    assert_eq!(text, "let x : Int =\n  (1 + 2) * 3");
    assert_eq!(body(&text), *binary(binary(num(1), Op::Add, num(2)), Op::Mul, num(3)));
}

#[test]
fn a_sum_with_a_product_needs_no_brackets() {
    let text = text_read_back("let x : Int = 1+(2*3)");
    assert_eq!(text, "let x : Int =\n  1 + 2 * 3");
    assert_eq!(body(&text), *binary(num(1), Op::Add, binary(num(2), Op::Mul, num(3))));
}

#[test]
fn operators_that_group_left_bracket_their_right_side() {
    assert_eq!(text_read_back("let x : Int = 1 - 2 - 3"), "let x : Int =\n  1 - 2 - 3");
    assert_eq!(text_read_back("let x : Int = 1 - (2 - 3)"), "let x : Int =\n  1 - (2 - 3)");
    assert_eq!(text_read_back("let x : Int = 8 / (4 / 2)"), "let x : Int =\n  8 / (4 / 2)");
    assert_eq!(
        text_read_back("let x : Bool = a || (b || c) && d"),
        "let x : Bool =\n  a || (b || c) && d"
    );
}

#[test]
fn comparisons_bracket_both_sides() {
    assert_eq!(
        text_read_back("let x : Bool = (1 < 2) == (3 < 4)"),
        "let x : Bool =\n  1 < 2 == 3 < 4"
    );
    assert_eq!(
        text_read_back("let x : Bool = (1 == 2) == true"),
        "let x : Bool =\n  (1 == 2) == true"
    );
    assert_eq!(
        text_read_back("let x : Bool = (1 < 2) < (3 == 4)"),
        "let x : Bool =\n  (1 < 2) < (3 == 4)"
    );
}

#[test]
fn a_negated_comparison_keeps_its_brackets() {
    assert_eq!(
        text_read_back("let x : Bool = !(limit < 0)"),
        "let x : Bool =\n  !(limit < 0)"
    );
    assert_eq!(text_read_back("let x : Bool = !limit < 0"), "let x : Bool =\n  !limit < 0");
    assert_eq!(text_read_back("let x : Bool = !!done"), "let x : Bool =\n  !!done");
}

#[test]
fn a_minus_sign_is_written_as_a_subtraction_in_brackets() {
    assert_eq!(text_read_back("let x : Int = -y * 3"), "let x : Int =\n  (0 - y) * 3");
    assert_eq!(text_read_back("let x : Int = 3 - -y"), "let x : Int =\n  3 - (0 - y)");
    assert_eq!(text_read_back("let x : Int = -y + 3"), "let x : Int =\n  0 - y + 3");
}

#[test]
fn statements_as_operands_keep_their_brackets() {
    assert_eq!(
        text_read_back("let x : Int = 1 + (if c then 1 else 2)"),
        "let x : Int =\n  1 + (if c then\n    1\n  else\n    2)"
    );
    assert_eq!(
        text_read_back("let x : Int = (let y : Int = 1; y) * 2"),
        "let x : Int =\n  (let y : Int = 1;\n  y) * 2"
    );
    assert_eq!(
        text_read_back("let x : Unit = (while c do f()) == unit"),
        "let x : Unit =\n  (while c do\n    f()) == unit"
    );
    assert_eq!(
        text_read_back("let x : Unit = !(set a = true)"),
        "let x : Unit =\n  !(set a = true)"
    );
}

#[test]
fn chains_inside_statements_keep_their_brackets() {
    assert_eq!(
        text_read_back("let x : Unit = while c do (f(); g())"),
        "let x : Unit =\n  while c do\n    (f();\n    g())"
    );
    assert_eq!(
        text_read_back("let x : Unit = (while c do f()); g()"),
        "let x : Unit =\n  while c do\n    f();\n  g()"
    );
    assert_eq!(
        text_read_back("let x : Int = if (f(); c) then (1; 2) else (3; 4)"),
        "let x : Int =\n  if (f();\n  c) then\n    (1;\n    2)\n  else\n    (3;\n    4)"
    );
    assert_eq!(
        text_read_back("let x : Int = set a[(f(); 0)] = (g(); 1)"),
        "let x : Int =\n  set a[f();\n0] = (g();\n  1)"
    );
    assert_eq!(
        text_read_back("let x : Int = let y : Int = (f(); 1); y"),
        "let x : Int =\n  let y : Int = (f();\n  1);\n  y"
    );
}

#[test]
fn a_chain_groups_to_the_right_and_brackets_a_chain_on_its_left() {
    assert_eq!(text_read_back("let x : Int = a; b; c"), "let x : Int =\n  a;\n  b;\n  c");
    assert_eq!(text_read_back("let x : Int = (a; b); c"), "let x : Int =\n  (a;\n  b);\n  c");
    assert_eq!(
        text_read_back("let x : Int = (let y : Int = 1); y"),
        "let x : Int =\n  let y : Int = 1;\n  y"
    );
}

#[test]
fn a_string_is_written_in_quotes_with_its_escapes() {
    assert_eq!(
        text_read_back("let main(_) : (Unit) -> Unit = print(\"no\\n\")"),
        "let main (_) : (Unit) -> Unit =\n  print(\"no\\n\")"
    );
    let text = text_read_back("let s : String = \"a\\\"b\\\\c\\td\\re\\0f -- g\"");
    assert_eq!(text, "let s : String =\n  \"a\\\"b\\\\c\\td\\re\\0f -- g\"");
    assert_eq!(body(&text).value, Expr::String("a\"b\\c\td\re\0f -- g".to_string()));
    assert_eq!(text_read_back("let s : String = \"\""), "let s : String =\n  \"\"");
    assert_eq!(Expr::String("let x".to_string()).to_text(0), "\"let x\"");
}

#[test]
fn the_power_operator_reads_back_once_it_is_written_as_in_the_source() {
    let src = "let x : Int = (2 ^ 3) ^ 2 ^ 5 * 2";
    let text = read(src).to_text();
    assert_eq!(text, "let x : Int =\n  (2 ** 3) ** 2 ** 5 * 2");
    assert_eq!(bare_program(read(&text.replace("**", "^"))), bare_program(read(src)));
}

#[test]
fn arguments_indices_and_sizes_need_no_brackets() {
    assert_eq!(
        text_read_back("let x : Int = f((a; b), a[(c; 0)][1 + 2], new Int[][(n; 2) | new Int[1 | 0]])"),
        "let x : Int =\n  f(a;\n  b, a[c;\n0][1 + 2], new Int[][n;\n  2 | new Int[1 | 0]])"
    );
}

#[test]
fn a_whole_program_reads_back() {
    let src = "-- a sample\n\
        let limit : Int = 10\n\
        let fill(a, n, v) : (Int[], Int, Int) -> Unit =\n\
          let i : Int = 0;\n\
          while i < n do (set a[i] = v * -i; set i = i + 1)\n\
        let main(_) : (Unit) -> Unit =\n\
          let a : Int[] = new Int[limit | 0];\n\
          fill(a, length(a), 2 * 3 % 2);\n\
          if a[0] == 0 && !(limit < 0) then print(a[1]) else print(\"no\\n\")\n";
    let text = text_read_back(src);
    assert_eq!(text_read_back(&text), text);
}
