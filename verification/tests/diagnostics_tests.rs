use aguda_rs::compile_aguda_program;
use aguda_rs::diagnostics::errors::{AgudaError, RuntimeError};
use aguda_rs::diagnostics::formatting::{
    format_aguda_errors, format_hints, format_message, format_warnings, Piece, Style, Tint,
};
use aguda_rs::diagnostics::Diagnostic;
use aguda_rs::diagnostics::hints::get_syntax_hints;
use aguda_rs::syntax::ast::Span;
use aguda_rs::syntax::lexer::Token;

fn plain() {
    colored::control::set_override(false);
}

fn names(list: &[&str]) -> Vec<String> {
    list.iter().map(|s| s.to_string()).collect()
}

#[test]
fn message_shows_place_line_and_carets() {
    plain();
    let text = format_message(
        "main.agu",
        "let x : Int = 1\nlet y : Int = foo\n",
        Span { start: 30, end: 33 },
        "Declaration Error:",
        "undeclared identifier foo",
        Tint::Red,
    );
    assert_eq!(
        text,
        "main.agu:2:15\nDeclaration Error: undeclared identifier foo at line 2, column 15\n\
         \tlet y : Int = foo\n\t              ^^^"
    );
}

#[test]
fn carets_are_clamped_to_the_line() {
    plain();
    let text = format_message("f", "ab\ncd", Span { start: 1, end: 5 }, "L:", "d", Tint::Red);
    assert_eq!(text, "f:1:2\nL: d at line 1, column 2\n\tab\n\t ^");
}

#[test]
fn one_hint_stands_on_the_line_of_its_heading() {
    plain();
    assert_eq!(format_hints(names(&["try this"])), "\nHint: try this");
    assert_eq!(format_hints(names(&["a", "b"])), "\nHints:\n- a\n- b");
}

#[test]
fn syntax_hints_for_found_token_and_expected_tokens() {
    assert_eq!(
        get_syntax_hints(names(&["\"==\"", "\")\""]), Some(Token::Assign)),
        names(&["Did you mean '==' instead of '='?", "Did you forget a closing parenthesis?"])
    );
    assert_eq!(
        get_syntax_hints(names(&["Int", "Bool", "String", "Unit"]), None),
        names(&["Did you forget a type?"])
    );
    assert_eq!(get_syntax_hints(names(&["="]), None), names(&["expected ="]));
    assert_eq!(
        get_syntax_hints(names(&["let", "!eof"]), Some(Token::Else)),
        names(&[
            "Do you have an 'else' without a matching 'if'?",
            "Do you have an extra semicolon at the end?"
        ])
    );
}

#[test]
fn errors_are_listed_up_to_the_limit() {
    plain();
    let src = "let main(_) : (Unit) -> Unit = print(a); print(b); print(c)";
    let errors: Vec<AgudaError> = compile_aguda_program(src)
        .unwrap_err()
        .into_iter()
        .map(AgudaError::from)
        .collect();
    assert_eq!(errors.len(), 3);
    let text = format_aguda_errors(errors, 2, true, "m.agu", src);
    assert_eq!(
        text,
        "m.agu:1:38\nDeclaration Error: undeclared identifier a at line 1, column 38\n\
         \tlet main(_) : (Unit) -> Unit = print(a); print(b); print(c)\n\
         \t                                     ^\n\
         m.agu:1:48\nDeclaration Error: undeclared identifier b at line 1, column 48\n\
         \tlet main(_) : (Unit) -> Unit = print(a); print(b); print(c)\n\
         \t                                               ^\n  (+1 more errors)"
    );
}

#[test]
fn missing_main_comes_with_a_hint() {
    plain();
    let src = "let x : Int = 1";
    let errors: Vec<AgudaError> = compile_aguda_program(src)
        .unwrap_err()
        .into_iter()
        .map(AgudaError::from)
        .collect();
    let text = format_aguda_errors(errors, 5, false, "m.agu", src);
    assert_eq!(
        text,
        "m.agu:1:1\nDeclaration Error: missing main function at line 1, column 1\n\
         \tlet x : Int = 1\n\t\n\
         Hint: define the entry point with let main(_) : Unit -> Unit"
    );
}

#[test]
fn syntax_error_at_the_end_hints_at_the_semicolon() {
    plain();
    let src = "let main(_) : (Unit) -> Unit = print(1);";
    let errors: Vec<AgudaError> = compile_aguda_program(src)
        .unwrap_err()
        .into_iter()
        .map(AgudaError::from)
        .collect();
    let text = format_aguda_errors(errors, 5, false, "m.agu", src);
    assert!(text.starts_with("m.agu:1:41\nSyntax Error: unexpected end of input at line 1, column 41\n"));
    assert!(text.contains("Did you forget an expression?"));
    assert!(text.ends_with("- Do you have an extra semicolon at the end?"));
}

#[test]
fn runtime_errors_have_no_place() {
    plain();
    let errors = vec![AgudaError::from(RuntimeError { message: "division by zero".to_string() })];
    assert_eq!(format_aguda_errors(errors, 5, false, "m.agu", ""), "Runtime Error: division by zero");
}

#[test]
fn warnings_suggest_an_underscore() {
    plain();
    let src = "let main(_) : (Unit) -> Unit = let x : Int = 1; unit";
    let (_, warnings) = compile_aguda_program(src).unwrap();
    assert_eq!(
        format_warnings(warnings, 5, false, "m.agu", src),
        "m.agu:1:36\nWarning: unused identifier x at line 1, column 36\n\
         \tlet main(_) : (Unit) -> Unit = let x : Int = 1; unit\n\
         \t                                   ^\n\
         Hint: if this is intentional, prefix it with an underscore: _x"
    );
}

#[test]
fn styled_pieces_differ_from_plain_ones_when_colours_are_forced() {
    colored::control::set_override(true);
    let text = format_hints(names(&["x"]));
    colored::control::set_override(false);
    assert!(text.contains("Hint:"));
    assert!(text.ends_with(" x"));
    assert_ne!(text, "\nHint: x");
}

#[test]
fn no_hints_give_no_text() {
    plain();
    assert_eq!(format_hints(Vec::new()), "");
}

#[test]
fn a_styled_piece_stands_between_its_escape_sequences() {
    colored::control::set_override(true);
    let hint = format_hints(names(&["x"]));
    let message = format_message("f", "ab", Span { start: 1, end: 2 }, "L:", "d", Tint::Red);
    let name = Piece { text: "n".to_string(), style: Style::Bold };
    let warning = Diagnostic::new("f", "ab", Tint::Yellow, false).render(
        "W:",
        vec![name],
        Span { start: 0, end: 1 },
    );
    colored::control::set_override(false);
    assert_eq!(hint, "\n\x1b[1;36mHint:\x1b[0m x");
    assert_eq!(
        message,
        "f:1:2\n\x1b[1;31mL:\x1b[0m d at line 1, column 2\n\tab\n\t \x1b[1;31m^\x1b[0m"
    );
    assert_eq!(
        warning,
        "f:1:1\n\x1b[1;33mW:\x1b[0m \x1b[1mn\x1b[0m at line 1, column 1\n\tab\n\t\x1b[1;33m^\x1b[0m"
    );
}
