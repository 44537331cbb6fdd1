use aguda_rs::compile_aguda_program;
use aguda_rs::diagnostics::errors::{
    CompileError, DeclarationError, DeclarationErrorKind, LexicalError, LexicalErrorKind,
    SemanticError, SyntaxError, SyntaxErrorKind, TypeError, TypeErrorKind,
};
use aguda_rs::diagnostics::warnings::Warning;
use aguda_rs::semantic::declaration_checker::DeclarationChecker;
use aguda_rs::semantic::symbol_table::SymbolTable;
use aguda_rs::semantic::type_checker::TypeChecker;
use aguda_rs::semantic::{get_init_symbols, Symbol};
use aguda_rs::syntax::ast::{FunType, Span, Spanned, Type};
use aguda_rs::syntax::lexer::Lexer;
use aguda_rs::syntax::parser::Parser;
use aguda_rs::utils::suggest_similar;

fn errors_of(src: &str) -> Vec<CompileError> {
    compile_aguda_program(src).unwrap_err()
}

fn declaration_kinds(src: &str) -> Vec<DeclarationErrorKind> {
    errors_of(src)
        .into_iter()
        .filter_map(|e| match e {
            CompileError::Semantic(SemanticError::Declaration(e)) => Some(e.kind),
            _ => None,
        })
        .collect()
}

fn type_kinds(src: &str) -> Vec<TypeErrorKind> {
    errors_of(src)
        .into_iter()
        .filter_map(|e| match e {
            CompileError::Semantic(SemanticError::Type(e)) => Some(e.kind),
            _ => None,
        })
        .collect()
}

#[test]
fn accepts_a_sum_in_main() {
    let (program, warnings) =
        compile_aguda_program("let main(_) : (Unit) -> Unit = print(1+2*3)").unwrap();
    assert_eq!(program.decls.len(), 1);
    assert!(warnings.is_empty());
}

#[test]
fn accepts_a_loop_with_a_counter() {
    let src = "let main(_) : (Unit) -> Unit = let x:Int=0; while x<3 do (print(x); set x = x+1)";
    assert!(compile_aguda_program(src).is_ok());
}

#[test]
fn accepts_a_recursive_function() {
    let src = "let f(n):(Int)->Int = if n<=1 then n else f(n-1)+f(n-2) \
               let main(_):(Unit)->Unit = print(f(10))";
    assert!(compile_aguda_program(src).is_ok());
}

#[test]
fn accepts_short_circuit_example() {
    let src = "let main(_):(Unit)->Unit = let y:Int=0; true && (set y=y+1; true); print(y)";
    assert!(compile_aguda_program(src).is_ok());
}

#[test]
fn reports_an_undeclared_identifier() {
    assert_eq!(
        declaration_kinds("let main(_) : (Unit) -> Unit = print(x)"),
        vec![DeclarationErrorKind::UndeclaredIdentifier("x".to_string(), None)]
    );
}

#[test]
fn reports_a_type_mismatch_inside_print() {
    assert_eq!(
        type_kinds("let main(_) : (Unit) -> Unit = print(true + 1)"),
        vec![TypeErrorKind::TypeMismatch { found: Type::Bool, expected: Type::Int }]
    );
}

#[test]
fn reports_a_duplicate_global() {
    assert_eq!(
        declaration_kinds("let x:Int = 1 let x:Bool = true let main(_):(Unit)->Unit = unit"),
        vec![DeclarationErrorKind::DuplicateDeclaration("x".to_string())]
    );
}

#[test]
fn reports_a_missing_main() {
    assert_eq!(declaration_kinds("let x:Int = 1"), vec![DeclarationErrorKind::MissingMain]);
}

#[test]
fn reports_a_second_main_once() {
    let src = "let main(_):(Unit)->Unit = unit let main(_):(Unit)->Unit = unit";
    assert_eq!(declaration_kinds(src), vec![DeclarationErrorKind::DuplicateMain]);
}

#[test]
fn reports_a_wrong_main_signature() {
    assert_eq!(
        type_kinds("let main(x) : (Int) -> Unit = unit"),
        vec![TypeErrorKind::MainSignatureMismatch]
    );
}

#[test]
fn reports_reserved_names_and_signature_mismatch() {
    assert_eq!(
        declaration_kinds("let print:Int = 1 let main(_):(Unit)->Unit = unit"),
        vec![DeclarationErrorKind::ReservedIdentifier("print".to_string())]
    );
    assert_eq!(
        declaration_kinds("let f(a, b):(Int)->Int = a let main(_):(Unit)->Unit = unit"),
        vec![DeclarationErrorKind::FunctionSignatureMismatch { params_found: 2, types_found: 1 }]
    );
}

#[test]
fn reports_declaration_and_type_errors_together() {
    let errors = errors_of("let main(_) : (Unit) -> Unit = print(y); print(1 + true)");
    assert_eq!(errors.len(), 2);
    assert!(matches!(errors[0], CompileError::Semantic(SemanticError::Declaration(_))));
    assert!(matches!(errors[1], CompileError::Semantic(SemanticError::Type(_))));
}

#[test]
fn lexical_and_syntax_errors_end_the_analysis() {
    let errors = errors_of("let main(_) : (Unit) -> Unit = 1.5 + x");
    assert_eq!(errors.len(), 1);
    match &errors[0] {
        CompileError::Lexical(e) => assert_eq!(e.kind, LexicalErrorKind::FloatingPointNumber),
        other => panic!("unexpected {:?}", other),
    }
    let errors = errors_of("let main(_) : (Unit) -> Unit = (1 + ");
    assert_eq!(errors.len(), 1);
    assert!(matches!(errors[0], CompileError::Syntax(_)));
}

#[test]
fn a_variable_cannot_see_itself() {
    assert_eq!(
        declaration_kinds("let x:Int = x + 1 let main(_):(Unit)->Unit = print(x)"),
        vec![DeclarationErrorKind::UndeclaredIdentifier("x".to_string(), None)]
    );
}

#[test]
fn a_let_is_visible_in_the_rest_of_its_chain_only() {
    let src = "let main(_):(Unit)->Unit = (let y:Int = 1; print(y)); print(y)";
    assert_eq!(
        declaration_kinds(src),
        vec![DeclarationErrorKind::UndeclaredIdentifier("y".to_string(), None)]
    );
}

#[test]
fn functions_can_call_each_other() {
    let src = "let even(n):(Int)->Bool = if n == 0 then true else odd(n - 1) \
               let odd(n):(Int)->Bool = if n == 0 then false else even(n - 1) \
               let main(_):(Unit)->Unit = print(even(4))";
    assert!(compile_aguda_program(src).is_ok());
}

#[test]
fn suggests_a_close_name() {
    assert_eq!(
        declaration_kinds("let main(_) : (Unit) -> Unit = prnt(1)"),
        vec![DeclarationErrorKind::UndeclaredIdentifier(
            "prnt".to_string(),
            Some("print".to_string())
        )]
    );
}

#[test]
fn suggest_similar_takes_the_first_of_the_closest() {
    let names = vec!["cat".to_string(), "car".to_string(), "dog".to_string()];
    assert_eq!(suggest_similar(names.clone(), "cab"), Some("cat".to_string()));
    assert_eq!(suggest_similar(names.clone(), "dot"), Some("dog".to_string()));
    assert_eq!(suggest_similar(names, "elephant"), None);
    assert_eq!(suggest_similar(vec![], "x"), None);
    assert_eq!(suggest_similar(vec!["kitten".to_string()], "sitting"), None);
    assert_eq!(suggest_similar(vec!["ab".to_string()], "abcd"), Some("ab".to_string()));
}

#[test]
fn warns_about_unused_bindings_but_not_wildcards() {
    let src = "let f(a, _b):(Int, Int)->Int = 1 let main(_):(Unit)->Unit = let z:Int = 2; unit";
    let (_, warnings) = compile_aguda_program(src).unwrap();
    let names: Vec<String> = warnings
        .into_iter()
        .map(|w| match w {
            Warning::UnusedIdentifier(id) => id.value,
            Warning::RedefinedVariable(id) => id.value,
        })
        .collect();
    assert_eq!(names, vec!["f".to_string(), "a".to_string(), "z".to_string()]);
}

#[test]
fn a_wildcard_never_resolves() {
    assert_eq!(
        declaration_kinds("let main(_):(Unit)->Unit = let _x:Int = 1; print(_x)"),
        vec![DeclarationErrorKind::UndeclaredIdentifier("_x".to_string(), None)]
    );
}

#[test]
fn symbol_table_scopes_shadow_and_restore() {
    let mut table: SymbolTable<Symbol> = SymbolTable::new(get_init_symbols());
    let int = || Symbol { ty: Type::Int, span: Span { start: 1, end: 2 } };
    let boolean = || Symbol { ty: Type::Bool, span: Span { start: 3, end: 4 } };
    assert!(table.lookup("print").is_some());
    assert!(table.declare("x", int()));
    assert!(!table.declare("x", boolean()));
    assert!(!table.declare("print", int()));
    assert!(table.declare("_", int()));
    assert!(table.lookup("_").is_none());
    table.enter_scope();
    assert!(table.declare("x", boolean()));
    assert!(table.declare("x", boolean()));
    assert_eq!(table.lookup("x").unwrap().ty, Type::Bool);
    let visible: Vec<String> =
        table.get_symbols_in_scope().into_iter().map(|(name, _)| name).collect();
    assert_eq!(visible, vec!["x".to_string(), "print".to_string(), "length".to_string()]);
    table.exit_scope();
    assert_eq!(table.lookup("x").unwrap().ty, Type::Int);
}

#[test]
fn checkers_run_on_a_parsed_program() {
    let tokens = Lexer::new("let main(_):(Unit)->Unit = length(1)").tokenize().unwrap();
    let program = Parser::new(tokens).parse().unwrap();
    let (errors, warnings) = DeclarationChecker::new().check(&program);
    assert!(errors.is_empty());
    assert!(warnings.is_empty());
    let type_errors = TypeChecker::new().check(&program).unwrap_err();
    assert_eq!(type_errors.len(), 2);
    assert_eq!(
        type_errors[0].kind,
        TypeErrorKind::TypeMismatch {
            found: Type::Int,
            expected: Type::Array(Box::new(Type::Any))
        }
    );
    assert_eq!(
        type_errors[1].kind,
        TypeErrorKind::TypeMismatch { found: Type::Int, expected: Type::Unit }
    );
}

#[test]
fn reports_calls_and_indices_of_the_wrong_kind() {
    let src = "let x:Int = 1 let main(_):(Unit)->Unit = x(1); print(x[0])";
    assert_eq!(
        type_kinds(src),
        vec![
            TypeErrorKind::NotCallable { found: Type::Int },
            TypeErrorKind::NotIndexable { found: Type::Int },
        ]
    );
    let src = "let f(a):(Int)->Int = a let main(_):(Unit)->Unit = print(f(1, 2))";
    assert_eq!(
        type_kinds(src),
        vec![TypeErrorKind::ArgumentCountMismatch { found: 2, expected: 1 }]
    );
}

#[test]
fn function_types_have_a_text() {
    let ty = Type::Fun(FunType { params: vec![Type::Int, Type::Bool], ret: Box::new(Type::Unit) });
    assert_eq!(ty.to_text(), "(Int, Bool) -> Unit");
}

#[test]
fn error_constructors_keep_their_arguments() {
    let span = Span { start: 3, end: 9 };
    assert_eq!(LexicalError::invalid_integer(span).kind, LexicalErrorKind::InvalidInteger);
    assert_eq!(LexicalError::integer_overflow(span).kind, LexicalErrorKind::IntegerOverflow);
    assert_eq!(
        LexicalError::floating_point_number(span).kind,
        LexicalErrorKind::FloatingPointNumber
    );
    assert_eq!(LexicalError::unterminated_string(span).kind, LexicalErrorKind::UnterminatedString);
    assert_eq!(LexicalError::unrecognized_token(span).kind, LexicalErrorKind::UnrecognizedToken);
    assert_eq!(LexicalError::invalid_escape(span).span, span);
    assert_eq!(SyntaxError::invalid_token(span).kind, SyntaxErrorKind::InvalidToken);
    assert_eq!(SyntaxError::extra_token(span).kind, SyntaxErrorKind::ExtraToken);
    assert_eq!(
        SyntaxError::unexpected_eof(span, vec!["id".to_string()]).kind,
        SyntaxErrorKind::UnexpectedEof(vec!["id".to_string()])
    );
    assert_eq!(
        TypeError::expected_equal_types(span, Type::Int, Type::Bool).kind,
        TypeErrorKind::IncompatibleTypes(Type::Int, Type::Bool)
    );
    assert_eq!(DeclarationError::duplicate_main(span).kind, DeclarationErrorKind::DuplicateMain);
    assert_eq!(DeclarationError::missing_main().span, Span { start: 0, end: 0 });
    let id = Spanned { value: "x".to_string(), span };
    let e = DeclarationError::reserved_identifier(id);
    assert_eq!(e.kind, DeclarationErrorKind::ReservedIdentifier("x".to_string()));
    assert_eq!(e.span, span);
}

#[test]
fn semantic_errors_are_listed_declarations_first() {
    let span = Span { start: 0, end: 1 };
    let all = SemanticError::from_both(
        vec![DeclarationError::missing_main(), DeclarationError::duplicate_main(span)],
        vec![TypeError::main_signature_mismatch(span)],
    );
    assert_eq!(all.len(), 3);
    assert!(matches!(all[0], SemanticError::Declaration(_)));
    assert!(matches!(all[1], SemanticError::Declaration(_)));
    assert!(matches!(all[2], SemanticError::Type(_)));
}
