use crate::diagnostics::errors::{
    as_declaration_errors, as_type_errors, CompileError, CompileErrorView, DeclarationError,
    LexicalError, SemanticError, SemanticErrorView, SyntaxErrorView, TypeError,
};
use crate::diagnostics::warnings::{Warning, WarningView};
use crate::semantic::declaration_checker::{
    dc_check_program_from, dc_initial_state, decl_error_views, unused_warnings, warning_views,
    DeclarationChecker,
};
use crate::semantic::type_checker::{type_error_views, type_errors, TypeChecker};
use crate::syntax::ast::{DeclView, Program, SpannedView};
use crate::syntax::grammar::parse_tokens;
use crate::syntax::lexer::{lex_text, Lexer};
use crate::syntax::parser::Parser;
use vstd::prelude::*;

pub mod codegen;
pub mod diagnostics;
pub mod semantic;
pub mod syntax;
pub mod utils;

verus! {

/// What the analysis of a program gives: the program with the warnings,
/// or the errors.
pub type Analysis = Result<(Seq<SpannedView<DeclView>>, Seq<WarningView>), Seq<CompileErrorView>>;

/// Each semantic error of a list as an error of the compiler.
pub open spec fn as_compile_errors(errors: Seq<SemanticErrorView>) -> Seq<CompileErrorView> {
    Seq::new(errors.len(), |i: int| CompileErrorView::Semantic(errors[i]))
}

/// The semantic errors of a program: those of its declarations, then
/// those of its types.
pub open spec fn semantic_errors(prog: Seq<SpannedView<DeclView>>) -> Seq<SemanticErrorView> {
    let declarations = dc_check_program_from(dc_initial_state(), prog).errors;
    let types = type_errors(prog);
    Seq::new(declarations.len(), |i: int| SemanticErrorView::Declaration(declarations[i]))
        + Seq::new(types.len(), |i: int| SemanticErrorView::Type(types[i]))
}

/// What the analysis of a source text gives. A lexical error or a syntax
/// error ends the analysis and is the only error. The declarations and the
/// types of a program that could be read are both checked, and the errors
/// of both are given together. A program without errors is given with the
/// warnings for its unused bindings.
pub open spec fn analysis(src: Seq<char>) -> Analysis {
    match lex_text(src) {
        Err(e) => Err(seq![CompileErrorView::Lexical(e)]),
        Ok(tokens) => match parse_tokens(tokens) {
            Err(e) => Err(seq![CompileErrorView::Syntax(e)]),
            Ok(prog) => {
                let errors = semantic_errors(prog);
                if errors.len() > 0 {
                    Err(as_compile_errors(errors))
                } else {
                    Ok(
                        (
                            prog,
                            unused_warnings(dc_check_program_from(dc_initial_state(), prog).unused),
                        ),
                    )
                }
            },
        },
    }
}

/// The views of a list of errors of the compiler.
pub open spec fn compile_error_views(errors: Seq<CompileError>) -> Seq<CompileErrorView> {
    Seq::new(errors.len(), |i: int| errors[i]@)
}

fn one_error(e: CompileError) -> (errors: Vec<CompileError>)
    ensures
        compile_error_views(errors@) == seq![e@],
{
    let ghost view = e@;
    let mut errors: Vec<CompileError> = Vec::new();
    errors.push(e);
    proof {
        assert(compile_error_views(errors@) =~= seq![view]);
    }
    errors
}

fn wrap_errors(errors: Vec<SemanticError>) -> (wrapped: Vec<CompileError>)
    ensures
        compile_error_views(wrapped@) == as_compile_errors(
            crate::diagnostics::errors::semantic_error_views(errors@),
        ),
{
    let ghost views = crate::diagnostics::errors::semantic_error_views(errors@);
    let mut errors = errors;
    let mut reversed: Vec<SemanticError> = Vec::new();
    let n = errors.len();
    while errors.len() > 0
        invariant
            errors@.len() + reversed@.len() == n,
            views.len() == n,
            forall|i: int| 0 <= i < errors@.len() ==> (#[trigger] errors@[i])@ == views[i],
            forall|i: int| 0 <= i < reversed@.len() ==> (#[trigger] reversed@[i])@ == views[n - 1 - i],
        decreases errors@.len(),
    {
        let last = errors.pop().unwrap();
        reversed.push(last);
    }
    let mut wrapped: Vec<CompileError> = Vec::new();
    while reversed.len() > 0
        invariant
            wrapped@.len() + reversed@.len() == n,
            views.len() == n,
            forall|i: int| 0 <= i < reversed@.len() ==> (#[trigger] reversed@[i])@ == views[n - 1 - i],
            forall|i: int|
                0 <= i < wrapped@.len() ==> (#[trigger] wrapped@[i])@ == CompileErrorView::Semantic(
                    views[i],
                ),
        decreases reversed@.len(),
    {
        let next = reversed.pop().unwrap();
        wrapped.push(CompileError::Semantic(next));
    }
    proof {
        assert(compile_error_views(wrapped@) =~= as_compile_errors(views));
    }
    wrapped
}

/// Reads and checks a program: splits the source text into tokens, parses
/// them, and checks the declarations and the types.
pub fn compile_aguda_program(src: &str) -> (result: Result<(Program, Vec<Warning>), Vec<CompileError>>)
    ensures
        match result {
            Ok((program, warnings)) => analysis(src@) == Ok::<
                (Seq<SpannedView<DeclView>>, Seq<WarningView>),
                Seq<CompileErrorView>,
            >((program@, warning_views(warnings@))),
            Err(errors) => analysis(src@) == Err::<
                (Seq<SpannedView<DeclView>>, Seq<WarningView>),
                Seq<CompileErrorView>,
            >(compile_error_views(errors@)),
        },
{
    let mut lexer = Lexer::new(src);
    let tokens = match lexer.tokenize() {
        Ok(tokens) => tokens,
        Err(e) => {
            return Err(one_error(CompileError::Lexical(e)));
        },
    };
    let parser = Parser::new(tokens);
    let program = match parser.parse() {
        Ok(program) => program,
        Err(e) => {
            return Err(one_error(CompileError::Syntax(e)));
        },
    };
    let mut declarations = DeclarationChecker::new();
    let (decl_errors, warnings) = declarations.check(&program);
    let mut types = TypeChecker::new();
    let type_errors = match types.check(&program) {
        Ok(_) => {
            let none: Vec<TypeError> = Vec::new();
            proof {
                assert(type_error_views(none@) =~= Seq::empty());
            }
            none
        },
        Err(errors) => errors,
    };
    proof {
        assert(as_declaration_errors(decl_errors@) =~= Seq::new(
            decl_error_views(decl_errors@).len(),
            |i: int| SemanticErrorView::Declaration(decl_error_views(decl_errors@)[i]),
        ));
        assert(as_type_errors(type_errors@) =~= Seq::new(
            type_error_views(type_errors@).len(),
            |i: int| SemanticErrorView::Type(type_error_views(type_errors@)[i]),
        ));
    }
    if decl_errors.len() > 0 || type_errors.len() > 0 {
        let all = SemanticError::from_both(decl_errors, type_errors);
        return Err(wrap_errors(all));
    }
    Ok((program, warnings))
}

} // verus!
