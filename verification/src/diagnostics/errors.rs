use crate::syntax::ast::{Id, Span, Spanned, Type, TypeView};
use crate::syntax::lexer::{Token, TokenView};
use vstd::prelude::*;

verus! {

/// Anything that can go wrong between reading a source text and the end of
/// the compiled program's run.
#[derive(Debug, PartialEq)]
pub enum AgudaError {
    Compile(CompileError),
    Runtime(RuntimeError),
}

/// What the compiled program wrote to its error stream before it failed.
#[derive(Debug, PartialEq)]
pub struct RuntimeError {
    pub message: String,
}

/// An error that the compiler finds in a program.
#[derive(Debug, PartialEq)]
pub enum CompileError {
    Lexical(LexicalError),
    Syntax(SyntaxError),
    Semantic(SemanticError),
}

/// An error in the characters of the source.
#[derive(Debug, Clone, Copy, PartialEq, Eq, Structural)]
pub struct LexicalError {
    pub kind: LexicalErrorKind,
    pub span: Span,
}

#[derive(Debug, Clone, Copy, PartialEq, Eq, Structural)]
pub enum LexicalErrorKind {
    InvalidInteger,
    IntegerOverflow,
    FloatingPointNumber,
    UnterminatedString,
    UnrecognizedToken,
    InvalidEscape,
}

/// An error in the order of the tokens.
#[derive(Debug, PartialEq)]
pub struct SyntaxError {
    pub kind: SyntaxErrorKind,
    pub span: Span,
}

#[derive(Debug, PartialEq)]
pub enum SyntaxErrorKind {
    /// The names of the tokens that could have stood there, and the token
    /// that was found.
    UnexpectedToken(Vec<String>, Token),
    /// The names of the tokens that could have followed the last one.
    UnexpectedEof(Vec<String>),
    InvalidToken,
    ExtraToken,
}

/// An error in the meaning of a program.
#[derive(Debug, PartialEq)]
pub enum SemanticError {
    Declaration(DeclarationError),
    Type(TypeError),
}

/// An error in the declarations or the references of a program.
#[derive(Debug, PartialEq)]
pub struct DeclarationError {
    pub kind: DeclarationErrorKind,
    pub span: Span,
}

#[derive(Debug, PartialEq)]
pub enum DeclarationErrorKind {
    /// The name that was used, and the closest name in scope if one is
    /// close enough.
    UndeclaredIdentifier(Id, Option<Id>),
    DuplicateDeclaration(Id),
    ReservedIdentifier(Id),
    FunctionSignatureMismatch { params_found: usize, types_found: usize },
    DuplicateMain,
    MissingMain,
}

/// An error in the types of a program.
#[derive(Debug, PartialEq)]
pub struct TypeError {
    pub kind: TypeErrorKind,
    pub span: Span,
}

#[derive(Debug, PartialEq)]
pub enum TypeErrorKind {
    TypeMismatch { found: Type, expected: Type },
    IncompatibleTypes(Type, Type),
    ArgumentCountMismatch { found: usize, expected: usize },
    NotCallable { found: Type },
    NotIndexable { found: Type },
    MainSignatureMismatch,
}

pub enum SyntaxErrorKindView {
    UnexpectedToken(Seq<Seq<char>>, TokenView),
    UnexpectedEof(Seq<Seq<char>>),
    InvalidToken,
    ExtraToken,
}

pub struct SyntaxErrorView {
    pub kind: SyntaxErrorKindView,
    pub span: Span,
}

pub enum DeclarationErrorKindView {
    UndeclaredIdentifier(Seq<char>, Option<Seq<char>>),
    DuplicateDeclaration(Seq<char>),
    ReservedIdentifier(Seq<char>),
    FunctionSignatureMismatch { params_found: usize, types_found: usize },
    DuplicateMain,
    MissingMain,
}

pub struct DeclarationErrorView {
    pub kind: DeclarationErrorKindView,
    pub span: Span,
}

pub enum TypeErrorKindView {
    TypeMismatch { found: TypeView, expected: TypeView },
    IncompatibleTypes(TypeView, TypeView),
    ArgumentCountMismatch { found: usize, expected: usize },
    NotCallable { found: TypeView },
    NotIndexable { found: TypeView },
    MainSignatureMismatch,
}

pub struct TypeErrorView {
    pub kind: TypeErrorKindView,
    pub span: Span,
}

pub enum SemanticErrorView {
    Declaration(DeclarationErrorView),
    Type(TypeErrorView),
}

pub enum CompileErrorView {
    Lexical(LexicalError),
    Syntax(SyntaxErrorView),
    Semantic(SemanticErrorView),
}

pub enum AgudaErrorView {
    Compile(CompileErrorView),
    Runtime(Seq<char>),
}

/// The views of a list of strings.
pub open spec fn string_views(strings: Seq<String>) -> Seq<Seq<char>> {
    Seq::new(strings.len(), |i: int| strings[i]@)
}

impl View for SyntaxErrorKind {
    type V = SyntaxErrorKindView;

    open spec fn view(&self) -> SyntaxErrorKindView {
        match *self {
            SyntaxErrorKind::UnexpectedToken(expected, found) => SyntaxErrorKindView::UnexpectedToken(
                string_views(expected@),
                found@,
            ),
            SyntaxErrorKind::UnexpectedEof(expected) => SyntaxErrorKindView::UnexpectedEof(
                string_views(expected@),
            ),
            SyntaxErrorKind::InvalidToken => SyntaxErrorKindView::InvalidToken,
            SyntaxErrorKind::ExtraToken => SyntaxErrorKindView::ExtraToken,
        }
    }
}

impl View for SyntaxError {
    type V = SyntaxErrorView;

    open spec fn view(&self) -> SyntaxErrorView {
        SyntaxErrorView { kind: self.kind@, span: self.span }
    }
}

/// The view of an optional string.
pub open spec fn option_view(s: Option<String>) -> Option<Seq<char>> {
    match s {
        Some(s) => Some(s@),
        None => None,
    }
}

impl View for DeclarationErrorKind {
    type V = DeclarationErrorKindView;

    open spec fn view(&self) -> DeclarationErrorKindView {
        match *self {
            DeclarationErrorKind::UndeclaredIdentifier(id, similar) => DeclarationErrorKindView::UndeclaredIdentifier(
                id@,
                option_view(similar),
            ),
            DeclarationErrorKind::DuplicateDeclaration(id) => DeclarationErrorKindView::DuplicateDeclaration(id@),
            DeclarationErrorKind::ReservedIdentifier(id) => DeclarationErrorKindView::ReservedIdentifier(id@),
            DeclarationErrorKind::FunctionSignatureMismatch { params_found, types_found } => DeclarationErrorKindView::FunctionSignatureMismatch {
                params_found,
                types_found,
            },
            DeclarationErrorKind::DuplicateMain => DeclarationErrorKindView::DuplicateMain,
            DeclarationErrorKind::MissingMain => DeclarationErrorKindView::MissingMain,
        }
    }
}

impl View for DeclarationError {
    type V = DeclarationErrorView;

    open spec fn view(&self) -> DeclarationErrorView {
        DeclarationErrorView { kind: self.kind@, span: self.span }
    }
}

impl View for TypeErrorKind {
    type V = TypeErrorKindView;

    open spec fn view(&self) -> TypeErrorKindView {
        match *self {
            TypeErrorKind::TypeMismatch { found, expected } => TypeErrorKindView::TypeMismatch {
                found: found@,
                expected: expected@,
            },
            TypeErrorKind::IncompatibleTypes(lhs, rhs) => TypeErrorKindView::IncompatibleTypes(
                lhs@,
                rhs@,
            ),
            TypeErrorKind::ArgumentCountMismatch { found, expected } => TypeErrorKindView::ArgumentCountMismatch {
                found,
                expected,
            },
            TypeErrorKind::NotCallable { found } => TypeErrorKindView::NotCallable { found: found@ },
            TypeErrorKind::NotIndexable { found } => TypeErrorKindView::NotIndexable {
                found: found@,
            },
            TypeErrorKind::MainSignatureMismatch => TypeErrorKindView::MainSignatureMismatch,
        }
    }
}

impl View for TypeError {
    type V = TypeErrorView;

    open spec fn view(&self) -> TypeErrorView {
        TypeErrorView { kind: self.kind@, span: self.span }
    }
}

impl View for SemanticError {
    type V = SemanticErrorView;

    open spec fn view(&self) -> SemanticErrorView {
        match *self {
            SemanticError::Declaration(e) => SemanticErrorView::Declaration(e@),
            SemanticError::Type(e) => SemanticErrorView::Type(e@),
        }
    }
}

impl View for CompileError {
    type V = CompileErrorView;

    open spec fn view(&self) -> CompileErrorView {
        match *self {
            CompileError::Lexical(e) => CompileErrorView::Lexical(e),
            CompileError::Syntax(e) => CompileErrorView::Syntax(e@),
            CompileError::Semantic(e) => CompileErrorView::Semantic(e@),
        }
    }
}

impl View for AgudaError {
    type V = AgudaErrorView;

    open spec fn view(&self) -> AgudaErrorView {
        match *self {
            AgudaError::Compile(e) => AgudaErrorView::Compile(e@),
            AgudaError::Runtime(e) => AgudaErrorView::Runtime(e.message@),
        }
    }
}

impl LexicalError {
    pub fn invalid_integer(span: Span) -> (e: Self)
        ensures
            e == (LexicalError { kind: LexicalErrorKind::InvalidInteger, span }),
    {
        Self { kind: LexicalErrorKind::InvalidInteger, span }
    }

    pub fn integer_overflow(span: Span) -> (e: Self)
        ensures
            e == (LexicalError { kind: LexicalErrorKind::IntegerOverflow, span }),
    {
        Self { kind: LexicalErrorKind::IntegerOverflow, span }
    }

    pub fn floating_point_number(span: Span) -> (e: Self)
        ensures
            e == (LexicalError { kind: LexicalErrorKind::FloatingPointNumber, span }),
    {
        Self { kind: LexicalErrorKind::FloatingPointNumber, span }
    }

    pub fn unterminated_string(span: Span) -> (e: Self)
        ensures
            e == (LexicalError { kind: LexicalErrorKind::UnterminatedString, span }),
    {
        Self { kind: LexicalErrorKind::UnterminatedString, span }
    }

    pub fn unrecognized_token(span: Span) -> (e: Self)
        ensures
            e == (LexicalError { kind: LexicalErrorKind::UnrecognizedToken, span }),
    {
        Self { kind: LexicalErrorKind::UnrecognizedToken, span }
    }

    pub fn invalid_escape(span: Span) -> (e: Self)
        ensures
            e == (LexicalError { kind: LexicalErrorKind::InvalidEscape, span }),
    {
        Self { kind: LexicalErrorKind::InvalidEscape, span }
    }
}

impl SyntaxError {
    pub fn unexpected_token(span: Span, expected: Vec<String>, found: Token) -> (e: Self)
        ensures
            e@ == (SyntaxErrorView {
                kind: SyntaxErrorKindView::UnexpectedToken(string_views(expected@), found@),
                span,
            }),
    {
        Self { kind: SyntaxErrorKind::UnexpectedToken(expected, found), span }
    }

    pub fn unexpected_eof(span: Span, expected: Vec<String>) -> (e: Self)
        ensures
            e@ == (SyntaxErrorView {
                kind: SyntaxErrorKindView::UnexpectedEof(string_views(expected@)),
                span,
            }),
    {
        Self { kind: SyntaxErrorKind::UnexpectedEof(expected), span }
    }

    pub fn invalid_token(span: Span) -> (e: Self)
        ensures
            e@ == (SyntaxErrorView { kind: SyntaxErrorKindView::InvalidToken, span }),
    {
        Self { kind: SyntaxErrorKind::InvalidToken, span }
    }

    pub fn extra_token(span: Span) -> (e: Self)
        ensures
            e@ == (SyntaxErrorView { kind: SyntaxErrorKindView::ExtraToken, span }),
    {
        Self { kind: SyntaxErrorKind::ExtraToken, span }
    }
}

impl DeclarationError {
    pub fn undeclared_identifier(spanned: Spanned<Id>, similar: Option<Id>) -> (e: Self)
        ensures
            e@ == (DeclarationErrorView {
                kind: DeclarationErrorKindView::UndeclaredIdentifier(
                    spanned.value@,
                    option_view(similar),
                ),
                span: spanned.span,
            }),
    {
        Self {
            kind: DeclarationErrorKind::UndeclaredIdentifier(spanned.value, similar),
            span: spanned.span,
        }
    }

    pub fn duplicate_declaration(spanned: Spanned<Id>) -> (e: Self)
        ensures
            e@ == (DeclarationErrorView {
                kind: DeclarationErrorKindView::DuplicateDeclaration(spanned.value@),
                span: spanned.span,
            }),
    {
        Self { kind: DeclarationErrorKind::DuplicateDeclaration(spanned.value), span: spanned.span }
    }

    pub fn reserved_identifier(spanned: Spanned<Id>) -> (e: Self)
        ensures
            e@ == (DeclarationErrorView {
                kind: DeclarationErrorKindView::ReservedIdentifier(spanned.value@),
                span: spanned.span,
            }),
    {
        Self { kind: DeclarationErrorKind::ReservedIdentifier(spanned.value), span: spanned.span }
    }

    pub fn function_signature_mismatch(span: Span, params_found: usize, types_found: usize) -> (e:
        Self)
        ensures
            e@ == (DeclarationErrorView {
                kind: DeclarationErrorKindView::FunctionSignatureMismatch {
                    params_found,
                    types_found,
                },
                span,
            }),
    {
        Self {
            kind: DeclarationErrorKind::FunctionSignatureMismatch { params_found, types_found },
            span,
        }
    }

    pub fn duplicate_main(span: Span) -> (e: Self)
        ensures
            e@ == (DeclarationErrorView { kind: DeclarationErrorKindView::DuplicateMain, span }),
    {
        Self { kind: DeclarationErrorKind::DuplicateMain, span }
    }

    /// The error for a program without `main`, which has no place in the
    /// source: its span is empty and at offset 0.
    pub fn missing_main() -> (e: Self)
        ensures
            e@ == (DeclarationErrorView {
                kind: DeclarationErrorKindView::MissingMain,
                span: Span { start: 0, end: 0 },
            }),
    {
        Self { kind: DeclarationErrorKind::MissingMain, span: Span { start: 0, end: 0 } }
    }
}

impl TypeError {
    pub fn type_mismatch(span: Span, found: Type, expected: Type) -> (e: Self)
        ensures
            e@ == (TypeErrorView {
                kind: TypeErrorKindView::TypeMismatch { found: found@, expected: expected@ },
                span,
            }),
    {
        Self { kind: TypeErrorKind::TypeMismatch { found, expected }, span }
    }

    pub fn expected_equal_types(span: Span, lhs: Type, rhs: Type) -> (e: Self)
        ensures
            e@ == (TypeErrorView { kind: TypeErrorKindView::IncompatibleTypes(lhs@, rhs@), span }),
    {
        Self { kind: TypeErrorKind::IncompatibleTypes(lhs, rhs), span }
    }

    pub fn arg_count_mismatch(span: Span, found: usize, expected: usize) -> (e: Self)
        ensures
            e@ == (TypeErrorView {
                kind: TypeErrorKindView::ArgumentCountMismatch { found, expected },
                span,
            }),
    {
        Self { kind: TypeErrorKind::ArgumentCountMismatch { found, expected }, span }
    }

    pub fn not_callable(span: Span, found: Type) -> (e: Self)
        ensures
            e@ == (TypeErrorView { kind: TypeErrorKindView::NotCallable { found: found@ }, span }),
    {
        Self { kind: TypeErrorKind::NotCallable { found }, span }
    }

    pub fn not_indexable(span: Span, found: Type) -> (e: Self)
        ensures
            e@ == (TypeErrorView { kind: TypeErrorKindView::NotIndexable { found: found@ }, span }),
    {
        Self { kind: TypeErrorKind::NotIndexable { found }, span }
    }

    pub fn main_signature_mismatch(span: Span) -> (e: Self)
        ensures
            e@ == (TypeErrorView { kind: TypeErrorKindView::MainSignatureMismatch, span }),
    {
        Self { kind: TypeErrorKind::MainSignatureMismatch, span }
    }
}

} // verus!

verus! {

impl Clone for TypeError {
    fn clone(&self) -> (copy: TypeError)
        ensures
            copy@ == self@,
    {
        let kind = match &self.kind {
            TypeErrorKind::TypeMismatch { found, expected } => TypeErrorKind::TypeMismatch {
                found: found.clone(),
                expected: expected.clone(),
            },
            TypeErrorKind::IncompatibleTypes(lhs, rhs) => TypeErrorKind::IncompatibleTypes(
                lhs.clone(),
                rhs.clone(),
            ),
            TypeErrorKind::ArgumentCountMismatch { found, expected } => TypeErrorKind::ArgumentCountMismatch {
                found: *found,
                expected: *expected,
            },
            TypeErrorKind::NotCallable { found } => TypeErrorKind::NotCallable {
                found: found.clone(),
            },
            TypeErrorKind::NotIndexable { found } => TypeErrorKind::NotIndexable {
                found: found.clone(),
            },
            TypeErrorKind::MainSignatureMismatch => TypeErrorKind::MainSignatureMismatch,
        };
        TypeError { kind, span: self.span }
    }
}

impl Clone for DeclarationError {
    fn clone(&self) -> (copy: DeclarationError)
        ensures
            copy@ == self@,
    {
        let kind = match &self.kind {
            DeclarationErrorKind::UndeclaredIdentifier(id, similar) => {
                let similar_copy = match similar {
                    Some(s) => Some(s.clone()),
                    None => None,
                };
                DeclarationErrorKind::UndeclaredIdentifier(id.clone(), similar_copy)
            },
            DeclarationErrorKind::DuplicateDeclaration(id) => DeclarationErrorKind::DuplicateDeclaration(
                id.clone(),
            ),
            DeclarationErrorKind::ReservedIdentifier(id) => DeclarationErrorKind::ReservedIdentifier(
                id.clone(),
            ),
            DeclarationErrorKind::FunctionSignatureMismatch { params_found, types_found } => DeclarationErrorKind::FunctionSignatureMismatch {
                params_found: *params_found,
                types_found: *types_found,
            },
            DeclarationErrorKind::DuplicateMain => DeclarationErrorKind::DuplicateMain,
            DeclarationErrorKind::MissingMain => DeclarationErrorKind::MissingMain,
        };
        DeclarationError { kind, span: self.span }
    }
}

} // verus!

verus! {

/// The views of a list of declaration errors, each as a semantic error.
pub open spec fn as_declaration_errors(errors: Seq<DeclarationError>) -> Seq<SemanticErrorView> {
    Seq::new(errors.len(), |i: int| SemanticErrorView::Declaration(errors[i]@))
}

/// The views of a list of type errors, each as a semantic error.
pub open spec fn as_type_errors(errors: Seq<TypeError>) -> Seq<SemanticErrorView> {
    Seq::new(errors.len(), |i: int| SemanticErrorView::Type(errors[i]@))
}

/// The views of a list of semantic errors.
pub open spec fn semantic_error_views(errors: Seq<SemanticError>) -> Seq<SemanticErrorView> {
    Seq::new(errors.len(), |i: int| errors[i]@)
}

impl SemanticError {
    /// One list of the errors of both kinds: the declaration errors first,
    /// then the type errors, each kind in its order.
    pub fn from_both(decl_errors: Vec<DeclarationError>, type_errors: Vec<TypeError>) -> (errors:
        Vec<SemanticError>)
        ensures
            semantic_error_views(errors@) == as_declaration_errors(decl_errors@) + as_type_errors(
                type_errors@,
            ),
    {
        let ghost first = as_declaration_errors(decl_errors@);
        let ghost second = as_type_errors(type_errors@);
        let mut errors: Vec<SemanticError> = Vec::new();
        let mut i: usize = 0;
        while i < decl_errors.len()
            invariant
                i <= decl_errors@.len(),
                errors@.len() == i,
                forall|j: int|
                    0 <= j < i ==> (#[trigger] errors@[j])@ == SemanticErrorView::Declaration(
                        decl_errors@[j]@,
                    ),
            decreases decl_errors@.len() - i,
        {
            errors.push(SemanticError::Declaration(decl_errors[i].clone()));
            i += 1;
        }
        let mut k: usize = 0;
        while k < type_errors.len()
            invariant
                k <= type_errors@.len(),
                errors@.len() == decl_errors@.len() + k,
                forall|j: int|
                    0 <= j < decl_errors@.len() ==> (#[trigger] errors@[j])@
                        == SemanticErrorView::Declaration(decl_errors@[j]@),
                forall|j: int|
                    decl_errors@.len() <= j < decl_errors@.len() + k ==> (#[trigger] errors@[j])@
                        == SemanticErrorView::Type(type_errors@[j - decl_errors@.len()]@),
            decreases type_errors@.len() - k,
        {
            errors.push(SemanticError::Type(type_errors[k].clone()));
            k += 1;
        }
        proof {
            assert(semantic_error_views(errors@) =~= first + second);
        }
        errors
    }
}

impl From<LexicalError> for CompileError {
    fn from(e: LexicalError) -> (r: CompileError) {
        CompileError::Lexical(e)
    }
}

impl vstd::std_specs::convert::FromSpecImpl<LexicalError> for CompileError {
    open spec fn obeys_from_spec() -> bool {
        true
    }

    open spec fn from_spec(e: LexicalError) -> CompileError {
        CompileError::Lexical(e)
    }
}

impl From<SyntaxError> for CompileError {
    fn from(e: SyntaxError) -> (r: CompileError) {
        CompileError::Syntax(e)
    }
}

impl vstd::std_specs::convert::FromSpecImpl<SyntaxError> for CompileError {
    open spec fn obeys_from_spec() -> bool {
        true
    }

    open spec fn from_spec(e: SyntaxError) -> CompileError {
        CompileError::Syntax(e)
    }
}

impl From<SemanticError> for CompileError {
    fn from(e: SemanticError) -> (r: CompileError) {
        CompileError::Semantic(e)
    }
}

impl vstd::std_specs::convert::FromSpecImpl<SemanticError> for CompileError {
    open spec fn obeys_from_spec() -> bool {
        true
    }

    open spec fn from_spec(e: SemanticError) -> CompileError {
        CompileError::Semantic(e)
    }
}

impl From<DeclarationError> for CompileError {
    fn from(e: DeclarationError) -> (r: CompileError) {
        CompileError::Semantic(SemanticError::Declaration(e))
    }
}

impl vstd::std_specs::convert::FromSpecImpl<DeclarationError> for CompileError {
    open spec fn obeys_from_spec() -> bool {
        true
    }

    open spec fn from_spec(e: DeclarationError) -> CompileError {
        CompileError::Semantic(SemanticError::Declaration(e))
    }
}

impl From<TypeError> for CompileError {
    fn from(e: TypeError) -> (r: CompileError) {
        CompileError::Semantic(SemanticError::Type(e))
    }
}

impl vstd::std_specs::convert::FromSpecImpl<TypeError> for CompileError {
    open spec fn obeys_from_spec() -> bool {
        true
    }

    open spec fn from_spec(e: TypeError) -> CompileError {
        CompileError::Semantic(SemanticError::Type(e))
    }
}

impl From<CompileError> for AgudaError {
    fn from(e: CompileError) -> (r: AgudaError) {
        AgudaError::Compile(e)
    }
}

impl vstd::std_specs::convert::FromSpecImpl<CompileError> for AgudaError {
    open spec fn obeys_from_spec() -> bool {
        true
    }

    open spec fn from_spec(e: CompileError) -> AgudaError {
        AgudaError::Compile(e)
    }
}

impl From<RuntimeError> for AgudaError {
    fn from(e: RuntimeError) -> (r: AgudaError) {
        AgudaError::Runtime(e)
    }
}

impl vstd::std_specs::convert::FromSpecImpl<RuntimeError> for AgudaError {
    open spec fn obeys_from_spec() -> bool {
        true
    }

    open spec fn from_spec(e: RuntimeError) -> AgudaError {
        AgudaError::Runtime(e)
    }
}

} // verus!
