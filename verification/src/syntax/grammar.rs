use crate::diagnostics::errors::{SyntaxErrorKindView, SyntaxErrorView};
use crate::syntax::ast::{DeclView, ExprView, LhsView, Op, Span, SpannedView, TypeView};
use crate::syntax::lexer::TokenView;
use vstd::prelude::*;

verus! {

/// A list of tokens with their spans, as the parser reads it.
pub type Tokens = Seq<SpannedView<TokenView>>;

/// What the parser was looking for at the place where it gave up.
#[derive(Debug, Clone, Copy, PartialEq, Eq, Structural)]
pub enum Expecting {
    /// The start of a declaration, at the top of the program.
    Declaration,
    /// The start of a declaration, or a semicolon that goes on with the
    /// body of the last one.
    NextDeclaration,
    Identifier,
    /// The colon of a variable or the parameter list of a function.
    ColonOrParams,
    Colon,
    Assign,
    Arrow,
    LeftParen,
    RightParen,
    RightBracket,
    Pipe,
    LeftBracket,
    Then,
    Else,
    Do,
    /// A type name.
    TypeName,
    /// A type name, or the end of an empty list of types.
    TypeOrClose,
    /// A parameter name, or the end of an empty list of parameters.
    IdentifierOrClose,
    /// A comma, or the end of a list.
    CommaOrClose,
    /// An expression, or the end of an empty list of arguments.
    ExpressionOrClose,
    /// An expression of any form.
    Expression,
    /// An expression that is no `let`.
    Statement,
    /// An operand: a value, a name, a call, or an expression in brackets.
    Operand,
}

/// The names of the tokens that the parser would have taken.
#[verifier::opaque]
pub open spec fn expected_names(what: Expecting) -> Seq<Seq<char>> {
    match what {
        Expecting::Declaration => seq!["let"@],
        Expecting::NextDeclaration => seq![";"@, "let"@],
        Expecting::Identifier => seq!["id"@],
        Expecting::ColonOrParams => seq![":"@, "("@],
        Expecting::Colon => seq![":"@],
        Expecting::Assign => seq!["="@],
        Expecting::Arrow => seq!["->"@],
        Expecting::LeftParen => seq!["("@],
        Expecting::RightParen => seq![")"@],
        Expecting::RightBracket => seq!["]"@],
        Expecting::Pipe => seq!["|"@],
        Expecting::LeftBracket => seq!["["@],
        Expecting::Then => seq!["then"@],
        Expecting::Else => seq!["else"@],
        Expecting::Do => seq!["do"@],
        Expecting::TypeName => seq!["Int"@, "Bool"@, "String"@, "Unit"@],
        Expecting::TypeOrClose => seq!["Int"@, "Bool"@, "String"@, "Unit"@, ")"@],
        Expecting::IdentifierOrClose => seq!["id"@, ")"@],
        Expecting::CommaOrClose => seq![","@, ")"@],
        Expecting::ExpressionOrClose => seq![
            "let"@,
            "set"@,
            "if"@,
            "while"@,
            "new"@,
            "id"@,
            "int"@,
            "string"@,
            "true"@,
            "false"@,
            "unit"@,
            "("@,
            "!"@,
            "-"@,
            ")"@,
        ],
        Expecting::Expression => seq![
            "let"@,
            "set"@,
            "if"@,
            "while"@,
            "new"@,
            "id"@,
            "int"@,
            "string"@,
            "true"@,
            "false"@,
            "unit"@,
            "("@,
            "!"@,
            "-"@,
        ],
        Expecting::Statement => seq![
            "set"@,
            "if"@,
            "while"@,
            "new"@,
            "id"@,
            "int"@,
            "string"@,
            "true"@,
            "false"@,
            "unit"@,
            "("@,
            "!"@,
            "-"@,
        ],
        Expecting::Operand => seq![
            "new"@,
            "id"@,
            "int"@,
            "string"@,
            "true"@,
            "false"@,
            "unit"@,
            "("@,
            "!"@,
            "-"@,
        ],
    }
}

/// The token at a place, if the list is that long.
pub open spec fn token_at(tokens: Tokens, pos: nat) -> Option<TokenView> {
    if 0 <= pos < tokens.len() {
        Some(tokens[pos as int].value)
    } else {
        None
    }
}

/// The place where the text ends: behind the last token.
pub open spec fn end_of_input(tokens: Tokens) -> Span {
    if tokens.len() == 0 {
        Span { start: 0, end: 0 }
    } else {
        Span { start: tokens.last().span.end, end: tokens.last().span.end }
    }
}

/// The error for a place where the parser cannot go on: the token found
/// there is unexpected, or the text has ended too early.
pub open spec fn error_at(tokens: Tokens, pos: nat, what: Expecting) -> SyntaxErrorView {
    if 0 <= pos < tokens.len() {
        SyntaxErrorView {
            kind: SyntaxErrorKindView::UnexpectedToken(expected_names(what), tokens[pos as int].value),
            span: tokens[pos as int].span,
        }
    } else {
        SyntaxErrorView {
            kind: SyntaxErrorKindView::UnexpectedEof(expected_names(what)),
            span: end_of_input(tokens),
        }
    }
}

/// The span from the start of the token at `from` to the end of the token
/// in front of `to`.
pub open spec fn span_between(tokens: Tokens, from: nat, to: nat) -> Span {
    Span { start: tokens[from as int].span.start, end: tokens[to - 1].span.end }
}

/// Whether a parsing step that starts at `pos` gives the value `v` and
/// ends in front of `next`.
pub open spec fn gives<T>(r: Result<(T, nat), SyntaxErrorView>, v: T, pos: nat, next: nat) -> bool {
    r matches Ok(p) && p.0 == v && pos + p.1 == next
}

/// The number of tokens that a parsing step takes.
pub open spec fn taken<T>(r: Result<(T, nat), SyntaxErrorView>) -> nat {
    match r {
        Ok(p) => p.1,
        Err(_) => 0,
    }
}

/// Whether a parsing step fails with the error `e`.
pub open spec fn fails<T>(r: Result<(T, nat), SyntaxErrorView>, e: SyntaxErrorView) -> bool {
    r matches Err(se) && se == e
}

/// The number of tokens from `pos` to the end.
pub open spec fn remaining(tokens: Tokens, pos: nat) -> nat {
    if pos <= tokens.len() {
        (tokens.len() - pos) as nat
    } else {
        0
    }
}

/// The base type that a token names.
pub open spec fn base_type(t: TokenView) -> Option<TypeView> {
    match t {
        TokenView::IntType => Some(TypeView::Int),
        TokenView::BoolType => Some(TypeView::Bool),
        TokenView::StringType => Some(TypeView::String),
        TokenView::UnitType => Some(TypeView::Unit),
        _ => None,
    }
}

/// The type `ty` with one array level for each pair of brackets that
/// follows at `pos`, and the number of tokens that the pairs take.
pub open spec fn parse_array_suffix(tokens: Tokens, pos: nat, ty: TypeView) -> (TypeView, nat)
    decreases remaining(tokens, pos),
{
    if token_at(tokens, pos) == Some(TokenView::LeftBracket) && token_at(tokens, pos + 1) == Some(
        TokenView::RightBracket,
    ) {
        let rest = parse_array_suffix(tokens, pos + 2, TypeView::Array(Box::new(ty)));
        (rest.0, rest.1 + 2)
    } else {
        (ty, 0)
    }
}

/// A type at `pos`: the name of a base type, then any number of `[]`.
#[verifier::opaque]
pub open spec fn parse_type_spec(tokens: Tokens, pos: nat) -> Result<
    (SpannedView<TypeView>, nat),
    SyntaxErrorView,
> {
    match token_at(tokens, pos) {
        Some(t) => match base_type(t) {
            Some(base) => {
                let suffix = parse_array_suffix(tokens, pos + 1, base);
                Ok(
                    (
                        SpannedView {
                            value: suffix.0,
                            span: span_between(tokens, pos, pos + 1 + suffix.1),
                        },
                        suffix.1 + 1,
                    ),
                )
            },
            None => Err(error_at(tokens, pos, Expecting::TypeName)),
        },
        None => Err(error_at(tokens, pos, Expecting::TypeName)),
    }
}

} // verus!

verus! {

/// What a parsing step gives: a value and the number of tokens it took, or
/// the error at the place where it gave up.
pub type Parsed<T> = Result<(T, nat), SyntaxErrorView>;

/// The binary operator that a token writes, if it has one of the given
/// precedence level. Level 2 binds loosest, level 8 tightest.
pub open spec fn binary_op(t: Option<TokenView>, level: nat) -> Option<Op> {
    match t {
        Some(TokenView::Or) => if level == 2 {
            Some(Op::Or)
        } else {
            None
        },
        Some(TokenView::And) => if level == 3 {
            Some(Op::And)
        } else {
            None
        },
        Some(TokenView::Equal) => if level == 4 {
            Some(Op::Eq)
        } else {
            None
        },
        Some(TokenView::NotEqual) => if level == 4 {
            Some(Op::Neq)
        } else {
            None
        },
        Some(TokenView::Less) => if level == 5 {
            Some(Op::Lt)
        } else {
            None
        },
        Some(TokenView::LessOrEqual) => if level == 5 {
            Some(Op::Leq)
        } else {
            None
        },
        Some(TokenView::Greater) => if level == 5 {
            Some(Op::Gt)
        } else {
            None
        },
        Some(TokenView::GreaterOrEqual) => if level == 5 {
            Some(Op::Geq)
        } else {
            None
        },
        Some(TokenView::Plus) => if level == 6 {
            Some(Op::Add)
        } else {
            None
        },
        Some(TokenView::Minus) => if level == 6 {
            Some(Op::Sub)
        } else {
            None
        },
        Some(TokenView::Multiply) => if level == 7 {
            Some(Op::Mul)
        } else {
            None
        },
        Some(TokenView::Divide) => if level == 7 {
            Some(Op::Div)
        } else {
            None
        },
        Some(TokenView::Modulo) => if level == 7 {
            Some(Op::Mod)
        } else {
            None
        },
        Some(TokenView::Power) => if level == 8 {
            Some(Op::Pow)
        } else {
            None
        },
        _ => None,
    }
}

/// The node of a binary operation, which spans both operands.
pub open spec fn binary_node(
    lhs: SpannedView<ExprView>,
    op: Op,
    rhs: SpannedView<ExprView>,
) -> SpannedView<ExprView> {
    SpannedView {
        value: ExprView::BinOp { lhs: Box::new(lhs), op, rhs: Box::new(rhs) },
        span: Span { start: lhs.span.start, end: rhs.span.end },
    }
}

/// The expression that an l-value is when it is read.
pub open spec fn lhs_as_expr(l: SpannedView<LhsView>) -> SpannedView<ExprView> {
    match l.value {
        LhsView::Var { id } => SpannedView { value: ExprView::Id(id), span: l.span },
        LhsView::Index { lhs, index } => SpannedView {
            value: ExprView::ArrayIndex { lhs: *lhs, index },
            span: l.span,
        },
    }
}

/// The l-value `lhs` with one index for each `[ expr ]` that follows at
/// `pos`.
#[verifier::opaque]
pub open spec fn parse_index_tail(tokens: Tokens, pos: nat, lhs: SpannedView<LhsView>) -> Parsed<
    SpannedView<LhsView>,
>
    decreases remaining(tokens, pos), 5nat,
{
    if token_at(tokens, pos) == Some(TokenView::LeftBracket) {
        match parse_expr_spec(tokens, pos + 1, Expecting::Expression) {
            Err(e) => Err(e),
            Ok((index, used)) => {
                let close = pos + 1 + used;
                if token_at(tokens, close) == Some(TokenView::RightBracket) {
                    let indexed = SpannedView {
                        value: LhsView::Index { lhs: Box::new(lhs), index: Box::new(index) },
                        span: Span { start: lhs.span.start, end: tokens[close as int].span.end },
                    };
                    match parse_index_tail(tokens, close + 1, indexed) {
                        Err(e) => Err(e),
                        Ok((result, more)) => Ok((result, used + 2 + more)),
                    }
                } else {
                    Err(error_at(tokens, close, Expecting::RightBracket))
                }
            },
        }
    } else {
        Ok((lhs, 0))
    }
}

/// The l-value that is the name `name` alone, read from the token at `pos`.
pub open spec fn name_lhs(tokens: Tokens, pos: nat, name: Seq<char>) -> SpannedView<LhsView> {
    SpannedView {
        value: LhsView::Var { id: SpannedView { value: name, span: tokens[pos as int].span } },
        span: tokens[pos as int].span,
    }
}

/// An l-value at `pos`: a name, then any number of indices.
#[verifier::opaque]
pub open spec fn parse_lhs_spec(tokens: Tokens, pos: nat) -> Parsed<SpannedView<LhsView>>
    decreases remaining(tokens, pos), 6nat,
{
    match token_at(tokens, pos) {
        Some(TokenView::Id(name)) => match parse_index_tail(
            tokens,
            pos + 1,
            name_lhs(tokens, pos, name),
        ) {
            Err(e) => Err(e),
            Ok((lhs, used)) => Ok((lhs, used + 1)),
        },
        _ => Err(error_at(tokens, pos, Expecting::Identifier)),
    }
}

/// The arguments of a call from `pos` on, up to and with the closing
/// bracket: expressions with commas between them.
#[verifier::opaque]
pub open spec fn parse_arg_list(tokens: Tokens, pos: nat, what: Expecting) -> Parsed<
    Seq<SpannedView<ExprView>>,
>
    decreases remaining(tokens, pos), 70nat,
{
    match parse_expr_spec(tokens, pos, what) {
        Err(e) => Err(e),
        Ok((first, used)) => match token_at(tokens, pos + used) {
            Some(TokenView::Comma) => match parse_arg_list(
                tokens,
                pos + used + 1,
                Expecting::Expression,
            ) {
                Err(e) => Err(e),
                Ok((rest, more)) => Ok((seq![first] + rest, used + 1 + more)),
            },
            Some(TokenView::RightParen) => Ok((seq![first], used + 1)),
            _ => Err(error_at(tokens, pos + used, Expecting::CommaOrClose)),
        },
    }
}

/// An expression in round brackets, whose opening bracket stands at `pos`.
/// Its span takes in the brackets.
#[verifier::opaque]
pub open spec fn parse_paren_spec(tokens: Tokens, pos: nat) -> Parsed<SpannedView<ExprView>>
    decreases remaining(tokens, pos), 10nat,
{
    if pos >= tokens.len() {
        Err(error_at(tokens, pos, Expecting::LeftParen))
    } else {
        match parse_expr_spec(tokens, pos + 1, Expecting::Expression) {
            Err(e) => Err(e),
            Ok((inner, used)) => {
                let close = pos + 1 + used;
                if token_at(tokens, close) == Some(TokenView::RightParen) {
                    Ok(
                        (
                            SpannedView {
                                value: inner.value,
                                span: Span {
                                    start: tokens[pos as int].span.start,
                                    end: tokens[close as int].span.end,
                                },
                            },
                            used + 2,
                        ),
                    )
                } else {
                    Err(error_at(tokens, close, Expecting::RightParen))
                }
            },
        }
    }
}

/// The rest of a new array of element type `ty` that starts at byte
/// `start`: the size and the initial value, from the opening square
/// bracket at `pos` to the closing one.
#[verifier::opaque]
pub open spec fn parse_dims_spec(
    tokens: Tokens,
    pos: nat,
    ty: SpannedView<TypeView>,
    start: usize,
) -> Parsed<SpannedView<ExprView>>
    decreases remaining(tokens, pos), 9nat,
{
    if token_at(tokens, pos) != Some(TokenView::LeftBracket) {
        Err(error_at(tokens, pos, Expecting::LeftBracket))
    } else {
        match parse_expr_spec(tokens, pos + 1, Expecting::Expression) {
            Err(e) => Err(e),
            Ok((size, s)) => {
                let bar = pos + 1 + s;
                if token_at(tokens, bar) != Some(TokenView::Pipe) {
                    Err(error_at(tokens, bar, Expecting::Pipe))
                } else {
                    match parse_expr_spec(tokens, bar + 1, Expecting::Expression) {
                        Err(e) => Err(e),
                        Ok((init, i)) => {
                            let close = bar + 1 + i;
                            if token_at(tokens, close) != Some(TokenView::RightBracket) {
                                Err(error_at(tokens, close, Expecting::RightBracket))
                            } else {
                                Ok(
                                    (
                                        SpannedView {
                                            value: ExprView::NewArray {
                                                ty,
                                                size: Box::new(size),
                                                init: Box::new(init),
                                            },
                                            span: Span {
                                                start,
                                                end: tokens[close as int].span.end,
                                            },
                                        },
                                        s + i + 3,
                                    ),
                                )
                            }
                        },
                    }
                }
            },
        }
    }
}

/// A new array, whose `new` stands at `pos`: the element type, then the
/// size and the initial value in square brackets.
#[verifier::opaque]
pub open spec fn parse_new_spec(tokens: Tokens, pos: nat) -> Parsed<SpannedView<ExprView>>
    decreases remaining(tokens, pos), 10nat,
{
    if pos >= tokens.len() {
        Err(error_at(tokens, pos, Expecting::Operand))
    } else {
        match parse_type_spec(tokens, pos + 1) {
            Err(e) => Err(e),
            Ok((ty, t)) => match parse_dims_spec(
                tokens,
                pos + 1 + t,
                ty,
                tokens[pos as int].span.start,
            ) {
                Err(e) => Err(e),
                Ok((node, d)) => Ok((node, t + d + 1)),
            },
        }
    }
}

/// What starts with the name `name` at `pos`: a call if a round bracket
/// follows, else the name with any number of indices.
#[verifier::opaque]
pub open spec fn parse_name_spec(tokens: Tokens, pos: nat, name: Seq<char>) -> Parsed<
    SpannedView<ExprView>,
>
    decreases remaining(tokens, pos), 10nat,
{
    let id = SpannedView { value: name, span: tokens[pos as int].span };
    if pos >= tokens.len() {
        Err(error_at(tokens, pos, Expecting::Identifier))
    } else if token_at(tokens, pos + 1) == Some(TokenView::LeftParen) {
        if token_at(tokens, pos + 2) == Some(TokenView::RightParen) {
            Ok(
                (
                    SpannedView {
                        value: ExprView::FunCall { id, args: Seq::empty() },
                        span: Span {
                            start: tokens[pos as int].span.start,
                            end: tokens[(pos + 2) as int].span.end,
                        },
                    },
                    3,
                ),
            )
        } else {
            match parse_arg_list(tokens, pos + 2, Expecting::ExpressionOrClose) {
                Err(e) => Err(e),
                Ok((args, used)) => Ok(
                    (
                        SpannedView {
                            value: ExprView::FunCall { id, args },
                            span: Span {
                                start: tokens[pos as int].span.start,
                                end: tokens[(pos + 1 + used) as int].span.end,
                            },
                        },
                        used + 2,
                    ),
                ),
            }
        }
    } else {
        match parse_index_tail(tokens, pos + 1, name_lhs(tokens, pos, name)) {
            Err(e) => Err(e),
            Ok((lhs, used)) => Ok((lhs_as_expr(lhs), used + 1)),
        }
    }
}

/// The expression that a single token writes, if it is a value.
pub open spec fn literal(t: TokenView) -> Option<ExprView> {
    match t {
        TokenView::Int(n) => Some(ExprView::Int(n)),
        TokenView::String(s) => Some(ExprView::String(s)),
        TokenView::True => Some(ExprView::Bool(true)),
        TokenView::False => Some(ExprView::Bool(false)),
        TokenView::Unit => Some(ExprView::Unit),
        _ => None,
    }
}

/// A value, a name, a call, an indexed name, a new array, or an
/// expression in round brackets, at `pos`.
#[verifier::opaque]
pub open spec fn parse_primary_spec(tokens: Tokens, pos: nat, what: Expecting) -> Parsed<
    SpannedView<ExprView>,
>
    decreases remaining(tokens, pos), 15nat,
{
    match token_at(tokens, pos) {
        Some(TokenView::LeftParen) => parse_paren_spec(tokens, pos),
        Some(TokenView::New) => parse_new_spec(tokens, pos),
        Some(TokenView::Id(name)) => parse_name_spec(tokens, pos, name),
        Some(t) => match literal(t) {
            Some(value) => Ok((SpannedView { value, span: tokens[pos as int].span }, 1)),
            None => Err(error_at(tokens, pos, what)),
        },
        None => Err(error_at(tokens, pos, what)),
    }
}

/// An operand with its prefix operators, at `pos`. A minus in front of an
/// operand is the subtraction of the operand from 0, and the 0 has the
/// span of the minus sign.
#[verifier::opaque]
pub open spec fn parse_unary_spec(tokens: Tokens, pos: nat, what: Expecting) -> Parsed<
    SpannedView<ExprView>,
>
    decreases remaining(tokens, pos), 20nat,
{
    match token_at(tokens, pos) {
        Some(TokenView::Not) => match parse_unary_spec(tokens, pos + 1, Expecting::Operand) {
            Err(e) => Err(e),
            Ok((inner, used)) => Ok(
                (
                    SpannedView {
                        value: ExprView::Not { expr: Box::new(inner) },
                        span: Span { start: tokens[pos as int].span.start, end: inner.span.end },
                    },
                    used + 1,
                ),
            ),
        },
        Some(TokenView::Minus) => match parse_unary_spec(tokens, pos + 1, Expecting::Operand) {
            Err(e) => Err(e),
            Ok((inner, used)) => Ok(
                (
                    binary_node(
                        SpannedView { value: ExprView::Int(0), span: tokens[pos as int].span },
                        Op::Sub,
                        inner,
                    ),
                    used + 1,
                ),
            ),
        },
        _ => parse_primary_spec(tokens, pos, what),
    }
}

/// The expression `lhs` with each operator of the given level that
/// follows at `pos`, and its right operand, taken in from the left.
#[verifier::opaque]
pub open spec fn parse_left_tail(
    tokens: Tokens,
    pos: nat,
    level: nat,
    lhs: SpannedView<ExprView>,
) -> Parsed<SpannedView<ExprView>>
    decreases remaining(tokens, pos), 0nat,
{
    match binary_op(token_at(tokens, pos), level) {
        Some(op) => match parse_level_spec(tokens, pos + 1, level + 1, Expecting::Operand) {
            Err(e) => Err(e),
            Ok((rhs, used)) => match parse_left_tail(
                tokens,
                pos + 1 + used,
                level,
                binary_node(lhs, op, rhs),
            ) {
                Err(e) => Err(e),
                Ok((result, more)) => Ok((result, used + 1 + more)),
            },
        },
        None => Ok((lhs, 0)),
    }
}

/// Where a precedence level stands in the order in which the parsing
/// steps call each other.
pub open spec fn level_rank(level: nat) -> nat {
    if level <= 8 {
        (40 - level) as nat
    } else {
        21
    }
}

/// An expression of binary operators of the given level and of all
/// tighter ones, at `pos`. The operators of levels 2, 3, 6 and 7 group to
/// the left, the power operator of level 8 groups to the right, and the
/// comparisons of levels 4 and 5 do not chain.
#[verifier::opaque]
pub open spec fn parse_level_spec(tokens: Tokens, pos: nat, level: nat, what: Expecting) -> Parsed<
    SpannedView<ExprView>,
>
    decreases remaining(tokens, pos), level_rank(level),
{
    if level < 2 || level > 8 {
        parse_unary_spec(tokens, pos, what)
    } else {
        match parse_level_spec(tokens, pos, level + 1, what) {
            Err(e) => Err(e),
            Ok((lhs, used)) => {
                if level == 4 || level == 5 || level == 8 {
                    match binary_op(token_at(tokens, pos + used), level) {
                        Some(op) => match parse_level_spec(
                            tokens,
                            pos + used + 1,
                            if level == 8 {
                                level
                            } else {
                                level + 1
                            },
                            Expecting::Operand,
                        ) {
                            Err(e) => Err(e),
                            Ok((rhs, more)) => Ok((binary_node(lhs, op, rhs), used + 1 + more)),
                        },
                        None => Ok((lhs, used)),
                    }
                } else {
                    match parse_left_tail(tokens, pos + used, level, lhs) {
                        Err(e) => Err(e),
                        Ok((result, more)) => Ok((result, used + more)),
                    }
                }
            },
        }
    }
}

/// An assignment, whose `set` stands at `pos`.
#[verifier::opaque]
pub open spec fn parse_set_spec(tokens: Tokens, pos: nat) -> Parsed<SpannedView<ExprView>>
    decreases remaining(tokens, pos), 45nat,
{
    if pos >= tokens.len() {
        Err(error_at(tokens, pos, Expecting::Statement))
    } else {
        match parse_lhs_spec(tokens, pos + 1) {
            Err(e) => Err(e),
            Ok((lhs, l)) => {
                let eq = pos + 1 + l;
                if token_at(tokens, eq) != Some(TokenView::Assign) {
                    Err(error_at(tokens, eq, Expecting::Assign))
                } else {
                    match parse_nonchain_spec(tokens, eq + 1, Expecting::Statement) {
                        Err(e) => Err(e),
                        Ok((value, v)) => Ok(
                            (
                                SpannedView {
                                    value: ExprView::SetLhs { lhs, expr: Box::new(value) },
                                    span: Span {
                                        start: tokens[pos as int].span.start,
                                        end: value.span.end,
                                    },
                                },
                                l + v + 2,
                            ),
                        ),
                    }
                }
            },
        }
    }
}

/// The rest of a conditional with the condition `cond` that starts at
/// byte `start`: its two branches, from the `then` at `pos` on.
#[verifier::opaque]
pub open spec fn parse_branches_spec(
    tokens: Tokens,
    pos: nat,
    cond: SpannedView<ExprView>,
    start: usize,
) -> Parsed<SpannedView<ExprView>>
    decreases remaining(tokens, pos), 44nat,
{
    if token_at(tokens, pos) != Some(TokenView::Then) {
        Err(error_at(tokens, pos, Expecting::Then))
    } else {
        match parse_nonchain_spec(tokens, pos + 1, Expecting::Statement) {
            Err(e) => Err(e),
            Ok((then, t)) => {
                let else_at = pos + 1 + t;
                if token_at(tokens, else_at) != Some(TokenView::Else) {
                    Err(error_at(tokens, else_at, Expecting::Else))
                } else {
                    match parse_nonchain_spec(tokens, else_at + 1, Expecting::Statement) {
                        Err(e) => Err(e),
                        Ok((els, e)) => Ok(
                            (
                                SpannedView {
                                    value: ExprView::IfElse {
                                        cond: Box::new(cond),
                                        then: Box::new(then),
                                        els: Box::new(els),
                                    },
                                    span: Span { start, end: els.span.end },
                                },
                                t + e + 2,
                            ),
                        ),
                    }
                }
            },
        }
    }
}

/// A conditional, whose `if` stands at `pos`.
#[verifier::opaque]
pub open spec fn parse_if_spec(tokens: Tokens, pos: nat) -> Parsed<SpannedView<ExprView>>
    decreases remaining(tokens, pos), 45nat,
{
    if pos >= tokens.len() {
        Err(error_at(tokens, pos, Expecting::Statement))
    } else {
        match parse_nonchain_spec(tokens, pos + 1, Expecting::Statement) {
            Err(e) => Err(e),
            Ok((cond, c)) => match parse_branches_spec(
                tokens,
                pos + 1 + c,
                cond,
                tokens[pos as int].span.start,
            ) {
                Err(e) => Err(e),
                Ok((node, b)) => Ok((node, c + b + 1)),
            },
        }
    }
}

/// A loop, whose `while` stands at `pos`.
#[verifier::opaque]
pub open spec fn parse_while_spec(tokens: Tokens, pos: nat) -> Parsed<SpannedView<ExprView>>
    decreases remaining(tokens, pos), 45nat,
{
    if pos >= tokens.len() {
        Err(error_at(tokens, pos, Expecting::Statement))
    } else {
        match parse_nonchain_spec(tokens, pos + 1, Expecting::Statement) {
            Err(e) => Err(e),
            Ok((cond, c)) => {
                let do_at = pos + 1 + c;
                if token_at(tokens, do_at) != Some(TokenView::Do) {
                    Err(error_at(tokens, do_at, Expecting::Do))
                } else {
                    match parse_nonchain_spec(tokens, do_at + 1, Expecting::Statement) {
                        Err(e) => Err(e),
                        Ok((body, b)) => Ok(
                            (
                                SpannedView {
                                    value: ExprView::While {
                                        cond: Box::new(cond),
                                        expr: Box::new(body),
                                    },
                                    span: Span {
                                        start: tokens[pos as int].span.start,
                                        end: body.span.end,
                                    },
                                },
                                c + b + 2,
                            ),
                        ),
                    }
                }
            },
        }
    }
}

/// An expression that is neither a chain nor a `let`, at `pos`: an
/// assignment, a conditional, a loop, or an expression of operators.
#[verifier::opaque]
pub open spec fn parse_nonchain_spec(tokens: Tokens, pos: nat, what: Expecting) -> Parsed<
    SpannedView<ExprView>,
>
    decreases remaining(tokens, pos), 50nat,
{
    match token_at(tokens, pos) {
        Some(TokenView::SetKw) => parse_set_spec(tokens, pos),
        Some(TokenView::If) => parse_if_spec(tokens, pos),
        Some(TokenView::While) => parse_while_spec(tokens, pos),
        _ => parse_level_spec(tokens, pos, 2, what),
    }
}

/// A `let`, whose keyword stands at `pos`: the name, the type and the
/// initializer, which is no chain.
#[verifier::opaque]
pub open spec fn parse_let_spec(tokens: Tokens, pos: nat) -> Parsed<SpannedView<ExprView>>
    decreases remaining(tokens, pos), 54nat,
{
    match token_at(tokens, pos + 1) {
        Some(TokenView::Id(name)) => {
            if token_at(tokens, pos + 2) != Some(TokenView::Colon) {
                Err(error_at(tokens, pos + 2, Expecting::Colon))
            } else {
                match parse_type_spec(tokens, pos + 3) {
                    Err(e) => Err(e),
                    Ok((ty, t)) => {
                        let eq = pos + 3 + t;
                        if token_at(tokens, eq) != Some(TokenView::Assign) {
                            Err(error_at(tokens, eq, Expecting::Assign))
                        } else {
                            match parse_nonchain_spec(tokens, eq + 1, Expecting::Statement) {
                                Err(e) => Err(e),
                                Ok((init, i)) => Ok(
                                    (
                                        SpannedView {
                                            value: ExprView::Let {
                                                id: SpannedView {
                                                    value: name,
                                                    span: tokens[(pos + 1) as int].span,
                                                },
                                                ty,
                                                expr: Box::new(init),
                                            },
                                            span: Span {
                                                start: tokens[pos as int].span.start,
                                                end: init.span.end,
                                            },
                                        },
                                        t + i + 4,
                                    ),
                                ),
                            }
                        }
                    },
                }
            }
        },
        _ => Err(error_at(tokens, pos + 1, Expecting::Identifier)),
    }
}

/// One element of a chain, at `pos`: a `let`, or any other expression
/// that is no chain.
#[verifier::opaque]
pub open spec fn parse_item_spec(tokens: Tokens, pos: nat, what: Expecting) -> Parsed<
    SpannedView<ExprView>,
>
    decreases remaining(tokens, pos), 55nat,
{
    if token_at(tokens, pos) == Some(TokenView::Let) {
        parse_let_spec(tokens, pos)
    } else {
        parse_nonchain_spec(tokens, pos, what)
    }
}

/// An expression at `pos`, which is a chain. `what` names what is
/// reported as expected if no expression starts there.
#[verifier::opaque]
pub open spec fn parse_expr_spec(tokens: Tokens, pos: nat, what: Expecting) -> Parsed<
    SpannedView<ExprView>,
>
    decreases remaining(tokens, pos), 61nat,
{
    parse_chain_spec(tokens, pos, what)
}

/// A chain at `pos`: one element, or several elements with semicolons
/// between them, which group to the right.
#[verifier::opaque]
pub open spec fn parse_chain_spec(tokens: Tokens, pos: nat, what: Expecting) -> Parsed<
    SpannedView<ExprView>,
>
    decreases remaining(tokens, pos), 60nat,
{
    match parse_item_spec(tokens, pos, what) {
        Err(e) => Err(e),
        Ok((first, used)) => {
            if token_at(tokens, pos + used) == Some(TokenView::Semicolon) {
                match parse_expr_spec(tokens, pos + used + 1, Expecting::Expression) {
                    Err(e) => Err(e),
                    Ok((rest, more)) => Ok(
                        (
                            SpannedView {
                                value: ExprView::Chain {
                                    lhs: Box::new(first),
                                    rhs: Box::new(rest),
                                },
                                span: Span { start: first.span.start, end: rest.span.end },
                            },
                            used + 1 + more,
                        ),
                    ),
                }
            } else {
                Ok((first, used))
            }
        },
    }
}

} // verus!

verus! {

/// The names of a parameter list from `pos` on, up to and with the closing
/// bracket. `first` says that no name was read yet, so that the list may
/// be empty.
#[verifier::opaque]
pub open spec fn parse_params_spec(tokens: Tokens, pos: nat, first: bool) -> Parsed<
    Seq<SpannedView<Seq<char>>>,
>
    decreases remaining(tokens, pos),
{
    match token_at(tokens, pos) {
        Some(TokenView::Id(name)) => {
            let id = SpannedView { value: name, span: tokens[pos as int].span };
            match token_at(tokens, pos + 1) {
                Some(TokenView::Comma) => match parse_params_spec(tokens, pos + 2, false) {
                    Err(e) => Err(e),
                    Ok((rest, more)) => Ok((seq![id] + rest, more + 2)),
                },
                Some(TokenView::RightParen) => Ok((seq![id], 2)),
                _ => Err(error_at(tokens, pos + 1, Expecting::CommaOrClose)),
            }
        },
        Some(TokenView::RightParen) => if first {
            Ok((Seq::empty(), 1))
        } else {
            Err(error_at(tokens, pos, Expecting::Identifier))
        },
        _ => Err(
            error_at(
                tokens,
                pos,
                if first {
                    Expecting::IdentifierOrClose
                } else {
                    Expecting::Identifier
                },
            ),
        ),
    }
}

/// The types of a parameter list from `pos` on, up to and with the closing
/// bracket.
#[verifier::opaque]
pub open spec fn parse_types_spec(tokens: Tokens, pos: nat, first: bool) -> Parsed<Seq<TypeView>>
    decreases remaining(tokens, pos),
{
    if first && token_at(tokens, pos) == Some(TokenView::RightParen) {
        Ok((Seq::empty(), 1))
    } else {
        match parse_type_spec(tokens, pos) {
            Err(e) => if first {
                Err(error_at(tokens, pos, Expecting::TypeOrClose))
            } else {
                Err(e)
            },
            Ok((ty, used)) => match token_at(tokens, pos + used) {
                Some(TokenView::Comma) => match parse_types_spec(tokens, pos + used + 1, false) {
                    Err(e) => Err(e),
                    Ok((rest, more)) => Ok((seq![ty.value] + rest, used + 1 + more)),
                },
                Some(TokenView::RightParen) => Ok((seq![ty.value], used + 1)),
                _ => Err(error_at(tokens, pos + used, Expecting::CommaOrClose)),
            },
        }
    }
}

/// The declaration of the variable `id`, whose name stands at `pos`: the
/// type behind the colon, then the initializer.
#[verifier::opaque]
pub open spec fn parse_var_decl_spec(tokens: Tokens, pos: nat, id: SpannedView<Seq<char>>) -> Parsed<
    SpannedView<DeclView>,
> {
    match parse_type_spec(tokens, pos + 2) {
        Err(e) => Err(e),
        Ok((ty, t)) => {
            let eq = pos + 2 + t;
            if token_at(tokens, eq) != Some(TokenView::Assign) {
                Err(error_at(tokens, eq, Expecting::Assign))
            } else {
                match parse_expr_spec(tokens, eq + 1, Expecting::Expression) {
                    Err(e) => Err(e),
                    Ok((body, b)) => Ok(
                        (
                            SpannedView {
                                value: DeclView::Var { id, ty, expr: body },
                                span: Span {
                                    start: tokens[pos - 1].span.start,
                                    end: body.span.end,
                                },
                            },
                            t + b + 3,
                        ),
                    ),
                }
            }
        },
    }
}

/// The type of a function from the colon at `pos` on: the types of the
/// parameters in round brackets, an arrow, and the type of the result. Its
/// span runs from the opening bracket to the end of the result type.
#[verifier::opaque]
pub open spec fn parse_signature_spec(tokens: Tokens, pos: nat) -> Parsed<SpannedView<TypeView>> {
    if token_at(tokens, pos) != Some(TokenView::Colon) {
        Err(error_at(tokens, pos, Expecting::Colon))
    } else if token_at(tokens, pos + 1) != Some(TokenView::LeftParen) {
        Err(error_at(tokens, pos + 1, Expecting::LeftParen))
    } else {
        match parse_types_spec(tokens, pos + 2, true) {
            Err(e) => Err(e),
            Ok((types, q)) => {
                let arrow = pos + 2 + q;
                if token_at(tokens, arrow) != Some(TokenView::Arrow) {
                    Err(error_at(tokens, arrow, Expecting::Arrow))
                } else {
                    match parse_type_spec(tokens, arrow + 1) {
                        Err(e) => Err(e),
                        Ok((ret, r)) => Ok(
                            (
                                SpannedView {
                                    value: TypeView::Fun(types, Box::new(ret.value)),
                                    span: Span {
                                        start: tokens[(pos + 1) as int].span.start,
                                        end: ret.span.end,
                                    },
                                },
                                q + r + 3,
                            ),
                        ),
                    }
                }
            },
        }
    }
}

/// The declaration of the function `id`, whose name stands at `pos`: the
/// parameter names in round brackets, the type, then the body.
#[verifier::opaque]
pub open spec fn parse_fun_decl_spec(tokens: Tokens, pos: nat, id: SpannedView<Seq<char>>) -> Parsed<
    SpannedView<DeclView>,
> {
    match parse_params_spec(tokens, pos + 2, true) {
        Err(e) => Err(e),
        Ok((params, p)) => match parse_signature_spec(tokens, pos + 2 + p) {
            Err(e) => Err(e),
            Ok((ty, s)) => {
                let eq = pos + 2 + p + s;
                if token_at(tokens, eq) != Some(TokenView::Assign) {
                    Err(error_at(tokens, eq, Expecting::Assign))
                } else {
                    match parse_expr_spec(tokens, eq + 1, Expecting::Expression) {
                        Err(e) => Err(e),
                        Ok((body, b)) => Ok(
                            (
                                SpannedView {
                                    value: DeclView::Fun { id, params, ty, expr: body },
                                    span: Span {
                                        start: tokens[pos - 1].span.start,
                                        end: body.span.end,
                                    },
                                },
                                p + s + b + 3,
                            ),
                        ),
                    }
                }
            },
        }
    }
}

/// A declaration whose `let` stands in front of `pos`: a variable, if a
/// colon follows the name, or a function, if a round bracket does.
#[verifier::opaque]
pub open spec fn parse_decl_spec(tokens: Tokens, pos: nat) -> Parsed<SpannedView<DeclView>> {
    match token_at(tokens, pos) {
        Some(TokenView::Id(name)) => {
            let id = SpannedView { value: name, span: tokens[pos as int].span };
            match token_at(tokens, pos + 1) {
                Some(TokenView::Colon) => parse_var_decl_spec(tokens, pos, id),
                Some(TokenView::LeftParen) => parse_fun_decl_spec(tokens, pos, id),
                _ => Err(error_at(tokens, pos + 1, Expecting::ColonOrParams)),
            }
        },
        _ => Err(error_at(tokens, pos, Expecting::Identifier)),
    }
}

/// The declarations from `pos` to the end of the tokens.
#[verifier::opaque]
pub open spec fn parse_program_spec(tokens: Tokens, pos: nat) -> Result<
    Seq<SpannedView<DeclView>>,
    SyntaxErrorView,
>
    decreases remaining(tokens, pos),
{
    if pos >= tokens.len() {
        Ok(Seq::empty())
    } else if token_at(tokens, pos) == Some(TokenView::Let) {
        match parse_decl_spec(tokens, pos + 1) {
            Err(e) => Err(e),
            Ok((decl, used)) => match parse_program_spec(tokens, pos + 1 + used) {
                Err(e) => Err(e),
                Ok(rest) => Ok(seq![decl] + rest),
            },
        }
    } else {
        Err(
            error_at(
                tokens,
                pos,
                if pos == 0 {
                    Expecting::Declaration
                } else {
                    Expecting::NextDeclaration
                },
            ),
        )
    }
}

/// The program that a list of tokens writes, or the first syntax error.
pub open spec fn parse_tokens(tokens: Tokens) -> Result<Seq<SpannedView<DeclView>>, SyntaxErrorView> {
    parse_program_spec(tokens, 0)
}

} // verus!
