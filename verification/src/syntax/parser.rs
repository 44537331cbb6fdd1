use crate::diagnostics::errors::{string_views, SyntaxError, SyntaxErrorView};
use crate::syntax::ast::{
    type_views, Decl, DeclView, Expr, ExprView, FunType, Lhs, LhsView, Op, Program, Span, Spanned,
    SpannedView, Type, TypeView,
};
use crate::syntax::grammar::{
    binary_node, binary_op, error_at, expected_names, fails, gives, level_rank, lhs_as_expr,
    literal, name_lhs, parse_arg_list, parse_array_suffix, parse_branches_spec, parse_chain_spec,
    parse_dims_spec,
    parse_expr_spec, parse_if_spec, parse_index_tail, parse_item_spec, parse_left_tail,
    parse_let_spec, parse_level_spec, parse_lhs_spec, parse_name_spec, parse_new_spec,
    parse_nonchain_spec, parse_paren_spec, parse_primary_spec, parse_set_spec, parse_type_spec,
    parse_decl_spec, parse_fun_decl_spec, parse_params_spec, parse_program_spec,
    parse_signature_spec, parse_tokens, parse_types_spec, parse_unary_spec, parse_var_decl_spec,
    parse_while_spec, remaining, token_at, Expecting, Parsed, Tokens,
};
use crate::syntax::lexer::{token_views, Token, TokenView};
use vstd::prelude::*;

verus! {

fn push_name(names: &mut Vec<String>, name: &str)
    ensures
        string_views(final(names)@) == string_views(old(names)@).push(name@),
{
    names.push(name.to_owned());
    proof {
        assert(string_views(names@) =~= string_views(old(names)@).push(name@));
    }
}

fn push_operand_names(names: &mut Vec<String>)
    ensures
        string_views(final(names)@) == string_views(old(names)@).push("new"@).push("id"@).push(
            "int"@,
        ).push("string"@).push("true"@).push("false"@).push("unit"@).push("("@).push("!"@).push(
            "-"@,
        ),
{
    push_name(names, "new");
    push_name(names, "id");
    push_name(names, "int");
    push_name(names, "string");
    push_name(names, "true");
    push_name(names, "false");
    push_name(names, "unit");
    push_name(names, "(");
    push_name(names, "!");
    push_name(names, "-");
}

fn push_type_names(names: &mut Vec<String>)
    ensures
        string_views(final(names)@) == string_views(old(names)@).push("Int"@).push("Bool"@).push(
            "String"@,
        ).push("Unit"@),
{
    push_name(names, "Int");
    push_name(names, "Bool");
    push_name(names, "String");
    push_name(names, "Unit");
}

/// The names of the tokens that the parser would have taken, for an error.
pub fn expected_tokens(what: Expecting) -> (names: Vec<String>)
    ensures
        string_views(names@) == expected_names(what),
{
    let mut names: Vec<String> = Vec::new();
    proof {
        reveal(expected_names);
        assert(string_views(names@) =~= Seq::empty());
    }
    match what {
        Expecting::Declaration => {
            push_name(&mut names, "let");
        },
        Expecting::NextDeclaration => {
            push_name(&mut names, ";");
            push_name(&mut names, "let");
        },
        Expecting::Identifier => {
            push_name(&mut names, "id");
        },
        Expecting::ColonOrParams => {
            push_name(&mut names, ":");
            push_name(&mut names, "(");
        },
        Expecting::Colon => {
            push_name(&mut names, ":");
        },
        Expecting::Assign => {
            push_name(&mut names, "=");
        },
        Expecting::Arrow => {
            push_name(&mut names, "->");
        },
        Expecting::LeftParen => {
            push_name(&mut names, "(");
        },
        Expecting::RightParen => {
            push_name(&mut names, ")");
        },
        Expecting::RightBracket => {
            push_name(&mut names, "]");
        },
        Expecting::Pipe => {
            push_name(&mut names, "|");
        },
        Expecting::LeftBracket => {
            push_name(&mut names, "[");
        },
        Expecting::Then => {
            push_name(&mut names, "then");
        },
        Expecting::Else => {
            push_name(&mut names, "else");
        },
        Expecting::Do => {
            push_name(&mut names, "do");
        },
        Expecting::TypeName => {
            push_type_names(&mut names);
        },
        Expecting::TypeOrClose => {
            push_type_names(&mut names);
            push_name(&mut names, ")");
        },
        Expecting::IdentifierOrClose => {
            push_name(&mut names, "id");
            push_name(&mut names, ")");
        },
        Expecting::CommaOrClose => {
            push_name(&mut names, ",");
            push_name(&mut names, ")");
        },
        Expecting::ExpressionOrClose => {
            push_name(&mut names, "let");
            push_name(&mut names, "set");
            push_name(&mut names, "if");
            push_name(&mut names, "while");
            push_operand_names(&mut names);
            push_name(&mut names, ")");
        },
        Expecting::Expression => {
            push_name(&mut names, "let");
            push_name(&mut names, "set");
            push_name(&mut names, "if");
            push_name(&mut names, "while");
            push_operand_names(&mut names);
        },
        Expecting::Statement => {
            push_name(&mut names, "set");
            push_name(&mut names, "if");
            push_name(&mut names, "while");
            push_operand_names(&mut names);
        },
        Expecting::Operand => {
            push_operand_names(&mut names);
        },
    }
    names
}

/// A parser for one list of tokens.
pub struct Parser {
    pub tokens: Vec<Spanned<Token>>,
}

impl Parser {
    /// The tokens as a mathematical value.
    pub open spec fn view(&self) -> Tokens {
        token_views(self.tokens@)
    }

    pub fn new(tokens: Vec<Spanned<Token>>) -> (parser: Parser)
        ensures
            parser.tokens == tokens,
    {
        Parser { tokens }
    }

    /// Tests whether the given token stands at `pos`.
    fn at(&self, pos: usize, token: &Token) -> (there: bool)
        ensures
            there == (token_at(self@, pos as nat) == Some(token@)),
            there ==> pos < self.tokens@.len(),
    {
        if pos < self.tokens.len() {
            self.tokens[pos].value.same_as(token)
        } else {
            false
        }
    }

    /// The error for the place `pos`.
    fn error(&self, pos: usize, what: Expecting) -> (e: SyntaxError)
        ensures
            e@ == error_at(self@, pos as nat, what),
    {
        let expected = expected_tokens(what);
        if pos < self.tokens.len() {
            SyntaxError::unexpected_token(
                self.tokens[pos].span,
                expected,
                self.tokens[pos].value.clone(),
            )
        } else {
            let n = self.tokens.len();
            let span = if n == 0 {
                Span { start: 0, end: 0 }
            } else {
                Span { start: self.tokens[n - 1].span.end, end: self.tokens[n - 1].span.end }
            };
            SyntaxError::unexpected_eof(span, expected)
        }
    }

    /// Reads a type at `pos`.
    fn parse_type(&self, pos: usize) -> (result: Result<(Spanned<Type>, usize), SyntaxError>)
        ensures
            match result {
                Ok((ty, next)) => pos < next <= self.tokens@.len() && gives(
                    parse_type_spec(self@, pos as nat),
                    ty@,
                    pos as nat,
                    next as nat,
                ),
                Err(e) => fails(parse_type_spec(self@, pos as nat), e@),
            },
    {
        proof {
            reveal(parse_type_spec);
        }
        let n = self.tokens.len();
        if pos >= n {
            return Err(self.error(pos, Expecting::TypeName));
        }
        let base = match &self.tokens[pos].value {
            Token::IntType => Type::Int,
            Token::BoolType => Type::Bool,
            Token::StringType => Type::String,
            Token::UnitType => Type::Unit,
            _ => {
                return Err(self.error(pos, Expecting::TypeName));
            },
        };
        let mut ty = base;
        let mut next = pos + 1;
        let ghost base_view = ty@;
        proof {
            crate::syntax::ast::lemma_type_view_array();
        }
        while self.at(next, &Token::LeftBracket) && self.at(next + 1, &Token::RightBracket)
            invariant
                n == self.tokens@.len(),
                pos < next <= self.tokens@.len(),
                ({
                    let here = parse_array_suffix(self@, next as nat, ty@);
                    let all = parse_array_suffix(self@, (pos + 1) as nat, base_view);
                    all.0 == here.0 && all.1 == here.1 + (next - pos - 1)
                }),
            decreases self.tokens@.len() - next,
        {
            proof {
                crate::syntax::ast::lemma_type_view_array();
            }
            ty = Type::Array(Box::new(ty));
            next = next + 2;
        }
        let span = Span { start: self.tokens[pos].span.start, end: self.tokens[next - 1].span.end };
        Ok((Spanned { value: ty, span }, next))
    }
}

} // verus!

verus! {

/// Whether what an executable step returned is what the grammar gives for
/// an expression at `pos`.
pub open spec fn expr_step(
    result: Result<(Spanned<Expr>, usize), SyntaxError>,
    grammar: Parsed<SpannedView<ExprView>>,
    pos: usize,
    len: nat,
) -> bool {
    match result {
        Ok((e, next)) => pos <= next <= len && gives(grammar, e@, pos as nat, next as nat),
        Err(err) => fails(grammar, err@),
    }
}

/// Whether what an executable step returned is what the grammar gives for
/// an l-value at `pos`.
pub open spec fn lhs_step(
    result: Result<(Spanned<Lhs>, usize), SyntaxError>,
    grammar: Parsed<SpannedView<LhsView>>,
    pos: usize,
    len: nat,
) -> bool {
    match result {
        Ok((l, next)) => pos <= next <= len && gives(
            grammar,
            SpannedView { value: l.value@, span: l.span },
            pos as nat,
                    next as nat,
        ),
        Err(err) => fails(grammar, err@),
    }
}

/// The views of a list of expressions.
pub open spec fn expr_views(exprs: Seq<Spanned<Expr>>) -> Seq<SpannedView<ExprView>> {
    Seq::new(exprs.len(), |i: int| exprs[i]@)
}

/// Reads the operator of the given level that a token writes.
fn read_binary_op(token: &Token, level: u8) -> (op: Option<Op>)
    ensures
        op == binary_op(Some(token@), level as nat),
{
    match token {
        Token::Or => if level == 2 {
            Some(Op::Or)
        } else {
            None
        },
        Token::And => if level == 3 {
            Some(Op::And)
        } else {
            None
        },
        Token::Equal => if level == 4 {
            Some(Op::Eq)
        } else {
            None
        },
        Token::NotEqual => if level == 4 {
            Some(Op::Neq)
        } else {
            None
        },
        Token::Less => if level == 5 {
            Some(Op::Lt)
        } else {
            None
        },
        Token::LessOrEqual => if level == 5 {
            Some(Op::Leq)
        } else {
            None
        },
        Token::Greater => if level == 5 {
            Some(Op::Gt)
        } else {
            None
        },
        Token::GreaterOrEqual => if level == 5 {
            Some(Op::Geq)
        } else {
            None
        },
        Token::Plus => if level == 6 {
            Some(Op::Add)
        } else {
            None
        },
        Token::Minus => if level == 6 {
            Some(Op::Sub)
        } else {
            None
        },
        Token::Multiply => if level == 7 {
            Some(Op::Mul)
        } else {
            None
        },
        Token::Divide => if level == 7 {
            Some(Op::Div)
        } else {
            None
        },
        Token::Modulo => if level == 7 {
            Some(Op::Mod)
        } else {
            None
        },
        Token::Power => if level == 8 {
            Some(Op::Pow)
        } else {
            None
        },
        _ => None,
    }
}

fn make_binary(lhs: Spanned<Expr>, op: Op, rhs: Spanned<Expr>) -> (node: Spanned<Expr>)
    ensures
        node@ == binary_node(lhs@, op, rhs@),
{
    let span = Span { start: lhs.span.start, end: rhs.span.end };
    Spanned { value: Expr::BinOp { lhs: Box::new(lhs), op, rhs: Box::new(rhs) }, span }
}

fn make_new_array(ty: Spanned<Type>, size: Spanned<Expr>, init: Spanned<Expr>, span: Span) -> (node:
    Spanned<Expr>)
    ensures
        node@ == (SpannedView {
            value: ExprView::NewArray { ty: ty@, size: Box::new(size@), init: Box::new(init@) },
            span,
        }),
{
    Spanned { value: Expr::NewArray { ty, size: Box::new(size), init: Box::new(init) }, span }
}

fn make_chain(first: Spanned<Expr>, rest: Spanned<Expr>) -> (node: Spanned<Expr>)
    ensures
        node@ == (SpannedView {
            value: ExprView::Chain { lhs: Box::new(first@), rhs: Box::new(rest@) },
            span: Span { start: first.span.start, end: rest.span.end },
        }),
{
    let span = Span { start: first.span.start, end: rest.span.end };
    Spanned { value: Expr::Chain { lhs: Box::new(first), rhs: Box::new(rest) }, span }
}

fn make_let(id: Spanned<String>, ty: Spanned<Type>, init: Spanned<Expr>, start: usize) -> (node:
    Spanned<Expr>)
    ensures
        node@ == (SpannedView {
            value: ExprView::Let { id: id@, ty: ty@, expr: Box::new(init@) },
            span: Span { start, end: init.span.end },
        }),
{
    let span = Span { start, end: init.span.end };
    Spanned { value: Expr::Let { id, ty, expr: Box::new(init) }, span }
}

fn make_set(lhs: Spanned<Lhs>, value: Spanned<Expr>, start: usize) -> (node: Spanned<Expr>)
    ensures
        node@ == (SpannedView {
            value: ExprView::SetLhs {
                lhs: SpannedView { value: lhs.value@, span: lhs.span },
                expr: Box::new(value@),
            },
            span: Span { start, end: value.span.end },
        }),
{
    let span = Span { start, end: value.span.end };
    Spanned { value: Expr::SetLhs { lhs, expr: Box::new(value) }, span }
}

fn make_if(cond: Spanned<Expr>, then: Spanned<Expr>, els: Spanned<Expr>, start: usize) -> (node:
    Spanned<Expr>)
    ensures
        node@ == (SpannedView {
            value: ExprView::IfElse {
                cond: Box::new(cond@),
                then: Box::new(then@),
                els: Box::new(els@),
            },
            span: Span { start, end: els.span.end },
        }),
{
    let span = Span { start, end: els.span.end };
    Spanned {
        value: Expr::IfElse { cond: Box::new(cond), then: Box::new(then), els: Box::new(els) },
        span,
    }
}

fn make_while(cond: Spanned<Expr>, body: Spanned<Expr>, start: usize) -> (node: Spanned<Expr>)
    ensures
        node@ == (SpannedView {
            value: ExprView::While { cond: Box::new(cond@), expr: Box::new(body@) },
            span: Span { start, end: body.span.end },
        }),
{
    let span = Span { start, end: body.span.end };
    Spanned { value: Expr::While { cond: Box::new(cond), expr: Box::new(body) }, span }
}

fn make_not(inner: Spanned<Expr>, start: usize) -> (node: Spanned<Expr>)
    ensures
        node@ == (SpannedView {
            value: ExprView::Not { expr: Box::new(inner@) },
            span: Span { start, end: inner.span.end },
        }),
{
    let span = Span { start, end: inner.span.end };
    Spanned { value: Expr::Not { expr: Box::new(inner) }, span }
}

fn make_call(id: Spanned<String>, args: Vec<Spanned<Expr>>, span: Span) -> (node: Spanned<Expr>)
    ensures
        node@ == (SpannedView {
            value: ExprView::FunCall { id: id@, args: expr_views(args@) },
            span,
        }),
{
    let ghost arg_views = expr_views(args@);
    let node = Spanned { value: Expr::FunCall { id, args }, span };
    proof {
        assert(node@.value->FunCall_args =~= arg_views);
    }
    node
}

fn make_index(lhs: Spanned<Lhs>, index: Spanned<Expr>, end: usize) -> (node: Spanned<Lhs>)
    ensures
        (SpannedView { value: node.value@, span: node.span }) == (SpannedView {
            value: LhsView::Index {
                lhs: Box::new(SpannedView { value: lhs.value@, span: lhs.span }),
                index: Box::new(index@),
            },
            span: Span { start: lhs.span.start, end },
        }),
{
    let span = Span { start: lhs.span.start, end };
    Spanned { value: Lhs::Index { lhs: Box::new(lhs), index: Box::new(index) }, span }
}

fn make_var(name: &String, span: Span) -> (node: Spanned<Lhs>)
    ensures
        (SpannedView { value: node.value@, span: node.span }) == (SpannedView {
            value: LhsView::Var { id: SpannedView { value: name@, span } },
            span,
        }),
{
    Spanned { value: Lhs::Var { id: Spanned { value: name.clone(), span } }, span }
}

fn respan(inner: Spanned<Expr>, span: Span) -> (node: Spanned<Expr>)
    ensures
        node@ == (SpannedView { value: inner@.value, span }),
{
    Spanned { value: inner.value, span }
}

/// The expression that a token writes by itself, if it is a value.
fn read_literal(token: &Token, span: Span) -> (node: Option<Spanned<Expr>>)
    ensures
        match node {
            Some(e) => literal(token@) == Some(e@.value) && e@.span == span,
            None => literal(token@) is None,
        },
{
    match token {
        Token::Int(value) => Some(Spanned { value: Expr::Int(*value), span }),
        Token::String(text) => Some(Spanned { value: Expr::String(text.clone()), span }),
        Token::True => Some(Spanned { value: Expr::Bool(true), span }),
        Token::False => Some(Spanned { value: Expr::Bool(false), span }),
        Token::Unit => Some(Spanned { value: Expr::Unit, span }),
        _ => None,
    }
}

fn read_lhs(l: Spanned<Lhs>) -> (e: Spanned<Expr>)
    ensures
        e@ == lhs_as_expr(SpannedView { value: l.value@, span: l.span }),
{
    let span = l.span;
    match l.value {
        Lhs::Var { id } => Spanned { value: Expr::Id(id), span },
        Lhs::Index { lhs, index } => Spanned { value: Expr::ArrayIndex { lhs: *lhs, index }, span },
    }
}

impl Parser {
    /// The operator of the given level at `pos`.
    fn op_at(&self, pos: usize, level: u8) -> (op: Option<Op>)
        ensures
            op == binary_op(token_at(self@, pos as nat), level as nat),
            op is Some ==> pos < self.tokens@.len(),
    {
        if pos < self.tokens.len() {
            read_binary_op(&self.tokens[pos].value, level)
        } else {
            None
        }
    }

    fn parse_index_tail(&self, pos: usize, lhs: Spanned<Lhs>) -> (result: Result<
        (Spanned<Lhs>, usize),
        SyntaxError,
    >)
        requires
            pos <= self.tokens@.len(),
        ensures
            lhs_step(
                result,
                parse_index_tail(
                    self@,
                    pos as nat,
                    SpannedView { value: lhs.value@, span: lhs.span },
                ),
                pos,
                self.tokens@.len(),
            ),
        decreases remaining(self@, pos as nat), 5nat,
    {
        proof {
            reveal_with_fuel(parse_index_tail, 1);
            reveal_with_fuel(parse_expr_spec, 1);
        }
        let n = self.tokens.len();
        if self.at(pos, &Token::LeftBracket) {
            match self.parse_expr(pos + 1, Expecting::Expression) {
                Err(e) => Err(e),
                Ok((index, close)) => {
                    if self.at(close, &Token::RightBracket) {
                        let indexed = make_index(lhs, index, self.tokens[close].span.end);
                        match self.parse_index_tail(close + 1, indexed) {
                            Err(e) => Err(e),
                            Ok((result, next)) => {
                                Ok((result, next))
                            },
                        }
                    } else {
                        Err(self.error(close, Expecting::RightBracket))
                    }
                },
            }
        } else {
            Ok((lhs, pos))
        }
    }

    /// Reads an l-value at `pos`.
    pub fn parse_lhs(&self, pos: usize) -> (result: Result<(Spanned<Lhs>, usize), SyntaxError>)
        requires
            pos <= self.tokens@.len(),
        ensures
            lhs_step(result, parse_lhs_spec(self@, pos as nat), pos, self.tokens@.len()),
        decreases remaining(self@, pos as nat), 6nat,
    {
        proof {
            reveal_with_fuel(parse_lhs_spec, 1);
            reveal_with_fuel(parse_index_tail, 1);
        }
        let n = self.tokens.len();
        if pos < n {
            if let Token::Id(name) = &self.tokens[pos].value {
                let var = make_var(name, self.tokens[pos].span);
                return match self.parse_index_tail(pos + 1, var) {
                    Err(e) => Err(e),
                    Ok((lhs, next)) => {
                        Ok((lhs, next))
                    },
                };
            }
        }
        Err(self.error(pos, Expecting::Identifier))
    }

    fn parse_arg_list(&self, pos: usize, what: Expecting) -> (result: Result<
        (Vec<Spanned<Expr>>, usize),
        SyntaxError,
    >)
        requires
            pos <= self.tokens@.len(),
        ensures
            match result {
                Ok((args, next)) => pos <= next <= self.tokens@.len() && gives(
                    parse_arg_list(self@, pos as nat, what),
                    expr_views(args@),
                    pos as nat,
                    next as nat,
                ),
                Err(err) => fails(parse_arg_list(self@, pos as nat, what), err@),
            },
        decreases remaining(self@, pos as nat), 70nat,
    {
        proof {
            reveal_with_fuel(parse_arg_list, 1);
            reveal_with_fuel(parse_expr_spec, 1);
        }
        let n = self.tokens.len();
        match self.parse_expr(pos, what) {
            Err(e) => Err(e),
            Ok((first, after)) => {
                let ghost first_view = first@;
                if self.at(after, &Token::Comma) {
                    match self.parse_arg_list(after + 1, Expecting::Expression) {
                        Err(e) => Err(e),
                        Ok((rest, next)) => {
                            let ghost rest_views = expr_views(rest@);
                            let mut args: Vec<Spanned<Expr>> = Vec::new();
                            args.push(first);
                            let mut rest = rest;
                            args.append(&mut rest);
                            proof {
                                assert(expr_views(args@) =~= seq![first_view] + rest_views);
                            }
                            Ok((args, next))
                        },
                    }
                } else if self.at(after, &Token::RightParen) {
                    let mut args: Vec<Spanned<Expr>> = Vec::new();
                    args.push(first);
                    proof {
                        assert(expr_views(args@) =~= seq![first_view]);
                    }
                    Ok((args, after + 1))
                } else {
                    Err(self.error(after, Expecting::CommaOrClose))
                }
            },
        }
    }

    fn parse_paren(&self, pos: usize) -> (result: Result<(Spanned<Expr>, usize), SyntaxError>)
        requires
            pos < self.tokens@.len(),
        ensures
            expr_step(result, parse_paren_spec(self@, pos as nat), pos, self.tokens@.len()),
        decreases remaining(self@, pos as nat), 10nat,
    {
        proof {
            reveal_with_fuel(parse_paren_spec, 1);
            reveal_with_fuel(parse_expr_spec, 1);
        }
        let n = self.tokens.len();
        match self.parse_expr(pos + 1, Expecting::Expression) {
            Err(e) => Err(e),
            Ok((inner, close)) => {
                if self.at(close, &Token::RightParen) {
                    let whole = Span {
                        start: self.tokens[pos].span.start,
                        end: self.tokens[close].span.end,
                    };
                    Ok((respan(inner, whole), close + 1))
                } else {
                    Err(self.error(close, Expecting::RightParen))
                }
            },
        }
    }

    fn parse_dims(&self, pos: usize, ty: Spanned<Type>, start: usize) -> (result: Result<
        (Spanned<Expr>, usize),
        SyntaxError,
    >)
        requires
            pos <= self.tokens@.len(),
        ensures
            expr_step(
                result,
                parse_dims_spec(self@, pos as nat, ty@, start),
                pos,
                self.tokens@.len(),
            ),
        decreases remaining(self@, pos as nat), 9nat,
    {
        proof {
            reveal_with_fuel(parse_dims_spec, 1);
            reveal_with_fuel(parse_expr_spec, 1);
        }
        let n = self.tokens.len();
        if !self.at(pos, &Token::LeftBracket) {
            return Err(self.error(pos, Expecting::LeftBracket));
        }
        match self.parse_expr(pos + 1, Expecting::Expression) {
            Err(e) => Err(e),
            Ok((size, bar)) => {
                if !self.at(bar, &Token::Pipe) {
                    return Err(self.error(bar, Expecting::Pipe));
                }
                match self.parse_expr(bar + 1, Expecting::Expression) {
                    Err(e) => Err(e),
                    Ok((init, close)) => {
                        if !self.at(close, &Token::RightBracket) {
                            return Err(self.error(close, Expecting::RightBracket));
                        }
                        let whole = Span { start, end: self.tokens[close].span.end };
                        Ok((make_new_array(ty, size, init, whole), close + 1))
                    },
                }
            },
        }
    }

    fn parse_new(&self, pos: usize) -> (result: Result<(Spanned<Expr>, usize), SyntaxError>)
        requires
            pos < self.tokens@.len(),
        ensures
            expr_step(result, parse_new_spec(self@, pos as nat), pos, self.tokens@.len()),
        decreases remaining(self@, pos as nat), 10nat,
    {
        proof {
            reveal_with_fuel(parse_new_spec, 1);
            reveal_with_fuel(parse_dims_spec, 1);
        }
        let n = self.tokens.len();
        match self.parse_type(pos + 1) {
            Err(e) => Err(e),
            Ok((ty, open)) => {
                match self.parse_dims(open, ty, self.tokens[pos].span.start) {
                    Err(e) => Err(e),
                    Ok((node, next)) => {
                        Ok((node, next))
                    },
                }
            },
        }
    }

    fn parse_name(&self, pos: usize, name: &String) -> (result: Result<
        (Spanned<Expr>, usize),
        SyntaxError,
    >)
        requires
            pos < self.tokens@.len(),
        ensures
            expr_step(result, parse_name_spec(self@, pos as nat, name@), pos, self.tokens@.len()),
        decreases remaining(self@, pos as nat), 10nat,
    {
        proof {
            reveal_with_fuel(parse_name_spec, 1);
            reveal_with_fuel(parse_arg_list, 1);
            reveal_with_fuel(parse_index_tail, 1);
        }
        let n = self.tokens.len();
        let span = self.tokens[pos].span;
        let id = Spanned { value: name.clone(), span };
        if self.at(pos + 1, &Token::LeftParen) {
            if self.at(pos + 2, &Token::RightParen) {
                let whole = Span { start: span.start, end: self.tokens[pos + 2].span.end };
                let args: Vec<Spanned<Expr>> = Vec::new();
                proof {
                    assert(expr_views(args@) =~= Seq::empty());
                }
                Ok((make_call(id, args, whole), pos + 3))
            } else {
                match self.parse_arg_list(pos + 2, Expecting::ExpressionOrClose) {
                    Err(e) => Err(e),
                    Ok((args, next)) => {
                        proof {
                            let taken = crate::syntax::grammar::taken(
                                parse_arg_list(
                                    self@,
                                    (pos as nat) + 2,
                                    Expecting::ExpressionOrClose,
                                ),
                            );
                            assert((pos as nat) + 2 + taken == next as nat);
                            assert((pos as nat) + 1 + taken == next - 1);
                            assert(self@[next - 1].span == self.tokens@[next - 1].span);
                        }
                        let whole = Span { start: span.start, end: self.tokens[next - 1].span.end };
                        Ok((make_call(id, args, whole), next))
                    },
                }
            }
        } else {
            let var = make_var(name, span);
            match self.parse_index_tail(pos + 1, var) {
                Err(e) => Err(e),
                Ok((lhs, next)) => {
                    Ok((read_lhs(lhs), next))
                },
            }
        }
    }

    fn parse_primary(&self, pos: usize, what: Expecting) -> (result: Result<
        (Spanned<Expr>, usize),
        SyntaxError,
    >)
        requires
            pos <= self.tokens@.len(),
        ensures
            expr_step(
                result,
                parse_primary_spec(self@, pos as nat, what),
                pos,
                self.tokens@.len(),
            ),
        decreases remaining(self@, pos as nat), 15nat,
    {
        proof {
            reveal_with_fuel(parse_primary_spec, 1);
            reveal_with_fuel(parse_paren_spec, 1);
            reveal_with_fuel(parse_new_spec, 1);
            reveal_with_fuel(parse_name_spec, 1);
        }
        let n = self.tokens.len();
        if pos >= n {
            return Err(self.error(pos, what));
        }
        let span = self.tokens[pos].span;
        match &self.tokens[pos].value {
            Token::LeftParen => self.parse_paren(pos),
            Token::New => self.parse_new(pos),
            Token::Id(name) => self.parse_name(pos, name),
            other => match read_literal(other, span) {
                Some(node) => Ok((node, pos + 1)),
                None => Err(self.error(pos, what)),
            },
        }
    }

    fn parse_unary(&self, pos: usize, what: Expecting) -> (result: Result<
        (Spanned<Expr>, usize),
        SyntaxError,
    >)
        requires
            pos <= self.tokens@.len(),
        ensures
            expr_step(result, parse_unary_spec(self@, pos as nat, what), pos, self.tokens@.len()),
        decreases remaining(self@, pos as nat), 20nat,
    {
        proof {
            reveal_with_fuel(parse_unary_spec, 1);
            reveal_with_fuel(parse_primary_spec, 1);
        }
        let n = self.tokens.len();
        if self.at(pos, &Token::Not) {
            match self.parse_unary(pos + 1, Expecting::Operand) {
                Err(e) => Err(e),
                Ok((inner, next)) => {
                    Ok((make_not(inner, self.tokens[pos].span.start), next))
                },
            }
        } else if self.at(pos, &Token::Minus) {
            match self.parse_unary(pos + 1, Expecting::Operand) {
                Err(e) => Err(e),
                Ok((inner, next)) => {
                    let zero = Spanned { value: Expr::Int(0), span: self.tokens[pos].span };
                    Ok((make_binary(zero, Op::Sub, inner), next))
                },
            }
        } else {
            self.parse_primary(pos, what)
        }
    }

    fn parse_left_tail(&self, pos: usize, level: u8, lhs: Spanned<Expr>) -> (result: Result<
        (Spanned<Expr>, usize),
        SyntaxError,
    >)
        requires
            pos <= self.tokens@.len(),
            2 <= level <= 8,
        ensures
            expr_step(
                result,
                parse_left_tail(self@, pos as nat, level as nat, lhs@),
                pos,
                self.tokens@.len(),
            ),
        decreases remaining(self@, pos as nat), 0nat,
    {
        proof {
            reveal_with_fuel(parse_left_tail, 1);
            reveal_with_fuel(parse_level_spec, 1);
        }
        let n = self.tokens.len();
        match self.op_at(pos, level) {
            Some(op) => match self.parse_level(pos + 1, level + 1, Expecting::Operand) {
                Err(e) => Err(e),
                Ok((rhs, next)) => {
                    match self.parse_left_tail(next, level, make_binary(lhs, op, rhs)) {
                        Err(e) => Err(e),
                        Ok((result, after)) => {
                            Ok((result, after))
                        },
                    }
                },
            },
            None => Ok((lhs, pos)),
        }
    }

    fn parse_level(&self, pos: usize, level: u8, what: Expecting) -> (result: Result<
        (Spanned<Expr>, usize),
        SyntaxError,
    >)
        requires
            pos <= self.tokens@.len(),
            2 <= level <= 9,
        ensures
            expr_step(
                result,
                parse_level_spec(self@, pos as nat, level as nat, what),
                pos,
                self.tokens@.len(),
            ),
        decreases remaining(self@, pos as nat), level_rank(level as nat),
    {
        proof {
            reveal_with_fuel(parse_level_spec, 1);
            reveal_with_fuel(parse_unary_spec, 1);
            reveal_with_fuel(parse_left_tail, 1);
        }
        let n = self.tokens.len();
        if level > 8 {
            return self.parse_unary(pos, what);
        }
        match self.parse_level(pos, level + 1, what) {
            Err(e) => Err(e),
            Ok((lhs, next)) => {
                if level == 4 || level == 5 || level == 8 {
                    match self.op_at(next, level) {
                        Some(op) => {
                            let right_level = if level == 8 {
                                level
                            } else {
                                level + 1
                            };
                            match self.parse_level(next + 1, right_level, Expecting::Operand) {
                                Err(e) => Err(e),
                                Ok((rhs, after)) => {
                                    Ok((make_binary(lhs, op, rhs), after))
                                },
                            }
                        },
                        None => Ok((lhs, next)),
                    }
                } else {
                    match self.parse_left_tail(next, level, lhs) {
                        Err(e) => Err(e),
                        Ok((result, after)) => {
                            Ok((result, after))
                        },
                    }
                }
            },
        }
    }

    fn parse_set(&self, pos: usize) -> (result: Result<(Spanned<Expr>, usize), SyntaxError>)
        requires
            pos < self.tokens@.len(),
        ensures
            expr_step(result, parse_set_spec(self@, pos as nat), pos, self.tokens@.len()),
        decreases remaining(self@, pos as nat), 45nat,
    {
        proof {
            reveal_with_fuel(parse_set_spec, 1);
            reveal_with_fuel(parse_lhs_spec, 1);
            reveal_with_fuel(parse_nonchain_spec, 1);
        }
        let n = self.tokens.len();
        match self.parse_lhs(pos + 1) {
            Err(e) => Err(e),
            Ok((lhs, eq)) => {
                if !self.at(eq, &Token::Assign) {
                    return Err(self.error(eq, Expecting::Assign));
                }
                match self.parse_nonchain(eq + 1, Expecting::Statement) {
                    Err(e) => Err(e),
                    Ok((value, next)) => {
                        Ok((make_set(lhs, value, self.tokens[pos].span.start), next))
                    },
                }
            },
        }
    }

    fn parse_branches(&self, pos: usize, cond: Spanned<Expr>, start: usize) -> (result: Result<
        (Spanned<Expr>, usize),
        SyntaxError,
    >)
        requires
            pos <= self.tokens@.len(),
        ensures
            expr_step(
                result,
                parse_branches_spec(self@, pos as nat, cond@, start),
                pos,
                self.tokens@.len(),
            ),
        decreases remaining(self@, pos as nat), 44nat,
    {
        proof {
            reveal_with_fuel(parse_branches_spec, 1);
            reveal_with_fuel(parse_nonchain_spec, 1);
        }
        let n = self.tokens.len();
        if !self.at(pos, &Token::Then) {
            return Err(self.error(pos, Expecting::Then));
        }
        match self.parse_nonchain(pos + 1, Expecting::Statement) {
            Err(e) => Err(e),
            Ok((then, else_at)) => {
                if !self.at(else_at, &Token::Else) {
                    return Err(self.error(else_at, Expecting::Else));
                }
                match self.parse_nonchain(else_at + 1, Expecting::Statement) {
                    Err(e) => Err(e),
                    Ok((els, next)) => {
                        Ok((make_if(cond, then, els, start), next))
                    },
                }
            },
        }
    }

    fn parse_if(&self, pos: usize) -> (result: Result<(Spanned<Expr>, usize), SyntaxError>)
        requires
            pos < self.tokens@.len(),
        ensures
            expr_step(result, parse_if_spec(self@, pos as nat), pos, self.tokens@.len()),
        decreases remaining(self@, pos as nat), 45nat,
    {
        proof {
            reveal_with_fuel(parse_if_spec, 1);
            reveal_with_fuel(parse_branches_spec, 1);
            reveal_with_fuel(parse_nonchain_spec, 1);
        }
        let n = self.tokens.len();
        match self.parse_nonchain(pos + 1, Expecting::Statement) {
            Err(e) => Err(e),
            Ok((cond, then_at)) => {
                match self.parse_branches(then_at, cond, self.tokens[pos].span.start) {
                    Err(e) => Err(e),
                    Ok((node, next)) => {
                        Ok((node, next))
                    },
                }
            },
        }
    }

    fn parse_while(&self, pos: usize) -> (result: Result<(Spanned<Expr>, usize), SyntaxError>)
        requires
            pos < self.tokens@.len(),
        ensures
            expr_step(result, parse_while_spec(self@, pos as nat), pos, self.tokens@.len()),
        decreases remaining(self@, pos as nat), 45nat,
    {
        proof {
            reveal_with_fuel(parse_while_spec, 1);
            reveal_with_fuel(parse_nonchain_spec, 1);
        }
        let n = self.tokens.len();
        match self.parse_nonchain(pos + 1, Expecting::Statement) {
            Err(e) => Err(e),
            Ok((cond, do_at)) => {
                if !self.at(do_at, &Token::Do) {
                    return Err(self.error(do_at, Expecting::Do));
                }
                match self.parse_nonchain(do_at + 1, Expecting::Statement) {
                    Err(e) => Err(e),
                    Ok((body, next)) => {
                        Ok((make_while(cond, body, self.tokens[pos].span.start), next))
                    },
                }
            },
        }
    }

    fn parse_nonchain(&self, pos: usize, what: Expecting) -> (result: Result<
        (Spanned<Expr>, usize),
        SyntaxError,
    >)
        requires
            pos <= self.tokens@.len(),
        ensures
            expr_step(
                result,
                parse_nonchain_spec(self@, pos as nat, what),
                pos,
                self.tokens@.len(),
            ),
        decreases remaining(self@, pos as nat), 50nat,
    {
        proof {
            reveal_with_fuel(parse_nonchain_spec, 1);
            reveal_with_fuel(parse_set_spec, 1);
            reveal_with_fuel(parse_if_spec, 1);
            reveal_with_fuel(parse_while_spec, 1);
            reveal_with_fuel(parse_level_spec, 1);
        }
        if self.at(pos, &Token::SetKw) {
            self.parse_set(pos)
        } else if self.at(pos, &Token::If) {
            self.parse_if(pos)
        } else if self.at(pos, &Token::While) {
            self.parse_while(pos)
        } else {
            self.parse_level(pos, 2, what)
        }
    }

    fn parse_let(&self, pos: usize) -> (result: Result<(Spanned<Expr>, usize), SyntaxError>)
        requires
            pos < self.tokens@.len(),
        ensures
            expr_step(result, parse_let_spec(self@, pos as nat), pos, self.tokens@.len()),
        decreases remaining(self@, pos as nat), 54nat,
    {
        proof {
            reveal_with_fuel(parse_let_spec, 1);
            reveal_with_fuel(parse_nonchain_spec, 1);
        }
        let n = self.tokens.len();
        if pos + 1 >= n {
            return Err(self.error(pos + 1, Expecting::Identifier));
        }
        let id = match &self.tokens[pos + 1].value {
            Token::Id(name) => Spanned { value: name.clone(), span: self.tokens[pos + 1].span },
            _ => {
                return Err(self.error(pos + 1, Expecting::Identifier));
            },
        };
        if !self.at(pos + 2, &Token::Colon) {
            return Err(self.error(pos + 2, Expecting::Colon));
        }
        match self.parse_type(pos + 3) {
            Err(e) => Err(e),
            Ok((ty, eq)) => {
                if !self.at(eq, &Token::Assign) {
                    return Err(self.error(eq, Expecting::Assign));
                }
                match self.parse_nonchain(eq + 1, Expecting::Statement) {
                    Err(e) => Err(e),
                    Ok((init, next)) => {
                        Ok((make_let(id, ty, init, self.tokens[pos].span.start), next))
                    },
                }
            },
        }
    }

    fn parse_item(&self, pos: usize, what: Expecting) -> (result: Result<
        (Spanned<Expr>, usize),
        SyntaxError,
    >)
        requires
            pos <= self.tokens@.len(),
        ensures
            expr_step(result, parse_item_spec(self@, pos as nat, what), pos, self.tokens@.len()),
        decreases remaining(self@, pos as nat), 55nat,
    {
        proof {
            reveal_with_fuel(parse_item_spec, 1);
            reveal_with_fuel(parse_let_spec, 1);
            reveal_with_fuel(parse_nonchain_spec, 1);
        }
        if self.at(pos, &Token::Let) {
            self.parse_let(pos)
        } else {
            self.parse_nonchain(pos, what)
        }
    }

    /// Reads an expression at `pos`. `what` names what to report as
    /// expected if no expression starts there.
    pub fn parse_expr(&self, pos: usize, what: Expecting) -> (result: Result<
        (Spanned<Expr>, usize),
        SyntaxError,
    >)
        requires
            pos <= self.tokens@.len(),
        ensures
            expr_step(result, parse_expr_spec(self@, pos as nat, what), pos, self.tokens@.len()),
        decreases remaining(self@, pos as nat), 60nat,
    {
        proof {
            reveal_with_fuel(parse_expr_spec, 1);
            reveal_with_fuel(parse_chain_spec, 1);
            reveal_with_fuel(parse_item_spec, 1);
        }
        let n = self.tokens.len();
        match self.parse_item(pos, what) {
            Err(e) => Err(e),
            Ok((first, next)) => {
                if self.at(next, &Token::Semicolon) {
                    match self.parse_expr(next + 1, Expecting::Expression) {
                        Err(e) => Err(e),
                        Ok((rest, after)) => {
                            Ok((make_chain(first, rest), after))
                        },
                    }
                } else {
                    Ok((first, next))
                }
            },
        }
    }
}

} // verus!

verus! {

/// The views of a list of identifiers.
pub open spec fn name_views(ids: Seq<Spanned<String>>) -> Seq<SpannedView<Seq<char>>> {
    Seq::new(ids.len(), |i: int| ids[i]@)
}

/// The views of a list of declarations.
pub open spec fn decl_views(decls: Seq<Spanned<Decl>>) -> Seq<SpannedView<DeclView>> {
    Seq::new(decls.len(), |i: int| decls[i]@)
}

fn make_fun_type(types: Vec<Type>, ret: Spanned<Type>, start: usize) -> (ty: Spanned<FunType>)
    ensures
        ty@ == (SpannedView {
            value: TypeView::Fun(type_views(types@), Box::new(ret@.value)),
            span: Span { start, end: ret.span.end },
        }),
{
    let ghost views = type_views(types@);
    let span = Span { start, end: ret.span.end };
    let ty = Spanned { value: FunType { params: types, ret: Box::new(ret.value) }, span };
    proof {
        assert(ty@.value->Fun_0 =~= views);
    }
    ty
}

fn make_var_decl(id: Spanned<String>, ty: Spanned<Type>, body: Spanned<Expr>, start: usize) -> (decl:
    Spanned<Decl>)
    ensures
        decl@ == (SpannedView {
            value: DeclView::Var { id: id@, ty: ty@, expr: body@ },
            span: Span { start, end: body.span.end },
        }),
{
    let span = Span { start, end: body.span.end };
    Spanned { value: Decl::Var { id, ty, expr: body }, span }
}

fn make_fun_decl(
    id: Spanned<String>,
    params: Vec<Spanned<String>>,
    ty: Spanned<FunType>,
    body: Spanned<Expr>,
    start: usize,
) -> (decl: Spanned<Decl>)
    ensures
        decl@ == (SpannedView {
            value: DeclView::Fun { id: id@, params: name_views(params@), ty: ty@, expr: body@ },
            span: Span { start, end: body.span.end },
        }),
{
    let ghost views = name_views(params@);
    let span = Span { start, end: body.span.end };
    let decl = Spanned { value: Decl::Fun { id, params, ty, expr: body }, span };
    proof {
        assert(decl@.value->Fun_params =~= views);
    }
    decl
}

impl Parser {
    fn parse_params(&self, pos: usize, first: bool) -> (result: Result<
        (Vec<Spanned<String>>, usize),
        SyntaxError,
    >)
        requires
            pos <= self.tokens@.len(),
        ensures
            match result {
                Ok((params, next)) => pos < next <= self.tokens@.len() && gives(
                    parse_params_spec(self@, pos as nat, first),
                    name_views(params@),
                    pos as nat,
                    next as nat,
                ),
                Err(err) => fails(parse_params_spec(self@, pos as nat, first), err@),
            },
        decreases remaining(self@, pos as nat),
    {
        proof {
            reveal_with_fuel(parse_params_spec, 1);
        }
        let n = self.tokens.len();
        if pos >= n {
            return Err(
                self.error(
                    pos,
                    if first {
                        Expecting::IdentifierOrClose
                    } else {
                        Expecting::Identifier
                    },
                ),
            );
        }
        match &self.tokens[pos].value {
            Token::Id(name) => {
                let id = Spanned { value: name.clone(), span: self.tokens[pos].span };
                let ghost id_view = id@;
                if self.at(pos + 1, &Token::Comma) {
                    match self.parse_params(pos + 2, false) {
                        Err(e) => Err(e),
                        Ok((rest, next)) => {
                            let ghost rest_views = name_views(rest@);
                            let mut params: Vec<Spanned<String>> = Vec::new();
                            params.push(id);
                            let mut rest = rest;
                            params.append(&mut rest);
                            proof {
                                assert(name_views(params@) =~= seq![id_view] + rest_views);
                            }
                            Ok((params, next))
                        },
                    }
                } else if self.at(pos + 1, &Token::RightParen) {
                    let mut params: Vec<Spanned<String>> = Vec::new();
                    params.push(id);
                    proof {
                        assert(name_views(params@) =~= seq![id_view]);
                    }
                    Ok((params, pos + 2))
                } else {
                    Err(self.error(pos + 1, Expecting::CommaOrClose))
                }
            },
            Token::RightParen => {
                if first {
                    let params: Vec<Spanned<String>> = Vec::new();
                    proof {
                        assert(name_views(params@) =~= Seq::empty());
                    }
                    Ok((params, pos + 1))
                } else {
                    Err(self.error(pos, Expecting::Identifier))
                }
            },
            _ => Err(
                self.error(
                    pos,
                    if first {
                        Expecting::IdentifierOrClose
                    } else {
                        Expecting::Identifier
                    },
                ),
            ),
        }
    }

    fn parse_types(&self, pos: usize, first: bool) -> (result: Result<
        (Vec<Type>, usize),
        SyntaxError,
    >)
        requires
            pos <= self.tokens@.len(),
        ensures
            match result {
                Ok((types, next)) => pos < next <= self.tokens@.len() && gives(
                    parse_types_spec(self@, pos as nat, first),
                    type_views(types@),
                    pos as nat,
                    next as nat,
                ),
                Err(err) => fails(parse_types_spec(self@, pos as nat, first), err@),
            },
        decreases remaining(self@, pos as nat),
    {
        proof {
            reveal_with_fuel(parse_types_spec, 1);
        }
        let n = self.tokens.len();
        if first && self.at(pos, &Token::RightParen) {
            let types: Vec<Type> = Vec::new();
            proof {
                assert(type_views(types@) =~= Seq::empty());
            }
            return Ok((types, pos + 1));
        }
        match self.parse_type(pos) {
            Err(e) => {
                if first {
                    Err(self.error(pos, Expecting::TypeOrClose))
                } else {
                    Err(e)
                }
            },
            Ok((ty, after)) => {
                let ghost ty_view = ty@.value;
                if self.at(after, &Token::Comma) {
                    match self.parse_types(after + 1, false) {
                        Err(e) => Err(e),
                        Ok((rest, next)) => {
                            let ghost rest_views = type_views(rest@);
                            let mut types: Vec<Type> = Vec::new();
                            types.push(ty.value);
                            let mut rest = rest;
                            types.append(&mut rest);
                            proof {
                                assert(type_views(types@) =~= seq![ty_view] + rest_views);
                            }
                            Ok((types, next))
                        },
                    }
                } else if self.at(after, &Token::RightParen) {
                    let mut types: Vec<Type> = Vec::new();
                    types.push(ty.value);
                    proof {
                        assert(type_views(types@) =~= seq![ty_view]);
                    }
                    Ok((types, after + 1))
                } else {
                    Err(self.error(after, Expecting::CommaOrClose))
                }
            },
        }
    }

    fn parse_signature(&self, pos: usize) -> (result: Result<(Spanned<FunType>, usize), SyntaxError>)
        requires
            pos <= self.tokens@.len(),
        ensures
            match result {
                Ok((ty, next)) => pos < next <= self.tokens@.len() && gives(
                    parse_signature_spec(self@, pos as nat),
                    ty@,
                    pos as nat,
                    next as nat,
                ),
                Err(err) => fails(parse_signature_spec(self@, pos as nat), err@),
            },
    {
        proof {
            reveal(parse_signature_spec);
        }
        let n = self.tokens.len();
        if !self.at(pos, &Token::Colon) {
            return Err(self.error(pos, Expecting::Colon));
        }
        if !self.at(pos + 1, &Token::LeftParen) {
            return Err(self.error(pos + 1, Expecting::LeftParen));
        }
        match self.parse_types(pos + 2, true) {
            Err(e) => Err(e),
            Ok((types, arrow)) => {
                if !self.at(arrow, &Token::Arrow) {
                    return Err(self.error(arrow, Expecting::Arrow));
                }
                match self.parse_type(arrow + 1) {
                    Err(e) => Err(e),
                    Ok((ret, next)) => {
                        Ok((make_fun_type(types, ret, self.tokens[pos + 1].span.start), next))
                    },
                }
            },
        }
    }

    fn parse_var_decl(&self, pos: usize, id: Spanned<String>) -> (result: Result<
        (Spanned<Decl>, usize),
        SyntaxError,
    >)
        requires
            1 <= pos,
            pos + 1 < self.tokens@.len(),
        ensures
            match result {
                Ok((decl, next)) => pos < next <= self.tokens@.len() && gives(
                    parse_var_decl_spec(self@, pos as nat, id@),
                    decl@,
                    pos as nat,
                    next as nat,
                ),
                Err(err) => fails(parse_var_decl_spec(self@, pos as nat, id@), err@),
            },
    {
        proof {
            reveal(parse_var_decl_spec);
        }
        let n = self.tokens.len();
        match self.parse_type(pos + 2) {
            Err(e) => Err(e),
            Ok((ty, eq)) => {
                if !self.at(eq, &Token::Assign) {
                    return Err(self.error(eq, Expecting::Assign));
                }
                match self.parse_expr(eq + 1, Expecting::Expression) {
                    Err(e) => Err(e),
                    Ok((body, next)) => {
                        Ok((make_var_decl(id, ty, body, self.tokens[pos - 1].span.start), next))
                    },
                }
            },
        }
    }

    fn parse_fun_decl(&self, pos: usize, id: Spanned<String>) -> (result: Result<
        (Spanned<Decl>, usize),
        SyntaxError,
    >)
        requires
            1 <= pos,
            pos + 1 < self.tokens@.len(),
        ensures
            match result {
                Ok((decl, next)) => pos < next <= self.tokens@.len() && gives(
                    parse_fun_decl_spec(self@, pos as nat, id@),
                    decl@,
                    pos as nat,
                    next as nat,
                ),
                Err(err) => fails(parse_fun_decl_spec(self@, pos as nat, id@), err@),
            },
    {
        proof {
            reveal(parse_fun_decl_spec);
        }
        let n = self.tokens.len();
        match self.parse_params(pos + 2, true) {
            Err(e) => Err(e),
            Ok((params, colon)) => {
                match self.parse_signature(colon) {
                    Err(e) => Err(e),
                    Ok((ty, eq)) => {
                        if !self.at(eq, &Token::Assign) {
                            return Err(self.error(eq, Expecting::Assign));
                        }
                        match self.parse_expr(eq + 1, Expecting::Expression) {
                            Err(e) => Err(e),
                            Ok((body, next)) => {
                                Ok(
                                    (
                                        make_fun_decl(
                                            id,
                                            params,
                                            ty,
                                            body,
                                            self.tokens[pos - 1].span.start,
                                        ),
                                        next,
                                    ),
                                )
                            },
                        }
                    },
                }
            },
        }
    }

    /// Reads the declaration whose `let` stands in front of `pos`.
    fn parse_decl(&self, pos: usize) -> (result: Result<(Spanned<Decl>, usize), SyntaxError>)
        requires
            1 <= pos <= self.tokens@.len(),
        ensures
            match result {
                Ok((decl, next)) => pos < next <= self.tokens@.len() && gives(
                    parse_decl_spec(self@, pos as nat),
                    decl@,
                    pos as nat,
                    next as nat,
                ),
                Err(err) => fails(parse_decl_spec(self@, pos as nat), err@),
            },
    {
        proof {
            reveal(parse_decl_spec);
        }
        let n = self.tokens.len();
        if pos >= n {
            return Err(self.error(pos, Expecting::Identifier));
        }
        match &self.tokens[pos].value {
            Token::Id(name) => {
                let id = Spanned { value: name.clone(), span: self.tokens[pos].span };
                if self.at(pos + 1, &Token::Colon) {
                    self.parse_var_decl(pos, id)
                } else if self.at(pos + 1, &Token::LeftParen) {
                    self.parse_fun_decl(pos, id)
                } else {
                    Err(self.error(pos + 1, Expecting::ColonOrParams))
                }
            },
            _ => Err(self.error(pos, Expecting::Identifier)),
        }
    }

    /// Reads a whole program: declarations up to the end of the tokens.
    pub fn parse(&self) -> (result: Result<Program, SyntaxError>)
        ensures
            match result {
                Ok(program) => parse_tokens(self@) == Ok::<
                    Seq<SpannedView<DeclView>>,
                    SyntaxErrorView,
                >(program@),
                Err(e) => parse_tokens(self@) == Err::<Seq<SpannedView<DeclView>>, SyntaxErrorView>(
                    e@,
                ),
            },
    {
        let n = self.tokens.len();
        let mut decls: Vec<Spanned<Decl>> = Vec::new();
        let mut pos: usize = 0;
        proof {
            reveal_with_fuel(parse_program_spec, 1);
            match parse_program_spec(self@, 0) {
                Ok(rest) => {
                    assert(decl_views(decls@) + rest =~= rest);
                },
                Err(_) => {},
            }
        }
        while pos < n
            invariant
                n == self.tokens@.len(),
                pos <= n,
                match parse_program_spec(self@, pos as nat) {
                    Ok(rest) => parse_program_spec(self@, 0) == Ok::<
                        Seq<SpannedView<DeclView>>,
                        SyntaxErrorView,
                    >(decl_views(decls@) + rest),
                    Err(e) => parse_program_spec(self@, 0) == Err::<
                        Seq<SpannedView<DeclView>>,
                        SyntaxErrorView,
                    >(e),
                },
            decreases n - pos,
        {
            proof {
                reveal_with_fuel(parse_program_spec, 1);
            }
            if !self.at(pos, &Token::Let) {
                return Err(
                    self.error(
                        pos,
                        if pos == 0 {
                            Expecting::Declaration
                        } else {
                            Expecting::NextDeclaration
                        },
                    ),
                );
            }
            match self.parse_decl(pos + 1) {
                Err(e) => {
                    return Err(e);
                },
                Ok((decl, next)) => {
                    let ghost before = decl_views(decls@);
                    let ghost decl_view = decl@;
                    proof {
                        match parse_program_spec(self@, next as nat) {
                            Ok(rest) => {
                                assert(before + (seq![decl_view] + rest) =~= before.push(decl_view)
                                    + rest);
                            },
                            Err(_) => {},
                        }
                    }
                    decls.push(decl);
                    proof {
                        assert(decl_views(decls@) =~= before.push(decl_view));
                    }
                    pos = next;
                },
            }
        }
        proof {
            reveal_with_fuel(parse_program_spec, 1);
            assert(decl_views(decls@) + Seq::<SpannedView<DeclView>>::empty() =~= decl_views(
                decls@,
            ));
        }
        let program = Program { decls };
        proof {
            assert(program@ =~= decl_views(program.decls@));
        }
        Ok(program)
    }
}

} // verus!
