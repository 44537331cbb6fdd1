use crate::diagnostics::errors::SyntaxErrorView;
use crate::syntax::ast::{
    left_strength, op_strength, right_strength, strength, DeclView, ExprView, LhsView, Op, Span,
    SpannedView, TypeView,
};
use crate::syntax::grammar::{
    base_type, binary_node, binary_op, lhs_as_expr, name_lhs, parse_arg_list, parse_array_suffix,
    parse_branches_spec, parse_chain_spec, parse_dims_spec, parse_expr_spec, parse_if_spec,
    parse_index_tail, parse_item_spec, parse_left_tail, parse_let_spec, parse_level_spec,
    parse_lhs_spec, parse_name_spec, parse_new_spec, parse_nonchain_spec, parse_paren_spec,
    parse_decl_spec, parse_fun_decl_spec, parse_params_spec, parse_primary_spec,
    parse_program_spec, parse_set_spec, parse_signature_spec, parse_tokens, parse_type_spec,
    parse_types_spec, parse_unary_spec, parse_var_decl_spec, parse_while_spec, token_at, Expecting,
    Parsed, Tokens,
};
use crate::syntax::lexer::TokenView;
use vstd::prelude::*;

verus! {

/// A value with the empty span at the start of the text.
pub open spec fn unplaced<T>(value: T) -> SpannedView<T> {
    SpannedView { value, span: Span { start: 0, end: 0 } }
}

/// An l-value with every span in it replaced by the empty span at the
/// start of the text.
pub open spec fn bare_lhs(l: LhsView) -> LhsView
    decreases l,
{
    match l {
        LhsView::Var { id } => LhsView::Var { id: unplaced(id.value) },
        LhsView::Index { lhs, index } => LhsView::Index {
            lhs: Box::new(unplaced(bare_lhs(lhs.value))),
            index: Box::new(unplaced(bare(index.value))),
        },
    }
}

/// The expressions of a list, each without its spans.
pub open spec fn bare_all(exprs: Seq<SpannedView<ExprView>>) -> Seq<SpannedView<ExprView>>
    decreases exprs,
{
    Seq::new(
        exprs.len(),
        |i: int|
            if 0 <= i < exprs.len() {
                unplaced(bare(exprs[i].value))
            } else {
                unplaced(ExprView::Unit)
            },
    )
}

/// An expression with every span in it replaced by the empty span at the
/// start of the text. Two expressions are the same but for their spans
/// where this gives the same for both.
pub open spec fn bare(e: ExprView) -> ExprView
    decreases e,
{
    match e {
        ExprView::Chain { lhs, rhs } => ExprView::Chain {
            lhs: Box::new(unplaced(bare(lhs.value))),
            rhs: Box::new(unplaced(bare(rhs.value))),
        },
        ExprView::Let { id, ty, expr } => ExprView::Let {
            id: unplaced(id.value),
            ty: unplaced(ty.value),
            expr: Box::new(unplaced(bare(expr.value))),
        },
        ExprView::SetLhs { lhs, expr } => ExprView::SetLhs {
            lhs: unplaced(bare_lhs(lhs.value)),
            expr: Box::new(unplaced(bare(expr.value))),
        },
        ExprView::BinOp { lhs, op, rhs } => ExprView::BinOp {
            lhs: Box::new(unplaced(bare(lhs.value))),
            op,
            rhs: Box::new(unplaced(bare(rhs.value))),
        },
        ExprView::Not { expr } => ExprView::Not { expr: Box::new(unplaced(bare(expr.value))) },
        ExprView::While { cond, expr } => ExprView::While {
            cond: Box::new(unplaced(bare(cond.value))),
            expr: Box::new(unplaced(bare(expr.value))),
        },
        ExprView::IfElse { cond, then, els } => ExprView::IfElse {
            cond: Box::new(unplaced(bare(cond.value))),
            then: Box::new(unplaced(bare(then.value))),
            els: Box::new(unplaced(bare(els.value))),
        },
        ExprView::FunCall { id, args } => ExprView::FunCall {
            id: unplaced(id.value),
            args: bare_all(args),
        },
        ExprView::NewArray { ty, size, init } => ExprView::NewArray {
            ty: unplaced(ty.value),
            size: Box::new(unplaced(bare(size.value))),
            init: Box::new(unplaced(bare(init.value))),
        },
        ExprView::ArrayIndex { lhs, index } => ExprView::ArrayIndex {
            lhs: unplaced(bare_lhs(lhs.value)),
            index: Box::new(unplaced(bare(index.value))),
        },
        ExprView::Id(id) => ExprView::Id(unplaced(id.value)),
        ExprView::Int(n) => ExprView::Int(n),
        ExprView::String(s) => ExprView::String(s),
        ExprView::Bool(b) => ExprView::Bool(b),
        ExprView::Unit => ExprView::Unit,
    }
}

/// The token that writes an operator.
pub open spec fn op_token(op: Op) -> TokenView {
    match op {
        Op::Add => TokenView::Plus,
        Op::Sub => TokenView::Minus,
        Op::Mul => TokenView::Multiply,
        Op::Div => TokenView::Divide,
        Op::Mod => TokenView::Modulo,
        Op::Pow => TokenView::Power,
        Op::And => TokenView::And,
        Op::Or => TokenView::Or,
        Op::Eq => TokenView::Equal,
        Op::Neq => TokenView::NotEqual,
        Op::Lt => TokenView::Less,
        Op::Leq => TokenView::LessOrEqual,
        Op::Gt => TokenView::Greater,
        Op::Geq => TokenView::GreaterOrEqual,
    }
}

/// Tokens as they are where they bind tightly enough for their place, and
/// between round brackets where they do not.
pub open spec fn in_bracket_tokens(tokens: Seq<TokenView>, bound: bool) -> Seq<TokenView> {
    if bound {
        tokens
    } else {
        seq![TokenView::LeftParen] + tokens + seq![TokenView::RightParen]
    }
}

/// Whether a type can be written in a source text: a base type, or an
/// array of such a type.
pub open spec fn written_type(t: TypeView) -> bool
    decreases t,
{
    match t {
        TypeView::Int | TypeView::Bool | TypeView::String | TypeView::Unit => true,
        TypeView::Array(inner) => written_type(*inner),
        _ => false,
    }
}

/// The tokens that write a type.
pub open spec fn type_tokens(t: TypeView) -> Seq<TokenView>
    decreases t,
{
    match t {
        TypeView::Int => seq![TokenView::IntType],
        TypeView::Bool => seq![TokenView::BoolType],
        TypeView::String => seq![TokenView::StringType],
        TypeView::Unit => seq![TokenView::UnitType],
        TypeView::Array(inner) => type_tokens(*inner) + seq![
            TokenView::LeftBracket,
            TokenView::RightBracket,
        ],
        _ => Seq::empty(),
    }
}

/// The base type that a type is an array of, at any depth.
pub open spec fn innermost(t: TypeView) -> TypeView
    decreases t,
{
    match t {
        TypeView::Array(inner) => innermost(*inner),
        _ => t,
    }
}

/// Whether every type that an l-value's indices write down can be
/// written in a source text.
pub open spec fn readable_lhs(l: LhsView) -> bool
    decreases l,
{
    match l {
        LhsView::Var { id } => true,
        LhsView::Index { lhs, index } => readable_lhs(lhs.value) && readable(index.value),
    }
}

/// Whether every one of the first `n` expressions of a list is readable.
pub open spec fn readable_all(exprs: Seq<SpannedView<ExprView>>, n: nat) -> bool
    decreases exprs, n,
{
    if n == 0 || n > exprs.len() {
        true
    } else {
        readable_all(exprs, (n - 1) as nat) && readable(exprs[n - 1].value)
    }
}

/// Whether every type that an expression writes down, in a `let` or for a
/// new array, can be written in a source text.
pub open spec fn readable(e: ExprView) -> bool
    decreases e,
{
    match e {
        ExprView::Chain { lhs, rhs } => readable(lhs.value) && readable(rhs.value),
        ExprView::Let { id, ty, expr } => written_type(ty.value) && readable(expr.value),
        ExprView::SetLhs { lhs, expr } => readable_lhs(lhs.value) && readable(expr.value),
        ExprView::BinOp { lhs, op, rhs } => readable(lhs.value) && readable(rhs.value),
        ExprView::Not { expr } => readable(expr.value),
        ExprView::While { cond, expr } => readable(cond.value) && readable(expr.value),
        ExprView::IfElse { cond, then, els } => readable(cond.value) && readable(then.value)
            && readable(els.value),
        ExprView::FunCall { id, args } => readable_all(args, args.len()),
        ExprView::NewArray { ty, size, init } => written_type(ty.value) && readable(size.value)
            && readable(init.value),
        ExprView::ArrayIndex { lhs, index } => readable_lhs(lhs.value) && readable(index.value),
        _ => true,
    }
}

/// The tokens of an l-value: its name, then each index in square
/// brackets.
pub open spec fn lhs_tokens(l: LhsView) -> Seq<TokenView>
    decreases l,
{
    match l {
        LhsView::Var { id } => seq![TokenView::Id(id.value)],
        LhsView::Index { lhs, index } => lhs_tokens(lhs.value) + seq![TokenView::LeftBracket]
            + expr_tokens(index.value) + seq![TokenView::RightBracket],
    }
}

/// The name that an l-value starts with.
pub open spec fn lhs_root(l: LhsView) -> Seq<char>
    decreases l,
{
    match l {
        LhsView::Var { id } => id.value,
        LhsView::Index { lhs, index } => lhs_root(lhs.value),
    }
}

/// The tokens of the arguments of a call from the argument `from` on, with
/// commas between them, up to and with the closing bracket.
pub open spec fn args_tokens(args: Seq<SpannedView<ExprView>>, from: nat) -> Seq<TokenView>
    decreases args, args.len() - from,
{
    if from >= args.len() {
        Seq::empty()
    } else if from + 1 == args.len() {
        expr_tokens(args[from as int].value) + seq![TokenView::RightParen]
    } else {
        expr_tokens(args[from as int].value) + seq![TokenView::Comma] + args_tokens(args, from + 1)
    }
}

/// The tokens of the text form of an expression: the same parts in the
/// same order as in the text, with the same brackets.
pub open spec fn expr_tokens(e: ExprView) -> Seq<TokenView>
    decreases e,
{
    match e {
        ExprView::Chain { lhs, rhs } => in_bracket_tokens(
            expr_tokens(lhs.value),
            strength(lhs.value) >= 1,
        ) + seq![TokenView::Semicolon] + expr_tokens(rhs.value),
        ExprView::Let { id, ty, expr } => seq![
            TokenView::Let,
            TokenView::Id(id.value),
            TokenView::Colon,
        ] + type_tokens(ty.value) + seq![TokenView::Assign] + in_bracket_tokens(
            expr_tokens(expr.value),
            strength(expr.value) >= 2,
        ),
        ExprView::SetLhs { lhs, expr } => seq![TokenView::SetKw] + lhs_tokens(lhs.value) + seq![
            TokenView::Assign,
        ] + in_bracket_tokens(expr_tokens(expr.value), strength(expr.value) >= 2),
        ExprView::NewArray { ty, size, init } => seq![TokenView::New] + type_tokens(ty.value)
            + seq![TokenView::LeftBracket] + expr_tokens(size.value) + seq![TokenView::Pipe]
            + expr_tokens(init.value) + seq![TokenView::RightBracket],
        ExprView::IfElse { cond, then, els } => seq![TokenView::If] + in_bracket_tokens(
            expr_tokens(cond.value),
            strength(cond.value) >= 2,
        ) + seq![TokenView::Then] + in_bracket_tokens(
            expr_tokens(then.value),
            strength(then.value) >= 2,
        ) + seq![TokenView::Else] + in_bracket_tokens(
            expr_tokens(els.value),
            strength(els.value) >= 2,
        ),
        ExprView::While { cond, expr } => seq![TokenView::While] + in_bracket_tokens(
            expr_tokens(cond.value),
            strength(cond.value) >= 2,
        ) + seq![TokenView::Do] + in_bracket_tokens(
            expr_tokens(expr.value),
            strength(expr.value) >= 2,
        ),
        ExprView::BinOp { lhs, op, rhs } => in_bracket_tokens(
            expr_tokens(lhs.value),
            strength(lhs.value) >= left_strength(op),
        ) + seq![op_token(op)] + in_bracket_tokens(
            expr_tokens(rhs.value),
            strength(rhs.value) >= right_strength(op),
        ),
        ExprView::Not { expr } => seq![TokenView::Not] + in_bracket_tokens(
            expr_tokens(expr.value),
            strength(expr.value) >= 10,
        ),
        ExprView::Int(n) => seq![TokenView::Int(n)],
        ExprView::Bool(b) => if b {
            seq![TokenView::True]
        } else {
            seq![TokenView::False]
        },
        ExprView::Unit => seq![TokenView::Unit],
        ExprView::String(s) => seq![TokenView::String(s)],
        ExprView::Id(id) => seq![TokenView::Id(id.value)],
        ExprView::FunCall { id, args } => seq![TokenView::Id(id.value), TokenView::LeftParen] + (
        if args.len() == 0 {
            seq![TokenView::RightParen]
        } else {
            args_tokens(args, 0)
        }),
        ExprView::ArrayIndex { lhs, index } => lhs_tokens(lhs.value) + seq![
            TokenView::LeftBracket,
        ] + expr_tokens(index.value) + seq![TokenView::RightBracket],
    }
}

/// Whether the tokens `want` stand in the list from `pos` on.
pub open spec fn stands(tokens: Tokens, pos: nat, want: Seq<TokenView>) -> bool {
    pos + want.len() <= tokens.len() && forall|i: int|
        0 <= i < want.len() ==> (#[trigger] tokens[pos + i]).value == want[i]
}

/// The precedence level of the binary operator that a token writes, or 0
/// if it writes none.
pub open spec fn token_level(t: Option<TokenView>) -> nat {
    match t {
        Some(TokenView::Or) => 2,
        Some(TokenView::And) => 3,
        Some(TokenView::Equal) | Some(TokenView::NotEqual) => 4,
        Some(TokenView::Less) | Some(TokenView::LessOrEqual) | Some(TokenView::Greater) | Some(
            TokenView::GreaterOrEqual,
        ) => 5,
        Some(TokenView::Plus) | Some(TokenView::Minus) => 6,
        Some(TokenView::Multiply) | Some(TokenView::Divide) | Some(TokenView::Modulo) => 7,
        Some(TokenView::Power) => 8,
        _ => 0,
    }
}

/// Whether an expression that is read in a place for the strength `min`
/// ends in front of the token: the token opens no call and no index,
/// writes no operator that such a place takes, and is no semicolon where
/// the place takes a chain.
pub open spec fn ends_before(t: Option<TokenView>, min: nat) -> bool {
    &&& t != Some(TokenView::LeftParen)
    &&& t != Some(TokenView::LeftBracket)
    &&& (min == 0 ==> t != Some(TokenView::Semicolon))
    &&& (token_level(t) == 0 || token_level(t) + 1 < min)
}

/// What the grammar reads at `pos` in a place for an expression of at
/// least the strength `min`: a chain for 0, an element of a chain for 1, an
/// expression that is neither for 2, an expression of the operators of one
/// precedence level and of all tighter ones for 3 to 9, an operand with
/// its prefix operators for 10, and a single operand above that.
pub open spec fn read_at(tokens: Tokens, pos: nat, min: nat, what: Expecting) -> Parsed<
    SpannedView<ExprView>,
> {
    if min == 0 {
        parse_expr_spec(tokens, pos, what)
    } else if min == 1 {
        parse_item_spec(tokens, pos, what)
    } else if min == 2 {
        parse_nonchain_spec(tokens, pos, what)
    } else if min <= 10 {
        parse_level_spec(tokens, pos, (min - 1) as nat, what)
    } else {
        parse_primary_spec(tokens, pos, what)
    }
}

/// Whether a parsing step gives the expression `e`, spans aside, and
/// takes `n` tokens.
pub open spec fn reads(r: Parsed<SpannedView<ExprView>>, e: ExprView, n: nat) -> bool {
    r matches Ok(p) && p.1 == n && bare(p.0.value) == bare(e)
}

/// A parsing step that comes after `k` tokens were taken.
pub open spec fn later<T>(r: Parsed<T>, k: nat) -> Parsed<T> {
    match r {
        Ok((node, more)) => Ok((node, k + more)),
        Err(e) => Err(e),
    }
}

/// Whether the grammar, on its way from a place for the strength `hi` out
/// to one for the strength `lo`, meets no keyword or prefix operator that
/// it would take for the start of another form.
pub open spec fn passes(t: Option<TokenView>, lo: nat, hi: nat) -> bool {
    &&& (lo <= 1 < hi ==> t != Some(TokenView::Let))
    &&& (lo <= 2 < hi ==> t != Some(TokenView::SetKw) && t != Some(TokenView::If) && t != Some(
        TokenView::While,
    ))
    &&& (lo <= 10 < hi ==> t != Some(TokenView::Not) && t != Some(TokenView::Minus))
}

proof fn lemma_stands_parts(tokens: Tokens, pos: nat, a: Seq<TokenView>, b: Seq<TokenView>)
    requires
        stands(tokens, pos, a + b),
    ensures
        stands(tokens, pos, a),
        stands(tokens, pos + a.len(), b),
{
    assert forall|i: int| 0 <= i < a.len() implies (#[trigger] tokens[pos + i]).value == a[i] by {
        assert((a + b)[i] == a[i]);
    }
    assert forall|i: int| 0 <= i < b.len() implies (#[trigger] tokens[pos + a.len() + i]).value
        == b[i] by {
        assert((a + b)[a.len() + i] == b[i]);
        assert(tokens[pos + (a.len() + i)].value == (a + b)[a.len() + i]);
    }
}

proof fn lemma_stands_first(tokens: Tokens, pos: nat, want: Seq<TokenView>)
    requires
        stands(tokens, pos, want),
        want.len() > 0,
    ensures
        token_at(tokens, pos) == Some(want[0]),
{
    let i: int = 0;
    assert(tokens[pos + i].value == want[i]);
}

/// One step of the grammar's way out: where the place for the next
/// greater strength gives an expression, the token behind it ends the
/// expression, and the first token starts no other form, the place for
/// `min` gives the same.
proof fn lemma_step_out(
    tokens: Tokens,
    pos: nat,
    min: nat,
    what: Expecting,
    node: SpannedView<ExprView>,
    n: nat,
)
    requires
        min <= 10,
        read_at(tokens, pos, min + 1, what) == Ok::<_, SyntaxErrorView>(
            (node, n),
        ),
        ends_before(token_at(tokens, pos + n), min),
        passes(token_at(tokens, pos), min, min + 1),
    ensures
        read_at(tokens, pos, min, what) == Ok::<_, SyntaxErrorView>(
            (node, n),
        ),
{
    if min == 0 {
        reveal_with_fuel(parse_expr_spec, 1);
        reveal_with_fuel(parse_chain_spec, 1);
        reveal_with_fuel(parse_item_spec, 1);
    } else if min == 1 {
        reveal_with_fuel(parse_item_spec, 1);
        reveal_with_fuel(parse_nonchain_spec, 1);
    } else if min == 2 {
        reveal_with_fuel(parse_nonchain_spec, 1);
        reveal_with_fuel(parse_level_spec, 1);
    } else if min <= 9 {
        let level = (min - 1) as nat;
        reveal_with_fuel(parse_level_spec, 2);
        reveal_with_fuel(parse_left_tail, 1);
        reveal_with_fuel(parse_unary_spec, 1);
        assert(binary_op(token_at(tokens, pos + n), level) is None);
        assert(parse_level_spec(tokens, pos, level + 1, what) == read_at(
            tokens,
            pos,
            min + 1,
            what,
        ));
    } else {
        reveal_with_fuel(parse_level_spec, 1);
        reveal_with_fuel(parse_unary_spec, 1);
        reveal_with_fuel(parse_primary_spec, 1);
    }
}

/// The grammar's way out: where the place for the strength `from` gives an
/// expression, the place for a smaller strength `to` gives the same.
proof fn lemma_way_out(
    tokens: Tokens,
    pos: nat,
    from: nat,
    to: nat,
    what: Expecting,
    node: SpannedView<ExprView>,
    n: nat,
)
    requires
        to <= from <= 11,
        read_at(tokens, pos, from, what) == Ok::<_, SyntaxErrorView>(
            (node, n),
        ),
        ends_before(token_at(tokens, pos + n), to),
        passes(token_at(tokens, pos), to, from),
    ensures
        read_at(tokens, pos, to, what) == Ok::<_, SyntaxErrorView>(
            (node, n),
        ),
    decreases from - to,
{
    if to < from {
        let mid = (from - 1) as nat;
        lemma_step_out(tokens, pos, mid, what, node, n);
        lemma_way_out(tokens, pos, mid, to, what, node, n);
    }
}

/// Whether a token can be the first of an expression of the strength
/// `s`.
pub open spec fn starts_expr(t: TokenView, s: nat) -> bool {
    &&& t != TokenView::RightParen
    &&& t != TokenView::RightBracket
    &&& t != TokenView::Minus
    &&& (s >= 2 ==> t != TokenView::Let)
    &&& (s >= 3 ==> t != TokenView::SetKw && t != TokenView::If && t != TokenView::While)
    &&& (s >= 11 ==> t != TokenView::Not)
}

proof fn lemma_lhs_shape(l: LhsView)
    ensures
        lhs_tokens(l).len() >= 1,
        lhs_tokens(l)[0] == TokenView::Id(lhs_root(l)),
        lhs_tokens(l).len() >= 2 ==> lhs_tokens(l)[1] == TokenView::LeftBracket,
    decreases l,
{
    match l {
        LhsView::Var { id } => {},
        LhsView::Index { lhs, index } => {
            lemma_lhs_shape(lhs.value);
        },
    }
}

proof fn lemma_first_token(e: ExprView)
    ensures
        expr_tokens(e).len() >= 1,
        starts_expr(expr_tokens(e)[0], strength(e)),
    decreases e,
{
    match e {
        ExprView::Chain { lhs, rhs } => {
            lemma_first_token(lhs.value);
        },
        ExprView::BinOp { lhs, op, rhs } => {
            lemma_first_token(lhs.value);
        },
        ExprView::ArrayIndex { lhs, index } => {
            lemma_lhs_shape(lhs.value);
        },
        _ => {},
    }
}

proof fn lemma_later_zero<T>(r: Parsed<T>)
    ensures
        later(r, 0) == r,
{
}

proof fn lemma_later_later<T>(r: Parsed<T>, a: nat, b: nat)
    ensures
        later(later(r, a), b) == later(r, a + b),
{
}

proof fn lemma_op_token(op: Op)
    ensures
        binary_op(Some(op_token(op)), (op_strength(op) - 1) as nat) == Some(op),
        token_level(Some(op_token(op))) == op_strength(op) - 1,
        op_token(op) != TokenView::LeftParen,
        op_token(op) != TokenView::LeftBracket,
        op_token(op) != TokenView::Semicolon,
{
}

proof fn lemma_level_left(
    tokens: Tokens,
    pos: nat,
    level: nat,
    what: Expecting,
    first: SpannedView<ExprView>,
    n: nat,
)
    requires
        level == 2 || level == 3 || level == 6 || level == 7,
        parse_level_spec(tokens, pos, level + 1, what) == Ok::<_, SyntaxErrorView>((first, n)),
    ensures
        parse_level_spec(tokens, pos, level, what) == later(
            parse_left_tail(tokens, pos + n, level, first),
            n,
        ),
{
    reveal_with_fuel(parse_level_spec, 2);
    reveal_with_fuel(parse_left_tail, 1);
}

proof fn lemma_tail_step(
    tokens: Tokens,
    pos: nat,
    level: nat,
    first: SpannedView<ExprView>,
    op: Op,
    second: SpannedView<ExprView>,
    n: nat,
)
    requires
        binary_op(token_at(tokens, pos), level) == Some(op),
        parse_level_spec(
            tokens,
            pos + 1,
            level + 1,
            Expecting::Operand,
        ) == Ok::<_, SyntaxErrorView>(
            (second, n),
        ),
    ensures
        parse_left_tail(tokens, pos, level, first) == later(
            parse_left_tail(tokens, pos + 1 + n, level, binary_node(first, op, second)),
            n + 1,
        ),
{
    reveal_with_fuel(parse_left_tail, 2);
    reveal_with_fuel(parse_level_spec, 1);
}

proof fn lemma_tail_stop(tokens: Tokens, pos: nat, level: nat, first: SpannedView<ExprView>)
    requires
        binary_op(token_at(tokens, pos), level) is None,
    ensures
        parse_left_tail(tokens, pos, level, first) == Ok::<_, SyntaxErrorView>((first, 0nat)),
{
    reveal_with_fuel(parse_left_tail, 1);
}

proof fn lemma_level_pair(
    tokens: Tokens,
    pos: nat,
    level: nat,
    what: Expecting,
    first: SpannedView<ExprView>,
    n: nat,
    op: Op,
    second: SpannedView<ExprView>,
    m: nat,
)
    requires
        level == 4 || level == 5 || level == 8,
        parse_level_spec(tokens, pos, level + 1, what) == Ok::<_, SyntaxErrorView>((first, n)),
        binary_op(token_at(tokens, pos + n), level) == Some(op),
        parse_level_spec(
            tokens,
            pos + n + 1,
            if level == 8 {
                level
            } else {
                level + 1
            },
            Expecting::Operand,
        ) == Ok::<_, SyntaxErrorView>((second, m)),
    ensures
        parse_level_spec(tokens, pos, level, what) == Ok::<_, SyntaxErrorView>(
            (binary_node(first, op, second), n + 1 + m),
        ),
{
    reveal_with_fuel(parse_level_spec, 2);
}

proof fn lemma_level_nine(tokens: Tokens, pos: nat, what: Expecting)
    ensures
        parse_level_spec(tokens, pos, 9, what) == parse_unary_spec(tokens, pos, what),
{
    reveal_with_fuel(parse_level_spec, 1);
    reveal_with_fuel(parse_unary_spec, 1);
}

proof fn lemma_unary_not(
    tokens: Tokens,
    pos: nat,
    what: Expecting,
    read: SpannedView<ExprView>,
    n: nat,
)
    requires
        token_at(tokens, pos) == Some(TokenView::Not),
        parse_unary_spec(tokens, pos + 1, Expecting::Operand) == Ok::<_, SyntaxErrorView>(
            (read, n),
        ),
    ensures
        parse_unary_spec(tokens, pos, what) matches Ok(p) && p.1 == n + 1 && p.0.value == (
        ExprView::Not { expr: Box::new(read) }),
{
    reveal_with_fuel(parse_unary_spec, 2);
}

proof fn lemma_not(tokens: Tokens, pos: nat, what: Expecting, read: SpannedView<ExprView>, n: nat)
    requires
        token_at(tokens, pos) == Some(TokenView::Not),
        parse_level_spec(tokens, pos + 1, 9, Expecting::Operand) == Ok::<_, SyntaxErrorView>(
            (read, n),
        ),
    ensures
        parse_level_spec(tokens, pos, 9, what) matches Ok(p) && p.1 == n + 1 && p.0.value == (
        ExprView::Not { expr: Box::new(read) }),
{
    lemma_level_nine(tokens, pos, what);
    lemma_level_nine(tokens, pos + 1, Expecting::Operand);
    lemma_unary_not(tokens, pos, what, read, n);
}

proof fn lemma_paren(tokens: Tokens, pos: nat, what: Expecting, read: SpannedView<ExprView>, n: nat)
    requires
        token_at(tokens, pos) == Some(TokenView::LeftParen),
        parse_expr_spec(tokens, pos + 1, Expecting::Expression) == Ok::<_, SyntaxErrorView>(
            (read, n),
        ),
        token_at(tokens, pos + 1 + n) == Some(TokenView::RightParen),
    ensures
        parse_primary_spec(tokens, pos, what) matches Ok(p) && p.1 == n + 2 && p.0.value
            == read.value,
{
    reveal_with_fuel(parse_primary_spec, 1);
    reveal_with_fuel(parse_paren_spec, 1);
    reveal_with_fuel(parse_expr_spec, 1);
}

proof fn lemma_literal(tokens: Tokens, pos: nat, e: ExprView, what: Expecting)
    requires
        e is Int || e is Bool || e is Unit || e is String,
        stands(tokens, pos, expr_tokens(e)),
    ensures
        reads(read_at(tokens, pos, 11, what), e, 1),
{
    lemma_stands_first(tokens, pos, expr_tokens(e));
    reveal_with_fuel(parse_primary_spec, 1);
}

proof fn lemma_name_plain(tokens: Tokens, pos: nat, name: Seq<char>, what: Expecting)
    requires
        token_at(tokens, pos) == Some(TokenView::Id(name)),
        token_at(tokens, pos + 1) != Some(TokenView::LeftParen),
    ensures
        parse_primary_spec(tokens, pos, what) == (match parse_index_tail(
            tokens,
            pos + 1,
            name_lhs(tokens, pos, name),
        ) {
            Err(e) => Err(e),
            Ok((lhs, used)) => Ok((lhs_as_expr(lhs), used + 1)),
        }),
{
    reveal_with_fuel(parse_primary_spec, 1);
    reveal_with_fuel(parse_name_spec, 1);
    reveal_with_fuel(parse_index_tail, 1);
}

proof fn lemma_lhs_start(tokens: Tokens, pos: nat, name: Seq<char>)
    requires
        token_at(tokens, pos) == Some(TokenView::Id(name)),
    ensures
        parse_lhs_spec(tokens, pos) == (match parse_index_tail(
            tokens,
            pos + 1,
            name_lhs(tokens, pos, name),
        ) {
            Err(e) => Err(e),
            Ok((lhs, used)) => Ok((lhs, used + 1)),
        }),
{
    reveal_with_fuel(parse_lhs_spec, 1);
    reveal_with_fuel(parse_index_tail, 1);
}

proof fn lemma_index_stop(tokens: Tokens, pos: nat, lhs: SpannedView<LhsView>)
    requires
        token_at(tokens, pos) != Some(TokenView::LeftBracket),
    ensures
        parse_index_tail(tokens, pos, lhs) == Ok::<_, SyntaxErrorView>((lhs, 0nat)),
{
    reveal_with_fuel(parse_index_tail, 1);
}

/// The l-value `lhs` with the index `index`, whose closing bracket is
/// the token at `close`.
pub open spec fn indexed(
    tokens: Tokens,
    lhs: SpannedView<LhsView>,
    index: SpannedView<ExprView>,
    close: nat,
) -> SpannedView<LhsView> {
    SpannedView {
        value: LhsView::Index { lhs: Box::new(lhs), index: Box::new(index) },
        span: Span { start: lhs.span.start, end: tokens[close as int].span.end },
    }
}

proof fn lemma_index_step(
    tokens: Tokens,
    pos: nat,
    lhs: SpannedView<LhsView>,
    index: SpannedView<ExprView>,
    n: nat,
)
    requires
        token_at(tokens, pos) == Some(TokenView::LeftBracket),
        parse_expr_spec(tokens, pos + 1, Expecting::Expression) == Ok::<_, SyntaxErrorView>(
            (index, n),
        ),
        token_at(tokens, pos + 1 + n) == Some(TokenView::RightBracket),
    ensures
        parse_index_tail(tokens, pos, lhs) == later(
            parse_index_tail(tokens, pos + n + 2, indexed(tokens, lhs, index, pos + 1 + n)),
            n + 2,
        ),
{
    reveal_with_fuel(parse_index_tail, 2);
    reveal_with_fuel(parse_expr_spec, 1);
}

proof fn lemma_call_empty(tokens: Tokens, pos: nat, name: Seq<char>, what: Expecting)
    requires
        token_at(tokens, pos) == Some(TokenView::Id(name)),
        token_at(tokens, pos + 1) == Some(TokenView::LeftParen),
        token_at(tokens, pos + 2) == Some(TokenView::RightParen),
    ensures
        parse_primary_spec(tokens, pos, what) matches Ok(p) && p.1 == 3 && p.0.value == (
        ExprView::FunCall {
            id: SpannedView { value: name, span: tokens[pos as int].span },
            args: Seq::empty(),
        }),
{
    reveal_with_fuel(parse_primary_spec, 1);
    reveal_with_fuel(parse_name_spec, 1);
}

proof fn lemma_call(
    tokens: Tokens,
    pos: nat,
    name: Seq<char>,
    what: Expecting,
    args: Seq<SpannedView<ExprView>>,
    n: nat,
)
    requires
        token_at(tokens, pos) == Some(TokenView::Id(name)),
        token_at(tokens, pos + 1) == Some(TokenView::LeftParen),
        token_at(tokens, pos + 2) != Some(TokenView::RightParen),
        parse_arg_list(tokens, pos + 2, Expecting::ExpressionOrClose) == Ok::<_, SyntaxErrorView>(
            (args, n),
        ),
    ensures
        parse_primary_spec(tokens, pos, what) matches Ok(p) && p.1 == n + 2 && p.0.value == (
        ExprView::FunCall { id: SpannedView { value: name, span: tokens[pos as int].span }, args }),
{
    reveal_with_fuel(parse_primary_spec, 1);
    reveal_with_fuel(parse_name_spec, 1);
    reveal_with_fuel(parse_arg_list, 1);
}

proof fn lemma_args_last(
    tokens: Tokens,
    pos: nat,
    what: Expecting,
    first: SpannedView<ExprView>,
    n: nat,
)
    requires
        parse_expr_spec(tokens, pos, what) == Ok::<_, SyntaxErrorView>((first, n)),
        token_at(tokens, pos + n) == Some(TokenView::RightParen),
    ensures
        parse_arg_list(tokens, pos, what) == Ok::<_, SyntaxErrorView>((seq![first], n + 1)),
{
    reveal_with_fuel(parse_arg_list, 1);
    reveal_with_fuel(parse_expr_spec, 1);
}

proof fn lemma_args_more(
    tokens: Tokens,
    pos: nat,
    what: Expecting,
    first: SpannedView<ExprView>,
    n: nat,
    rest: Seq<SpannedView<ExprView>>,
    m: nat,
)
    requires
        parse_expr_spec(tokens, pos, what) == Ok::<_, SyntaxErrorView>((first, n)),
        token_at(tokens, pos + n) == Some(TokenView::Comma),
        parse_arg_list(tokens, pos + n + 1, Expecting::Expression) == Ok::<_, SyntaxErrorView>(
            (rest, m),
        ),
    ensures
        parse_arg_list(tokens, pos, what) == Ok::<_, SyntaxErrorView>(
            (seq![first] + rest, n + 1 + m),
        ),
{
    reveal_with_fuel(parse_arg_list, 2);
    reveal_with_fuel(parse_expr_spec, 1);
}

proof fn lemma_new(
    tokens: Tokens,
    pos: nat,
    what: Expecting,
    ty: SpannedView<TypeView>,
    t: nat,
    size: SpannedView<ExprView>,
    s: nat,
    init: SpannedView<ExprView>,
    i: nat,
)
    requires
        token_at(tokens, pos) == Some(TokenView::New),
        parse_type_spec(tokens, pos + 1) == Ok::<_, SyntaxErrorView>((ty, t)),
        token_at(tokens, pos + 1 + t) == Some(TokenView::LeftBracket),
        parse_expr_spec(tokens, pos + 1 + t + 1, Expecting::Expression) == Ok::<_, SyntaxErrorView>(
            (size, s),
        ),
        token_at(tokens, pos + 1 + t + 1 + s) == Some(TokenView::Pipe),
        parse_expr_spec(
            tokens,
            pos + 1 + t + 1 + s + 1,
            Expecting::Expression,
        ) == Ok::<_, SyntaxErrorView>(
            (init, i),
        ),
        token_at(tokens, pos + 1 + t + 1 + s + 1 + i) == Some(TokenView::RightBracket),
    ensures
        parse_primary_spec(tokens, pos, what) matches Ok(p) && p.1 == t + s + i + 4 && p.0.value
            == (ExprView::NewArray { ty, size: Box::new(size), init: Box::new(init) }),
{
    reveal_with_fuel(parse_primary_spec, 1);
    reveal_with_fuel(parse_new_spec, 1);
    reveal_with_fuel(parse_dims_spec, 1);
    reveal_with_fuel(parse_expr_spec, 1);
}

proof fn lemma_set(
    tokens: Tokens,
    pos: nat,
    what: Expecting,
    lhs: SpannedView<LhsView>,
    l: nat,
    value: SpannedView<ExprView>,
    v: nat,
)
    requires
        token_at(tokens, pos) == Some(TokenView::SetKw),
        parse_lhs_spec(tokens, pos + 1) == Ok::<_, SyntaxErrorView>((lhs, l)),
        token_at(tokens, pos + 1 + l) == Some(TokenView::Assign),
        parse_nonchain_spec(
            tokens,
            pos + 1 + l + 1,
            Expecting::Statement,
        ) == Ok::<_, SyntaxErrorView>(
            (value, v),
        ),
    ensures
        parse_nonchain_spec(tokens, pos, what) matches Ok(p) && p.1 == l + v + 2 && p.0.value == (
        ExprView::SetLhs { lhs, expr: Box::new(value) }),
{
    reveal_with_fuel(parse_nonchain_spec, 2);
    reveal_with_fuel(parse_set_spec, 1);
    reveal_with_fuel(parse_lhs_spec, 1);
}

proof fn lemma_if(
    tokens: Tokens,
    pos: nat,
    what: Expecting,
    cond: SpannedView<ExprView>,
    c: nat,
    then: SpannedView<ExprView>,
    t: nat,
    els: SpannedView<ExprView>,
    e: nat,
)
    requires
        token_at(tokens, pos) == Some(TokenView::If),
        parse_nonchain_spec(tokens, pos + 1, Expecting::Statement) == Ok::<_, SyntaxErrorView>(
            (cond, c),
        ),
        token_at(tokens, pos + 1 + c) == Some(TokenView::Then),
        parse_nonchain_spec(
            tokens,
            pos + 1 + c + 1,
            Expecting::Statement,
        ) == Ok::<_, SyntaxErrorView>(
            (then, t),
        ),
        token_at(tokens, pos + 1 + c + 1 + t) == Some(TokenView::Else),
        parse_nonchain_spec(
            tokens,
            pos + 1 + c + 1 + t + 1,
            Expecting::Statement,
        ) == Ok::<_, SyntaxErrorView>((els, e)),
    ensures
        parse_nonchain_spec(tokens, pos, what) matches Ok(p) && p.1 == c + t + e + 3 && p.0.value
            == (ExprView::IfElse {
            cond: Box::new(cond),
            then: Box::new(then),
            els: Box::new(els),
        }),
{
    reveal_with_fuel(parse_nonchain_spec, 2);
    reveal_with_fuel(parse_if_spec, 1);
    reveal_with_fuel(parse_branches_spec, 1);
}

proof fn lemma_while(
    tokens: Tokens,
    pos: nat,
    what: Expecting,
    cond: SpannedView<ExprView>,
    c: nat,
    body: SpannedView<ExprView>,
    b: nat,
)
    requires
        token_at(tokens, pos) == Some(TokenView::While),
        parse_nonchain_spec(tokens, pos + 1, Expecting::Statement) == Ok::<_, SyntaxErrorView>(
            (cond, c),
        ),
        token_at(tokens, pos + 1 + c) == Some(TokenView::Do),
        parse_nonchain_spec(
            tokens,
            pos + 1 + c + 1,
            Expecting::Statement,
        ) == Ok::<_, SyntaxErrorView>(
            (body, b),
        ),
    ensures
        parse_nonchain_spec(tokens, pos, what) matches Ok(p) && p.1 == c + b + 2 && p.0.value == (
        ExprView::While { cond: Box::new(cond), expr: Box::new(body) }),
{
    reveal_with_fuel(parse_nonchain_spec, 2);
    reveal_with_fuel(parse_while_spec, 1);
}

proof fn lemma_let(
    tokens: Tokens,
    pos: nat,
    what: Expecting,
    name: Seq<char>,
    ty: SpannedView<TypeView>,
    t: nat,
    init: SpannedView<ExprView>,
    i: nat,
)
    requires
        token_at(tokens, pos) == Some(TokenView::Let),
        token_at(tokens, pos + 1) == Some(TokenView::Id(name)),
        token_at(tokens, pos + 2) == Some(TokenView::Colon),
        parse_type_spec(tokens, pos + 3) == Ok::<_, SyntaxErrorView>((ty, t)),
        token_at(tokens, pos + 3 + t) == Some(TokenView::Assign),
        parse_nonchain_spec(
            tokens,
            pos + 3 + t + 1,
            Expecting::Statement,
        ) == Ok::<_, SyntaxErrorView>(
            (init, i),
        ),
    ensures
        parse_item_spec(tokens, pos, what) matches Ok(p) && p.1 == t + i + 4 && p.0.value == (
        ExprView::Let {
            id: SpannedView { value: name, span: tokens[(pos + 1) as int].span },
            ty,
            expr: Box::new(init),
        }),
{
    reveal_with_fuel(parse_item_spec, 1);
    reveal_with_fuel(parse_let_spec, 1);
    reveal_with_fuel(parse_nonchain_spec, 1);
}

proof fn lemma_chain(
    tokens: Tokens,
    pos: nat,
    what: Expecting,
    first: SpannedView<ExprView>,
    n: nat,
    rest: SpannedView<ExprView>,
    m: nat,
)
    requires
        parse_item_spec(tokens, pos, what) == Ok::<_, SyntaxErrorView>((first, n)),
        token_at(tokens, pos + n) == Some(TokenView::Semicolon),
        parse_expr_spec(tokens, pos + n + 1, Expecting::Expression) == Ok::<_, SyntaxErrorView>(
            (rest, m),
        ),
    ensures
        parse_expr_spec(tokens, pos, what) matches Ok(p) && p.1 == n + 1 + m && p.0.value == (
        ExprView::Chain { lhs: Box::new(first), rhs: Box::new(rest) }),
{
    reveal_with_fuel(parse_expr_spec, 2);
    reveal_with_fuel(parse_chain_spec, 1);
    reveal_with_fuel(parse_item_spec, 1);
}

/// The pairs of square brackets behind a base type are taken in one by
/// one: reading them from the base type on is the same as going on behind
/// the type with the type itself.
proof fn lemma_type_spine(tokens: Tokens, pos: nat, t: TypeView)
    requires
        written_type(t),
        stands(tokens, pos, type_tokens(t)),
    ensures
        type_tokens(t).len() >= 1,
        token_at(tokens, pos) matches Some(first) && base_type(first) == Some(innermost(t)),
        parse_array_suffix(tokens, pos + 1, innermost(t)) == ({
            let rest = parse_array_suffix(tokens, pos + type_tokens(t).len(), t);
            (rest.0, (rest.1 + type_tokens(t).len() - 1) as nat)
        }),
    decreases t,
{
    match t {
        TypeView::Array(inner) => {
            let before = type_tokens(*inner);
            let pair = seq![TokenView::LeftBracket, TokenView::RightBracket];
            lemma_stands_parts(tokens, pos, before, pair);
            lemma_type_spine(tokens, pos, *inner);
            let at = pos + before.len();
            let zero: int = 0;
            let one: int = 1;
            assert(tokens[at + zero].value == pair[zero]);
            assert(tokens[at + one].value == pair[one]);
            assert(token_at(tokens, at) == Some(TokenView::LeftBracket));
            assert(token_at(tokens, at + 1) == Some(TokenView::RightBracket));
        },
        _ => {
            lemma_stands_first(tokens, pos, type_tokens(t));
        },
    }
}

/// A type is read back from its tokens, where no pair of square brackets
/// follows it.
proof fn lemma_reads_type(tokens: Tokens, pos: nat, t: TypeView)
    requires
        written_type(t),
        stands(tokens, pos, type_tokens(t)),
        !(token_at(tokens, pos + type_tokens(t).len()) == Some(TokenView::LeftBracket) && token_at(
            tokens,
            pos + type_tokens(t).len() + 1,
        ) == Some(TokenView::RightBracket)),
    ensures
        parse_type_spec(tokens, pos) matches Ok(p) && p.1 == type_tokens(t).len() && p.0.value
            == t,
{
    lemma_type_spine(tokens, pos, t);
    reveal(parse_type_spec);
}

/// The tokens of an operand in a place for the strength `min`: in
/// brackets where the operand binds less tightly.
pub open spec fn operand_tokens(e: ExprView, min: nat) -> Seq<TokenView> {
    in_bracket_tokens(expr_tokens(e), strength(e) >= min)
}

proof fn lemma_readable_at(args: Seq<SpannedView<ExprView>>, n: nat, i: int)
    requires
        readable_all(args, n),
        0 <= i < n <= args.len(),
    ensures
        readable(args[i].value),
    decreases n,
{
    if i < n - 1 {
        lemma_readable_at(args, (n - 1) as nat, i);
    }
}

/// Where the place for the strength of an expression reads it, every
/// place for a smaller strength does.
proof fn lemma_finish(tokens: Tokens, pos: nat, e: ExprView, min: nat, what: Expecting)
    requires
        min <= strength(e),
        stands(tokens, pos, expr_tokens(e)),
        ends_before(token_at(tokens, pos + expr_tokens(e).len()), min),
        reads(read_at(tokens, pos, strength(e), what), e, expr_tokens(e).len()),
    ensures
        reads(read_at(tokens, pos, min, what), e, expr_tokens(e).len()),
{
    lemma_first_token(e);
    lemma_stands_first(tokens, pos, expr_tokens(e));
    let got = read_at(tokens, pos, strength(e), what)->Ok_0;
    lemma_way_out(tokens, pos, strength(e), min, what, got.0, got.1);
}

/// An expression is read back from its tokens in every place that takes
/// an expression of its strength.
proof fn lemma_reads(tokens: Tokens, pos: nat, e: ExprView, min: nat, what: Expecting)
    requires
        readable(e),
        min <= strength(e),
        stands(tokens, pos, expr_tokens(e)),
        ends_before(token_at(tokens, pos + expr_tokens(e).len()), min),
    ensures
        reads(read_at(tokens, pos, min, what), e, expr_tokens(e).len()),
    decreases e, 3nat,
{
    match e {
        ExprView::Chain { .. } => lemma_reads_chain(tokens, pos, e, min, what),
        ExprView::Let { .. } => lemma_reads_let(tokens, pos, e, min, what),
        ExprView::SetLhs { .. } => lemma_reads_set(tokens, pos, e, min, what),
        ExprView::BinOp { .. } => lemma_reads_binary(tokens, pos, e, min, what),
        ExprView::Not { .. } => lemma_reads_not(tokens, pos, e, min, what),
        ExprView::While { .. } => lemma_reads_while(tokens, pos, e, min, what),
        ExprView::IfElse { .. } => lemma_reads_if(tokens, pos, e, min, what),
        ExprView::FunCall { .. } => lemma_reads_call(tokens, pos, e, min, what),
        ExprView::NewArray { .. } => lemma_reads_new(tokens, pos, e, min, what),
        ExprView::ArrayIndex { .. } => lemma_reads_index(tokens, pos, e, min, what),
        ExprView::Id(id) => {
            lemma_stands_first(tokens, pos, expr_tokens(e));
            lemma_name_plain(tokens, pos, id.value, what);
            lemma_index_stop(tokens, pos + 1, name_lhs(tokens, pos, id.value));
            lemma_finish(tokens, pos, e, min, what);
        },
        _ => {
            lemma_literal(tokens, pos, e, what);
            lemma_finish(tokens, pos, e, min, what);
        },
    }
}

/// An operand is read back from its tokens, in brackets where it binds
/// less tightly than its place asks.
proof fn lemma_reads_operand(tokens: Tokens, pos: nat, e: ExprView, min: nat, what: Expecting)
    requires
        readable(e),
        min <= 11,
        stands(tokens, pos, operand_tokens(e, min)),
        ends_before(token_at(tokens, pos + operand_tokens(e, min).len()), min),
    ensures
        reads(read_at(tokens, pos, min, what), e, operand_tokens(e, min).len()),
    decreases e, 5nat,
{
    if strength(e) >= min {
        lemma_reads(tokens, pos, e, min, what);
    } else {
        let inner = expr_tokens(e);
        let all = seq![TokenView::LeftParen] + inner + seq![TokenView::RightParen];
        lemma_stands_parts(
            tokens,
            pos,
            seq![TokenView::LeftParen] + inner,
            seq![TokenView::RightParen],
        );
        lemma_stands_parts(tokens, pos, seq![TokenView::LeftParen], inner);
        lemma_stands_first(tokens, pos, all);
        lemma_stands_first(tokens, pos + 1 + inner.len(), seq![TokenView::RightParen]);
        lemma_reads(tokens, pos + 1, e, 0, Expecting::Expression);
        let read = read_at(tokens, pos + 1, 0, Expecting::Expression)->Ok_0.0;
        lemma_paren(tokens, pos, what, read, inner.len());
        let node = read_at(tokens, pos, 11, what)->Ok_0.0;
        lemma_way_out(tokens, pos, 11, min, what, node, all.len());
    }
}

/// The left operands of operators that group to the left are taken in one
/// by one: reading at a precedence level is the same as going on behind
/// the expression with the expression as the left operand.
proof fn lemma_reads_spine(
    tokens: Tokens,
    pos: nat,
    e: ExprView,
    level: nat,
    what: Expecting,
) -> (node: SpannedView<ExprView>)
    requires
        readable(e),
        level == 2 || level == 3 || level == 6 || level == 7,
        strength(e) >= level + 1,
        stands(tokens, pos, expr_tokens(e)),
        ends_before(token_at(tokens, pos + expr_tokens(e).len()), level + 2),
    ensures
        bare(node.value) == bare(e),
        parse_level_spec(tokens, pos, level, what) == later(
            parse_left_tail(tokens, pos + expr_tokens(e).len(), level, node),
            expr_tokens(e).len(),
        ),
    decreases e,
        (if strength(e) == level + 1 {
            0nat
        } else {
            4nat
        }),
{
    let n = expr_tokens(e).len();
    if strength(e) >= level + 2 {
        lemma_reads(tokens, pos, e, level + 2, what);
        let node = read_at(tokens, pos, level + 2, what)->Ok_0.0;
        lemma_level_left(tokens, pos, level, what, node, n);
        node
    } else {
        match e {
            ExprView::BinOp { lhs, op, rhs } => {
                lemma_op_token(op);
                let left = operand_tokens(lhs.value, level + 1);
                let right = operand_tokens(rhs.value, level + 2);
                assert(expr_tokens(e) =~= (left + seq![op_token(op)]) + right);
                lemma_stands_parts(tokens, pos, left + seq![op_token(op)], right);
                lemma_stands_parts(tokens, pos, left, seq![op_token(op)]);
                lemma_stands_first(tokens, pos + left.len(), seq![op_token(op)]);
                let first = if strength(lhs.value) >= level + 1 {
                    lemma_reads_spine(tokens, pos, lhs.value, level, what)
                } else {
                    lemma_reads_operand(tokens, pos, lhs.value, level + 2, what);
                    let read = read_at(tokens, pos, level + 2, what)->Ok_0.0;
                    lemma_level_left(tokens, pos, level, what, read, left.len());
                    read
                };
                lemma_reads_operand(
                    tokens,
                    pos + left.len() + 1,
                    rhs.value,
                    level + 2,
                    Expecting::Operand,
                );
                let second = read_at(
                    tokens,
                    pos + left.len() + 1,
                    level + 2,
                    Expecting::Operand,
                )->Ok_0.0;
                lemma_tail_step(tokens, pos + left.len(), level, first, op, second, right.len());
                binary_node(first, op, second)
            },
            _ => {
                arbitrary()
            },
        }
    }
}

proof fn lemma_reads_left(tokens: Tokens, pos: nat, e: ExprView, level: nat, what: Expecting)
    requires
        readable(e),
        level == 2 || level == 3 || level == 6 || level == 7,
        strength(e) == level + 1,
        stands(tokens, pos, expr_tokens(e)),
        ends_before(token_at(tokens, pos + expr_tokens(e).len()), level + 1),
    ensures
        reads(parse_level_spec(tokens, pos, level, what), e, expr_tokens(e).len()),
    decreases e, 1nat,
{
    let node = lemma_reads_spine(tokens, pos, e, level, what);
    lemma_tail_stop(tokens, pos + expr_tokens(e).len(), level, node);
}

proof fn lemma_reads_pair(tokens: Tokens, pos: nat, e: ExprView, level: nat, what: Expecting)
    requires
        readable(e),
        level == 4 || level == 5 || level == 8,
        strength(e) == level + 1,
        stands(tokens, pos, expr_tokens(e)),
        ends_before(token_at(tokens, pos + expr_tokens(e).len()), level + 1),
    ensures
        reads(parse_level_spec(tokens, pos, level, what), e, expr_tokens(e).len()),
    decreases e, 1nat,
{
    match e {
        ExprView::BinOp { lhs, op, rhs } => {
            lemma_op_token(op);
            let to_left = left_strength(op);
            let to_right = right_strength(op);
            assert(to_left == level + 2);
            assert(to_right == if level == 8 {
                level + 1
            } else {
                level + 2
            });
            let left = operand_tokens(lhs.value, to_left);
            let right = operand_tokens(rhs.value, to_right);
            assert(expr_tokens(e) =~= (left + seq![op_token(op)]) + right);
            lemma_stands_parts(tokens, pos, left + seq![op_token(op)], right);
            lemma_stands_parts(tokens, pos, left, seq![op_token(op)]);
            lemma_stands_first(tokens, pos + left.len(), seq![op_token(op)]);
            lemma_reads_operand(tokens, pos, lhs.value, to_left, what);
            lemma_reads_operand(
                tokens,
                pos + left.len() + 1,
                rhs.value,
                to_right,
                Expecting::Operand,
            );
            let first = read_at(tokens, pos, to_left, what)->Ok_0.0;
            let second = read_at(
                tokens,
                pos + left.len() + 1,
                to_right,
                Expecting::Operand,
            )->Ok_0.0;
            lemma_level_pair(tokens, pos, level, what, first, left.len(), op, second, right.len());
        },
        _ => {},
    }
}

proof fn lemma_reads_binary(tokens: Tokens, pos: nat, e: ExprView, min: nat, what: Expecting)
    requires
        readable(e),
        min <= strength(e),
        stands(tokens, pos, expr_tokens(e)),
        ends_before(token_at(tokens, pos + expr_tokens(e).len()), min),
        e is BinOp,
    ensures
        reads(read_at(tokens, pos, min, what), e, expr_tokens(e).len()),
    decreases e, 2nat,
{
    let level = (strength(e) - 1) as nat;
    if level == 2 || level == 3 || level == 6 || level == 7 {
        lemma_reads_left(tokens, pos, e, level, what);
    } else {
        lemma_reads_pair(tokens, pos, e, level, what);
    }
    lemma_finish(tokens, pos, e, min, what);
}

proof fn lemma_reads_not(tokens: Tokens, pos: nat, e: ExprView, min: nat, what: Expecting)
    requires
        readable(e),
        min <= strength(e),
        stands(tokens, pos, expr_tokens(e)),
        ends_before(token_at(tokens, pos + expr_tokens(e).len()), min),
        e is Not,
    ensures
        reads(read_at(tokens, pos, min, what), e, expr_tokens(e).len()),
    decreases e, 1nat,
{
    match e {
        ExprView::Not { expr } => {
            let inner = operand_tokens(expr.value, 10);
            lemma_stands_first(tokens, pos, expr_tokens(e));
            lemma_stands_parts(tokens, pos, seq![TokenView::Not], inner);
            lemma_reads_operand(tokens, pos + 1, expr.value, 10, Expecting::Operand);
            let read = read_at(tokens, pos + 1, 10, Expecting::Operand)->Ok_0.0;
            lemma_not(tokens, pos, what, read, inner.len());
            lemma_finish(tokens, pos, e, min, what);
        },
        _ => {},
    }
}

proof fn lemma_reads_chain(tokens: Tokens, pos: nat, e: ExprView, min: nat, what: Expecting)
    requires
        readable(e),
        min <= strength(e),
        stands(tokens, pos, expr_tokens(e)),
        ends_before(token_at(tokens, pos + expr_tokens(e).len()), min),
        e is Chain,
    ensures
        reads(read_at(tokens, pos, min, what), e, expr_tokens(e).len()),
    decreases e, 1nat,
{
    match e {
        ExprView::Chain { lhs, rhs } => {
            let left = operand_tokens(lhs.value, 1);
            let right = expr_tokens(rhs.value);
            assert(expr_tokens(e) =~= (left + seq![TokenView::Semicolon]) + right);
            lemma_stands_parts(tokens, pos, left + seq![TokenView::Semicolon], right);
            lemma_stands_parts(tokens, pos, left, seq![TokenView::Semicolon]);
            lemma_stands_first(tokens, pos + left.len(), seq![TokenView::Semicolon]);
            lemma_reads_operand(tokens, pos, lhs.value, 1, what);
            lemma_reads(tokens, pos + left.len() + 1, rhs.value, 0, Expecting::Expression);
            let first = read_at(tokens, pos, 1, what)->Ok_0.0;
            let rest = read_at(tokens, pos + left.len() + 1, 0, Expecting::Expression)->Ok_0.0;
            lemma_chain(tokens, pos, what, first, left.len(), rest, right.len());
        },
        _ => {},
    }
}

proof fn lemma_reads_let(tokens: Tokens, pos: nat, e: ExprView, min: nat, what: Expecting)
    requires
        readable(e),
        min <= strength(e),
        stands(tokens, pos, expr_tokens(e)),
        ends_before(token_at(tokens, pos + expr_tokens(e).len()), min),
        e is Let,
    ensures
        reads(read_at(tokens, pos, min, what), e, expr_tokens(e).len()),
    decreases e, 1nat,
{
    match e {
        ExprView::Let { id, ty, expr } => {
            let head = seq![TokenView::Let, TokenView::Id(id.value), TokenView::Colon];
            let written = type_tokens(ty.value);
            let init = operand_tokens(expr.value, 2);
            assert(expr_tokens(e) =~= ((head + written) + seq![TokenView::Assign]) + init);
            lemma_stands_parts(tokens, pos, (head + written) + seq![TokenView::Assign], init);
            lemma_stands_parts(tokens, pos, head + written, seq![TokenView::Assign]);
            lemma_stands_parts(tokens, pos, head, written);
            lemma_stands_first(tokens, pos + 3 + written.len(), seq![TokenView::Assign]);
            let zero: int = 0;
            let one: int = 1;
            let two: int = 2;
            assert(tokens[pos + zero].value == head[zero]);
            assert(tokens[pos + one].value == head[one]);
            assert(tokens[pos + two].value == head[two]);
            lemma_reads_type(tokens, pos + 3, ty.value);
            lemma_reads_operand(
                tokens,
                pos + 3 + written.len() + 1,
                expr.value,
                2,
                Expecting::Statement,
            );
            let read_ty = parse_type_spec(tokens, pos + 3)->Ok_0.0;
            let read = read_at(
                tokens,
                pos + 3 + written.len() + 1,
                2,
                Expecting::Statement,
            )->Ok_0.0;
            lemma_let(tokens, pos, what, id.value, read_ty, written.len(), read, init.len());
            lemma_finish(tokens, pos, e, min, what);
        },
        _ => {},
    }
}

/// An l-value is read back from its tokens: its indices are taken in
/// one by one, so that reading them from the name on is the same as going
/// on behind the l-value with the l-value itself.
proof fn lemma_reads_lhs(tokens: Tokens, pos: nat, l: LhsView) -> (node: SpannedView<LhsView>)
    requires
        readable_lhs(l),
        stands(tokens, pos, lhs_tokens(l)),
    ensures
        bare_lhs(node.value) == bare_lhs(l),
        lhs_tokens(l).len() >= 1,
        token_at(tokens, pos) == Some(TokenView::Id(lhs_root(l))),
        parse_index_tail(tokens, pos + 1, name_lhs(tokens, pos, lhs_root(l))) == later(
            parse_index_tail(tokens, pos + lhs_tokens(l).len(), node),
            (lhs_tokens(l).len() - 1) as nat,
        ),
    decreases l, 0nat,
{
    lemma_lhs_shape(l);
    lemma_stands_first(tokens, pos, lhs_tokens(l));
    match l {
        LhsView::Var { id } => {
            let node = name_lhs(tokens, pos, id.value);
            lemma_later_zero(parse_index_tail(tokens, pos + 1, node));
            node
        },
        LhsView::Index { lhs, index } => {
            let before = lhs_tokens(lhs.value);
            let inside = expr_tokens(index.value);
            assert(lhs_tokens(l) =~= ((before + seq![TokenView::LeftBracket]) + inside) + seq![
                TokenView::RightBracket,
            ]);
            lemma_stands_parts(
                tokens,
                pos,
                (before + seq![TokenView::LeftBracket]) + inside,
                seq![TokenView::RightBracket],
            );
            lemma_stands_parts(tokens, pos, before + seq![TokenView::LeftBracket], inside);
            lemma_stands_parts(tokens, pos, before, seq![TokenView::LeftBracket]);
            lemma_stands_first(tokens, pos + before.len(), seq![TokenView::LeftBracket]);
            lemma_stands_first(
                tokens,
                pos + before.len() + 1 + inside.len(),
                seq![TokenView::RightBracket],
            );
            let first = lemma_reads_lhs(tokens, pos, lhs.value);
            lemma_reads(tokens, pos + before.len() + 1, index.value, 0, Expecting::Expression);
            let read = read_at(tokens, pos + before.len() + 1, 0, Expecting::Expression)->Ok_0.0;
            lemma_index_step(tokens, pos + before.len(), first, read, inside.len());
            let node = indexed(tokens, first, read, pos + before.len() + 1 + inside.len());
            lemma_later_later(
                parse_index_tail(tokens, pos + lhs_tokens(l).len(), node),
                inside.len() + 2,
                (before.len() - 1) as nat,
            );
            node
        },
    }
}

proof fn lemma_reads_index(tokens: Tokens, pos: nat, e: ExprView, min: nat, what: Expecting)
    requires
        readable(e),
        min <= strength(e),
        stands(tokens, pos, expr_tokens(e)),
        ends_before(token_at(tokens, pos + expr_tokens(e).len()), min),
        e is ArrayIndex,
    ensures
        reads(read_at(tokens, pos, min, what), e, expr_tokens(e).len()),
    decreases e, 1nat,
{
    match e {
        ExprView::ArrayIndex { lhs, index } => {
            let n = expr_tokens(e).len();
            let before = lhs_tokens(lhs.value);
            let inside = expr_tokens(index.value);
            lemma_lhs_shape(lhs.value);
            assert(expr_tokens(e) =~= ((before + seq![TokenView::LeftBracket]) + inside) + seq![
                TokenView::RightBracket,
            ]);
            lemma_stands_parts(
                tokens,
                pos,
                (before + seq![TokenView::LeftBracket]) + inside,
                seq![TokenView::RightBracket],
            );
            lemma_stands_parts(tokens, pos, before + seq![TokenView::LeftBracket], inside);
            lemma_stands_parts(tokens, pos, before, seq![TokenView::LeftBracket]);
            lemma_stands_first(tokens, pos + before.len(), seq![TokenView::LeftBracket]);
            lemma_stands_first(
                tokens,
                pos + before.len() + 1 + inside.len(),
                seq![TokenView::RightBracket],
            );
            let first = lemma_reads_lhs(tokens, pos, lhs.value);
            lemma_reads(tokens, pos + before.len() + 1, index.value, 0, Expecting::Expression);
            let read = read_at(tokens, pos + before.len() + 1, 0, Expecting::Expression)->Ok_0.0;
            lemma_index_step(tokens, pos + before.len(), first, read, inside.len());
            let node = indexed(tokens, first, read, pos + before.len() + 1 + inside.len());
            lemma_index_stop(tokens, pos + n, node);
            lemma_later_later(
                parse_index_tail(tokens, pos + n, node),
                inside.len() + 2,
                (before.len() - 1) as nat,
            );
            if before.len() >= 2 {
                let one: int = 1;
                assert(tokens[pos + one].value == before[one]);
            }
            assert(token_at(tokens, pos + 1) == Some(TokenView::LeftBracket));
            lemma_name_plain(tokens, pos, lhs_root(lhs.value), what);
            assert(read_at(tokens, pos, 11, what) == Ok::<_, SyntaxErrorView>(
                (lhs_as_expr(node), n),
            ));
            lemma_finish(tokens, pos, e, min, what);
        },
        _ => {},
    }
}

proof fn lemma_reads_set(tokens: Tokens, pos: nat, e: ExprView, min: nat, what: Expecting)
    requires
        readable(e),
        min <= strength(e),
        stands(tokens, pos, expr_tokens(e)),
        ends_before(token_at(tokens, pos + expr_tokens(e).len()), min),
        e is SetLhs,
    ensures
        reads(read_at(tokens, pos, min, what), e, expr_tokens(e).len()),
    decreases e, 1nat,
{
    match e {
        ExprView::SetLhs { lhs, expr } => {
            let target = lhs_tokens(lhs.value);
            let value = operand_tokens(expr.value, 2);
            assert(expr_tokens(e) =~= ((seq![TokenView::SetKw] + target) + seq![
                TokenView::Assign,
            ]) + value);
            lemma_stands_parts(
                tokens,
                pos,
                (seq![TokenView::SetKw] + target) + seq![TokenView::Assign],
                value,
            );
            lemma_stands_parts(
                tokens,
                pos,
                seq![TokenView::SetKw] + target,
                seq![TokenView::Assign],
            );
            lemma_stands_parts(tokens, pos, seq![TokenView::SetKw], target);
            lemma_stands_first(tokens, pos, expr_tokens(e));
            lemma_stands_first(tokens, pos + 1 + target.len(), seq![TokenView::Assign]);
            let node = lemma_reads_lhs(tokens, pos + 1, lhs.value);
            lemma_index_stop(tokens, pos + 1 + target.len(), node);
            lemma_lhs_start(tokens, pos + 1, lhs_root(lhs.value));
            assert(parse_lhs_spec(tokens, pos + 1) == Ok::<_, SyntaxErrorView>(
                (node, target.len()),
            ));
            lemma_reads_operand(
                tokens,
                pos + 1 + target.len() + 1,
                expr.value,
                2,
                Expecting::Statement,
            );
            let read = read_at(
                tokens,
                pos + 1 + target.len() + 1,
                2,
                Expecting::Statement,
            )->Ok_0.0;
            lemma_set(tokens, pos, what, node, target.len(), read, value.len());
            lemma_finish(tokens, pos, e, min, what);
        },
        _ => {},
    }
}

proof fn lemma_reads_if(tokens: Tokens, pos: nat, e: ExprView, min: nat, what: Expecting)
    requires
        readable(e),
        min <= strength(e),
        stands(tokens, pos, expr_tokens(e)),
        ends_before(token_at(tokens, pos + expr_tokens(e).len()), min),
        e is IfElse,
    ensures
        reads(read_at(tokens, pos, min, what), e, expr_tokens(e).len()),
    decreases e, 1nat,
{
    match e {
        ExprView::IfElse { cond, then, els } => {
            let a = operand_tokens(cond.value, 2);
            let b = operand_tokens(then.value, 2);
            let c = operand_tokens(els.value, 2);
            assert(expr_tokens(e) =~= ((((seq![TokenView::If] + a) + seq![TokenView::Then]) + b)
                + seq![TokenView::Else]) + c);
            lemma_stands_parts(
                tokens,
                pos,
                (((seq![TokenView::If] + a) + seq![TokenView::Then]) + b) + seq![TokenView::Else],
                c,
            );
            lemma_stands_parts(
                tokens,
                pos,
                ((seq![TokenView::If] + a) + seq![TokenView::Then]) + b,
                seq![TokenView::Else],
            );
            lemma_stands_parts(
                tokens,
                pos,
                (seq![TokenView::If] + a) + seq![TokenView::Then],
                b,
            );
            lemma_stands_parts(tokens, pos, seq![TokenView::If] + a, seq![TokenView::Then]);
            lemma_stands_parts(tokens, pos, seq![TokenView::If], a);
            lemma_stands_first(tokens, pos, expr_tokens(e));
            lemma_stands_first(tokens, pos + 1 + a.len(), seq![TokenView::Then]);
            lemma_stands_first(tokens, pos + 1 + a.len() + 1 + b.len(), seq![TokenView::Else]);
            lemma_reads_operand(tokens, pos + 1, cond.value, 2, Expecting::Statement);
            lemma_reads_operand(
                tokens,
                pos + 1 + a.len() + 1,
                then.value,
                2,
                Expecting::Statement,
            );
            lemma_reads_operand(
                tokens,
                pos + 1 + a.len() + 1 + b.len() + 1,
                els.value,
                2,
                Expecting::Statement,
            );
            let first = read_at(tokens, pos + 1, 2, Expecting::Statement)->Ok_0.0;
            let second = read_at(tokens, pos + 1 + a.len() + 1, 2, Expecting::Statement)->Ok_0.0;
            let third = read_at(
                tokens,
                pos + 1 + a.len() + 1 + b.len() + 1,
                2,
                Expecting::Statement,
            )->Ok_0.0;
            lemma_if(tokens, pos, what, first, a.len(), second, b.len(), third, c.len());
            lemma_finish(tokens, pos, e, min, what);
        },
        _ => {},
    }
}

proof fn lemma_reads_while(tokens: Tokens, pos: nat, e: ExprView, min: nat, what: Expecting)
    requires
        readable(e),
        min <= strength(e),
        stands(tokens, pos, expr_tokens(e)),
        ends_before(token_at(tokens, pos + expr_tokens(e).len()), min),
        e is While,
    ensures
        reads(read_at(tokens, pos, min, what), e, expr_tokens(e).len()),
    decreases e, 1nat,
{
    match e {
        ExprView::While { cond, expr } => {
            let a = operand_tokens(cond.value, 2);
            let b = operand_tokens(expr.value, 2);
            assert(expr_tokens(e) =~= ((seq![TokenView::While] + a) + seq![TokenView::Do]) + b);
            lemma_stands_parts(
                tokens,
                pos,
                (seq![TokenView::While] + a) + seq![TokenView::Do],
                b,
            );
            lemma_stands_parts(tokens, pos, seq![TokenView::While] + a, seq![TokenView::Do]);
            lemma_stands_parts(tokens, pos, seq![TokenView::While], a);
            lemma_stands_first(tokens, pos, expr_tokens(e));
            lemma_stands_first(tokens, pos + 1 + a.len(), seq![TokenView::Do]);
            lemma_reads_operand(tokens, pos + 1, cond.value, 2, Expecting::Statement);
            lemma_reads_operand(
                tokens,
                pos + 1 + a.len() + 1,
                expr.value,
                2,
                Expecting::Statement,
            );
            let first = read_at(tokens, pos + 1, 2, Expecting::Statement)->Ok_0.0;
            let second = read_at(tokens, pos + 1 + a.len() + 1, 2, Expecting::Statement)->Ok_0.0;
            lemma_while(tokens, pos, what, first, a.len(), second, b.len());
            lemma_finish(tokens, pos, e, min, what);
        },
        _ => {},
    }
}

proof fn lemma_reads_new(tokens: Tokens, pos: nat, e: ExprView, min: nat, what: Expecting)
    requires
        readable(e),
        min <= strength(e),
        stands(tokens, pos, expr_tokens(e)),
        ends_before(token_at(tokens, pos + expr_tokens(e).len()), min),
        e is NewArray,
    ensures
        reads(read_at(tokens, pos, min, what), e, expr_tokens(e).len()),
    decreases e, 1nat,
{
    match e {
        ExprView::NewArray { ty, size, init } => {
            let written = type_tokens(ty.value);
            let a = expr_tokens(size.value);
            let b = expr_tokens(init.value);
            let open = seq![TokenView::LeftBracket];
            let bar = seq![TokenView::Pipe];
            let close = seq![TokenView::RightBracket];
            assert(expr_tokens(e) =~= (((((seq![TokenView::New] + written) + open) + a) + bar)
                + b) + close);
            lemma_stands_parts(
                tokens,
                pos,
                ((((seq![TokenView::New] + written) + open) + a) + bar) + b,
                close,
            );
            lemma_stands_parts(
                tokens,
                pos,
                (((seq![TokenView::New] + written) + open) + a) + bar,
                b,
            );
            lemma_stands_parts(tokens, pos, ((seq![TokenView::New] + written) + open) + a, bar);
            lemma_stands_parts(tokens, pos, (seq![TokenView::New] + written) + open, a);
            lemma_stands_parts(tokens, pos, seq![TokenView::New] + written, open);
            lemma_stands_parts(tokens, pos, seq![TokenView::New], written);
            let t = written.len();
            lemma_stands_first(tokens, pos, expr_tokens(e));
            lemma_stands_first(tokens, pos + 1 + t, open);
            lemma_stands_first(tokens, pos + 1 + t + 1 + a.len(), bar);
            lemma_stands_first(tokens, pos + 1 + t + 1 + a.len() + 1 + b.len(), close);
            lemma_first_token(size.value);
            lemma_stands_first(tokens, pos + 1 + t + 1, a);
            lemma_reads_type(tokens, pos + 1, ty.value);
            lemma_reads(tokens, pos + 1 + t + 1, size.value, 0, Expecting::Expression);
            lemma_reads(
                tokens,
                pos + 1 + t + 1 + a.len() + 1,
                init.value,
                0,
                Expecting::Expression,
            );
            let read_ty = parse_type_spec(tokens, pos + 1)->Ok_0.0;
            let first = read_at(tokens, pos + 1 + t + 1, 0, Expecting::Expression)->Ok_0.0;
            let second = read_at(
                tokens,
                pos + 1 + t + 1 + a.len() + 1,
                0,
                Expecting::Expression,
            )->Ok_0.0;
            lemma_new(tokens, pos, what, read_ty, t, first, a.len(), second, b.len());
            lemma_finish(tokens, pos, e, min, what);
        },
        _ => {},
    }
}

/// The arguments of a call from the argument `from` on are read back
/// from their tokens.
proof fn lemma_reads_args(
    tokens: Tokens,
    pos: nat,
    args: Seq<SpannedView<ExprView>>,
    from: nat,
    what: Expecting,
)
    requires
        readable_all(args, args.len()),
        from < args.len(),
        stands(tokens, pos, args_tokens(args, from)),
    ensures
        parse_arg_list(tokens, pos, what) matches Ok(p) && p.1 == args_tokens(args, from).len()
            && p.0.len() == args.len() - from && forall|j: int|
            0 <= j < p.0.len() ==> bare((#[trigger] p.0[j]).value) == bare(args[from + j].value),
    decreases args, args.len() - from,
{
    let arg = args[from as int].value;
    let a = expr_tokens(arg);
    lemma_readable_at(args, args.len(), from as int);
    if from + 1 == args.len() {
        lemma_stands_parts(tokens, pos, a, seq![TokenView::RightParen]);
        lemma_stands_first(tokens, pos + a.len(), seq![TokenView::RightParen]);
        lemma_reads(tokens, pos, arg, 0, what);
        let first = read_at(tokens, pos, 0, what)->Ok_0.0;
        lemma_args_last(tokens, pos, what, first, a.len());
    } else {
        let rest = args_tokens(args, from + 1);
        assert(args_tokens(args, from) =~= (a + seq![TokenView::Comma]) + rest);
        lemma_stands_parts(tokens, pos, a + seq![TokenView::Comma], rest);
        lemma_stands_parts(tokens, pos, a, seq![TokenView::Comma]);
        lemma_stands_first(tokens, pos + a.len(), seq![TokenView::Comma]);
        lemma_reads(tokens, pos, arg, 0, what);
        lemma_reads_args(tokens, pos + a.len() + 1, args, from + 1, Expecting::Expression);
        let first = read_at(tokens, pos, 0, what)->Ok_0.0;
        let others = parse_arg_list(tokens, pos + a.len() + 1, Expecting::Expression)->Ok_0.0;
        lemma_args_more(tokens, pos, what, first, a.len(), others, rest.len());
        let all = seq![first] + others;
        assert forall|j: int| 0 <= j < all.len() implies bare((#[trigger] all[j]).value) == bare(
            args[from + j].value,
        ) by {
            if j > 0 {
                assert(all[j] == others[j - 1]);
            }
        }
    }
}

proof fn lemma_reads_call(tokens: Tokens, pos: nat, e: ExprView, min: nat, what: Expecting)
    requires
        readable(e),
        min <= strength(e),
        stands(tokens, pos, expr_tokens(e)),
        ends_before(token_at(tokens, pos + expr_tokens(e).len()), min),
        e is FunCall,
    ensures
        reads(read_at(tokens, pos, min, what), e, expr_tokens(e).len()),
    decreases e, 1nat,
{
    match e {
        ExprView::FunCall { id, args } => {
            let head = seq![TokenView::Id(id.value), TokenView::LeftParen];
            let zero: int = 0;
            let one: int = 1;
            if args.len() == 0 {
                assert(expr_tokens(e) =~= head + seq![TokenView::RightParen]);
                lemma_stands_parts(tokens, pos, head, seq![TokenView::RightParen]);
                lemma_stands_first(tokens, pos + 2, seq![TokenView::RightParen]);
                assert(tokens[pos + zero].value == head[zero]);
                assert(tokens[pos + one].value == head[one]);
                lemma_call_empty(tokens, pos, id.value, what);
                assert(bare_all(Seq::<SpannedView<ExprView>>::empty()) =~= bare_all(args));
            } else {
                let rest = args_tokens(args, 0);
                lemma_stands_parts(tokens, pos, head, rest);
                assert(tokens[pos + zero].value == head[zero]);
                assert(tokens[pos + one].value == head[one]);
                lemma_first_token(args[0].value);
                lemma_stands_first(tokens, pos + 2, rest);
                lemma_reads_args(tokens, pos + 2, args, 0, Expecting::ExpressionOrClose);
                let read = parse_arg_list(tokens, pos + 2, Expecting::ExpressionOrClose)->Ok_0.0;
                lemma_call(tokens, pos, id.value, what, read, rest.len());
                assert(bare_all(read) =~= bare_all(args));
            }
            lemma_finish(tokens, pos, e, min, what);
        },
        _ => {},
    }
}

/// The text form reads back, token by token. The tokens of an expression,
/// with brackets round each part that binds less tightly than its place
/// asks, are read by the grammar as the same expression, spans aside,
/// whatever ends it: a token that goes on with no expression, or the end
/// of the tokens.
pub proof fn lemma_expr_reads_back(tokens: Tokens, pos: nat, e: ExprView, what: Expecting)
    requires
        readable(e),
        stands(tokens, pos, expr_tokens(e)),
        ends_before(token_at(tokens, pos + expr_tokens(e).len()), 0),
    ensures
        reads(parse_expr_spec(tokens, pos, what), e, expr_tokens(e).len()),
{
    lemma_reads(tokens, pos, e, 0, what);
}

} // verus!

verus! {

/// A declaration with every span in it replaced by the empty span at the
/// start of the text.
pub open spec fn bare_decl(d: DeclView) -> DeclView {
    match d {
        DeclView::Var { id, ty, expr } => DeclView::Var {
            id: unplaced(id.value),
            ty: unplaced(ty.value),
            expr: unplaced(bare(expr.value)),
        },
        DeclView::Fun { id, params, ty, expr } => DeclView::Fun {
            id: unplaced(id.value),
            params: Seq::new(params.len(), |i: int| unplaced(params[i].value)),
            ty: unplaced(ty.value),
            expr: unplaced(bare(expr.value)),
        },
    }
}

/// A program with every span in it replaced by the empty span at the
/// start of the text.
pub open spec fn bare_program(p: Seq<SpannedView<DeclView>>) -> Seq<SpannedView<DeclView>> {
    Seq::new(p.len(), |i: int| unplaced(bare_decl(p[i].value)))
}

/// Whether every one of the types can be written in a source text.
pub open spec fn written_types(types: Seq<TypeView>) -> bool {
    forall|i: int| 0 <= i < types.len() ==> written_type(#[trigger] types[i])
}

/// Whether a declaration can be read back: the types that it and its
/// body write down can be written in a source text, and a function has
/// the type of a function.
pub open spec fn readable_decl(d: DeclView) -> bool {
    match d {
        DeclView::Var { id, ty, expr } => written_type(ty.value) && readable(expr.value),
        DeclView::Fun { id, params, ty, expr } => ty.value is Fun && written_types(
            ty.value->Fun_0,
        ) && written_type(*ty.value->Fun_1) && readable(expr.value),
    }
}

/// The tokens of a parameter list from the name `from` on, with commas
/// between the names, up to and with the closing bracket.
pub open spec fn params_tokens(params: Seq<SpannedView<Seq<char>>>, from: nat) -> Seq<TokenView>
    decreases params.len() - from,
{
    if from >= params.len() {
        seq![TokenView::RightParen]
    } else if from + 1 == params.len() {
        seq![TokenView::Id(params[from as int].value), TokenView::RightParen]
    } else {
        seq![TokenView::Id(params[from as int].value), TokenView::Comma] + params_tokens(
            params,
            from + 1,
        )
    }
}

/// The tokens of a list of types from the type `from` on, with commas
/// between the types, up to and with the closing bracket.
pub open spec fn types_tokens(types: Seq<TypeView>, from: nat) -> Seq<TokenView>
    decreases types.len() - from,
{
    if from >= types.len() {
        seq![TokenView::RightParen]
    } else if from + 1 == types.len() {
        type_tokens(types[from as int]) + seq![TokenView::RightParen]
    } else {
        type_tokens(types[from as int]) + seq![TokenView::Comma] + types_tokens(types, from + 1)
    }
}

/// The tokens of a declaration behind its `let`.
pub open spec fn decl_tokens(d: DeclView) -> Seq<TokenView> {
    match d {
        DeclView::Var { id, ty, expr } => seq![TokenView::Id(id.value), TokenView::Colon]
            + type_tokens(ty.value) + seq![TokenView::Assign] + expr_tokens(expr.value),
        DeclView::Fun { id, params, ty, expr } => seq![
            TokenView::Id(id.value),
            TokenView::LeftParen,
        ] + params_tokens(params, 0) + seq![TokenView::Colon, TokenView::LeftParen] + types_tokens(
            ty.value->Fun_0,
            0,
        ) + seq![TokenView::Arrow] + type_tokens(*ty.value->Fun_1) + seq![TokenView::Assign]
            + expr_tokens(expr.value),
    }
}

/// The tokens of the text form of a program from the declaration `from`
/// on: each declaration behind a `let`.
pub open spec fn program_tokens(p: Seq<SpannedView<DeclView>>, from: nat) -> Seq<TokenView>
    decreases p.len() - from,
{
    if from >= p.len() {
        Seq::empty()
    } else {
        seq![TokenView::Let] + decl_tokens(p[from as int].value) + program_tokens(p, from + 1)
    }
}

proof fn lemma_params_end(tokens: Tokens, pos: nat)
    requires
        token_at(tokens, pos) == Some(TokenView::RightParen),
    ensures
        parse_params_spec(tokens, pos, true) == Ok::<_, SyntaxErrorView>(
            (Seq::<SpannedView<Seq<char>>>::empty(), 1nat),
        ),
{
    reveal_with_fuel(parse_params_spec, 1);
}

proof fn lemma_params_last(tokens: Tokens, pos: nat, name: Seq<char>, first: bool)
    requires
        token_at(tokens, pos) == Some(TokenView::Id(name)),
        token_at(tokens, pos + 1) == Some(TokenView::RightParen),
    ensures
        parse_params_spec(tokens, pos, first) == Ok::<_, SyntaxErrorView>(
            (seq![SpannedView { value: name, span: tokens[pos as int].span }], 2nat),
        ),
{
    reveal_with_fuel(parse_params_spec, 1);
}

proof fn lemma_params_more(
    tokens: Tokens,
    pos: nat,
    name: Seq<char>,
    first: bool,
    rest: Seq<SpannedView<Seq<char>>>,
    n: nat,
)
    requires
        token_at(tokens, pos) == Some(TokenView::Id(name)),
        token_at(tokens, pos + 1) == Some(TokenView::Comma),
        parse_params_spec(tokens, pos + 2, false) == Ok::<_, SyntaxErrorView>((rest, n)),
    ensures
        parse_params_spec(tokens, pos, first) == Ok::<_, SyntaxErrorView>(
            (seq![SpannedView { value: name, span: tokens[pos as int].span }] + rest, n + 2),
        ),
{
    reveal_with_fuel(parse_params_spec, 2);
}

proof fn lemma_reads_params(
    tokens: Tokens,
    pos: nat,
    params: Seq<SpannedView<Seq<char>>>,
    from: nat,
    first: bool,
)
    requires
        from < params.len(),
        stands(tokens, pos, params_tokens(params, from)),
    ensures
        parse_params_spec(tokens, pos, first) matches Ok(q) && q.1 == params_tokens(
            params,
            from,
        ).len() && q.0.len() == params.len() - from && forall|j: int|
            0 <= j < q.0.len() ==> (#[trigger] q.0[j]).value == params[from + j].value,
    decreases params.len() - from,
{
    let name = params[from as int].value;
    let zero: int = 0;
    let one: int = 1;
    assert(tokens[pos + zero].value == params_tokens(params, from)[zero]);
    assert(tokens[pos + one].value == params_tokens(params, from)[one]);
    if from + 1 == params.len() {
        lemma_params_last(tokens, pos, name, first);
    } else {
        let head = seq![TokenView::Id(name), TokenView::Comma];
        lemma_stands_parts(tokens, pos, head, params_tokens(params, from + 1));
        lemma_reads_params(tokens, pos + 2, params, from + 1, false);
        let rest = parse_params_spec(tokens, pos + 2, false)->Ok_0;
        lemma_params_more(tokens, pos, name, first, rest.0, rest.1);
        let all = seq![SpannedView { value: name, span: tokens[pos as int].span }] + rest.0;
        assert forall|j: int| 0 <= j < all.len() implies (#[trigger] all[j]).value == params[from
            + j].value by {
            if j > 0 {
                assert(all[j] == rest.0[j - 1]);
            }
        }
    }
}

proof fn lemma_types_end(tokens: Tokens, pos: nat)
    requires
        token_at(tokens, pos) == Some(TokenView::RightParen),
    ensures
        parse_types_spec(tokens, pos, true) == Ok::<_, SyntaxErrorView>(
            (Seq::<TypeView>::empty(), 1nat),
        ),
{
    reveal_with_fuel(parse_types_spec, 1);
}

proof fn lemma_types_last(
    tokens: Tokens,
    pos: nat,
    first: bool,
    ty: SpannedView<TypeView>,
    n: nat,
)
    requires
        parse_type_spec(tokens, pos) == Ok::<_, SyntaxErrorView>((ty, n)),
        token_at(tokens, pos + n) == Some(TokenView::RightParen),
    ensures
        parse_types_spec(tokens, pos, first) == Ok::<_, SyntaxErrorView>((seq![ty.value], n + 1)),
{
    reveal_with_fuel(parse_types_spec, 1);
    reveal(parse_type_spec);
}

proof fn lemma_types_more(
    tokens: Tokens,
    pos: nat,
    first: bool,
    ty: SpannedView<TypeView>,
    n: nat,
    rest: Seq<TypeView>,
    m: nat,
)
    requires
        parse_type_spec(tokens, pos) == Ok::<_, SyntaxErrorView>((ty, n)),
        token_at(tokens, pos + n) == Some(TokenView::Comma),
        parse_types_spec(tokens, pos + n + 1, false) == Ok::<_, SyntaxErrorView>((rest, m)),
    ensures
        parse_types_spec(tokens, pos, first) == Ok::<_, SyntaxErrorView>(
            (seq![ty.value] + rest, n + 1 + m),
        ),
{
    reveal_with_fuel(parse_types_spec, 2);
    reveal(parse_type_spec);
}

proof fn lemma_reads_types(tokens: Tokens, pos: nat, types: Seq<TypeView>, from: nat, first: bool)
    requires
        written_types(types),
        from < types.len(),
        stands(tokens, pos, types_tokens(types, from)),
    ensures
        parse_types_spec(tokens, pos, first) matches Ok(q) && q.1 == types_tokens(types, from).len()
            && q.0 == types.subrange(from as int, types.len() as int),
    decreases types.len() - from,
{
    let t = types[from as int];
    let a = type_tokens(t);
    if from + 1 == types.len() {
        lemma_stands_parts(tokens, pos, a, seq![TokenView::RightParen]);
        lemma_stands_first(tokens, pos + a.len(), seq![TokenView::RightParen]);
        lemma_reads_type(tokens, pos, t);
        let ty = parse_type_spec(tokens, pos)->Ok_0.0;
        lemma_types_last(tokens, pos, first, ty, a.len());
        assert(seq![ty.value] =~= types.subrange(from as int, types.len() as int));
    } else {
        let rest = types_tokens(types, from + 1);
        assert(types_tokens(types, from) =~= (a + seq![TokenView::Comma]) + rest);
        lemma_stands_parts(tokens, pos, a + seq![TokenView::Comma], rest);
        lemma_stands_parts(tokens, pos, a, seq![TokenView::Comma]);
        lemma_stands_first(tokens, pos + a.len(), seq![TokenView::Comma]);
        lemma_reads_type(tokens, pos, t);
        lemma_reads_types(tokens, pos + a.len() + 1, types, from + 1, false);
        let ty = parse_type_spec(tokens, pos)->Ok_0.0;
        let others = parse_types_spec(tokens, pos + a.len() + 1, false)->Ok_0.0;
        lemma_types_more(tokens, pos, first, ty, a.len(), others, rest.len());
        assert(seq![ty.value] + others =~= types.subrange(from as int, types.len() as int));
    }
}

proof fn lemma_var_decl(
    tokens: Tokens,
    pos: nat,
    id: SpannedView<Seq<char>>,
    ty: SpannedView<TypeView>,
    t: nat,
    body: SpannedView<ExprView>,
    b: nat,
)
    requires
        token_at(tokens, pos) == Some(TokenView::Id(id.value)),
        id.span == tokens[pos as int].span,
        token_at(tokens, pos + 1) == Some(TokenView::Colon),
        parse_type_spec(tokens, pos + 2) == Ok::<_, SyntaxErrorView>((ty, t)),
        token_at(tokens, pos + 2 + t) == Some(TokenView::Assign),
        parse_expr_spec(tokens, pos + 2 + t + 1, Expecting::Expression) == Ok::<_, SyntaxErrorView>(
            (body, b),
        ),
    ensures
        parse_decl_spec(tokens, pos) matches Ok(d) && d.1 == t + b + 3 && d.0.value == (
        DeclView::Var { id, ty, expr: body }),
{
    reveal(parse_decl_spec);
    reveal(parse_var_decl_spec);
}

proof fn lemma_signature(
    tokens: Tokens,
    pos: nat,
    types: Seq<TypeView>,
    q: nat,
    ret: SpannedView<TypeView>,
    r: nat,
)
    requires
        token_at(tokens, pos) == Some(TokenView::Colon),
        token_at(tokens, pos + 1) == Some(TokenView::LeftParen),
        parse_types_spec(tokens, pos + 2, true) == Ok::<_, SyntaxErrorView>((types, q)),
        token_at(tokens, pos + 2 + q) == Some(TokenView::Arrow),
        parse_type_spec(tokens, pos + 2 + q + 1) == Ok::<_, SyntaxErrorView>((ret, r)),
    ensures
        parse_signature_spec(tokens, pos) matches Ok(s) && s.1 == q + r + 3 && s.0.value
            == TypeView::Fun(types, Box::new(ret.value)),
{
    reveal(parse_signature_spec);
}

proof fn lemma_fun_decl(
    tokens: Tokens,
    pos: nat,
    id: SpannedView<Seq<char>>,
    params: Seq<SpannedView<Seq<char>>>,
    p: nat,
    ty: SpannedView<TypeView>,
    s: nat,
    body: SpannedView<ExprView>,
    b: nat,
)
    requires
        token_at(tokens, pos) == Some(TokenView::Id(id.value)),
        id.span == tokens[pos as int].span,
        token_at(tokens, pos + 1) == Some(TokenView::LeftParen),
        parse_params_spec(tokens, pos + 2, true) == Ok::<_, SyntaxErrorView>((params, p)),
        parse_signature_spec(tokens, pos + 2 + p) == Ok::<_, SyntaxErrorView>((ty, s)),
        token_at(tokens, pos + 2 + p + s) == Some(TokenView::Assign),
        parse_expr_spec(
            tokens,
            pos + 2 + p + s + 1,
            Expecting::Expression,
        ) == Ok::<_, SyntaxErrorView>(
            (body, b),
        ),
    ensures
        parse_decl_spec(tokens, pos) matches Ok(d) && d.1 == p + s + b + 3 && d.0.value == (
        DeclView::Fun { id, params, ty, expr: body }),
{
    reveal(parse_decl_spec);
    reveal(parse_fun_decl_spec);
}

proof fn lemma_program_step(
    tokens: Tokens,
    pos: nat,
    decl: SpannedView<DeclView>,
    n: nat,
    rest: Seq<SpannedView<DeclView>>,
)
    requires
        token_at(tokens, pos) == Some(TokenView::Let),
        parse_decl_spec(tokens, pos + 1) == Ok::<_, SyntaxErrorView>((decl, n)),
        parse_program_spec(tokens, pos + 1 + n) == Ok::<_, SyntaxErrorView>(rest),
    ensures
        parse_program_spec(tokens, pos) == Ok::<_, SyntaxErrorView>(
            seq![decl] + rest,
        ),
{
    reveal_with_fuel(parse_program_spec, 2);
}

/// Whether a declaration parsed at `pos` is the declaration `d`, spans
/// aside, and takes the tokens of `d`.
pub open spec fn reads_decl(r: Parsed<SpannedView<DeclView>>, d: DeclView) -> bool {
    r matches Ok(p) && p.1 == decl_tokens(d).len() && bare_decl(p.0.value) == bare_decl(d)
}

proof fn lemma_reads_var(tokens: Tokens, pos: nat, d: DeclView)
    requires
        readable_decl(d),
        d is Var,
        stands(tokens, pos, decl_tokens(d)),
        ends_before(token_at(tokens, pos + decl_tokens(d).len()), 0),
    ensures
        reads_decl(parse_decl_spec(tokens, pos), d),
{
    match d {
        DeclView::Var { id, ty, expr } => {
            let head = seq![TokenView::Id(id.value), TokenView::Colon];
            let written = type_tokens(ty.value);
            let body = expr_tokens(expr.value);
            assert(decl_tokens(d) =~= ((head + written) + seq![TokenView::Assign]) + body);
            lemma_stands_parts(tokens, pos, (head + written) + seq![TokenView::Assign], body);
            lemma_stands_parts(tokens, pos, head + written, seq![TokenView::Assign]);
            lemma_stands_parts(tokens, pos, head, written);
            lemma_stands_first(tokens, pos + 2 + written.len(), seq![TokenView::Assign]);
            let zero: int = 0;
            let one: int = 1;
            assert(tokens[pos + zero].value == head[zero]);
            assert(tokens[pos + one].value == head[one]);
            lemma_reads_type(tokens, pos + 2, ty.value);
            lemma_reads(
                tokens,
                pos + 2 + written.len() + 1,
                expr.value,
                0,
                Expecting::Expression,
            );
            let read_ty = parse_type_spec(tokens, pos + 2)->Ok_0.0;
            let read = read_at(
                tokens,
                pos + 2 + written.len() + 1,
                0,
                Expecting::Expression,
            )->Ok_0.0;
            lemma_var_decl(
                tokens,
                pos,
                SpannedView { value: id.value, span: tokens[pos as int].span },
                read_ty,
                written.len(),
                read,
                body.len(),
            );
        },
        _ => {},
    }
}

proof fn lemma_reads_fun(tokens: Tokens, pos: nat, d: DeclView)
    requires
        readable_decl(d),
        d is Fun,
        stands(tokens, pos, decl_tokens(d)),
        ends_before(token_at(tokens, pos + decl_tokens(d).len()), 0),
    ensures
        reads_decl(parse_decl_spec(tokens, pos), d),
{
    match d {
        DeclView::Fun { id, params, ty, expr } => {
            let types = ty.value->Fun_0;
            let ret = *ty.value->Fun_1;
            let head = seq![TokenView::Id(id.value), TokenView::LeftParen];
            let names = params_tokens(params, 0);
            let mid = seq![TokenView::Colon, TokenView::LeftParen];
            let listed = types_tokens(types, 0);
            let arrow = seq![TokenView::Arrow];
            let result = type_tokens(ret);
            let assign = seq![TokenView::Assign];
            let body = expr_tokens(expr.value);
            assert(decl_tokens(d) =~= ((((((head + names) + mid) + listed) + arrow) + result)
                + assign) + body);
            lemma_stands_parts(
                tokens,
                pos,
                (((((head + names) + mid) + listed) + arrow) + result) + assign,
                body,
            );
            lemma_stands_parts(
                tokens,
                pos,
                ((((head + names) + mid) + listed) + arrow) + result,
                assign,
            );
            lemma_stands_parts(tokens, pos, (((head + names) + mid) + listed) + arrow, result);
            lemma_stands_parts(tokens, pos, ((head + names) + mid) + listed, arrow);
            lemma_stands_parts(tokens, pos, (head + names) + mid, listed);
            lemma_stands_parts(tokens, pos, head + names, mid);
            lemma_stands_parts(tokens, pos, head, names);
            let zero: int = 0;
            let one: int = 1;
            assert(tokens[pos + zero].value == head[zero]);
            assert(tokens[pos + one].value == head[one]);
            let p = names.len();
            let q = listed.len();
            let r = result.len();
            let at_mid = pos + 2 + p;
            assert(tokens[at_mid + zero].value == mid[zero]);
            assert(tokens[at_mid + one].value == mid[one]);
            lemma_stands_first(tokens, at_mid + 2 + q, arrow);
            lemma_stands_first(tokens, at_mid + 2 + q + 1 + r, assign);
            lemma_stands_first(tokens, pos + 2, names);
            lemma_stands_first(tokens, at_mid + 2, listed);
            if params.len() == 0 {
                lemma_params_end(tokens, pos + 2);
            } else {
                lemma_reads_params(tokens, pos + 2, params, 0, true);
            }
            if types.len() == 0 {
                lemma_types_end(tokens, at_mid + 2);
                assert(Seq::<TypeView>::empty() =~= types);
            } else {
                lemma_reads_types(tokens, at_mid + 2, types, 0, true);
                assert(types.subrange(0, types.len() as int) =~= types);
            }
            lemma_reads_type(tokens, at_mid + 2 + q + 1, ret);
            let read_ret = parse_type_spec(tokens, at_mid + 2 + q + 1)->Ok_0.0;
            lemma_signature(tokens, at_mid, types, q, read_ret, r);
            lemma_reads(
                tokens,
                at_mid + 2 + q + 1 + r + 1,
                expr.value,
                0,
                Expecting::Expression,
            );
            let read_params = parse_params_spec(tokens, pos + 2, true)->Ok_0.0;
            let read_ty = parse_signature_spec(tokens, at_mid)->Ok_0.0;
            let read = read_at(
                tokens,
                at_mid + 2 + q + 1 + r + 1,
                0,
                Expecting::Expression,
            )->Ok_0.0;
            lemma_fun_decl(
                tokens,
                pos,
                SpannedView { value: id.value, span: tokens[pos as int].span },
                read_params,
                p,
                read_ty,
                q + r + 3,
                read,
                body.len(),
            );
            assert(Seq::new(read_params.len(), |i: int| unplaced(read_params[i].value))
                =~= Seq::new(params.len(), |i: int| unplaced(params[i].value)));
            assert(ty.value == TypeView::Fun(types, Box::new(ret)));
        },
        _ => {},
    }
}

/// Whether every declaration of a program can be read back.
pub open spec fn readable_program(p: Seq<SpannedView<DeclView>>) -> bool {
    forall|i: int| 0 <= i < p.len() ==> readable_decl((#[trigger] p[i]).value)
}

proof fn lemma_reads_program(tokens: Tokens, pos: nat, p: Seq<SpannedView<DeclView>>, from: nat)
    requires
        readable_program(p),
        from <= p.len(),
        stands(tokens, pos, program_tokens(p, from)),
        pos + program_tokens(p, from).len() == tokens.len(),
    ensures
        parse_program_spec(tokens, pos) matches Ok(q) && q.len() == p.len() - from && forall|
            j: int,
        |
            0 <= j < q.len() ==> bare_decl((#[trigger] q[j]).value) == bare_decl(
                p[from + j].value,
            ),
    decreases p.len() - from,
{
    if from >= p.len() {
        reveal_with_fuel(parse_program_spec, 1);
    } else {
        let d = p[from as int].value;
        let own = decl_tokens(d);
        let rest = program_tokens(p, from + 1);
        assert(program_tokens(p, from) =~= (seq![TokenView::Let] + own) + rest);
        lemma_stands_parts(tokens, pos, seq![TokenView::Let] + own, rest);
        lemma_stands_parts(tokens, pos, seq![TokenView::Let], own);
        lemma_stands_first(tokens, pos, program_tokens(p, from));
        if from + 1 < p.len() {
            lemma_stands_first(tokens, pos + 1 + own.len(), rest);
        }
        if d is Var {
            lemma_reads_var(tokens, pos + 1, d);
        } else {
            lemma_reads_fun(tokens, pos + 1, d);
        }
        lemma_reads_program(tokens, pos + 1 + own.len(), p, from + 1);
        let decl = parse_decl_spec(tokens, pos + 1)->Ok_0.0;
        let others = parse_program_spec(tokens, pos + 1 + own.len())->Ok_0;
        lemma_program_step(tokens, pos, decl, own.len(), others);
        let all = seq![decl] + others;
        assert forall|j: int| 0 <= j < all.len() implies bare_decl((#[trigger] all[j]).value)
            == bare_decl(p[from + j].value) by {
            if j > 0 {
                assert(all[j] == others[j - 1]);
            }
        }
    }
}

/// The text form reads back, token by token. Take a program whose
/// declarations can be read back, and tokens that are those of its text
/// form: each declaration behind a `let`, each part of an expression in
/// brackets where it binds less tightly than its place asks. The grammar
/// reads these tokens as the same program, spans aside.
pub proof fn lemma_program_reads_back(tokens: Tokens, p: Seq<SpannedView<DeclView>>)
    requires
        readable_program(p),
        tokens.len() == program_tokens(p, 0).len(),
        stands(tokens, 0, program_tokens(p, 0)),
    ensures
        parse_tokens(tokens) matches Ok(q) && bare_program(q) == bare_program(p),
{
    lemma_reads_program(tokens, 0, p, 0);
    let q = parse_tokens(tokens)->Ok_0;
    assert(bare_program(q) =~= bare_program(p));
}

} // verus!
