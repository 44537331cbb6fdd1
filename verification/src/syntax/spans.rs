use crate::syntax::ast::{DeclView, ExprView, LhsView, Span, SpannedView, TypeView};
use crate::syntax::grammar::{
    base_type, binary_node, binary_op, lhs_as_expr, literal, name_lhs, parse_arg_list,
    parse_array_suffix, parse_branches_spec, parse_chain_spec, parse_decl_spec, parse_dims_spec,
    parse_expr_spec, parse_fun_decl_spec, parse_if_spec, parse_index_tail, parse_item_spec,
    parse_left_tail, parse_let_spec, parse_level_spec, parse_lhs_spec, parse_name_spec,
    parse_new_spec, parse_nonchain_spec, parse_paren_spec, parse_params_spec, parse_primary_spec,
    parse_program_spec, parse_set_spec, parse_signature_spec, parse_tokens, parse_type_spec,
    parse_types_spec, parse_unary_spec, parse_var_decl_spec, parse_while_spec, remaining,
    level_rank, token_at, Expecting, Parsed, Tokens,
};
use crate::syntax::lexer::{spans_in_order, TokenView};
use vstd::prelude::*;

verus! {

/// Whether one span lies within another.
pub open spec fn within(inner: Span, outer: Span) -> bool {
    outer.start <= inner.start && inner.end <= outer.end
}

/// Whether the span of every part of an l-value lies within the span of
/// the part that it belongs to, and no span ends in front of its start.
pub open spec fn lhs_nested(l: SpannedView<LhsView>) -> bool
    decreases l,
{
    l.span.start <= l.span.end && match l.value {
        LhsView::Var { id } => within(id.span, l.span),
        LhsView::Index { lhs, index } => within(lhs.span, l.span) && within(index.span, l.span)
            && lhs_nested(*lhs) && nested(*index),
    }
}

/// Whether the span of every node of an expression takes in the spans of
/// its children, and no span ends in front of its start.
pub open spec fn nested(e: SpannedView<ExprView>) -> bool
    decreases e,
{
    e.span.start <= e.span.end && match e.value {
        ExprView::Chain { lhs, rhs } => within(lhs.span, e.span) && within(rhs.span, e.span)
            && nested(*lhs) && nested(*rhs),
        ExprView::Let { id, ty, expr } => within(id.span, e.span) && within(ty.span, e.span)
            && within(expr.span, e.span) && nested(*expr),
        ExprView::SetLhs { lhs, expr } => within(lhs.span, e.span) && within(expr.span, e.span)
            && lhs_nested(lhs) && nested(*expr),
        ExprView::BinOp { lhs, op, rhs } => within(lhs.span, e.span) && within(rhs.span, e.span)
            && nested(*lhs) && nested(*rhs),
        ExprView::Not { expr } => within(expr.span, e.span) && nested(*expr),
        ExprView::While { cond, expr } => within(cond.span, e.span) && within(expr.span, e.span)
            && nested(*cond) && nested(*expr),
        ExprView::IfElse { cond, then, els } => within(cond.span, e.span) && within(
            then.span,
            e.span,
        ) && within(els.span, e.span) && nested(*cond) && nested(*then) && nested(*els),
        ExprView::FunCall { id, args } => within(id.span, e.span) && forall|i: int|
            0 <= i < args.len() ==> within((#[trigger] args[i]).span, e.span) && nested(args[i]),
        ExprView::NewArray { ty, size, init } => within(ty.span, e.span) && within(
            size.span,
            e.span,
        ) && within(init.span, e.span) && nested(*size) && nested(*init),
        ExprView::ArrayIndex { lhs, index } => within(lhs.span, e.span) && within(
            index.span,
            e.span,
        ) && lhs_nested(lhs) && nested(*index),
        ExprView::Id(id) => within(id.span, e.span),
        _ => true,
    }
}

/// Whether a span runs from the start of the token at `lo` to the end of
/// the token at `hi`.
pub open spec fn fits(tokens: Tokens, span: Span, lo: int, hi: int) -> bool {
    0 <= lo <= hi < tokens.len() && span.start == tokens[lo].span.start && span.end
        == tokens[hi].span.end
}

/// Whether what a parsing step at `pos` gives is an expression whose span
/// is that of the tokens it took, with the spans of its parts nested.
pub open spec fn good(tokens: Tokens, pos: nat, r: Parsed<SpannedView<ExprView>>) -> bool {
    r matches Ok(p) ==> p.1 >= 1 && fits(tokens, p.0.span, pos as int, pos + p.1 - 1) && nested(
        p.0,
    )
}

/// A span that runs over tokens in order does not end in front of its
/// start, and lies within every span that runs over more tokens.
pub proof fn lemma_fits_within(
    tokens: Tokens,
    inner: Span,
    lo: int,
    hi: int,
    outer: Span,
    first: int,
    last: int,
)
    requires
        spans_in_order(tokens),
        fits(tokens, inner, lo, hi),
        fits(tokens, outer, first, last),
        first <= lo,
        hi <= last,
    ensures
        within(inner, outer),
        inner.start <= inner.end,
{
    reveal(spans_in_order);
    assert(tokens[first].span.start <= tokens[lo].span.start) by {
        if first < lo {
            assert(tokens[first].span.end <= tokens[lo].span.start);
            assert(tokens[first].span.start <= tokens[first].span.end);
        }
    }
    assert(tokens[hi].span.end <= tokens[last].span.end) by {
        if hi < last {
            assert(tokens[hi].span.end <= tokens[last].span.start);
            assert(tokens[last].span.start <= tokens[last].span.end);
        }
    }
    assert(tokens[lo].span.start <= tokens[hi].span.end) by {
        assert(tokens[lo].span.start <= tokens[lo].span.end);
        if lo < hi {
            assert(tokens[lo].span.end <= tokens[hi].span.start);
            assert(tokens[hi].span.start <= tokens[hi].span.end);
        }
    }
}

/// An expression whose parts are nested stays so when its own span is
/// widened.
pub proof fn lemma_nested_widen(e: SpannedView<ExprView>, span: Span)
    requires
        nested(e),
        within(e.span, span),
    ensures
        nested(SpannedView { value: e.value, span }),
{
    let wide = SpannedView { value: e.value, span };
    match e.value {
        ExprView::FunCall { id, args } => {
            assert forall|i: int| 0 <= i < args.len() implies within(
                (#[trigger] args[i]).span,
                span,
            ) && nested(args[i]) by {
                assert(within(args[i].span, e.span));
            }
        },
        _ => {},
    }
}

/// The array brackets behind a type are all there, two tokens a pair.
pub proof fn lemma_array_suffix_bounds(tokens: Tokens, pos: nat, ty: TypeView)
    requires
        pos <= tokens.len(),
    ensures
        pos + parse_array_suffix(tokens, pos, ty).1 <= tokens.len(),
    decreases remaining(tokens, pos),
{
    if token_at(tokens, pos) == Some(TokenView::LeftBracket) && token_at(tokens, pos + 1) == Some(
        TokenView::RightBracket,
    ) {
        lemma_array_suffix_bounds(tokens, pos + 2, TypeView::Array(Box::new(ty)));
    }
}

/// The span of a type is that of the tokens that write it.
pub proof fn lemma_type_fits(tokens: Tokens, pos: nat)
    ensures
        parse_type_spec(tokens, pos) matches Ok(p) ==> p.1 >= 1 && fits(
            tokens,
            p.0.span,
            pos as int,
            pos + p.1 - 1,
        ),
{
    reveal(parse_type_spec);
    match token_at(tokens, pos) {
        Some(t) => {
            match base_type(t) {
                Some(base) => {
                    lemma_array_suffix_bounds(tokens, pos + 1, base);
                },
                None => {},
            }
        },
        None => {},
    }
}

} // verus!

verus! {

/// Whether a span lies between the start of the token at `lo` and the end
/// of the token at `hi`.
pub open spec fn between(tokens: Tokens, span: Span, lo: int, hi: int) -> bool {
    0 <= lo <= hi < tokens.len() && tokens[lo].span.start <= span.start && span.end
        <= tokens[hi].span.end
}

proof fn lemma_token_order(tokens: Tokens, a: int, b: int)
    requires
        spans_in_order(tokens),
        0 <= a <= b < tokens.len(),
    ensures
        tokens[a].span.start <= tokens[b].span.start,
        tokens[a].span.end <= tokens[b].span.end,
        tokens[a].span.start <= tokens[b].span.end,
{
    reveal(spans_in_order);
    assert(tokens[a].span.start <= tokens[a].span.end);
    assert(tokens[b].span.start <= tokens[b].span.end);
    if a < b {
        assert(tokens[a].span.end <= tokens[b].span.start);
    }
}

proof fn lemma_between_within(
    tokens: Tokens,
    inner: Span,
    lo: int,
    hi: int,
    outer: Span,
    first: int,
    last: int,
)
    requires
        spans_in_order(tokens),
        between(tokens, inner, (lo) as int, (hi) as int),
        fits(tokens, outer, (first) as int, (last) as int),
        first <= lo,
        hi <= last,
    ensures
        within(inner, outer),
{
    lemma_token_order(tokens, (first) as int, (lo) as int);
    lemma_token_order(tokens, (hi) as int, (last) as int);
}

proof fn lemma_between_widen(tokens: Tokens, span: Span, lo: int, hi: int, first: int, last: int)
    requires
        spans_in_order(tokens),
        between(tokens, span, (lo) as int, (hi) as int),
        0 <= first <= lo,
        hi <= last < tokens.len(),
    ensures
        between(tokens, span, (first) as int, (last) as int),
{
    lemma_token_order(tokens, (first) as int, (lo) as int);
    lemma_token_order(tokens, (hi) as int, (last) as int);
}

proof fn lemma_fits_between(tokens: Tokens, span: Span, lo: int, hi: int)
    requires
        spans_in_order(tokens),
        fits(tokens, span, (lo) as int, (hi) as int),
    ensures
        between(tokens, span, (lo) as int, (hi) as int),
        span.start <= span.end,
{
    lemma_token_order(tokens, (lo) as int, (hi) as int);
}

proof fn lemma_lhs_as_expr_nested(l: SpannedView<LhsView>)
    requires
        lhs_nested(l),
    ensures
        nested(lhs_as_expr(l)),
        lhs_as_expr(l).span == l.span,
{
}

/// Whether what a parsing step at `pos` gives is an l-value whose span is
/// that of the tokens it took, with the spans of its parts nested.
pub open spec fn good_lhs(tokens: Tokens, pos: nat, r: Parsed<SpannedView<LhsView>>) -> bool {
    r matches Ok(p) ==> p.1 >= 1 && fits(tokens, p.0.span, pos as int, (pos + p.1 - 1) as int)
        && lhs_nested(p.0)
}

proof fn lemma_index_tail(tokens: Tokens, pos: nat, lhs: SpannedView<LhsView>, lo: nat)
    requires
        spans_in_order(tokens),
        lo < pos,
        fits(tokens, lhs.span, lo as int, (pos - 1) as int),
        lhs_nested(lhs),
    ensures
        parse_index_tail(tokens, pos, lhs) matches Ok(p) ==> fits(
            tokens,
            p.0.span,
            lo as int,
            (pos + p.1 - 1) as int,) && lhs_nested(p.0),
    decreases remaining(tokens, pos), 5nat,
{
    reveal_with_fuel(parse_index_tail, 1);
    reveal_with_fuel(parse_expr_spec, 1);
    if token_at(tokens, pos) == Some(TokenView::LeftBracket) {
        lemma_expr(tokens, pos + 1, Expecting::Expression);
        match parse_expr_spec(tokens, pos + 1, Expecting::Expression) {
            Ok((index, used)) => {
                let close = pos + 1 + used;
                if token_at(tokens, close) == Some(TokenView::RightBracket) {
                    let indexed = SpannedView {
                        value: LhsView::Index { lhs: Box::new(lhs), index: Box::new(index) },
                        span: Span { start: lhs.span.start, end: tokens[close as int].span.end },
                    };
                    assert(fits(tokens, indexed.span, lo as int, close as int));
                    lemma_fits_within(
                        tokens,
                        lhs.span,
                        lo as int,
                        (pos - 1) as int,
                        indexed.span,
                        lo as int,
                        close as int,);
                    lemma_fits_within(
                        tokens,
                        index.span,
                        (pos + 1) as int,
                        (pos + used) as int,
                        indexed.span,
                        lo as int,
                        close as int,);
                    lemma_fits_between(tokens, indexed.span, lo as int, close as int);
                    assert(lhs_nested(indexed));
                    lemma_index_tail(tokens, close + 1, indexed, lo);
                }
            },
            Err(_) => {},
        }
    }
}

proof fn lemma_name_lhs(tokens: Tokens, pos: nat, name: Seq<char>)
    requires
        spans_in_order(tokens),
        pos < tokens.len(),
    ensures
        fits(tokens, name_lhs(tokens, pos, name).span, pos as int, pos as int),
        lhs_nested(name_lhs(tokens, pos, name)),
{
    lemma_token_order(tokens, pos as int, pos as int);
}

proof fn lemma_lhs(tokens: Tokens, pos: nat)
    requires
        spans_in_order(tokens),
    ensures
        good_lhs(tokens, pos, parse_lhs_spec(tokens, pos)),
    decreases remaining(tokens, pos), 6nat,
{
    reveal_with_fuel(parse_lhs_spec, 1);
    reveal_with_fuel(parse_index_tail, 1);
    match token_at(tokens, pos) {
        Some(TokenView::Id(name)) => {
            lemma_name_lhs(tokens, pos, name);
            lemma_index_tail(tokens, pos + 1, name_lhs(tokens, pos, name), pos);
        },
        _ => {},
    }
}

/// Whether what the parsing of an argument list at `pos` gives are
/// expressions that lie between the tokens it took, without the closing
/// bracket, each with the spans of its parts nested.
pub open spec fn good_args(
    tokens: Tokens,
    pos: nat,
    r: Parsed<Seq<SpannedView<ExprView>>>,
) -> bool {
    r matches Ok(p) ==> p.1 >= 2 && pos + p.1 <= tokens.len() && forall|i: int|
        0 <= i < p.0.len() ==> between(tokens, (#[trigger] p.0[i]).span, pos as int, (pos + p.1 - 2) as int)
            && nested(p.0[i])
}

proof fn lemma_arg_list(tokens: Tokens, pos: nat, what: Expecting)
    requires
        spans_in_order(tokens),
    ensures
        good_args(tokens, pos, parse_arg_list(tokens, pos, what)),
    decreases remaining(tokens, pos), 70nat,
{
    reveal_with_fuel(parse_arg_list, 1);
    reveal_with_fuel(parse_expr_spec, 1);
    lemma_expr(tokens, pos, what);
    match parse_expr_spec(tokens, pos, what) {
        Ok((first, used)) => {
            lemma_fits_between(tokens, first.span, pos as int, (pos + used - 1) as int);
            match token_at(tokens, pos + used) {
                Some(TokenView::Comma) => {
                    lemma_arg_list(tokens, pos + used + 1, Expecting::Expression);
                    match parse_arg_list(tokens, pos + used + 1, Expecting::Expression) {
                        Ok((rest, more)) => {
                            let all = seq![first] + rest;
                            let total = used + 1 + more;
                            assert forall|i: int| 0 <= i < all.len() implies between(
                                tokens,
                                (#[trigger] all[i]).span,
                                pos as int,
                                (pos + total - 2) as int,) && nested(all[i]) by {
                                if i == 0 {
                                    lemma_between_widen(
                                        tokens,
                                        first.span,
                                        pos as int,
                                        (pos + used - 1) as int,
                                        pos as int,
                                        (pos + total - 2) as int,);
                                } else {
                                    assert(all[i] == rest[i - 1]);
                                    lemma_between_widen(
                                        tokens,
                                        rest[i - 1].span,
                                        (pos + used + 1) as int,
                                        (pos + used + 1 + more - 2) as int,
                                        pos as int,
                                        (pos + total - 2) as int,);
                                }
                            }
                        },
                        Err(_) => {},
                    }
                },
                Some(TokenView::RightParen) => {
                    let all = seq![first];
                    assert forall|i: int| 0 <= i < all.len() implies between(
                        tokens,
                        (#[trigger] all[i]).span,
                        pos as int,
                        (pos + (used + 1) - 2) as int,) && nested(all[i]) by {
                        assert(all[i] == first);
                    }
                },
                _ => {},
            }
        },
        Err(_) => {},
    }
}

proof fn lemma_paren(tokens: Tokens, pos: nat)
    requires
        spans_in_order(tokens),
    ensures
        good(tokens, pos, parse_paren_spec(tokens, pos)),
    decreases remaining(tokens, pos), 10nat,
{
    reveal_with_fuel(parse_paren_spec, 1);
    reveal_with_fuel(parse_expr_spec, 1);
    if pos < tokens.len() {
        lemma_expr(tokens, pos + 1, Expecting::Expression);
        match parse_expr_spec(tokens, pos + 1, Expecting::Expression) {
            Ok((inner, used)) => {
                let close = pos + 1 + used;
                if token_at(tokens, close) == Some(TokenView::RightParen) {
                    let span = Span {
                        start: tokens[pos as int].span.start,
                        end: tokens[close as int].span.end,
                    };
                    assert(fits(tokens, span, pos as int, close as int));
                    lemma_fits_within(
                        tokens,
                        inner.span,
                        (pos + 1) as int,
                        (pos + used) as int,
                        span,
                        pos as int,
                        close as int,);
                    lemma_nested_widen(inner, span);
                }
            },
            Err(_) => {},
        }
    }
}

proof fn lemma_dims(tokens: Tokens, pos: nat, ty: SpannedView<TypeView>, start: usize, lo: nat)
    requires
        spans_in_order(tokens),
        lo < pos,
        lo + 1 <= pos - 1,
        start == tokens[lo as int].span.start,
        between(tokens, ty.span, (lo + 1) as int, (pos - 1) as int),
    ensures
        parse_dims_spec(tokens, pos, ty, start) matches Ok(p) ==> p.1 >= 1 && fits(
            tokens,
            p.0.span,
            lo as int,
            (pos + p.1 - 1) as int,) && nested(p.0),
    decreases remaining(tokens, pos), 9nat,
{
    reveal_with_fuel(parse_dims_spec, 1);
    reveal_with_fuel(parse_expr_spec, 1);
    if token_at(tokens, pos) == Some(TokenView::LeftBracket) {
        lemma_expr(tokens, pos + 1, Expecting::Expression);
        match parse_expr_spec(tokens, pos + 1, Expecting::Expression) {
            Ok((size, s)) => {
                let bar = pos + 1 + s;
                if token_at(tokens, bar) == Some(TokenView::Pipe) {
                    lemma_expr(tokens, bar + 1, Expecting::Expression);
                    match parse_expr_spec(tokens, bar + 1, Expecting::Expression) {
                        Ok((init, i)) => {
                            let close = bar + 1 + i;
                            if token_at(tokens, close) == Some(TokenView::RightBracket) {
                                let span = Span { start, end: tokens[close as int].span.end };
                                assert(fits(tokens, span, lo as int, close as int));
                                lemma_between_within(
                                    tokens,
                                    ty.span,
                                    (lo + 1) as int,
                                    (pos - 1) as int,
                                    span,
                                    lo as int,
                                    close as int,);
                                lemma_fits_within(
                                    tokens,
                                    size.span,
                                    (pos + 1) as int,
                                    (pos + s) as int,
                                    span,
                                    lo as int,
                                    close as int,);
                                lemma_fits_within(
                                    tokens,
                                    init.span,
                                    (bar + 1) as int,
                                    (bar + i) as int,
                                    span,
                                    lo as int,
                                    close as int,);
                                lemma_fits_between(tokens, span, lo as int, close as int);
                            }
                        },
                        Err(_) => {},
                    }
                }
            },
            Err(_) => {},
        }
    }
}

proof fn lemma_new(tokens: Tokens, pos: nat)
    requires
        spans_in_order(tokens),
    ensures
        good(tokens, pos, parse_new_spec(tokens, pos)),
    decreases remaining(tokens, pos), 10nat,
{
    reveal_with_fuel(parse_new_spec, 1);
    reveal_with_fuel(parse_dims_spec, 1);
    if pos < tokens.len() {
        lemma_type_fits(tokens, pos + 1);
        match parse_type_spec(tokens, pos + 1) {
            Ok((ty, t)) => {
                lemma_fits_between(tokens, ty.span, (pos + 1) as int, (pos + t) as int);
                lemma_dims(tokens, pos + 1 + t, ty, tokens[pos as int].span.start, pos);
            },
            Err(_) => {},
        }
    }
}

proof fn lemma_call_node(
    tokens: Tokens,
    pos: nat,
    name: Seq<char>,
    args: Seq<SpannedView<ExprView>>,
    used: nat,
)
    requires
        spans_in_order(tokens),
        used >= 2,
        pos + 2 + used <= tokens.len(),
        forall|i: int|
            0 <= i < args.len() ==> between(
                tokens,
                (#[trigger] args[i]).span,
                (pos + 2) as int,
                pos + 2 + used - 2,
            ) && nested(args[i]),
    ensures
        ({
            let node = SpannedView {
                value: ExprView::FunCall {
                    id: SpannedView { value: name, span: tokens[pos as int].span },
                    args,
                },
                span: Span {
                    start: tokens[pos as int].span.start,
                    end: tokens[(pos + 1 + used) as int].span.end,
                },
            };
            fits(tokens, node.span, pos as int, (pos + 1 + used) as int) && nested(node)
        }),
{
    let last = pos + 1 + used;
    let span = Span {
        start: tokens[pos as int].span.start,
        end: tokens[last as int].span.end,
    };
    lemma_token_order(tokens, pos as int, pos as int);
    lemma_token_order(tokens, pos as int, last as int);
    assert forall|i: int| 0 <= i < args.len() implies within((#[trigger] args[i]).span, span)
        && nested(args[i]) by {
        lemma_token_order(tokens, pos as int, (pos + 2) as int);
        lemma_token_order(tokens, (pos + used) as int, last as int);
    }
}

proof fn lemma_name_call(tokens: Tokens, pos: nat, name: Seq<char>)
    requires
        spans_in_order(tokens),
        pos < tokens.len(),
        token_at(tokens, pos + 1) == Some(TokenView::LeftParen),
    ensures
        good(tokens, pos, parse_name_spec(tokens, pos, name)),
    decreases remaining(tokens, pos), 9nat,
{
    reveal_with_fuel(parse_name_spec, 1);
    reveal_with_fuel(parse_arg_list, 1);
    if token_at(tokens, pos + 2) == Some(TokenView::RightParen) {
        lemma_token_order(tokens, pos as int, pos as int);
        lemma_token_order(tokens, pos as int, (pos + 2) as int);
    } else {
        lemma_arg_list(tokens, pos + 2, Expecting::ExpressionOrClose);
        match parse_arg_list(tokens, pos + 2, Expecting::ExpressionOrClose) {
            Ok((args, used)) => {
                lemma_call_node(tokens, pos, name, args, used);
            },
            Err(_) => {},
        }
    }
}

proof fn lemma_name_index(tokens: Tokens, pos: nat, name: Seq<char>)
    requires
        spans_in_order(tokens),
        pos < tokens.len(),
        token_at(tokens, pos + 1) != Some(TokenView::LeftParen),
    ensures
        good(tokens, pos, parse_name_spec(tokens, pos, name)),
    decreases remaining(tokens, pos), 9nat,
{
    reveal_with_fuel(parse_name_spec, 1);
    reveal_with_fuel(parse_index_tail, 1);
    lemma_name_lhs(tokens, pos, name);
    lemma_index_tail(tokens, pos + 1, name_lhs(tokens, pos, name), pos);
    match parse_index_tail(tokens, pos + 1, name_lhs(tokens, pos, name)) {
        Ok((lhs, used)) => {
            lemma_lhs_as_expr_nested(lhs);
        },
        Err(_) => {},
    }
}

proof fn lemma_name(tokens: Tokens, pos: nat, name: Seq<char>)
    requires
        spans_in_order(tokens),
    ensures
        good(tokens, pos, parse_name_spec(tokens, pos, name)),
    decreases remaining(tokens, pos), 10nat,
{
    if pos < tokens.len() {
        if token_at(tokens, pos + 1) == Some(TokenView::LeftParen) {
            lemma_name_call(tokens, pos, name);
        } else {
            lemma_name_index(tokens, pos, name);
        }
    } else {
        reveal_with_fuel(parse_name_spec, 1);
    }
}

proof fn lemma_primary(tokens: Tokens, pos: nat, what: Expecting)
    requires
        spans_in_order(tokens),
    ensures
        good(tokens, pos, parse_primary_spec(tokens, pos, what)),
    decreases remaining(tokens, pos), 15nat,
{
    reveal_with_fuel(parse_primary_spec, 1);
    reveal_with_fuel(parse_paren_spec, 1);
    reveal_with_fuel(parse_new_spec, 1);
    reveal_with_fuel(parse_name_spec, 1);
    match token_at(tokens, pos) {
        Some(TokenView::LeftParen) => {
            lemma_paren(tokens, pos);
        },
        Some(TokenView::New) => {
            lemma_new(tokens, pos);
        },
        Some(TokenView::Id(name)) => {
            lemma_name(tokens, pos, name);
        },
        Some(t) => {
            lemma_token_order(tokens, pos as int, pos as int);
        },
        None => {},
    }
}

proof fn lemma_unary(tokens: Tokens, pos: nat, what: Expecting)
    requires
        spans_in_order(tokens),
    ensures
        good(tokens, pos, parse_unary_spec(tokens, pos, what)),
    decreases remaining(tokens, pos), 20nat,
{
    reveal_with_fuel(parse_unary_spec, 1);
    reveal_with_fuel(parse_primary_spec, 1);
    match token_at(tokens, pos) {
        Some(TokenView::Not) => {
            lemma_unary(tokens, pos + 1, Expecting::Operand);
            match parse_unary_spec(tokens, pos + 1, Expecting::Operand) {
                Ok((inner, used)) => {
                    let span = Span { start: tokens[pos as int].span.start, end: inner.span.end };
                    assert(fits(tokens, span, pos as int, (pos + used) as int));
                    lemma_fits_within(
                        tokens,
                        inner.span,
                        (pos + 1) as int,
                        (pos + used) as int,
                        span,
                        pos as int,
                        (pos + used) as int,);
                    lemma_fits_between(tokens, span, pos as int, (pos + used) as int);
                },
                Err(_) => {},
            }
        },
        Some(TokenView::Minus) => {
            lemma_unary(tokens, pos + 1, Expecting::Operand);
            match parse_unary_spec(tokens, pos + 1, Expecting::Operand) {
                Ok((inner, used)) => {
                    let zero = SpannedView { value: ExprView::Int(0), span: tokens[pos as int].span };
                    lemma_token_order(tokens, pos as int, pos as int);
                    lemma_binary_node(
                        tokens,
                        zero,
                        crate::syntax::ast::Op::Sub,
                        inner,
                        pos as int,
                        pos as int,
                        (pos + 1) as int,
                        (pos + used) as int,
                    );
                },
                Err(_) => {},
            }
        },
        _ => {
            lemma_primary(tokens, pos, what);
        },
    }
}

proof fn lemma_binary_node(
    tokens: Tokens,
    lhs: SpannedView<ExprView>,
    op: crate::syntax::ast::Op,
    rhs: SpannedView<ExprView>,
    lo: int,
    mid: int,
    from: int,
    hi: int,
)
    requires
        spans_in_order(tokens),
        fits(tokens, lhs.span, (lo) as int, (mid) as int),
        fits(tokens, rhs.span, (from) as int, (hi) as int),
        mid < from,
        nested(lhs),
        nested(rhs),
    ensures
        fits(tokens, binary_node(lhs, op, rhs).span, (lo) as int, (hi) as int),
        nested(binary_node(lhs, op, rhs)),
{
    let node = binary_node(lhs, op, rhs);
    assert(fits(tokens, node.span, (lo) as int, (hi) as int));
    lemma_fits_within(
        tokens,
        lhs.span,
        (lo) as int,
        (mid) as int,
        node.span,
        (lo) as int,
        (hi) as int,
    );
    lemma_fits_within(
        tokens,
        rhs.span,
        (from) as int,
        (hi) as int,
        node.span,
        (lo) as int,
        (hi) as int,
    );
    lemma_fits_between(tokens, node.span, (lo) as int, (hi) as int);
}

proof fn lemma_left_tail(
    tokens: Tokens,
    pos: nat,
    level: nat,
    lhs: SpannedView<ExprView>,
    lo: nat,
)
    requires
        spans_in_order(tokens),
        lo < pos,
        fits(tokens, lhs.span, lo as int, (pos - 1) as int),
        nested(lhs),
    ensures
        parse_left_tail(tokens, pos, level, lhs) matches Ok(p) ==> fits(
            tokens,
            p.0.span,
            lo as int,
            (pos + p.1 - 1) as int,) && nested(p.0),
    decreases remaining(tokens, pos), 0nat,
{
    reveal_with_fuel(parse_left_tail, 1);
    reveal_with_fuel(parse_level_spec, 1);
    match binary_op(token_at(tokens, pos), level) {
        Some(op) => {
            lemma_level(tokens, pos + 1, level + 1, Expecting::Operand);
            match parse_level_spec(tokens, pos + 1, level + 1, Expecting::Operand) {
                Ok((rhs, used)) => {
                    lemma_binary_node(
                        tokens,
                        lhs,
                        op,
                        rhs,
                        lo as int,
                        (pos - 1) as int,
                        (pos + 1) as int,
                        (pos + used) as int,
                    );
                    lemma_left_tail(tokens, pos + 1 + used, level, binary_node(lhs, op, rhs), lo);
                },
                Err(_) => {},
            }
        },
        None => {},
    }
}

proof fn lemma_level(tokens: Tokens, pos: nat, level: nat, what: Expecting)
    requires
        spans_in_order(tokens),
    ensures
        good(tokens, pos, parse_level_spec(tokens, pos, level, what)),
    decreases remaining(tokens, pos), level_rank(level),
{
    reveal_with_fuel(parse_level_spec, 1);
    reveal_with_fuel(parse_unary_spec, 1);
    reveal_with_fuel(parse_left_tail, 1);
    if level < 2 || level > 8 {
        lemma_unary(tokens, pos, what);
    } else {
        lemma_level(tokens, pos, level + 1, what);
        match parse_level_spec(tokens, pos, level + 1, what) {
            Ok((lhs, used)) => {
                if level == 4 || level == 5 || level == 8 {
                    match binary_op(token_at(tokens, pos + used), level) {
                        Some(op) => {
                            let right: nat = if level == 8 {
                                level
                            } else {
                                level + 1
                            };
                            lemma_level(tokens, pos + used + 1, right, Expecting::Operand);
                            match parse_level_spec(
                                tokens,
                                pos + used + 1,
                                right,
                                Expecting::Operand,
                            ) {
                                Ok((rhs, more)) => {
                                    lemma_binary_node(
                                        tokens,
                                        lhs,
                                        op,
                                        rhs,
                                        pos as int,
                                        (pos + used - 1) as int,
                                        (pos + used + 1) as int,
                                        (pos + used + more) as int,);
                                },
                                Err(_) => {},
                            }
                        },
                        None => {},
                    }
                } else {
                    lemma_left_tail(tokens, pos + used, level, lhs, pos);
                }
            },
            Err(_) => {},
        }
    }
}

} // verus!

verus! {

proof fn lemma_set(tokens: Tokens, pos: nat)
    requires
        spans_in_order(tokens),
    ensures
        good(tokens, pos, parse_set_spec(tokens, pos)),
    decreases remaining(tokens, pos), 45nat,
{
    reveal_with_fuel(parse_set_spec, 1);
    reveal_with_fuel(parse_lhs_spec, 1);
    reveal_with_fuel(parse_nonchain_spec, 1);
    if pos < tokens.len() {
        lemma_lhs(tokens, pos + 1);
        match parse_lhs_spec(tokens, pos + 1) {
            Ok((lhs, l)) => {
                let eq = pos + 1 + l;
                if token_at(tokens, eq) == Some(TokenView::Assign) {
                    lemma_nonchain(tokens, eq + 1, Expecting::Statement);
                    match parse_nonchain_spec(tokens, eq + 1, Expecting::Statement) {
                        Ok((value, v)) => {
                            let span = Span {
                                start: tokens[pos as int].span.start,
                                end: value.span.end,
                            };
                            assert(fits(tokens, span, pos as int, (eq + v) as int));
                            lemma_fits_within(
                                tokens,
                                lhs.span,
                                (pos + 1) as int,
                                (pos + l) as int,
                                span,
                                pos as int,
                                (eq + v) as int,);
                            lemma_fits_within(
                                tokens,
                                value.span,
                                (eq + 1) as int,
                                (eq + v) as int,
                                span,
                                pos as int,
                                (eq + v) as int,);
                            lemma_fits_between(tokens, span, pos as int, (eq + v) as int);
                        },
                        Err(_) => {},
                    }
                }
            },
            Err(_) => {},
        }
    }
}

proof fn lemma_branches(
    tokens: Tokens,
    pos: nat,
    cond: SpannedView<ExprView>,
    start: usize,
    lo: nat,
)
    requires
        spans_in_order(tokens),
        lo + 1 <= pos - 1,
        start == tokens[lo as int].span.start,
        between(tokens, cond.span, (lo + 1) as int, (pos - 1) as int),
        nested(cond),
    ensures
        parse_branches_spec(tokens, pos, cond, start) matches Ok(p) ==> p.1 >= 1 && fits(
            tokens,
            p.0.span,
            lo as int,
            (pos + p.1 - 1) as int,) && nested(p.0),
    decreases remaining(tokens, pos), 44nat,
{
    reveal_with_fuel(parse_branches_spec, 1);
    reveal_with_fuel(parse_nonchain_spec, 1);
    if token_at(tokens, pos) == Some(TokenView::Then) {
        lemma_nonchain(tokens, pos + 1, Expecting::Statement);
        match parse_nonchain_spec(tokens, pos + 1, Expecting::Statement) {
            Ok((then, t)) => {
                let else_at = pos + 1 + t;
                if token_at(tokens, else_at) == Some(TokenView::Else) {
                    lemma_nonchain(tokens, else_at + 1, Expecting::Statement);
                    match parse_nonchain_spec(tokens, else_at + 1, Expecting::Statement) {
                        Ok((els, e)) => {
                            let span = Span { start, end: els.span.end };
                            let last = else_at + e;
                            assert(fits(tokens, span, lo as int, last as int));
                            lemma_between_within(
                                tokens,
                                cond.span,
                                (lo + 1) as int,
                                (pos - 1) as int,
                                span,
                                lo as int,
                                last as int,);
                            lemma_fits_within(
                                tokens,
                                then.span,
                                (pos + 1) as int,
                                (pos + t) as int,
                                span,
                                lo as int,
                                last as int,);
                            lemma_fits_within(
                                tokens,
                                els.span,
                                (else_at + 1) as int,
                                (else_at + e) as int,
                                span,
                                lo as int,
                                last as int,);
                            lemma_fits_between(tokens, span, lo as int, last as int);
                        },
                        Err(_) => {},
                    }
                }
            },
            Err(_) => {},
        }
    }
}

proof fn lemma_if(tokens: Tokens, pos: nat)
    requires
        spans_in_order(tokens),
    ensures
        good(tokens, pos, parse_if_spec(tokens, pos)),
    decreases remaining(tokens, pos), 45nat,
{
    reveal_with_fuel(parse_if_spec, 1);
    reveal_with_fuel(parse_branches_spec, 1);
    reveal_with_fuel(parse_nonchain_spec, 1);
    if pos < tokens.len() {
        lemma_nonchain(tokens, pos + 1, Expecting::Statement);
        match parse_nonchain_spec(tokens, pos + 1, Expecting::Statement) {
            Ok((cond, c)) => {
                lemma_fits_between(tokens, cond.span, (pos + 1) as int, (pos + c) as int);
                lemma_branches(tokens, pos + 1 + c, cond, tokens[pos as int].span.start, pos);
            },
            Err(_) => {},
        }
    }
}

proof fn lemma_while(tokens: Tokens, pos: nat)
    requires
        spans_in_order(tokens),
    ensures
        good(tokens, pos, parse_while_spec(tokens, pos)),
    decreases remaining(tokens, pos), 45nat,
{
    reveal_with_fuel(parse_while_spec, 1);
    reveal_with_fuel(parse_nonchain_spec, 1);
    if pos < tokens.len() {
        lemma_nonchain(tokens, pos + 1, Expecting::Statement);
        match parse_nonchain_spec(tokens, pos + 1, Expecting::Statement) {
            Ok((cond, c)) => {
                let do_at = pos + 1 + c;
                if token_at(tokens, do_at) == Some(TokenView::Do) {
                    lemma_nonchain(tokens, do_at + 1, Expecting::Statement);
                    match parse_nonchain_spec(tokens, do_at + 1, Expecting::Statement) {
                        Ok((body, b)) => {
                            let span = Span {
                                start: tokens[pos as int].span.start,
                                end: body.span.end,
                            };
                            let last = do_at + b;
                            assert(fits(tokens, span, pos as int, last as int));
                            lemma_fits_within(
                                tokens,
                                cond.span,
                                (pos + 1) as int,
                                (pos + c) as int,
                                span,
                                pos as int,
                                last as int,);
                            lemma_fits_within(
                                tokens,
                                body.span,
                                (do_at + 1) as int,
                                (do_at + b) as int,
                                span,
                                pos as int,
                                last as int,);
                            lemma_fits_between(tokens, span, pos as int, last as int);
                        },
                        Err(_) => {},
                    }
                }
            },
            Err(_) => {},
        }
    }
}

proof fn lemma_nonchain(tokens: Tokens, pos: nat, what: Expecting)
    requires
        spans_in_order(tokens),
    ensures
        good(tokens, pos, parse_nonchain_spec(tokens, pos, what)),
    decreases remaining(tokens, pos), 50nat,
{
    reveal_with_fuel(parse_nonchain_spec, 1);
    reveal_with_fuel(parse_set_spec, 1);
    reveal_with_fuel(parse_if_spec, 1);
    reveal_with_fuel(parse_while_spec, 1);
    reveal_with_fuel(parse_level_spec, 1);
    match token_at(tokens, pos) {
        Some(TokenView::SetKw) => {
            lemma_set(tokens, pos);
        },
        Some(TokenView::If) => {
            lemma_if(tokens, pos);
        },
        Some(TokenView::While) => {
            lemma_while(tokens, pos);
        },
        _ => {
            lemma_level(tokens, pos, 2, what);
        },
    }
}

proof fn lemma_let_node(
    tokens: Tokens,
    pos: nat,
    name: Seq<char>,
    ty: SpannedView<TypeView>,
    t: nat,
    init: SpannedView<ExprView>,
    i: nat,
    eq: nat,
)
    requires
        spans_in_order(tokens),
        t >= 1,
        i >= 1,
        eq == pos + 3 + t,
        fits(tokens, ty.span, (pos + 3) as int, pos + 3 + t - 1),
        fits(tokens, init.span, (eq + 1) as int, eq + 1 + i - 1),
        nested(init),
    ensures
        ({
            let node = SpannedView {
                value: ExprView::Let {
                    id: SpannedView { value: name, span: tokens[(pos + 1) as int].span },
                    ty,
                    expr: Box::new(init),
                },
                span: Span { start: tokens[pos as int].span.start, end: init.span.end },
            };
            fits(tokens, node.span, pos as int, pos + (t + i + 4) - 1) && nested(node)
        }),
{
    let last = (pos + 3 + t + i) as int;
    lemma_token_order(tokens, pos as int, last);
    lemma_token_order(tokens, pos as int, (pos + 1) as int);
    lemma_token_order(tokens, (pos + 1) as int, last);
    lemma_token_order(tokens, pos as int, (pos + 3) as int);
    lemma_token_order(tokens, (pos + 2 + t) as int, last);
    lemma_token_order(tokens, pos as int, (pos + 4 + t) as int);
}

proof fn lemma_let(tokens: Tokens, pos: nat)
    requires
        spans_in_order(tokens),
    ensures
        good(tokens, pos, parse_let_spec(tokens, pos)),
    decreases remaining(tokens, pos), 54nat,
{
    reveal_with_fuel(parse_let_spec, 1);
    reveal_with_fuel(parse_nonchain_spec, 1);
    match token_at(tokens, pos + 1) {
        Some(TokenView::Id(name)) => {
            if token_at(tokens, pos + 2) == Some(TokenView::Colon) {
                lemma_type_fits(tokens, pos + 3);
                match parse_type_spec(tokens, pos + 3) {
                    Ok((ty, t)) => {
                        let eq = pos + 3 + t;
                        if token_at(tokens, eq) == Some(TokenView::Assign) {
                            lemma_nonchain(tokens, eq + 1, Expecting::Statement);
                            match parse_nonchain_spec(tokens, eq + 1, Expecting::Statement) {
                                Ok((init, i)) => {
                                    lemma_let_node(tokens, pos, name, ty, t, init, i, eq);
                                },
                                Err(_) => {},
                            }
                        }
                    },
                    Err(_) => {},
                }
            }
        },
        _ => {},
    }
}

proof fn lemma_item(tokens: Tokens, pos: nat, what: Expecting)
    requires
        spans_in_order(tokens),
    ensures
        good(tokens, pos, parse_item_spec(tokens, pos, what)),
    decreases remaining(tokens, pos), 55nat,
{
    reveal_with_fuel(parse_item_spec, 1);
    reveal_with_fuel(parse_let_spec, 1);
    reveal_with_fuel(parse_nonchain_spec, 1);
    if token_at(tokens, pos) == Some(TokenView::Let) {
        lemma_let(tokens, pos);
    } else {
        lemma_nonchain(tokens, pos, what);
    }
}

proof fn lemma_chain_node(
    tokens: Tokens,
    pos: nat,
    first: SpannedView<ExprView>,
    used: nat,
    rest: SpannedView<ExprView>,
    more: nat,
)
    requires
        spans_in_order(tokens),
        used >= 1,
        more >= 1,
        fits(tokens, first.span, pos as int, pos + used - 1),
        fits(tokens, rest.span, (pos + used + 1) as int, pos + used + 1 + more - 1),
        nested(first),
        nested(rest),
    ensures
        ({
            let node = SpannedView {
                value: ExprView::Chain { lhs: Box::new(first), rhs: Box::new(rest) },
                span: Span { start: first.span.start, end: rest.span.end },
            };
            fits(tokens, node.span, pos as int, pos + (used + 1 + more) - 1) && nested(node)
        }),
{
    let last = (pos + used + more) as int;
    lemma_token_order(tokens, pos as int, last);
    lemma_token_order(tokens, pos as int, (pos + used + 1) as int);
    lemma_token_order(tokens, (pos + used - 1) as int, last);
}

proof fn lemma_chain(tokens: Tokens, pos: nat, what: Expecting)
    requires
        spans_in_order(tokens),
    ensures
        good(tokens, pos, parse_chain_spec(tokens, pos, what)),
    decreases remaining(tokens, pos), 60nat,
{
    reveal_with_fuel(parse_chain_spec, 1);
    reveal_with_fuel(parse_item_spec, 1);
    reveal_with_fuel(parse_expr_spec, 1);
    lemma_item(tokens, pos, what);
    match parse_item_spec(tokens, pos, what) {
        Ok((first, used)) => {
            if token_at(tokens, pos + used) == Some(TokenView::Semicolon) {
                lemma_expr(tokens, pos + used + 1, Expecting::Expression);
                match parse_expr_spec(tokens, pos + used + 1, Expecting::Expression) {
                    Ok((rest, more)) => {
                        lemma_chain_node(tokens, pos, first, used, rest, more);
                    },
                    Err(_) => {},
                }
            }
        },
        Err(_) => {},
    }
}

/// Spans monotone, for expressions: the expression that the grammar reads
/// from tokens whose spans are in order has the span of the tokens it
/// was read from, and the span of each of its nodes takes in the spans of
/// the node's children.
pub proof fn lemma_expr(tokens: Tokens, pos: nat, what: Expecting)
    requires
        spans_in_order(tokens),
    ensures
        good(tokens, pos, parse_expr_spec(tokens, pos, what)),
    decreases remaining(tokens, pos), 61nat,
{
    reveal_with_fuel(parse_expr_spec, 1);
    reveal_with_fuel(parse_chain_spec, 1);
    lemma_chain(tokens, pos, what);
}

} // verus!

verus! {

/// Whether the span of a declaration takes in the spans of its name, its
/// parameters, its type and its body, and the body's spans are nested.
pub open spec fn decl_nested(d: SpannedView<DeclView>) -> bool {
    d.span.start <= d.span.end && match d.value {
        DeclView::Var { id, ty, expr } => within(id.span, d.span) && within(ty.span, d.span)
            && within(expr.span, d.span) && nested(expr),
        DeclView::Fun { id, params, ty, expr } => within(id.span, d.span) && within(
            ty.span,
            d.span,
        ) && within(expr.span, d.span) && nested(expr) && forall|i: int|
            0 <= i < params.len() ==> within((#[trigger] params[i]).span, d.span),
    }
}

proof fn lemma_params(tokens: Tokens, pos: nat, first: bool)
    requires
        spans_in_order(tokens),
    ensures
        parse_params_spec(tokens, pos, first) matches Ok(p) ==> p.1 >= 1 && pos + p.1
            <= tokens.len() && forall|i: int|
            0 <= i < p.0.len() ==> between(
                tokens,
                (#[trigger] p.0[i]).span,
                pos as int,
                pos + p.1 - 1,
            ),
    decreases remaining(tokens, pos),
{
    reveal_with_fuel(parse_params_spec, 1);
    match token_at(tokens, pos) {
        Some(TokenView::Id(name)) => {
            let id = SpannedView { value: name, span: tokens[pos as int].span };
            lemma_token_order(tokens, pos as int, pos as int);
            match token_at(tokens, pos + 1) {
                Some(TokenView::Comma) => {
                    lemma_params(tokens, pos + 2, false);
                    match parse_params_spec(tokens, pos + 2, false) {
                        Ok((rest, more)) => {
                            let all = seq![id] + rest;
                            let last = pos + (more + 2) - 1;
                            assert forall|i: int| 0 <= i < all.len() implies between(
                                tokens,
                                (#[trigger] all[i]).span,
                                pos as int,
                                last,
                            ) by {
                                if i == 0 {
                                    lemma_token_order(tokens, pos as int, last);
                                } else {
                                    assert(all[i] == rest[i - 1]);
                                    lemma_between_widen(
                                        tokens,
                                        rest[i - 1].span,
                                        (pos + 2) as int,
                                        pos + 2 + more - 1,
                                        pos as int,
                                        last,
                                    );
                                }
                            }
                        },
                        Err(_) => {},
                    }
                },
                Some(TokenView::RightParen) => {
                    let all = seq![id];
                    assert forall|i: int| 0 <= i < all.len() implies between(
                        tokens,
                        (#[trigger] all[i]).span,
                        pos as int,
                        pos + 2 - 1,
                    ) by {
                        lemma_token_order(tokens, pos as int, (pos + 1) as int);
                    }
                },
                _ => {},
            }
        },
        _ => {},
    }
}

proof fn lemma_types(tokens: Tokens, pos: nat, first: bool)
    ensures
        parse_types_spec(tokens, pos, first) matches Ok(p) ==> p.1 >= 1 && pos + p.1
            <= tokens.len(),
    decreases remaining(tokens, pos),
{
    reveal_with_fuel(parse_types_spec, 1);
    if first && token_at(tokens, pos) == Some(TokenView::RightParen) {
    } else {
        lemma_type_fits(tokens, pos);
        match parse_type_spec(tokens, pos) {
            Ok((ty, used)) => {
                match token_at(tokens, pos + used) {
                    Some(TokenView::Comma) => {
                        lemma_types(tokens, pos + used + 1, false);
                    },
                    _ => {},
                }
            },
            Err(_) => {},
        }
    }
}

proof fn lemma_signature(tokens: Tokens, pos: nat)
    requires
        spans_in_order(tokens),
    ensures
        parse_signature_spec(tokens, pos) matches Ok(p) ==> p.1 >= 1 && between(
            tokens,
            p.0.span,
            pos as int,
            pos + p.1 - 1,
        ),
{
    reveal(parse_signature_spec);
    if token_at(tokens, pos) == Some(TokenView::Colon) && token_at(tokens, pos + 1) == Some(
        TokenView::LeftParen,
    ) {
        lemma_types(tokens, pos + 2, true);
        match parse_types_spec(tokens, pos + 2, true) {
            Ok((types, q)) => {
                let arrow = pos + 2 + q;
                if token_at(tokens, arrow) == Some(TokenView::Arrow) {
                    lemma_type_fits(tokens, arrow + 1);
                    match parse_type_spec(tokens, arrow + 1) {
                        Ok((ret, r)) => {
                            let last = arrow + r;
                            lemma_token_order(tokens, pos as int, (pos + 1) as int);
                            lemma_token_order(tokens, (pos + 1) as int, last as int);
                        },
                        Err(_) => {},
                    }
                }
            },
            Err(_) => {},
        }
    }
}

proof fn lemma_var_decl(tokens: Tokens, pos: nat, id: SpannedView<Seq<char>>)
    requires
        spans_in_order(tokens),
        1 <= pos < tokens.len(),
        id.span == tokens[pos as int].span,
    ensures
        parse_var_decl_spec(tokens, pos, id) matches Ok(p) ==> p.1 >= 1 && fits(
            tokens,
            p.0.span,
            pos - 1,
            pos + p.1 - 1,
        ) && decl_nested(p.0),
{
    reveal(parse_var_decl_spec);
    lemma_type_fits(tokens, pos + 2);
    match parse_type_spec(tokens, pos + 2) {
        Ok((ty, t)) => {
            let eq = pos + 2 + t;
            if token_at(tokens, eq) == Some(TokenView::Assign) {
                lemma_expr(tokens, eq + 1, Expecting::Expression);
                match parse_expr_spec(tokens, eq + 1, Expecting::Expression) {
                    Ok((body, b)) => {
                        let last = (eq + b) as int;
                        lemma_token_order(tokens, pos - 1, last);
                        lemma_token_order(tokens, pos - 1, pos as int);
                        lemma_token_order(tokens, pos as int, last);
                        lemma_token_order(tokens, pos - 1, (pos + 2) as int);
                        lemma_token_order(tokens, (pos + 1 + t) as int, last);
                        lemma_token_order(tokens, pos - 1, (eq + 1) as int);
                    },
                    Err(_) => {},
                }
            }
        },
        Err(_) => {},
    }
}

proof fn lemma_fun_decl(tokens: Tokens, pos: nat, id: SpannedView<Seq<char>>)
    requires
        spans_in_order(tokens),
        1 <= pos < tokens.len(),
        id.span == tokens[pos as int].span,
    ensures
        parse_fun_decl_spec(tokens, pos, id) matches Ok(p) ==> p.1 >= 1 && fits(
            tokens,
            p.0.span,
            pos - 1,
            pos + p.1 - 1,
        ) && decl_nested(p.0),
{
    reveal(parse_fun_decl_spec);
    lemma_params(tokens, pos + 2, true);
    match parse_params_spec(tokens, pos + 2, true) {
        Ok((params, p)) => {
            lemma_signature(tokens, pos + 2 + p);
            match parse_signature_spec(tokens, pos + 2 + p) {
                Ok((ty, s)) => {
                    let eq = pos + 2 + p + s;
                    if token_at(tokens, eq) == Some(TokenView::Assign) {
                        lemma_expr(tokens, eq + 1, Expecting::Expression);
                        match parse_expr_spec(tokens, eq + 1, Expecting::Expression) {
                            Ok((body, b)) => {
                                let last = (eq + b) as int;
                                let span = Span {
                                    start: tokens[pos - 1].span.start,
                                    end: body.span.end,
                                };
                                lemma_token_order(tokens, pos - 1, last);
                                lemma_token_order(tokens, pos - 1, pos as int);
                                lemma_token_order(tokens, pos as int, last);
                                lemma_token_order(tokens, pos - 1, (pos + 2 + p) as int);
                                lemma_token_order(tokens, (pos + 2 + p + s - 1) as int, last);
                                lemma_token_order(tokens, pos - 1, (eq + 1) as int);
                                assert forall|i: int| 0 <= i < params.len() implies within(
                                    (#[trigger] params[i]).span,
                                    span,
                                ) by {
                                    lemma_token_order(tokens, pos - 1, (pos + 2) as int);
                                    lemma_token_order(tokens, (pos + 2 + p - 1) as int, last);
                                }
                            },
                            Err(_) => {},
                        }
                    }
                },
                Err(_) => {},
            }
        },
        Err(_) => {},
    }
}

/// Whether a span ends where one of the tokens ends.
pub open spec fn ends_at_token(tokens: Tokens, span: Span) -> bool {
    exists|k: int| 0 <= k < tokens.len() && span.end == (#[trigger] tokens[k]).span.end
}

proof fn lemma_decl(tokens: Tokens, pos: nat)
    requires
        spans_in_order(tokens),
        1 <= pos,
    ensures
        parse_decl_spec(tokens, pos) matches Ok(p) ==> p.1 >= 1 && decl_nested(p.0)
            && ends_at_token(tokens, p.0.span),
{
    reveal(parse_decl_spec);
    match token_at(tokens, pos) {
        Some(TokenView::Id(name)) => {
            let id = SpannedView { value: name, span: tokens[pos as int].span };
            match token_at(tokens, pos + 1) {
                Some(TokenView::Colon) => {
                    lemma_var_decl(tokens, pos, id);
                    if let Ok(p) = parse_var_decl_spec(tokens, pos, id) {
                        assert(p.0.span.end == tokens[pos + p.1 - 1].span.end);
                    }
                },
                Some(TokenView::LeftParen) => {
                    lemma_fun_decl(tokens, pos, id);
                    if let Ok(p) = parse_fun_decl_spec(tokens, pos, id) {
                        assert(p.0.span.end == tokens[pos + p.1 - 1].span.end);
                    }
                },
                _ => {},
            }
        },
        _ => {},
    }
}

proof fn lemma_program(tokens: Tokens, pos: nat)
    requires
        spans_in_order(tokens),
    ensures
        parse_program_spec(tokens, pos) matches Ok(decls) ==> forall|i: int|
            0 <= i < decls.len() ==> decl_nested(#[trigger] decls[i]) && ends_at_token(
                tokens,
                decls[i].span,
            ),
    decreases remaining(tokens, pos),
{
    reveal_with_fuel(parse_program_spec, 1);
    if pos < tokens.len() && token_at(tokens, pos) == Some(TokenView::Let) {
        lemma_decl(tokens, pos + 1);
        match parse_decl_spec(tokens, pos + 1) {
            Ok((decl, used)) => {
                lemma_program(tokens, pos + 1 + used);
                match parse_program_spec(tokens, pos + 1 + used) {
                    Ok(rest) => {
                        let all = seq![decl] + rest;
                        assert forall|i: int| 0 <= i < all.len() implies decl_nested(
                            #[trigger] all[i],
                        ) && ends_at_token(tokens, all[i].span) by {
                            if i > 0 {
                                assert(all[i] == rest[i - 1]);
                            }
                        }
                    },
                    Err(_) => {},
                }
            },
            Err(_) => {},
        }
    }
}

/// Spans monotone: in the program that the grammar reads from tokens whose
/// spans are in order, the span of every node takes in the spans of its
/// children.
pub proof fn lemma_parsed_spans_nested(tokens: Tokens)
    requires
        spans_in_order(tokens),
    ensures
        parse_tokens(tokens) matches Ok(program) ==> forall|i: int|
            0 <= i < program.len() ==> decl_nested(#[trigger] program[i]),
{
    lemma_program(tokens, 0);
}

/// Spans monotone, from the source text on: the tokens of a text have
/// their spans in order, and so the program read from them has the spans
/// of its nodes nested. The text must be no longer than a `usize` counts.
pub proof fn lemma_source_spans_nested(src: Seq<char>)
    requires
        vstd::utf8::encode_utf8(src).len() <= usize::MAX,
    ensures
        crate::syntax::lexer::lex_text(src) matches Ok(tokens) ==> spans_in_order(tokens) && (
        parse_tokens(tokens) matches Ok(program) ==> forall|i: int|
            0 <= i < program.len() ==> decl_nested(#[trigger] program[i])),
{
    crate::syntax::lexer::lemma_token_spans_in_order(src);
    match crate::syntax::lexer::lex_text(src) {
        Ok(tokens) => {
            lemma_parsed_spans_nested(tokens);
        },
        Err(_) => {},
    }
}

/// Spans lie in the text: the span of every token of a text is not empty
/// and ends inside the text, and so does the span of every declaration of
/// the program read from the tokens. With the spans of a declaration's
/// nodes nested in its own, every span of the program lies in the text.
/// The text must be no longer than a `usize` counts.
pub proof fn lemma_source_spans_inside(src: Seq<char>)
    requires
        vstd::utf8::encode_utf8(src).len() <= usize::MAX,
    ensures
        crate::syntax::lexer::lex_text(src) matches Ok(tokens) ==> (forall|i: int|
            0 <= i < tokens.len() ==> (#[trigger] tokens[i]).span.start < tokens[i].span.end
                <= vstd::utf8::encode_utf8(src).len()) && (parse_tokens(tokens) matches Ok(
            program,
        ) ==> forall|i: int|
            0 <= i < program.len() ==> decl_nested(#[trigger] program[i]) && program[i].span.end
                <= vstd::utf8::encode_utf8(src).len()),
{
    crate::syntax::lexer::lemma_token_spans_in_order(src);
    crate::syntax::lexer::lemma_token_spans_inside(src);
    match crate::syntax::lexer::lex_text(src) {
        Ok(tokens) => {
            lemma_program(tokens, 0);
            match parse_tokens(tokens) {
                Ok(program) => {
                    assert forall|i: int| 0 <= i < program.len() implies program[i].span.end
                        <= vstd::utf8::encode_utf8(src).len() by {
                        assert(ends_at_token(tokens, program[i].span));
                        let k = choose|k: int|
                            0 <= k < tokens.len() && program[i].span.end == (
                            #[trigger] tokens[k]).span.end;
                        assert(tokens[k].span.end <= vstd::utf8::encode_utf8(src).len());
                    }
                },
                Err(_) => {},
            }
        },
        Err(_) => {},
    }
}

} // verus!
