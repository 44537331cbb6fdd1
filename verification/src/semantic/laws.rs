use crate::diagnostics::errors::{DeclarationErrorKindView, TypeErrorKindView};
use crate::semantic::declaration_checker::{
    check_expr_spec, check_exprs_spec, check_id_spec, check_lhs_spec, check_reserved,
    check_reserved_all, dc_bind, dc_bind_params, dc_check_decl_spec, dc_check_decls_spec,
    dc_check_program_from, dc_declare, dc_enter, dc_exit, dc_initial_state, dc_lookup, dc_report,
    declare_fun_spec, declare_funs_spec, DcState,
};
use crate::semantic::symbol_table::{declare_spec, TableView};
use crate::semantic::type_checker::{
    bind, bind_in, bind_params, check_against_spec, check_args_spec, check_decl_spec,
    check_decls_spec, check_program_from, compare, element_type, enter, exit, hoist_spec,
    initial_state, is_main_signature, min_len, report, type_errors, type_of_lhs_spec,
    type_of_spec, TcState,
};
use crate::semantic::SymbolView;
use crate::syntax::ast::{op_class, DeclView, ExprView, LhsView, OpType, SpannedView, TypeView};
use vstd::prelude::*;

verus! {

/// Whether the type checker's state `after` comes from `before` by
/// reporting errors of expressions alone: the same bindings, and the
/// errors of `before` followed by any number of new ones, none of which is
/// about the type of `main`.
pub open spec fn tc_reports_only(before: TcState, after: TcState) -> bool {
    &&& after.table == before.table
    &&& before.errors.len() <= after.errors.len()
    &&& after.errors.take(before.errors.len() as int) == before.errors
    &&& forall|k: int|
        before.errors.len() <= k < after.errors.len() ==> !((#[trigger] after.errors[k]).kind
            is MainSignatureMismatch)
}

proof fn lemma_declare_keeps_depth(table: TableView<SymbolView>, id: Seq<char>, val: SymbolView)
    ensures
        declare_spec(table, id, val).len() == table.len(),
        table.len() >= 1 ==> declare_spec(table, id, val).drop_last() == table.drop_last(),
{
    if table.len() >= 1 {
        assert(declare_spec(table, id, val).drop_last() =~= table.drop_last());
    }
}

proof fn lemma_bind_in_inner(
    table: TableView<SymbolView>,
    id: SpannedView<Seq<char>>,
    ty: TypeView,
)
    requires
        table.len() >= 1,
    ensures
        bind_in(table, id, ty).len() == table.len(),
        bind_in(table, id, ty).drop_last() == table.drop_last(),
{
    lemma_declare_keeps_depth(table, id.value, SymbolView { ty, span: id.span });
}

proof fn lemma_push_take<T>(s: Seq<T>, x: T)
    ensures
        s.push(x).take(s.len() as int) == s,
        s.take(s.len() as int) == s,
{
    assert(s.push(x).take(s.len() as int) =~= s);
    assert(s.take(s.len() as int) =~= s);
}

proof fn lemma_reports_only_trans(a: TcState, b: TcState, c: TcState)
    requires
        tc_reports_only(a, b),
        tc_reports_only(b, c),
    ensures
        tc_reports_only(a, c),
{
    assert(c.errors.take(a.errors.len() as int) =~= b.errors.take(a.errors.len() as int));
    assert forall|k: int| a.errors.len() <= k < c.errors.len() implies !((
    #[trigger] c.errors[k]).kind is MainSignatureMismatch) by {
        if k < b.errors.len() {
            assert(c.errors.take(b.errors.len() as int)[k] == c.errors[k]);
            assert(!(b.errors[k].kind is MainSignatureMismatch));
        }
    }
}

proof fn lemma_tc_refl(st: TcState)
    ensures
        tc_reports_only(st, st),
{
    assert(st.errors.take(st.errors.len() as int) =~= st.errors);
}

proof fn lemma_report_only(st: TcState, kind: TypeErrorKindView, span: crate::syntax::ast::Span)
    requires
        !(kind is MainSignatureMismatch),
    ensures
        tc_reports_only(st, report(st, kind, span)),
{
    lemma_push_take(st.errors, crate::diagnostics::errors::TypeErrorView { kind, span });
}

proof fn lemma_scope_round_trip(st: TcState, inner: TcState)
    requires
        tc_reports_only(enter(st), inner),
    ensures
        tc_reports_only(st, exit(inner)),
{
    assert(st.table.push(Seq::empty()).drop_last() =~= st.table);
}

/// Typing an l-value changes nothing but the list of errors, which only
/// grows.
pub proof fn lemma_type_of_lhs_reports_only(st: TcState, l: SpannedView<LhsView>)
    requires
        st.table.len() >= 1,
    ensures
        tc_reports_only(st, type_of_lhs_spec(st, l).1),
    decreases l, 0nat,
{
    match l.value {
        LhsView::Var { id } => {
            lemma_tc_refl(st);
        },
        LhsView::Index { lhs, index } => {
            let arr = type_of_lhs_spec(st, *lhs);
            lemma_type_of_lhs_reports_only(st, *lhs);
            let st1 = check_against_spec(arr.1, *index, TypeView::Int);
            lemma_check_against_reports_only(arr.1, *index, TypeView::Int);
            lemma_reports_only_trans(st, arr.1, st1);
            lemma_tc_refl(st1);
            lemma_report_only(st1, TypeErrorKindView::NotIndexable { found: arr.0 }, lhs.span);
            lemma_reports_only_trans(st, st1, element_type(st1, arr.0, lhs.span).1);
        },
    }
}

/// Checking arguments changes nothing but the list of errors, which only
/// grows.
pub proof fn lemma_check_args_reports_only(
    st: TcState,
    args: Seq<SpannedView<ExprView>>,
    params: Seq<TypeView>,
    n: nat,
)
    requires
        st.table.len() >= 1,
    ensures
        tc_reports_only(st, check_args_spec(st, args, params, n)),
    decreases args, n,
{
    if n == 0 || n > args.len() || n > params.len() {
        lemma_tc_refl(st);
    } else {
        let before = check_args_spec(st, args, params, (n - 1) as nat);
        lemma_check_args_reports_only(st, args, params, (n - 1) as nat);
        lemma_check_against_reports_only(before, args[n - 1], params[n - 1]);
        lemma_reports_only_trans(st, before, check_args_spec(st, args, params, n));
    }
}

/// Inferring the type of an expression changes nothing but the list of
/// errors, which only grows: every scope that the expression opens is
/// closed again.
pub proof fn lemma_type_of_reports_only(st: TcState, e: SpannedView<ExprView>)
    requires
        st.table.len() >= 1,
    ensures
        tc_reports_only(st, type_of_spec(st, e).1),
    decreases e, 0nat,
{
    lemma_tc_refl(st);
    match e.value {
        ExprView::Chain { lhs, rhs } => {
            let st1 = type_of_spec(st, *lhs).1;
            lemma_type_of_reports_only(st, *lhs);
            match lhs.value {
                ExprView::Let { id, ty, expr } => {
                    let inner = bind(enter(st1), id, ty.value);
                    lemma_bind_in_inner(enter(st1).table, id, ty.value);
                    let r = type_of_spec(inner, *rhs);
                    lemma_type_of_reports_only(inner, *rhs);
                    assert(exit(r.1).table == st1.table) by {
                        assert(st1.table.push(Seq::empty()).drop_last() =~= st1.table);
                    }
                    assert(tc_reports_only(st1, exit(r.1)));
                    lemma_reports_only_trans(st, st1, exit(r.1));
                },
                _ => {
                    lemma_type_of_reports_only(st1, *rhs);
                    lemma_reports_only_trans(st, st1, type_of_spec(st1, *rhs).1);
                },
            }
        },
        ExprView::Let { id, ty, expr } => {
            lemma_check_against_reports_only(enter(st), *expr, ty.value);
            lemma_scope_round_trip(st, check_against_spec(enter(st), *expr, ty.value));
        },
        ExprView::SetLhs { lhs, expr } => {
            let target = type_of_lhs_spec(st, lhs);
            lemma_type_of_lhs_reports_only(st, lhs);
            lemma_check_against_reports_only(target.1, *expr, target.0);
            lemma_reports_only_trans(st, target.1, check_against_spec(target.1, *expr, target.0));
        },
        ExprView::BinOp { lhs, op, rhs } => match op_class(op) {
            OpType::Numerical => {
                let st1 = check_against_spec(st, *lhs, TypeView::Int);
                lemma_check_against_reports_only(st, *lhs, TypeView::Int);
                lemma_check_against_reports_only(st1, *rhs, TypeView::Int);
                lemma_reports_only_trans(st, st1, check_against_spec(st1, *rhs, TypeView::Int));
            },
            OpType::Logical => {
                let st1 = check_against_spec(st, *lhs, TypeView::Bool);
                lemma_check_against_reports_only(st, *lhs, TypeView::Bool);
                lemma_check_against_reports_only(st1, *rhs, TypeView::Bool);
                lemma_reports_only_trans(st, st1, check_against_spec(st1, *rhs, TypeView::Bool));
            },
            OpType::Comparison => {
                let left = type_of_spec(st, *lhs);
                lemma_type_of_reports_only(st, *lhs);
                lemma_check_against_reports_only(left.1, *rhs, left.0);
                lemma_reports_only_trans(st, left.1, check_against_spec(left.1, *rhs, left.0));
            },
        },
        ExprView::Not { expr } => {
            lemma_check_against_reports_only(st, *expr, TypeView::Bool);
        },
        ExprView::FunCall { id, args } => match crate::semantic::type_checker::type_of_name(
            st,
            id.value,
        ) {
            None => {},
            Some(TypeView::Fun(params, ret)) => {
                let st1 = if params.len() != args.len() {
                    report(
                        st,
                        TypeErrorKindView::ArgumentCountMismatch {
                            found: args.len() as usize,
                            expected: params.len() as usize,
                        },
                        e.span,
                    )
                } else {
                    st
                };
                lemma_tc_refl(st);
                lemma_report_only(
                    st,
                    TypeErrorKindView::ArgumentCountMismatch {
                        found: args.len() as usize,
                        expected: params.len() as usize,
                    },
                    e.span,
                );
                lemma_check_args_reports_only(
                    st1,
                    args,
                    params,
                    min_len(args.len(), params.len()),
                );
                lemma_reports_only_trans(
                    st,
                    st1,
                    check_args_spec(st1, args, params, min_len(args.len(), params.len())),
                );
            },
            Some(other) => {
                lemma_report_only(st, TypeErrorKindView::NotCallable { found: other }, e.span);
            },
        },
        ExprView::IfElse { cond, then, els } => {
            let st1 = check_against_spec(st, *cond, TypeView::Bool);
            lemma_check_against_reports_only(st, *cond, TypeView::Bool);
            let branch = type_of_spec(st1, *then);
            lemma_type_of_reports_only(st1, *then);
            lemma_reports_only_trans(st, st1, branch.1);
            lemma_check_against_reports_only(branch.1, *els, branch.0);
            lemma_reports_only_trans(st, branch.1, check_against_spec(branch.1, *els, branch.0));
        },
        ExprView::While { cond, expr } => {
            let st1 = check_against_spec(st, *cond, TypeView::Bool);
            lemma_check_against_reports_only(st, *cond, TypeView::Bool);
            lemma_type_of_reports_only(st1, *expr);
            lemma_reports_only_trans(st, st1, type_of_spec(st1, *expr).1);
        },
        ExprView::NewArray { ty, size, init } => {
            let st1 = check_against_spec(st, *size, TypeView::Int);
            lemma_check_against_reports_only(st, *size, TypeView::Int);
            lemma_check_against_reports_only(st1, *init, ty.value);
            lemma_reports_only_trans(st, st1, check_against_spec(st1, *init, ty.value));
        },
        ExprView::ArrayIndex { lhs, index } => {
            let arr = type_of_lhs_spec(st, lhs);
            lemma_type_of_lhs_reports_only(st, lhs);
            let st1 = check_against_spec(arr.1, *index, TypeView::Int);
            lemma_check_against_reports_only(arr.1, *index, TypeView::Int);
            lemma_reports_only_trans(st, arr.1, st1);
            lemma_tc_refl(st1);
            lemma_report_only(st1, TypeErrorKindView::NotIndexable { found: arr.0 }, e.span);
            lemma_reports_only_trans(st, st1, element_type(st1, arr.0, e.span).1);
        },
        _ => {},
    }
}

/// Checking an expression against a type changes nothing but the list of
/// errors, which only grows.
pub proof fn lemma_check_against_reports_only(
    st: TcState,
    e: SpannedView<ExprView>,
    expected: TypeView,
)
    requires
        st.table.len() >= 1,
    ensures
        tc_reports_only(st, check_against_spec(st, e, expected)),
    decreases e, 1nat,
{
    if crate::semantic::type_checker::checks_branches(e.value, expected) {
        match e.value {
            ExprView::IfElse { cond, then, els } => {
                let st1 = check_against_spec(st, *cond, TypeView::Bool);
                lemma_check_against_reports_only(st, *cond, TypeView::Bool);
                let st2 = check_against_spec(st1, *then, expected);
                lemma_check_against_reports_only(st1, *then, expected);
                lemma_reports_only_trans(st, st1, st2);
                lemma_check_against_reports_only(st2, *els, expected);
                lemma_reports_only_trans(st, st2, check_against_spec(st2, *els, expected));
            },
            _ => {},
        }
    } else {
        let found = type_of_spec(st, e);
        lemma_type_of_reports_only(st, e);
        lemma_tc_refl(found.1);
        lemma_report_only(
            found.1,
            TypeErrorKindView::TypeMismatch { found: found.0, expected },
            e.span,
        );
        lemma_reports_only_trans(st, found.1, compare(found.1, expected, found.0, e.span));
    }
}

} // verus!

verus! {

/// Whether a type can be spelled in a source text: a base type, or an
/// array of such a type.
pub open spec fn source_type(t: TypeView) -> bool
    decreases t,
{
    match t {
        TypeView::Int | TypeView::Bool | TypeView::String | TypeView::Unit => true,
        TypeView::Array(inner) => source_type(*inner),
        _ => false,
    }
}

/// Whether a binding can have the type: a type that can be spelled, or a
/// function type whose result can be spelled.
pub open spec fn binding_type(t: TypeView) -> bool {
    source_type(t) || (t matches TypeView::Fun(params, ret) && source_type(*ret))
}

/// Whether every binding of a table has a type that a binding can have.
pub open spec fn table_ok(table: TableView<SymbolView>) -> bool {
    forall|i: int, j: int|
        0 <= i < table.len() && 0 <= j < table[i].len() ==> binding_type(
            (#[trigger] table[i][j]).1.ty,
        )
}

/// Whether every type that an l-value's indices write down can be spelled.
pub open spec fn lhs_annotations_ok(l: LhsView) -> bool
    decreases l,
{
    match l {
        LhsView::Var { id } => true,
        LhsView::Index { lhs, index } => lhs_annotations_ok(lhs.value) && annotations_ok(
            index.value,
        ),
    }
}

/// Whether every type that an expression writes down, in a `let` or for a
/// new array, is one that can be spelled in a source text.
pub open spec fn annotations_ok(e: ExprView) -> bool
    decreases e,
{
    match e {
        ExprView::Chain { lhs, rhs } => annotations_ok(lhs.value) && annotations_ok(rhs.value),
        ExprView::Let { id, ty, expr } => source_type(ty.value) && annotations_ok(expr.value),
        ExprView::SetLhs { lhs, expr } => lhs_annotations_ok(lhs.value) && annotations_ok(
            expr.value,
        ),
        ExprView::BinOp { lhs, op, rhs } => annotations_ok(lhs.value) && annotations_ok(rhs.value),
        ExprView::Not { expr } => annotations_ok(expr.value),
        ExprView::While { cond, expr } => annotations_ok(cond.value) && annotations_ok(expr.value),
        ExprView::IfElse { cond, then, els } => annotations_ok(cond.value) && annotations_ok(
            then.value,
        ) && annotations_ok(els.value),
        ExprView::FunCall { id, args } => forall|i: int|
            0 <= i < args.len() ==> annotations_ok((#[trigger] args[i]).value),
        ExprView::NewArray { ty, size, init } => source_type(ty.value) && annotations_ok(
            size.value,
        ) && annotations_ok(init.value),
        ExprView::ArrayIndex { lhs, index } => lhs_annotations_ok(lhs.value) && annotations_ok(
            index.value,
        ),
        _ => true,
    }
}

/// Whether every name that typing an l-value looks up is bound.
pub open spec fn lhs_resolves(st: TcState, l: SpannedView<LhsView>) -> bool
    decreases l, 0nat,
{
    match l.value {
        LhsView::Var { id } => crate::semantic::type_checker::type_of_name(st, id.value) is Some,
        LhsView::Index { lhs, index } => lhs_resolves(st, *lhs) && check_resolves(
            type_of_lhs_spec(st, *lhs).1,
            *index,
            TypeView::Int,
        ),
    }
}

/// Whether every name that checking the first `n` arguments looks up is
/// bound.
pub open spec fn args_resolve(
    st: TcState,
    args: Seq<SpannedView<ExprView>>,
    params: Seq<TypeView>,
    n: nat,
) -> bool
    decreases args, n,
{
    if n == 0 || n > args.len() || n > params.len() {
        true
    } else {
        args_resolve(st, args, params, (n - 1) as nat) && check_resolves(
            check_args_spec(st, args, params, (n - 1) as nat),
            args[n - 1],
            params[n - 1],
        )
    }
}

/// Whether every name that inferring the type of an expression looks up
/// is bound at the place where it is looked up.
pub open spec fn resolves(st: TcState, e: SpannedView<ExprView>) -> bool
    decreases e, 0nat,
{
    match e.value {
        ExprView::Chain { lhs, rhs } => {
            let st1 = type_of_spec(st, *lhs).1;
            resolves(st, *lhs) && match lhs.value {
                ExprView::Let { id, ty, expr } => resolves(bind(enter(st1), id, ty.value), *rhs),
                _ => resolves(st1, *rhs),
            }
        },
        ExprView::Let { id, ty, expr } => check_resolves(enter(st), *expr, ty.value),
        ExprView::SetLhs { lhs, expr } => {
            let target = type_of_lhs_spec(st, lhs);
            lhs_resolves(st, lhs) && check_resolves(target.1, *expr, target.0)
        },
        ExprView::BinOp { lhs, op, rhs } => match op_class(op) {
            OpType::Numerical => check_resolves(st, *lhs, TypeView::Int) && check_resolves(
                check_against_spec(st, *lhs, TypeView::Int),
                *rhs,
                TypeView::Int,
            ),
            OpType::Logical => check_resolves(st, *lhs, TypeView::Bool) && check_resolves(
                check_against_spec(st, *lhs, TypeView::Bool),
                *rhs,
                TypeView::Bool,
            ),
            OpType::Comparison => {
                let left = type_of_spec(st, *lhs);
                resolves(st, *lhs) && check_resolves(left.1, *rhs, left.0)
            },
        },
        ExprView::Not { expr } => check_resolves(st, *expr, TypeView::Bool),
        ExprView::FunCall { id, args } => match crate::semantic::type_checker::type_of_name(
            st,
            id.value,
        ) {
            None => false,
            Some(TypeView::Fun(params, ret)) => {
                let st1 = if params.len() != args.len() {
                    report(
                        st,
                        TypeErrorKindView::ArgumentCountMismatch {
                            found: args.len() as usize,
                            expected: params.len() as usize,
                        },
                        e.span,
                    )
                } else {
                    st
                };
                args_resolve(st1, args, params, min_len(args.len(), params.len()))
            },
            Some(other) => true,
        },
        ExprView::IfElse { cond, then, els } => {
            let st1 = check_against_spec(st, *cond, TypeView::Bool);
            let branch = type_of_spec(st1, *then);
            check_resolves(st, *cond, TypeView::Bool) && resolves(st1, *then) && check_resolves(
                branch.1,
                *els,
                branch.0,
            )
        },
        ExprView::While { cond, expr } => check_resolves(st, *cond, TypeView::Bool) && resolves(
            check_against_spec(st, *cond, TypeView::Bool),
            *expr,
        ),
        ExprView::NewArray { ty, size, init } => check_resolves(st, *size, TypeView::Int)
            && check_resolves(check_against_spec(st, *size, TypeView::Int), *init, ty.value),
        ExprView::ArrayIndex { lhs, index } => lhs_resolves(st, lhs) && check_resolves(
            type_of_lhs_spec(st, lhs).1,
            *index,
            TypeView::Int,
        ),
        ExprView::Id(id) => crate::semantic::type_checker::type_of_name(st, id.value) is Some,
        _ => true,
    }
}

/// Whether every name that checking an expression against a type looks
/// up is bound at the place where it is looked up.
pub open spec fn check_resolves(st: TcState, e: SpannedView<ExprView>, expected: TypeView) -> bool
    decreases e, 1nat,
{
    if crate::semantic::type_checker::checks_branches(e.value, expected) {
        match e.value {
            ExprView::IfElse { cond, then, els } => {
                let st1 = check_against_spec(st, *cond, TypeView::Bool);
                check_resolves(st, *cond, TypeView::Bool) && check_resolves(st1, *then, expected)
                    && check_resolves(check_against_spec(st1, *then, expected), *els, expected)
            },
            _ => true,
        }
    } else {
        resolves(st, e)
    }
}

} // verus!

verus! {

proof fn lemma_resolved_is_bound(table: TableView<SymbolView>, id: Seq<char>)
    ensures
        crate::semantic::symbol_table::resolve(table, id) matches Some(symbol) ==> exists|
            i: int,
            j: int,
        |
            0 <= i < table.len() && 0 <= j < table[i].len() && (#[trigger] table[i][j]).1 == symbol,
    decreases table.len(),
{
    if table.len() > 0 {
        crate::semantic::symbol_table::lemma_scope_find(table.last(), id);
        match crate::semantic::symbol_table::scope_find(table.last(), id) {
            Some(j) => {
                assert(table[table.len() - 1][j].1 == table.last()[j].1);
            },
            None => {
                lemma_resolved_is_bound(table.drop_last(), id);
                match crate::semantic::symbol_table::resolve(table.drop_last(), id) {
                    Some(symbol) => {
                        let (i, j) = choose|i: int, j: int|
                            0 <= i < table.drop_last().len() && 0 <= j < table.drop_last()[i].len()
                                && (#[trigger] table.drop_last()[i][j]).1 == symbol;
                        assert(table[i][j].1 == symbol);
                    },
                    None => {},
                }
            },
        }
    }
}

proof fn lemma_name_has_binding_type(st: TcState, id: Seq<char>)
    requires
        table_ok(st.table),
    ensures
        crate::semantic::type_checker::type_of_name(st, id) matches Some(ty) ==> binding_type(ty),
{
    lemma_resolved_is_bound(st.table, id);
}

proof fn lemma_bind_keeps_ok(table: TableView<SymbolView>, id: SpannedView<Seq<char>>, ty: TypeView)
    requires
        table.len() >= 1,
        table_ok(table),
        binding_type(ty),
    ensures
        table_ok(bind_in(table, id, ty)),
{
    let after = bind_in(table, id, ty);
    crate::semantic::symbol_table::lemma_scope_find(table.last(), id.value);
    assert forall|i: int, j: int| 0 <= i < after.len() && 0 <= j < after[i].len() implies binding_type(
        (#[trigger] after[i][j]).1.ty,
    ) by {
        if i < table.len() - 1 {
            assert(after[i] == table[i]);
            assert(binding_type(table[i][j].1.ty));
        } else if after[i] == table[i] {
            assert(binding_type(table[i][j].1.ty));
        } else {
            match crate::semantic::symbol_table::scope_find(table.last(), id.value) {
                Some(k) => {
                    if j != k {
                        assert(after[i][j] == table[i][j]);
                    }
                },
                None => {
                    if j < table[i].len() {
                        assert(after[i][j] == table[i][j]);
                    }
                },
            }
        }
    }
}

proof fn lemma_enter_keeps_ok(st: TcState)
    requires
        table_ok(st.table),
    ensures
        table_ok(enter(st).table),
{
    let after = enter(st).table;
    assert forall|i: int, j: int| 0 <= i < after.len() && 0 <= j < after[i].len() implies binding_type(
        (#[trigger] after[i][j]).1.ty,
    ) by {
        assert(after[i] == st.table[i]);
    }
}

proof fn lemma_no_new_errors_between(a: TcState, b: TcState, c: TcState)
    requires
        tc_reports_only(a, b),
        tc_reports_only(b, c),
        c.errors == a.errors,
    ensures
        b.errors == a.errors,
        c.errors == b.errors,
{
    assert(b.errors.take(a.errors.len() as int) =~= b.errors);
}

/// The type of an accepted l-value is concrete.
pub proof fn lemma_accepted_lhs_type_is_concrete(st: TcState, l: SpannedView<LhsView>)
    requires
        st.table.len() >= 1,
        table_ok(st.table),
        lhs_annotations_ok(l.value),
        lhs_resolves(st, l),
        type_of_lhs_spec(st, l).1.errors == st.errors,
    ensures
        binding_type(type_of_lhs_spec(st, l).0),
    decreases l, 0nat,
{
    match l.value {
        LhsView::Var { id } => {
            lemma_name_has_binding_type(st, id.value);
        },
        LhsView::Index { lhs, index } => {
            let arr = type_of_lhs_spec(st, *lhs);
            lemma_type_of_lhs_reports_only(st, *lhs);
            let st1 = check_against_spec(arr.1, *index, TypeView::Int);
            lemma_check_against_reports_only(arr.1, *index, TypeView::Int);
            let last = element_type(st1, arr.0, lhs.span);
            lemma_tc_refl(st1);
            lemma_report_only(st1, TypeErrorKindView::NotIndexable { found: arr.0 }, lhs.span);
            lemma_reports_only_trans(st, arr.1, st1);
            lemma_no_new_errors_between(st, st1, last.1);
            lemma_no_new_errors_between(st, arr.1, st1);
            lemma_accepted_lhs_type_is_concrete(st, *lhs);
        },
    }
}

/// Type-checker soundness: an expression that is accepted has a concrete
/// type, never `Any`.
///
/// Accepted means that typing it reports no error. The law holds where the
/// bindings in scope have types that bindings can have, the types that the
/// expression writes down can be spelled in a source text, and every name
/// that is looked up is bound. The type is then a base type, an array of a
/// type that can be spelled, or the type of a function.
pub proof fn lemma_accepted_type_is_concrete(st: TcState, e: SpannedView<ExprView>)
    requires
        st.table.len() >= 1,
        table_ok(st.table),
        annotations_ok(e.value),
        resolves(st, e),
        type_of_spec(st, e).1.errors == st.errors,
    ensures
        binding_type(type_of_spec(st, e).0),
        !(type_of_spec(st, e).0 is Any),
    decreases e, 0nat,
{
    match e.value {
        ExprView::Chain { lhs, rhs } => {
            let st1 = type_of_spec(st, *lhs).1;
            lemma_type_of_reports_only(st, *lhs);
            match lhs.value {
                ExprView::Let { id, ty, expr } => {
                    let inner = bind(enter(st1), id, ty.value);
                    assert(annotations_ok(lhs.value));
                    assert(source_type(ty.value));
                    lemma_enter_keeps_ok(st1);
                    lemma_bind_in_inner(enter(st1).table, id, ty.value);
                    lemma_bind_keeps_ok(enter(st1).table, id, ty.value);
                    let r = type_of_spec(inner, *rhs);
                    lemma_type_of_reports_only(inner, *rhs);
                    assert(st1.errors.len() <= r.1.errors.len());
                    assert(st1.errors =~= st.errors) by {
                        assert(st1.errors.take(st.errors.len() as int) =~= st1.errors);
                    }
                    lemma_accepted_type_is_concrete(inner, *rhs);
                },
                _ => {
                    lemma_type_of_reports_only(st1, *rhs);
                    lemma_no_new_errors_between(st, st1, type_of_spec(st1, *rhs).1);
                    lemma_accepted_type_is_concrete(st1, *rhs);
                },
            }
        },
        ExprView::FunCall { id, args } => {
            lemma_name_has_binding_type(st, id.value);
            match crate::semantic::type_checker::type_of_name(st, id.value) {
                None => {},
                Some(TypeView::Fun(params, ret)) => {},
                Some(other) => {
                    assert(type_of_spec(st, e).1.errors.len() == st.errors.len() + 1);
                },
            }
        },
        ExprView::IfElse { cond, then, els } => {
            let st1 = check_against_spec(st, *cond, TypeView::Bool);
            lemma_check_against_reports_only(st, *cond, TypeView::Bool);
            let branch = type_of_spec(st1, *then);
            lemma_type_of_reports_only(st1, *then);
            lemma_check_against_reports_only(branch.1, *els, branch.0);
            let last = check_against_spec(branch.1, *els, branch.0);
            lemma_reports_only_trans(st, st1, branch.1);
            lemma_no_new_errors_between(st, branch.1, last);
            lemma_no_new_errors_between(st, st1, branch.1);
            lemma_accepted_type_is_concrete(st1, *then);
        },
        ExprView::NewArray { ty, size, init } => {},
        ExprView::ArrayIndex { lhs, index } => {
            let arr = type_of_lhs_spec(st, lhs);
            lemma_type_of_lhs_reports_only(st, lhs);
            let st1 = check_against_spec(arr.1, *index, TypeView::Int);
            lemma_check_against_reports_only(arr.1, *index, TypeView::Int);
            let last = element_type(st1, arr.0, e.span);
            lemma_tc_refl(st1);
            lemma_report_only(st1, TypeErrorKindView::NotIndexable { found: arr.0 }, e.span);
            lemma_reports_only_trans(st, arr.1, st1);
            lemma_no_new_errors_between(st, st1, last.1);
            lemma_no_new_errors_between(st, arr.1, st1);
            lemma_accepted_lhs_type_is_concrete(st, lhs);
        },
        ExprView::Id(id) => {
            lemma_name_has_binding_type(st, id.value);
        },
        _ => {},
    }
}

} // verus!

verus! {

/// An expression that is accepted where a base type is asked for has
/// that type.
pub proof fn lemma_accepted_against_base(
    st: TcState,
    e: SpannedView<ExprView>,
    expected: TypeView,
)
    requires
        st.table.len() >= 1,
        table_ok(st.table),
        annotations_ok(e.value),
        check_resolves(st, e, expected),
        expected is Int || expected is Bool || expected is String || expected is Unit,
        check_against_spec(st, e, expected).errors == st.errors,
    ensures
        type_of_spec(st, e).0 == expected,
    decreases e, 1nat,
{
    if crate::semantic::type_checker::checks_branches(e.value, expected) {
        match e.value {
            ExprView::IfElse { cond, then, els } => {
                let st1 = check_against_spec(st, *cond, TypeView::Bool);
                let st2 = check_against_spec(st1, *then, expected);
                let st3 = check_against_spec(st2, *els, expected);
                lemma_check_against_reports_only(st, *cond, TypeView::Bool);
                lemma_check_against_reports_only(st1, *then, expected);
                lemma_check_against_reports_only(st2, *els, expected);
                lemma_reports_only_trans(st, st1, st2);
                lemma_no_new_errors_between(st, st2, st3);
                lemma_no_new_errors_between(st, st1, st2);
                lemma_accepted_against_base(st1, *then, expected);
            },
            _ => {},
        }
    } else {
        let found = type_of_spec(st, e);
        lemma_type_of_reports_only(st, e);
        let last = compare(found.1, expected, found.0, e.span);
        if !crate::semantic::type_checker::accepts(expected, found.0) {
            assert(last.errors.len() == found.1.errors.len() + 1);
        }
        assert(found.1.errors =~= st.errors) by {
            assert(found.1.errors.take(st.errors.len() as int) =~= found.1.errors);
        }
        lemma_accepted_type_is_concrete(st, e);
    }
}

/// Operands have the type of their operator. In an accepted expression,
/// both operands of an arithmetic operator have the type `Int`, and both
/// operands of `&&` and `||` and the operand of `!` have the type `Bool`.
/// The law holds where the bindings in scope have types that bindings can
/// have, the types that the expression writes down can be spelled in a
/// source text, and every name that is looked up is bound.
pub proof fn lemma_accepted_operands(st: TcState, e: SpannedView<ExprView>)
    requires
        st.table.len() >= 1,
        table_ok(st.table),
        annotations_ok(e.value),
        resolves(st, e),
        type_of_spec(st, e).1.errors == st.errors,
    ensures
        match e.value {
            ExprView::BinOp { lhs, op, rhs } => match op_class(op) {
                OpType::Numerical => type_of_spec(st, *lhs).0 == TypeView::Int && type_of_spec(
                    check_against_spec(st, *lhs, TypeView::Int),
                    *rhs,
                ).0 == TypeView::Int,
                OpType::Logical => type_of_spec(st, *lhs).0 == TypeView::Bool && type_of_spec(
                    check_against_spec(st, *lhs, TypeView::Bool),
                    *rhs,
                ).0 == TypeView::Bool,
                OpType::Comparison => true,
            },
            ExprView::Not { expr } => type_of_spec(st, *expr).0 == TypeView::Bool,
            _ => true,
        },
{
    match e.value {
        ExprView::BinOp { lhs, op, rhs } => {
            let of = match op_class(op) {
                OpType::Numerical => TypeView::Int,
                _ => TypeView::Bool,
            };
            if !(op_class(op) is Comparison) {
                let st1 = check_against_spec(st, *lhs, of);
                let st2 = check_against_spec(st1, *rhs, of);
                lemma_check_against_reports_only(st, *lhs, of);
                lemma_check_against_reports_only(st1, *rhs, of);
                lemma_no_new_errors_between(st, st1, st2);
                lemma_accepted_against_base(st, *lhs, of);
                lemma_accepted_against_base(st1, *rhs, of);
            }
        },
        ExprView::Not { expr } => {
            lemma_accepted_against_base(st, *expr, TypeView::Bool);
        },
        _ => {},
    }
}

} // verus!

verus! {

/// Whether every part of an l-value has a type that is concrete: the
/// l-value itself, and every part of its indices.
pub open spec fn lhs_parts_typed(st: TcState, l: SpannedView<LhsView>) -> bool
    decreases l, 0nat,
{
    binding_type(type_of_lhs_spec(st, l).0) && match l.value {
        LhsView::Var { id } => true,
        LhsView::Index { lhs, index } => lhs_parts_typed(st, *lhs) && check_parts_typed(
            type_of_lhs_spec(st, *lhs).1,
            *index,
            TypeView::Int,
        ),
    }
}

/// Whether every part of the first `n` arguments has a type that is
/// concrete.
pub open spec fn args_parts_typed(
    st: TcState,
    args: Seq<SpannedView<ExprView>>,
    params: Seq<TypeView>,
    n: nat,
) -> bool
    decreases args, n,
{
    if n == 0 || n > args.len() || n > params.len() {
        true
    } else {
        args_parts_typed(st, args, params, (n - 1) as nat) && check_parts_typed(
            check_args_spec(st, args, params, (n - 1) as nat),
            args[n - 1],
            params[n - 1],
        )
    }
}

/// Whether every part of an expression has a type that is concrete, each
/// part typed in the state in which the checker comes to it: the
/// expression itself, and every expression and l-value in it.
pub open spec fn parts_typed(st: TcState, e: SpannedView<ExprView>) -> bool
    decreases e, 0nat,
{
    binding_type(type_of_spec(st, e).0) && match e.value {
        ExprView::Chain { lhs, rhs } => {
            let st1 = type_of_spec(st, *lhs).1;
            parts_typed(st, *lhs) && match lhs.value {
                ExprView::Let { id, ty, expr } => parts_typed(
                    bind(enter(st1), id, ty.value),
                    *rhs,
                ),
                _ => parts_typed(st1, *rhs),
            }
        },
        ExprView::Let { id, ty, expr } => check_parts_typed(enter(st), *expr, ty.value),
        ExprView::SetLhs { lhs, expr } => {
            let target = type_of_lhs_spec(st, lhs);
            lhs_parts_typed(st, lhs) && check_parts_typed(target.1, *expr, target.0)
        },
        ExprView::BinOp { lhs, op, rhs } => match op_class(op) {
            OpType::Numerical => check_parts_typed(st, *lhs, TypeView::Int) && check_parts_typed(
                check_against_spec(st, *lhs, TypeView::Int),
                *rhs,
                TypeView::Int,
            ),
            OpType::Logical => check_parts_typed(st, *lhs, TypeView::Bool) && check_parts_typed(
                check_against_spec(st, *lhs, TypeView::Bool),
                *rhs,
                TypeView::Bool,
            ),
            OpType::Comparison => {
                let left = type_of_spec(st, *lhs);
                parts_typed(st, *lhs) && check_parts_typed(left.1, *rhs, left.0)
            },
        },
        ExprView::Not { expr } => check_parts_typed(st, *expr, TypeView::Bool),
        ExprView::FunCall { id, args } => match crate::semantic::type_checker::type_of_name(
            st,
            id.value,
        ) {
            Some(TypeView::Fun(params, ret)) => args_parts_typed(
                st,
                args,
                params,
                min_len(args.len(), params.len()),
            ),
            _ => true,
        },
        ExprView::IfElse { cond, then, els } => {
            let st1 = check_against_spec(st, *cond, TypeView::Bool);
            let branch = type_of_spec(st1, *then);
            check_parts_typed(st, *cond, TypeView::Bool) && parts_typed(st1, *then)
                && check_parts_typed(branch.1, *els, branch.0)
        },
        ExprView::While { cond, expr } => check_parts_typed(st, *cond, TypeView::Bool)
            && parts_typed(check_against_spec(st, *cond, TypeView::Bool), *expr),
        ExprView::NewArray { ty, size, init } => check_parts_typed(st, *size, TypeView::Int)
            && check_parts_typed(check_against_spec(st, *size, TypeView::Int), *init, ty.value),
        ExprView::ArrayIndex { lhs, index } => lhs_parts_typed(st, lhs) && check_parts_typed(
            type_of_lhs_spec(st, lhs).1,
            *index,
            TypeView::Int,
        ),
        _ => true,
    }
}

/// Whether every part of an expression that is checked against a type
/// has a type that is concrete.
pub open spec fn check_parts_typed(
    st: TcState,
    e: SpannedView<ExprView>,
    expected: TypeView,
) -> bool
    decreases e, 1nat,
{
    if crate::semantic::type_checker::checks_branches(e.value, expected) {
        match e.value {
            ExprView::IfElse { cond, then, els } => {
                let st1 = check_against_spec(st, *cond, TypeView::Bool);
                check_parts_typed(st, *cond, TypeView::Bool) && check_parts_typed(
                    st1,
                    *then,
                    expected,
                ) && check_parts_typed(check_against_spec(st1, *then, expected), *els, expected)
            },
            _ => true,
        }
    } else {
        parts_typed(st, e)
    }
}

proof fn lemma_same_errors(a: TcState, b: TcState)
    requires
        tc_reports_only(a, b),
        b.errors == a.errors,
    ensures
        b == a,
{
}

/// Every part of an accepted l-value has a concrete type.
pub proof fn lemma_accepted_lhs_parts_typed(st: TcState, l: SpannedView<LhsView>)
    requires
        st.table.len() >= 1,
        table_ok(st.table),
        lhs_annotations_ok(l.value),
        lhs_resolves(st, l),
        type_of_lhs_spec(st, l).1.errors == st.errors,
    ensures
        lhs_parts_typed(st, l),
    decreases l, 0nat,
{
    lemma_accepted_lhs_type_is_concrete(st, l);
    match l.value {
        LhsView::Var { id } => {},
        LhsView::Index { lhs, index } => {
            let arr = type_of_lhs_spec(st, *lhs);
            lemma_type_of_lhs_reports_only(st, *lhs);
            let st1 = check_against_spec(arr.1, *index, TypeView::Int);
            lemma_check_against_reports_only(arr.1, *index, TypeView::Int);
            let last = element_type(st1, arr.0, lhs.span);
            lemma_tc_refl(st1);
            lemma_report_only(st1, TypeErrorKindView::NotIndexable { found: arr.0 }, lhs.span);
            lemma_reports_only_trans(st, arr.1, st1);
            lemma_no_new_errors_between(st, st1, last.1);
            lemma_no_new_errors_between(st, arr.1, st1);
            lemma_same_errors(st, arr.1);
            lemma_accepted_lhs_parts_typed(st, *lhs);
            lemma_check_accepted_parts_typed(arr.1, *index, TypeView::Int);
        },
    }
}

/// Every part of accepted arguments has a concrete type.
pub proof fn lemma_accepted_args_parts_typed(
    st: TcState,
    args: Seq<SpannedView<ExprView>>,
    params: Seq<TypeView>,
    n: nat,
)
    requires
        st.table.len() >= 1,
        table_ok(st.table),
        forall|i: int| 0 <= i < args.len() ==> annotations_ok((#[trigger] args[i]).value),
        args_resolve(st, args, params, n),
        check_args_spec(st, args, params, n).errors == st.errors,
    ensures
        args_parts_typed(st, args, params, n),
    decreases args, n,
{
    if n == 0 || n > args.len() || n > params.len() {
    } else {
        let before = check_args_spec(st, args, params, (n - 1) as nat);
        lemma_check_args_reports_only(st, args, params, (n - 1) as nat);
        lemma_check_against_reports_only(before, args[n - 1], params[n - 1]);
        lemma_no_new_errors_between(st, before, check_args_spec(st, args, params, n));
        lemma_same_errors(st, before);
        lemma_accepted_args_parts_typed(st, args, params, (n - 1) as nat);
        lemma_check_accepted_parts_typed(before, args[n - 1], params[n - 1]);
    }
}

/// Every part of an expression that is accepted against a type has a
/// concrete type.
pub proof fn lemma_check_accepted_parts_typed(
    st: TcState,
    e: SpannedView<ExprView>,
    expected: TypeView,
)
    requires
        st.table.len() >= 1,
        table_ok(st.table),
        annotations_ok(e.value),
        check_resolves(st, e, expected),
        check_against_spec(st, e, expected).errors == st.errors,
    ensures
        check_parts_typed(st, e, expected),
    decreases e, 1nat,
{
    if crate::semantic::type_checker::checks_branches(e.value, expected) {
        match e.value {
            ExprView::IfElse { cond, then, els } => {
                let st1 = check_against_spec(st, *cond, TypeView::Bool);
                let st2 = check_against_spec(st1, *then, expected);
                let st3 = check_against_spec(st2, *els, expected);
                lemma_check_against_reports_only(st, *cond, TypeView::Bool);
                lemma_check_against_reports_only(st1, *then, expected);
                lemma_check_against_reports_only(st2, *els, expected);
                lemma_reports_only_trans(st, st1, st2);
                lemma_no_new_errors_between(st, st2, st3);
                lemma_no_new_errors_between(st, st1, st2);
                lemma_same_errors(st, st1);
                lemma_same_errors(st, st2);
                lemma_check_accepted_parts_typed(st, *cond, TypeView::Bool);
                lemma_check_accepted_parts_typed(st1, *then, expected);
                lemma_check_accepted_parts_typed(st2, *els, expected);
            },
            _ => {},
        }
    } else {
        let found = type_of_spec(st, e);
        lemma_type_of_reports_only(st, e);
        let last = compare(found.1, expected, found.0, e.span);
        if !crate::semantic::type_checker::accepts(expected, found.0) {
            assert(last.errors.len() == found.1.errors.len() + 1);
        }
        assert(found.1.errors =~= st.errors) by {
            assert(found.1.errors.take(st.errors.len() as int) =~= found.1.errors);
        }
        lemma_accepted_parts_typed(st, e);
    }
}

/// Type-checker soundness for every part: in an accepted expression,
/// every expression and every l-value has a concrete type, never `Any`,
/// in the state in which the checker comes to it. The law holds where the
/// bindings in scope have types that bindings can have, the types that
/// the expression writes down can be spelled in a source text, and every
/// name that is looked up is bound.
pub proof fn lemma_accepted_parts_typed(st: TcState, e: SpannedView<ExprView>)
    requires
        st.table.len() >= 1,
        table_ok(st.table),
        annotations_ok(e.value),
        resolves(st, e),
        type_of_spec(st, e).1.errors == st.errors,
    ensures
        parts_typed(st, e),
    decreases e, 0nat,
{
    lemma_accepted_type_is_concrete(st, e);
    match e.value {
        ExprView::Chain { lhs, rhs } => {
            let st1 = type_of_spec(st, *lhs).1;
            lemma_type_of_reports_only(st, *lhs);
            match lhs.value {
                ExprView::Let { id, ty, expr } => {
                    let inner = bind(enter(st1), id, ty.value);
                    assert(annotations_ok(lhs.value));
                    assert(source_type(ty.value));
                    lemma_enter_keeps_ok(st1);
                    lemma_bind_in_inner(enter(st1).table, id, ty.value);
                    lemma_bind_keeps_ok(enter(st1).table, id, ty.value);
                    let r = type_of_spec(inner, *rhs);
                    lemma_type_of_reports_only(inner, *rhs);
                    assert(st1.errors =~= st.errors) by {
                        assert(st1.errors.take(st.errors.len() as int) =~= st1.errors);
                    }
                    lemma_same_errors(st, st1);
                    lemma_accepted_parts_typed(st, *lhs);
                    lemma_accepted_parts_typed(inner, *rhs);
                },
                _ => {
                    lemma_type_of_reports_only(st1, *rhs);
                    lemma_no_new_errors_between(st, st1, type_of_spec(st1, *rhs).1);
                    lemma_same_errors(st, st1);
                    lemma_accepted_parts_typed(st, *lhs);
                    lemma_accepted_parts_typed(st1, *rhs);
                },
            }
        },
        ExprView::Let { id, ty, expr } => {
            lemma_enter_keeps_ok(st);
            lemma_check_against_reports_only(enter(st), *expr, ty.value);
            lemma_check_accepted_parts_typed(enter(st), *expr, ty.value);
        },
        ExprView::SetLhs { lhs, expr } => {
            let target = type_of_lhs_spec(st, lhs);
            lemma_type_of_lhs_reports_only(st, lhs);
            lemma_check_against_reports_only(target.1, *expr, target.0);
            lemma_no_new_errors_between(
                st,
                target.1,
                check_against_spec(target.1, *expr, target.0),
            );
            lemma_same_errors(st, target.1);
            lemma_accepted_lhs_parts_typed(st, lhs);
            lemma_check_accepted_parts_typed(target.1, *expr, target.0);
        },
        ExprView::BinOp { lhs, op, rhs } => {
            match op_class(op) {
                OpType::Comparison => {
                    let left = type_of_spec(st, *lhs);
                    lemma_type_of_reports_only(st, *lhs);
                    lemma_check_against_reports_only(left.1, *rhs, left.0);
                    lemma_no_new_errors_between(
                        st,
                        left.1,
                        check_against_spec(left.1, *rhs, left.0),
                    );
                    lemma_same_errors(st, left.1);
                    lemma_accepted_parts_typed(st, *lhs);
                    lemma_check_accepted_parts_typed(left.1, *rhs, left.0);
                },
                _ => {
                    let of = match op_class(op) {
                        OpType::Numerical => TypeView::Int,
                        _ => TypeView::Bool,
                    };
                    let st1 = check_against_spec(st, *lhs, of);
                    lemma_check_against_reports_only(st, *lhs, of);
                    lemma_check_against_reports_only(st1, *rhs, of);
                    lemma_no_new_errors_between(st, st1, check_against_spec(st1, *rhs, of));
                    lemma_same_errors(st, st1);
                    lemma_check_accepted_parts_typed(st, *lhs, of);
                    lemma_check_accepted_parts_typed(st1, *rhs, of);
                },
            }
        },
        ExprView::Not { expr } => {
            lemma_check_accepted_parts_typed(st, *expr, TypeView::Bool);
        },
        ExprView::FunCall { id, args } => {
            match crate::semantic::type_checker::type_of_name(st, id.value) {
                Some(TypeView::Fun(params, ret)) => {
                    let n = min_len(args.len(), params.len());
                    let st1 = if params.len() != args.len() {
                        report(
                            st,
                            TypeErrorKindView::ArgumentCountMismatch {
                                found: args.len() as usize,
                                expected: params.len() as usize,
                            },
                            e.span,
                        )
                    } else {
                        st
                    };
                    lemma_check_args_reports_only(st1, args, params, n);
                    assert(st1 == st);
                    lemma_accepted_args_parts_typed(st, args, params, n);
                },
                _ => {},
            }
        },
        ExprView::IfElse { cond, then, els } => {
            let st1 = check_against_spec(st, *cond, TypeView::Bool);
            lemma_check_against_reports_only(st, *cond, TypeView::Bool);
            let branch = type_of_spec(st1, *then);
            lemma_type_of_reports_only(st1, *then);
            lemma_check_against_reports_only(branch.1, *els, branch.0);
            let last = check_against_spec(branch.1, *els, branch.0);
            lemma_reports_only_trans(st, st1, branch.1);
            lemma_no_new_errors_between(st, branch.1, last);
            lemma_no_new_errors_between(st, st1, branch.1);
            lemma_same_errors(st, st1);
            lemma_same_errors(st, branch.1);
            lemma_check_accepted_parts_typed(st, *cond, TypeView::Bool);
            lemma_accepted_parts_typed(st1, *then);
            lemma_check_accepted_parts_typed(branch.1, *els, branch.0);
        },
        ExprView::While { cond, expr } => {
            let st1 = check_against_spec(st, *cond, TypeView::Bool);
            lemma_check_against_reports_only(st, *cond, TypeView::Bool);
            lemma_type_of_reports_only(st1, *expr);
            lemma_no_new_errors_between(st, st1, type_of_spec(st1, *expr).1);
            lemma_same_errors(st, st1);
            lemma_check_accepted_parts_typed(st, *cond, TypeView::Bool);
            lemma_accepted_parts_typed(st1, *expr);
        },
        ExprView::NewArray { ty, size, init } => {
            let st1 = check_against_spec(st, *size, TypeView::Int);
            lemma_check_against_reports_only(st, *size, TypeView::Int);
            lemma_check_against_reports_only(st1, *init, ty.value);
            lemma_no_new_errors_between(st, st1, check_against_spec(st1, *init, ty.value));
            lemma_same_errors(st, st1);
            lemma_check_accepted_parts_typed(st, *size, TypeView::Int);
            lemma_check_accepted_parts_typed(st1, *init, ty.value);
        },
        ExprView::ArrayIndex { lhs, index } => {
            let arr = type_of_lhs_spec(st, lhs);
            lemma_type_of_lhs_reports_only(st, lhs);
            let st1 = check_against_spec(arr.1, *index, TypeView::Int);
            lemma_check_against_reports_only(arr.1, *index, TypeView::Int);
            let last = element_type(st1, arr.0, e.span);
            lemma_tc_refl(st1);
            lemma_report_only(st1, TypeErrorKindView::NotIndexable { found: arr.0 }, e.span);
            lemma_reports_only_trans(st, arr.1, st1);
            lemma_no_new_errors_between(st, st1, last.1);
            lemma_no_new_errors_between(st, arr.1, st1);
            lemma_same_errors(st, arr.1);
            lemma_accepted_lhs_parts_typed(st, lhs);
            lemma_check_accepted_parts_typed(arr.1, *index, TypeView::Int);
        },
        _ => {},
    }
}

} // verus!

verus! {

/// Whether an error is about `main`: one too many, or none at all.
pub open spec fn about_main(kind: DeclarationErrorKindView) -> bool {
    kind is DuplicateMain || kind is MissingMain
}

/// Whether none of the errors from the index `from` on is about `main`.
pub open spec fn none_about_main(
    errors: Seq<crate::diagnostics::errors::DeclarationErrorView>,
    from: int,
) -> bool {
    forall|k: int| from <= k < errors.len() ==> !about_main((#[trigger] errors[k]).kind)
}

/// Whether the declaration checker's state `after` comes from `before` by
/// reporting errors and marking bindings as used alone: the same bindings
/// in scope, the same knowledge of `main`, and the errors of `before`
/// followed by any number of new ones, none of which is about `main`.
pub open spec fn dc_reports_only(before: DcState, after: DcState) -> bool {
    &&& after.table == before.table
    &&& after.main_declared == before.main_declared
    &&& before.errors.len() <= after.errors.len()
    &&& after.errors.take(before.errors.len() as int) == before.errors
    &&& none_about_main(after.errors, before.errors.len() as int)
}

proof fn lemma_none_about_main_trans(
    a: Seq<crate::diagnostics::errors::DeclarationErrorView>,
    b: Seq<crate::diagnostics::errors::DeclarationErrorView>,
    c: Seq<crate::diagnostics::errors::DeclarationErrorView>,
)
    requires
        a.len() <= b.len() <= c.len(),
        c.take(b.len() as int) == b,
        none_about_main(b, a.len() as int),
        none_about_main(c, b.len() as int),
    ensures
        none_about_main(c, a.len() as int),
{
    assert forall|k: int| a.len() <= k < c.len() implies !about_main((#[trigger] c[k]).kind) by {
        if k < b.len() {
            assert(c.take(b.len() as int)[k] == c[k]);
            assert(!about_main(b[k].kind));
        }
    }
}

proof fn lemma_dc_refl(st: DcState)
    ensures
        dc_reports_only(st, st),
{
    assert(st.errors.take(st.errors.len() as int) =~= st.errors);
}

proof fn lemma_dc_trans(a: DcState, b: DcState, c: DcState)
    requires
        dc_reports_only(a, b),
        dc_reports_only(b, c),
    ensures
        dc_reports_only(a, c),
{
    assert(c.errors.take(a.errors.len() as int) =~= b.errors.take(a.errors.len() as int));
    lemma_none_about_main_trans(a.errors, b.errors, c.errors);
}

proof fn lemma_dc_report(
    st: DcState,
    kind: DeclarationErrorKindView,
    span: crate::syntax::ast::Span,
)
    requires
        !about_main(kind),
    ensures
        dc_reports_only(st, dc_report(st, kind, span)),
{
    assert(dc_report(st, kind, span).errors.take(st.errors.len() as int) =~= st.errors);
}

proof fn lemma_check_id_reports_only(st: DcState, id: SpannedView<Seq<char>>)
    ensures
        dc_reports_only(st, check_id_spec(st, id)),
{
    lemma_dc_refl(st);
    lemma_dc_refl(dc_lookup(st, id.value));
    lemma_dc_report(
        st,
        DeclarationErrorKindView::UndeclaredIdentifier(
            id.value,
            crate::utils::suggestion(
                crate::semantic::declaration_checker::names_of(
                    crate::semantic::symbol_table::visible(st.table),
                ),
                id.value,
            ),
        ),
        id.span,
    );
}

proof fn lemma_check_reserved_reports_only(st: DcState, id: SpannedView<Seq<char>>)
    ensures
        dc_reports_only(st, check_reserved(st, id)),
{
    lemma_dc_refl(st);
    lemma_dc_report(st, DeclarationErrorKindView::ReservedIdentifier(id.value), id.span);
}

/// Binding a name changes the current scope at most, and reports at most
/// an error.
proof fn lemma_dc_bind_inner(st: DcState, id: SpannedView<Seq<char>>, ty: TypeView)
    requires
        st.table.len() >= 1,
    ensures
        dc_bind(st, id, ty).table.len() == st.table.len(),
        dc_bind(st, id, ty).table.drop_last() == st.table.drop_last(),
        dc_bind(st, id, ty).main_declared == st.main_declared,
        st.errors.len() <= dc_bind(st, id, ty).errors.len(),
        dc_bind(st, id, ty).errors.take(st.errors.len() as int) == st.errors,
        none_about_main(dc_bind(st, id, ty).errors, st.errors.len() as int),
{
    lemma_declare_keeps_depth(st.table, id.value, SymbolView { ty, span: id.span });
    lemma_dc_refl(st);
    lemma_dc_report(st, DeclarationErrorKindView::DuplicateDeclaration(id.value), id.span);
}

proof fn lemma_dc_scope_round_trip(st: DcState, inside: DcState, after: DcState)
    requires
        inside.table.len() == st.table.len() + 1,
        inside.table.drop_last() == st.table,
        inside.main_declared == st.main_declared,
        st.errors.len() <= inside.errors.len(),
        inside.errors.take(st.errors.len() as int) == st.errors,
        none_about_main(inside.errors, st.errors.len() as int),
        dc_reports_only(inside, after),
    ensures
        dc_reports_only(st, dc_exit(after)),
{
    assert(after.errors.take(st.errors.len() as int) =~= inside.errors.take(
        st.errors.len() as int,
    ));
    lemma_none_about_main_trans(st.errors, inside.errors, after.errors);
}

/// Walking an l-value leaves the bindings in scope as they were and only
/// adds to the errors.
pub proof fn lemma_check_lhs_reports_only(st: DcState, l: LhsView)
    requires
        st.table.len() >= 1,
    ensures
        dc_reports_only(st, check_lhs_spec(st, l)),
    decreases l, 0nat,
{
    match l {
        LhsView::Var { id } => {
            lemma_check_id_reports_only(st, id);
        },
        LhsView::Index { lhs, index } => {
            let st1 = check_lhs_spec(st, lhs.value);
            lemma_check_lhs_reports_only(st, lhs.value);
            lemma_check_expr_reports_only(st1, index.value);
            lemma_dc_trans(st, st1, check_expr_spec(st1, index.value));
        },
    }
}

/// Walking a list of expressions leaves the bindings in scope as they
/// were and only adds to the errors.
pub proof fn lemma_check_exprs_reports_only(st: DcState, exprs: Seq<SpannedView<ExprView>>, n: nat)
    requires
        st.table.len() >= 1,
    ensures
        dc_reports_only(st, check_exprs_spec(st, exprs, n)),
    decreases exprs, n,
{
    if n == 0 || n > exprs.len() {
        lemma_dc_refl(st);
    } else {
        let before = check_exprs_spec(st, exprs, (n - 1) as nat);
        lemma_check_exprs_reports_only(st, exprs, (n - 1) as nat);
        lemma_check_expr_reports_only(before, exprs[n - 1].value);
        lemma_dc_trans(st, before, check_exprs_spec(st, exprs, n));
    }
}

/// Walking an expression leaves the bindings in scope as they were and
/// only adds to the errors: every scope that the expression opens is
/// closed again.
pub proof fn lemma_check_expr_reports_only(st: DcState, e: ExprView)
    requires
        st.table.len() >= 1,
    ensures
        dc_reports_only(st, check_expr_spec(st, e)),
    decreases e, 0nat,
{
    lemma_dc_refl(st);
    match e {
        ExprView::Chain { lhs, rhs } => {
            let st1 = check_expr_spec(st, lhs.value);
            lemma_check_expr_reports_only(st, lhs.value);
            match lhs.value {
                ExprView::Let { id, ty, expr } => {
                    let entered = dc_enter(st1);
                    let inside = dc_bind(entered, id, ty.value);
                    lemma_dc_bind_inner(entered, id, ty.value);
                    assert(entered.table.drop_last() =~= st1.table);
                    let after = check_expr_spec(inside, rhs.value);
                    lemma_check_expr_reports_only(inside, rhs.value);
                    lemma_dc_scope_round_trip(st1, inside, after);
                    lemma_dc_trans(st, st1, dc_exit(after));
                },
                _ => {
                    lemma_check_expr_reports_only(st1, rhs.value);
                    lemma_dc_trans(st, st1, check_expr_spec(st1, rhs.value));
                },
            }
        },
        ExprView::Let { id, ty, expr } => {
            let st0 = check_reserved(st, id);
            lemma_check_reserved_reports_only(st, id);
            let entered = dc_enter(st0);
            assert(entered.table.drop_last() =~= st0.table);
            lemma_dc_refl(entered);
            let after = check_expr_spec(entered, expr.value);
            lemma_check_expr_reports_only(entered, expr.value);
            assert(entered.errors.take(st0.errors.len() as int) =~= st0.errors);
            lemma_dc_scope_round_trip(st0, entered, after);
            lemma_dc_trans(st, st0, dc_exit(after));
        },
        ExprView::SetLhs { lhs, expr } => {
            let st1 = check_lhs_spec(st, lhs.value);
            lemma_check_lhs_reports_only(st, lhs.value);
            lemma_check_expr_reports_only(st1, expr.value);
            lemma_dc_trans(st, st1, check_expr_spec(st1, expr.value));
        },
        ExprView::BinOp { lhs, op, rhs } => {
            let st1 = check_expr_spec(st, lhs.value);
            lemma_check_expr_reports_only(st, lhs.value);
            lemma_check_expr_reports_only(st1, rhs.value);
            lemma_dc_trans(st, st1, check_expr_spec(st1, rhs.value));
        },
        ExprView::Not { expr } => {
            lemma_check_expr_reports_only(st, expr.value);
        },
        ExprView::FunCall { id, args } => {
            let st1 = check_id_spec(st, id);
            lemma_check_id_reports_only(st, id);
            lemma_check_exprs_reports_only(st1, args, args.len());
            lemma_dc_trans(st, st1, check_exprs_spec(st1, args, args.len()));
        },
        ExprView::IfElse { cond, then, els } => {
            let st1 = check_expr_spec(st, cond.value);
            lemma_check_expr_reports_only(st, cond.value);
            let st2 = check_expr_spec(st1, then.value);
            lemma_check_expr_reports_only(st1, then.value);
            lemma_dc_trans(st, st1, st2);
            lemma_check_expr_reports_only(st2, els.value);
            lemma_dc_trans(st, st2, check_expr_spec(st2, els.value));
        },
        ExprView::While { cond, expr } => {
            let st1 = check_expr_spec(st, cond.value);
            lemma_check_expr_reports_only(st, cond.value);
            lemma_check_expr_reports_only(st1, expr.value);
            lemma_dc_trans(st, st1, check_expr_spec(st1, expr.value));
        },
        ExprView::NewArray { ty, size, init } => {
            let st1 = check_expr_spec(st, size.value);
            lemma_check_expr_reports_only(st, size.value);
            lemma_check_expr_reports_only(st1, init.value);
            lemma_dc_trans(st, st1, check_expr_spec(st1, init.value));
        },
        ExprView::ArrayIndex { lhs, index } => {
            let st1 = check_lhs_spec(st, lhs.value);
            lemma_check_lhs_reports_only(st, lhs.value);
            lemma_check_expr_reports_only(st1, index.value);
            lemma_dc_trans(st, st1, check_expr_spec(st1, index.value));
        },
        ExprView::Id(id) => {
            lemma_check_id_reports_only(st, id);
        },
        _ => {},
    }
}

} // verus!

verus! {

/// A reference to an identifier, with the bindings that are in scope at
/// the place where it stands.
pub struct Visit {
    pub id: SpannedView<Seq<char>>,
    pub table: TableView<SymbolView>,
}

/// The references in an l-value, in the order of the walk.
pub open spec fn lhs_visits(st: DcState, l: LhsView) -> Seq<Visit>
    decreases l, 0nat,
{
    match l {
        LhsView::Var { id } => seq![Visit { id, table: st.table }],
        LhsView::Index { lhs, index } => lhs_visits(st, lhs.value) + expr_visits(
            check_lhs_spec(st, lhs.value),
            index.value,
        ),
    }
}

/// The references in the first `n` expressions of a list, in the order of
/// the walk.
pub open spec fn exprs_visits(st: DcState, exprs: Seq<SpannedView<ExprView>>, n: nat) -> Seq<Visit>
    decreases exprs, n,
{
    if n == 0 || n > exprs.len() {
        Seq::empty()
    } else {
        exprs_visits(st, exprs, (n - 1) as nat) + expr_visits(
            check_exprs_spec(st, exprs, (n - 1) as nat),
            exprs[n - 1].value,
        )
    }
}

/// Every reference to an identifier in an expression, in the order of the
/// walk that starts in the state `st`, each with the bindings in scope at
/// its place.
pub open spec fn expr_visits(st: DcState, e: ExprView) -> Seq<Visit>
    decreases e, 0nat,
{
    match e {
        ExprView::Chain { lhs, rhs } => {
            let st1 = check_expr_spec(st, lhs.value);
            expr_visits(st, lhs.value) + match lhs.value {
                ExprView::Let { id, ty, expr } => expr_visits(
                    dc_bind(dc_enter(st1), id, ty.value),
                    rhs.value,
                ),
                _ => expr_visits(st1, rhs.value),
            }
        },
        ExprView::Let { id, ty, expr } => expr_visits(
            dc_enter(check_reserved(st, id)),
            expr.value,
        ),
        ExprView::SetLhs { lhs, expr } => lhs_visits(st, lhs.value) + expr_visits(
            check_lhs_spec(st, lhs.value),
            expr.value,
        ),
        ExprView::BinOp { lhs, op, rhs } => expr_visits(st, lhs.value) + expr_visits(
            check_expr_spec(st, lhs.value),
            rhs.value,
        ),
        ExprView::Not { expr } => expr_visits(st, expr.value),
        ExprView::FunCall { id, args } => seq![Visit { id, table: st.table }] + exprs_visits(
            check_id_spec(st, id),
            args,
            args.len(),
        ),
        ExprView::IfElse { cond, then, els } => {
            let st1 = check_expr_spec(st, cond.value);
            expr_visits(st, cond.value) + expr_visits(st1, then.value) + expr_visits(
                check_expr_spec(st1, then.value),
                els.value,
            )
        },
        ExprView::While { cond, expr } => expr_visits(st, cond.value) + expr_visits(
            check_expr_spec(st, cond.value),
            expr.value,
        ),
        ExprView::NewArray { ty, size, init } => expr_visits(st, size.value) + expr_visits(
            check_expr_spec(st, size.value),
            init.value,
        ),
        ExprView::ArrayIndex { lhs, index } => lhs_visits(st, lhs.value) + expr_visits(
            check_lhs_spec(st, lhs.value),
            index.value,
        ),
        ExprView::Id(id) => seq![Visit { id, table: st.table }],
        _ => Seq::empty(),
    }
}

/// The error that reports a reference as undeclared.
pub open spec fn undeclared_error(v: Visit) -> crate::diagnostics::errors::DeclarationErrorView {
    crate::diagnostics::errors::DeclarationErrorView {
        kind: DeclarationErrorKindView::UndeclaredIdentifier(
            v.id.value,
            crate::utils::suggestion(
                crate::semantic::declaration_checker::names_of(
                    crate::semantic::symbol_table::visible(v.table),
                ),
                v.id.value,
            ),
        ),
        span: v.id.span,
    }
}

/// Whether a reference is accounted for: it resolves at its place, or the
/// errors hold a report of it as undeclared.
pub open spec fn accounted(v: Visit, errors: Seq<crate::diagnostics::errors::DeclarationErrorView>) -> bool {
    crate::semantic::symbol_table::lookup_spec(v.table, v.id.value) is Some || errors.contains(
        undeclared_error(v),
    )
}

/// Whether every reference of a list is accounted for.
pub open spec fn all_accounted(
    visits: Seq<Visit>,
    errors: Seq<crate::diagnostics::errors::DeclarationErrorView>,
) -> bool {
    forall|i: int| 0 <= i < visits.len() ==> accounted(#[trigger] visits[i], errors)
}

proof fn lemma_accounted_later(visits: Seq<Visit>, before: DcState, after: DcState)
    requires
        all_accounted(visits, before.errors),
        before.errors.len() <= after.errors.len(),
        after.errors.take(before.errors.len() as int) == before.errors,
    ensures
        all_accounted(visits, after.errors),
{
    assert forall|i: int| 0 <= i < visits.len() implies accounted(
        #[trigger] visits[i],
        after.errors,
    ) by {
        let v = visits[i];
        if before.errors.contains(undeclared_error(v)) {
            let k = choose|k: int|
                0 <= k < before.errors.len() && before.errors[k] == undeclared_error(v);
            assert(after.errors.take(before.errors.len() as int)[k] == after.errors[k]);
        }
    }
}

proof fn lemma_accounted_both(
    first: Seq<Visit>,
    second: Seq<Visit>,
    errors: Seq<crate::diagnostics::errors::DeclarationErrorView>,
)
    requires
        all_accounted(first, errors),
        all_accounted(second, errors),
    ensures
        all_accounted(first + second, errors),
{
    assert forall|i: int| 0 <= i < (first + second).len() implies accounted(
        #[trigger] (first + second)[i],
        errors,
    ) by {
        if i < first.len() {
            assert((first + second)[i] == first[i]);
        } else {
            assert((first + second)[i] == second[i - first.len()]);
        }
    }
}

proof fn lemma_visit_accounted(st: DcState, id: SpannedView<Seq<char>>)
    ensures
        all_accounted(seq![Visit { id, table: st.table }], check_id_spec(st, id).errors),
{
    let v = Visit { id, table: st.table };
    if crate::semantic::symbol_table::lookup_spec(st.table, id.value) is None {
        let after = check_id_spec(st, id).errors;
        assert(after[after.len() - 1] == undeclared_error(v));
    }
}

/// Symbol-table soundness for an l-value.
pub proof fn lemma_lhs_references_accounted(st: DcState, l: LhsView)
    requires
        st.table.len() >= 1,
    ensures
        all_accounted(lhs_visits(st, l), check_lhs_spec(st, l).errors),
    decreases l, 0nat,
{
    match l {
        LhsView::Var { id } => {
            lemma_visit_accounted(st, id);
        },
        LhsView::Index { lhs, index } => {
            let st1 = check_lhs_spec(st, lhs.value);
            let st2 = check_expr_spec(st1, index.value);
            lemma_lhs_references_accounted(st, lhs.value);
            lemma_check_lhs_reports_only(st, lhs.value);
            lemma_references_accounted(st1, index.value);
            lemma_check_expr_reports_only(st1, index.value);
            lemma_accounted_later(lhs_visits(st, lhs.value), st1, st2);
            lemma_accounted_both(
                lhs_visits(st, lhs.value),
                expr_visits(st1, index.value),
                st2.errors,
            );
        },
    }
}

/// Symbol-table soundness for a list of expressions.
pub proof fn lemma_exprs_references_accounted(
    st: DcState,
    exprs: Seq<SpannedView<ExprView>>,
    n: nat,
)
    requires
        st.table.len() >= 1,
    ensures
        all_accounted(exprs_visits(st, exprs, n), check_exprs_spec(st, exprs, n).errors),
    decreases exprs, n,
{
    if n == 0 || n > exprs.len() {
    } else {
        let before = check_exprs_spec(st, exprs, (n - 1) as nat);
        let after = check_exprs_spec(st, exprs, n);
        lemma_exprs_references_accounted(st, exprs, (n - 1) as nat);
        lemma_check_exprs_reports_only(st, exprs, (n - 1) as nat);
        lemma_references_accounted(before, exprs[n - 1].value);
        lemma_check_expr_reports_only(before, exprs[n - 1].value);
        lemma_accounted_later(exprs_visits(st, exprs, (n - 1) as nat), before, after);
        lemma_accounted_both(
            exprs_visits(st, exprs, (n - 1) as nat),
            expr_visits(before, exprs[n - 1].value),
            after.errors,
        );
    }
}

/// The step of the soundness proof for two parts that are walked one
/// after the other.
proof fn lemma_two_parts(
    first: Seq<Visit>,
    second: Seq<Visit>,
    st1: DcState,
    st2: DcState,
)
    requires
        all_accounted(first, st1.errors),
        all_accounted(second, st2.errors),
        dc_reports_only(st1, st2),
    ensures
        all_accounted(first + second, st2.errors),
{
    lemma_accounted_later(first, st1, st2);
    lemma_accounted_both(first, second, st2.errors);
}

/// Symbol-table soundness: after an expression was walked, every
/// reference to an identifier in it either resolved at its place, or is
/// in the errors as an undeclared identifier.
pub proof fn lemma_references_accounted(st: DcState, e: ExprView)
    requires
        st.table.len() >= 1,
    ensures
        all_accounted(expr_visits(st, e), check_expr_spec(st, e).errors),
    decreases e, 0nat,
{
    match e {
        ExprView::Chain { lhs, rhs } => {
            let st1 = check_expr_spec(st, lhs.value);
            lemma_references_accounted(st, lhs.value);
            lemma_check_expr_reports_only(st, lhs.value);
            match lhs.value {
                ExprView::Let { id, ty, expr } => {
                    let entered = dc_enter(st1);
                    let inside = dc_bind(entered, id, ty.value);
                    lemma_dc_bind_inner(entered, id, ty.value);
                    let after = check_expr_spec(inside, rhs.value);
                    lemma_references_accounted(inside, rhs.value);
                    lemma_check_expr_reports_only(inside, rhs.value);
                    assert(entered.table.drop_last() =~= st1.table);
                    lemma_dc_scope_round_trip(st1, inside, after);
                    lemma_two_parts(
                        expr_visits(st, lhs.value),
                        expr_visits(inside, rhs.value),
                        st1,
                        dc_exit(after),
                    );
                },
                _ => {
                    lemma_references_accounted(st1, rhs.value);
                    lemma_check_expr_reports_only(st1, rhs.value);
                    lemma_two_parts(
                        expr_visits(st, lhs.value),
                        expr_visits(st1, rhs.value),
                        st1,
                        check_expr_spec(st1, rhs.value),
                    );
                },
            }
        },
        ExprView::Let { id, ty, expr } => {
            let entered = dc_enter(check_reserved(st, id));
            lemma_references_accounted(entered, expr.value);
        },
        ExprView::SetLhs { lhs, expr } => {
            let st1 = check_lhs_spec(st, lhs.value);
            lemma_lhs_references_accounted(st, lhs.value);
            lemma_check_lhs_reports_only(st, lhs.value);
            lemma_references_accounted(st1, expr.value);
            lemma_check_expr_reports_only(st1, expr.value);
            lemma_two_parts(
                lhs_visits(st, lhs.value),
                expr_visits(st1, expr.value),
                st1,
                check_expr_spec(st1, expr.value),
            );
        },
        ExprView::BinOp { lhs, op, rhs } => {
            let st1 = check_expr_spec(st, lhs.value);
            lemma_references_accounted(st, lhs.value);
            lemma_check_expr_reports_only(st, lhs.value);
            lemma_references_accounted(st1, rhs.value);
            lemma_check_expr_reports_only(st1, rhs.value);
            lemma_two_parts(
                expr_visits(st, lhs.value),
                expr_visits(st1, rhs.value),
                st1,
                check_expr_spec(st1, rhs.value),
            );
        },
        ExprView::Not { expr } => {
            lemma_references_accounted(st, expr.value);
        },
        ExprView::FunCall { id, args } => {
            let st1 = check_id_spec(st, id);
            lemma_visit_accounted(st, id);
            lemma_check_id_reports_only(st, id);
            lemma_exprs_references_accounted(st1, args, args.len());
            lemma_check_exprs_reports_only(st1, args, args.len());
            lemma_two_parts(
                seq![Visit { id, table: st.table }],
                exprs_visits(st1, args, args.len()),
                st1,
                check_exprs_spec(st1, args, args.len()),
            );
        },
        ExprView::IfElse { cond, then, els } => {
            let st1 = check_expr_spec(st, cond.value);
            let st2 = check_expr_spec(st1, then.value);
            let st3 = check_expr_spec(st2, els.value);
            lemma_references_accounted(st, cond.value);
            lemma_check_expr_reports_only(st, cond.value);
            lemma_references_accounted(st1, then.value);
            lemma_check_expr_reports_only(st1, then.value);
            lemma_references_accounted(st2, els.value);
            lemma_check_expr_reports_only(st2, els.value);
            lemma_two_parts(expr_visits(st, cond.value), expr_visits(st1, then.value), st1, st2);
            lemma_two_parts(
                expr_visits(st, cond.value) + expr_visits(st1, then.value),
                expr_visits(st2, els.value),
                st2,
                st3,
            );
        },
        ExprView::While { cond, expr } => {
            let st1 = check_expr_spec(st, cond.value);
            lemma_references_accounted(st, cond.value);
            lemma_check_expr_reports_only(st, cond.value);
            lemma_references_accounted(st1, expr.value);
            lemma_check_expr_reports_only(st1, expr.value);
            lemma_two_parts(
                expr_visits(st, cond.value),
                expr_visits(st1, expr.value),
                st1,
                check_expr_spec(st1, expr.value),
            );
        },
        ExprView::NewArray { ty, size, init } => {
            let st1 = check_expr_spec(st, size.value);
            lemma_references_accounted(st, size.value);
            lemma_check_expr_reports_only(st, size.value);
            lemma_references_accounted(st1, init.value);
            lemma_check_expr_reports_only(st1, init.value);
            lemma_two_parts(
                expr_visits(st, size.value),
                expr_visits(st1, init.value),
                st1,
                check_expr_spec(st1, init.value),
            );
        },
        ExprView::ArrayIndex { lhs, index } => {
            let st1 = check_lhs_spec(st, lhs.value);
            lemma_lhs_references_accounted(st, lhs.value);
            lemma_check_lhs_reports_only(st, lhs.value);
            lemma_references_accounted(st1, index.value);
            lemma_check_expr_reports_only(st1, index.value);
            lemma_two_parts(
                lhs_visits(st, lhs.value),
                expr_visits(st1, index.value),
                st1,
                check_expr_spec(st1, index.value),
            );
        },
        ExprView::Id(id) => {
            lemma_visit_accounted(st, id);
        },
        _ => {},
    }
}

} // verus!

verus! {

/// The identifiers that an l-value refers to, in the order in which they
/// are written.
pub open spec fn lhs_refs(l: LhsView) -> Seq<SpannedView<Seq<char>>>
    decreases l,
{
    match l {
        LhsView::Var { id } => seq![id],
        LhsView::Index { lhs, index } => lhs_refs(lhs.value) + expr_refs(index.value),
    }
}

/// The identifiers that the first `n` expressions of a list refer to.
pub open spec fn exprs_refs(exprs: Seq<SpannedView<ExprView>>, n: nat) -> Seq<SpannedView<Seq<char>>>
    decreases exprs, n,
{
    if n == 0 || n > exprs.len() {
        Seq::empty()
    } else {
        exprs_refs(exprs, (n - 1) as nat) + expr_refs(exprs[n - 1].value)
    }
}

/// The identifiers that an expression refers to, in the order in which
/// they are written: the names that are read, called, assigned to or
/// indexed. The names that a `let` declares are no references.
pub open spec fn expr_refs(e: ExprView) -> Seq<SpannedView<Seq<char>>>
    decreases e,
{
    match e {
        ExprView::Chain { lhs, rhs } => expr_refs(lhs.value) + expr_refs(rhs.value),
        ExprView::Let { id, ty, expr } => expr_refs(expr.value),
        ExprView::SetLhs { lhs, expr } => lhs_refs(lhs.value) + expr_refs(expr.value),
        ExprView::BinOp { lhs, op, rhs } => expr_refs(lhs.value) + expr_refs(rhs.value),
        ExprView::Not { expr } => expr_refs(expr.value),
        ExprView::FunCall { id, args } => seq![id] + exprs_refs(args, args.len()),
        ExprView::IfElse { cond, then, els } => expr_refs(cond.value) + expr_refs(then.value)
            + expr_refs(els.value),
        ExprView::While { cond, expr } => expr_refs(cond.value) + expr_refs(expr.value),
        ExprView::NewArray { ty, size, init } => expr_refs(size.value) + expr_refs(init.value),
        ExprView::ArrayIndex { lhs, index } => lhs_refs(lhs.value) + expr_refs(index.value),
        ExprView::Id(id) => seq![id],
        _ => Seq::empty(),
    }
}

/// The identifiers of a list of visits.
pub open spec fn visited_ids(visits: Seq<Visit>) -> Seq<SpannedView<Seq<char>>> {
    Seq::new(visits.len(), |i: int| visits[i].id)
}

proof fn lemma_visited_ids_concat(a: Seq<Visit>, b: Seq<Visit>)
    ensures
        visited_ids(a + b) == visited_ids(a) + visited_ids(b),
{
    assert(visited_ids(a + b) =~= visited_ids(a) + visited_ids(b));
}

proof fn lemma_visited_ids_one(v: Visit)
    ensures
        visited_ids(seq![v]) == seq![v.id],
{
    assert(visited_ids(seq![v]) =~= seq![v.id]);
}

proof fn lemma_visited_ids_none()
    ensures
        visited_ids(Seq::<Visit>::empty()) == Seq::<SpannedView<Seq<char>>>::empty(),
{
    assert(visited_ids(Seq::<Visit>::empty()) =~= Seq::<SpannedView<Seq<char>>>::empty());
}

/// The walk of an l-value visits every reference in it, once and in order.
pub proof fn lemma_lhs_visits_cover(st: DcState, l: LhsView)
    ensures
        visited_ids(lhs_visits(st, l)) == lhs_refs(l),
    decreases l, 0nat,
{
    match l {
        LhsView::Var { id } => {
            lemma_visited_ids_one(Visit { id, table: st.table });
        },
        LhsView::Index { lhs, index } => {
            lemma_lhs_visits_cover(st, lhs.value);
            lemma_visits_cover(check_lhs_spec(st, lhs.value), index.value);
            lemma_visited_ids_concat(
                lhs_visits(st, lhs.value),
                expr_visits(check_lhs_spec(st, lhs.value), index.value),
            );
        },
    }
}

/// The walk of a list of expressions visits every reference in it, once
/// and in order.
pub proof fn lemma_exprs_visits_cover(st: DcState, exprs: Seq<SpannedView<ExprView>>, n: nat)
    ensures
        visited_ids(exprs_visits(st, exprs, n)) == exprs_refs(exprs, n),
    decreases exprs, n,
{
    if n == 0 || n > exprs.len() {
        lemma_visited_ids_none();
    } else {
        lemma_exprs_visits_cover(st, exprs, (n - 1) as nat);
        lemma_visits_cover(check_exprs_spec(st, exprs, (n - 1) as nat), exprs[n - 1].value);
        lemma_visited_ids_concat(
            exprs_visits(st, exprs, (n - 1) as nat),
            expr_visits(check_exprs_spec(st, exprs, (n - 1) as nat), exprs[n - 1].value),
        );
    }
}

/// The walk of an expression visits every reference in it, once and in
/// the order in which they are written.
pub proof fn lemma_visits_cover(st: DcState, e: ExprView)
    ensures
        visited_ids(expr_visits(st, e)) == expr_refs(e),
    decreases e, 0nat,
{
    match e {
        ExprView::Chain { lhs, rhs } => {
            let st1 = check_expr_spec(st, lhs.value);
            lemma_visits_cover(st, lhs.value);
            match lhs.value {
                ExprView::Let { id, ty, expr } => {
                    let inside = dc_bind(dc_enter(st1), id, ty.value);
                    lemma_visits_cover(inside, rhs.value);
                    lemma_visited_ids_concat(
                        expr_visits(st, lhs.value),
                        expr_visits(inside, rhs.value),
                    );
                },
                _ => {
                    lemma_visits_cover(st1, rhs.value);
                    lemma_visited_ids_concat(
                        expr_visits(st, lhs.value),
                        expr_visits(st1, rhs.value),
                    );
                },
            }
        },
        ExprView::Let { id, ty, expr } => {
            lemma_visits_cover(dc_enter(check_reserved(st, id)), expr.value);
        },
        ExprView::SetLhs { lhs, expr } => {
            let st1 = check_lhs_spec(st, lhs.value);
            lemma_lhs_visits_cover(st, lhs.value);
            lemma_visits_cover(st1, expr.value);
            lemma_visited_ids_concat(lhs_visits(st, lhs.value), expr_visits(st1, expr.value));
        },
        ExprView::BinOp { lhs, op, rhs } => {
            let st1 = check_expr_spec(st, lhs.value);
            lemma_visits_cover(st, lhs.value);
            lemma_visits_cover(st1, rhs.value);
            lemma_visited_ids_concat(expr_visits(st, lhs.value), expr_visits(st1, rhs.value));
        },
        ExprView::Not { expr } => {
            lemma_visits_cover(st, expr.value);
        },
        ExprView::FunCall { id, args } => {
            let st1 = check_id_spec(st, id);
            lemma_visited_ids_one(Visit { id, table: st.table });
            lemma_exprs_visits_cover(st1, args, args.len());
            lemma_visited_ids_concat(
                seq![Visit { id, table: st.table }],
                exprs_visits(st1, args, args.len()),
            );
        },
        ExprView::IfElse { cond, then, els } => {
            let st1 = check_expr_spec(st, cond.value);
            let st2 = check_expr_spec(st1, then.value);
            lemma_visits_cover(st, cond.value);
            lemma_visits_cover(st1, then.value);
            lemma_visits_cover(st2, els.value);
            lemma_visited_ids_concat(expr_visits(st, cond.value), expr_visits(st1, then.value));
            lemma_visited_ids_concat(
                expr_visits(st, cond.value) + expr_visits(st1, then.value),
                expr_visits(st2, els.value),
            );
        },
        ExprView::While { cond, expr } => {
            let st1 = check_expr_spec(st, cond.value);
            lemma_visits_cover(st, cond.value);
            lemma_visits_cover(st1, expr.value);
            lemma_visited_ids_concat(expr_visits(st, cond.value), expr_visits(st1, expr.value));
        },
        ExprView::NewArray { ty, size, init } => {
            let st1 = check_expr_spec(st, size.value);
            lemma_visits_cover(st, size.value);
            lemma_visits_cover(st1, init.value);
            lemma_visited_ids_concat(expr_visits(st, size.value), expr_visits(st1, init.value));
        },
        ExprView::ArrayIndex { lhs, index } => {
            let st1 = check_lhs_spec(st, lhs.value);
            lemma_lhs_visits_cover(st, lhs.value);
            lemma_visits_cover(st1, index.value);
            lemma_visited_ids_concat(lhs_visits(st, lhs.value), expr_visits(st1, index.value));
        },
        ExprView::Id(id) => {
            lemma_visited_ids_one(Visit { id, table: st.table });
        },
        _ => {
            lemma_visited_ids_none();
        },
    }
}

} // verus!

verus! {

/// Whether the declaration checker's state `after` comes from `before` by
/// steps that keep the depth of the scopes and the knowledge of `main`,
/// and only add to the errors.
pub open spec fn dc_grows(before: DcState, after: DcState) -> bool {
    &&& after.table.len() == before.table.len()
    &&& after.main_declared == before.main_declared
    &&& before.errors.len() <= after.errors.len()
    &&& after.errors.take(before.errors.len() as int) == before.errors
    &&& none_about_main(after.errors, before.errors.len() as int)
}

proof fn lemma_dc_grows_trans(a: DcState, b: DcState, c: DcState)
    requires
        dc_grows(a, b),
        dc_grows(b, c),
    ensures
        dc_grows(a, c),
{
    assert(c.errors.take(a.errors.len() as int) =~= b.errors.take(a.errors.len() as int));
    lemma_none_about_main_trans(a.errors, b.errors, c.errors);
}

proof fn lemma_dc_declare_grows(st: DcState, id: SpannedView<Seq<char>>, ty: TypeView)
    requires
        st.table.len() >= 1,
    ensures
        dc_grows(st, dc_declare(st, id, ty)),
{
    let st1 = check_reserved(st, id);
    lemma_check_reserved_reports_only(st, id);
    lemma_dc_bind_inner(st1, id, ty);
    let st2 = dc_bind(st1, id, ty);
    assert(st2.errors.take(st.errors.len() as int) =~= st1.errors.take(st.errors.len() as int));
}

proof fn lemma_check_reserved_all_reports_only(
    st: DcState,
    ids: Seq<SpannedView<Seq<char>>>,
    n: nat,
)
    ensures
        dc_reports_only(st, check_reserved_all(st, ids, n)),
    decreases n,
{
    if n == 0 || n > ids.len() {
        lemma_dc_refl(st);
    } else {
        let before = check_reserved_all(st, ids, (n - 1) as nat);
        lemma_check_reserved_all_reports_only(st, ids, (n - 1) as nat);
        lemma_check_reserved_reports_only(before, ids[n - 1]);
        lemma_dc_trans(st, before, check_reserved_all(st, ids, n));
    }
}

proof fn lemma_dc_bind_params_inner(
    st: DcState,
    params: Seq<SpannedView<Seq<char>>>,
    types: Seq<TypeView>,
    n: nat,
)
    requires
        st.table.len() >= 1,
    ensures
        dc_bind_params(st, params, types, n).table.len() == st.table.len(),
        dc_bind_params(st, params, types, n).table.drop_last() == st.table.drop_last(),
        dc_bind_params(st, params, types, n).main_declared == st.main_declared,
        st.errors.len() <= dc_bind_params(st, params, types, n).errors.len(),
        dc_bind_params(st, params, types, n).errors.take(st.errors.len() as int) == st.errors,
        none_about_main(dc_bind_params(st, params, types, n).errors, st.errors.len() as int),
    decreases n,
{
    if n == 0 || n > params.len() || n > types.len() {
        lemma_dc_refl(st);
    } else {
        let before = dc_bind_params(st, params, types, (n - 1) as nat);
        lemma_dc_bind_params_inner(st, params, types, (n - 1) as nat);
        lemma_dc_bind_inner(before, params[n - 1], types[n - 1]);
        let after = dc_bind(before, params[n - 1], types[n - 1]);
        assert(after.errors.take(st.errors.len() as int) =~= before.errors.take(
            st.errors.len() as int,
        ));
        lemma_none_about_main_trans(st.errors, before.errors, after.errors);
    }
}

/// The state in which the body of a declaration is walked.
pub open spec fn body_state(st: DcState, d: DeclView) -> DcState {
    match d {
        DeclView::Var { id, ty, expr } => dc_enter(st),
        DeclView::Fun { id, params, ty, expr } => dc_bind_params(
            dc_enter(st),
            params,
            ty.value->Fun_0,
            min_len(params.len(), ty.value->Fun_0.len()),
        ),
    }
}

/// The body of a declaration.
pub open spec fn body_of(d: DeclView) -> ExprView {
    match d {
        DeclView::Var { id, ty, expr } => expr.value,
        DeclView::Fun { id, params, ty, expr } => expr.value,
    }
}

proof fn lemma_dc_check_decl_grows(st: DcState, d: DeclView)
    requires
        st.table.len() >= 1,
    ensures
        dc_grows(st, dc_check_decl_spec(st, d)),
        all_accounted(expr_visits(body_state(st, d), body_of(d)), dc_check_decl_spec(st, d).errors),
{
    let inside = body_state(st, d);
    let entered = dc_enter(st);
    assert(entered.table.drop_last() =~= st.table);
    lemma_dc_refl(entered);
    match d {
        DeclView::Var { id, ty, expr } => {
            let after = check_expr_spec(inside, expr.value);
            lemma_check_expr_reports_only(inside, expr.value);
            lemma_references_accounted(inside, expr.value);
            assert(entered.errors.take(st.errors.len() as int) =~= st.errors);
            lemma_dc_scope_round_trip(st, inside, after);
            let closed = dc_exit(after);
            lemma_dc_declare_grows(closed, id, ty.value);
            let last = dc_declare(closed, id, ty.value);
            lemma_dc_grows_trans(st, closed, last);
            assert forall|i: int|
                0 <= i < expr_visits(inside, expr.value).len() implies accounted(
                #[trigger] expr_visits(inside, expr.value)[i],
                last.errors,
            ) by {
                let v = expr_visits(inside, expr.value)[i];
                if after.errors.contains(undeclared_error(v)) {
                    let k = choose|k: int|
                        0 <= k < after.errors.len() && after.errors[k] == undeclared_error(v);
                    assert(last.errors.take(closed.errors.len() as int)[k] == last.errors[k]);
                }
            }
        },
        DeclView::Fun { id, params, ty, expr } => {
            let types = ty.value->Fun_0;
            lemma_dc_bind_params_inner(entered, params, types, min_len(params.len(), types.len()));
            let after = check_expr_spec(inside, expr.value);
            lemma_check_expr_reports_only(inside, expr.value);
            lemma_references_accounted(inside, expr.value);
            lemma_dc_scope_round_trip(st, inside, after);
        },
    }
}

/// The references in the bodies of the first `n` declarations, in the
/// order of the walk.
pub open spec fn decls_visits(st: DcState, decls: Seq<SpannedView<DeclView>>, n: nat) -> Seq<Visit>
    decreases n,
{
    if n == 0 || n > decls.len() {
        Seq::empty()
    } else {
        let before = dc_check_decls_spec(st, decls, (n - 1) as nat);
        decls_visits(st, decls, (n - 1) as nat) + expr_visits(
            body_state(before, decls[n - 1].value),
            body_of(decls[n - 1].value),
        )
    }
}

proof fn lemma_dc_check_decls_grows(st: DcState, decls: Seq<SpannedView<DeclView>>, n: nat)
    requires
        st.table.len() >= 1,
    ensures
        dc_grows(st, dc_check_decls_spec(st, decls, n)),
        all_accounted(decls_visits(st, decls, n), dc_check_decls_spec(st, decls, n).errors),
    decreases n,
{
    if n == 0 || n > decls.len() {
        lemma_dc_refl(st);
    } else {
        let before = dc_check_decls_spec(st, decls, (n - 1) as nat);
        let after = dc_check_decls_spec(st, decls, n);
        lemma_dc_check_decls_grows(st, decls, (n - 1) as nat);
        lemma_dc_check_decl_grows(before, decls[n - 1].value);
        lemma_dc_grows_trans(st, before, after);
        let first = decls_visits(st, decls, (n - 1) as nat);
        assert forall|i: int| 0 <= i < first.len() implies accounted(
            #[trigger] first[i],
            after.errors,
        ) by {
            let v = first[i];
            if before.errors.contains(undeclared_error(v)) {
                let k = choose|k: int|
                    0 <= k < before.errors.len() && before.errors[k] == undeclared_error(v);
                assert(after.errors.take(before.errors.len() as int)[k] == after.errors[k]);
            }
        }
        lemma_accounted_both(
            first,
            expr_visits(body_state(before, decls[n - 1].value), body_of(decls[n - 1].value)),
            after.errors,
        );
    }
}

/// Whether the declaration at index `i` declares a function `main`.
pub open spec fn is_main_at(prog: Seq<SpannedView<DeclView>>, i: int) -> bool {
    0 <= i < prog.len() && (prog[i].value matches DeclView::Fun { id, .. } && id.value == "main"@)
}

/// Whether one of the first `n` declarations declares `main`.
pub open spec fn has_main(prog: Seq<SpannedView<DeclView>>, n: nat) -> bool {
    exists|i: int| 0 <= i < n && is_main_at(prog, i)
}

/// Whether two of the first `n` declarations declare `main`.
pub open spec fn two_mains(prog: Seq<SpannedView<DeclView>>, n: nat) -> bool {
    exists|i: int, j: int| 0 <= i < j < n && is_main_at(prog, i) && is_main_at(prog, j)
}

proof fn lemma_declare_fun_grows(st: DcState, d: DeclView)
    requires
        st.table.len() >= 1,
    ensures
        declare_fun_spec(st, d).table.len() == st.table.len(),
        st.errors.len() <= declare_fun_spec(st, d).errors.len(),
        declare_fun_spec(st, d).errors.take(st.errors.len() as int) == st.errors,
        declare_fun_spec(st, d).main_declared == (st.main_declared || (d matches DeclView::Fun {
            id,
            ..
        } && id.value == "main"@)),
        st.main_declared && (d matches DeclView::Fun { id, .. } && id.value == "main"@)
            ==> declare_fun_spec(st, d).errors.len() > st.errors.len(),
{
    lemma_dc_refl(st);
    match d {
        DeclView::Var { .. } => {},
        DeclView::Fun { id, params, ty, expr } => {
            let types = ty.value->Fun_0;
            let st1 = if params.len() != types.len() {
                dc_report(
                    st,
                    DeclarationErrorKindView::FunctionSignatureMismatch {
                        params_found: params.len() as usize,
                        types_found: types.len() as usize,
                    },
                    id.span,
                )
            } else {
                st
            };
            lemma_dc_report(
                st,
                DeclarationErrorKindView::FunctionSignatureMismatch {
                    params_found: params.len() as usize,
                    types_found: types.len() as usize,
                },
                id.span,
            );
            assert(dc_report(st1, DeclarationErrorKindView::DuplicateMain, id.span).errors.take(
                st1.errors.len() as int,
            ) =~= st1.errors);
            lemma_dc_declare_grows(st1, id, ty.value);
            let declared = dc_declare(st1, id, ty.value);
            let st2 = if id.value == "main"@ {
                if st1.main_declared {
                    dc_report(st1, DeclarationErrorKindView::DuplicateMain, id.span)
                } else {
                    DcState { main_declared: true, ..declared }
                }
            } else {
                declared
            };
            lemma_check_reserved_all_reports_only(st2, params, params.len());
            let st3 = check_reserved_all(st2, params, params.len());
            assert(st2.errors.take(st.errors.len() as int) =~= st.errors) by {
                assert(st2.errors.take(st.errors.len() as int) =~= st2.errors.take(
                    st1.errors.len() as int,
                ).take(st.errors.len() as int));
            }
            assert(st3.errors.take(st.errors.len() as int) =~= st2.errors.take(
                st.errors.len() as int,
            ));
        },
    }
}

proof fn lemma_declare_funs_main(st: DcState, prog: Seq<SpannedView<DeclView>>, n: nat)
    requires
        st.table.len() >= 1,
        !st.main_declared,
        n <= prog.len(),
    ensures
        declare_funs_spec(st, prog, n).table.len() == st.table.len(),
        st.errors.len() <= declare_funs_spec(st, prog, n).errors.len(),
        declare_funs_spec(st, prog, n).main_declared == has_main(prog, n),
        two_mains(prog, n) ==> declare_funs_spec(st, prog, n).errors.len() > st.errors.len(),
    decreases n,
{
    if n == 0 {
    } else {
        let before = declare_funs_spec(st, prog, (n - 1) as nat);
        lemma_declare_funs_main(st, prog, (n - 1) as nat);
        lemma_declare_fun_grows(before, prog[n - 1].value);
        if has_main(prog, (n - 1) as nat) {
            let i = choose|i: int| 0 <= i < n - 1 && is_main_at(prog, i);
            assert(is_main_at(prog, i));
        }
        if is_main_at(prog, n - 1) {
            assert(has_main(prog, n));
        }
        if has_main(prog, n) && !is_main_at(prog, n - 1) {
            let i = choose|i: int| 0 <= i < n && is_main_at(prog, i);
            assert(0 <= i < n - 1 && is_main_at(prog, i));
        }
        if two_mains(prog, n) {
            let (i, j) = choose|i: int, j: int|
                0 <= i < j < n && is_main_at(prog, i) && is_main_at(prog, j);
            if j < n - 1 {
                assert(two_mains(prog, (n - 1) as nat));
            } else {
                assert(0 <= i < n - 1 && is_main_at(prog, i));
                assert(has_main(prog, (n - 1) as nat));
            }
        }
    }
}

/// Whether the declaration at index `j` declares a function `main`
/// behind another one.
pub open spec fn is_later_main(prog: Seq<SpannedView<DeclView>>, j: int) -> bool {
    is_main_at(prog, j) && has_main(prog, j as nat)
}

/// The error that reports a second `main`: it stands at the name that the
/// declaration writes.
pub open spec fn duplicate_main(d: DeclView) -> crate::diagnostics::errors::DeclarationErrorView {
    crate::diagnostics::errors::DeclarationErrorView {
        kind: DeclarationErrorKindView::DuplicateMain,
        span: d->Fun_id.span,
    }
}

/// The error that reports that a program has no `main`.
pub open spec fn missing_main() -> crate::diagnostics::errors::DeclarationErrorView {
    crate::diagnostics::errors::DeclarationErrorView {
        kind: DeclarationErrorKindView::MissingMain,
        span: crate::syntax::ast::Span { start: 0, end: 0 },
    }
}

proof fn lemma_declare_fun_main_errors(st: DcState, d: DeclView)
    requires
        st.table.len() >= 1,
    ensures
        st.main_declared && (d matches DeclView::Fun { id, .. } && id.value == "main"@)
            ==> declare_fun_spec(st, d).errors.contains(duplicate_main(d)),
        forall|k: int|
            st.errors.len() <= k < declare_fun_spec(st, d).errors.len() && about_main(
                (#[trigger] declare_fun_spec(st, d).errors[k]).kind,
            ) ==> st.main_declared && (d matches DeclView::Fun { id, .. } && id.value == "main"@)
                && declare_fun_spec(st, d).errors[k] == duplicate_main(d),
{
    lemma_dc_refl(st);
    match d {
        DeclView::Var { .. } => {},
        DeclView::Fun { id, params, ty, expr } => {
            let types = ty.value->Fun_0;
            let mismatch = DeclarationErrorKindView::FunctionSignatureMismatch {
                params_found: params.len() as usize,
                types_found: types.len() as usize,
            };
            let st1 = if params.len() != types.len() {
                dc_report(st, mismatch, id.span)
            } else {
                st
            };
            lemma_dc_report(st, mismatch, id.span);
            lemma_dc_declare_grows(st1, id, ty.value);
            let declared = dc_declare(st1, id, ty.value);
            let st2 = if id.value == "main"@ {
                if st1.main_declared {
                    dc_report(st1, DeclarationErrorKindView::DuplicateMain, id.span)
                } else {
                    DcState { main_declared: true, ..declared }
                }
            } else {
                declared
            };
            lemma_check_reserved_all_reports_only(st2, params, params.len());
            let st3 = check_reserved_all(st2, params, params.len());
            assert(st2.errors.take(st1.errors.len() as int) =~= st1.errors);
            if st.main_declared && id.value == "main"@ {
                assert(st2.errors[st1.errors.len() as int] == duplicate_main(d));
                assert(st3.errors.take(st2.errors.len() as int)[st1.errors.len() as int]
                    == st3.errors[st1.errors.len() as int]);
            }
            assert forall|k: int|
                st.errors.len() <= k < st3.errors.len() && about_main(
                    (#[trigger] st3.errors[k]).kind,
                ) implies st.main_declared && id.value == "main"@ && st3.errors[k]
                == duplicate_main(d) by {
                if k < st2.errors.len() {
                    assert(st3.errors.take(st2.errors.len() as int)[k] == st3.errors[k]);
                    if k < st1.errors.len() {
                        assert(st2.errors.take(st1.errors.len() as int)[k] == st2.errors[k]);
                    }
                }
            }
        },
    }
}

proof fn lemma_declare_funs_main_errors(st: DcState, prog: Seq<SpannedView<DeclView>>, n: nat)
    requires
        st.table.len() >= 1,
        !st.main_declared,
        n <= prog.len(),
    ensures
        st.errors.len() <= declare_funs_spec(st, prog, n).errors.len(),
        declare_funs_spec(st, prog, n).errors.take(st.errors.len() as int) == st.errors,
        forall|j: int|
            0 <= j < n && #[trigger] is_later_main(prog, j) ==> declare_funs_spec(
                st,
                prog,
                n,
            ).errors.contains(duplicate_main(prog[j].value)),
        forall|k: int|
            st.errors.len() <= k < declare_funs_spec(st, prog, n).errors.len() && about_main(
                (#[trigger] declare_funs_spec(st, prog, n).errors[k]).kind,
            ) ==> exists|j: int|
                0 <= j < n && #[trigger] is_later_main(prog, j) && declare_funs_spec(
                    st,
                    prog,
                    n,
                ).errors[k] == duplicate_main(prog[j].value),
    decreases n,
{
    if n == 0 {
        assert(st.errors.take(st.errors.len() as int) =~= st.errors);
    } else {
        let before = declare_funs_spec(st, prog, (n - 1) as nat);
        let after = declare_funs_spec(st, prog, n);
        let d = prog[n - 1].value;
        lemma_declare_funs_main_errors(st, prog, (n - 1) as nat);
        lemma_declare_funs_main(st, prog, (n - 1) as nat);
        lemma_declare_fun_grows(before, d);
        lemma_declare_fun_main_errors(before, d);
        assert(after.errors.take(st.errors.len() as int) =~= before.errors.take(
            st.errors.len() as int,
        )) by {
            assert(after.errors.take(before.errors.len() as int).take(st.errors.len() as int)
                =~= after.errors.take(st.errors.len() as int));
        }
        assert forall|j: int| 0 <= j < n && #[trigger] is_later_main(prog, j) implies after
            .errors.contains(duplicate_main(prog[j].value)) by {
            if j < n - 1 {
                let at = choose|at: int|
                    0 <= at < before.errors.len() && before.errors[at] == duplicate_main(
                        prog[j].value,
                    );
                assert(after.errors.take(before.errors.len() as int)[at] == after.errors[at]);
            }
        }
        assert forall|k: int|
            st.errors.len() <= k < after.errors.len() && about_main(
                (#[trigger] after.errors[k]).kind,
            ) implies exists|j: int|
            0 <= j < n && #[trigger] is_later_main(prog, j) && after.errors[k] == duplicate_main(
                prog[j].value,
            ) by {
            if k < before.errors.len() {
                assert(after.errors.take(before.errors.len() as int)[k] == after.errors[k]);
                let j = choose|j: int|
                    0 <= j < n - 1 && #[trigger] is_later_main(prog, j) && before.errors[k]
                        == duplicate_main(prog[j].value);
                assert(0 <= j < n && is_later_main(prog, j) && after.errors[k] == duplicate_main(
                    prog[j].value,
                ));
            } else {
                assert(is_later_main(prog, n - 1));
            }
        }
    }
}

/// Every function `main` behind the first one is reported as a second
/// `main` at its name, and nothing else is reported so.
pub proof fn lemma_duplicate_mains(prog: Seq<SpannedView<DeclView>>)
    ensures
        forall|j: int|
            0 <= j < prog.len() && #[trigger] is_later_main(prog, j) ==> dc_check_program_from(
                dc_initial_state(),
                prog,
            ).errors.contains(duplicate_main(prog[j].value)),
        forall|k: int|
            0 <= k < dc_check_program_from(dc_initial_state(), prog).errors.len() && (
            #[trigger] dc_check_program_from(dc_initial_state(), prog).errors[k]).kind
                is DuplicateMain ==> exists|j: int|
                0 <= j < prog.len() && #[trigger] is_later_main(prog, j) && dc_check_program_from(
                    dc_initial_state(),
                    prog,
                ).errors[k] == duplicate_main(prog[j].value),
{
    let st0 = dc_initial_state();
    let st1 = declare_funs_spec(st0, prog, prog.len());
    lemma_declare_funs_main(st0, prog, prog.len());
    lemma_declare_funs_main_errors(st0, prog, prog.len());
    let st2 = dc_check_decls_spec(st1, prog, prog.len());
    lemma_dc_check_decls_grows(st1, prog, prog.len());
    let last = dc_check_program_from(st0, prog);
    assert(last.errors.take(st2.errors.len() as int) =~= st2.errors);
    assert forall|j: int| 0 <= j < prog.len() && #[trigger] is_later_main(prog, j) implies last
        .errors.contains(duplicate_main(prog[j].value)) by {
        let at = choose|at: int|
            0 <= at < st1.errors.len() && st1.errors[at] == duplicate_main(prog[j].value);
        assert(st2.errors.take(st1.errors.len() as int)[at] == st2.errors[at]);
        assert(last.errors.take(st2.errors.len() as int)[at] == last.errors[at]);
    }
    assert forall|k: int|
        0 <= k < last.errors.len() && (#[trigger] last.errors[k]).kind
            is DuplicateMain implies exists|j: int|
        0 <= j < prog.len() && #[trigger] is_later_main(prog, j) && last.errors[k]
            == duplicate_main(prog[j].value) by {
        if k < st2.errors.len() {
            assert(last.errors.take(st2.errors.len() as int)[k] == last.errors[k]);
            if k < st1.errors.len() {
                assert(st2.errors.take(st1.errors.len() as int)[k] == st2.errors[k]);
            }
        }
    }
}

/// A program without a function `main` is reported as missing its `main`,
/// once, by the last error; a program with a `main` is not.
pub proof fn lemma_missing_main(prog: Seq<SpannedView<DeclView>>)
    ensures
        !has_main(prog, prog.len()) ==> dc_check_program_from(
            dc_initial_state(),
            prog,
        ).errors.len() > 0 && dc_check_program_from(dc_initial_state(), prog).errors.last()
            == missing_main(),
        forall|k: int|
            0 <= k < dc_check_program_from(dc_initial_state(), prog).errors.len() && (
            #[trigger] dc_check_program_from(dc_initial_state(), prog).errors[k]).kind
                is MissingMain ==> !has_main(prog, prog.len()) && k == dc_check_program_from(
                dc_initial_state(),
                prog,
            ).errors.len() - 1,
{
    let st0 = dc_initial_state();
    let st1 = declare_funs_spec(st0, prog, prog.len());
    lemma_declare_funs_main(st0, prog, prog.len());
    lemma_declare_funs_main_errors(st0, prog, prog.len());
    let st2 = dc_check_decls_spec(st1, prog, prog.len());
    lemma_dc_check_decls_grows(st1, prog, prog.len());
    let last = dc_check_program_from(st0, prog);
    assert(last.errors.take(st2.errors.len() as int) =~= st2.errors);
    assert forall|k: int|
        0 <= k < last.errors.len() && (#[trigger] last.errors[k]).kind
            is MissingMain implies !has_main(prog, prog.len()) && k == last.errors.len() - 1 by {
        if k < st2.errors.len() {
            assert(last.errors.take(st2.errors.len() as int)[k] == last.errors[k]);
            if k < st1.errors.len() {
                assert(st2.errors.take(st1.errors.len() as int)[k] == st2.errors[k]);
                assert(about_main(st1.errors[k].kind));
            } else {
                assert(about_main(st2.errors[k].kind));
            }
        }
    }
}

/// Every reference to an identifier in the bodies of a program, in the
/// order of the walk, each with the bindings in scope at its place.
pub open spec fn program_visits(prog: Seq<SpannedView<DeclView>>) -> Seq<Visit> {
    decls_visits(declare_funs_spec(dc_initial_state(), prog, prog.len()), prog, prog.len())
}

/// Symbol-table soundness: after the declarations of a program were
/// checked, every reference to an identifier in it either resolved at its
/// place, or is in the errors as an undeclared identifier.
pub proof fn lemma_program_references_accounted(prog: Seq<SpannedView<DeclView>>)
    ensures
        all_accounted(
            program_visits(prog),
            dc_check_program_from(dc_initial_state(), prog).errors,
        ),
{
    let st0 = dc_initial_state();
    let st1 = declare_funs_spec(st0, prog, prog.len());
    lemma_declare_funs_main(st0, prog, prog.len());
    let st2 = dc_check_decls_spec(st1, prog, prog.len());
    lemma_dc_check_decls_grows(st1, prog, prog.len());
    let last = dc_check_program_from(st0, prog);
    lemma_dc_refl(dc_lookup(st2, "main"@));
    lemma_dc_refl(st2);
    assert(last.errors.take(st2.errors.len() as int) =~= st2.errors);
    lemma_accounted_later(program_visits(prog), st2, last);
}

} // verus!

verus! {

/// A list of errors of the declaration checker.
pub type Reports = Seq<crate::diagnostics::errors::DeclarationErrorView>;

/// Whether a reference does not resolve at its place.
pub open spec fn unresolved(v: Visit) -> bool {
    crate::semantic::symbol_table::lookup_spec(v.table, v.id.value) is None
}

/// Whether every report of an undeclared identifier among the errors from
/// the index `from` on is the report of a reference of the list that does
/// not resolve at its place.
pub open spec fn traced(visits: Seq<Visit>, errors: Reports, from: int) -> bool {
    forall|k: int|
        from <= k < errors.len() && (#[trigger] errors[k]).kind is UndeclaredIdentifier
            ==> exists|i: int|
            0 <= i < visits.len() && unresolved(#[trigger] visits[i]) && errors[k]
                == undeclared_error(visits[i])
}

/// Whether none of the errors from the index `from` on reports an
/// undeclared identifier.
pub open spec fn none_undeclared(errors: Reports, from: int) -> bool {
    forall|k: int|
        from <= k < errors.len() ==> !((#[trigger] errors[k]).kind is UndeclaredIdentifier)
}

proof fn lemma_traced_parts(
    first: Seq<Visit>,
    second: Seq<Visit>,
    a: Reports,
    b: Reports,
    c: Reports,
)
    requires
        a.len() <= b.len() <= c.len(),
        c.take(b.len() as int) == b,
        traced(first, b, a.len() as int),
        traced(second, c, b.len() as int),
    ensures
        traced(first + second, c, a.len() as int),
{
    let all = first + second;
    assert forall|k: int|
        a.len() <= k < c.len() && (#[trigger] c[k]).kind is UndeclaredIdentifier implies exists|
        i: int,
    |
        0 <= i < all.len() && unresolved(#[trigger] all[i]) && c[k] == undeclared_error(all[i]) by {
        if k < b.len() {
            assert(c.take(b.len() as int)[k] == c[k]);
            let i = choose|i: int|
                0 <= i < first.len() && unresolved(#[trigger] first[i]) && b[k]
                    == undeclared_error(first[i]);
            assert(all[i] == first[i]);
            assert(unresolved(all[i]) && c[k] == undeclared_error(all[i]));
        } else {
            let j = choose|j: int|
                0 <= j < second.len() && unresolved(#[trigger] second[j]) && c[k]
                    == undeclared_error(second[j]);
            assert(all[first.len() + j] == second[j]);
            assert(unresolved(all[first.len() + j]) && c[k] == undeclared_error(
                all[first.len() + j],
            ));
        }
    }
}

proof fn lemma_traced_behind_gap(visits: Seq<Visit>, a: Reports, b: Reports, c: Reports)
    requires
        a.len() <= b.len() <= c.len(),
        c.take(b.len() as int) == b,
        none_undeclared(b, a.len() as int),
        traced(visits, c, b.len() as int),
    ensures
        traced(visits, c, a.len() as int),
{
    assert forall|k: int|
        a.len() <= k < c.len() && (#[trigger] c[k]).kind is UndeclaredIdentifier implies exists|
        i: int,
    |
        0 <= i < visits.len() && unresolved(#[trigger] visits[i]) && c[k] == undeclared_error(
            visits[i],
        ) by {
        if k < b.len() {
            assert(c.take(b.len() as int)[k] == c[k]);
            assert(!(b[k].kind is UndeclaredIdentifier));
        }
    }
}

proof fn lemma_traced_before_gap(visits: Seq<Visit>, a: Reports, b: Reports, c: Reports)
    requires
        a.len() <= b.len() <= c.len(),
        c.take(b.len() as int) == b,
        traced(visits, b, a.len() as int),
        none_undeclared(c, b.len() as int),
    ensures
        traced(visits, c, a.len() as int),
{
    assert forall|k: int|
        a.len() <= k < c.len() && (#[trigger] c[k]).kind is UndeclaredIdentifier implies exists|
        i: int,
    |
        0 <= i < visits.len() && unresolved(#[trigger] visits[i]) && c[k] == undeclared_error(
            visits[i],
        ) by {
        if k < b.len() {
            assert(c.take(b.len() as int)[k] == c[k]);
        }
    }
}

proof fn lemma_none_undeclared_trans(a: Reports, b: Reports, c: Reports)
    requires
        a.len() <= b.len() <= c.len(),
        c.take(b.len() as int) == b,
        none_undeclared(b, a.len() as int),
        none_undeclared(c, b.len() as int),
    ensures
        none_undeclared(c, a.len() as int),
{
    assert forall|k: int| a.len() <= k < c.len() implies !((#[trigger] c[k]).kind
        is UndeclaredIdentifier) by {
        if k < b.len() {
            assert(c.take(b.len() as int)[k] == c[k]);
            assert(!(b[k].kind is UndeclaredIdentifier));
        }
    }
}

proof fn lemma_traced_two(
    first: Seq<Visit>,
    second: Seq<Visit>,
    st: DcState,
    st1: DcState,
    st2: DcState,
)
    requires
        traced(first, st1.errors, st.errors.len() as int),
        traced(second, st2.errors, st1.errors.len() as int),
        dc_reports_only(st, st1),
        dc_reports_only(st1, st2),
    ensures
        traced(first + second, st2.errors, st.errors.len() as int),
{
    lemma_traced_parts(first, second, st.errors, st1.errors, st2.errors);
}

proof fn lemma_id_traced(st: DcState, id: SpannedView<Seq<char>>)
    ensures
        traced(
            seq![Visit { id, table: st.table }],
            check_id_spec(st, id).errors,
            st.errors.len() as int,
        ),
{
    let v = Visit { id, table: st.table };
    let visits = seq![v];
    let after = check_id_spec(st, id).errors;
    assert forall|k: int|
        st.errors.len() <= k < after.len() && (#[trigger] after[k]).kind
            is UndeclaredIdentifier implies exists|i: int|
        0 <= i < visits.len() && unresolved(#[trigger] visits[i]) && after[k] == undeclared_error(
            visits[i],
        ) by {
        assert(unresolved(visits[0]) && after[k] == undeclared_error(visits[0]));
    }
}

proof fn lemma_reserved_none(st: DcState, id: SpannedView<Seq<char>>)
    ensures
        none_undeclared(check_reserved(st, id).errors, st.errors.len() as int),
{
}

proof fn lemma_bind_none(st: DcState, id: SpannedView<Seq<char>>, ty: TypeView)
    ensures
        none_undeclared(dc_bind(st, id, ty).errors, st.errors.len() as int),
{
}

proof fn lemma_declare_none(st: DcState, id: SpannedView<Seq<char>>, ty: TypeView)
    requires
        st.table.len() >= 1,
    ensures
        none_undeclared(dc_declare(st, id, ty).errors, st.errors.len() as int),
{
    let st1 = check_reserved(st, id);
    lemma_reserved_none(st, id);
    lemma_check_reserved_reports_only(st, id);
    lemma_bind_none(st1, id, ty);
    lemma_dc_bind_inner(st1, id, ty);
    lemma_none_undeclared_trans(st.errors, st1.errors, dc_bind(st1, id, ty).errors);
}

proof fn lemma_reserved_all_none(st: DcState, ids: Seq<SpannedView<Seq<char>>>, n: nat)
    ensures
        none_undeclared(check_reserved_all(st, ids, n).errors, st.errors.len() as int),
    decreases n,
{
    if n == 0 || n > ids.len() {
    } else {
        let before = check_reserved_all(st, ids, (n - 1) as nat);
        lemma_reserved_all_none(st, ids, (n - 1) as nat);
        lemma_check_reserved_all_reports_only(st, ids, (n - 1) as nat);
        lemma_reserved_none(before, ids[n - 1]);
        lemma_check_reserved_reports_only(before, ids[n - 1]);
        lemma_none_undeclared_trans(
            st.errors,
            before.errors,
            check_reserved_all(st, ids, n).errors,
        );
    }
}

proof fn lemma_bind_params_none(
    st: DcState,
    params: Seq<SpannedView<Seq<char>>>,
    types: Seq<TypeView>,
    n: nat,
)
    requires
        st.table.len() >= 1,
    ensures
        none_undeclared(dc_bind_params(st, params, types, n).errors, st.errors.len() as int),
    decreases n,
{
    if n == 0 || n > params.len() || n > types.len() {
    } else {
        let before = dc_bind_params(st, params, types, (n - 1) as nat);
        lemma_bind_params_none(st, params, types, (n - 1) as nat);
        lemma_dc_bind_params_inner(st, params, types, (n - 1) as nat);
        lemma_bind_none(before, params[n - 1], types[n - 1]);
        lemma_dc_bind_inner(before, params[n - 1], types[n - 1]);
        lemma_none_undeclared_trans(
            st.errors,
            before.errors,
            dc_bind(before, params[n - 1], types[n - 1]).errors,
        );
    }
}

/// Every report of an undeclared identifier that walking an l-value
/// adds is the report of a reference in it that does not resolve.
pub proof fn lemma_lhs_reports_traced(st: DcState, l: LhsView)
    requires
        st.table.len() >= 1,
    ensures
        traced(lhs_visits(st, l), check_lhs_spec(st, l).errors, st.errors.len() as int),
    decreases l, 0nat,
{
    match l {
        LhsView::Var { id } => {
            lemma_id_traced(st, id);
        },
        LhsView::Index { lhs, index } => {
            let st1 = check_lhs_spec(st, lhs.value);
            let st2 = check_expr_spec(st1, index.value);
            lemma_lhs_reports_traced(st, lhs.value);
            lemma_check_lhs_reports_only(st, lhs.value);
            lemma_reports_traced(st1, index.value);
            lemma_check_expr_reports_only(st1, index.value);
            lemma_traced_two(
                lhs_visits(st, lhs.value),
                expr_visits(st1, index.value),
                st,
                st1,
                st2,
            );
        },
    }
}

/// Every report of an undeclared identifier that walking a list of
/// expressions adds is the report of a reference in it that does not
/// resolve.
pub proof fn lemma_exprs_reports_traced(st: DcState, exprs: Seq<SpannedView<ExprView>>, n: nat)
    requires
        st.table.len() >= 1,
    ensures
        traced(
            exprs_visits(st, exprs, n),
            check_exprs_spec(st, exprs, n).errors,
            st.errors.len() as int,
        ),
    decreases exprs, n,
{
    if n == 0 || n > exprs.len() {
    } else {
        let before = check_exprs_spec(st, exprs, (n - 1) as nat);
        let after = check_exprs_spec(st, exprs, n);
        lemma_exprs_reports_traced(st, exprs, (n - 1) as nat);
        lemma_check_exprs_reports_only(st, exprs, (n - 1) as nat);
        lemma_reports_traced(before, exprs[n - 1].value);
        lemma_check_expr_reports_only(before, exprs[n - 1].value);
        lemma_traced_two(
            exprs_visits(st, exprs, (n - 1) as nat),
            expr_visits(before, exprs[n - 1].value),
            st,
            before,
            after,
        );
    }
}

/// No bound reference is reported: every report of an undeclared
/// identifier that walking an expression adds is the report of a reference
/// in it that does not resolve at its place.
pub proof fn lemma_reports_traced(st: DcState, e: ExprView)
    requires
        st.table.len() >= 1,
    ensures
        traced(expr_visits(st, e), check_expr_spec(st, e).errors, st.errors.len() as int),
    decreases e, 0nat,
{
    match e {
        ExprView::Chain { lhs, rhs } => {
            let st1 = check_expr_spec(st, lhs.value);
            lemma_reports_traced(st, lhs.value);
            lemma_check_expr_reports_only(st, lhs.value);
            match lhs.value {
                ExprView::Let { id, ty, expr } => {
                    let entered = dc_enter(st1);
                    let inside = dc_bind(entered, id, ty.value);
                    lemma_dc_bind_inner(entered, id, ty.value);
                    lemma_bind_none(entered, id, ty.value);
                    let after = check_expr_spec(inside, rhs.value);
                    lemma_reports_traced(inside, rhs.value);
                    lemma_check_expr_reports_only(inside, rhs.value);
                    assert(entered.table.drop_last() =~= st1.table);
                    lemma_dc_scope_round_trip(st1, inside, after);
                    lemma_traced_behind_gap(
                        expr_visits(inside, rhs.value),
                        st1.errors,
                        inside.errors,
                        after.errors,
                    );
                    lemma_traced_two(
                        expr_visits(st, lhs.value),
                        expr_visits(inside, rhs.value),
                        st,
                        st1,
                        dc_exit(after),
                    );
                },
                _ => {
                    lemma_reports_traced(st1, rhs.value);
                    lemma_check_expr_reports_only(st1, rhs.value);
                    lemma_traced_two(
                        expr_visits(st, lhs.value),
                        expr_visits(st1, rhs.value),
                        st,
                        st1,
                        check_expr_spec(st1, rhs.value),
                    );
                },
            }
        },
        ExprView::Let { id, ty, expr } => {
            let checked = check_reserved(st, id);
            let entered = dc_enter(checked);
            let after = check_expr_spec(entered, expr.value);
            lemma_reserved_none(st, id);
            lemma_check_reserved_reports_only(st, id);
            lemma_reports_traced(entered, expr.value);
            lemma_check_expr_reports_only(entered, expr.value);
            lemma_traced_behind_gap(
                expr_visits(entered, expr.value),
                st.errors,
                checked.errors,
                after.errors,
            );
        },
        ExprView::SetLhs { lhs, expr } => {
            let st1 = check_lhs_spec(st, lhs.value);
            lemma_lhs_reports_traced(st, lhs.value);
            lemma_check_lhs_reports_only(st, lhs.value);
            lemma_reports_traced(st1, expr.value);
            lemma_check_expr_reports_only(st1, expr.value);
            lemma_traced_two(
                lhs_visits(st, lhs.value),
                expr_visits(st1, expr.value),
                st,
                st1,
                check_expr_spec(st1, expr.value),
            );
        },
        ExprView::BinOp { lhs, op, rhs } => {
            let st1 = check_expr_spec(st, lhs.value);
            lemma_reports_traced(st, lhs.value);
            lemma_check_expr_reports_only(st, lhs.value);
            lemma_reports_traced(st1, rhs.value);
            lemma_check_expr_reports_only(st1, rhs.value);
            lemma_traced_two(
                expr_visits(st, lhs.value),
                expr_visits(st1, rhs.value),
                st,
                st1,
                check_expr_spec(st1, rhs.value),
            );
        },
        ExprView::Not { expr } => {
            lemma_reports_traced(st, expr.value);
        },
        ExprView::FunCall { id, args } => {
            let st1 = check_id_spec(st, id);
            lemma_id_traced(st, id);
            lemma_check_id_reports_only(st, id);
            lemma_exprs_reports_traced(st1, args, args.len());
            lemma_check_exprs_reports_only(st1, args, args.len());
            lemma_traced_two(
                seq![Visit { id, table: st.table }],
                exprs_visits(st1, args, args.len()),
                st,
                st1,
                check_exprs_spec(st1, args, args.len()),
            );
        },
        ExprView::IfElse { cond, then, els } => {
            let st1 = check_expr_spec(st, cond.value);
            let st2 = check_expr_spec(st1, then.value);
            let st3 = check_expr_spec(st2, els.value);
            lemma_reports_traced(st, cond.value);
            lemma_check_expr_reports_only(st, cond.value);
            lemma_reports_traced(st1, then.value);
            lemma_check_expr_reports_only(st1, then.value);
            lemma_reports_traced(st2, els.value);
            lemma_check_expr_reports_only(st2, els.value);
            lemma_traced_two(
                expr_visits(st, cond.value),
                expr_visits(st1, then.value),
                st,
                st1,
                st2,
            );
            lemma_dc_trans(st, st1, st2);
            lemma_traced_two(
                expr_visits(st, cond.value) + expr_visits(st1, then.value),
                expr_visits(st2, els.value),
                st,
                st2,
                st3,
            );
        },
        ExprView::While { cond, expr } => {
            let st1 = check_expr_spec(st, cond.value);
            lemma_reports_traced(st, cond.value);
            lemma_check_expr_reports_only(st, cond.value);
            lemma_reports_traced(st1, expr.value);
            lemma_check_expr_reports_only(st1, expr.value);
            lemma_traced_two(
                expr_visits(st, cond.value),
                expr_visits(st1, expr.value),
                st,
                st1,
                check_expr_spec(st1, expr.value),
            );
        },
        ExprView::NewArray { ty, size, init } => {
            let st1 = check_expr_spec(st, size.value);
            lemma_reports_traced(st, size.value);
            lemma_check_expr_reports_only(st, size.value);
            lemma_reports_traced(st1, init.value);
            lemma_check_expr_reports_only(st1, init.value);
            lemma_traced_two(
                expr_visits(st, size.value),
                expr_visits(st1, init.value),
                st,
                st1,
                check_expr_spec(st1, init.value),
            );
        },
        ExprView::ArrayIndex { lhs, index } => {
            let st1 = check_lhs_spec(st, lhs.value);
            lemma_lhs_reports_traced(st, lhs.value);
            lemma_check_lhs_reports_only(st, lhs.value);
            lemma_reports_traced(st1, index.value);
            lemma_check_expr_reports_only(st1, index.value);
            lemma_traced_two(
                lhs_visits(st, lhs.value),
                expr_visits(st1, index.value),
                st,
                st1,
                check_expr_spec(st1, index.value),
            );
        },
        ExprView::Id(id) => {
            lemma_id_traced(st, id);
        },
        _ => {},
    }
}

proof fn lemma_decl_reports_traced(st: DcState, d: DeclView)
    requires
        st.table.len() >= 1,
    ensures
        traced(
            expr_visits(body_state(st, d), body_of(d)),
            dc_check_decl_spec(st, d).errors,
            st.errors.len() as int,
        ),
{
    let inside = body_state(st, d);
    let entered = dc_enter(st);
    let visits = expr_visits(inside, body_of(d));
    match d {
        DeclView::Var { id, ty, expr } => {
            let after = check_expr_spec(inside, expr.value);
            lemma_reports_traced(inside, expr.value);
            lemma_check_expr_reports_only(inside, expr.value);
            let closed = dc_exit(after);
            lemma_declare_none(closed, id, ty.value);
            lemma_dc_declare_grows(closed, id, ty.value);
            lemma_traced_before_gap(
                visits,
                st.errors,
                after.errors,
                dc_declare(closed, id, ty.value).errors,
            );
        },
        DeclView::Fun { id, params, ty, expr } => {
            let types = ty.value->Fun_0;
            let n = min_len(params.len(), types.len());
            lemma_dc_bind_params_inner(entered, params, types, n);
            lemma_bind_params_none(entered, params, types, n);
            let after = check_expr_spec(inside, expr.value);
            lemma_reports_traced(inside, expr.value);
            lemma_check_expr_reports_only(inside, expr.value);
            lemma_traced_behind_gap(visits, st.errors, inside.errors, after.errors);
        },
    }
}

proof fn lemma_decls_reports_traced(st: DcState, decls: Seq<SpannedView<DeclView>>, n: nat)
    requires
        st.table.len() >= 1,
    ensures
        traced(
            decls_visits(st, decls, n),
            dc_check_decls_spec(st, decls, n).errors,
            st.errors.len() as int,
        ),
    decreases n,
{
    if n == 0 || n > decls.len() {
    } else {
        let before = dc_check_decls_spec(st, decls, (n - 1) as nat);
        let after = dc_check_decls_spec(st, decls, n);
        lemma_decls_reports_traced(st, decls, (n - 1) as nat);
        lemma_dc_check_decls_grows(st, decls, (n - 1) as nat);
        lemma_decl_reports_traced(before, decls[n - 1].value);
        lemma_dc_check_decl_grows(before, decls[n - 1].value);
        lemma_traced_parts(
            decls_visits(st, decls, (n - 1) as nat),
            expr_visits(body_state(before, decls[n - 1].value), body_of(decls[n - 1].value)),
            st.errors,
            before.errors,
            after.errors,
        );
    }
}

proof fn lemma_declare_fun_none(st: DcState, d: DeclView)
    requires
        st.table.len() >= 1,
    ensures
        none_undeclared(declare_fun_spec(st, d).errors, st.errors.len() as int),
{
    match d {
        DeclView::Var { .. } => {},
        DeclView::Fun { id, params, ty, expr } => {
            let types = ty.value->Fun_0;
            let st1 = if params.len() != types.len() {
                dc_report(
                    st,
                    DeclarationErrorKindView::FunctionSignatureMismatch {
                        params_found: params.len() as usize,
                        types_found: types.len() as usize,
                    },
                    id.span,
                )
            } else {
                st
            };
            assert(st1.errors.take(st.errors.len() as int) =~= st.errors);
            lemma_declare_none(st1, id, ty.value);
            lemma_dc_declare_grows(st1, id, ty.value);
            let declared = dc_declare(st1, id, ty.value);
            let st2 = if id.value == "main"@ {
                if st1.main_declared {
                    dc_report(st1, DeclarationErrorKindView::DuplicateMain, id.span)
                } else {
                    DcState { main_declared: true, ..declared }
                }
            } else {
                declared
            };
            assert(st2.errors.take(st1.errors.len() as int) =~= st1.errors);
            lemma_none_undeclared_trans(st.errors, st1.errors, st2.errors);
            lemma_reserved_all_none(st2, params, params.len());
            lemma_check_reserved_all_reports_only(st2, params, params.len());
            lemma_none_undeclared_trans(
                st.errors,
                st2.errors,
                check_reserved_all(st2, params, params.len()).errors,
            );
        },
    }
}

proof fn lemma_declare_funs_none(st: DcState, prog: Seq<SpannedView<DeclView>>, n: nat)
    requires
        st.table.len() >= 1,
        n <= prog.len(),
    ensures
        declare_funs_spec(st, prog, n).table.len() == st.table.len(),
        st.errors.len() <= declare_funs_spec(st, prog, n).errors.len(),
        declare_funs_spec(st, prog, n).errors.take(st.errors.len() as int) == st.errors,
        none_undeclared(declare_funs_spec(st, prog, n).errors, st.errors.len() as int),
    decreases n,
{
    if n == 0 {
        assert(st.errors.take(st.errors.len() as int) =~= st.errors);
    } else {
        let before = declare_funs_spec(st, prog, (n - 1) as nat);
        let after = declare_funs_spec(st, prog, n);
        lemma_declare_funs_none(st, prog, (n - 1) as nat);
        lemma_declare_fun_grows(before, prog[n - 1].value);
        lemma_declare_fun_none(before, prog[n - 1].value);
        assert(after.errors.take(st.errors.len() as int) =~= before.errors.take(
            st.errors.len() as int,
        )) by {
            assert(after.errors.take(before.errors.len() as int).take(st.errors.len() as int)
                =~= after.errors.take(st.errors.len() as int));
        }
        lemma_none_undeclared_trans(st.errors, before.errors, after.errors);
    }
}

/// No bound reference is reported: after the declarations of a program
/// were checked, every report of an undeclared identifier is the report
/// of a reference in the program that does not resolve at its place.
pub proof fn lemma_program_reports_traced(prog: Seq<SpannedView<DeclView>>)
    ensures
        traced(program_visits(prog), dc_check_program_from(dc_initial_state(), prog).errors, 0),
{
    let st0 = dc_initial_state();
    let st1 = declare_funs_spec(st0, prog, prog.len());
    lemma_declare_funs_none(st0, prog, prog.len());
    let st2 = dc_check_decls_spec(st1, prog, prog.len());
    lemma_dc_check_decls_grows(st1, prog, prog.len());
    lemma_decls_reports_traced(st1, prog, prog.len());
    let last = dc_check_program_from(st0, prog);
    assert(last.errors.take(st2.errors.len() as int) =~= st2.errors);
    lemma_traced_behind_gap(program_visits(prog), st0.errors, st1.errors, st2.errors);
    lemma_traced_before_gap(program_visits(prog), st0.errors, st2.errors, last.errors);
}

} // verus!

verus! {

proof fn lemma_bind_params_inner(
    table: TableView<SymbolView>,
    params: Seq<SpannedView<Seq<char>>>,
    types: Seq<TypeView>,
    n: nat,
)
    requires
        table.len() >= 1,
    ensures
        bind_params(table, params, types, n).len() == table.len(),
        bind_params(table, params, types, n).drop_last() == table.drop_last(),
    decreases n,
{
    if n == 0 || n > params.len() || n > types.len() {
    } else {
        lemma_bind_params_inner(table, params, types, (n - 1) as nat);
        lemma_bind_in_inner(
            bind_params(table, params, types, (n - 1) as nat),
            params[n - 1],
            types[n - 1],
        );
    }
}

proof fn lemma_hoist_keeps_depth(
    table: TableView<SymbolView>,
    decls: Seq<SpannedView<DeclView>>,
    n: nat,
)
    requires
        table.len() >= 1,
    ensures
        hoist_spec(table, decls, n).len() == table.len(),
    decreases n,
{
    if n == 0 || n > decls.len() {
    } else {
        lemma_hoist_keeps_depth(table, decls, (n - 1) as nat);
        match decls[n - 1].value {
            DeclView::Fun { id, params, ty, expr } => {
                lemma_bind_in_inner(hoist_spec(table, decls, (n - 1) as nat), id, ty.value);
            },
            DeclView::Var { .. } => {},
        }
    }
}

/// Whether the declaration is a `main` whose type is not the one that
/// `main` must have.
pub open spec fn is_bad_main(d: DeclView) -> bool {
    d matches DeclView::Fun { id, params, ty, expr } && id.value == "main"@ && !is_main_signature(
        ty.value,
    )
}

proof fn lemma_check_decl_main(st: TcState, d: DeclView)
    requires
        st.table.len() >= 1,
    ensures
        check_decl_spec(st, d).table.len() == st.table.len(),
        st.errors.len() <= check_decl_spec(st, d).errors.len(),
        is_bad_main(d) ==> st.errors.len() < check_decl_spec(st, d).errors.len(),
{
    match d {
        DeclView::Var { id, ty, expr } => {
            let inner = check_against_spec(enter(st), expr, ty.value);
            lemma_check_against_reports_only(enter(st), expr, ty.value);
            assert(exit(inner).table =~= st.table);
            lemma_bind_in_inner(exit(inner).table, id, ty.value);
        },
        DeclView::Fun { id, params, ty, expr } => {
            let types = ty.value->Fun_0;
            let inner = TcState {
                table: bind_params(
                    enter(st).table,
                    params,
                    types,
                    min_len(params.len(), types.len()),
                ),
                errors: st.errors,
            };
            lemma_bind_params_inner(
                enter(st).table,
                params,
                types,
                min_len(params.len(), types.len()),
            );
            let after = check_against_spec(inner, expr, *ty.value->Fun_1);
            lemma_check_against_reports_only(inner, expr, *ty.value->Fun_1);
            assert(enter(st).table.drop_last() =~= st.table);
        },
    }
}

proof fn lemma_check_decls_main(st: TcState, prog: Seq<SpannedView<DeclView>>, n: nat)
    requires
        st.table.len() >= 1,
        n <= prog.len(),
    ensures
        check_decls_spec(st, prog, n).table.len() == st.table.len(),
        st.errors.len() <= check_decls_spec(st, prog, n).errors.len(),
        (exists|i: int| 0 <= i < n && is_bad_main(prog[i].value)) ==> st.errors.len()
            < check_decls_spec(st, prog, n).errors.len(),
    decreases n,
{
    if n == 0 {
    } else {
        let before = check_decls_spec(st, prog, (n - 1) as nat);
        lemma_check_decls_main(st, prog, (n - 1) as nat);
        lemma_check_decl_main(before, prog[n - 1].value);
        if exists|i: int| 0 <= i < n && is_bad_main(prog[i].value) {
            let i = choose|i: int| 0 <= i < n && is_bad_main(prog[i].value);
            if i < n - 1 {
                assert(exists|i: int| 0 <= i < n - 1 && is_bad_main(prog[i].value));
            }
        }
    }
}

/// The error that reports a `main` of another type than `main` must have:
/// it stands at the type that the declaration writes.
pub open spec fn main_mismatch(d: DeclView) -> crate::diagnostics::errors::TypeErrorView {
    crate::diagnostics::errors::TypeErrorView {
        kind: TypeErrorKindView::MainSignatureMismatch,
        span: d->Fun_ty.span,
    }
}

proof fn lemma_check_decl_errors(st: TcState, d: DeclView)
    requires
        st.table.len() >= 1,
    ensures
        check_decl_spec(st, d).table.len() == st.table.len(),
        st.errors.len() <= check_decl_spec(st, d).errors.len(),
        check_decl_spec(st, d).errors.take(st.errors.len() as int) == st.errors,
        is_bad_main(d) ==> check_decl_spec(st, d).errors.len() > st.errors.len()
            && check_decl_spec(st, d).errors.last() == main_mismatch(d),
        forall|k: int|
            st.errors.len() <= k < check_decl_spec(st, d).errors.len() && (
            #[trigger] check_decl_spec(st, d).errors[k]).kind is MainSignatureMismatch
                ==> is_bad_main(d) && check_decl_spec(st, d).errors[k] == main_mismatch(d),
{
    lemma_check_decl_main(st, d);
    match d {
        DeclView::Var { id, ty, expr } => {
            let inner = check_against_spec(enter(st), expr, ty.value);
            lemma_check_against_reports_only(enter(st), expr, ty.value);
        },
        DeclView::Fun { id, params, ty, expr } => {
            let types = ty.value->Fun_0;
            let inner = TcState {
                table: bind_params(
                    enter(st).table,
                    params,
                    types,
                    min_len(params.len(), types.len()),
                ),
                errors: st.errors,
            };
            lemma_bind_params_inner(
                enter(st).table,
                params,
                types,
                min_len(params.len(), types.len()),
            );
            let after = check_against_spec(inner, expr, *ty.value->Fun_1);
            lemma_check_against_reports_only(inner, expr, *ty.value->Fun_1);
            let st1 = exit(after);
            if id.value == "main"@ && !is_main_signature(ty.value) {
                let last = report(st1, TypeErrorKindView::MainSignatureMismatch, ty.span);
                lemma_push_take(st1.errors, main_mismatch(d));
                assert(last.errors.take(st.errors.len() as int) =~= st1.errors.take(
                    st.errors.len() as int,
                ));
                assert forall|k: int|
                    st.errors.len() <= k < last.errors.len() && (#[trigger] last.errors[k]).kind
                        is MainSignatureMismatch implies last.errors[k] == main_mismatch(d) by {
                    if k < st1.errors.len() {
                        assert(last.errors[k] == st1.errors[k]);
                    }
                }
            }
        },
    }
}

proof fn lemma_check_decls_errors(st: TcState, prog: Seq<SpannedView<DeclView>>, n: nat)
    requires
        st.table.len() >= 1,
        n <= prog.len(),
    ensures
        check_decls_spec(st, prog, n).table.len() == st.table.len(),
        st.errors.len() <= check_decls_spec(st, prog, n).errors.len(),
        check_decls_spec(st, prog, n).errors.take(st.errors.len() as int) == st.errors,
        forall|i: int|
            0 <= i < n && is_bad_main(#[trigger] prog[i].value) ==> check_decls_spec(
                st,
                prog,
                n,
            ).errors.contains(main_mismatch(prog[i].value)),
        forall|k: int|
            st.errors.len() <= k < check_decls_spec(st, prog, n).errors.len() && (
            #[trigger] check_decls_spec(st, prog, n).errors[k]).kind is MainSignatureMismatch
                ==> exists|i: int|
                0 <= i < n && is_bad_main(#[trigger] prog[i].value) && check_decls_spec(
                    st,
                    prog,
                    n,
                ).errors[k] == main_mismatch(prog[i].value),
    decreases n,
{
    if n == 0 {
        assert(st.errors.take(st.errors.len() as int) =~= st.errors);
    } else {
        let before = check_decls_spec(st, prog, (n - 1) as nat);
        let after = check_decls_spec(st, prog, n);
        let d = prog[n - 1].value;
        lemma_check_decls_errors(st, prog, (n - 1) as nat);
        lemma_check_decl_errors(before, d);
        assert(after.errors.take(st.errors.len() as int) =~= before.errors.take(
            st.errors.len() as int,
        )) by {
            assert(after.errors.take(before.errors.len() as int).take(st.errors.len() as int)
                =~= after.errors.take(st.errors.len() as int));
        }
        assert forall|i: int| 0 <= i < n && is_bad_main(#[trigger] prog[i].value) implies after
            .errors.contains(main_mismatch(prog[i].value)) by {
            if i < n - 1 {
                let at = choose|at: int|
                    0 <= at < before.errors.len() && before.errors[at] == main_mismatch(
                        prog[i].value,
                    );
                assert(after.errors.take(before.errors.len() as int)[at] == after.errors[at]);
            } else {
                assert(after.errors[after.errors.len() - 1] == main_mismatch(d));
            }
        }
        assert forall|k: int|
            st.errors.len() <= k < after.errors.len() && (#[trigger] after.errors[k]).kind
                is MainSignatureMismatch implies exists|i: int|
            0 <= i < n && is_bad_main(#[trigger] prog[i].value) && after.errors[k]
                == main_mismatch(prog[i].value) by {
            if k < before.errors.len() {
                assert(after.errors.take(before.errors.len() as int)[k] == after.errors[k]);
                let i = choose|i: int|
                    0 <= i < n - 1 && is_bad_main(#[trigger] prog[i].value) && before.errors[k]
                        == main_mismatch(prog[i].value);
                assert(0 <= i < n && is_bad_main(prog[i].value) && after.errors[k]
                    == main_mismatch(prog[i].value));
            } else {
                assert(is_bad_main(prog[n - 1].value) && after.errors[k] == main_mismatch(
                    prog[n - 1].value,
                ));
            }
        }
    }
}

/// A `main` of another type than `(Unit) -> Unit` is reported: the type
/// errors of the program hold a mismatch of `main`'s signature at the type
/// that the declaration writes.
pub proof fn lemma_bad_main_reported(prog: Seq<SpannedView<DeclView>>, i: int)
    requires
        0 <= i < prog.len(),
        is_bad_main(prog[i].value),
    ensures
        type_errors(prog).contains(main_mismatch(prog[i].value)),
{
    let tc0 = initial_state();
    let hoisted = TcState {
        table: hoist_spec(tc0.table, prog, prog.len()),
        errors: tc0.errors,
    };
    lemma_hoist_keeps_depth(tc0.table, prog, prog.len());
    lemma_check_decls_errors(hoisted, prog, prog.len());
}

/// Nothing but a `main` of another type than `(Unit) -> Unit` is reported
/// as a mismatch of `main`'s signature: each such error stands at the type
/// of such a `main`. So a program whose `main` has the right type has no
/// such error.
pub proof fn lemma_mismatch_means_bad_main(prog: Seq<SpannedView<DeclView>>, k: int)
    requires
        0 <= k < type_errors(prog).len(),
        type_errors(prog)[k].kind is MainSignatureMismatch,
    ensures
        exists|i: int|
            0 <= i < prog.len() && is_bad_main(#[trigger] prog[i].value) && type_errors(prog)[k]
                == main_mismatch(prog[i].value),
{
    let tc0 = initial_state();
    let hoisted = TcState {
        table: hoist_spec(tc0.table, prog, prog.len()),
        errors: tc0.errors,
    };
    lemma_hoist_keeps_depth(tc0.table, prog, prog.len());
    lemma_check_decls_errors(hoisted, prog, prog.len());
}

/// `main` validity: a program that passes the declaration checker and the
/// type checker without an error declares exactly one function `main`, and
/// its type is `(Unit) -> Unit`.
pub proof fn lemma_main_validity(prog: Seq<SpannedView<DeclView>>)
    requires
        dc_check_program_from(dc_initial_state(), prog).errors.len() == 0,
        type_errors(prog).len() == 0,
    ensures
        exists|i: int|
            #![auto]
            is_main_at(prog, i) && is_main_signature(prog[i].value->Fun_ty.value) && forall|j: int|
                is_main_at(prog, j) ==> j == i,
{
    let st0 = dc_initial_state();
    let st1 = declare_funs_spec(st0, prog, prog.len());
    lemma_declare_funs_main(st0, prog, prog.len());
    let st2 = dc_check_decls_spec(st1, prog, prog.len());
    lemma_dc_check_decls_grows(st1, prog, prog.len());
    assert(st2.main_declared);
    assert(has_main(prog, prog.len()));
    let i = choose|i: int| 0 <= i < prog.len() && is_main_at(prog, i);
    assert forall|j: int| is_main_at(prog, j) implies j == i by {
        if j < i {
            assert(two_mains(prog, prog.len()));
        } else if i < j {
            assert(two_mains(prog, prog.len()));
        }
    }
    let tc0 = initial_state();
    let hoisted = TcState {
        table: hoist_spec(tc0.table, prog, prog.len()),
        errors: tc0.errors,
    };
    lemma_hoist_keeps_depth(tc0.table, prog, prog.len());
    lemma_check_decls_main(hoisted, prog, prog.len());
    if !is_main_signature(prog[i].value->Fun_ty.value) {
        assert(is_bad_main(prog[i].value));
    }
}

} // verus!

verus! {

/// The state in which the type checker checks the body of a declaration:
/// a new scope, which holds the parameters of a function.
pub open spec fn typing_state(st: TcState, d: DeclView) -> TcState {
    match d {
        DeclView::Var { id, ty, expr } => enter(st),
        DeclView::Fun { id, params, ty, expr } => TcState {
            table: bind_params(
                enter(st).table,
                params,
                ty.value->Fun_0,
                min_len(params.len(), ty.value->Fun_0.len()),
            ),
            errors: st.errors,
        },
    }
}

/// The body of a declaration with its span.
pub open spec fn typed_body(d: DeclView) -> SpannedView<ExprView> {
    match d {
        DeclView::Var { id, ty, expr } => expr,
        DeclView::Fun { id, params, ty, expr } => expr,
    }
}

/// The type that the body of a declaration is checked against: the type
/// of a variable, the result type of a function.
pub open spec fn body_type(d: DeclView) -> TypeView {
    match d {
        DeclView::Var { id, ty, expr } => ty.value,
        DeclView::Fun { id, params, ty, expr } => *ty.value->Fun_1,
    }
}

/// Whether every type that a declaration writes down, in its own type and
/// in its body, can be spelled in a source text, and a function has the
/// type of a function.
pub open spec fn decl_annotations_ok(d: DeclView) -> bool {
    match d {
        DeclView::Var { id, ty, expr } => source_type(ty.value) && annotations_ok(expr.value),
        DeclView::Fun { id, params, ty, expr } => ty.value is Fun && (forall|i: int|
            0 <= i < ty.value->Fun_0.len() ==> source_type(#[trigger] ty.value->Fun_0[i]))
            && source_type(*ty.value->Fun_1) && annotations_ok(expr.value),
    }
}

/// Whether every name that checking the bodies of the first `n`
/// declarations looks up is bound at the place where it is looked up.
pub open spec fn bodies_resolve(st: TcState, prog: Seq<SpannedView<DeclView>>, n: nat) -> bool
    decreases n,
{
    if n == 0 || n > prog.len() {
        true
    } else {
        let before = check_decls_spec(st, prog, (n - 1) as nat);
        let d = prog[n - 1].value;
        bodies_resolve(st, prog, (n - 1) as nat) && check_resolves(
            typing_state(before, d),
            typed_body(d),
            body_type(d),
        )
    }
}

/// Whether every part of the bodies of the first `n` declarations has a
/// type that is concrete.
pub open spec fn bodies_typed(st: TcState, prog: Seq<SpannedView<DeclView>>, n: nat) -> bool
    decreases n,
{
    if n == 0 || n > prog.len() {
        true
    } else {
        let before = check_decls_spec(st, prog, (n - 1) as nat);
        let d = prog[n - 1].value;
        bodies_typed(st, prog, (n - 1) as nat) && check_parts_typed(
            typing_state(before, d),
            typed_body(d),
            body_type(d),
        )
    }
}

proof fn lemma_bind_params_keeps_ok(
    table: TableView<SymbolView>,
    params: Seq<SpannedView<Seq<char>>>,
    types: Seq<TypeView>,
    n: nat,
)
    requires
        table.len() >= 1,
        table_ok(table),
        forall|i: int| 0 <= i < types.len() ==> source_type(#[trigger] types[i]),
    ensures
        table_ok(bind_params(table, params, types, n)),
    decreases n,
{
    if n == 0 || n > params.len() || n > types.len() {
    } else {
        lemma_bind_params_keeps_ok(table, params, types, (n - 1) as nat);
        lemma_bind_params_inner(table, params, types, (n - 1) as nat);
        lemma_bind_keeps_ok(
            bind_params(table, params, types, (n - 1) as nat),
            params[n - 1],
            types[n - 1],
        );
    }
}

proof fn lemma_hoist_keeps_ok(
    table: TableView<SymbolView>,
    prog: Seq<SpannedView<DeclView>>,
    n: nat,
)
    requires
        table.len() >= 1,
        table_ok(table),
        forall|i: int| 0 <= i < prog.len() ==> decl_annotations_ok((#[trigger] prog[i]).value),
    ensures
        table_ok(hoist_spec(table, prog, n)),
    decreases n,
{
    if n == 0 || n > prog.len() {
    } else {
        lemma_hoist_keeps_ok(table, prog, (n - 1) as nat);
        lemma_hoist_keeps_depth(table, prog, (n - 1) as nat);
        assert(decl_annotations_ok(prog[n - 1].value));
        match prog[n - 1].value {
            DeclView::Fun { id, params, ty, expr } => {
                lemma_bind_keeps_ok(hoist_spec(table, prog, (n - 1) as nat), id, ty.value);
            },
            DeclView::Var { .. } => {},
        }
    }
}

proof fn lemma_accepted_decl_typed(st: TcState, d: DeclView)
    requires
        st.table.len() >= 1,
        table_ok(st.table),
        decl_annotations_ok(d),
        check_resolves(typing_state(st, d), typed_body(d), body_type(d)),
        check_decl_spec(st, d).errors == st.errors,
    ensures
        check_parts_typed(typing_state(st, d), typed_body(d), body_type(d)),
        table_ok(check_decl_spec(st, d).table),
{
    lemma_enter_keeps_ok(st);
    assert(enter(st).table.drop_last() =~= st.table);
    match d {
        DeclView::Var { id, ty, expr } => {
            let after = check_against_spec(enter(st), expr, ty.value);
            lemma_check_against_reports_only(enter(st), expr, ty.value);
            lemma_check_accepted_parts_typed(enter(st), expr, ty.value);
            lemma_bind_keeps_ok(st.table, id, ty.value);
        },
        DeclView::Fun { id, params, ty, expr } => {
            let types = ty.value->Fun_0;
            let n = min_len(params.len(), types.len());
            let inner = typing_state(st, d);
            lemma_bind_params_inner(enter(st).table, params, types, n);
            lemma_bind_params_keeps_ok(enter(st).table, params, types, n);
            let after = check_against_spec(inner, expr, *ty.value->Fun_1);
            lemma_check_against_reports_only(inner, expr, *ty.value->Fun_1);
            let st1 = exit(after);
            if id.value == "main"@ && !is_main_signature(ty.value) {
                assert(check_decl_spec(st, d).errors.len() == st1.errors.len() + 1);
            }
            assert(after.errors =~= st.errors) by {
                assert(after.errors.take(st.errors.len() as int) =~= after.errors);
            }
            lemma_check_accepted_parts_typed(inner, expr, *ty.value->Fun_1);
            assert(st1.table =~= st.table);
        },
    }
}

proof fn lemma_accepted_decls_typed(st: TcState, prog: Seq<SpannedView<DeclView>>, n: nat)
    requires
        st.table.len() >= 1,
        table_ok(st.table),
        n <= prog.len(),
        forall|i: int| 0 <= i < prog.len() ==> decl_annotations_ok((#[trigger] prog[i]).value),
        bodies_resolve(st, prog, n),
        check_decls_spec(st, prog, n).errors == st.errors,
    ensures
        bodies_typed(st, prog, n),
        table_ok(check_decls_spec(st, prog, n).table),
    decreases n,
{
    if n == 0 {
    } else {
        let before = check_decls_spec(st, prog, (n - 1) as nat);
        let after = check_decls_spec(st, prog, n);
        let d = prog[n - 1].value;
        lemma_check_decls_errors(st, prog, (n - 1) as nat);
        lemma_check_decl_errors(before, d);
        assert(before.errors =~= st.errors) by {
            assert(after.errors.take(before.errors.len() as int) =~= before.errors);
            assert(before.errors.take(st.errors.len() as int) =~= before.errors);
        }
        assert(decl_annotations_ok(d));
        lemma_accepted_decls_typed(st, prog, (n - 1) as nat);
        lemma_accepted_decl_typed(before, d);
    }
}

/// Type-checker soundness for a program: in a program that the type
/// checker accepts, every expression and every l-value in the body of
/// every declaration has a concrete type, never `Any`, in the state in
/// which the checker comes to it. The law holds where the types that the
/// program writes down can be spelled in a source text, and every name
/// that is looked up is bound at its place.
pub proof fn lemma_accepted_program_typed(prog: Seq<SpannedView<DeclView>>)
    requires
        forall|i: int| 0 <= i < prog.len() ==> decl_annotations_ok((#[trigger] prog[i]).value),
        bodies_resolve(
            TcState {
                table: hoist_spec(initial_state().table, prog, prog.len()),
                errors: initial_state().errors,
            },
            prog,
            prog.len(),
        ),
        type_errors(prog).len() == 0,
    ensures
        bodies_typed(
            TcState {
                table: hoist_spec(initial_state().table, prog, prog.len()),
                errors: initial_state().errors,
            },
            prog,
            prog.len(),
        ),
{
    let tc0 = initial_state();
    let hoisted = TcState {
        table: hoist_spec(tc0.table, prog, prog.len()),
        errors: tc0.errors,
    };
    lemma_initial_table_ok();
    lemma_hoist_keeps_depth(tc0.table, prog, prog.len());
    lemma_hoist_keeps_ok(tc0.table, prog, prog.len());
    assert(check_decls_spec(hoisted, prog, prog.len()).errors =~= hoisted.errors);
    lemma_accepted_decls_typed(hoisted, prog, prog.len());
}

} // verus!

verus! {

/// The bindings that checking starts with have types that bindings can
/// have: both built-ins are functions whose results can be spelled.
pub proof fn lemma_initial_table_ok()
    ensures
        table_ok(initial_state().table),
{
    let table = initial_state().table;
    assert forall|i: int, j: int| 0 <= i < table.len() && 0 <= j < table[i].len() implies binding_type(
        (#[trigger] table[i][j]).1.ty,
    ) by {
        assert(table[i] == crate::semantic::init_symbols());
        if j == 0 {
            assert(table[i][j].1.ty == crate::semantic::print_type());
        } else {
            assert(table[i][j].1.ty == crate::semantic::length_type());
        }
    }
}

} // verus!
