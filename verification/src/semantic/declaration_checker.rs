use crate::diagnostics::errors::{
    DeclarationError, DeclarationErrorKindView, DeclarationErrorView,
};
use crate::diagnostics::warnings::{Warning, WarningView};
use crate::semantic::symbol_table::{
    declare_accepts, declare_spec, is_wildcard, lookup_spec, same_bindings,
    starts_with_underscore, visible, ScopeView, SymbolTable, TableView,
};
use crate::semantic::type_checker::min_len;
use crate::semantic::{
    get_init_symbols, init_symbols, is_reserved, lemma_init_symbols_distinct, reserved, Symbol,
    SymbolView,
};
use crate::syntax::ast::{
    Decl, DeclView, Expr, ExprView, Id, Lhs, LhsView, Program, Span, Spanned, SpannedView, Type,
    TypeView,
};
use crate::utils::{same_text, suggest_similar, suggestion};
use vstd::prelude::*;

verus! {

/// What the declaration checker knows at one point of its walk.
pub struct DcState {
    /// The bindings in scope.
    pub table: TableView<SymbolView>,
    /// The errors found so far.
    pub errors: Seq<DeclarationErrorView>,
    /// The bindings that nothing has referred to yet, oldest first.
    pub unused: Seq<SpannedView<Seq<char>>>,
    /// Whether a function `main` was seen.
    pub main_declared: bool,
}

/// The state with one more error.
pub open spec fn dc_report(st: DcState, kind: DeclarationErrorKindView, span: Span) -> DcState {
    DcState { errors: st.errors.push(DeclarationErrorView { kind, span }), ..st }
}

/// The state inside a new, empty scope.
pub open spec fn dc_enter(st: DcState) -> DcState {
    DcState { table: st.table.push(Seq::empty()), ..st }
}

/// The state after the current scope was closed. Its bindings that were
/// never used stay on the list of the unused ones.
pub open spec fn dc_exit(st: DcState) -> DcState {
    DcState { table: st.table.drop_last(), ..st }
}

/// The list without the bindings of `name` that were declared at `span`.
pub open spec fn without(
    list: Seq<SpannedView<Seq<char>>>,
    name: Seq<char>,
    span: Span,
) -> Seq<SpannedView<Seq<char>>>
    decreases list.len(),
{
    if list.len() == 0 {
        Seq::empty()
    } else {
        let rest = without(list.drop_last(), name, span);
        if list.last().value == name && list.last().span == span {
            rest
        } else {
            rest.push(list.last())
        }
    }
}

/// The names of a list of bindings.
pub open spec fn names_of<T>(scope: ScopeView<T>) -> Seq<Seq<char>> {
    Seq::new(scope.len(), |i: int| scope[i].0)
}

/// The state after a reference to `name` was resolved: the binding it
/// resolves to is used from now on. Nothing changes if the name is not bound.
pub open spec fn dc_lookup(st: DcState, name: Seq<char>) -> DcState {
    match lookup_spec(st.table, name) {
        Some(symbol) => DcState { unused: without(st.unused, name, symbol.span), ..st },
        None => st,
    }
}

/// The state after a reference to an identifier was checked: its binding
/// is marked as used, or the reference is reported as undeclared, with the
/// visible name that is closest to it as a suggestion.
pub open spec fn check_id_spec(st: DcState, id: SpannedView<Seq<char>>) -> DcState {
    match lookup_spec(st.table, id.value) {
        Some(symbol) => dc_lookup(st, id.value),
        None => dc_report(
            st,
            DeclarationErrorKindView::UndeclaredIdentifier(
                id.value,
                suggestion(names_of(visible(st.table)), id.value),
            ),
            id.span,
        ),
    }
}

/// The state after `id` was bound to `ty` in the current scope. The name of
/// a built-in is not bound. A global that is declared a second time is
/// reported and keeps its first binding. A wildcard is accepted and not
/// bound. Every other binding starts out unused.
pub open spec fn dc_bind(st: DcState, id: SpannedView<Seq<char>>, ty: TypeView) -> DcState {
    if is_reserved(id.value) {
        st
    } else if !declare_accepts(st.table, id.value) {
        dc_report(st, DeclarationErrorKindView::DuplicateDeclaration(id.value), id.span)
    } else {
        DcState {
            table: declare_spec(st.table, id.value, SymbolView { ty, span: id.span }),
            unused: if is_wildcard(id.value) {
                st.unused
            } else {
                st.unused.push(id)
            },
            ..st
        }
    }
}

/// The state after the name of a declaration was checked: the name of a
/// built-in is reported.
pub open spec fn check_reserved(st: DcState, id: SpannedView<Seq<char>>) -> DcState {
    if is_reserved(id.value) {
        dc_report(st, DeclarationErrorKindView::ReservedIdentifier(id.value), id.span)
    } else {
        st
    }
}

/// The state after a declaration of `id`: a reserved name is reported,
/// any other is bound.
pub open spec fn dc_declare(st: DcState, id: SpannedView<Seq<char>>, ty: TypeView) -> DcState {
    dc_bind(check_reserved(st, id), id, ty)
}

/// The state after an l-value was walked.
pub open spec fn check_lhs_spec(st: DcState, l: LhsView) -> DcState
    decreases l, 0nat,
{
    match l {
        LhsView::Var { id } => check_id_spec(st, id),
        LhsView::Index { lhs, index } => check_expr_spec(
            check_lhs_spec(st, lhs.value),
            index.value,
        ),
    }
}

/// The state after the first `n` expressions of a list were walked.
pub open spec fn check_exprs_spec(st: DcState, exprs: Seq<SpannedView<ExprView>>, n: nat) -> DcState
    decreases exprs, n,
{
    if n == 0 || n > exprs.len() {
        st
    } else {
        check_expr_spec(check_exprs_spec(st, exprs, (n - 1) as nat), exprs[n - 1].value)
    }
}

/// The state after an expression was walked. The initializer of a `let`
/// is walked in a scope of its own. A `let` on the left of a chain binds
/// its name in a new scope, in which the right of the chain is walked.
pub open spec fn check_expr_spec(st: DcState, e: ExprView) -> DcState
    decreases e, 0nat,
{
    match e {
        ExprView::Chain { lhs, rhs } => {
            let st1 = check_expr_spec(st, lhs.value);
            match lhs.value {
                ExprView::Let { id, ty, expr } => dc_exit(
                    check_expr_spec(dc_bind(dc_enter(st1), id, ty.value), rhs.value),
                ),
                _ => check_expr_spec(st1, rhs.value),
            }
        },
        ExprView::Let { id, ty, expr } => dc_exit(
            check_expr_spec(dc_enter(check_reserved(st, id)), expr.value),
        ),
        ExprView::SetLhs { lhs, expr } => check_expr_spec(
            check_lhs_spec(st, lhs.value),
            expr.value,
        ),
        ExprView::BinOp { lhs, op, rhs } => check_expr_spec(
            check_expr_spec(st, lhs.value),
            rhs.value,
        ),
        ExprView::Not { expr } => check_expr_spec(st, expr.value),
        ExprView::FunCall { id, args } => check_exprs_spec(check_id_spec(st, id), args, args.len()),
        ExprView::IfElse { cond, then, els } => check_expr_spec(
            check_expr_spec(check_expr_spec(st, cond.value), then.value),
            els.value,
        ),
        ExprView::While { cond, expr } => check_expr_spec(
            check_expr_spec(st, cond.value),
            expr.value,
        ),
        ExprView::NewArray { ty, size, init } => check_expr_spec(
            check_expr_spec(st, size.value),
            init.value,
        ),
        ExprView::ArrayIndex { lhs, index } => check_expr_spec(
            check_lhs_spec(st, lhs.value),
            index.value,
        ),
        ExprView::Id(id) => check_id_spec(st, id),
        ExprView::Int(_) | ExprView::String(_) | ExprView::Bool(_) | ExprView::Unit => st,
    }
}

/// The state after the first `n` names of a list were checked for the
/// names of built-ins.
pub open spec fn check_reserved_all(st: DcState, ids: Seq<SpannedView<Seq<char>>>, n: nat) -> DcState
    decreases n,
{
    if n == 0 || n > ids.len() {
        st
    } else {
        check_reserved(check_reserved_all(st, ids, (n - 1) as nat), ids[n - 1])
    }
}

/// The state after a declaration was looked at in the first pass. Of a
/// function, the numbers of parameter names and parameter types are
/// compared, then its name is declared with its type, then its parameter
/// names are checked. A second `main` is reported and not declared again.
pub open spec fn declare_fun_spec(st: DcState, d: DeclView) -> DcState {
    match d {
        DeclView::Var { .. } => st,
        DeclView::Fun { id, params, ty, expr } => {
            let types = ty.value->Fun_0;
            let st1 = if params.len() != types.len() {
                dc_report(
                    st,
                    DeclarationErrorKindView::FunctionSignatureMismatch {
                        params_found: params.len() as usize,
                        types_found: types.len() as usize,
                    },
                    id.span,
                )
            } else {
                st
            };
            let st2 = if id.value == "main"@ {
                if st1.main_declared {
                    dc_report(st1, DeclarationErrorKindView::DuplicateMain, id.span)
                } else {
                    DcState { main_declared: true, ..dc_declare(st1, id, ty.value) }
                }
            } else {
                dc_declare(st1, id, ty.value)
            };
            check_reserved_all(st2, params, params.len())
        },
    }
}

/// The state after the first pass over the first `n` declarations.
pub open spec fn declare_funs_spec(st: DcState, decls: Seq<SpannedView<DeclView>>, n: nat) -> DcState
    decreases n,
{
    if n == 0 || n > decls.len() {
        st
    } else {
        declare_fun_spec(declare_funs_spec(st, decls, (n - 1) as nat), decls[n - 1].value)
    }
}

/// The state after the first `n` parameters were each bound to the type at
/// the same place.
pub open spec fn dc_bind_params(
    st: DcState,
    params: Seq<SpannedView<Seq<char>>>,
    types: Seq<TypeView>,
    n: nat,
) -> DcState
    decreases n,
{
    if n == 0 || n > params.len() || n > types.len() {
        st
    } else {
        dc_bind(dc_bind_params(st, params, types, (n - 1) as nat), params[n - 1], types[n - 1])
    }
}

/// The state after a declaration was walked in the second pass. The
/// initializer of a variable is walked in a scope of its own, and the
/// variable is declared behind it, so that it cannot refer to itself. The
/// body of a function is walked in a scope that holds its parameters.
pub open spec fn dc_check_decl_spec(st: DcState, d: DeclView) -> DcState {
    match d {
        DeclView::Var { id, ty, expr } => dc_declare(
            dc_exit(check_expr_spec(dc_enter(st), expr.value)),
            id,
            ty.value,
        ),
        DeclView::Fun { id, params, ty, expr } => {
            let types = ty.value->Fun_0;
            dc_exit(
                check_expr_spec(
                    dc_bind_params(dc_enter(st), params, types, min_len(params.len(), types.len())),
                    expr.value,
                ),
            )
        },
    }
}

/// The state after the second pass over the first `n` declarations.
pub open spec fn dc_check_decls_spec(st: DcState, decls: Seq<SpannedView<DeclView>>, n: nat) -> DcState
    decreases n,
{
    if n == 0 || n > decls.len() {
        st
    } else {
        dc_check_decl_spec(dc_check_decls_spec(st, decls, (n - 1) as nat), decls[n - 1].value)
    }
}

/// The state after a whole program was checked, starting from `st`: the
/// two passes, then `main` is marked as used, or reported as missing.
pub open spec fn dc_check_program_from(st: DcState, prog: Seq<SpannedView<DeclView>>) -> DcState {
    let st1 = declare_funs_spec(st, prog, prog.len());
    let st2 = dc_check_decls_spec(st1, prog, prog.len());
    if st2.main_declared {
        dc_lookup(st2, "main"@)
    } else {
        dc_report(st2, DeclarationErrorKindView::MissingMain, Span { start: 0, end: 0 })
    }
}

/// The state in which the checking of every program starts.
pub open spec fn dc_initial_state() -> DcState {
    DcState {
        table: seq![init_symbols()],
        errors: Seq::empty(),
        unused: Seq::empty(),
        main_declared: false,
    }
}

/// The warnings for a list of unused bindings.
pub open spec fn unused_warnings(unused: Seq<SpannedView<Seq<char>>>) -> Seq<WarningView> {
    Seq::new(unused.len(), |i: int| WarningView::UnusedIdentifier(unused[i]))
}

} // verus!

verus! {

/// The views of a list of declaration errors.
pub open spec fn decl_error_views(errors: Seq<DeclarationError>) -> Seq<DeclarationErrorView> {
    Seq::new(errors.len(), |i: int| errors[i]@)
}

/// The views of a list of identifiers.
pub open spec fn id_views(ids: Seq<Spanned<Id>>) -> Seq<SpannedView<Seq<char>>> {
    Seq::new(ids.len(), |i: int| ids[i]@)
}

/// The views of a list of warnings.
pub open spec fn warning_views(warnings: Seq<Warning>) -> Seq<WarningView> {
    Seq::new(warnings.len(), |i: int| warnings[i]@)
}

fn clone_id(id: &Spanned<Id>) -> (copy: Spanned<Id>)
    ensures
        copy@ == id@,
{
    Spanned { value: id.value.clone(), span: id.span }
}

/// Copies a list of declaration errors.
pub fn clone_decl_errors(errors: &Vec<DeclarationError>) -> (copy: Vec<DeclarationError>)
    ensures
        copy@.len() == errors@.len(),
        decl_error_views(copy@) == decl_error_views(errors@),
{
    let mut copy: Vec<DeclarationError> = Vec::new();
    let mut i: usize = 0;
    while i < errors.len()
        invariant
            i <= errors@.len(),
            copy@.len() == i,
            forall|j: int| 0 <= j < i ==> (#[trigger] copy@[j])@ == errors@[j]@,
        decreases errors@.len() - i,
    {
        copy.push(errors[i].clone());
        i += 1;
    }
    proof {
        assert(decl_error_views(copy@) =~= decl_error_views(errors@));
    }
    copy
}

/// Checks the declarations of a program: resolves every reference, and
/// keeps track of the bindings that nothing refers to.
pub struct DeclarationChecker {
    pub symbols: SymbolTable<Symbol>,
    pub unused_symbols: Vec<Spanned<Id>>,
    pub errors: Vec<DeclarationError>,
    pub main_declared: bool,
}

impl DeclarationChecker {
    /// The checker's state as a mathematical value.
    pub open spec fn state(&self) -> DcState {
        DcState {
            table: self.symbols@,
            errors: decl_error_views(self.errors@),
            unused: id_views(self.unused_symbols@),
            main_declared: self.main_declared,
        }
    }

    /// Whether the table is well formed.
    pub open spec fn wf(&self) -> bool {
        self.symbols.wf()
    }

    pub fn new() -> (dc: Self)
        ensures
            dc.wf(),
            dc.state() == dc_initial_state(),
    {
        proof {
            lemma_init_symbols_distinct();
        }
        let dc = DeclarationChecker {
            symbols: SymbolTable::new(get_init_symbols()),
            unused_symbols: Vec::new(),
            errors: Vec::new(),
            main_declared: false,
        };
        proof {
            assert(dc.symbols@[0] =~= init_symbols());
            assert(dc.symbols@ =~= seq![init_symbols()]);
            assert(decl_error_views(dc.errors@) =~= Seq::empty());
            assert(id_views(dc.unused_symbols@) =~= Seq::empty());
        }
        dc
    }

    fn push_error(&mut self, e: DeclarationError)
        ensures
            final(self).symbols == old(self).symbols,
            final(self).state() == (DcState {
                errors: old(self).state().errors.push(e@),
                ..old(self).state()
            }),
    {
        self.errors.push(e);
        proof {
            assert(decl_error_views(self.errors@) =~= decl_error_views(old(self).errors@).push(e@));
        }
    }

    fn report_reserved(&mut self, id: &Spanned<Id>)
        ensures
            final(self).symbols == old(self).symbols,
            final(self).state() == check_reserved(old(self).state(), id@),
    {
        if reserved(id.value.as_str()) {
            self.push_error(DeclarationError::reserved_identifier(clone_id(id)));
        }
    }

    fn bind(&mut self, id: &Spanned<Id>, ty: &Type)
        requires
            old(self).wf(),
        ensures
            final(self).wf(),
            final(self).symbols@.len() == old(self).symbols@.len(),
            final(self).state() == dc_bind(old(self).state(), id@, ty@),
    {
        if reserved(id.value.as_str()) {
            return ;
        }
        let symbol = Symbol { ty: ty.clone(), span: id.span };
        let accepted = self.symbols.declare(id.value.as_str(), symbol);
        if !accepted {
            self.push_error(DeclarationError::duplicate_declaration(clone_id(id)));
        } else if !starts_with_underscore(id.value.as_str()) {
            self.unused_symbols.push(clone_id(id));
            proof {
                assert(id_views(self.unused_symbols@) =~= id_views(old(self).unused_symbols@).push(
                    id@,
                ));
            }
        }
    }

    /// Declares a name: reports it if it belongs to a built-in, binds it
    /// otherwise.
    pub fn declare(&mut self, id: &Spanned<Id>, ty: &Type)
        requires
            old(self).wf(),
        ensures
            final(self).wf(),
            final(self).symbols@.len() == old(self).symbols@.len(),
            final(self).state() == dc_declare(old(self).state(), id@, ty@),
    {
        self.report_reserved(id);
        self.bind(id, ty);
    }

    /// Resolves a name and marks its binding as used.
    pub fn lookup(&mut self, id: &Id) -> (found: Option<Symbol>)
        ensures
            final(self).symbols == old(self).symbols,
            final(self).state() == dc_lookup(old(self).state(), id@),
            match found {
                Some(symbol) => lookup_spec(old(self).state().table, id@) == Some(symbol@),
                None => lookup_spec(old(self).state().table, id@) is None,
            },
    {
        let found = match self.symbols.lookup(id.as_str()) {
            Some(symbol) => Some(symbol.clone()),
            None => None,
        };
        if let Some(symbol) = &found {
            let ghost before = id_views(self.unused_symbols@);
            let mut kept: Vec<Spanned<Id>> = Vec::new();
            let mut i: usize = 0;
            proof {
                assert(before.take(0) =~= Seq::empty());
                assert(id_views(kept@) =~= Seq::empty());
            }
            while i < self.unused_symbols.len()
                invariant
                    i <= self.unused_symbols@.len(),
                    self.symbols == old(self).symbols,
                    self.errors == old(self).errors,
                    self.main_declared == old(self).main_declared,
                    self.unused_symbols == old(self).unused_symbols,
                    before == id_views(self.unused_symbols@),
                    id_views(kept@) == without(before.take(i as int), id@, symbol.span),
                decreases self.unused_symbols@.len() - i,
            {
                let entry = &self.unused_symbols[i];
                proof {
                    assert(before.take(i + 1).drop_last() =~= before.take(i as int));
                    assert(before.take(i + 1).last() == entry@);
                }
                let same = same_text(entry.value.as_str(), id.as_str()) && entry.span.start
                    == symbol.span.start && entry.span.end == symbol.span.end;
                if !same {
                    let ghost old_kept = id_views(kept@);
                    kept.push(clone_id(entry));
                    proof {
                        assert(id_views(kept@) =~= old_kept.push(entry@));
                    }
                }
                i += 1;
            }
            proof {
                assert(before.take(self.unused_symbols@.len() as int) =~= before);
            }
            self.unused_symbols = kept;
        }
        found
    }

    /// Checks a reference to an identifier.
    pub fn check_id(&mut self, id: &Spanned<Id>)
        ensures
            final(self).symbols == old(self).symbols,
            final(self).state() == check_id_spec(old(self).state(), id@),
    {
        if self.lookup(&id.value).is_none() {
            let visible_symbols = self.symbols.get_symbols_in_scope();
            let mut names: Vec<String> = Vec::new();
            let mut i: usize = 0;
            while i < visible_symbols.len()
                invariant
                    i <= visible_symbols@.len(),
                    names@.len() == i,
                    forall|j: int| 0 <= j < i ==> (#[trigger] names@[j])@ == visible_symbols@[j].0@,
                decreases visible_symbols@.len() - i,
            {
                names.push(visible_symbols[i].0.clone());
                i += 1;
            }
            proof {
                assert(Seq::new(names@.len(), |i: int| names@[i]@) =~= names_of(
                    visible(self.symbols@),
                ));
            }
            let similar = suggest_similar(names, id.value.as_str());
            self.push_error(DeclarationError::undeclared_identifier(clone_id(id), similar));
        }
    }

    /// Walks an l-value.
    pub fn check_lhs(&mut self, lhs: &Lhs)
        requires
            old(self).wf(),
        ensures
            final(self).wf(),
            final(self).symbols@.len() == old(self).symbols@.len(),
            final(self).state() == check_lhs_spec(old(self).state(), lhs@),
        decreases lhs, 0nat,
    {
        match lhs {
            Lhs::Var { id } => self.check_id(id),
            Lhs::Index { lhs: inner, index } => {
                self.check_lhs(&inner.value);
                self.check_expr(&index.value);
            },
        }
    }

    fn check_exprs(&mut self, exprs: &Vec<Spanned<Expr>>)
        requires
            old(self).wf(),
        ensures
            final(self).wf(),
            final(self).symbols@.len() == old(self).symbols@.len(),
            final(self).state() == check_exprs_spec(
                old(self).state(),
                Seq::new(exprs@.len(), |i: int| exprs@[i]@),
                exprs@.len() as nat,
            ),
        decreases exprs, 0nat,
    {
        let ghost views = Seq::new(exprs@.len(), |i: int| exprs@[i]@);
        let mut i: usize = 0;
        while i < exprs.len()
            invariant
                i <= exprs@.len(),
                self.wf(),
                self.symbols@.len() == old(self).symbols@.len(),
                views == Seq::new(exprs@.len(), |i: int| exprs@[i]@),
                self.state() == check_exprs_spec(old(self).state(), views, i as nat),
            decreases exprs@.len() - i,
        {
            self.check_expr(&exprs[i].value);
            i += 1;
        }
    }

    /// Walks an expression: checks every reference in it and binds what
    /// its chains declare.
    pub fn check_expr(&mut self, expr: &Expr)
        requires
            old(self).wf(),
        ensures
            final(self).wf(),
            final(self).symbols@.len() == old(self).symbols@.len(),
            final(self).state() == check_expr_spec(old(self).state(), expr@),
        decreases expr, 0nat,
    {
        match expr {
            Expr::Chain { lhs, rhs } => {
                self.check_expr(&lhs.value);
                match &lhs.value {
                    Expr::Let { id, ty, expr: _ } => {
                        self.symbols.enter_scope();
                        self.bind(id, &ty.value);
                        self.check_expr(&rhs.value);
                        self.symbols.exit_scope();
                    },
                    _ => self.check_expr(&rhs.value),
                }
            },
            Expr::Let { id, ty: _, expr: init } => {
                self.report_reserved(id);
                self.symbols.enter_scope();
                self.check_expr(&init.value);
                self.symbols.exit_scope();
            },
            Expr::SetLhs { lhs, expr: value } => {
                self.check_lhs(&lhs.value);
                self.check_expr(&value.value);
            },
            Expr::BinOp { lhs, op: _, rhs } => {
                self.check_expr(&lhs.value);
                self.check_expr(&rhs.value);
            },
            Expr::Not { expr: inner } => self.check_expr(&inner.value),
            Expr::FunCall { id, args } => {
                self.check_id(id);
                self.check_exprs(args);
                proof {
                    assert(expr@->FunCall_args =~= Seq::new(args@.len(), |i: int| args@[i]@));
                }
            },
            Expr::IfElse { cond, then, els } => {
                self.check_expr(&cond.value);
                self.check_expr(&then.value);
                self.check_expr(&els.value);
            },
            Expr::While { cond, expr: body } => {
                self.check_expr(&cond.value);
                self.check_expr(&body.value);
            },
            Expr::NewArray { ty: _, size, init } => {
                self.check_expr(&size.value);
                self.check_expr(&init.value);
            },
            Expr::ArrayIndex { lhs, index } => {
                self.check_lhs(&lhs.value);
                self.check_expr(&index.value);
            },
            Expr::Id(id) => self.check_id(id),
            Expr::Int(_) | Expr::Bool(_) | Expr::String(_) | Expr::Unit => {},
        }
    }
}

} // verus!

verus! {

impl DeclarationChecker {
    fn report_reserved_all(&mut self, ids: &Vec<Spanned<Id>>)
        ensures
            final(self).symbols == old(self).symbols,
            final(self).state() == check_reserved_all(
                old(self).state(),
                Seq::new(ids@.len(), |i: int| ids@[i]@),
                ids@.len() as nat,
            ),
    {
        let ghost views = Seq::new(ids@.len(), |i: int| ids@[i]@);
        let mut i: usize = 0;
        while i < ids.len()
            invariant
                i <= ids@.len(),
                self.symbols == old(self).symbols,
                views == Seq::new(ids@.len(), |i: int| ids@[i]@),
                self.state() == check_reserved_all(old(self).state(), views, i as nat),
            decreases ids@.len() - i,
        {
            self.report_reserved(&ids[i]);
            i += 1;
        }
    }

    /// The first pass over one declaration: binds a function to its type.
    pub fn declare_fun(&mut self, decl: &Decl)
        requires
            old(self).wf(),
        ensures
            final(self).wf(),
            final(self).symbols@.len() == old(self).symbols@.len(),
            final(self).state() == declare_fun_spec(old(self).state(), decl@),
    {
        match decl {
            Decl::Var { .. } => {},
            Decl::Fun { id, params, ty, expr: _ } => {
                proof {
                    assert(decl@->Fun_params =~= Seq::new(params@.len(), |i: int| params@[i]@));
                    assert(ty.value@->Fun_0.len() == ty.value.params@.len());
                }
                if params.len() != ty.value.params.len() {
                    self.push_error(
                        DeclarationError::function_signature_mismatch(
                            id.span,
                            params.len(),
                            ty.value.params.len(),
                        ),
                    );
                }
                let fun_type = Type::Fun(ty.value.clone());
                if same_text(id.value.as_str(), "main") {
                    if self.main_declared {
                        self.push_error(DeclarationError::duplicate_main(id.span));
                    } else {
                        self.declare(id, &fun_type);
                        self.main_declared = true;
                    }
                } else {
                    self.declare(id, &fun_type);
                }
                self.report_reserved_all(params);
            },
        }
    }

    fn bind_params(&mut self, params: &Vec<Spanned<Id>>, types: &Vec<Type>)
        requires
            old(self).wf(),
        ensures
            final(self).wf(),
            final(self).symbols@.len() == old(self).symbols@.len(),
            final(self).state() == dc_bind_params(
                old(self).state(),
                Seq::new(params@.len(), |i: int| params@[i]@),
                Seq::new(types@.len(), |i: int| types@[i]@),
                min_len(params@.len(), types@.len()),
            ),
    {
        let ghost param_views = Seq::new(params@.len(), |i: int| params@[i]@);
        let ghost type_views = Seq::new(types@.len(), |i: int| types@[i]@);
        let n = if params.len() <= types.len() {
            params.len()
        } else {
            types.len()
        };
        let mut i: usize = 0;
        while i < n
            invariant
                i <= n,
                n <= params@.len(),
                n <= types@.len(),
                self.wf(),
                self.symbols@.len() == old(self).symbols@.len(),
                param_views == Seq::new(params@.len(), |i: int| params@[i]@),
                type_views == Seq::new(types@.len(), |i: int| types@[i]@),
                self.state() == dc_bind_params(old(self).state(), param_views, type_views, i as nat),
            decreases n - i,
        {
            self.bind(&params[i], &types[i]);
            i += 1;
        }
    }

    /// The second pass over one declaration: walks its body.
    pub fn check_decl(&mut self, decl: &Decl)
        requires
            old(self).wf(),
        ensures
            final(self).wf(),
            final(self).symbols@.len() == old(self).symbols@.len(),
            final(self).state() == dc_check_decl_spec(old(self).state(), decl@),
    {
        match decl {
            Decl::Var { id, ty, expr } => {
                self.symbols.enter_scope();
                self.check_expr(&expr.value);
                self.symbols.exit_scope();
                self.declare(id, &ty.value);
            },
            Decl::Fun { id: _, params, ty, expr } => {
                proof {
                    assert(decl@->Fun_params =~= Seq::new(params@.len(), |i: int| params@[i]@));
                    assert(ty.value@->Fun_0 =~= Seq::new(
                        ty.value.params@.len(),
                        |i: int| ty.value.params@[i]@,
                    ));
                }
                self.symbols.enter_scope();
                self.bind_params(params, &ty.value.params);
                self.check_expr(&expr.value);
                self.symbols.exit_scope();
            },
        }
    }

    /// The warnings for the bindings that nothing has referred to.
    pub fn get_warnings(&self) -> (warnings: Vec<Warning>)
        ensures
            warning_views(warnings@) == unused_warnings(self.state().unused),
    {
        let mut warnings: Vec<Warning> = Vec::new();
        let mut i: usize = 0;
        while i < self.unused_symbols.len()
            invariant
                i <= self.unused_symbols@.len(),
                warnings@.len() == i,
                forall|j: int|
                    0 <= j < i ==> (#[trigger] warnings@[j])@ == WarningView::UnusedIdentifier(
                        self.unused_symbols@[j]@,
                    ),
            decreases self.unused_symbols@.len() - i,
        {
            warnings.push(Warning::UnusedIdentifier(clone_id(&self.unused_symbols[i])));
            i += 1;
        }
        proof {
            assert(warning_views(warnings@) =~= unused_warnings(self.state().unused));
        }
        warnings
    }

    /// Checks the declarations of a whole program, and returns the errors
    /// and the warnings for the bindings that were never used.
    pub fn check(&mut self, prog: &Program) -> (result: (Vec<DeclarationError>, Vec<Warning>))
        requires
            old(self).wf(),
        ensures
            final(self).wf(),
            final(self).state() == dc_check_program_from(old(self).state(), prog@),
            decl_error_views(result.0@) == final(self).state().errors,
            warning_views(result.1@) == unused_warnings(final(self).state().unused),
    {
        let mut i: usize = 0;
        while i < prog.decls.len()
            invariant
                i <= prog.decls@.len(),
                self.wf(),
                self.state() == declare_funs_spec(old(self).state(), prog@, i as nat),
            decreases prog.decls@.len() - i,
        {
            self.declare_fun(&prog.decls[i].value);
            i += 1;
        }
        let ghost start = self.state();
        let mut k: usize = 0;
        while k < prog.decls.len()
            invariant
                k <= prog.decls@.len(),
                self.wf(),
                self.state() == dc_check_decls_spec(start, prog@, k as nat),
            decreases prog.decls@.len() - k,
        {
            self.check_decl(&prog.decls[k].value);
            k += 1;
        }
        if self.main_declared {
            let main = "main".to_owned();
            self.lookup(&main);
        } else {
            self.push_error(DeclarationError::missing_main());
        }
        (clone_decl_errors(&self.errors), self.get_warnings())
    }
}

} // verus!
