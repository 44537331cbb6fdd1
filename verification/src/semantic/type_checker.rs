use crate::diagnostics::errors::{TypeError, TypeErrorKindView, TypeErrorView};
use crate::semantic::symbol_table::{declare_spec, lookup_spec, SymbolTable, TableView};
use crate::semantic::{
    get_init_symbols, init_symbols, is_reserved, lemma_init_symbols_distinct, reserved, Symbol,
    SymbolView,
};
use crate::syntax::ast::{
    op_class, type_view, Decl, DeclView, Expr, ExprView, FunType, Id, Lhs, LhsView, Op, OpType, Program, Span,
    Spanned, SpannedView, Type, TypeView,
};
use vstd::prelude::*;

verus! {

/// What the type checker knows at one point of its walk: the bindings in
/// scope and the errors found so far.
pub struct TcState {
    pub table: TableView<SymbolView>,
    pub errors: Seq<TypeErrorView>,
}

/// The state with one more error.
pub open spec fn report(st: TcState, kind: TypeErrorKindView, span: Span) -> TcState {
    TcState { table: st.table, errors: st.errors.push(TypeErrorView { kind, span }) }
}

/// The state inside a new, empty scope.
pub open spec fn enter(st: TcState) -> TcState {
    TcState { table: st.table.push(Seq::empty()), errors: st.errors }
}

/// The state after the current scope was closed.
pub open spec fn exit(st: TcState) -> TcState {
    TcState { table: st.table.drop_last(), errors: st.errors }
}

/// The table after a declaration of `id` with type `ty`. The name of a
/// built-in is never bound; a wildcard and a second global of one name are
/// left out by the table itself.
pub open spec fn bind_in(
    table: TableView<SymbolView>,
    id: SpannedView<Seq<char>>,
    ty: TypeView,
) -> TableView<SymbolView> {
    if is_reserved(id.value) {
        table
    } else {
        declare_spec(table, id.value, SymbolView { ty, span: id.span })
    }
}

/// The state after a declaration of `id` with type `ty`.
pub open spec fn bind(st: TcState, id: SpannedView<Seq<char>>, ty: TypeView) -> TcState {
    TcState { table: bind_in(st.table, id, ty), errors: st.errors }
}

/// The type that a name has in the current scope, if it is bound.
pub open spec fn type_of_name(st: TcState, id: Seq<char>) -> Option<TypeView> {
    match lookup_spec(st.table, id) {
        Some(symbol) => Some(symbol.ty),
        None => None,
    }
}

/// The type of an element of an array of type `arr`, after a report if
/// `arr` is no array. `Any` stands for an earlier error and is passed on
/// without a new one.
pub open spec fn element_type(st: TcState, arr: TypeView, span: Span) -> (TypeView, TcState) {
    match arr {
        TypeView::Array(elem) => (*elem, st),
        TypeView::Any => (TypeView::Any, st),
        _ => (TypeView::Any, report(st, TypeErrorKindView::NotIndexable { found: arr }, span)),
    }
}

/// Whether a value of type `found` is accepted where `expected` is asked
/// for. `Any` is accepted everywhere and accepts everything; an array of
/// `Any` accepts every array.
pub open spec fn accepts(expected: TypeView, found: TypeView) -> bool {
    ||| expected is Any
    ||| found is Any
    ||| (expected == TypeView::Array(Box::new(TypeView::Any)) && found is Array)
    ||| found == expected
}

/// The state after the type `found` of an expression was held against
/// `expected`.
pub open spec fn compare(st: TcState, expected: TypeView, found: TypeView, span: Span) -> TcState {
    if accepts(expected, found) {
        st
    } else {
        report(st, TypeErrorKindView::TypeMismatch { found, expected }, span)
    }
}

/// The type of an l-value and the state after it was typed.
pub open spec fn type_of_lhs_spec(st: TcState, l: SpannedView<LhsView>) -> (TypeView, TcState)
    decreases l, 0nat,
{
    match l.value {
        LhsView::Var { id } => match type_of_name(st, id.value) {
            Some(ty) => (ty, st),
            None => (TypeView::Any, st),
        },
        LhsView::Index { lhs, index } => {
            let arr = type_of_lhs_spec(st, *lhs);
            let st1 = check_against_spec(arr.1, *index, TypeView::Int);
            element_type(st1, arr.0, lhs.span)
        },
    }
}

/// The state after the first `n` arguments were each checked against the
/// parameter type at the same place.
pub open spec fn check_args_spec(
    st: TcState,
    args: Seq<SpannedView<ExprView>>,
    params: Seq<TypeView>,
    n: nat,
) -> TcState
    decreases args, n,
{
    if n == 0 || n > args.len() || n > params.len() {
        st
    } else {
        check_against_spec(
            check_args_spec(st, args, params, (n - 1) as nat),
            args[n - 1],
            params[n - 1],
        )
    }
}

/// The smaller of two lengths.
pub open spec fn min_len(a: nat, b: nat) -> nat {
    if a <= b {
        a
    } else {
        b
    }
}

/// The inferred type of an expression and the state after it was typed.
pub open spec fn type_of_spec(st: TcState, e: SpannedView<ExprView>) -> (TypeView, TcState)
    decreases e, 0nat,
{
    match e.value {
        ExprView::Chain { lhs, rhs } => {
            let st1 = type_of_spec(st, *lhs).1;
            match lhs.value {
                ExprView::Let { id, ty, expr } => {
                    let r = type_of_spec(bind(enter(st1), id, ty.value), *rhs);
                    (r.0, exit(r.1))
                },
                _ => type_of_spec(st1, *rhs),
            }
        },
        ExprView::Let { id, ty, expr } => (
            TypeView::Unit,
            exit(check_against_spec(enter(st), *expr, ty.value)),
        ),
        ExprView::SetLhs { lhs, expr } => {
            let target = type_of_lhs_spec(st, lhs);
            (TypeView::Unit, check_against_spec(target.1, *expr, target.0))
        },
        ExprView::BinOp { lhs, op, rhs } => match op_class(op) {
            OpType::Numerical => (
                TypeView::Int,
                check_against_spec(check_against_spec(st, *lhs, TypeView::Int), *rhs, TypeView::Int),
            ),
            OpType::Logical => (
                TypeView::Bool,
                check_against_spec(
                    check_against_spec(st, *lhs, TypeView::Bool),
                    *rhs,
                    TypeView::Bool,
                ),
            ),
            OpType::Comparison => {
                let left = type_of_spec(st, *lhs);
                (TypeView::Bool, check_against_spec(left.1, *rhs, left.0))
            },
        },
        ExprView::Not { expr } => (TypeView::Bool, check_against_spec(st, *expr, TypeView::Bool)),
        ExprView::FunCall { id, args } => match type_of_name(st, id.value) {
            None => (TypeView::Any, st),
            Some(TypeView::Fun(params, ret)) => {
                let st1 = if params.len() != args.len() {
                    report(
                        st,
                        TypeErrorKindView::ArgumentCountMismatch {
                            found: args.len() as usize,
                            expected: params.len() as usize,
                        },
                        e.span,
                    )
                } else {
                    st
                };
                (*ret, check_args_spec(st1, args, params, min_len(args.len(), params.len())))
            },
            Some(other) => (
                TypeView::Any,
                report(st, TypeErrorKindView::NotCallable { found: other }, e.span),
            ),
        },
        ExprView::IfElse { cond, then, els } => {
            let st1 = check_against_spec(st, *cond, TypeView::Bool);
            let branch = type_of_spec(st1, *then);
            (branch.0, check_against_spec(branch.1, *els, branch.0))
        },
        ExprView::While { cond, expr } => {
            let st1 = check_against_spec(st, *cond, TypeView::Bool);
            (TypeView::Unit, type_of_spec(st1, *expr).1)
        },
        ExprView::NewArray { ty, size, init } => {
            let st1 = check_against_spec(st, *size, TypeView::Int);
            (TypeView::Array(Box::new(ty.value)), check_against_spec(st1, *init, ty.value))
        },
        ExprView::ArrayIndex { lhs, index } => {
            let arr = type_of_lhs_spec(st, lhs);
            let st1 = check_against_spec(arr.1, *index, TypeView::Int);
            element_type(st1, arr.0, e.span)
        },
        ExprView::Id(id) => match type_of_name(st, id.value) {
            Some(ty) => (ty, st),
            None => (TypeView::Any, st),
        },
        ExprView::Int(_) => (TypeView::Int, st),
        ExprView::String(_) => (TypeView::String, st),
        ExprView::Bool(_) => (TypeView::Bool, st),
        ExprView::Unit => (TypeView::Unit, st),
    }
}

/// Whether an expression is checked branch by branch: a conditional held
/// against a type that names what is expected.
pub open spec fn checks_branches(e: ExprView, expected: TypeView) -> bool {
    e is IfElse && !(expected is Any) && expected != TypeView::Array(Box::new(TypeView::Any))
}

/// The state after an expression was checked against an expected type. A
/// conditional is checked branch by branch; of any other expression the
/// type is inferred and held against the expected one.
pub open spec fn check_against_spec(
    st: TcState,
    e: SpannedView<ExprView>,
    expected: TypeView,
) -> TcState
    decreases e, 1nat,
{
    if checks_branches(e.value, expected) {
        match e.value {
            ExprView::IfElse { cond, then, els } => {
                let st1 = check_against_spec(st, *cond, TypeView::Bool);
                check_against_spec(check_against_spec(st1, *then, expected), *els, expected)
            },
            _ => st,
        }
    } else {
        let found = type_of_spec(st, e);
        compare(found.1, expected, found.0, e.span)
    }
}

} // verus!

verus! {

/// The views of a list of type errors.
pub open spec fn type_error_views(errors: Seq<TypeError>) -> Seq<TypeErrorView> {
    Seq::new(errors.len(), |i: int| errors[i]@)
}

/// The state in which the checking of every program starts: the built-ins
/// in the root scope and no error.
pub open spec fn initial_state() -> TcState {
    TcState { table: seq![init_symbols()], errors: Seq::empty() }
}

/// Checks the types of a program.
#[derive(Debug)]
pub struct TypeChecker {
    pub symbols: SymbolTable<Symbol>,
    pub errors: Vec<TypeError>,
}

impl TypeChecker {
    /// The checker's state as a mathematical value.
    pub open spec fn state(&self) -> TcState {
        TcState { table: self.symbols@, errors: type_error_views(self.errors@) }
    }

    /// Whether the table is well formed.
    pub open spec fn wf(&self) -> bool {
        self.symbols.wf()
    }

    pub fn new() -> (tc: Self)
        ensures
            tc.wf(),
            tc.state() == initial_state(),
    {
        proof {
            lemma_init_symbols_distinct();
        }
        let tc = TypeChecker { symbols: SymbolTable::new(get_init_symbols()), errors: Vec::new() };
        proof {
            assert(tc.symbols@[0] =~= init_symbols());
            assert(tc.symbols@ =~= seq![init_symbols()]);
            assert(type_error_views(tc.errors@) =~= Seq::empty());
        }
        tc
    }

    fn push_error(&mut self, e: TypeError)
        ensures
            final(self).symbols == old(self).symbols,
            final(self).state() == (TcState {
                table: old(self).state().table,
                errors: old(self).state().errors.push(e@),
            }),
    {
        self.errors.push(e);
        proof {
            assert(type_error_views(self.errors@) =~= type_error_views(old(self).errors@).push(e@));
        }
    }

    /// Binds a name to a type in the current scope.
    pub fn declare(&mut self, id: &Spanned<Id>, ty: &Type)
        requires
            old(self).wf(),
        ensures
            final(self).wf(),
            final(self).symbols@.len() == old(self).symbols@.len(),
            final(self).state() == bind(old(self).state(), id@, ty@),
    {
        if !reserved(id.value.as_str()) {
            let symbol = Symbol { ty: ty.clone(), span: id.span };
            self.symbols.declare(id.value.as_str(), symbol);
        }
    }

    /// The type that a name has in the current scope.
    pub fn lookup(&self, id: &Spanned<Id>) -> (ty: Option<Type>)
        ensures
            match ty {
                Some(t) => type_of_name(self.state(), id.value@) == Some(t@),
                None => type_of_name(self.state(), id.value@) is None,
            },
    {
        match self.symbols.lookup(id.value.as_str()) {
            Some(symbol) => Some(symbol.ty.clone()),
            None => None,
        }
    }

    fn element_of(&mut self, arr: Type, span: Span) -> (elem: Type)
        ensures
            final(self).symbols == old(self).symbols,
            (elem@, final(self).state()) == element_type(old(self).state(), arr@, span),
    {
        match arr {
            Type::Array(elem) => *elem,
            Type::Any => Type::Any,
            other => {
                self.push_error(TypeError::not_indexable(span, other));
                Type::Any
            },
        }
    }

    fn hold_against(&mut self, expected: &Type, found: Type, span: Span)
        ensures
            final(self).symbols == old(self).symbols,
            final(self).state() == compare(old(self).state(), expected@, found@, span),
    {
        proof {
            reveal_with_fuel(type_view, 2);
        }
        let accepted = match expected {
            Type::Any => true,
            Type::Array(inner) => {
                let any_array = match **inner {
                    Type::Any => true,
                    _ => false,
                };
                let found_array = match found {
                    Type::Array(_) => true,
                    _ => false,
                };
                let found_any = match found {
                    Type::Any => true,
                    _ => false,
                };
                found_any || (any_array && found_array) || found.same_as(expected)
            },
            _ => {
                let found_any = match found {
                    Type::Any => true,
                    _ => false,
                };
                found_any || found.same_as(expected)
            },
        };
        if !accepted {
            self.push_error(TypeError::type_mismatch(span, found, expected.clone()));
        }
    }

    /// Types an l-value.
    pub fn type_of_lhs(&mut self, lhs: &Spanned<Lhs>) -> (ty: Type)
        requires
            old(self).wf(),
        ensures
            final(self).wf(),
            final(self).symbols@.len() == old(self).symbols@.len(),
            (ty@, final(self).state()) == type_of_lhs_spec(old(self).state(), lhs@),
        decreases lhs, 0nat,
    {
        match &lhs.value {
            Lhs::Var { id } => match self.lookup(id) {
                Some(ty) => ty,
                None => Type::Any,
            },
            Lhs::Index { lhs: inner, index } => {
                let arr = self.type_of_lhs(inner);
                self.check_against(index, &Type::Int);
                self.element_of(arr, inner.span)
            },
        }
    }

    fn check_args(&mut self, args: &Vec<Spanned<Expr>>, params: &Vec<Type>)
        requires
            old(self).wf(),
        ensures
            final(self).wf(),
            final(self).symbols@.len() == old(self).symbols@.len(),
            final(self).state() == check_args_spec(
                old(self).state(),
                Seq::new(args@.len(), |i: int| args@[i]@),
                Seq::new(params@.len(), |i: int| params@[i]@),
                min_len(args@.len(), params@.len()),
            ),
        decreases args, 0nat,
    {
        let ghost arg_views = Seq::new(args@.len(), |i: int| args@[i]@);
        let ghost param_views = Seq::new(params@.len(), |i: int| params@[i]@);
        let n = if args.len() <= params.len() {
            args.len()
        } else {
            params.len()
        };
        let mut i: usize = 0;
        while i < n
            invariant
                i <= n,
                n <= args@.len(),
                n <= params@.len(),
                self.wf(),
                self.symbols@.len() == old(self).symbols@.len(),
                arg_views == Seq::new(args@.len(), |i: int| args@[i]@),
                param_views == Seq::new(params@.len(), |i: int| params@[i]@),
                self.state() == check_args_spec(old(self).state(), arg_views, param_views, i as nat),
            decreases n - i,
        {
            self.check_against(&args[i], &params[i]);
            i += 1;
        }
    }

    /// Infers the type of an expression and records the errors in it.
    pub fn type_of(&mut self, expr: &Spanned<Expr>) -> (ty: Type)
        requires
            old(self).wf(),
        ensures
            final(self).wf(),
            final(self).symbols@.len() == old(self).symbols@.len(),
            (ty@, final(self).state()) == type_of_spec(old(self).state(), expr@),
        decreases expr, 0nat,
    {
        let span = expr.span;
        match &expr.value {
            Expr::Chain { lhs, rhs } => {
                self.type_of(lhs);
                match &lhs.value {
                    Expr::Let { id, ty, expr: _ } => {
                        self.symbols.enter_scope();
                        self.declare(id, &ty.value);
                        let result = self.type_of(rhs);
                        self.symbols.exit_scope();
                        result
                    },
                    _ => self.type_of(rhs),
                }
            },
            Expr::Let { id: _, ty, expr: init } => {
                self.symbols.enter_scope();
                self.check_against(init, &ty.value);
                self.symbols.exit_scope();
                Type::Unit
            },
            Expr::SetLhs { lhs, expr: value } => {
                let target = self.type_of_lhs(lhs);
                self.check_against(value, &target);
                Type::Unit
            },
            Expr::BinOp { lhs, op, rhs } => match op.get_type() {
                OpType::Numerical => {
                    self.check_against(lhs, &Type::Int);
                    self.check_against(rhs, &Type::Int);
                    Type::Int
                },
                OpType::Logical => {
                    self.check_against(lhs, &Type::Bool);
                    self.check_against(rhs, &Type::Bool);
                    Type::Bool
                },
                OpType::Comparison => {
                    let left = self.type_of(lhs);
                    self.check_against(rhs, &left);
                    Type::Bool
                },
            },
            Expr::Not { expr: inner } => {
                self.check_against(inner, &Type::Bool);
                Type::Bool
            },
            Expr::FunCall { id, args } => {
                match self.lookup(id) {
                    None => Type::Any,
                    Some(Type::Fun(f)) => {
                        if f.params.len() != args.len() {
                            self.push_error(
                                TypeError::arg_count_mismatch(span, args.len(), f.params.len()),
                            );
                        }
                        self.check_args(args, &f.params);
                        proof {
                            assert(expr@.value->FunCall_args =~= Seq::new(
                                args@.len(),
                                |i: int| args@[i]@,
                            ));
                            assert(f@->Fun_0 =~= Seq::new(
                                f.params@.len(),
                                |i: int| f.params@[i]@,
                            ));
                        }
                        *f.ret
                    },
                    Some(other) => {
                        self.push_error(TypeError::not_callable(span, other));
                        Type::Any
                    },
                }
            },
            Expr::IfElse { cond, then, els } => {
                self.check_against(cond, &Type::Bool);
                let branch = self.type_of(then);
                self.check_against(els, &branch);
                branch
            },
            Expr::While { cond, expr: body } => {
                self.check_against(cond, &Type::Bool);
                self.type_of(body);
                Type::Unit
            },
            Expr::NewArray { ty, size, init } => {
                self.check_against(size, &Type::Int);
                self.check_against(init, &ty.value);
                Type::Array(Box::new(ty.value.clone()))
            },
            Expr::ArrayIndex { lhs, index } => {
                let arr = self.type_of_lhs(lhs);
                self.check_against(index, &Type::Int);
                self.element_of(arr, span)
            },
            Expr::Id(id) => match self.lookup(id) {
                Some(ty) => ty,
                None => Type::Any,
            },
            Expr::Int(_) => Type::Int,
            Expr::String(_) => Type::String,
            Expr::Bool(_) => Type::Bool,
            Expr::Unit => Type::Unit,
        }
    }

    /// Checks an expression against the type that its place asks for.
    pub fn check_against(&mut self, expr: &Spanned<Expr>, expected: &Type)
        requires
            old(self).wf(),
        ensures
            final(self).wf(),
            final(self).symbols@.len() == old(self).symbols@.len(),
            final(self).state() == check_against_spec(old(self).state(), expr@, expected@),
        decreases expr, 1nat,
    {
        proof {
            reveal_with_fuel(type_view, 2);
        }
        let by_branch = match expected {
            Type::Any => false,
            Type::Array(inner) => match **inner {
                Type::Any => false,
                _ => true,
            },
            _ => true,
        };
        match &expr.value {
            Expr::IfElse { cond, then, els } if by_branch => {
                self.check_against(cond, &Type::Bool);
                self.check_against(then, expected);
                self.check_against(els, expected);
            },
            _ => {
                let found = self.type_of(expr);
                self.hold_against(expected, found, expr.span);
            },
        }
    }
}

} // verus!

verus! {

/// The table after the first `n` declarations were looked through for
/// functions, and each function's name was bound to its type. This is what
/// lets a function call one that is declared further down.
pub open spec fn hoist_spec(
    table: TableView<SymbolView>,
    decls: Seq<SpannedView<DeclView>>,
    n: nat,
) -> TableView<SymbolView>
    decreases n,
{
    if n == 0 || n > decls.len() {
        table
    } else {
        let before = hoist_spec(table, decls, (n - 1) as nat);
        match decls[n - 1].value {
            DeclView::Fun { id, params, ty, expr } => bind_in(before, id, ty.value),
            DeclView::Var { .. } => before,
        }
    }
}

/// The table after the first `n` parameters were each bound to the type at
/// the same place.
pub open spec fn bind_params(
    table: TableView<SymbolView>,
    params: Seq<SpannedView<Seq<char>>>,
    types: Seq<TypeView>,
    n: nat,
) -> TableView<SymbolView>
    decreases n,
{
    if n == 0 || n > params.len() || n > types.len() {
        table
    } else {
        bind_in(bind_params(table, params, types, (n - 1) as nat), params[n - 1], types[n - 1])
    }
}

/// Whether a function type is the one that `main` must have: one parameter
/// of type `Unit` and the result `Unit`.
pub open spec fn is_main_signature(ty: TypeView) -> bool {
    ty == TypeView::Fun(seq![TypeView::Unit], Box::new(TypeView::Unit))
}

/// The state after one top-level declaration was checked. The initializer
/// of a variable is checked in a scope of its own, before the variable is
/// bound; the body of a function is checked in a scope that holds its
/// parameters.
pub open spec fn check_decl_spec(st: TcState, d: DeclView) -> TcState {
    match d {
        DeclView::Var { id, ty, expr } => bind(
            exit(check_against_spec(enter(st), expr, ty.value)),
            id,
            ty.value,
        ),
        DeclView::Fun { id, params, ty, expr } => {
            let types = ty.value->Fun_0;
            let inner = TcState {
                table: bind_params(
                    enter(st).table,
                    params,
                    types,
                    min_len(params.len(), types.len()),
                ),
                errors: st.errors,
            };
            let st1 = exit(check_against_spec(inner, expr, *ty.value->Fun_1));
            if id.value == "main"@ && !is_main_signature(ty.value) {
                report(st1, TypeErrorKindView::MainSignatureMismatch, ty.span)
            } else {
                st1
            }
        },
    }
}

/// The state after the first `n` declarations were checked in order.
pub open spec fn check_decls_spec(st: TcState, decls: Seq<SpannedView<DeclView>>, n: nat) -> TcState
    decreases n,
{
    if n == 0 || n > decls.len() {
        st
    } else {
        check_decl_spec(check_decls_spec(st, decls, (n - 1) as nat), decls[n - 1].value)
    }
}

/// The state after a whole program was checked, starting from `st`: first
/// every function is bound, then the declarations are checked in order.
pub open spec fn check_program_from(st: TcState, prog: Seq<SpannedView<DeclView>>) -> TcState {
    check_decls_spec(
        TcState { table: hoist_spec(st.table, prog, prog.len()), errors: st.errors },
        prog,
        prog.len(),
    )
}

/// The type errors of a program.
pub open spec fn type_errors(prog: Seq<SpannedView<DeclView>>) -> Seq<TypeErrorView> {
    check_program_from(initial_state(), prog).errors
}

/// Copies a list of type errors.
pub fn clone_type_errors(errors: &Vec<TypeError>) -> (copy: Vec<TypeError>)
    ensures
        copy@.len() == errors@.len(),
        type_error_views(copy@) == type_error_views(errors@),
{
    let mut copy: Vec<TypeError> = Vec::new();
    let mut i: usize = 0;
    while i < errors.len()
        invariant
            i <= errors@.len(),
            copy@.len() == i,
            forall|j: int| 0 <= j < i ==> (#[trigger] copy@[j])@ == errors@[j]@,
        decreases errors@.len() - i,
    {
        copy.push(errors[i].clone());
        i += 1;
    }
    proof {
        assert(type_error_views(copy@) =~= type_error_views(errors@));
    }
    copy
}

impl TypeChecker {
    fn hoist(&mut self, prog: &Program)
        requires
            old(self).wf(),
        ensures
            final(self).wf(),
            final(self).symbols@.len() == old(self).symbols@.len(),
            final(self).state().errors == old(self).state().errors,
            final(self).symbols@ == hoist_spec(old(self).symbols@, prog@, prog@.len()),
    {
        let mut i: usize = 0;
        while i < prog.decls.len()
            invariant
                i <= prog.decls@.len(),
                self.wf(),
                self.symbols@.len() == old(self).symbols@.len(),
                self.state().errors == old(self).state().errors,
                self.symbols@ == hoist_spec(old(self).symbols@, prog@, i as nat),
            decreases prog.decls@.len() - i,
        {
            match &prog.decls[i].value {
                Decl::Fun { id, params: _, ty, expr: _ } => {
                    let fun_type = Type::Fun(ty.value.clone());
                    self.declare(id, &fun_type);
                },
                Decl::Var { .. } => {},
            }
            i += 1;
        }
    }

    fn declare_params(&mut self, params: &Vec<Spanned<Id>>, types: &Vec<Type>)
        requires
            old(self).wf(),
        ensures
            final(self).wf(),
            final(self).symbols@.len() == old(self).symbols@.len(),
            final(self).state().errors == old(self).state().errors,
            final(self).symbols@ == bind_params(
                old(self).symbols@,
                Seq::new(params@.len(), |i: int| params@[i]@),
                Seq::new(types@.len(), |i: int| types@[i]@),
                min_len(params@.len(), types@.len()),
            ),
    {
        let ghost param_views = Seq::new(params@.len(), |i: int| params@[i]@);
        let ghost type_views = Seq::new(types@.len(), |i: int| types@[i]@);
        let n = if params.len() <= types.len() {
            params.len()
        } else {
            types.len()
        };
        let mut i: usize = 0;
        while i < n
            invariant
                i <= n,
                n <= params@.len(),
                n <= types@.len(),
                self.wf(),
                self.symbols@.len() == old(self).symbols@.len(),
                self.state().errors == old(self).state().errors,
                param_views == Seq::new(params@.len(), |i: int| params@[i]@),
                type_views == Seq::new(types@.len(), |i: int| types@[i]@),
                self.symbols@ == bind_params(old(self).symbols@, param_views, type_views, i as nat),
            decreases n - i,
        {
            self.declare(&params[i], &types[i]);
            i += 1;
        }
    }

    fn check_decl(&mut self, decl: &Decl)
        requires
            old(self).wf(),
        ensures
            final(self).wf(),
            final(self).symbols@.len() == old(self).symbols@.len(),
            final(self).state() == check_decl_spec(old(self).state(), decl@),
    {
        match decl {
            Decl::Var { id, ty, expr } => {
                self.symbols.enter_scope();
                self.check_against(expr, &ty.value);
                self.symbols.exit_scope();
                self.declare(id, &ty.value);
            },
            Decl::Fun { id, params, ty, expr } => {
                self.symbols.enter_scope();
                self.declare_params(params, &ty.value.params);
                self.check_against(expr, &ty.value.ret);
                self.symbols.exit_scope();
                proof {
                    reveal_with_fuel(type_view, 3);
                    assert(decl@->Fun_params =~= Seq::new(params@.len(), |i: int| params@[i]@));
                    assert(ty.value@->Fun_0 =~= Seq::new(
                        ty.value.params@.len(),
                        |i: int| ty.value.params@[i]@,
                    ));
                }
                let one_unit = ty.value.params.len() == 1 && match ty.value.params[0] {
                    Type::Unit => true,
                    _ => false,
                };
                let returns_unit = match *ty.value.ret {
                    Type::Unit => true,
                    _ => false,
                };
                proof {
                    if one_unit && returns_unit {
                        assert(ty.value@->Fun_0 =~= seq![TypeView::Unit]);
                    } else if !one_unit {
                        assert(ty.value@->Fun_0 != seq![TypeView::Unit]) by {
                            if ty.value.params@.len() == 1 {
                                assert(ty.value@->Fun_0[0] != seq![TypeView::Unit][0]);
                            }
                        }
                    }
                }
                if crate::utils::same_text(id.value.as_str(), "main") && !(one_unit
                    && returns_unit) {
                    self.push_error(TypeError::main_signature_mismatch(ty.span));
                }
            },
        }
    }

    /// Checks a whole program and returns its type errors, if it has any.
    pub fn check(&mut self, prog: &Program) -> (result: Result<(), Vec<TypeError>>)
        requires
            old(self).wf(),
        ensures
            final(self).wf(),
            final(self).state() == check_program_from(old(self).state(), prog@),
            match result {
                Ok(_) => final(self).state().errors.len() == 0,
                Err(errors) => errors@.len() > 0 && type_error_views(errors@)
                    == final(self).state().errors,
            },
    {
        self.hoist(prog);
        let ghost start = self.state();
        let mut i: usize = 0;
        while i < prog.decls.len()
            invariant
                i <= prog.decls@.len(),
                self.wf(),
                self.state() == check_decls_spec(start, prog@, i as nat),
            decreases prog.decls@.len() - i,
        {
            self.check_decl(&prog.decls[i].value);
            i += 1;
        }
        if self.errors.len() == 0 {
            Ok(())
        } else {
            Err(clone_type_errors(&self.errors))
        }
    }
}

} // verus!
