use crate::semantic::symbol_table::{
    declare_spec, is_wildcard, lookup_spec, starts_with_underscore, SymbolTable, TableView,
};
use crate::syntax::ast::{
    Decl, DeclView, Expr, ExprView, Lhs, LhsView, Op, Program, Spanned, SpannedView, Type, TypeView,
};
use vstd::prelude::*;

verus! {

/// A type of the generated code: a 32-bit integer for `Int`, one bit for
/// `Bool`, and the empty structure for `Unit`.
#[derive(Debug, Clone, Copy, PartialEq, Eq, Structural)]
pub enum LowType {
    I32,
    I1,
    Unit,
}

/// What a function of the generated code returns.
#[derive(Debug, Clone, Copy, PartialEq, Eq, Structural)]
pub enum Returns {
    Value(LowType),
    /// Nothing: a function of the source that returns `Unit`.
    Void,
    /// The exit status 0 as a 32-bit integer: `main`.
    Status,
}

/// What an instruction works on.
#[derive(Debug, Clone, Copy, PartialEq, Eq, Structural)]
pub enum Operand {
    ConstInt(i64),
    ConstBool(bool),
    ConstUnit,
    /// The parameter with the given index.
    Param(usize),
    /// The result of the action with the given index.
    Temp(usize),
}

/// An operand with its type.
#[derive(Debug, Clone, Copy, PartialEq, Eq, Structural)]
pub struct Typed {
    pub value: Operand,
    pub ty: LowType,
}

/// Where a variable lives.
#[derive(Debug, Clone, Copy, PartialEq, Eq, Structural)]
pub enum Place {
    /// The stack slot that the action with the given index allocated.
    Local(usize),
    /// The global with the given index.
    Global(usize),
}

/// Where a variable lives, and the type of what it holds.
#[derive(Debug, Clone, Copy, PartialEq, Eq, Structural)]
pub struct Slot {
    pub place: Place,
    pub ty: LowType,
}

impl View for Slot {
    type V = Slot;

    open spec fn view(&self) -> Slot {
        *self
    }
}

/// An integer operation of the generated code.
#[derive(Debug, Clone, Copy, PartialEq, Eq, Structural)]
pub enum Arith {
    Add,
    Sub,
    Mul,
    /// The remainder of the signed division.
    SRem,
}

/// A signed comparison of the generated code.
#[derive(Debug, Clone, Copy, PartialEq, Eq, Structural)]
pub enum Predicate {
    EQ,
    NE,
    SLT,
    SLE,
    SGT,
    SGE,
}

/// One step of building a function: a block is added, the place where
/// instructions go is moved, or an instruction is added at that place. A
/// block is named by the index of the action that added it, a value by the
/// index of the action that computes it.
#[derive(Debug, PartialEq)]
pub enum Action {
    AppendBlock { name: String },
    PositionAtEnd { block: usize },
    Alloca { ty: LowType, name: String },
    Store { place: Place, value: Operand },
    Load { ty: LowType, place: Place, name: String },
    Arith { op: Arith, lhs: Operand, rhs: Operand, name: String },
    Compare { pred: Predicate, lhs: Operand, rhs: Operand, name: String },
    Not { value: Operand, name: String },
    Call { callee: String, args: Vec<Operand>, name: String },
    Branch { target: usize },
    CondBranch { cond: Operand, then_block: usize, else_block: usize },
    Phi { ty: LowType, first: (Operand, usize), second: (Operand, usize), name: String },
    Return { value: Option<Operand> },
}

/// The mathematical value of an [`Action`].
pub enum ActionView {
    AppendBlock { name: Seq<char> },
    PositionAtEnd { block: usize },
    Alloca { ty: LowType, name: Seq<char> },
    Store { place: Place, value: Operand },
    Load { ty: LowType, place: Place, name: Seq<char> },
    Arith { op: Arith, lhs: Operand, rhs: Operand, name: Seq<char> },
    Compare { pred: Predicate, lhs: Operand, rhs: Operand, name: Seq<char> },
    Not { value: Operand, name: Seq<char> },
    Call { callee: Seq<char>, args: Seq<Operand>, name: Seq<char> },
    Branch { target: usize },
    CondBranch { cond: Operand, then_block: usize, else_block: usize },
    Phi { ty: LowType, first: (Operand, usize), second: (Operand, usize), name: Seq<char> },
    Return { value: Option<Operand> },
}

impl View for Action {
    type V = ActionView;

    open spec fn view(&self) -> ActionView {
        match *self {
            Action::AppendBlock { name } => ActionView::AppendBlock { name: name@ },
            Action::PositionAtEnd { block } => ActionView::PositionAtEnd { block },
            Action::Alloca { ty, name } => ActionView::Alloca { ty, name: name@ },
            Action::Store { place, value } => ActionView::Store { place, value },
            Action::Load { ty, place, name } => ActionView::Load { ty, place, name: name@ },
            Action::Arith { op, lhs, rhs, name } => ActionView::Arith { op, lhs, rhs, name: name@ },
            Action::Compare { pred, lhs, rhs, name } => ActionView::Compare {
                pred,
                lhs,
                rhs,
                name: name@,
            },
            Action::Not { value, name } => ActionView::Not { value, name: name@ },
            Action::Call { callee, args, name } => ActionView::Call {
                callee: callee@,
                args: args@,
                name: name@,
            },
            Action::Branch { target } => ActionView::Branch { target },
            Action::CondBranch { cond, then_block, else_block } => ActionView::CondBranch {
                cond,
                then_block,
                else_block,
            },
            Action::Phi { ty, first, second, name } => ActionView::Phi {
                ty,
                first,
                second,
                name: name@,
            },
            Action::Return { value } => ActionView::Return { value },
        }
    }
}

/// The views of a list of actions.
pub open spec fn action_views(actions: Seq<Action>) -> Seq<ActionView> {
    Seq::new(actions.len(), |i: int| actions[i]@)
}

/// The name, the parameter types and the result of a function of the
/// generated code.
#[derive(Debug, PartialEq)]
pub struct Signature {
    pub name: String,
    pub params: Vec<LowType>,
    pub result: Returns,
}

/// The mathematical value of a [`Signature`].
pub struct SignatureView {
    pub name: Seq<char>,
    pub params: Seq<LowType>,
    pub result: Returns,
}

impl View for Signature {
    type V = SignatureView;

    open spec fn view(&self) -> SignatureView {
        SignatureView { name: self.name@, params: self.params@, result: self.result }
    }
}

/// The views of a list of signatures.
pub open spec fn signature_views(signatures: Seq<Signature>) -> Seq<SignatureView> {
    Seq::new(signatures.len(), |i: int| signatures[i]@)
}

/// A global variable of the generated code with its initial value.
#[derive(Debug, PartialEq)]
pub struct Global {
    pub name: String,
    pub ty: LowType,
    pub init: Operand,
}

/// The mathematical value of a [`Global`].
pub struct GlobalView {
    pub name: Seq<char>,
    pub ty: LowType,
    pub init: Operand,
}

impl View for Global {
    type V = GlobalView;

    open spec fn view(&self) -> GlobalView {
        GlobalView { name: self.name@, ty: self.ty, init: self.init }
    }
}

/// The views of a list of globals.
pub open spec fn global_views(globals: Seq<Global>) -> Seq<GlobalView> {
    Seq::new(globals.len(), |i: int| globals[i]@)
}

/// Why code could not be generated for a program.
#[derive(Debug, PartialEq)]
pub enum CodegenError {
    /// A type that the generated code has no form for: an array, a string,
    /// a function.
    UnsupportedType,
    /// An expression that the generated code has no form for: a string, a
    /// new array, an index.
    UnsupportedExpression,
    /// A global whose initial value is no literal.
    UnsupportedGlobal,
    /// A value of a type on which the operation does not work.
    InvalidOperand,
    UndefinedVariable(String),
    UndefinedFunction(String),
}

/// The mathematical value of a [`CodegenError`].
pub enum CodegenErrorView {
    UnsupportedType,
    UnsupportedExpression,
    UnsupportedGlobal,
    InvalidOperand,
    UndefinedVariable(Seq<char>),
    UndefinedFunction(Seq<char>),
}

impl View for CodegenError {
    type V = CodegenErrorView;

    open spec fn view(&self) -> CodegenErrorView {
        match *self {
            CodegenError::UnsupportedType => CodegenErrorView::UnsupportedType,
            CodegenError::UnsupportedExpression => CodegenErrorView::UnsupportedExpression,
            CodegenError::UnsupportedGlobal => CodegenErrorView::UnsupportedGlobal,
            CodegenError::InvalidOperand => CodegenErrorView::InvalidOperand,
            CodegenError::UndefinedVariable(name) => CodegenErrorView::UndefinedVariable(name@),
            CodegenError::UndefinedFunction(name) => CodegenErrorView::UndefinedFunction(name@),
        }
    }
}

/// The type of the generated code that a type of the source becomes.
pub open spec fn lower_type(t: TypeView) -> Option<LowType> {
    match t {
        TypeView::Int => Some(LowType::I32),
        TypeView::Bool => Some(LowType::I1),
        TypeView::Unit => Some(LowType::Unit),
        _ => None,
    }
}

/// Finds the type of the generated code for a type of the source.
pub fn llvm_type(ty: &Type) -> (low: Option<LowType>)
    ensures
        low == lower_type(ty@),
{
    match ty {
        Type::Int => Some(LowType::I32),
        Type::Bool => Some(LowType::I1),
        Type::Unit => Some(LowType::Unit),
        _ => None,
    }
}

/// The runtime function that prints a value of the given type.
pub open spec fn print_function(ty: LowType) -> Seq<char> {
    match ty {
        LowType::I1 => "__print_bool__"@,
        LowType::I32 => "__print_int__"@,
        LowType::Unit => "__print_unit__"@,
    }
}

/// Picks the runtime function that prints a value of the given type.
pub fn print_function_for(ty: LowType) -> (name: &'static str)
    ensures
        name@ == print_function(ty),
{
    match ty {
        LowType::I1 => "__print_bool__",
        LowType::I32 => "__print_int__",
        LowType::Unit => "__print_unit__",
    }
}

/// What a function of the source with the given name and result type
/// returns in the generated code.
pub open spec fn lower_return(name: Seq<char>, ret: TypeView) -> Option<Returns> {
    match ret {
        TypeView::Unit => if name == "main"@ {
            Some(Returns::Status)
        } else {
            Some(Returns::Void)
        },
        _ => match lower_type(ret) {
            Some(ty) => Some(Returns::Value(ty)),
            None => None,
        },
    }
}

} // verus!

verus! {

impl View for Returns {
    type V = Returns;

    open spec fn view(&self) -> Returns {
        *self
    }
}

/// What the generator knows while it builds a function.
pub struct GenState {
    /// The actions so far.
    pub code: Seq<ActionView>,
    /// The block that instructions are added to.
    pub current: usize,
    /// The variables in scope.
    pub scopes: TableView<Slot>,
    /// What each function of the program returns.
    pub functions: crate::semantic::symbol_table::ScopeView<Returns>,
}

/// What a step of the generator gives: the new state and a value, or the
/// reason why there is no code for the program.
pub type Generated = Result<(GenState, Typed), CodegenErrorView>;

/// The state with one more action.
pub open spec fn emit(st: GenState, action: ActionView) -> GenState {
    GenState { code: st.code.push(action), ..st }
}

/// The value that the next action computes.
pub open spec fn next_temp(st: GenState) -> Operand {
    Operand::Temp(st.code.len() as usize)
}

/// The state after the place where instructions go was moved to a block.
pub open spec fn move_to(st: GenState, block: usize) -> GenState {
    GenState {
        code: st.code.push(ActionView::PositionAtEnd { block }),
        current: block,
        ..st
    }
}

/// The unit value.
pub open spec fn unit_value() -> Typed {
    Typed { value: Operand::ConstUnit, ty: LowType::Unit }
}

/// Whether a value is an integer of some width, so that integer
/// instructions work on it.
pub open spec fn is_int(v: Typed) -> bool {
    v.ty == LowType::I32 || v.ty == LowType::I1
}

/// The zero of an integer type.
pub open spec fn zero_of(ty: LowType) -> Operand {
    match ty {
        LowType::I1 => Operand::ConstBool(false),
        _ => Operand::ConstInt(0),
    }
}

/// The code of a binary operation that is no `&&` and no `||`, on two
/// operands that were computed already: an integer instruction, a signed
/// comparison, or a call of the runtime for division and power.
pub open spec fn gen_binary_spec(st: GenState, op: Op, l: Typed, r: Typed) -> Generated {
    if !is_int(l) || !is_int(r) {
        Err(CodegenErrorView::InvalidOperand)
    } else {
        let result = next_temp(st);
        let number = Typed { value: result, ty: LowType::I32 };
        let bit = Typed { value: result, ty: LowType::I1 };
        let lhs = l.value;
        let rhs = r.value;
        match op {
            Op::Add => Ok(
                (emit(st, ActionView::Arith { op: Arith::Add, lhs, rhs, name: "add"@ }), number),
            ),
            Op::Sub => Ok(
                (emit(st, ActionView::Arith { op: Arith::Sub, lhs, rhs, name: "sub"@ }), number),
            ),
            Op::Mul => Ok(
                (emit(st, ActionView::Arith { op: Arith::Mul, lhs, rhs, name: "mul"@ }), number),
            ),
            Op::Mod => Ok(
                (emit(st, ActionView::Arith { op: Arith::SRem, lhs, rhs, name: "mod"@ }), number),
            ),
            Op::Div => Ok(
                (
                    emit(
                        st,
                        ActionView::Call { callee: "__div__"@, args: seq![lhs, rhs], name: "div"@ },
                    ),
                    number,
                ),
            ),
            Op::Pow => Ok(
                (
                    emit(
                        st,
                        ActionView::Call { callee: "__pow__"@, args: seq![lhs, rhs], name: "pow"@ },
                    ),
                    number,
                ),
            ),
            Op::Eq => Ok(
                (emit(st, ActionView::Compare { pred: Predicate::EQ, lhs, rhs, name: "eq"@ }), bit),
            ),
            Op::Neq => Ok(
                (
                    emit(st, ActionView::Compare { pred: Predicate::NE, lhs, rhs, name: "neq"@ }),
                    bit,
                ),
            ),
            Op::Lt => Ok(
                (
                    emit(st, ActionView::Compare { pred: Predicate::SLT, lhs, rhs, name: "lt"@ }),
                    bit,
                ),
            ),
            Op::Leq => Ok(
                (
                    emit(st, ActionView::Compare { pred: Predicate::SLE, lhs, rhs, name: "leq"@ }),
                    bit,
                ),
            ),
            Op::Gt => Ok(
                (
                    emit(st, ActionView::Compare { pred: Predicate::SGT, lhs, rhs, name: "gt"@ }),
                    bit,
                ),
            ),
            Op::Geq => Ok(
                (
                    emit(st, ActionView::Compare { pred: Predicate::SGE, lhs, rhs, name: "geq"@ }),
                    bit,
                ),
            ),
            Op::And | Op::Or => Err(CodegenErrorView::InvalidOperand),
        }
    }
}

/// The state after a stack slot was allocated for a variable of the given
/// name and type and the value was stored in it, and the slot. Nothing is
/// stored for a wildcard.
pub open spec fn gen_slot_spec(st: GenState, name: Seq<char>, ty: LowType, value: Operand) -> (
    GenState,
    Option<Slot>,
) {
    if is_wildcard(name) {
        (st, None)
    } else {
        let place = Place::Local(st.code.len() as usize);
        let st1 = emit(st, ActionView::Alloca { ty, name });
        (emit(st1, ActionView::Store { place, value }), Some(Slot { place, ty }))
    }
}

/// The state after the initial value of a `let` was computed and stored
/// in a new stack slot, and the slot.
pub open spec fn gen_let_spec(st: GenState, name: Seq<char>, ty: TypeView, init: ExprView) -> Result<
    (GenState, Option<Slot>),
    CodegenErrorView,
>
    decreases init, 2nat,
{
    match gen_expr_spec(st, init) {
        Err(e) => Err(e),
        Ok((st1, value)) => match lower_type(ty) {
            None => if is_wildcard(name) {
                Ok((st1, None))
            } else {
                Err(CodegenErrorView::UnsupportedType)
            },
            Some(low) => Ok(gen_slot_spec(st1, name, low, value.value)),
        },
    }
}

/// The state in which the variable is in scope, in a scope of its own.
pub open spec fn with_slot(st: GenState, name: Seq<char>, slot: Option<Slot>) -> GenState {
    let entered = st.scopes.push(Seq::empty());
    GenState {
        scopes: match slot {
            Some(s) => declare_spec(entered, name, s),
            None => entered,
        },
        ..st
    }
}

/// The state after the innermost scope was closed.
pub open spec fn without_scope(st: GenState) -> GenState {
    GenState { scopes: st.scopes.drop_last(), ..st }
}

/// The code of `lhs && rhs` or `lhs || rhs`, which computes the right
/// operand only where the left one does not decide: the left operand, a
/// branch on it into a block for the right operand or past it, and a `phi`
/// that joins the two.
pub open spec fn gen_short_circuit_spec(st: GenState, e: ExprView, and_op: bool) -> Generated
    decreases e, 0nat,
{
    match e {
        ExprView::BinOp { lhs, op, rhs } => match gen_expr_spec(st, lhs.value) {
            Err(e) => Err(e),
            Ok((st1, l)) => if !is_int(l) {
                Err(CodegenErrorView::InvalidOperand)
            } else {
                let lhs_block = st1.current;
                let rhs_block = st1.code.len() as usize;
                let st2 = emit(st1, ActionView::AppendBlock { name: "rhs"@ });
                let merge_block = st2.code.len() as usize;
                let st3 = emit(st2, ActionView::AppendBlock { name: "merge"@ });
                let st4 = if and_op {
                    st3
                } else {
                    emit(st3, ActionView::Not { value: l.value, name: "not"@ })
                };
                let cond = if and_op {
                    l.value
                } else {
                    next_temp(st3)
                };
                let st5 = emit(
                    st4,
                    ActionView::CondBranch { cond, then_block: rhs_block, else_block: merge_block },
                );
                match gen_expr_spec(move_to(st5, rhs_block), rhs.value) {
                    Err(e) => Err(e),
                    Ok((st6, r)) => if !is_int(r) {
                        Err(CodegenErrorView::InvalidOperand)
                    } else {
                        let rhs_end = st6.current;
                        let st7 = move_to(
                            emit(st6, ActionView::Branch { target: merge_block }),
                            merge_block,
                        );
                        Ok(
                            (
                                emit(
                                    st7,
                                    ActionView::Phi {
                                        ty: LowType::I1,
                                        first: (l.value, lhs_block),
                                        second: (r.value, rhs_end),
                                        name: "logical_op"@,
                                    },
                                ),
                                Typed { value: next_temp(st7), ty: LowType::I1 },
                            ),
                        )
                    },
                }
            },
        },
        _ => Err(CodegenErrorView::UnsupportedExpression),
    }
}

/// The state after the first `n` arguments of a call were computed, and
/// their values.
pub open spec fn gen_args_spec(st: GenState, args: Seq<SpannedView<ExprView>>, n: nat) -> Result<
    (GenState, Seq<Typed>),
    CodegenErrorView,
>
    decreases args, n,
{
    if n == 0 || n > args.len() {
        Ok((st, Seq::empty()))
    } else {
        match gen_args_spec(st, args, (n - 1) as nat) {
            Err(e) => Err(e),
            Ok((st1, values)) => match gen_expr_spec(st1, args[n - 1].value) {
                Err(e) => Err(e),
                Ok((st2, value)) => Ok((st2, values.push(value))),
            },
        }
    }
}

/// The operands of a list of values.
pub open spec fn operands(values: Seq<Typed>) -> Seq<Operand> {
    Seq::new(values.len(), |i: int| values[i].value)
}

/// The function that a call of `name` with the given arguments goes to,
/// and what it returns: for `print` the runtime function for the type of
/// the first argument, else the function of the program with that name.
pub open spec fn callee_spec(st: GenState, name: Seq<char>, values: Seq<Typed>) -> Result<
    (Seq<char>, Returns),
    CodegenErrorView,
> {
    if name == "print"@ {
        if values.len() == 0 {
            Err(CodegenErrorView::InvalidOperand)
        } else {
            Ok((print_function(values[0].ty), Returns::Void))
        }
    } else {
        match crate::semantic::symbol_table::scope_find(st.functions, name) {
            Some(i) => Ok((name, st.functions[i].1)),
            None => Err(CodegenErrorView::UndefinedFunction(name)),
        }
    }
}

/// The value of a call whose action is the next one.
pub open spec fn call_value(st: GenState, kind: Returns) -> Typed {
    match kind {
        Returns::Value(ty) => Typed { value: next_temp(st), ty },
        Returns::Status => Typed { value: next_temp(st), ty: LowType::I32 },
        Returns::Void => unit_value(),
    }
}

/// The code of an expression: the state after its actions were added, and
/// its value.
///
/// A variable is read from its slot. A `let` stores its initial value in
/// a new slot, which is in scope in the rest of its chain. A condition is
/// compared with zero and branched on; the two branches of a conditional
/// meet in a `phi` of their values; a loop branches back from its body to
/// its condition and has the unit value. Strings and arrays have no code.
pub open spec fn gen_expr_spec(st: GenState, e: ExprView) -> Generated
    decreases e, 1nat,
{
    match e {
        ExprView::Int(n) => Ok((st, Typed { value: Operand::ConstInt(n), ty: LowType::I32 })),
        ExprView::Bool(b) => Ok((st, Typed { value: Operand::ConstBool(b), ty: LowType::I1 })),
        ExprView::Unit => Ok((st, unit_value())),
        ExprView::Id(id) => match lookup_spec(st.scopes, id.value) {
            None => Err(CodegenErrorView::UndefinedVariable(id.value)),
            Some(slot) => Ok(
                (
                    emit(
                        st,
                        ActionView::Load { ty: slot.ty, place: slot.place, name: id.value },
                    ),
                    Typed { value: next_temp(st), ty: slot.ty },
                ),
            ),
        },
        ExprView::Chain { lhs, rhs } => match lhs.value {
            ExprView::Let { id, ty, expr } => match gen_let_spec(
                st,
                id.value,
                ty.value,
                expr.value,
            ) {
                Err(e) => Err(e),
                Ok((st1, slot)) => match gen_expr_spec(with_slot(st1, id.value, slot), rhs.value) {
                    Err(e) => Err(e),
                    Ok((st2, value)) => Ok((without_scope(st2), value)),
                },
            },
            _ => match gen_expr_spec(st, lhs.value) {
                Err(e) => Err(e),
                Ok((st1, _)) => gen_expr_spec(st1, rhs.value),
            },
        },
        ExprView::Let { id, ty, expr } => match gen_let_spec(st, id.value, ty.value, expr.value) {
            Err(e) => Err(e),
            Ok((st1, slot)) => Ok((st1, unit_value())),
        },
        ExprView::SetLhs { lhs, expr } => match lhs.value {
            LhsView::Var { id } => match lookup_spec(st.scopes, id.value) {
                None => Err(CodegenErrorView::UndefinedVariable(id.value)),
                Some(slot) => match gen_expr_spec(st, expr.value) {
                    Err(e) => Err(e),
                    Ok((st1, value)) => Ok(
                        (
                            emit(
                                st1,
                                ActionView::Store { place: slot.place, value: value.value },
                            ),
                            unit_value(),
                        ),
                    ),
                },
            },
            LhsView::Index { .. } => Err(CodegenErrorView::UnsupportedExpression),
        },
        ExprView::BinOp { lhs, op, rhs } => match op {
            Op::And => gen_short_circuit_spec(st, e, true),
            Op::Or => gen_short_circuit_spec(st, e, false),
            _ => match gen_expr_spec(st, lhs.value) {
                Err(e) => Err(e),
                Ok((st1, l)) => match gen_expr_spec(st1, rhs.value) {
                    Err(e) => Err(e),
                    Ok((st2, r)) => gen_binary_spec(st2, op, l, r),
                },
            },
        },
        ExprView::Not { expr } => match gen_expr_spec(st, expr.value) {
            Err(e) => Err(e),
            Ok((st1, v)) => if !is_int(v) {
                Err(CodegenErrorView::InvalidOperand)
            } else {
                Ok(
                    (
                        emit(st1, ActionView::Not { value: v.value, name: "not"@ }),
                        Typed { value: next_temp(st1), ty: v.ty },
                    ),
                )
            },
        },
        ExprView::While { cond, expr } => {
            let cond_block = st.code.len() as usize;
            let st1 = emit(st, ActionView::AppendBlock { name: "cond"@ });
            let body_block = st1.code.len() as usize;
            let st2 = emit(st1, ActionView::AppendBlock { name: "body"@ });
            let after_block = st2.code.len() as usize;
            let st3 = emit(st2, ActionView::AppendBlock { name: "after"@ });
            let st4 = move_to(emit(st3, ActionView::Branch { target: cond_block }), cond_block);
            match gen_expr_spec(st4, cond.value) {
                Err(e) => Err(e),
                Ok((st5, c)) => if !is_int(c) {
                    Err(CodegenErrorView::InvalidOperand)
                } else {
                    let test = next_temp(st5);
                    let st6 = emit(
                        st5,
                        ActionView::Compare {
                            pred: Predicate::NE,
                            lhs: c.value,
                            rhs: Operand::ConstBool(false),
                            name: "while_cond"@,
                        },
                    );
                    let st7 = move_to(
                        emit(
                            st6,
                            ActionView::CondBranch {
                                cond: test,
                                then_block: body_block,
                                else_block: after_block,
                            },
                        ),
                        body_block,
                    );
                    match gen_expr_spec(st7, expr.value) {
                        Err(e) => Err(e),
                        Ok((st8, _)) => Ok(
                            (
                                move_to(
                                    emit(st8, ActionView::Branch { target: cond_block }),
                                    after_block,
                                ),
                                unit_value(),
                            ),
                        ),
                    }
                },
            }
        },
        ExprView::IfElse { cond, then, els } => {
            let then_block = st.code.len() as usize;
            let st1 = emit(st, ActionView::AppendBlock { name: "then"@ });
            let else_block = st1.code.len() as usize;
            let st2 = emit(st1, ActionView::AppendBlock { name: "else"@ });
            let merge_block = st2.code.len() as usize;
            let st3 = emit(st2, ActionView::AppendBlock { name: "merge"@ });
            match gen_expr_spec(st3, cond.value) {
                Err(e) => Err(e),
                Ok((st4, c)) => if !is_int(c) {
                    Err(CodegenErrorView::InvalidOperand)
                } else {
                    let test = next_temp(st4);
                    let st5 = emit(
                        st4,
                        ActionView::Compare {
                            pred: Predicate::NE,
                            lhs: c.value,
                            rhs: zero_of(c.ty),
                            name: "if_cond"@,
                        },
                    );
                    let st6 = move_to(
                        emit(
                            st5,
                            ActionView::CondBranch { cond: test, then_block, else_block },
                        ),
                        then_block,
                    );
                    match gen_expr_spec(st6, then.value) {
                        Err(e) => Err(e),
                        Ok((st7, t)) => {
                            let then_end = st7.current;
                            let st8 = move_to(
                                emit(st7, ActionView::Branch { target: merge_block }),
                                else_block,
                            );
                            match gen_expr_spec(st8, els.value) {
                                Err(e) => Err(e),
                                Ok((st9, f)) => {
                                    let else_end = st9.current;
                                    let st10 = move_to(
                                        emit(st9, ActionView::Branch { target: merge_block }),
                                        merge_block,
                                    );
                                    Ok(
                                        (
                                            emit(
                                                st10,
                                                ActionView::Phi {
                                                    ty: t.ty,
                                                    first: (t.value, then_end),
                                                    second: (f.value, else_end),
                                                    name: "phi"@,
                                                },
                                            ),
                                            Typed { value: next_temp(st10), ty: t.ty },
                                        ),
                                    )
                                },
                            }
                        },
                    }
                },
            }
        },
        ExprView::FunCall { id, args } => match gen_args_spec(st, args, args.len()) {
            Err(e) => Err(e),
            Ok((st1, values)) => match callee_spec(st1, id.value, values) {
                Err(e) => Err(e),
                Ok((callee, kind)) => Ok(
                    (
                        emit(
                            st1,
                            ActionView::Call { callee, args: operands(values), name: "call"@ },
                        ),
                        call_value(st1, kind),
                    ),
                ),
            },
        },
        ExprView::String(_) | ExprView::NewArray { .. } | ExprView::ArrayIndex { .. } => Err(
            CodegenErrorView::UnsupportedExpression,
        ),
    }
}

} // verus!

verus! {

/// The generator of the code of one program.
pub struct CodeGen {
    /// The actions of the function that is being built.
    pub actions: Vec<Action>,
    /// The block that instructions are added to.
    pub current: usize,
    /// The variables in scope.
    pub symbols: SymbolTable<Slot>,
    /// What each function of the program returns.
    pub functions: crate::semantic::symbol_table::Scope<Returns>,
    /// The functions of the program, in the order of their declaration.
    pub signatures: Vec<Signature>,
    /// The globals of the program, in the order of their declaration.
    pub globals: Vec<Global>,
    /// The actions of each function that has been built.
    pub bodies: Vec<Vec<Action>>,
}

fn named(name: &str) -> (owned: String)
    ensures
        owned@ == name@,
{
    name.to_owned()
}

impl CodeGen {
    /// The generator's state as a mathematical value.
    pub open spec fn state(&self) -> GenState {
        GenState {
            code: action_views(self.actions@),
            current: self.current,
            scopes: self.symbols@,
            functions: self.functions@,
        }
    }

    /// Whether what is not part of the state is the same in two
    /// generators.
    pub open spec fn same_module(&self, other: &CodeGen) -> bool {
        &&& self.functions == other.functions
        &&& self.signatures == other.signatures
        &&& self.globals == other.globals
        &&& self.bodies == other.bodies
    }

    fn push(&mut self, action: Action) -> (index: usize)
        ensures
            final(self).state() == emit(old(self).state(), action@),
            final(self).symbols == old(self).symbols,
            final(self).same_module(old(self)),
            Operand::Temp(index) == next_temp(old(self).state()),
            index == old(self).state().code.len() as usize,
    {
        let index = self.actions.len();
        self.actions.push(action);
        proof {
            assert(action_views(self.actions@) =~= action_views(old(self).actions@).push(action@));
        }
        index
    }

    fn position_at(&mut self, block: usize)
        ensures
            final(self).state() == move_to(old(self).state(), block),
            final(self).symbols == old(self).symbols,
            final(self).same_module(old(self)),
    {
        self.push(Action::PositionAtEnd { block });
        self.current = block;
    }

    fn append_block(&mut self, name: &str) -> (block: usize)
        ensures
            final(self).state() == emit(
                old(self).state(),
                ActionView::AppendBlock { name: name@ },
            ),
            final(self).symbols == old(self).symbols,
            final(self).same_module(old(self)),
            block == old(self).state().code.len() as usize,
    {
        self.push(Action::AppendBlock { name: named(name) })
    }

    fn gen_binary(&mut self, op: Op, l: Typed, r: Typed) -> (result: Result<Typed, CodegenError>)
        ensures
            final(self).symbols == old(self).symbols,
            final(self).same_module(old(self)),
            match result {
                Ok(v) => gen_binary_spec(old(self).state(), op, l, r) == Ok::<
                    (GenState, Typed),
                    CodegenErrorView,
                >((final(self).state(), v)),
                Err(e) => gen_binary_spec(old(self).state(), op, l, r) == Err::<
                    (GenState, Typed),
                    CodegenErrorView,
                >(e@),
            },
    {
        let l_int = match l.ty {
            LowType::Unit => false,
            _ => true,
        };
        let r_int = match r.ty {
            LowType::Unit => false,
            _ => true,
        };
        if !l_int || !r_int {
            return Err(CodegenError::InvalidOperand);
        }
        let lhs = l.value;
        let rhs = r.value;
        match op {
            Op::Add => {
                let t = self.push(Action::Arith { op: Arith::Add, lhs, rhs, name: named("add") });
                Ok(Typed { value: Operand::Temp(t), ty: LowType::I32 })
            },
            Op::Sub => {
                let t = self.push(Action::Arith { op: Arith::Sub, lhs, rhs, name: named("sub") });
                Ok(Typed { value: Operand::Temp(t), ty: LowType::I32 })
            },
            Op::Mul => {
                let t = self.push(Action::Arith { op: Arith::Mul, lhs, rhs, name: named("mul") });
                Ok(Typed { value: Operand::Temp(t), ty: LowType::I32 })
            },
            Op::Mod => {
                let t = self.push(Action::Arith { op: Arith::SRem, lhs, rhs, name: named("mod") });
                Ok(Typed { value: Operand::Temp(t), ty: LowType::I32 })
            },
            Op::Div => {
                let mut args: Vec<Operand> = Vec::new();
                args.push(lhs);
                args.push(rhs);
                proof {
                    assert(args@ =~= seq![lhs, rhs]);
                }
                let t = self.push(
                    Action::Call { callee: named("__div__"), args, name: named("div") },
                );
                Ok(Typed { value: Operand::Temp(t), ty: LowType::I32 })
            },
            Op::Pow => {
                let mut args: Vec<Operand> = Vec::new();
                args.push(lhs);
                args.push(rhs);
                proof {
                    assert(args@ =~= seq![lhs, rhs]);
                }
                let t = self.push(
                    Action::Call { callee: named("__pow__"), args, name: named("pow") },
                );
                Ok(Typed { value: Operand::Temp(t), ty: LowType::I32 })
            },
            Op::Eq => {
                let t = self.push(
                    Action::Compare { pred: Predicate::EQ, lhs, rhs, name: named("eq") },
                );
                Ok(Typed { value: Operand::Temp(t), ty: LowType::I1 })
            },
            Op::Neq => {
                let t = self.push(
                    Action::Compare { pred: Predicate::NE, lhs, rhs, name: named("neq") },
                );
                Ok(Typed { value: Operand::Temp(t), ty: LowType::I1 })
            },
            Op::Lt => {
                let t = self.push(
                    Action::Compare { pred: Predicate::SLT, lhs, rhs, name: named("lt") },
                );
                Ok(Typed { value: Operand::Temp(t), ty: LowType::I1 })
            },
            Op::Leq => {
                let t = self.push(
                    Action::Compare { pred: Predicate::SLE, lhs, rhs, name: named("leq") },
                );
                Ok(Typed { value: Operand::Temp(t), ty: LowType::I1 })
            },
            Op::Gt => {
                let t = self.push(
                    Action::Compare { pred: Predicate::SGT, lhs, rhs, name: named("gt") },
                );
                Ok(Typed { value: Operand::Temp(t), ty: LowType::I1 })
            },
            Op::Geq => {
                let t = self.push(
                    Action::Compare { pred: Predicate::SGE, lhs, rhs, name: named("geq") },
                );
                Ok(Typed { value: Operand::Temp(t), ty: LowType::I1 })
            },
            Op::And | Op::Or => Err(CodegenError::InvalidOperand),
        }
    }

    fn gen_slot(&mut self, name: &str, ty: LowType, value: Operand) -> (slot: Option<Slot>)
        ensures
            final(self).symbols == old(self).symbols,
            final(self).same_module(old(self)),
            (final(self).state(), slot) == gen_slot_spec(old(self).state(), name@, ty, value),
    {
        if starts_with_underscore(name) {
            return None;
        }
        let index = self.push(Action::Alloca { ty, name: named(name) });
        let place = Place::Local(index);
        self.push(Action::Store { place, value });
        Some(Slot { place, ty })
    }
}

} // verus!

verus! {

/// Whether what a step of the generator returned, and the state it left,
/// are what the specification of the step gives.
pub open spec fn generated(
    result: Result<Typed, CodegenError>,
    expected: Generated,
    after: GenState,
) -> bool {
    match result {
        Ok(v) => expected == Ok::<(GenState, Typed), CodegenErrorView>((after, v)),
        Err(e) => expected matches Err(ev) && ev == e@,
    }
}

impl CodeGen {
    /// Whether the table of variables is well formed.
    pub open spec fn wf(&self) -> bool {
        self.symbols.wf()
    }

    fn gen_let(&mut self, name: &str, ty: &Type, init: &Expr) -> (result: Result<
        Option<Slot>,
        CodegenError,
    >)
        requires
            old(self).wf(),
        ensures
            match result {
                Ok(slot) => gen_let_spec(old(self).state(), name@, ty@, init@) == Ok::<
                    (GenState, Option<Slot>),
                    CodegenErrorView,
                >((final(self).state(), slot)) && final(self).symbols@ == old(self).symbols@ && final(self).same_module(old(self)),
                Err(e) => gen_let_spec(old(self).state(), name@, ty@, init@) matches Err(ev) && ev
                    == e@,
            },
        decreases init, 2nat,
    {
        let value = match self.gen_expr(init) {
            Ok(v) => v,
            Err(e) => {
                return Err(e);
            },
        };
        match llvm_type(ty) {
            None => if starts_with_underscore(name) {
                Ok(None)
            } else {
                Err(CodegenError::UnsupportedType)
            },
            Some(low) => Ok(self.gen_slot(name, low, value.value)),
        }
    }

    fn build_short_circuit_op(&mut self, expr: &Expr, and_op: bool) -> (result: Result<
        Typed,
        CodegenError,
    >)
        requires
            old(self).wf(),
        ensures
            generated(
                result,
                gen_short_circuit_spec(old(self).state(), expr@, and_op),
                final(self).state(),
            ),
            result is Ok ==> final(self).symbols@ == old(self).symbols@ && final(self).same_module(old(self)),
        decreases expr, 0nat,
    {
        match expr {
            Expr::BinOp { lhs, op: _, rhs } => {
                let l = match self.gen_expr(&lhs.value) {
                    Ok(v) => v,
                    Err(e) => {
                        return Err(e);
                    },
                };
                if let LowType::Unit = l.ty {
                    return Err(CodegenError::InvalidOperand);
                }
                let lhs_block = self.current;
                let rhs_block = self.append_block("rhs");
                let merge_block = self.append_block("merge");
                let cond = if and_op {
                    l.value
                } else {
                    Operand::Temp(self.push(Action::Not { value: l.value, name: named("not") }))
                };
                self.push(
                    Action::CondBranch { cond, then_block: rhs_block, else_block: merge_block },
                );
                self.position_at(rhs_block);
                let r = match self.gen_expr(&rhs.value) {
                    Ok(v) => v,
                    Err(e) => {
                        return Err(e);
                    },
                };
                if let LowType::Unit = r.ty {
                    return Err(CodegenError::InvalidOperand);
                }
                let rhs_end = self.current;
                self.push(Action::Branch { target: merge_block });
                self.position_at(merge_block);
                let t = self.push(
                    Action::Phi {
                        ty: LowType::I1,
                        first: (l.value, lhs_block),
                        second: (r.value, rhs_end),
                        name: named("logical_op"),
                    },
                );
                Ok(Typed { value: Operand::Temp(t), ty: LowType::I1 })
            },
            _ => Err(CodegenError::UnsupportedExpression),
        }
    }

    fn gen_args(&mut self, args: &Vec<Spanned<Expr>>) -> (result: Result<Vec<Typed>, CodegenError>)
        requires
            old(self).wf(),
        ensures
            match result {
                Ok(values) => gen_args_spec(
                    old(self).state(),
                    Seq::new(args@.len(), |i: int| args@[i]@),
                    args@.len() as nat,
                ) == Ok::<(GenState, Seq<Typed>), CodegenErrorView>((final(self).state(), values@))
                    && final(self).symbols@ == old(self).symbols@ && final(self).same_module(old(self)),
                Err(e) => gen_args_spec(
                    old(self).state(),
                    Seq::new(args@.len(), |i: int| args@[i]@),
                    args@.len() as nat,
                ) matches Err(ev) && ev == e@,
            },
        decreases args, 0nat,
    {
        let ghost views = Seq::new(args@.len(), |i: int| args@[i]@);
        let mut values: Vec<Typed> = Vec::new();
        let mut i: usize = 0;
        while i < args.len()
            invariant
                i <= args@.len(),
                self.wf(),
                self.symbols@ == old(self).symbols@,
                self.same_module(old(self)),
                views == Seq::new(args@.len(), |i: int| args@[i]@),
                gen_args_spec(old(self).state(), views, i as nat) == Ok::<
                    (GenState, Seq<Typed>),
                    CodegenErrorView,
                >((self.state(), values@)),
            decreases args@.len() - i,
        {
            match self.gen_expr(&args[i].value) {
                Ok(v) => {
                    values.push(v);
                },
                Err(e) => {
                    proof {
                        lemma_args_error_stays(old(self).state(), views, (i + 1) as nat, args@.len() as nat);
                    }
                    return Err(e);
                },
            }
            i += 1;
        }
        Ok(values)
    }
}

/// An error in the first arguments of a call is the error of all of them.
proof fn lemma_args_error_stays(st: GenState, args: Seq<SpannedView<ExprView>>, n: nat, m: nat)
    requires
        n <= m <= args.len(),
        gen_args_spec(st, args, n) is Err,
    ensures
        gen_args_spec(st, args, m) == gen_args_spec(st, args, n),
    decreases m,
{
    if n < m {
        lemma_args_error_stays(st, args, n, (m - 1) as nat);
    }
}

} // verus!

verus! {

impl CodeGen {
    fn gen_call(&mut self, name: &str, values: Vec<Typed>) -> (result: Result<Typed, CodegenError>)
        ensures
            final(self).symbols == old(self).symbols,
            final(self).same_module(old(self)),
            match result {
                Ok(v) => callee_spec(old(self).state(), name@, values@) matches Ok(target)
                    && final(self).state() == emit(
                    old(self).state(),
                    ActionView::Call { callee: target.0, args: operands(values@), name: "call"@ },
                ) && v == call_value(old(self).state(), target.1),
                Err(e) => callee_spec(old(self).state(), name@, values@) matches Err(ev) && ev
                    == e@,
            },
    {
        let mut args: Vec<Operand> = Vec::new();
        let mut i: usize = 0;
        while i < values.len()
            invariant
                i <= values@.len(),
                args@.len() == i,
                forall|j: int| 0 <= j < i ==> #[trigger] args@[j] == values@[j].value,
            decreases values@.len() - i,
        {
            args.push(values[i].value);
            i += 1;
        }
        proof {
            assert(args@ =~= operands(values@));
        }
        let (callee, kind) = if crate::utils::same_text(name, "print") {
            if values.len() == 0 {
                return Err(CodegenError::InvalidOperand);
            }
            (named(print_function_for(values[0].ty)), Returns::Void)
        } else {
            match self.functions.find(name) {
                Some(k) => (named(name), self.functions.symbols[k].1),
                None => {
                    return Err(CodegenError::UndefinedFunction(named(name)));
                },
            }
        };
        let t = self.push(Action::Call { callee, args, name: named("call") });
        Ok(
            match kind {
                Returns::Value(ty) => Typed { value: Operand::Temp(t), ty },
                Returns::Status => Typed { value: Operand::Temp(t), ty: LowType::I32 },
                Returns::Void => Typed { value: Operand::ConstUnit, ty: LowType::Unit },
            },
        )
    }

    /// Finds where the variable lives that an l-value names. An element
    /// of an array has no place yet.
    pub fn gen_lhs(&self, lhs: &Lhs) -> (result: Result<Slot, CodegenError>)
        ensures
            match lhs@ {
                LhsView::Var { id } => match lookup_spec(self.symbols@, id.value) {
                    Some(slot) => result == Ok::<Slot, CodegenError>(slot),
                    None => result matches Err(e) && e@ == CodegenErrorView::UndefinedVariable(
                        id.value,
                    ),
                },
                LhsView::Index { .. } => result matches Err(e) && e@
                    == CodegenErrorView::UnsupportedExpression,
            },
    {
        match lhs {
            Lhs::Var { id } => match self.find_slot(id.value.as_str()) {
                Some(slot) => Ok(slot),
                None => Err(CodegenError::UndefinedVariable(id.value.clone())),
            },
            Lhs::Index { .. } => Err(CodegenError::UnsupportedExpression),
        }
    }

    fn find_slot(&self, name: &str) -> (slot: Option<Slot>)
        ensures
            slot == lookup_spec(self.symbols@, name@),
    {
        match self.symbols.lookup(name) {
            Some(slot) => Some(*slot),
            None => None,
        }
    }

    fn gen_chain(&mut self, expr: &Expr) -> (result: Result<Typed, CodegenError>)
        requires
            old(self).wf(),
            expr is Chain,
        ensures
            generated(result, gen_expr_spec(old(self).state(), expr@), final(self).state()),
            result is Ok ==> final(self).symbols@ == old(self).symbols@ && final(self).same_module(old(self)),
        decreases expr, 0nat,
    {
        match expr {
            Expr::Chain { lhs, rhs } => match &lhs.value {
                Expr::Let { id, ty, expr: init } => {
                    let slot = match self.gen_let(id.value.as_str(), &ty.value, &init.value) {
                        Ok(slot) => slot,
                        Err(e) => {
                            return Err(e);
                        },
                    };
                    self.symbols.enter_scope();
                    match slot {
                        Some(s) => {
                            self.symbols.declare(id.value.as_str(), s);
                        },
                        None => {},
                    }
                    let value = match self.gen_expr(&rhs.value) {
                        Ok(v) => v,
                        Err(e) => {
                            return Err(e);
                        },
                    };
                    self.symbols.exit_scope();
                    proof {
                        let entered = old(self).symbols@.push(Seq::empty());
                        assert(entered.drop_last() =~= old(self).symbols@);
                        match slot {
                            Some(s) => {
                                assert(declare_spec(entered, id.value@, s).drop_last()
                                    =~= entered.drop_last());
                            },
                            None => {},
                        }
                    }
                    Ok(value)
                },
                _ => {
                    match self.gen_expr(&lhs.value) {
                        Ok(_) => {},
                        Err(e) => {
                            return Err(e);
                        },
                    }
                    self.gen_expr(&rhs.value)
                },
            },
            _ => Err(CodegenError::UnsupportedExpression),
        }
    }

    fn gen_set(&mut self, expr: &Expr) -> (result: Result<Typed, CodegenError>)
        requires
            old(self).wf(),
            expr is SetLhs,
        ensures
            generated(result, gen_expr_spec(old(self).state(), expr@), final(self).state()),
            result is Ok ==> final(self).symbols@ == old(self).symbols@ && final(self).same_module(old(self)),
        decreases expr, 0nat,
    {
        proof {
            reveal_with_fuel(crate::syntax::ast::expr_view, 2);
            reveal_with_fuel(crate::syntax::ast::lhs_view, 2);
        }
        match expr {
            Expr::SetLhs { lhs, expr: value } => {
                let slot = match self.gen_lhs(&lhs.value) {
                    Ok(slot) => slot,
                    Err(e) => {
                        return Err(e);
                    },
                };
                let v = match self.gen_expr(&value.value) {
                    Ok(v) => v,
                    Err(e) => {
                        return Err(e);
                    },
                };
                self.push(Action::Store { place: slot.place, value: v.value });
                Ok(Typed { value: Operand::ConstUnit, ty: LowType::Unit })
            },
            _ => Err(CodegenError::UnsupportedExpression),
        }
    }

    fn gen_operation(&mut self, expr: &Expr) -> (result: Result<Typed, CodegenError>)
        requires
            old(self).wf(),
            expr is BinOp,
            expr->BinOp_op != Op::And,
            expr->BinOp_op != Op::Or,
        ensures
            generated(result, gen_expr_spec(old(self).state(), expr@), final(self).state()),
            result is Ok ==> final(self).symbols@ == old(self).symbols@ && final(self).same_module(old(self)),
        decreases expr, 0nat,
    {
        match expr {
            Expr::BinOp { lhs, op, rhs } => match op {
                Op::And | Op::Or => Err(CodegenError::InvalidOperand),
                _ => {
                    let l = match self.gen_expr(&lhs.value) {
                        Ok(v) => v,
                        Err(e) => {
                            return Err(e);
                        },
                    };
                    let r = match self.gen_expr(&rhs.value) {
                        Ok(v) => v,
                        Err(e) => {
                            return Err(e);
                        },
                    };
                    self.gen_binary(*op, l, r)
                },
            },
            _ => Err(CodegenError::UnsupportedExpression),
        }
    }

    fn gen_while(&mut self, expr: &Expr) -> (result: Result<Typed, CodegenError>)
        requires
            old(self).wf(),
            expr is While,
        ensures
            generated(result, gen_expr_spec(old(self).state(), expr@), final(self).state()),
            result is Ok ==> final(self).symbols@ == old(self).symbols@ && final(self).same_module(old(self)),
        decreases expr, 0nat,
    {
        match expr {
            Expr::While { cond, expr: body } => {
                let cond_block = self.append_block("cond");
                let body_block = self.append_block("body");
                let after_block = self.append_block("after");
                self.push(Action::Branch { target: cond_block });
                self.position_at(cond_block);
                let c = match self.gen_expr(&cond.value) {
                    Ok(v) => v,
                    Err(e) => {
                        return Err(e);
                    },
                };
                if let LowType::Unit = c.ty {
                    return Err(CodegenError::InvalidOperand);
                }
                let test = self.push(
                    Action::Compare {
                        pred: Predicate::NE,
                        lhs: c.value,
                        rhs: Operand::ConstBool(false),
                        name: named("while_cond"),
                    },
                );
                self.push(
                    Action::CondBranch {
                        cond: Operand::Temp(test),
                        then_block: body_block,
                        else_block: after_block,
                    },
                );
                self.position_at(body_block);
                match self.gen_expr(&body.value) {
                    Ok(_) => {},
                    Err(e) => {
                        return Err(e);
                    },
                }
                self.push(Action::Branch { target: cond_block });
                self.position_at(after_block);
                Ok(Typed { value: Operand::ConstUnit, ty: LowType::Unit })
            },
            _ => Err(CodegenError::UnsupportedExpression),
        }
    }

    fn gen_if(&mut self, expr: &Expr) -> (result: Result<Typed, CodegenError>)
        requires
            old(self).wf(),
            expr is IfElse,
        ensures
            generated(result, gen_expr_spec(old(self).state(), expr@), final(self).state()),
            result is Ok ==> final(self).symbols@ == old(self).symbols@ && final(self).same_module(old(self)),
        decreases expr, 0nat,
    {
        match expr {
            Expr::IfElse { cond, then, els } => {
                let then_block = self.append_block("then");
                let else_block = self.append_block("else");
                let merge_block = self.append_block("merge");
                let c = match self.gen_expr(&cond.value) {
                    Ok(v) => v,
                    Err(e) => {
                        return Err(e);
                    },
                };
                let zero = match c.ty {
                    LowType::Unit => {
                        return Err(CodegenError::InvalidOperand);
                    },
                    LowType::I1 => Operand::ConstBool(false),
                    LowType::I32 => Operand::ConstInt(0),
                };
                let test = self.push(
                    Action::Compare {
                        pred: Predicate::NE,
                        lhs: c.value,
                        rhs: zero,
                        name: named("if_cond"),
                    },
                );
                self.push(
                    Action::CondBranch { cond: Operand::Temp(test), then_block, else_block },
                );
                self.position_at(then_block);
                let t = match self.gen_expr(&then.value) {
                    Ok(v) => v,
                    Err(e) => {
                        return Err(e);
                    },
                };
                let then_end = self.current;
                self.push(Action::Branch { target: merge_block });
                self.position_at(else_block);
                let f = match self.gen_expr(&els.value) {
                    Ok(v) => v,
                    Err(e) => {
                        return Err(e);
                    },
                };
                let else_end = self.current;
                self.push(Action::Branch { target: merge_block });
                self.position_at(merge_block);
                let phi = self.push(
                    Action::Phi {
                        ty: t.ty,
                        first: (t.value, then_end),
                        second: (f.value, else_end),
                        name: named("phi"),
                    },
                );
                Ok(Typed { value: Operand::Temp(phi), ty: t.ty })
            },
            _ => Err(CodegenError::UnsupportedExpression),
        }
    }

    /// Adds the actions that compute an expression, and returns its value.
    pub fn gen_expr(&mut self, expr: &Expr) -> (result: Result<Typed, CodegenError>)
        requires
            old(self).wf(),
        ensures
            generated(result, gen_expr_spec(old(self).state(), expr@), final(self).state()),
            result is Ok ==> final(self).symbols@ == old(self).symbols@ && final(self).same_module(old(self)),
        decreases expr, 1nat,
    {
        match expr {
            Expr::Int(n) => Ok(Typed { value: Operand::ConstInt(*n), ty: LowType::I32 }),
            Expr::Bool(b) => Ok(Typed { value: Operand::ConstBool(*b), ty: LowType::I1 }),
            Expr::Unit => Ok(Typed { value: Operand::ConstUnit, ty: LowType::Unit }),
            Expr::Id(id) => match self.find_slot(id.value.as_str()) {
                None => Err(CodegenError::UndefinedVariable(id.value.clone())),
                Some(slot) => {
                    let t = self.push(
                        Action::Load { ty: slot.ty, place: slot.place, name: id.value.clone() },
                    );
                    Ok(Typed { value: Operand::Temp(t), ty: slot.ty })
                },
            },
            Expr::Chain { .. } => self.gen_chain(expr),
            Expr::Let { id, ty, expr: init } => match self.gen_let(
                id.value.as_str(),
                &ty.value,
                &init.value,
            ) {
                Ok(_) => Ok(Typed { value: Operand::ConstUnit, ty: LowType::Unit }),
                Err(e) => Err(e),
            },
            Expr::SetLhs { .. } => self.gen_set(expr),
            Expr::BinOp { lhs: _, op, rhs: _ } => match op {
                Op::And => self.build_short_circuit_op(expr, true),
                Op::Or => self.build_short_circuit_op(expr, false),
                _ => self.gen_operation(expr),
            },
            Expr::Not { expr: inner } => {
                let v = match self.gen_expr(&inner.value) {
                    Ok(v) => v,
                    Err(e) => {
                        return Err(e);
                    },
                };
                if let LowType::Unit = v.ty {
                    return Err(CodegenError::InvalidOperand);
                }
                let t = self.push(Action::Not { value: v.value, name: named("not") });
                Ok(Typed { value: Operand::Temp(t), ty: v.ty })
            },
            Expr::While { .. } => self.gen_while(expr),
            Expr::IfElse { .. } => self.gen_if(expr),
            Expr::FunCall { id, args } => {
                proof {
                    assert(expr@->FunCall_args =~= Seq::new(args@.len(), |i: int| args@[i]@));
                }
                let values = match self.gen_args(args) {
                    Ok(v) => v,
                    Err(e) => {
                        return Err(e);
                    },
                };
                self.gen_call(id.value.as_str(), values)
            },
            Expr::String(_) | Expr::NewArray { .. } | Expr::ArrayIndex { .. } => Err(
                CodegenError::UnsupportedExpression,
            ),
        }
    }
}

} // verus!

verus! {

/// The types of the generated code for the first `n` types of a list, if
/// each of them has one.
pub open spec fn lower_types(types: Seq<TypeView>, n: nat) -> Option<Seq<LowType>>
    decreases n,
{
    if n == 0 || n > types.len() {
        Some(Seq::empty())
    } else {
        match (lower_types(types, (n - 1) as nat), lower_type(types[n - 1])) {
            (Some(before), Some(ty)) => Some(before.push(ty)),
            _ => None,
        }
    }
}

/// The signature that a function of the source has in the generated code.
pub open spec fn signature_spec(name: Seq<char>, ty: TypeView) -> Result<
    SignatureView,
    CodegenErrorView,
> {
    match ty {
        TypeView::Fun(params, ret) => match (
            lower_types(params, params.len()),
            lower_return(name, *ret),
        ) {
            (Some(low), Some(result)) => Ok(SignatureView { name, params: low, result }),
            _ => Err(CodegenErrorView::UnsupportedType),
        },
        _ => Err(CodegenErrorView::UnsupportedType),
    }
}

/// The state in which the first `n` parameters have their stack slots and
/// are in scope.
pub open spec fn gen_params_spec(
    st: GenState,
    names: Seq<SpannedView<Seq<char>>>,
    types: Seq<LowType>,
    n: nat,
) -> GenState
    decreases n,
{
    if n == 0 || n > names.len() || n > types.len() {
        st
    } else {
        let before = gen_params_spec(st, names, types, (n - 1) as nat);
        let name = names[n - 1].value;
        let made = gen_slot_spec(before, name, types[n - 1], Operand::Param((n - 1) as usize));
        match made.1 {
            Some(slot) => GenState { scopes: declare_spec(made.0.scopes, name, slot), ..made.0 },
            None => made.0,
        }
    }
}

/// The smaller of two lengths.
pub open spec fn least(a: nat, b: nat) -> nat {
    if a <= b {
        a
    } else {
        b
    }
}

/// The state in which the building of a function starts: an entry block
/// at which instructions go, and an empty scope for the parameters.
pub open spec fn entry_state(
    scopes: TableView<Slot>,
    functions: crate::semantic::symbol_table::ScopeView<Returns>,
) -> GenState {
    GenState {
        code: seq![
            ActionView::AppendBlock { name: "entry"@ },
            ActionView::PositionAtEnd { block: 0 },
        ],
        current: 0,
        scopes: scopes.push(Seq::empty()),
        functions,
    }
}

/// The actions of a function of the source: the entry block, a stack slot
/// for each parameter, the body, and the return. A function that returns
/// `Unit` returns nothing, but for `main`, which returns the status 0.
pub open spec fn gen_fun_spec(
    scopes: TableView<Slot>,
    functions: crate::semantic::symbol_table::ScopeView<Returns>,
    signature: SignatureView,
    names: Seq<SpannedView<Seq<char>>>,
    body: ExprView,
) -> Result<Seq<ActionView>, CodegenErrorView> {
    let st = gen_params_spec(
        entry_state(scopes, functions),
        names,
        signature.params,
        least(names.len(), signature.params.len()),
    );
    match gen_expr_spec(st, body) {
        Err(e) => Err(e),
        Ok((st1, value)) => Ok(
            st1.code.push(
                ActionView::Return {
                    value: match signature.result {
                        Returns::Status => Some(Operand::ConstInt(0)),
                        Returns::Void => None,
                        Returns::Value(_) => Some(value.value),
                    },
                },
            ),
        ),
    }
}

/// The initial value of a global, which must be written as a literal.
pub open spec fn global_init(e: ExprView) -> Result<Operand, CodegenErrorView> {
    match e {
        ExprView::Int(n) => Ok(Operand::ConstInt(n)),
        ExprView::Bool(b) => Ok(Operand::ConstBool(b)),
        ExprView::Unit => Ok(Operand::ConstUnit),
        ExprView::String(_) => Err(CodegenErrorView::UnsupportedExpression),
        _ => Err(CodegenErrorView::UnsupportedGlobal),
    }
}

/// The global that a variable of the source becomes.
pub open spec fn global_spec(name: Seq<char>, ty: TypeView, init: ExprView) -> Result<
    GlobalView,
    CodegenErrorView,
> {
    match global_init(init) {
        Err(e) => Err(e),
        Ok(value) => match lower_type(ty) {
            None => Err(CodegenErrorView::UnsupportedType),
            Some(low) => Ok(GlobalView { name, ty: low, init: value }),
        },
    }
}

/// The generated code of a program.
pub struct PlanView {
    pub signatures: Seq<SignatureView>,
    pub functions: crate::semantic::symbol_table::ScopeView<Returns>,
    pub globals: Seq<GlobalView>,
    pub scopes: TableView<Slot>,
    pub bodies: Seq<Seq<ActionView>>,
}

/// The plan after the signatures of the functions among the first `n`
/// declarations were added.
pub open spec fn signatures_spec(plan: PlanView, prog: Seq<SpannedView<DeclView>>, n: nat) -> Result<
    PlanView,
    CodegenErrorView,
>
    decreases n,
{
    if n == 0 || n > prog.len() {
        Ok(plan)
    } else {
        match signatures_spec(plan, prog, (n - 1) as nat) {
            Err(e) => Err(e),
            Ok(before) => match prog[n - 1].value {
                DeclView::Fun { id, params, ty, expr } => match signature_spec(
                    id.value,
                    ty.value,
                ) {
                    Err(e) => Err(e),
                    Ok(signature) => Ok(
                        PlanView {
                            signatures: before.signatures.push(signature),
                            functions: before.functions.push((id.value, signature.result)),
                            ..before
                        },
                    ),
                },
                DeclView::Var { .. } => Ok(before),
            },
        }
    }
}

/// The plan after the globals among the first `n` declarations were added
/// and brought into scope.
pub open spec fn globals_spec(plan: PlanView, prog: Seq<SpannedView<DeclView>>, n: nat) -> Result<
    PlanView,
    CodegenErrorView,
>
    decreases n,
{
    if n == 0 || n > prog.len() {
        Ok(plan)
    } else {
        match globals_spec(plan, prog, (n - 1) as nat) {
            Err(e) => Err(e),
            Ok(before) => match prog[n - 1].value {
                DeclView::Var { id, ty, expr } => match global_spec(
                    id.value,
                    ty.value,
                    expr.value,
                ) {
                    Err(e) => Err(e),
                    Ok(global) => Ok(
                        PlanView {
                            globals: before.globals.push(global),
                            scopes: declare_spec(
                                before.scopes,
                                id.value,
                                Slot {
                                    place: Place::Global(before.globals.len() as usize),
                                    ty: global.ty,
                                },
                            ),
                            ..before
                        },
                    ),
                },
                DeclView::Fun { .. } => Ok(before),
            },
        }
    }
}

/// The number of functions among the first `n` declarations.
pub open spec fn functions_before(prog: Seq<SpannedView<DeclView>>, n: nat) -> nat
    decreases n,
{
    if n == 0 || n > prog.len() {
        0
    } else {
        functions_before(prog, (n - 1) as nat) + if prog[n - 1].value is Fun {
            1nat
        } else {
            0nat
        }
    }
}

/// The plan after the functions among the first `n` declarations were
/// built.
pub open spec fn bodies_spec(plan: PlanView, prog: Seq<SpannedView<DeclView>>, n: nat) -> Result<
    PlanView,
    CodegenErrorView,
>
    decreases n,
{
    if n == 0 || n > prog.len() {
        Ok(plan)
    } else {
        match bodies_spec(plan, prog, (n - 1) as nat) {
            Err(e) => Err(e),
            Ok(before) => match prog[n - 1].value {
                DeclView::Fun { id, params, ty, expr } => {
                    let k = functions_before(prog, (n - 1) as nat);
                    if k >= before.signatures.len() {
                        Err(CodegenErrorView::UndefinedFunction(id.value))
                    } else {
                        match gen_fun_spec(
                            before.scopes,
                            before.functions,
                            before.signatures[k as int],
                            params,
                            expr.value,
                        ) {
                            Err(e) => Err(e),
                            Ok(code) => Ok(
                                PlanView { bodies: before.bodies.push(code), ..before },
                            ),
                        }
                    }
                },
                DeclView::Var { .. } => Ok(before),
            },
        }
    }
}

/// The plan in which nothing has been generated yet.
pub open spec fn empty_plan() -> PlanView {
    PlanView {
        signatures: Seq::empty(),
        functions: Seq::empty(),
        globals: Seq::empty(),
        scopes: seq![Seq::empty()],
        bodies: Seq::empty(),
    }
}

/// What a plan becomes when the code of a program is added to it: first
/// the signatures of all functions, so that each can call every other,
/// then the globals, then the bodies of the functions.
pub open spec fn plan_with(plan: PlanView, prog: Seq<SpannedView<DeclView>>) -> Result<
    PlanView,
    CodegenErrorView,
> {
    match signatures_spec(plan, prog, prog.len()) {
        Err(e) => Err(e),
        Ok(p1) => match globals_spec(p1, prog, prog.len()) {
            Err(e) => Err(e),
            Ok(p2) => bodies_spec(p2, prog, prog.len()),
        },
    }
}

/// The generated code of a program.
pub open spec fn program_plan(prog: Seq<SpannedView<DeclView>>) -> Result<PlanView, CodegenErrorView> {
    plan_with(empty_plan(), prog)
}

} // verus!

verus! {

/// The views of the actions of each function of a list.
pub open spec fn body_views(bodies: Seq<Vec<Action>>) -> Seq<Seq<ActionView>> {
    Seq::new(bodies.len(), |i: int| action_views(bodies[i]@))
}

/// Finds the types of the generated code for a list of types.
fn llvm_types(types: &Vec<Type>) -> (low: Option<Vec<LowType>>)
    ensures
        match low {
            Some(list) => lower_types(
                crate::syntax::ast::type_views(types@),
                types@.len() as nat,
            ) == Some(list@),
            None => lower_types(crate::syntax::ast::type_views(types@), types@.len() as nat)
                is None,
        },
{
    let ghost views = crate::syntax::ast::type_views(types@);
    let mut list: Vec<LowType> = Vec::new();
    let mut i: usize = 0;
    while i < types.len()
        invariant
            i <= types@.len(),
            views == crate::syntax::ast::type_views(types@),
            lower_types(views, i as nat) == Some(list@),
        decreases types@.len() - i,
    {
        match llvm_type(&types[i]) {
            Some(ty) => {
                list.push(ty);
            },
            None => {
                proof {
                    lemma_lower_types_fails(views, (i + 1) as nat, types@.len() as nat);
                }
                return None;
            },
        }
        i += 1;
    }
    Some(list)
}

proof fn lemma_lower_types_fails(types: Seq<TypeView>, n: nat, m: nat)
    requires
        n <= m <= types.len(),
        lower_types(types, n) is None,
    ensures
        lower_types(types, m) is None,
    decreases m,
{
    if n < m {
        lemma_lower_types_fails(types, n, (m - 1) as nat);
    }
}

impl CodeGen {
    /// What has been generated so far.
    pub open spec fn plan(&self) -> PlanView {
        PlanView {
            signatures: signature_views(self.signatures@),
            functions: self.functions@,
            globals: global_views(self.globals@),
            scopes: self.symbols@,
            bodies: body_views(self.bodies@),
        }
    }

    /// A generator that has generated nothing yet.
    pub fn new() -> (generator: CodeGen)
        ensures
            generator.wf(),
            generator.plan() == empty_plan(),
            generator.actions@.len() == 0,
    {
        let generator = CodeGen {
            actions: Vec::new(),
            current: 0,
            symbols: SymbolTable::new(Vec::new()),
            functions: crate::semantic::symbol_table::Scope { symbols: Vec::new() },
            signatures: Vec::new(),
            globals: Vec::new(),
            bodies: Vec::new(),
        };
        proof {
            assert(generator.symbols@[0] =~= Seq::empty());
            assert(generator.symbols@ =~= seq![Seq::empty()]);
            assert(generator.plan().signatures =~= Seq::empty());
            assert(generator.plan().functions =~= Seq::empty());
            assert(generator.plan().globals =~= Seq::empty());
            assert(generator.plan().bodies =~= Seq::empty());
        }
        generator
    }

    /// Adds the signature of a function.
    pub fn gen_fun_signature(&mut self, id: &str, ty: &crate::syntax::ast::FunType) -> (result:
        Result<(), CodegenError>)
        ensures
            final(self).actions == old(self).actions,
            match result {
                Ok(_) => signature_spec(id@, ty@) matches Ok(signature) && final(self).plan() == (
                PlanView {
                    signatures: old(self).plan().signatures.push(signature),
                    functions: old(self).plan().functions.push((id@, signature.result)),
                    ..old(self).plan()
                }),
                Err(e) => signature_spec(id@, ty@) matches Err(ev) && ev == e@,
            },
    {
        proof {
            assert(ty@->Fun_0 =~= crate::syntax::ast::type_views(ty.params@));
        }
        let params = match llvm_types(&ty.params) {
            Some(list) => list,
            None => {
                return Err(CodegenError::UnsupportedType);
            },
        };
        let result = match &*ty.ret {
            Type::Unit => if crate::utils::same_text(id, "main") {
                Returns::Status
            } else {
                Returns::Void
            },
            other => match llvm_type(other) {
                Some(low) => Returns::Value(low),
                None => {
                    return Err(CodegenError::UnsupportedType);
                },
            },
        };
        let signature = Signature { name: named(id), params, result };
        let ghost view = signature@;
        self.signatures.push(signature);
        self.functions.symbols.push((named(id), result));
        proof {
            assert(signature_views(self.signatures@) =~= signature_views(
                old(self).signatures@,
            ).push(view));
            assert(self.functions@ =~= old(self).functions@.push((id@, result)));
        }
        Ok(())
    }

    /// Adds the global for a variable of the source and brings it into
    /// scope.
    pub fn gen_decl(&mut self, name: &str, ty: &Type, init: &Expr) -> (result: Result<
        (),
        CodegenError,
    >)
        requires
            old(self).wf(),
        ensures
            final(self).actions == old(self).actions,
            result is Ok ==> final(self).wf(),
            match result {
                Ok(_) => global_spec(name@, ty@, init@) matches Ok(global) && final(self).plan() == (
                PlanView {
                    globals: old(self).plan().globals.push(global),
                    scopes: declare_spec(
                        old(self).plan().scopes,
                        name@,
                        Slot {
                            place: Place::Global(old(self).plan().globals.len() as usize),
                            ty: global.ty,
                        },
                    ),
                    ..old(self).plan()
                }),
                Err(e) => global_spec(name@, ty@, init@) matches Err(ev) && ev == e@,
            },
    {
        let value = match init {
            Expr::Int(n) => Operand::ConstInt(*n),
            Expr::Bool(b) => Operand::ConstBool(*b),
            Expr::Unit => Operand::ConstUnit,
            Expr::String(_) => {
                return Err(CodegenError::UnsupportedExpression);
            },
            _ => {
                return Err(CodegenError::UnsupportedGlobal);
            },
        };
        let low = match llvm_type(ty) {
            Some(low) => low,
            None => {
                return Err(CodegenError::UnsupportedType);
            },
        };
        let index = self.globals.len();
        let global = Global { name: named(name), ty: low, init: value };
        let ghost view = global@;
        self.globals.push(global);
        self.symbols.declare(name, Slot { place: Place::Global(index), ty: low });
        proof {
            assert(global_views(self.globals@) =~= global_views(old(self).globals@).push(view));
        }
        Ok(())
    }

    fn gen_params(&mut self, names: &Vec<Spanned<String>>, types: &Vec<LowType>)
        requires
            old(self).wf(),
        ensures
            final(self).wf(),
            final(self).symbols@.len() == old(self).symbols@.len(),
            final(self).symbols@.drop_last() == old(self).symbols@.drop_last(),
            final(self).same_module(old(self)),
            final(self).state() == gen_params_spec(
                old(self).state(),
                Seq::new(names@.len(), |i: int| names@[i]@),
                types@,
                least(names@.len(), types@.len()),
            ),
    {
        let ghost views = Seq::new(names@.len(), |i: int| names@[i]@);
        let n = if names.len() <= types.len() {
            names.len()
        } else {
            types.len()
        };
        let mut i: usize = 0;
        while i < n
            invariant
                i <= n,
                n <= names@.len(),
                n <= types@.len(),
                self.wf(),
                self.symbols@.len() == old(self).symbols@.len(),
                self.symbols@.drop_last() == old(self).symbols@.drop_last(),
                self.same_module(old(self)),
                views == Seq::new(names@.len(), |i: int| names@[i]@),
                self.state() == gen_params_spec(old(self).state(), views, types@, i as nat),
            decreases n - i,
        {
            let name = names[i].value.as_str();
            match self.gen_slot(name, types[i], Operand::Param(i)) {
                Some(slot) => {
                    let ghost before = self.symbols@;
                    self.symbols.declare(name, slot);
                    proof {
                        assert(self.symbols@.drop_last() =~= before.drop_last());
                    }
                },
                None => {},
            }
            i += 1;
        }
    }

    /// Builds the function with the signature at index `k`.
    pub fn gen_fun(&mut self, k: usize, names: &Vec<Spanned<String>>, body: &Expr) -> (result: Result<
        (),
        CodegenError,
    >)
        requires
            old(self).wf(),
            k < old(self).signatures@.len(),
        ensures
            match result {
                Ok(_) => gen_fun_spec(
                    old(self).plan().scopes,
                    old(self).plan().functions,
                    old(self).plan().signatures[k as int],
                    Seq::new(names@.len(), |i: int| names@[i]@),
                    body@,
                ) matches Ok(code) && final(self).plan() == (PlanView {
                    bodies: old(self).plan().bodies.push(code),
                    ..old(self).plan()
                }) && final(self).wf(),
                Err(e) => gen_fun_spec(
                    old(self).plan().scopes,
                    old(self).plan().functions,
                    old(self).plan().signatures[k as int],
                    Seq::new(names@.len(), |i: int| names@[i]@),
                    body@,
                ) matches Err(ev) && ev == e@,
            },
    {
        let ghost start_scopes = self.symbols@;
        let mut fresh: Vec<Action> = Vec::new();
        core::mem::swap(&mut self.actions, &mut fresh);
        self.current = 0;
        self.push(Action::AppendBlock { name: named("entry") });
        self.position_at(0);
        self.symbols.enter_scope();
        proof {
            assert(self.state().code =~= entry_state(start_scopes, self.functions@).code);
        }
        let params = {
            let signature = &self.signatures[k];
            let mut copy: Vec<LowType> = Vec::new();
            let mut i: usize = 0;
            while i < signature.params.len()
                invariant
                    i <= signature.params@.len(),
                    copy@ == signature.params@.take(i as int),
                decreases signature.params@.len() - i,
            {
                copy.push(signature.params[i]);
                proof {
                    assert(signature.params@.take(i as int).push(signature.params@[i as int])
                        =~= signature.params@.take(i + 1));
                }
                i += 1;
            }
            proof {
                assert(signature.params@.take(signature.params@.len() as int)
                    =~= signature.params@);
            }
            copy
        };
        let kind = self.signatures[k].result;
        self.gen_params(names, &params);
        let value = match self.gen_expr(body) {
            Ok(v) => v,
            Err(e) => {
                return Err(e);
            },
        };
        let returned = match kind {
            Returns::Status => Some(Operand::ConstInt(0)),
            Returns::Void => None,
            Returns::Value(_) => Some(value.value),
        };
        self.push(Action::Return { value: returned });
        self.symbols.exit_scope();
        let mut code: Vec<Action> = Vec::new();
        core::mem::swap(&mut self.actions, &mut code);
        let ghost code_view = action_views(code@);
        self.bodies.push(code);
        proof {
            assert(self.symbols@ =~= start_scopes) by {
                assert(start_scopes.push(Seq::empty()).drop_last() =~= start_scopes);
            }
            assert(body_views(self.bodies@) =~= body_views(old(self).bodies@).push(code_view));
        }
        Ok(())
    }
}

} // verus!

verus! {

proof fn lemma_signatures_error_stays(
    plan: PlanView,
    prog: Seq<SpannedView<DeclView>>,
    n: nat,
    m: nat,
)
    requires
        n <= m <= prog.len(),
        signatures_spec(plan, prog, n) is Err,
    ensures
        signatures_spec(plan, prog, m) == signatures_spec(plan, prog, n),
    decreases m,
{
    if n < m {
        lemma_signatures_error_stays(plan, prog, n, (m - 1) as nat);
    }
}

proof fn lemma_globals_error_stays(plan: PlanView, prog: Seq<SpannedView<DeclView>>, n: nat, m: nat)
    requires
        n <= m <= prog.len(),
        globals_spec(plan, prog, n) is Err,
    ensures
        globals_spec(plan, prog, m) == globals_spec(plan, prog, n),
    decreases m,
{
    if n < m {
        lemma_globals_error_stays(plan, prog, n, (m - 1) as nat);
    }
}

proof fn lemma_bodies_error_stays(plan: PlanView, prog: Seq<SpannedView<DeclView>>, n: nat, m: nat)
    requires
        n <= m <= prog.len(),
        bodies_spec(plan, prog, n) is Err,
    ensures
        bodies_spec(plan, prog, m) == bodies_spec(plan, prog, n),
    decreases m,
{
    if n < m {
        lemma_bodies_error_stays(plan, prog, n, (m - 1) as nat);
    }
}

impl CodeGen {
    fn gen_signatures(&mut self, prog: &Program) -> (result: Result<(), CodegenError>)
        ensures
            final(self).actions == old(self).actions,
            match result {
                Ok(_) => signatures_spec(old(self).plan(), prog@, prog@.len()) == Ok::<
                    PlanView,
                    CodegenErrorView,
                >(final(self).plan()),
                Err(e) => signatures_spec(old(self).plan(), prog@, prog@.len()) matches Err(ev)
                    && ev == e@,
            },
    {
        let mut i: usize = 0;
        while i < prog.decls.len()
            invariant
                i <= prog.decls@.len(),
                self.actions == old(self).actions,
                signatures_spec(old(self).plan(), prog@, i as nat) == Ok::<
                    PlanView,
                    CodegenErrorView,
                >(self.plan()),
            decreases prog.decls@.len() - i,
        {
            match &prog.decls[i].value {
                Decl::Fun { id, params: _, ty, expr: _ } => {
                    match self.gen_fun_signature(id.value.as_str(), &ty.value) {
                        Ok(_) => {},
                        Err(e) => {
                            proof {
                                lemma_signatures_error_stays(
                                    old(self).plan(),
                                    prog@,
                                    (i + 1) as nat,
                                    prog@.len(),
                                );
                            }
                            return Err(e);
                        },
                    }
                },
                Decl::Var { .. } => {},
            }
            i += 1;
        }
        Ok(())
    }

    fn gen_globals(&mut self, prog: &Program) -> (result: Result<(), CodegenError>)
        requires
            old(self).wf(),
        ensures
            final(self).actions == old(self).actions,
            match result {
                Ok(_) => globals_spec(old(self).plan(), prog@, prog@.len()) == Ok::<
                    PlanView,
                    CodegenErrorView,
                >(final(self).plan()) && final(self).wf(),
                Err(e) => globals_spec(old(self).plan(), prog@, prog@.len()) matches Err(ev) && ev
                    == e@,
            },
    {
        let mut i: usize = 0;
        while i < prog.decls.len()
            invariant
                i <= prog.decls@.len(),
                self.wf(),
                self.actions == old(self).actions,
                globals_spec(old(self).plan(), prog@, i as nat) == Ok::<
                    PlanView,
                    CodegenErrorView,
                >(self.plan()),
            decreases prog.decls@.len() - i,
        {
            match &prog.decls[i].value {
                Decl::Var { id, ty, expr } => {
                    match self.gen_decl(id.value.as_str(), &ty.value, &expr.value) {
                        Ok(_) => {},
                        Err(e) => {
                            proof {
                                lemma_globals_error_stays(
                                    old(self).plan(),
                                    prog@,
                                    (i + 1) as nat,
                                    prog@.len(),
                                );
                            }
                            return Err(e);
                        },
                    }
                },
                Decl::Fun { .. } => {},
            }
            i += 1;
        }
        Ok(())
    }

    fn gen_bodies(&mut self, prog: &Program) -> (result: Result<(), CodegenError>)
        requires
            old(self).wf(),
        ensures
            match result {
                Ok(_) => bodies_spec(old(self).plan(), prog@, prog@.len()) == Ok::<
                    PlanView,
                    CodegenErrorView,
                >(final(self).plan()),
                Err(e) => bodies_spec(old(self).plan(), prog@, prog@.len()) matches Err(ev) && ev
                    == e@,
            },
    {
        let mut i: usize = 0;
        let mut k: usize = 0;
        while i < prog.decls.len()
            invariant
                i <= prog.decls@.len(),
                self.wf(),
                k == functions_before(prog@, i as nat),
                k <= i,
                bodies_spec(old(self).plan(), prog@, i as nat) == Ok::<PlanView, CodegenErrorView>(
                    self.plan(),
                ),
            decreases prog.decls@.len() - i,
        {
            match &prog.decls[i].value {
                Decl::Fun { id, params, ty: _, expr } => {
                    proof {
                        assert(prog@[i as int].value->Fun_params =~= Seq::new(
                            params@.len(),
                            |j: int| params@[j]@,
                        ));
                    }
                    if k >= self.signatures.len() {
                        proof {
                            lemma_bodies_error_stays(
                                old(self).plan(),
                                prog@,
                                (i + 1) as nat,
                                prog@.len(),
                            );
                        }
                        return Err(CodegenError::UndefinedFunction(id.value.clone()));
                    }
                    match self.gen_fun(k, params, &expr.value) {
                        Ok(_) => {},
                        Err(e) => {
                            proof {
                                lemma_bodies_error_stays(
                                    old(self).plan(),
                                    prog@,
                                    (i + 1) as nat,
                                    prog@.len(),
                                );
                            }
                            return Err(e);
                        },
                    }
                    k += 1;
                },
                Decl::Var { .. } => {},
            }
            i += 1;
        }
        Ok(())
    }

    /// Generates the code of a program: the signatures of all functions,
    /// the globals, and the bodies of the functions.
    pub fn gen_program(&mut self, prog: &Program) -> (result: Result<(), CodegenError>)
        requires
            old(self).wf(),
        ensures
            match result {
                Ok(_) => plan_with(old(self).plan(), prog@) == Ok::<PlanView, CodegenErrorView>(
                    final(self).plan(),
                ),
                Err(e) => plan_with(old(self).plan(), prog@) matches Err(ev) && ev == e@,
            },
    {
        let ghost start = self.plan();
        match self.gen_signatures(prog) {
            Ok(_) => {},
            Err(e) => {
                return Err(e);
            },
        }
        proof {
            lemma_signatures_keep_scopes(start, prog@, prog@.len());
        }
        match self.gen_globals(prog) {
            Ok(_) => {},
            Err(e) => {
                return Err(e);
            },
        }
        self.gen_bodies(prog)
    }
}

proof fn lemma_signatures_keep_scopes(plan: PlanView, prog: Seq<SpannedView<DeclView>>, n: nat)
    ensures
        signatures_spec(plan, prog, n) matches Ok(after) ==> after.scopes == plan.scopes,
    decreases n,
{
    if n == 0 || n > prog.len() {
    } else {
        lemma_signatures_keep_scopes(plan, prog, (n - 1) as nat);
    }
}

} // verus!
