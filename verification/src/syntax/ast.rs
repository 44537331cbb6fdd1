use vstd::prelude::*;
use crate::utils::{i64_to_text, indent, indent_text, int_text, join, join_texts, push_char};

verus! {

/// A half-open interval `[start, end)` of byte offsets into the source text.
#[derive(Debug, Clone, Copy, PartialEq, Eq, Structural)]
pub struct Span {
    pub start: usize,
    pub end: usize,
}

impl Span {
    pub fn new(start: usize, end: usize) -> (span: Span)
        ensures
            span.start == start,
            span.end == end,
    {
        Span { start, end }
    }
}

/// An identifier as written in the source.
pub type Id = String;

/// A value together with the source interval it was read from.
#[derive(Debug, Clone, PartialEq)]
pub struct Spanned<T> {
    pub value: T,
    pub span: Span,
}

/// The mathematical value of a [`Spanned`]: the view of the value and the
/// two ends of its span.
pub struct SpannedView<V> {
    pub value: V,
    pub span: Span,
}

/// A type of the language. `Any` is no type of the source: it stands for
/// the argument of a built-in that takes every type, and for the type of
/// what could not be typed.
#[derive(Debug, PartialEq)]
pub enum Type {
    Int,
    Bool,
    String,
    Unit,
    Array(Box<Type>),
    Fun(FunType),
    Any,
}

/// The type of a function.
#[derive(Debug, PartialEq)]
pub struct FunType {
    pub params: Vec<Type>,
    pub ret: Box<Type>,
}

/// The mathematical value of a [`Type`].
pub enum TypeView {
    Int,
    Bool,
    String,
    Unit,
    Array(Box<TypeView>),
    Fun(Seq<TypeView>, Box<TypeView>),
    Any,
}

/// The mathematical value of a type.
pub open spec fn type_view(t: Type) -> TypeView
    decreases t,
{
    match t {
        Type::Int => TypeView::Int,
        Type::Bool => TypeView::Bool,
        Type::String => TypeView::String,
        Type::Unit => TypeView::Unit,
        Type::Array(inner) => TypeView::Array(Box::new(type_view(*inner))),
        Type::Fun(f) => TypeView::Fun(
            Seq::new(f.params@.len(), |i: int| if 0 <= i < f.params@.len() { type_view(f.params@[i]) } else { TypeView::Any }),
            Box::new(type_view(*f.ret)),
        ),
        Type::Any => TypeView::Any,
    }
}

impl View for Type {
    type V = TypeView;

    open spec fn view(&self) -> TypeView {
        type_view(*self)
    }
}

impl View for FunType {
    type V = TypeView;

    open spec fn view(&self) -> TypeView {
        type_view(Type::Fun(*self))
    }
}

/// Copies a list of types.
fn clone_types(types: &Vec<Type>) -> (copy: Vec<Type>)
    ensures
        copy@.len() == types@.len(),
        forall|i: int| 0 <= i < types@.len() ==> (#[trigger] copy@[i])@ == types@[i]@,
    decreases types,
{
    let mut copy: Vec<Type> = Vec::new();
    let mut i: usize = 0;
    while i < types.len()
        invariant
            i <= types@.len(),
            copy@.len() == i,
            forall|j: int| 0 <= j < i ==> (#[trigger] copy@[j])@ == types@[j]@,
        decreases types@.len() - i,
    {
        copy.push(types[i].clone());
        i += 1;
    }
    copy
}

impl Clone for FunType {
    fn clone(&self) -> (copy: FunType)
        ensures
            copy@ == self@,
        decreases self,
    {
        let params = clone_types(&self.params);
        let ret = (*self.ret).clone();
        let copy = FunType { params, ret: Box::new(ret) };
        assert(copy@->Fun_0 =~= self@->Fun_0);
        copy
    }
}

impl Clone for Type {
    fn clone(&self) -> (copy: Type)
        ensures
            copy@ == self@,
        decreases self,
    {
        match self {
            Type::Int => Type::Int,
            Type::Bool => Type::Bool,
            Type::String => Type::String,
            Type::Unit => Type::Unit,
            Type::Array(inner) => Type::Array(Box::new((**inner).clone())),
            Type::Fun(f) => Type::Fun(f.clone()),
            Type::Any => Type::Any,
        }
    }
}

} // verus!

verus! {

impl<T: View> View for Spanned<T> {
    type V = SpannedView<T::V>;

    open spec fn view(&self) -> SpannedView<T::V> {
        SpannedView { value: self.value@, span: self.span }
    }
}

/// A binary operator.
#[derive(Debug, Clone, Copy, PartialEq, Eq, Structural)]
pub enum Op {
    Add,
    Sub,
    Mul,
    Div,
    Mod,
    Pow,
    And,
    Or,
    Eq,
    Neq,
    Lt,
    Leq,
    Gt,
    Geq,
}

/// The class of an operator, which decides how its operands are typed.
#[derive(Debug, Clone, Copy, PartialEq, Eq, Structural)]
pub enum OpType {
    Numerical,
    Logical,
    Comparison,
}

/// What can be assigned to: a variable, or an element of an array.
#[derive(Debug, PartialEq)]
pub enum Lhs {
    Var { id: Spanned<Id> },
    Index { lhs: Box<Spanned<Lhs>>, index: Box<Spanned<Expr>> },
}

/// An expression.
#[derive(Debug, PartialEq)]
pub enum Expr {
    Chain { lhs: Box<Spanned<Expr>>, rhs: Box<Spanned<Expr>> },
    Let { id: Spanned<Id>, ty: Spanned<Type>, expr: Box<Spanned<Expr>> },
    SetLhs { lhs: Spanned<Lhs>, expr: Box<Spanned<Expr>> },
    BinOp { lhs: Box<Spanned<Expr>>, op: Op, rhs: Box<Spanned<Expr>> },
    Not { expr: Box<Spanned<Expr>> },
    While { cond: Box<Spanned<Expr>>, expr: Box<Spanned<Expr>> },
    IfElse { cond: Box<Spanned<Expr>>, then: Box<Spanned<Expr>>, els: Box<Spanned<Expr>> },
    FunCall { id: Spanned<Id>, args: Vec<Spanned<Expr>> },
    NewArray { ty: Spanned<Type>, size: Box<Spanned<Expr>>, init: Box<Spanned<Expr>> },
    ArrayIndex { lhs: Spanned<Lhs>, index: Box<Spanned<Expr>> },
    Id(Spanned<Id>),
    Int(i64),
    String(String),
    Bool(bool),
    Unit,
}

/// A declaration at the top of a program.
#[derive(Debug, PartialEq)]
pub enum Decl {
    Var { id: Spanned<Id>, ty: Spanned<Type>, expr: Spanned<Expr> },
    Fun { id: Spanned<Id>, params: Vec<Spanned<Id>>, ty: Spanned<FunType>, expr: Spanned<Expr> },
}

/// A program: its declarations in order.
#[derive(Debug, PartialEq)]
pub struct Program {
    pub decls: Vec<Spanned<Decl>>,
}

/// The mathematical value of an [`Lhs`].
pub enum LhsView {
    Var { id: SpannedView<Seq<char>> },
    Index { lhs: Box<SpannedView<LhsView>>, index: Box<SpannedView<ExprView>> },
}

/// The mathematical value of an [`Expr`].
pub enum ExprView {
    Chain { lhs: Box<SpannedView<ExprView>>, rhs: Box<SpannedView<ExprView>> },
    Let { id: SpannedView<Seq<char>>, ty: SpannedView<TypeView>, expr: Box<SpannedView<ExprView>> },
    SetLhs { lhs: SpannedView<LhsView>, expr: Box<SpannedView<ExprView>> },
    BinOp { lhs: Box<SpannedView<ExprView>>, op: Op, rhs: Box<SpannedView<ExprView>> },
    Not { expr: Box<SpannedView<ExprView>> },
    While { cond: Box<SpannedView<ExprView>>, expr: Box<SpannedView<ExprView>> },
    IfElse {
        cond: Box<SpannedView<ExprView>>,
        then: Box<SpannedView<ExprView>>,
        els: Box<SpannedView<ExprView>>,
    },
    FunCall { id: SpannedView<Seq<char>>, args: Seq<SpannedView<ExprView>> },
    NewArray {
        ty: SpannedView<TypeView>,
        size: Box<SpannedView<ExprView>>,
        init: Box<SpannedView<ExprView>>,
    },
    ArrayIndex { lhs: SpannedView<LhsView>, index: Box<SpannedView<ExprView>> },
    Id(SpannedView<Seq<char>>),
    Int(i64),
    String(Seq<char>),
    Bool(bool),
    Unit,
}

/// The mathematical value of a [`Decl`].
pub enum DeclView {
    Var { id: SpannedView<Seq<char>>, ty: SpannedView<TypeView>, expr: SpannedView<ExprView> },
    Fun {
        id: SpannedView<Seq<char>>,
        params: Seq<SpannedView<Seq<char>>>,
        ty: SpannedView<TypeView>,
        expr: SpannedView<ExprView>,
    },
}

/// The mathematical value of an l-value.
pub open spec fn lhs_view(l: Lhs) -> LhsView
    decreases l,
{
    match l {
        Lhs::Var { id } => LhsView::Var { id: id@ },
        Lhs::Index { lhs, index } => LhsView::Index {
            lhs: Box::new(SpannedView { value: lhs_view(lhs.value), span: lhs.span }),
            index: Box::new(SpannedView { value: expr_view(index.value), span: index.span }),
        },
    }
}

/// The mathematical value of an expression.
pub open spec fn expr_view(e: Expr) -> ExprView
    decreases e,
{
    match e {
        Expr::Chain { lhs, rhs } => ExprView::Chain {
            lhs: Box::new(SpannedView { value: expr_view(lhs.value), span: lhs.span }),
            rhs: Box::new(SpannedView { value: expr_view(rhs.value), span: rhs.span }),
        },
        Expr::Let { id, ty, expr } => ExprView::Let {
            id: id@,
            ty: ty@,
            expr: Box::new(SpannedView { value: expr_view(expr.value), span: expr.span }),
        },
        Expr::SetLhs { lhs, expr } => ExprView::SetLhs {
            lhs: SpannedView { value: lhs_view(lhs.value), span: lhs.span },
            expr: Box::new(SpannedView { value: expr_view(expr.value), span: expr.span }),
        },
        Expr::BinOp { lhs, op, rhs } => ExprView::BinOp {
            lhs: Box::new(SpannedView { value: expr_view(lhs.value), span: lhs.span }),
            op,
            rhs: Box::new(SpannedView { value: expr_view(rhs.value), span: rhs.span }),
        },
        Expr::Not { expr } => ExprView::Not { expr: Box::new(SpannedView { value: expr_view(expr.value), span: expr.span }) },
        Expr::While { cond, expr } => ExprView::While {
            cond: Box::new(SpannedView { value: expr_view(cond.value), span: cond.span }),
            expr: Box::new(SpannedView { value: expr_view(expr.value), span: expr.span }),
        },
        Expr::IfElse { cond, then, els } => ExprView::IfElse {
            cond: Box::new(SpannedView { value: expr_view(cond.value), span: cond.span }),
            then: Box::new(SpannedView { value: expr_view(then.value), span: then.span }),
            els: Box::new(SpannedView { value: expr_view(els.value), span: els.span }),
        },
        Expr::FunCall { id, args } => ExprView::FunCall {
            id: id@,
            args: Seq::new(
                args@.len(),
                |i: int|
                    if 0 <= i < args@.len() {
                        SpannedView { value: expr_view(args@[i].value), span: args@[i].span }
                    } else {
                        SpannedView { value: ExprView::Unit, span: Span { start: 0, end: 0 } }
                    },
            ),
        },
        Expr::NewArray { ty, size, init } => ExprView::NewArray {
            ty: ty@,
            size: Box::new(SpannedView { value: expr_view(size.value), span: size.span }),
            init: Box::new(SpannedView { value: expr_view(init.value), span: init.span }),
        },
        Expr::ArrayIndex { lhs, index } => ExprView::ArrayIndex {
            lhs: SpannedView { value: lhs_view(lhs.value), span: lhs.span },
            index: Box::new(SpannedView { value: expr_view(index.value), span: index.span }),
        },
        Expr::Id(id) => ExprView::Id(id@),
        Expr::Int(n) => ExprView::Int(n),
        Expr::String(s) => ExprView::String(s@),
        Expr::Bool(b) => ExprView::Bool(b),
        Expr::Unit => ExprView::Unit,
    }
}

impl View for Lhs {
    type V = LhsView;

    open spec fn view(&self) -> LhsView {
        lhs_view(*self)
    }
}

impl View for Expr {
    type V = ExprView;

    open spec fn view(&self) -> ExprView {
        expr_view(*self)
    }
}

impl View for Decl {
    type V = DeclView;

    open spec fn view(&self) -> DeclView {
        match *self {
            Decl::Var { id, ty, expr } => DeclView::Var { id: id@, ty: ty@, expr: expr@ },
            Decl::Fun { id, params, ty, expr } => DeclView::Fun {
                id: id@,
                params: Seq::new(params@.len(), |i: int| params@[i]@),
                ty: ty@,
                expr: expr@,
            },
        }
    }
}

impl View for Program {
    type V = Seq<SpannedView<DeclView>>;

    open spec fn view(&self) -> Seq<SpannedView<DeclView>> {
        Seq::new(self.decls@.len(), |i: int| self.decls@[i]@)
    }
}

} // verus!

verus! {

/// How an operator is written.
pub open spec fn op_text(op: Op) -> Seq<char> {
    match op {
        Op::Add => "+"@,
        Op::Sub => "-"@,
        Op::Mul => "*"@,
        Op::Div => "/"@,
        Op::Mod => "%"@,
        Op::Pow => "**"@,
        Op::And => "&&"@,
        Op::Or => "||"@,
        Op::Eq => "=="@,
        Op::Neq => "!="@,
        Op::Lt => "<"@,
        Op::Leq => "<="@,
        Op::Gt => ">"@,
        Op::Geq => ">="@,
    }
}

/// The class of an operator.
pub open spec fn op_class(op: Op) -> OpType {
    match op {
        Op::Add | Op::Sub | Op::Mul | Op::Div | Op::Mod | Op::Pow => OpType::Numerical,
        Op::And | Op::Or => OpType::Logical,
        Op::Eq | Op::Neq | Op::Lt | Op::Leq | Op::Gt | Op::Geq => OpType::Comparison,
    }
}

impl Op {
    pub fn to_text(&self) -> (text: String)
        ensures
            text@ == op_text(*self),
    {
        let text: &str = match self {
            Op::Add => "+",
            Op::Sub => "-",
            Op::Mul => "*",
            Op::Div => "/",
            Op::Mod => "%",
            Op::Pow => "**",
            Op::And => "&&",
            Op::Or => "||",
            Op::Eq => "==",
            Op::Neq => "!=",
            Op::Lt => "<",
            Op::Leq => "<=",
            Op::Gt => ">",
            Op::Geq => ">=",
        };
        text.to_owned()
    }

    pub fn get_type(&self) -> (class: OpType)
        ensures
            class == op_class(*self),
    {
        match self {
            Op::Add | Op::Sub | Op::Mul | Op::Div | Op::Mod | Op::Pow => OpType::Numerical,
            Op::And | Op::Or => OpType::Logical,
            Op::Eq | Op::Neq | Op::Lt | Op::Leq | Op::Gt | Op::Geq => OpType::Comparison,
        }
    }
}

/// The text of each type of a list.
pub open spec fn type_texts(types: Seq<TypeView>) -> Seq<Seq<char>>
    decreases types,
{
    Seq::new(
        types.len(),
        |i: int|
            if 0 <= i < types.len() {
                type_text(types[i])
            } else {
                Seq::empty()
            },
    )
}

/// How a type is written: the four base types by name, an array as its
/// element type followed by `[]`, a function as `(T1, T2) -> R`.
pub open spec fn type_text(t: TypeView) -> Seq<char>
    decreases t,
{
    match t {
        TypeView::Int => "Int"@,
        TypeView::Bool => "Bool"@,
        TypeView::String => "String"@,
        TypeView::Unit => "Unit"@,
        TypeView::Array(inner) => type_text(*inner) + "[]"@,
        TypeView::Fun(params, ret) => "("@ + join_texts(type_texts(params), ", "@) + ") -> "@
            + type_text(*ret),
        TypeView::Any => "Any"@,
    }
}

/// Writes each type of a list.
fn types_to_texts(types: &Vec<Type>) -> (texts: Vec<String>)
    ensures
        Seq::new(texts@.len(), |i: int| texts@[i]@) == type_texts(
            Seq::new(types@.len(), |i: int| types@[i]@),
        ),
    decreases types,
{
    let ghost views = Seq::new(types@.len(), |i: int| types@[i]@);
    let mut texts: Vec<String> = Vec::new();
    let mut i: usize = 0;
    while i < types.len()
        invariant
            i <= types@.len(),
            texts@.len() == i,
            views == Seq::new(types@.len(), |i: int| types@[i]@),
            forall|j: int| 0 <= j < i ==> (#[trigger] texts@[j])@ == type_text(views[j]),
        decreases types@.len() - i,
    {
        texts.push(types[i].to_text());
        i += 1;
    }
    proof {
        assert(Seq::new(texts@.len(), |i: int| texts@[i]@) =~= type_texts(views));
    }
    texts
}

impl Type {
    pub fn to_text(&self) -> (text: String)
        ensures
            text@ == type_text(self@),
        decreases self,
    {
        match self {
            Type::Int => "Int".to_owned(),
            Type::Unit => "Unit".to_owned(),
            Type::Bool => "Bool".to_owned(),
            Type::String => "String".to_owned(),
            Type::Any => "Any".to_owned(),
            Type::Array(inner) => {
                let mut text = inner.to_text();
                text.append("[]");
                text
            },
            Type::Fun(f) => f.to_text(),
        }
    }
}

impl FunType {
    pub fn to_text(&self) -> (text: String)
        ensures
            text@ == type_text(self@),
        decreases self,
    {
        let texts = types_to_texts(&self.params);
        let params = crate::utils::join(&texts, ", ");
        let ret = self.ret.to_text();
        let mut text = "(".to_owned();
        text.append(params.as_str());
        text.append(") -> ");
        text.append(ret.as_str());
        proof {
            assert(self@->Fun_0 =~= Seq::new(self.params@.len(), |i: int| self.params@[i]@));
        }
        text
    }
}

} // verus!

verus! {

/// How tightly an operator binds its operands: `||` loosest, the power
/// operator tightest.
pub open spec fn op_strength(op: Op) -> nat {
    match op {
        Op::Or => 3,
        Op::And => 4,
        Op::Eq | Op::Neq => 5,
        Op::Lt | Op::Leq | Op::Gt | Op::Geq => 6,
        Op::Add | Op::Sub => 7,
        Op::Mul | Op::Div | Op::Mod => 8,
        Op::Pow => 9,
    }
}

/// The strength that the left operand of an operator needs to stand
/// without brackets. Comparisons do not chain, and the power operator
/// groups to the right, so their left operand must bind tighter than they
/// do; the other operators group to the left.
pub open spec fn left_strength(op: Op) -> nat {
    match op {
        Op::Eq | Op::Neq | Op::Lt | Op::Leq | Op::Gt | Op::Geq | Op::Pow => op_strength(op) + 1,
        _ => op_strength(op),
    }
}

/// The strength that the right operand of an operator needs to stand
/// without brackets.
pub open spec fn right_strength(op: Op) -> nat {
    match op {
        Op::Pow => op_strength(op),
        _ => op_strength(op) + 1,
    }
}

/// How tightly the outermost form of an expression binds. A chain binds
/// loosest, then a `let`, then an assignment, a conditional and a loop,
/// then the binary operators by their precedence, then `!`; a value, a
/// name, a call, an indexed name and a new array bind tightest.
pub open spec fn strength(e: ExprView) -> nat {
    match e {
        ExprView::Chain { .. } => 0,
        ExprView::Let { .. } => 1,
        ExprView::SetLhs { .. } | ExprView::IfElse { .. } | ExprView::While { .. } => 2,
        ExprView::BinOp { op, .. } => op_strength(op),
        ExprView::Not { .. } => 10,
        _ => 11,
    }
}

/// A text as it is where it binds tightly enough for its place, and in
/// round brackets where it does not.
pub open spec fn in_brackets(text: Seq<char>, bound: bool) -> Seq<char> {
    if bound {
        text
    } else {
        "("@ + text + ")"@
    }
}

/// How one character of a string literal is written: a line feed, a
/// carriage return, a tabulator, the character 0, a double quote and a
/// backslash by their escapes, any other character as it is.
pub open spec fn escaped_char(c: char) -> Seq<char> {
    if c == '\n' {
        "\\n"@
    } else if c == '\r' {
        "\\r"@
    } else if c == '\t' {
        "\\t"@
    } else if c == '\0' {
        "\\0"@
    } else if c == '"' {
        "\\\""@
    } else if c == '\\' {
        "\\\\"@
    } else {
        seq![c]
    }
}

/// The characters of a string as they stand between the quotes of a
/// string literal.
pub open spec fn escaped_text(s: Seq<char>) -> Seq<char>
    decreases s.len(),
{
    if s.len() == 0 {
        Seq::empty()
    } else {
        escaped_text(s.drop_last()) + escaped_char(s.last())
    }
}

/// The text of each expression of a list, at one nesting level.
pub open spec fn expr_texts(exprs: Seq<SpannedView<ExprView>>, level: nat) -> Seq<Seq<char>>
    decreases exprs,
{
    Seq::new(
        exprs.len(),
        |i: int|
            if 0 <= i < exprs.len() {
                expr_text(exprs[i].value, level)
            } else {
                Seq::empty()
            },
    )
}

/// The text form of an l-value. An index is written at nesting level 0.
pub open spec fn lhs_text(l: LhsView) -> Seq<char>
    decreases l,
{
    match l {
        LhsView::Var { id } => id.value,
        LhsView::Index { lhs, index } => lhs_text(lhs.value) + "["@ + expr_text(index.value, 0)
            + "]"@,
    }
}

/// The text form of an expression that stands at the given nesting level.
/// Branches and loop bodies start a new line one level deeper; the two
/// sides of a chain stand on lines of their own at the same level. A part
/// that binds less tightly than its place asks for stands in round
/// brackets, and a string stands in double quotes with its escapes, so
/// that the text groups as the expression does.
pub open spec fn expr_text(e: ExprView, level: nat) -> Seq<char>
    decreases e,
{
    match e {
        ExprView::Chain { lhs, rhs } => in_brackets(
            expr_text(lhs.value, level),
            strength(lhs.value) >= 1,
        ) + ";\n"@ + indent_text(level) + expr_text(rhs.value, level),
        ExprView::Let { id, ty, expr } => "let "@ + id.value + " : "@ + type_text(ty.value)
            + " = "@ + in_brackets(expr_text(expr.value, level), strength(expr.value) >= 2),
        ExprView::SetLhs { lhs, expr } => "set "@ + lhs_text(lhs.value) + " = "@ + in_brackets(
            expr_text(expr.value, level),
            strength(expr.value) >= 2,
        ),
        ExprView::NewArray { ty, size, init } => "new "@ + type_text(ty.value) + "["@ + expr_text(
            size.value,
            level,
        ) + " | "@ + expr_text(init.value, level) + "]"@,
        ExprView::IfElse { cond, then, els } => "if "@ + in_brackets(
            expr_text(cond.value, level),
            strength(cond.value) >= 2,
        ) + " then\n"@ + indent_text(level + 1) + in_brackets(
            expr_text(then.value, level + 1),
            strength(then.value) >= 2,
        ) + "\n"@ + indent_text(level) + "else\n"@ + indent_text(level + 1) + in_brackets(
            expr_text(els.value, level + 1),
            strength(els.value) >= 2,
        ),
        ExprView::While { cond, expr } => "while "@ + in_brackets(
            expr_text(cond.value, level),
            strength(cond.value) >= 2,
        ) + " do\n"@ + indent_text(level + 1) + in_brackets(
            expr_text(expr.value, level + 1),
            strength(expr.value) >= 2,
        ),
        ExprView::BinOp { lhs, op, rhs } => in_brackets(
            expr_text(lhs.value, level),
            strength(lhs.value) >= left_strength(op),
        ) + " "@ + op_text(op) + " "@ + in_brackets(
            expr_text(rhs.value, level),
            strength(rhs.value) >= right_strength(op),
        ),
        ExprView::Not { expr } => "!"@ + in_brackets(
            expr_text(expr.value, level),
            strength(expr.value) >= 10,
        ),
        ExprView::Int(n) => int_text(n as int),
        ExprView::Bool(b) => if b {
            "true"@
        } else {
            "false"@
        },
        ExprView::Unit => "unit"@,
        ExprView::String(s) => "\""@ + escaped_text(s) + "\""@,
        ExprView::Id(id) => id.value,
        ExprView::FunCall { id, args } => id.value + "("@ + join_texts(
            expr_texts(args, level),
            ", "@,
        ) + ")"@,
        ExprView::ArrayIndex { lhs, index } => lhs_text(lhs.value) + "["@ + expr_text(
            index.value,
            level,
        ) + "]"@,
    }
}

/// The names of a parameter list.
pub open spec fn id_texts(ids: Seq<SpannedView<Seq<char>>>) -> Seq<Seq<char>> {
    Seq::new(ids.len(), |i: int| ids[i].value)
}

/// The text form of a declaration: its header, then its body on a line of
/// its own, one level deeper.
pub open spec fn decl_text(d: DeclView, level: nat) -> Seq<char> {
    match d {
        DeclView::Fun { id, params, ty, expr } => "let "@ + id.value + " ("@ + join_texts(
            id_texts(params),
            ", "@,
        ) + ") : ("@ + join_texts(type_texts(ty.value->Fun_0), ", "@) + ") -> "@ + type_text(
            *ty.value->Fun_1,
        ) + " =\n"@ + indent_text(level + 1) + expr_text(expr.value, level + 1),
        DeclView::Var { id, ty, expr } => "let "@ + id.value + " : "@ + type_text(ty.value)
            + " =\n"@ + indent_text(level + 1) + expr_text(expr.value, level + 1),
    }
}

/// The text form of a program: its declarations at level 0 with an empty
/// line between each two.
pub open spec fn program_text(p: Seq<SpannedView<DeclView>>) -> Seq<char> {
    join_texts(Seq::new(p.len(), |i: int| decl_text(p[i].value, 0)), "\n\n"@)
}

fn op_strength_of(op: &Op) -> (s: u8)
    ensures
        s == op_strength(*op),
{
    match op {
        Op::Or => 3,
        Op::And => 4,
        Op::Eq | Op::Neq => 5,
        Op::Lt | Op::Leq | Op::Gt | Op::Geq => 6,
        Op::Add | Op::Sub => 7,
        Op::Mul | Op::Div | Op::Mod => 8,
        Op::Pow => 9,
    }
}

fn left_strength_of(op: &Op) -> (s: u8)
    ensures
        s == left_strength(*op),
{
    match op {
        Op::Eq | Op::Neq | Op::Lt | Op::Leq | Op::Gt | Op::Geq | Op::Pow => op_strength_of(op) + 1,
        _ => op_strength_of(op),
    }
}

fn right_strength_of(op: &Op) -> (s: u8)
    ensures
        s == right_strength(*op),
{
    match op {
        Op::Pow => op_strength_of(op),
        _ => op_strength_of(op) + 1,
    }
}

fn strength_of(e: &Expr) -> (s: u8)
    ensures
        s == strength(e@),
{
    match e {
        Expr::Chain { .. } => 0,
        Expr::Let { .. } => 1,
        Expr::SetLhs { .. } | Expr::IfElse { .. } | Expr::While { .. } => 2,
        Expr::BinOp { op, .. } => op_strength_of(op),
        Expr::Not { .. } => 10,
        _ => 11,
    }
}

fn bracketed(text: String, bound: bool) -> (out: String)
    ensures
        out@ == in_brackets(text@, bound),
{
    if bound {
        text
    } else {
        let mut out = "(".to_owned();
        out.append(text.as_str());
        out.append(")");
        out
    }
}

fn escape_text(s: &str) -> (text: String)
    ensures
        text@ == escaped_text(s@),
{
    let mut text = String::new();
    let n = s.unicode_len();
    let mut i: usize = 0;
    while i < n
        invariant
            i <= n,
            n == s@.len(),
            text@ == escaped_text(s@.take(i as int)),
        decreases n - i,
    {
        let c = s.get_char(i);
        proof {
            assert(s@.take(i + 1).drop_last() =~= s@.take(i as int));
            assert(s@.take(i + 1).last() == c);
        }
        if c == '\n' {
            text.append("\\n");
        } else if c == '\r' {
            text.append("\\r");
        } else if c == '\t' {
            text.append("\\t");
        } else if c == '\0' {
            text.append("\\0");
        } else if c == '"' {
            text.append("\\\"");
        } else if c == '\\' {
            text.append("\\\\");
        } else {
            push_char(&mut text, c);
            proof {
                assert(text@ =~= escaped_text(s@.take(i as int)) + seq![c]);
            }
        }
        i += 1;
    }
    proof {
        assert(s@.take(n as int) =~= s@);
    }
    text
}

fn lhs_text_at(l: &Lhs) -> (text: String)
    ensures
        text@ == lhs_text(l@),
    decreases l,
{
    match l {
        Lhs::Var { id } => id.value.clone(),
        Lhs::Index { lhs, index } => {
            let mut text = lhs_text_at(&lhs.value);
            let pad = String::new();
            let inner = expr_text_at(&index.value, pad.as_str(), Ghost(0));
            text.append("[");
            text.append(inner.as_str());
            text.append("]");
            text
        },
    }
}

fn args_text_at(args: &Vec<Spanned<Expr>>, pad: &str, Ghost(level): Ghost<nat>) -> (texts: Vec<
    String,
>)
    requires
        pad@ == indent_text(level),
    ensures
        texts@.len() == args@.len(),
        forall|j: int|
            0 <= j < args@.len() ==> (#[trigger] texts@[j])@ == expr_text(args@[j].value@, level),
    decreases args,
{
    let mut texts: Vec<String> = Vec::new();
    let mut i: usize = 0;
    while i < args.len()
        invariant
            i <= args@.len(),
            texts@.len() == i,
            pad@ == indent_text(level),
            forall|j: int|
                0 <= j < i ==> (#[trigger] texts@[j])@ == expr_text(args@[j].value@, level),
        decreases args@.len() - i,
    {
        texts.push(expr_text_at(&args[i].value, pad, Ghost(level)));
        i += 1;
    }
    texts
}

fn expr_text_at(e: &Expr, pad: &str, Ghost(level): Ghost<nat>) -> (text: String)
    requires
        pad@ == indent_text(level),
    ensures
        text@ == expr_text(e@, level),
    decreases e,
{
    match e {
        Expr::Chain { lhs, rhs } => {
            let left = expr_text_at(&lhs.value, pad, Ghost(level));
            let mut text = bracketed(left, strength_of(&lhs.value) >= 1);
            let right = expr_text_at(&rhs.value, pad, Ghost(level));
            text.append(";\n");
            text.append(pad);
            text.append(right.as_str());
            text
        },
        Expr::Let { id, ty, expr } => {
            let ty_text = ty.value.to_text();
            let init = bracketed(
                expr_text_at(&expr.value, pad, Ghost(level)),
                strength_of(&expr.value) >= 2,
            );
            let mut text = "let ".to_owned();
            text.append(id.value.as_str());
            text.append(" : ");
            text.append(ty_text.as_str());
            text.append(" = ");
            text.append(init.as_str());
            text
        },
        Expr::SetLhs { lhs, expr } => {
            let target = lhs_text_at(&lhs.value);
            let value = bracketed(
                expr_text_at(&expr.value, pad, Ghost(level)),
                strength_of(&expr.value) >= 2,
            );
            let mut text = "set ".to_owned();
            text.append(target.as_str());
            text.append(" = ");
            text.append(value.as_str());
            text
        },
        Expr::NewArray { ty, size, init } => {
            let ty_text = ty.value.to_text();
            let size_text = expr_text_at(&size.value, pad, Ghost(level));
            let init_text = expr_text_at(&init.value, pad, Ghost(level));
            let mut text = "new ".to_owned();
            text.append(ty_text.as_str());
            text.append("[");
            text.append(size_text.as_str());
            text.append(" | ");
            text.append(init_text.as_str());
            text.append("]");
            text
        },
        Expr::IfElse { cond, then, els } => {
            let mut deeper = pad.to_owned();
            deeper.append("  ");
            let cond_text = bracketed(
                expr_text_at(&cond.value, pad, Ghost(level)),
                strength_of(&cond.value) >= 2,
            );
            let then_text = bracketed(
                expr_text_at(&then.value, deeper.as_str(), Ghost(level + 1)),
                strength_of(&then.value) >= 2,
            );
            let else_text = bracketed(
                expr_text_at(&els.value, deeper.as_str(), Ghost(level + 1)),
                strength_of(&els.value) >= 2,
            );
            let mut text = "if ".to_owned();
            text.append(cond_text.as_str());
            text.append(" then\n");
            text.append(deeper.as_str());
            text.append(then_text.as_str());
            text.append("\n");
            text.append(pad);
            text.append("else\n");
            text.append(deeper.as_str());
            text.append(else_text.as_str());
            text
        },
        Expr::While { cond, expr } => {
            let mut deeper = pad.to_owned();
            deeper.append("  ");
            let cond_text = bracketed(
                expr_text_at(&cond.value, pad, Ghost(level)),
                strength_of(&cond.value) >= 2,
            );
            let body = bracketed(
                expr_text_at(&expr.value, deeper.as_str(), Ghost(level + 1)),
                strength_of(&expr.value) >= 2,
            );
            let mut text = "while ".to_owned();
            text.append(cond_text.as_str());
            text.append(" do\n");
            text.append(deeper.as_str());
            text.append(body.as_str());
            text
        },
        Expr::BinOp { lhs, op, rhs } => {
            let left = expr_text_at(&lhs.value, pad, Ghost(level));
            let mut text = bracketed(left, strength_of(&lhs.value) >= left_strength_of(op));
            let op_str = op.to_text();
            let right = bracketed(
                expr_text_at(&rhs.value, pad, Ghost(level)),
                strength_of(&rhs.value) >= right_strength_of(op),
            );
            text.append(" ");
            text.append(op_str.as_str());
            text.append(" ");
            text.append(right.as_str());
            text
        },
        Expr::Not { expr } => {
            let inner = bracketed(
                expr_text_at(&expr.value, pad, Ghost(level)),
                strength_of(&expr.value) >= 10,
            );
            let mut text = "!".to_owned();
            text.append(inner.as_str());
            text
        },
        Expr::Int(n) => i64_to_text(*n),
        Expr::Bool(b) => if *b {
            "true".to_owned()
        } else {
            "false".to_owned()
        },
        Expr::Unit => "unit".to_owned(),
        Expr::String(s) => {
            let inner = escape_text(s.as_str());
            let mut text = "\"".to_owned();
            text.append(inner.as_str());
            text.append("\"");
            text
        },
        Expr::Id(id) => id.value.clone(),
        Expr::FunCall { id, args } => {
            let texts = args_text_at(args, pad, Ghost(level));
            let joined = join(&texts, ", ");
            let mut text = id.value.clone();
            text.append("(");
            text.append(joined.as_str());
            text.append(")");
            proof {
                assert(Seq::new(texts@.len(), |i: int| texts@[i]@) =~= expr_texts(
                    e@->FunCall_args,
                    level,
                ));
            }
            text
        },
        Expr::ArrayIndex { lhs, index } => {
            let mut text = lhs_text_at(&lhs.value);
            let inner = expr_text_at(&index.value, pad, Ghost(level));
            text.append("[");
            text.append(inner.as_str());
            text.append("]");
            text
        },
    }
}

impl Lhs {
    pub fn to_text(&self) -> (text: String)
        ensures
            text@ == lhs_text(self@),
    {
        lhs_text_at(self)
    }
}

impl Expr {
    pub fn to_text(&self, level: usize) -> (text: String)
        ensures
            text@ == expr_text(self@, level as nat),
    {
        let pad = indent(level);
        expr_text_at(self, pad.as_str(), Ghost(level as nat))
    }
}

} // verus!

verus! {

/// Copies the names of a parameter list.
fn param_names(params: &Vec<Spanned<Id>>) -> (names: Vec<String>)
    ensures
        Seq::new(names@.len(), |i: int| names@[i]@) == id_texts(
            Seq::new(params@.len(), |i: int| params@[i]@),
        ),
{
    let mut names: Vec<String> = Vec::new();
    let mut i: usize = 0;
    while i < params.len()
        invariant
            i <= params@.len(),
            names@.len() == i,
            forall|j: int| 0 <= j < i ==> (#[trigger] names@[j])@ == params@[j].value@,
        decreases params@.len() - i,
    {
        names.push(params[i].value.clone());
        i += 1;
    }
    proof {
        assert(Seq::new(names@.len(), |i: int| names@[i]@) =~= id_texts(
            Seq::new(params@.len(), |i: int| params@[i]@),
        ));
    }
    names
}

impl Decl {
    pub fn to_text(&self, level: usize) -> (text: String)
        ensures
            text@ == decl_text(self@, level as nat),
    {
        let mut deeper = indent(level);
        deeper.append("  ");
        match self {
            Decl::Fun { id, params, ty, expr } => {
                let names = param_names(params);
                let params_text = join(&names, ", ");
                let type_strs = types_to_texts(&ty.value.params);
                let types_text = join(&type_strs, ", ");
                let ret_text = ty.value.ret.to_text();
                let body = expr_text_at(&expr.value, deeper.as_str(), Ghost(level as nat + 1));
                let mut text = "let ".to_owned();
                text.append(id.value.as_str());
                text.append(" (");
                text.append(params_text.as_str());
                text.append(") : (");
                text.append(types_text.as_str());
                text.append(") -> ");
                text.append(ret_text.as_str());
                text.append(" =\n");
                text.append(deeper.as_str());
                text.append(body.as_str());
                proof {
                    assert(self@->Fun_params =~= Seq::new(params@.len(), |i: int| params@[i]@));
                    assert(ty.value@->Fun_0 =~= Seq::new(
                        ty.value.params@.len(),
                        |i: int| ty.value.params@[i]@,
                    ));
                }
                text
            },
            Decl::Var { id, ty, expr } => {
                let ty_text = ty.value.to_text();
                let body = expr_text_at(&expr.value, deeper.as_str(), Ghost(level as nat + 1));
                let mut text = "let ".to_owned();
                text.append(id.value.as_str());
                text.append(" : ");
                text.append(ty_text.as_str());
                text.append(" =\n");
                text.append(deeper.as_str());
                text.append(body.as_str());
                text
            },
        }
    }
}

impl Program {
    pub fn to_text(&self) -> (text: String)
        ensures
            text@ == program_text(self@),
    {
        let mut texts: Vec<String> = Vec::new();
        let mut i: usize = 0;
        while i < self.decls.len()
            invariant
                i <= self.decls@.len(),
                texts@.len() == i,
                forall|j: int|
                    0 <= j < i ==> (#[trigger] texts@[j])@ == decl_text(self.decls@[j].value@, 0),
            decreases self.decls@.len() - i,
        {
            texts.push(self.decls[i].value.to_text(0));
            i += 1;
        }
        proof {
            assert(Seq::new(texts@.len(), |i: int| texts@[i]@) =~= Seq::new(
                self@.len(),
                |i: int| decl_text(self@[i].value, 0),
            ));
        }
        join(&texts, "\n\n")
    }
}

} // verus!

verus! {

/// The views of a list of types.
pub open spec fn type_views(types: Seq<Type>) -> Seq<TypeView> {
    Seq::new(types.len(), |i: int| types[i]@)
}

/// Tests whether two lists hold the same types in the same order.
fn same_types(a: &Vec<Type>, b: &Vec<Type>) -> (same: bool)
    ensures
        same == (type_views(a@) == type_views(b@)),
    decreases a,
{
    if a.len() != b.len() {
        proof {
            assert(type_views(a@).len() != type_views(b@).len());
        }
        return false;
    }
    let mut i: usize = 0;
    while i < a.len()
        invariant
            i <= a@.len(),
            a@.len() == b@.len(),
            forall|j: int| 0 <= j < i ==> (#[trigger] a@[j])@ == b@[j]@,
        decreases a@.len() - i,
    {
        if !a[i].same_as(&b[i]) {
            proof {
                assert(type_views(a@)[i as int] != type_views(b@)[i as int]);
            }
            return false;
        }
        i += 1;
    }
    proof {
        assert(type_views(a@) =~= type_views(b@));
    }
    true
}

impl Type {
    /// Tests whether two types are structurally equal.
    pub fn same_as(&self, other: &Type) -> (same: bool)
        ensures
            same == (self@ == other@),
        decreases self,
    {
        match (self, other) {
            (Type::Int, Type::Int) => true,
            (Type::Bool, Type::Bool) => true,
            (Type::String, Type::String) => true,
            (Type::Unit, Type::Unit) => true,
            (Type::Any, Type::Any) => true,
            (Type::Array(a), Type::Array(b)) => a.same_as(b),
            (Type::Fun(f), Type::Fun(g)) => {
                let same_params = same_types(&f.params, &g.params);
                let same_ret = f.ret.same_as(&g.ret);
                proof {
                    assert(self@->Fun_0 =~= type_views(f.params@));
                    assert(other@->Fun_0 =~= type_views(g.params@));
                }
                same_params && same_ret
            },
            _ => false,
        }
    }
}

} // verus!

verus! {

/// The view of an array type is the array of the view of its element type.
pub proof fn lemma_type_view_array()
    ensures
        forall|t: Type| #[trigger] Type::Array(Box::new(t))@ == TypeView::Array(Box::new(t@)),
{
}

} // verus!
