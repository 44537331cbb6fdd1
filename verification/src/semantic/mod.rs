use crate::semantic::symbol_table::{distinct_names, ScopeView};
use crate::syntax::ast::{FunType, Id, Span, Type, TypeView};
use vstd::prelude::*;

pub mod declaration_checker;
pub mod laws;
pub mod symbol_table;
pub mod type_checker;

verus! {

/// What the table records of a binding: its type and the place where it was
/// declared.
#[derive(Debug, PartialEq)]
pub struct Symbol {
    pub ty: Type,
    pub span: Span,
}

/// The mathematical value of a [`Symbol`].
pub struct SymbolView {
    pub ty: TypeView,
    pub span: Span,
}

impl View for Symbol {
    type V = SymbolView;

    open spec fn view(&self) -> SymbolView {
        SymbolView { ty: self.ty@, span: self.span }
    }
}

impl Clone for Symbol {
    fn clone(&self) -> (copy: Symbol)
        ensures
            copy@ == self@,
    {
        Symbol { ty: self.ty.clone(), span: self.span }
    }
}

/// The type of the built-in `print`, which takes a value of any type.
pub open spec fn print_type() -> TypeView {
    TypeView::Fun(seq![TypeView::Any], Box::new(TypeView::Unit))
}

/// The type of the built-in `length`, which takes an array of any type.
pub open spec fn length_type() -> TypeView {
    TypeView::Fun(seq![TypeView::Array(Box::new(TypeView::Any))], Box::new(TypeView::Int))
}

/// The bindings that every program starts with: the two built-ins, declared
/// nowhere in the source.
pub open spec fn init_symbols() -> ScopeView<SymbolView> {
    seq![
        ("print"@, SymbolView { ty: print_type(), span: Span { start: 0, end: 0 } }),
        ("length"@, SymbolView { ty: length_type(), span: Span { start: 0, end: 0 } }),
    ]
}

/// The two built-ins have names of their own.
pub proof fn lemma_init_symbols_distinct()
    ensures
        distinct_names(init_symbols()),
{
    reveal_strlit("print");
    reveal_strlit("length");
    assert("print"@.len() != "length"@.len());
}

/// Whether a name belongs to a built-in and so cannot be declared.
pub open spec fn is_reserved(id: Seq<char>) -> bool {
    id == "print"@ || id == "length"@
}

/// The built-in bindings for the root scope.
pub fn get_init_symbols() -> (symbols: Vec<(Id, Symbol)>)
    ensures
        symbols@.len() == 2,
        Seq::new(symbols@.len(), |i: int| (symbols@[i].0@, symbols@[i].1@)) == init_symbols(),
{
    let mut print_params: Vec<Type> = Vec::new();
    print_params.push(Type::Any);
    let print = Type::Fun(FunType { params: print_params, ret: Box::new(Type::Unit) });
    let mut length_params: Vec<Type> = Vec::new();
    length_params.push(Type::Array(Box::new(Type::Any)));
    let length = Type::Fun(FunType { params: length_params, ret: Box::new(Type::Int) });
    let mut symbols: Vec<(Id, Symbol)> = Vec::new();
    proof {
        reveal_with_fuel(crate::syntax::ast::type_view, 3);
        assert(print@->Fun_0 =~= seq![TypeView::Any]);
        assert(length@->Fun_0 =~= seq![TypeView::Array(Box::new(TypeView::Any))]);
    }
    symbols.push(("print".to_owned(), Symbol { ty: print, span: Span { start: 0, end: 0 } }));
    symbols.push(("length".to_owned(), Symbol { ty: length, span: Span { start: 0, end: 0 } }));
    proof {
        assert(Seq::new(symbols@.len(), |i: int| (symbols@[i].0@, symbols@[i].1@))
            =~= init_symbols());
    }
    symbols
}

/// Tests whether a name belongs to a built-in.
pub fn reserved(id: &str) -> (r: bool)
    ensures
        r == is_reserved(id@),
{
    crate::utils::same_text(id, "print") || crate::utils::same_text(
        id,
        "length",
    )
}

} // verus!
