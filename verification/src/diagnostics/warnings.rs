use crate::syntax::ast::{Id, Spanned, SpannedView};
use vstd::prelude::*;

verus! {

/// A finding that does not stop the compilation.
#[derive(Debug, PartialEq)]
pub enum Warning {
    /// A binding that nothing refers to.
    UnusedIdentifier(Spanned<Id>),
    /// A variable declared a second time in one scope.
    RedefinedVariable(Spanned<Id>),
}

/// The mathematical value of a [`Warning`].
pub enum WarningView {
    UnusedIdentifier(SpannedView<Seq<char>>),
    RedefinedVariable(SpannedView<Seq<char>>),
}

impl View for Warning {
    type V = WarningView;

    open spec fn view(&self) -> WarningView {
        match *self {
            Warning::UnusedIdentifier(id) => WarningView::UnusedIdentifier(id@),
            Warning::RedefinedVariable(id) => WarningView::RedefinedVariable(id@),
        }
    }
}

impl Clone for Warning {
    fn clone(&self) -> (copy: Warning)
        ensures
            copy@ == self@,
    {
        match self {
            Warning::UnusedIdentifier(id) => Warning::UnusedIdentifier(
                Spanned { value: id.value.clone(), span: id.span },
            ),
            Warning::RedefinedVariable(id) => Warning::RedefinedVariable(
                Spanned { value: id.value.clone(), span: id.span },
            ),
        }
    }
}

} // verus!
