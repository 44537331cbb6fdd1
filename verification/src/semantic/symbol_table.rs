use crate::syntax::ast::Id;
use crate::utils::same_text;
use vstd::prelude::*;

verus! {

/// The bindings of one scope, oldest first.
pub type ScopeView<T> = Seq<(Seq<char>, T)>;

/// The scopes of a table, the root first and the current one last.
pub type TableView<T> = Seq<ScopeView<T>>;

/// Whether a name is a wildcard: one that starts with an underscore. A
/// wildcard can be declared, but is never bound and never resolves.
pub open spec fn is_wildcard(id: Seq<char>) -> bool {
    id.len() > 0 && id[0] == '_'
}

/// The index of the binding of `id` in a scope, if it has one.
pub open spec fn scope_find<T>(scope: ScopeView<T>, id: Seq<char>) -> Option<int>
    decreases scope.len(),
{
    if scope.len() == 0 {
        None
    } else if scope.last().0 == id && scope_find(scope.drop_last(), id) is None {
        Some(scope.len() - 1)
    } else {
        scope_find(scope.drop_last(), id)
    }
}

/// What a name resolves to, looking through the scopes from the current
/// one out to the root.
pub open spec fn resolve<T>(table: TableView<T>, id: Seq<char>) -> Option<T>
    decreases table.len(),
{
    if table.len() == 0 {
        None
    } else {
        match scope_find(table.last(), id) {
            Some(i) => Some(table.last()[i].1),
            None => resolve(table.drop_last(), id),
        }
    }
}

/// What `lookup` returns: nothing for a wildcard, else what the name
/// resolves to.
pub open spec fn lookup_spec<T>(table: TableView<T>, id: Seq<char>) -> Option<T> {
    if is_wildcard(id) {
        None
    } else {
        resolve(table, id)
    }
}

/// Whether `declare` accepts the name: it refuses only a name that the root
/// scope already binds while the root is the current scope.
pub open spec fn declare_accepts<T>(table: TableView<T>, id: Seq<char>) -> bool {
    is_wildcard(id) || table.len() != 1 || scope_find(table[0], id) is None
}

/// The table after `declare`: unchanged for a wildcard or a refused name;
/// else the current scope binds the name to the value, in place of an older
/// binding of that scope if there is one, or as its newest binding.
pub open spec fn declare_spec<T>(table: TableView<T>, id: Seq<char>, val: T) -> TableView<T> {
    if is_wildcard(id) || !declare_accepts(table, id) || table.len() == 0 {
        table
    } else {
        let current = table.last();
        match scope_find(current, id) {
            Some(i) => table.update(table.len() - 1, current.update(i, (id, val))),
            None => table.update(table.len() - 1, current.push((id, val))),
        }
    }
}

/// The bindings of `scope` whose names `seen` does not bind yet, appended
/// to `seen`.
pub open spec fn add_unseen<T>(seen: ScopeView<T>, scope: ScopeView<T>) -> ScopeView<T>
    decreases scope.len(),
{
    if scope.len() == 0 {
        seen
    } else {
        let before = add_unseen(seen, scope.drop_last());
        if scope_find(before, scope.last().0) is None {
            before.push(scope.last())
        } else {
            before
        }
    }
}

/// Every binding that is visible from the current scope: those of the
/// current scope first, then those of each enclosing scope that no inner
/// scope hides, each scope's in the order of declaration.
pub open spec fn visible<T>(table: TableView<T>) -> ScopeView<T> {
    visible_from(table, 0)
}

/// The bindings gathered from the scopes `table[from..]`, innermost first.
pub open spec fn visible_from<T>(table: TableView<T>, from: int) -> ScopeView<T>
    decreases table.len() - from,
{
    if from < 0 || from >= table.len() {
        Seq::empty()
    } else {
        add_unseen(visible_from(table, from + 1), table[from])
    }
}

/// Whether no two bindings of a scope have the same name.
pub open spec fn distinct_names<T>(scope: ScopeView<T>) -> bool {
    forall|i: int, j: int|
        0 <= i < j < scope.len() ==> (#[trigger] scope[i]).0 != (#[trigger] scope[j]).0
}

/// Whether a table is well formed: it has its root scope, and no scope
/// binds a name twice.
pub open spec fn table_wf<T>(table: TableView<T>) -> bool {
    table.len() >= 1 && forall|k: int|
        0 <= k < table.len() ==> distinct_names(#[trigger] table[k])
}

/// The bindings of one scope, oldest first. No name stands in it twice.
#[derive(Debug)]
pub struct Scope<T> {
    pub symbols: Vec<(Id, T)>,
}

impl<T: View> View for Scope<T> {
    type V = ScopeView<T::V>;

    open spec fn view(&self) -> ScopeView<T::V> {
        Seq::new(self.symbols@.len(), |i: int| (self.symbols@[i].0@, self.symbols@[i].1@))
    }
}

/// A stack of scopes. The root scope is always there, and no scope binds
/// a name twice.
#[derive(Debug)]
pub struct SymbolTable<T> {
    pub scopes: Vec<Scope<T>>,
}

impl<T: View> View for SymbolTable<T> {
    type V = TableView<T::V>;

    open spec fn view(&self) -> TableView<T::V> {
        Seq::new(self.scopes@.len(), |i: int| self.scopes@[i]@)
    }
}

} // verus!

verus! {

/// Whether `i` is the first index at which `scope` binds `id`.
pub open spec fn first_binding<T>(scope: ScopeView<T>, id: Seq<char>, i: int) -> bool {
    &&& 0 <= i < scope.len()
    &&& scope[i].0 == id
    &&& forall|j: int| 0 <= j < i ==> (#[trigger] scope[j]).0 != id
}

/// What `scope_find` finds is the first binding of the name, and where
/// it finds nothing the scope does not bind the name.
pub proof fn lemma_scope_find<T>(scope: ScopeView<T>, id: Seq<char>)
    ensures
        match scope_find(scope, id) {
            Some(i) => first_binding(scope, id, i),
            None => forall|j: int| 0 <= j < scope.len() ==> (#[trigger] scope[j]).0 != id,
        },
    decreases scope.len(),
{
    if scope.len() > 0 {
        lemma_scope_find(scope.drop_last(), id);
        assert(forall|j: int|
            0 <= j < scope.len() - 1 ==> scope.drop_last()[j] == #[trigger] scope[j]);
    }
}

/// The first binding of a name is the one that `scope_find` finds.
pub proof fn lemma_first_binding_found<T>(scope: ScopeView<T>, id: Seq<char>, i: int)
    requires
        first_binding(scope, id, i),
    ensures
        scope_find(scope, id) == Some(i),
{
    lemma_scope_find(scope, id);
}

/// In a scope that does not bind a name, `scope_find` finds nothing.
pub proof fn lemma_not_bound<T>(scope: ScopeView<T>, id: Seq<char>)
    requires
        forall|j: int| 0 <= j < scope.len() ==> (#[trigger] scope[j]).0 != id,
    ensures
        scope_find(scope, id) is None,
{
    lemma_scope_find(scope, id);
}

/// A well-formed table stays well formed when a name is declared.
pub proof fn lemma_declare_keeps_wf<T>(table: TableView<T>, id: Seq<char>, val: T)
    requires
        table_wf(table),
    ensures
        table_wf(declare_spec(table, id, val)),
{
    let after = declare_spec(table, id, val);
    if after != table {
        let current = table.last();
        let last = table.len() - 1;
        lemma_scope_find(current, id);
        assert(distinct_names(table[last]));
        match scope_find(current, id) {
            Some(i) => {
                let scope = current.update(i, (id, val));
                assert(forall|j: int| 0 <= j < scope.len() ==> (#[trigger] scope[j]).0 == current[j].0);
                assert(distinct_names(scope));
            },
            None => {
                let scope = current.push((id, val));
                assert(forall|j: int|
                    0 <= j < current.len() ==> (#[trigger] scope[j]).0 == current[j].0);
                assert(distinct_names(scope));
            },
        }
        assert forall|k: int| 0 <= k < after.len() implies distinct_names(#[trigger] after[k]) by {
            if k != last {
                assert(after[k] == table[k]);
            }
        }
    }
}

/// Tests whether a name is a wildcard.
pub fn starts_with_underscore(id: &str) -> (wild: bool)
    ensures
        wild == is_wildcard(id@),
{
    if id.is_empty() {
        false
    } else {
        id.get_char(0) == '_'
    }
}

impl<T: View> Scope<T> {
    /// The place of the binding of `id` in this scope.
    pub fn find(&self, id: &str) -> (place: Option<usize>)
        ensures
            match place {
                Some(i) => i < self@.len() && scope_find(self@, id@) == Some(i as int),
                None => scope_find(self@, id@) is None,
            },
    {
        let mut i: usize = 0;
        while i < self.symbols.len()
            invariant
                i <= self.symbols@.len(),
                forall|j: int| 0 <= j < i ==> (#[trigger] self@[j]).0 != id@,
            decreases self.symbols@.len() - i,
        {
            if same_text(self.symbols[i].0.as_str(), id) {
                proof {
                    assert(self@[i as int].0 == id@);
                    lemma_first_binding_found(self@, id@, i as int);
                }
                return Some(i);
            }
            i += 1;
        }
        proof {
            lemma_not_bound(self@, id@);
        }
        None
    }
}

impl<T: View> SymbolTable<T> {
    /// Whether the table has its root scope and no scope binds a name
    /// twice.
    pub open spec fn wf(&self) -> bool {
        table_wf(self@)
    }

    /// A table whose root scope holds the given bindings, each under a
    /// name of its own.
    pub fn new(symbols: Vec<(Id, T)>) -> (table: Self)
        requires
            distinct_names((Scope { symbols })@),
        ensures
            table.wf(),
            table@.len() == 1,
            table@[0] == (Scope { symbols })@,
    {
        let mut scopes: Vec<Scope<T>> = Vec::new();
        scopes.push(Scope { symbols });
        SymbolTable { scopes }
    }

    /// Opens an empty scope inside the current one.
    pub fn enter_scope(&mut self)
        ensures
            final(self)@ == old(self)@.push(Seq::empty()),
            old(self).wf() ==> final(self).wf(),
    {
        self.scopes.push(Scope { symbols: Vec::new() });
        proof {
            assert(self@.last() =~= Seq::empty());
            assert(self@ =~= old(self)@.push(Seq::empty()));
            if old(self).wf() {
                assert forall|k: int| 0 <= k < self@.len() implies distinct_names(
                    #[trigger] self@[k],
                ) by {
                    if k < old(self)@.len() {
                        assert(self@[k] == old(self)@[k]);
                    }
                }
            }
        }
    }

    /// Closes the current scope, which must not be the root.
    pub fn exit_scope(&mut self)
        requires
            old(self)@.len() > 1,
        ensures
            final(self)@ == old(self)@.drop_last(),
            old(self).wf() ==> final(self).wf(),
    {
        self.scopes.pop();
        proof {
            assert(self@ =~= old(self)@.drop_last());
            if old(self).wf() {
                assert forall|k: int| 0 <= k < self@.len() implies distinct_names(
                    #[trigger] self@[k],
                ) by {
                    assert(self@[k] == old(self)@[k]);
                }
            }
        }
    }

    /// Binds a name in the current scope and says whether it was accepted.
    pub fn declare(&mut self, id: &str, val: T) -> (accepted: bool)
        requires
            old(self).wf(),
        ensures
            accepted == declare_accepts(old(self)@, id@),
            final(self)@ == declare_spec(old(self)@, id@, val@),
            final(self).wf(),
    {
        proof {
            lemma_declare_keeps_wf(self@, id@, val@);
        }
        if starts_with_underscore(id) {
            return true;
        }
        let last = self.scopes.len() - 1;
        let place = self.scopes[last].find(id);
        let ghost before = self@;
        match place {
            Some(i) => {
                if last == 0 {
                    return false;
                }
                let mut scope = self.scopes.pop().unwrap();
                scope.symbols.set(i, (id.to_owned(), val));
                proof {
                    assert(scope@ =~= before.last().update(i as int, (id@, val@)));
                }
                self.scopes.push(scope);
                proof {
                    assert(self@ =~= declare_spec(before, id@, val@));
                }
                true
            },
            None => {
                let mut scope = self.scopes.pop().unwrap();
                scope.symbols.push((id.to_owned(), val));
                proof {
                    assert(scope@ =~= before.last().push((id@, val@)));
                }
                self.scopes.push(scope);
                proof {
                    assert(self@ =~= declare_spec(before, id@, val@));
                }
                true
            },
        }
    }

    /// Resolves a name, looking through the scopes from the current one out
    /// to the root.
    pub fn lookup(&self, id: &str) -> (found: Option<&T>)
        ensures
            match found {
                Some(val) => lookup_spec(self@, id@) == Some(val@),
                None => lookup_spec(self@, id@) is None,
            },
    {
        if starts_with_underscore(id) {
            return None;
        }
        let mut k: usize = self.scopes.len();
        proof {
            assert(self@.take(k as int) =~= self@);
        }
        while k > 0
            invariant
                k <= self.scopes@.len(),
                !is_wildcard(id@),
                resolve(self@, id@) == resolve(self@.take(k as int), id@),
            decreases k,
        {
            let ghost part = self@.take(k as int);
            proof {
                assert(part.last() == self@[k - 1]);
                assert(part.drop_last() =~= self@.take(k - 1));
            }
            let place = self.scopes[k - 1].find(id);
            if let Some(i) = place {
                proof {
                    assert(part.last()[i as int].1 == self.scopes@[k - 1].symbols@[i as int].1@);
                    assert(resolve(part, id@) == Some(part.last()[i as int].1));
                }
                return Some(&self.scopes[k - 1].symbols[i].1);
            }
            k -= 1;
        }
        None
    }
}

} // verus!

verus! {

/// Whether a list of names with borrowed values holds the same bindings,
/// in the same order, as a scope.
pub open spec fn same_bindings<T: View>(list: Seq<(Id, &T)>, scope: ScopeView<T::V>) -> bool {
    &&& list.len() == scope.len()
    &&& forall|i: int|
        0 <= i < list.len() ==> (#[trigger] list[i]).0@ == scope[i].0 && list[i].1@ == scope[i].1
}

proof fn lemma_find_by_names<A, B>(a: ScopeView<A>, b: ScopeView<B>, id: Seq<char>)
    requires
        a.len() == b.len(),
        forall|i: int| 0 <= i < a.len() ==> (#[trigger] a[i]).0 == b[i].0,
    ensures
        scope_find(a, id) == scope_find(b, id),
{
    lemma_scope_find(a, id);
    lemma_scope_find(b, id);
    match scope_find(a, id) {
        Some(i) => {
            assert(b[i].0 == a[i].0);
            match scope_find(b, id) {
                Some(j) => {
                    assert(a[j].0 == b[j].0);
                },
                None => {},
            }
        },
        None => {
            match scope_find(b, id) {
                Some(j) => {
                    assert(a[j].0 == b[j].0);
                },
                None => {},
            }
        },
    }
}

impl<T: View> SymbolTable<T> {
    /// Every binding that can be seen from the current scope, inner scopes
    /// first; a name that an inner scope binds hides the outer bindings of
    /// that name.
    pub fn get_symbols_in_scope(&self) -> (list: Vec<(Id, &T)>)
        ensures
            same_bindings(list@, visible(self@)),
    {
        let mut seen: Scope<&T> = Scope { symbols: Vec::new() };
        let mut k: usize = self.scopes.len();
        while k > 0
            invariant
                k <= self.scopes@.len(),
                same_bindings(seen.symbols@, visible_from(self@, k as int)),
            decreases k,
        {
            let scope = &self.scopes[k - 1];
            let ghost base = visible_from(self@, k as int);
            let mut j: usize = 0;
            proof {
                assert(scope@.take(0) =~= Seq::empty());
            }
            while j < scope.symbols.len()
                invariant
                    j <= scope.symbols@.len(),
                    same_bindings(seen.symbols@, add_unseen(base, scope@.take(j as int))),
                decreases scope.symbols@.len() - j,
            {
                let ghost before = add_unseen(base, scope@.take(j as int));
                proof {
                    assert(scope@.take(j + 1).drop_last() =~= scope@.take(j as int));
                    assert(scope@.take(j + 1).last() == scope@[j as int]);
                    lemma_find_by_names(seen@, before, scope@[j as int].0);
                }
                let name = &scope.symbols[j].0;
                if seen.find(name.as_str()).is_none() {
                    seen.symbols.push((name.clone(), &scope.symbols[j].1));
                }
                j += 1;
            }
            proof {
                assert(scope@.take(scope.symbols@.len() as int) =~= scope@);
                assert(self@[k - 1] == scope@);
            }
            k -= 1;
        }
        seen.symbols
    }
}

} // verus!
