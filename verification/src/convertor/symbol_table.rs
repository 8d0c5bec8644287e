//! Names in nested scopes.

use vstd::prelude::*;
use vstd::string::*;

use crate::ir;

verus! {

/// What a name is bound to: a variable and its type.
#[derive(Debug, Clone, Copy, PartialEq, Eq, Structural)]
pub struct TypedVariable {
    pub ty: ir::Type,
    pub var: ir::Variable,
}

/// The open scopes, the innermost last. A scope holds its bindings in
/// the order in which they were made; of two bindings of one name the
/// later one counts.
#[derive(Debug, Clone)]
pub struct SymbolTable {
    scopes: Vec<Vec<(String, TypedVariable)>>,
}

/// One scope as a map from names to what they are bound to.
pub type Scope = Map<Seq<char>, TypedVariable>;

/// The map that a run of bindings makes.
pub open spec fn scope_of(bindings: Seq<(String, TypedVariable)>) -> Scope
    decreases bindings.len(),
{
    if bindings.len() == 0 {
        Map::empty()
    } else {
        scope_of(bindings.drop_last()).insert(bindings.last().0@, bindings.last().1)
    }
}

/// What a name is bound to in one scope.
pub open spec fn lookup(scope: Scope, name: Seq<char>) -> Option<TypedVariable> {
    if scope.contains_key(name) {
        Some(scope[name])
    } else {
        None
    }
}

/// The scopes without the innermost one.
pub open spec fn close(scopes: Seq<Scope>) -> Seq<Scope> {
    if scopes.len() > 0 {
        scopes.drop_last()
    } else {
        scopes
    }
}

/// What a name is bound to in the innermost scope that binds it.
pub open spec fn resolve(scopes: Seq<Scope>, name: Seq<char>) -> Option<TypedVariable>
    decreases scopes.len(),
{
    if scopes.len() == 0 {
        None
    } else if scopes.last().contains_key(name) {
        Some(scopes.last()[name])
    } else {
        resolve(scopes.drop_last(), name)
    }
}

/// The scopes with one more binding in the innermost of them.
pub open spec fn bind(scopes: Seq<Scope>, name: Seq<char>, binding: TypedVariable) -> Seq<Scope>
    recommends
        scopes.len() > 0,
{
    scopes.update(scopes.len() - 1, scopes.last().insert(name, binding))
}

impl View for SymbolTable {
    type V = Seq<Scope>;

    closed spec fn view(&self) -> Seq<Scope> {
        Seq::new(self.scopes@.len(), |i: int| scope_of(self.scopes@[i]@))
    }
}

/// Looks a name up in one scope.
fn find(bindings: &Vec<(String, TypedVariable)>, name: &String) -> (found: Option<TypedVariable>)
    ensures
        found == lookup(scope_of(bindings@), name@),
{
    let mut i: usize = bindings.len();
    assert(bindings@.take(i as int) =~= bindings@);
    while i > 0
        invariant
            0 <= i <= bindings@.len(),
            scope_of(bindings@).contains_key(name@) == scope_of(
                bindings@.take(i as int),
            ).contains_key(name@),
            scope_of(bindings@).contains_key(name@) ==> scope_of(bindings@)[name@] == scope_of(
                bindings@.take(i as int),
            )[name@],
        decreases i,
    {
        proof {
            assert(bindings@.take(i as int).drop_last() =~= bindings@.take(i - 1));
        }
        i -= 1;
        if bindings[i].0 == *name {
            return Some(bindings[i].1);
        }
    }
    proof {
        assert(bindings@.take(0) =~= Seq::empty());
    }
    None
}

impl SymbolTable {
    /// A table with no open scope.
    pub fn new() -> (table: Self)
        ensures
            table@ == Seq::<Scope>::empty(),
    {
        let table = SymbolTable { scopes: Vec::new() };
        assert(table@ =~= Seq::<Scope>::empty());
        table
    }

    /// Opens a scope inside the innermost one.
    pub fn begin_scope(&mut self)
        ensures
            final(self)@ == old(self)@.push(Map::empty()),
    {
        self.scopes.push(Vec::new());
        assert(self@ =~= old(self)@.push(Map::empty()));
    }

    /// Closes the innermost scope, if there is one.
    pub fn end_scope(&mut self)
        ensures
            final(self)@ == close(old(self)@),
    {
        self.scopes.pop();
        assert(self@ =~= close(old(self)@));
    }

    /// The number of open scopes.
    pub fn depth(&self) -> (depth: usize)
        ensures
            depth == self@.len(),
    {
        self.scopes.len()
    }

    /// Binds a name in the innermost scope, in place of what it was bound
    /// to there.
    pub fn register_variable(&mut self, name: String, ty: ir::Type, var: ir::Variable)
        requires
            old(self)@.len() > 0,
        ensures
            final(self)@ == bind(old(self)@, name@, (TypedVariable { ty, var })),
    {
        let innermost = self.scopes.len() - 1;
        self.scopes[innermost].push((name, TypedVariable { ty, var }));
        proof {
            assert(self.scopes@[innermost as int]@.drop_last() =~= old(
                self,
            ).scopes@[innermost as int]@);
            assert(self@ =~= bind(old(self)@, name@, (TypedVariable { ty, var })));
        }
    }

    /// What a name is bound to in the innermost scope that binds it.
    pub fn lookup_variable(&self, name: &str) -> (found: Option<TypedVariable>)
        ensures
            found == resolve(self@, name@),
    {
        let wanted = String::from_str(name);
        let mut i: usize = self.scopes.len();
        assert(self@.take(i as int) =~= self@);
        while i > 0
            invariant
                0 <= i <= self.scopes@.len(),
                wanted@ == name@,
                resolve(self@, name@) == resolve(self@.take(i as int), name@),
            decreases i,
        {
            proof {
                assert(self@.take(i as int).drop_last() =~= self@.take(i - 1));
            }
            i -= 1;
            let found = find(&self.scopes[i], &wanted);
            if found.is_some() {
                return found;
            }
        }
        None
    }

    /// What a name is bound to in the innermost scope, if it is bound
    /// there.
    pub fn lookup_innermost(&self, name: &str) -> (found: Option<TypedVariable>)
        requires
            self@.len() > 0,
        ensures
            found == lookup(self@.last(), name@),
    {
        let wanted = String::from_str(name);
        find(&self.scopes[self.scopes.len() - 1], &wanted)
    }
}

} // verus!
