//! A store of variables alone, with its own id counter.
use vstd::prelude::*;

use crate::compiletime_helper::{CompileTimeVariable, DefineError};
use crate::{BuiltinTypes, Scope};

verus! {

/// A variable named `name` is stored in `scope`.
pub open spec fn store_taken(vs: VariableStore, name: Seq<char>, scope: Scope) -> bool {
    exists|i: int| 0 <= i < vs@.len() && #[trigger] vs@[i].name@ == name && vs@[i].scope.same(scope)
}

/// Defining one name in two different scopes gives two distinct ids, each found again by a
/// lookup in its own scope; defining it again in either scope is refused.
pub proof fn law_store_scopes(
    v0: VariableStore,
    v1: VariableStore,
    v2: VariableStore,
    name: Seq<char>,
    n1: String,
    n2: String,
    t1: BuiltinTypes,
    t2: BuiltinTypes,
    s1: Scope,
    s2: Scope,
)
    requires
        n1@ == name,
        n2@ == name,
        !s1.same(s2),
        !store_taken(v0, name, s1),
        !store_taken(v0, name, s2),
        v1@ == v0@.push(CompileTimeVariable { id: v0.next_id(), name: n1, data_type: t1, scope: s1, is_exported: false }),
        v1.next_id() == v0.next_id() + 1,
        v2@ == v1@.push(CompileTimeVariable { id: v1.next_id(), name: n2, data_type: t2, scope: s2, is_exported: false }),
    ensures
        !store_taken(v1, name, s2),
        store_taken(v2, name, s1),
        store_taken(v2, name, s2),
        first_stored(v2, name, s1, v0@.len() as int) && v2@[v0@.len() as int].id == v0.next_id(),
        first_stored(v2, name, s2, v0@.len() as int + 1) && v2@[v0@.len() as int + 1].id == v0.next_id() + 1,
{
    let a = v0@.len() as int;
    assert(v2@[a] == v1@[a]);
    assert forall|i: int| 0 <= i < v1@.len() && #[trigger] v1@[i].name@ == name implies !v1@[i].scope.same(s2) by {
        if i < a {
            assert(v1@[i] == v0@[i]);
        }
    }
    assert(v2@[a].name@ == name);
    assert(v2@[a + 1].name@ == name);
    assert forall|j: int| 0 <= j < a implies !(v2@[j].name@ == name && v2@[j].scope.same(s1)) by {
        assert(v2@[j] == v0@[j]);
        assert(v1@[j] == v0@[j]);
    }
    assert forall|j: int| 0 <= j < a + 1 implies !(v2@[j].name@ == name && v2@[j].scope.same(s2)) by {
        if j < a {
            assert(v2@[j] == v0@[j]);
            assert(v1@[j] == v0@[j]);
        }
    }
}

/// `i` is the first stored variable named `name` in `scope`.
pub open spec fn first_stored(vs: VariableStore, name: Seq<char>, scope: Scope, i: int) -> bool {
    &&& 0 <= i < vs@.len()
    &&& vs@[i].name@ == name
    &&& vs@[i].scope.same(scope)
    &&& forall|j: int| 0 <= j < i ==> !(vs@[j].name@ == name && vs@[j].scope.same(scope))
}

pub struct VariableStore {
    variables: Vec<CompileTimeVariable>,
    id_counter: usize,
}

impl VariableStore {
    /// The stored variables, oldest first.
    pub closed spec fn view(self) -> Seq<CompileTimeVariable> {
        self.variables@
    }

    /// The id the next definition gets.
    pub closed spec fn next_id(self) -> usize {
        self.id_counter
    }

    /// An empty store.
    pub fn new() -> (r: VariableStore)
        ensures
            r@ == Seq::<CompileTimeVariable>::empty(),
            r.next_id() == 0,
    {
        VariableStore { variables: Vec::new(), id_counter: 0 }
    }

    /// Stores a variable and gives its id, the next one in sequence; fails with
    /// `AlreadyDefined`, changing nothing, when a variable of that name exists in that scope.
    pub fn define_variable(&mut self, name: String, scope: Scope, data_type: BuiltinTypes) -> (r: Result<usize, DefineError>)
        requires
            old(self).next_id() < usize::MAX,
        ensures
            store_taken(*old(self), name@, scope) ==> r == Err::<usize, DefineError>(DefineError::AlreadyDefined)
                && *final(self) == *old(self),
            !store_taken(*old(self), name@, scope) ==> r == Ok::<usize, DefineError>(old(self).next_id())
                && final(self).next_id() == old(self).next_id() + 1
                && final(self)@ == old(self)@.push(
                CompileTimeVariable { id: old(self).next_id(), name, data_type, scope, is_exported: false },
            ),
    {
        if self.find_variable(&name, &scope).is_some() {
            return Err(DefineError::AlreadyDefined);
        }
        let id = self.id_counter;
        self.variables.push(CompileTimeVariable { id, name, data_type, scope, is_exported: false });
        self.id_counter = id + 1;
        Ok(id)
    }

    /// The first stored variable named `name` in exactly `scope`.
    pub fn find_variable(&self, name: &String, scope: &Scope) -> (r: Option<&CompileTimeVariable>)
        ensures
            r is None == !store_taken(*self, name@, *scope),
            r is None ==> forall|i: int| 0 <= i < self@.len() ==> !(self@[i].name@ == name@ && self@[i].scope.same(*scope)),
            r is Some ==> exists|i: int| first_stored(*self, name@, *scope, i) && self@[i] == *r.unwrap(),
            r is Some ==> exists|i: int| 0 <= i < self@.len() && self@[i] == *r.unwrap()
                && self@[i].name@ == name@ && self@[i].scope.same(*scope)
                && forall|j: int| 0 <= j < i ==> !(self@[j].name@ == name@ && self@[j].scope.same(*scope)),
    {
        let mut i: usize = 0;
        while i < self.variables.len()
            invariant
                i <= self.variables@.len(),
                forall|j: int| 0 <= j < i ==> !(self.variables@[j].name@ == name@ && self.variables@[j].scope.same(*scope)),
            decreases self.variables@.len() - i,
        {
            if self.variables[i].name == *name && self.variables[i].scope == *scope {
                assert(self.variables@[i as int].name@ == name@);
                return Some(&self.variables[i]);
            }
            i = i + 1;
        }
        None
    }
}

} // verus!
