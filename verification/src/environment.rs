//! Scopes: name-to-value bindings, each with an optional enclosing scope.
//!
//! The scopes of a program live together in one [`Environment`] and are
//! addressed by index, so that a scope which several closures share can be
//! changed by any of them. A scope is never freed.

use crate::object::{Object, ObjectView};
use vstd::prelude::*;

verus! {

/// One scope: its bindings, oldest first, and the scope that encloses it.
/// Where a name is bound more than once, the latest binding counts.
#[derive(Debug)]
pub struct Scope {
    pub bindings: Vec<(String, Object)>,
    pub outer: Option<usize>,
}

/// The mathematical value of a [`Scope`].
pub struct ScopeView {
    pub store: Map<Seq<char>, ObjectView>,
    pub outer: Option<nat>,
}

/// The map that a list of bindings amounts to when they are made in order.
pub open spec fn store_of(bindings: Seq<(String, Object)>) -> Map<Seq<char>, ObjectView>
    decreases bindings.len(),
{
    if bindings.len() == 0 {
        Map::empty()
    } else {
        store_of(bindings.drop_last()).insert(bindings.last().0@, bindings.last().1@)
    }
}

impl View for Scope {
    type V = ScopeView;

    open spec fn view(&self) -> ScopeView {
        ScopeView {
            store: store_of(self.bindings@),
            outer: match self.outer {
                Some(o) => Some(o as nat),
                None => None,
            },
        }
    }
}

/// The scopes of a program. Scope 0 is the top-level scope of a new
/// environment.
#[derive(Debug)]
pub struct Environment {
    pub scopes: Vec<Scope>,
}

impl View for Environment {
    type V = Seq<ScopeView>;

    open spec fn view(&self) -> Seq<ScopeView> {
        Seq::new(self.scopes.len() as nat, |i: int| self.scopes[i]@)
    }
}

/// The value of `key` as seen from `scope`: that of the innermost scope
/// that binds it, going outward from `scope`. The walk ends at a scope
/// without an enclosing scope, and at one whose enclosing scope is not
/// older than itself.
pub open spec fn lookup(scopes: Seq<ScopeView>, scope: nat, key: Seq<char>) -> Option<ObjectView>
    decreases scope,
{
    if scope >= scopes.len() {
        None
    } else if scopes[scope as int].store.contains_key(key) {
        Some(scopes[scope as int].store[key])
    } else {
        match scopes[scope as int].outer {
            Some(o) => if o < scope {
                lookup(scopes, o, key)
            } else {
                None
            },
            None => None,
        }
    }
}

/// The scopes after `key` is bound to `val` in `scope`; unchanged where
/// there is no such scope.
pub open spec fn bind(scopes: Seq<ScopeView>, scope: nat, key: Seq<char>, val: ObjectView) -> Seq<
    ScopeView,
> {
    if scope < scopes.len() {
        scopes.update(
            scope as int,
            ScopeView {
                store: scopes[scope as int].store.insert(key, val),
                outer: scopes[scope as int].outer,
            },
        )
    } else {
        scopes
    }
}

/// The scopes after an empty scope enclosed by `outer` is added; the new
/// scope has the index `scopes.len()`.
pub open spec fn enclose(scopes: Seq<ScopeView>, outer: nat) -> Seq<ScopeView> {
    scopes.push(ScopeView { store: Map::empty(), outer: Some(outer) })
}

/// The view of an optional value.
pub open spec fn option_view(o: Option<Object>) -> Option<ObjectView> {
    match o {
        Some(v) => Some(v@),
        None => None,
    }
}

/// Bindings after index `i` that do not bind `key` do not matter to what
/// `key` is bound to.
pub proof fn lemma_store_skip(bindings: Seq<(String, Object)>, i: int, key: Seq<char>)
    requires
        0 <= i <= bindings.len(),
        forall|j: int| i <= j < bindings.len() ==> (#[trigger] bindings[j]).0@ != key,
    ensures
        store_of(bindings).contains_key(key) == store_of(bindings.take(i)).contains_key(key),
        store_of(bindings).contains_key(key) ==> store_of(bindings)[key] == store_of(
            bindings.take(i),
        )[key],
    decreases bindings.len() - i,
{
    if i == bindings.len() {
        assert(bindings.take(i) =~= bindings);
    } else {
        let shorter = bindings.drop_last();
        assert(shorter.take(i) =~= bindings.take(i));
        lemma_store_skip(shorter, i, key);
    }
}

impl Scope {
    /// The latest value bound to `key` in this scope.
    pub fn find(&self, key: &String) -> (r: Option<Object>)
        ensures
            option_view(r) == if self@.store.contains_key(key@) {
                Some(self@.store[key@])
            } else {
                None
            },
    {
        let mut i: usize = self.bindings.len();
        while i > 0
            invariant
                0 <= i <= self.bindings.len(),
                forall|j: int|
                    i <= j < self.bindings.len() ==> (#[trigger] self.bindings[j]).0@ != key@,
            decreases i,
        {
            i -= 1;
            if self.bindings[i].0 == *key {
                proof {
                    let b = self.bindings@;
                    lemma_store_skip(b, i + 1, key@);
                    assert(b.take(i + 1).drop_last() =~= b.take(i as int));
                    assert(b.take(i + 1).last() == b[i as int]);
                }
                return Some(self.bindings[i].1.clone());
            }
        }
        proof {
            lemma_store_skip(self.bindings@, 0, key@);
            assert(self.bindings@.take(0) =~= Seq::<(String, Object)>::empty());
        }
        None
    }
}

impl Environment {
    /// An environment with one empty scope, scope 0, which no scope
    /// encloses.
    pub fn new() -> (r: Self)
        ensures
            r@ == seq![ScopeView { store: Map::empty(), outer: None }],
    {
        let mut scopes: Vec<Scope> = Vec::new();
        scopes.push(Scope { bindings: Vec::new(), outer: None });
        let r = Environment { scopes };
        assert(r@ =~= seq![ScopeView { store: Map::empty(), outer: None }]);
        r
    }

    /// The value of `key` as seen from `scope`.
    pub fn get(&self, scope: usize, key: String) -> (r: Option<Object>)
        ensures
            option_view(r) == lookup(self@, scope as nat, key@),
    {
        let mut s: usize = scope;
        loop
            invariant
                lookup(self@, s as nat, key@) == lookup(self@, scope as nat, key@),
            decreases s,
        {
            if s >= self.scopes.len() {
                return None;
            }
            match self.scopes[s].find(&key) {
                Some(val) => {
                    return Some(val);
                },
                None => {},
            }
            match self.scopes[s].outer {
                Some(o) => {
                    if o < s {
                        s = o;
                    } else {
                        return None;
                    }
                },
                None => {
                    return None;
                },
            }
        }
    }

    /// Binds `key` to `val` in `scope`. Nothing changes where there is no
    /// such scope.
    pub fn set(&mut self, scope: usize, key: String, val: Object)
        ensures
            final(self)@ == bind(old(self)@, scope as nat, key@, val@),
    {
        if scope < self.scopes.len() {
            let ghost before = self.scopes[scope as int].bindings@;
            self.scopes[scope].bindings.push((key, val));
            proof {
                let after = self.scopes[scope as int].bindings@;
                assert(after.drop_last() =~= before);
                assert(final(self)@ =~= bind(old(self)@, scope as nat, key@, val@));
            }
        }
    }

    /// Adds an empty scope enclosed by `outer` and returns its index.
    pub fn new_enclosed_env(&mut self, outer: usize) -> (r: usize)
        ensures
            r == old(self)@.len(),
            final(self)@ == enclose(old(self)@, outer as nat),
    {
        let id: usize = self.scopes.len();
        self.scopes.push(Scope { bindings: Vec::new(), outer: Some(outer) });
        assert(self@ =~= enclose(old(self)@, outer as nat));
        id
    }
}

impl Default for Environment {
    fn default() -> (r: Self)
        ensures
            r@ == seq![ScopeView { store: Map::empty(), outer: None }],
    {
        Environment::new()
    }
}

} // verus!
