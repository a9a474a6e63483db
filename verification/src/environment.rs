//! Scopes: chains of name-to-value maps.
//!
//! All scopes of a run live in one store and are named by their index, so
//! that several closures can hold the same scope and see one another's
//! writes. The fields of an instance and the methods of a class are held
//! as scopes without an enclosing scope.

use vstd::prelude::*;
use crate::tokens::{LoxObject, Span};

verus! {

/// One name bound to one value in one scope. `next` links to the binding
/// that was made before it in the same scope.
#[derive(Clone, Copy, Debug)]
pub struct Binding {
    pub name: Span,
    pub value: LoxObject,
    pub scope: usize,
    pub next: Option<usize>,
}

/// A scope: the newest of its bindings, and the scope around it.
#[derive(Clone, Copy, Debug)]
pub struct Scope {
    pub enclosing: Option<usize>,
    pub first: Option<usize>,
}

/// The scope store as mathematical sequences.
pub struct Scopes {
    pub scopes: Seq<Scope>,
    pub bindings: Seq<Binding>,
}

/// How far a link is from the end of its chain, at most.
pub open spec fn reach(link: Option<usize>) -> nat {
    match link {
        Some(i) => (i + 1) as nat,
        None => 0,
    }
}

impl Scopes {
    /// The binding for `name` on the chain that starts at `link`. Links
    /// lead to earlier bindings only; a link that does not ends the chain.
    pub open spec fn find_from(self, text: Seq<char>, link: Option<usize>, name: Span) -> Option<
        usize,
    >
        decreases reach(link),
    {
        match link {
            None => None,
            Some(i) => if i >= self.bindings.len() {
                None
            } else if self.bindings[i as int].name.text(text) == name.text(text) {
                Some(i)
            } else {
                match self.bindings[i as int].next {
                    Some(j) => if j < i {
                        self.find_from(text, Some(j), name)
                    } else {
                        None
                    },
                    None => None,
                }
            },
        }
    }

    /// The binding for `name` in `scope` itself.
    pub open spec fn lookup_here(self, text: Seq<char>, scope: usize, name: Span) -> Option<usize> {
        if scope < self.scopes.len() {
            self.find_from(text, self.scopes[scope as int].first, name)
        } else {
            None
        }
    }

    /// The scope around `scope`. Scopes are enclosed by earlier scopes
    /// only.
    pub open spec fn enclosing(self, scope: usize) -> Option<usize> {
        if scope < self.scopes.len() {
            match self.scopes[scope as int].enclosing {
                Some(outer) => if outer < scope {
                    Some(outer)
                } else {
                    None
                },
                None => None,
            }
        } else {
            None
        }
    }

    /// The binding for `name` in `scope` or the nearest scope around it
    /// that has one.
    pub open spec fn resolve(self, text: Seq<char>, scope: usize, name: Span) -> Option<usize>
        decreases scope,
    {
        match self.lookup_here(text, scope, name) {
            Some(i) => Some(i),
            None => match self.enclosing(scope) {
                Some(outer) => self.resolve(text, outer, name),
                None => None,
            },
        }
    }

    /// The scope `distance` steps out from `scope`.
    pub open spec fn ancestor(self, scope: usize, distance: nat) -> Option<usize>
        decreases distance,
    {
        if scope >= self.scopes.len() {
            None
        } else if distance == 0 {
            Some(scope)
        } else {
            match self.enclosing(scope) {
                Some(outer) => self.ancestor(outer, (distance - 1) as nat),
                None => None,
            }
        }
    }

    /// How many steps out from `scope` the nearest scope that binds `name`
    /// lies.
    pub open spec fn depth_of(self, text: Seq<char>, scope: usize, name: Span) -> Option<usize>
        decreases scope,
    {
        match self.lookup_here(text, scope, name) {
            Some(_) => Some(0),
            None => match self.enclosing(scope) {
                Some(outer) => match self.depth_of(text, outer, name) {
                    Some(depth) => Some((depth + 1) as usize),
                    None => None,
                },
                None => None,
            },
        }
    }

    /// The value of `name` as seen from `scope`.
    pub open spec fn get(self, text: Seq<char>, scope: usize, name: Span) -> Option<LoxObject> {
        match self.resolve(text, scope, name) {
            Some(i) => Some(self.bindings[i as int].value),
            None => None,
        }
    }

    /// The value of `name` in the scope `distance` steps out from `scope`:
    /// `nil` when that scope does not bind the name, nothing when there is
    /// no such scope.
    pub open spec fn get_at(self, text: Seq<char>, scope: usize, distance: nat, name: Span) -> Option<
        LoxObject,
    > {
        match self.ancestor(scope, distance) {
            Some(target) => match self.lookup_here(text, target, name) {
                Some(i) => Some(self.bindings[i as int].value),
                None => Some(LoxObject::Nil),
            },
            None => None,
        }
    }

    /// The store with the value of binding `i` replaced.
    pub open spec fn set_value(self, i: usize, value: LoxObject) -> Scopes {
        Scopes {
            bindings: self.bindings.update(
                i as int,
                Binding { value, ..self.bindings[i as int] },
            ),
            ..self
        }
    }

    /// The store with `name` bound to `value` in `scope`: an existing
    /// binding of that scope is overwritten, otherwise one is added. An
    /// unknown scope leaves the store as it is.
    pub open spec fn define(self, text: Seq<char>, scope: usize, name: Span, value: LoxObject) -> Scopes {
        if scope >= self.scopes.len() {
            self
        } else {
            match self.lookup_here(text, scope, name) {
                Some(i) => self.set_value(i, value),
                None => Scopes {
                    scopes: self.scopes.update(
                        scope as int,
                        Scope {
                            first: Some(self.bindings.len() as usize),
                            ..self.scopes[scope as int]
                        },
                    ),
                    bindings: self.bindings.push(
                        Binding { name, value, scope, next: self.scopes[scope as int].first },
                    ),
                },
            }
        }
    }

    /// The store with the nearest binding of `name` seen from `scope` set
    /// to `value`; nothing when no scope on the chain binds the name.
    pub open spec fn assign(self, text: Seq<char>, scope: usize, name: Span, value: LoxObject) -> Option<
        Scopes,
    > {
        match self.resolve(text, scope, name) {
            Some(i) => Some(self.set_value(i, value)),
            None => None,
        }
    }

    /// The store with `name` bound to `value` in the scope `distance`
    /// steps out from `scope`; nothing when there is no such scope.
    pub open spec fn assign_at(
        self,
        text: Seq<char>,
        scope: usize,
        distance: nat,
        name: Span,
        value: LoxObject,
    ) -> Option<Scopes> {
        match self.ancestor(scope, distance) {
            Some(target) => Some(self.define(text, target, name, value)),
            None => None,
        }
    }

    /// Whether the store is consistent: every binding belongs to a scope
    /// of the store and is linked to an earlier binding of the same scope,
    /// and every scope starts its chain with a binding of its own.
    pub open spec fn well_formed(self) -> bool {
        &&& self.scopes.len() <= usize::MAX
        &&& self.bindings.len() <= usize::MAX
        &&& forall|i: int|
            0 <= i < self.bindings.len() ==> {
                &&& (#[trigger] self.bindings[i]).scope < self.scopes.len()
                &&& match self.bindings[i].next {
                    Some(j) => j < i && self.bindings[j as int].scope == self.bindings[i].scope,
                    None => true,
                }
            }
        &&& forall|s: int|
            0 <= s < self.scopes.len() ==> match (#[trigger] self.scopes[s]).first {
                Some(i) => i < self.bindings.len() && self.bindings[i as int].scope == s,
                None => true,
            }
    }

    /// The store with one more scope, empty, inside `enclosing`.
    pub open spec fn push_scope(self, enclosing: Option<usize>) -> Scopes {
        Scopes { scopes: self.scopes.push(Scope { enclosing, first: None }), ..self }
    }
}

/// The scope store.
pub struct Environment {
    pub scopes: Vec<Scope>,
    pub bindings: Vec<Binding>,
}

impl View for Environment {
    type V = Scopes;

    open spec fn view(&self) -> Scopes {
        Scopes { scopes: self.scopes@, bindings: self.bindings@ }
    }
}

impl Environment {
    /// A store without scopes.
    pub fn new() -> (environment: Environment)
        ensures
            environment@ == (Scopes { scopes: Seq::empty(), bindings: Seq::empty() }),
            environment@.well_formed(),
    {
        Environment { scopes: Vec::new(), bindings: Vec::new() }
    }

    /// Adds an empty scope inside `enclosing` and returns its index.
    pub fn new_with_enclosing(&mut self, enclosing: Option<usize>) -> (scope: usize)
        ensures
            scope == old(self)@.scopes.len(),
            final(self)@ == old(self)@.push_scope(enclosing),
            old(self)@.well_formed() ==> final(self)@.well_formed(),
    {
        let scope = self.scopes.len();
        self.scopes.push(Scope { enclosing, first: None });
        proof {
            if old(self)@.well_formed() {
                assert(old(self).scopes@.len() < self.scopes.len());
                lemma_push_scope_keeps_well_formed(old(self)@, enclosing);
            }
        }
        scope
    }

    #[verifier::loop_isolation(false)]
    fn find_from(&self, text: &Vec<char>, start: Option<usize>, name: &Span) -> (found: Option<usize>)
        ensures
            found == self@.find_from(text@, start, *name),
            found is Some ==> found->Some_0 < self.bindings@.len(),
    {
        let mut link = start;
        let ghost goal = self@.find_from(text@, start, *name);
        loop
            invariant
                goal == self@.find_from(text@, link, *name),
            decreases reach(link),
        {
            match link {
                None => {
                    return None;
                },
                Some(i) => {
                    if i >= self.bindings.len() {
                        return None;
                    }
                    let binding = self.bindings[i];
                    if binding.name.same_text(name, text) {
                        return Some(i);
                    }
                    match binding.next {
                        Some(j) => {
                            if j < i {
                                link = Some(j);
                            } else {
                                return None;
                            }
                        },
                        None => {
                            return None;
                        },
                    }
                },
            }
        }
    }

    /// The binding for `name` in `scope` itself.
    pub fn lookup_here(&self, text: &Vec<char>, scope: usize, name: &Span) -> (found: Option<usize>)
        ensures
            found == self@.lookup_here(text@, scope, *name),
            found is Some ==> found->Some_0 < self.bindings@.len(),
    {
        if scope < self.scopes.len() {
            self.find_from(text, self.scopes[scope].first, name)
        } else {
            None
        }
    }

    /// The scope around `scope`.
    pub fn enclosing(&self, scope: usize) -> (outer: Option<usize>)
        ensures
            outer == self@.enclosing(scope),
            outer is Some ==> outer->Some_0 < scope,
    {
        if scope < self.scopes.len() {
            match self.scopes[scope].enclosing {
                Some(outer) => if outer < scope {
                    Some(outer)
                } else {
                    None
                },
                None => None,
            }
        } else {
            None
        }
    }

    /// The binding for `name` as seen from `scope`.
    #[verifier::loop_isolation(false)]
    pub fn resolve(&self, text: &Vec<char>, start: usize, name: &Span) -> (found: Option<usize>)
        ensures
            found == self@.resolve(text@, start, *name),
            found is Some ==> found->Some_0 < self.bindings@.len(),
    {
        let mut scope = start;
        let ghost goal = self@.resolve(text@, start, *name);
        loop
            invariant
                goal == self@.resolve(text@, scope, *name),
            decreases scope,
        {
            match self.lookup_here(text, scope, name) {
                Some(i) => {
                    return Some(i);
                },
                None => match self.enclosing(scope) {
                    Some(outer) => {
                        scope = outer;
                    },
                    None => {
                        return None;
                    },
                },
            }
        }
    }

    /// How many steps out from `scope` the nearest scope that binds `name`
    /// lies.
    pub fn depth_of(&self, text: &Vec<char>, scope: usize, name: &Span) -> (depth: Option<usize>)
        ensures
            depth == self@.depth_of(text@, scope, *name),
            depth is Some ==> depth->Some_0 <= scope,
        decreases scope,
    {
        match self.lookup_here(text, scope, name) {
            Some(_) => Some(0),
            None => match self.enclosing(scope) {
                Some(outer) => match self.depth_of(text, outer, name) {
                    Some(depth) => Some(depth + 1),
                    None => None,
                },
                None => None,
            },
        }
    }

    /// The scope `distance` steps out from `scope`.
    #[verifier::loop_isolation(false)]
    pub fn ancestor(&self, start: usize, steps: usize) -> (found: Option<usize>)
        ensures
            found == self@.ancestor(start, steps as nat),
            found is Some ==> found->Some_0 < self.scopes@.len(),
    {
        let mut scope = start;
        let mut distance = steps;
        let ghost goal = self@.ancestor(start, steps as nat);
        loop
            invariant
                goal == self@.ancestor(scope, distance as nat),
            decreases distance,
        {
            if scope >= self.scopes.len() {
                return None;
            }
            if distance == 0 {
                return Some(scope);
            }
            match self.enclosing(scope) {
                Some(outer) => {
                    scope = outer;
                    distance = distance - 1;
                },
                None => {
                    return None;
                },
            }
        }
    }

    /// Binds `name` to `value` in `scope`.
    pub fn define(&mut self, text: &Vec<char>, scope: usize, name: Span, value: LoxObject)
        ensures
            final(self)@ == old(self)@.define(text@, scope, name, value),
            old(self)@.well_formed() ==> final(self)@.well_formed(),
    {
        if scope >= self.scopes.len() {
            return ;
        }
        match self.lookup_here(text, scope, &name) {
            Some(i) => {
                let binding = self.bindings[i];
                self.bindings.set(
                    i,
                    Binding { name: binding.name, value, scope: binding.scope, next: binding.next },
                );
            },
            None => {
                let record = self.scopes[scope];
                let index = self.bindings.len();
                self.bindings.push(Binding { name, value, scope, next: record.first });
                self.scopes.set(scope, Scope { enclosing: record.enclosing, first: Some(index) });
            },
        }
        proof {
            if old(self)@.well_formed() {
                if old(self)@.lookup_here(text@, scope, name) is Some {
                    lemma_found_exists(
                        old(self)@,
                        text@,
                        old(self)@.scopes[scope as int].first,
                        name,
                    );
                    lemma_set_value_keeps_well_formed(
                        old(self)@,
                        old(self)@.lookup_here(text@, scope, name)->Some_0,
                        value,
                    );
                } else {
                    assert(old(self).bindings@.len() < self.bindings.len());
                    lemma_define_keeps_well_formed(old(self)@, text@, scope, name, value);
                }
            }
        }
    }

    /// Sets the nearest binding of `name` seen from `scope` to `value`.
    /// Returns whether there was one; without one nothing changes.
    pub fn assign(&mut self, text: &Vec<char>, scope: usize, name: Span, value: LoxObject) -> (assigned:
        bool)
        ensures
            assigned == old(self)@.assign(text@, scope, name, value) is Some,
            assigned ==> final(self)@ == old(self)@.assign(text@, scope, name, value)->Some_0,
            !assigned ==> final(self)@ == old(self)@,
            old(self)@.well_formed() ==> final(self)@.well_formed(),
    {
        match self.resolve(text, scope, &name) {
            Some(i) => {
                proof {
                    if old(self)@.well_formed() {
                        lemma_set_value_keeps_well_formed(old(self)@, i, value);
                    }
                }
                let binding = self.bindings[i];
                self.bindings.set(
                    i,
                    Binding { name: binding.name, value, scope: binding.scope, next: binding.next },
                );
                true
            },
            None => false,
        }
    }

    /// The value of `name` as seen from `scope`.
    pub fn get(&self, text: &Vec<char>, scope: usize, name: Span) -> (value: Option<LoxObject>)
        ensures
            value == self@.get(text@, scope, name),
    {
        match self.resolve(text, scope, &name) {
            Some(i) => Some(self.bindings[i].value),
            None => None,
        }
    }

    /// The value of `name` in the scope `distance` steps out from `scope`.
    pub fn get_at(&self, text: &Vec<char>, scope: usize, distance: usize, name: Span) -> (value:
            Option<LoxObject>)
        ensures
            value == self@.get_at(text@, scope, distance as nat, name),
    {
        match self.ancestor(scope, distance) {
            Some(target) => match self.lookup_here(text, target, &name) {
                Some(i) => Some(self.bindings[i].value),
                None => Some(LoxObject::Nil),
            },
            None => None,
        }
    }

    /// Binds `name` to `value` in the scope `distance` steps out from
    /// `scope`. Returns whether there is such a scope; without one nothing
    /// changes.
    pub fn assign_at(
        &mut self,
        text: &Vec<char>,
        scope: usize,
        distance: usize,
        name: Span,
        value: LoxObject,
    ) -> (assigned: bool)
        ensures
            assigned == old(self)@.assign_at(text@, scope, distance as nat, name, value) is Some,
            assigned ==> final(self)@ == old(self)@.assign_at(
                text@,
                scope,
                distance as nat,
                name,
                value,
            )->Some_0,
            !assigned ==> final(self)@ == old(self)@,
            old(self)@.well_formed() ==> final(self)@.well_formed(),
    {
        match self.ancestor(scope, distance) {
            Some(target) => {
                self.define(text, target, name, value);
                true
            },
            None => false,
        }
    }
}

/// The distance the resolver computes for a name agrees with a lookup
/// through the chain of scopes: where `depth_of` finds the name `d` steps
/// out, `get_at` with that distance yields what `get` yields, and where
/// it finds none, `get` finds none.
pub proof fn lemma_depth_agrees(e: Scopes, text: Seq<char>, scope: usize, name: Span)
    ensures
        match e.depth_of(text, scope, name) {
            Some(depth) => {
                &&& depth <= scope
                &&& e.get(text, scope, name) is Some
                &&& e.get_at(text, scope, depth as nat, name) == e.get(text, scope, name)
            },
            None => e.get(text, scope, name) is None,
        },
    decreases scope,
{
    match e.lookup_here(text, scope, name) {
        Some(_) => {
            reveal_with_fuel(Scopes::ancestor, 2);
        },
        None => match e.enclosing(scope) {
            Some(outer) => {
                lemma_depth_agrees(e, text, outer, name);
                match e.depth_of(text, outer, name) {
                    Some(depth) => {
                        assert(e.ancestor(scope, (depth + 1) as nat) == e.ancestor(
                            outer,
                            depth as nat,
                        ));
                    },
                    None => {},
                }
            },
            None => {},
        },
    }
}

/// Replacing the value of a binding changes no lookup: every name is
/// found in the same binding as before.
pub proof fn lemma_set_value_keeps_links(
    e: Scopes,
    i: usize,
    value: LoxObject,
    text: Seq<char>,
    link: Option<usize>,
    name: Span,
)
    requires
        i < e.bindings.len(),
    ensures
        e.set_value(i, value).find_from(text, link, name) == e.find_from(text, link, name),
    decreases reach(link),
{
    match link {
        None => {},
        Some(k) => {
            if k < e.bindings.len() && e.bindings[k as int].name.text(text) != name.text(text) {
                match e.bindings[k as int].next {
                    Some(j) => {
                        if j < k {
                            lemma_set_value_keeps_links(e, i, value, text, Some(j), name);
                        }
                    },
                    None => {},
                }
            }
        },
    }
}

/// Replacing the value of a binding changes no resolution.
pub proof fn lemma_set_value_keeps_resolve(
    e: Scopes,
    i: usize,
    value: LoxObject,
    text: Seq<char>,
    scope: usize,
    name: Span,
)
    requires
        i < e.bindings.len(),
    ensures
        e.set_value(i, value).resolve(text, scope, name) == e.resolve(text, scope, name),
    decreases scope,
{
    if scope < e.scopes.len() {
        lemma_set_value_keeps_links(e, i, value, text, e.scopes[scope as int].first, name);
    }
    match e.enclosing(scope) {
        Some(outer) => {
            lemma_set_value_keeps_resolve(e, i, value, text, outer, name);
        },
        None => {},
    }
}

/// A binding that a lookup finds exists.
pub proof fn lemma_found_exists(e: Scopes, text: Seq<char>, link: Option<usize>, name: Span)
    ensures
        e.find_from(text, link, name) is Some ==> e.find_from(text, link, name)->Some_0
            < e.bindings.len(),
    decreases reach(link),
{
    match link {
        None => {},
        Some(k) => {
            if k < e.bindings.len() && e.bindings[k as int].name.text(text) != name.text(text) {
                match e.bindings[k as int].next {
                    Some(j) => {
                        if j < k {
                            lemma_found_exists(e, text, Some(j), name);
                        }
                    },
                    None => {},
                }
            }
        },
    }
}

/// A binding that a resolution finds exists.
pub proof fn lemma_resolved_exists(e: Scopes, text: Seq<char>, scope: usize, name: Span)
    ensures
        e.resolve(text, scope, name) is Some ==> e.resolve(text, scope, name)->Some_0
            < e.bindings.len(),
    decreases scope,
{
    if scope < e.scopes.len() {
        lemma_found_exists(e, text, e.scopes[scope as int].first, name);
    }
    match e.enclosing(scope) {
        Some(outer) => {
            lemma_resolved_exists(e, text, outer, name);
        },
        None => {},
    }
}

/// Scopes are shared, not copied: an assignment made through one scope
/// is seen through every scope from which the name resolves to the same
/// binding, such as two closures created in one scope.
pub proof fn lemma_assignment_is_shared(
    e: Scopes,
    text: Seq<char>,
    writer: usize,
    reader: usize,
    name: Span,
    value: LoxObject,
)
    requires
        e.resolve(text, writer, name) is Some,
        e.resolve(text, reader, name) == e.resolve(text, writer, name),
    ensures
        e.assign(text, writer, name, value) is Some,
        e.assign(text, writer, name, value)->Some_0.get(text, reader, name) == Some(value),
{
    let i = e.resolve(text, writer, name)->Some_0;
    lemma_resolved_exists(e, text, writer, name);
    lemma_set_value_keeps_resolve(e, i, value, text, reader, name);
}

/// What is assigned is what is read back, and an assignment to a name
/// that no scope on the chain binds is refused.
pub proof fn lemma_assign_then_get(
    e: Scopes,
    text: Seq<char>,
    scope: usize,
    name: Span,
    value: LoxObject,
)
    ensures
        e.assign(text, scope, name, value) is Some <==> e.get(text, scope, name) is Some,
        e.assign(text, scope, name, value) is Some ==> e.assign(
            text,
            scope,
            name,
            value,
        )->Some_0.get(text, scope, name) == Some(value),
{
    if e.resolve(text, scope, name) is Some {
        lemma_assignment_is_shared(e, text, scope, scope, name, value);
    }
}

/// Adding a scope keeps a store consistent as long as the machine can
/// count its scopes.
pub proof fn lemma_push_scope_keeps_well_formed(e: Scopes, enclosing: Option<usize>)
    requires
        e.well_formed(),
        e.scopes.len() < usize::MAX,
    ensures
        e.push_scope(enclosing).well_formed(),
{
}

/// A store without scopes is consistent.
pub proof fn lemma_empty_is_well_formed()
    ensures
        (Scopes { scopes: Seq::empty(), bindings: Seq::empty() }).well_formed(),
{
}

/// Replacing a value keeps a store consistent.
pub proof fn lemma_set_value_keeps_well_formed(e: Scopes, i: usize, value: LoxObject)
    requires
        e.well_formed(),
        i < e.bindings.len(),
    ensures
        e.set_value(i, value).well_formed(),
{
    let after = e.set_value(i, value);
    assert forall|k: int| 0 <= k < after.bindings.len() implies {
        &&& (#[trigger] after.bindings[k]).scope < after.scopes.len()
        &&& match after.bindings[k].next {
            Some(j) => j < k && after.bindings[j as int].scope == after.bindings[k].scope,
            None => true,
        }
    } by {
        assert(e.bindings[k].scope < e.scopes.len());
        match e.bindings[k].next {
            Some(j) => {
                assert(e.bindings[j as int].scope == e.bindings[k].scope);
            },
            None => {},
        }
    }
    assert forall|s: int| 0 <= s < after.scopes.len() implies match (#[trigger] after.scopes[s]).first {
        Some(k) => k < after.bindings.len() && after.bindings[k as int].scope == s,
        None => true,
    } by {
        assert(e.scopes[s] == after.scopes[s]);
    }
}

/// Defining a name keeps a store consistent as long as the machine can
/// count its bindings.
pub proof fn lemma_define_keeps_well_formed(
    e: Scopes,
    text: Seq<char>,
    scope: usize,
    name: Span,
    value: LoxObject,
)
    requires
        e.well_formed(),
        e.bindings.len() < usize::MAX,
    ensures
        e.define(text, scope, name, value).well_formed(),
{
    if scope < e.scopes.len() {
        match e.lookup_here(text, scope, name) {
            Some(i) => {
                lemma_found_exists(e, text, e.scopes[scope as int].first, name);
                lemma_set_value_keeps_well_formed(e, i, value);
            },
            None => {
                let after = e.define(text, scope, name, value);
                assert forall|k: int| 0 <= k < after.bindings.len() implies {
                    &&& (#[trigger] after.bindings[k]).scope < after.scopes.len()
                    &&& match after.bindings[k].next {
                        Some(j) => j < k && after.bindings[j as int].scope
                            == after.bindings[k].scope,
                        None => true,
                    }
                } by {
                    if k < e.bindings.len() {
                        assert(e.bindings[k].scope < e.scopes.len());
                        match e.bindings[k].next {
                            Some(j) => {
                                assert(e.bindings[j as int].scope == e.bindings[k].scope);
                            },
                            None => {},
                        }
                    } else {
                        let first = e.scopes[scope as int].first;
                        assert(first is Some ==> e.bindings[first->Some_0 as int].scope == scope);
                    }
                }
                assert forall|s: int| 0 <= s < after.scopes.len() implies match (
                #[trigger] after.scopes[s]).first {
                    Some(k) => k < after.bindings.len() && after.bindings[k as int].scope == s,
                    None => true,
                } by {
                    if s != scope {
                        assert(e.scopes[s] == after.scopes[s]);
                        match e.scopes[s].first {
                            Some(k) => {
                                assert(after.bindings[k as int] == e.bindings[k as int]);
                            },
                            None => {},
                        }
                    } else {
                        assert(after.scopes[s].first == Some(e.bindings.len() as usize));
                        assert(after.bindings[e.bindings.len() as int].scope == scope);
                    }
                }
            },
        }
    }
}

/// In a consistent store, a binding found on the chain of a scope
/// belongs to that scope.
pub proof fn lemma_found_is_owned(
    e: Scopes,
    text: Seq<char>,
    link: Option<usize>,
    name: Span,
    scope: usize,
)
    requires
        e.well_formed(),
        link is Some ==> link->Some_0 < e.bindings.len() && e.bindings[link->Some_0 as int].scope
            == scope,
    ensures
        e.find_from(text, link, name) is Some ==> {
            &&& e.find_from(text, link, name)->Some_0 < e.bindings.len()
            &&& e.bindings[e.find_from(text, link, name)->Some_0 as int].scope == scope
        },
    decreases reach(link),
{
    match link {
        None => {},
        Some(k) => {
            if e.bindings[k as int].name.text(text) != name.text(text) {
                match e.bindings[k as int].next {
                    Some(j) => {
                        if j < k {
                            lemma_found_is_owned(e, text, Some(j), name, scope);
                        }
                    },
                    None => {},
                }
            }
        },
    }
}

/// In a consistent store, a name seen from a scope resolves to a binding
/// of that scope or of an earlier one.
pub proof fn lemma_resolved_is_outward(e: Scopes, text: Seq<char>, scope: usize, name: Span)
    requires
        e.well_formed(),
    ensures
        e.resolve(text, scope, name) is Some ==> {
            &&& e.resolve(text, scope, name)->Some_0 < e.bindings.len()
            &&& e.bindings[e.resolve(text, scope, name)->Some_0 as int].scope <= scope
        },
    decreases scope,
{
    if scope < e.scopes.len() {
        lemma_found_is_owned(e, text, e.scopes[scope as int].first, name, scope);
    }
    match e.enclosing(scope) {
        Some(outer) => {
            lemma_resolved_is_outward(e, text, outer, name);
        },
        None => {},
    }
}

/// Adding a binding to a scope changes no chain that starts at an
/// earlier binding.
proof fn lemma_added_binding_keeps_links(
    e: Scopes,
    text: Seq<char>,
    scope: usize,
    name: Span,
    value: LoxObject,
    link: Option<usize>,
    other: Span,
)
    requires
        scope < e.scopes.len(),
        e.lookup_here(text, scope, name) is None,
        link is Some ==> link->Some_0 < e.bindings.len(),
    ensures
        e.define(text, scope, name, value).find_from(text, link, other) == e.find_from(
            text,
            link,
            other,
        ),
    decreases reach(link),
{
    match link {
        None => {},
        Some(k) => {
            if e.bindings[k as int].name.text(text) != other.text(text) {
                match e.bindings[k as int].next {
                    Some(j) => {
                        if j < k {
                            lemma_added_binding_keeps_links(
                                e,
                                text,
                                scope,
                                name,
                                value,
                                Some(j),
                                other,
                            );
                        }
                    },
                    None => {},
                }
            }
        },
    }
}

/// Adding a binding to a scope changes no resolution from an earlier
/// scope.
proof fn lemma_added_binding_keeps_resolve(
    e: Scopes,
    text: Seq<char>,
    scope: usize,
    name: Span,
    value: LoxObject,
    from: usize,
    other: Span,
)
    requires
        e.well_formed(),
        scope < e.scopes.len(),
        e.lookup_here(text, scope, name) is None,
        from < scope,
    ensures
        e.define(text, scope, name, value).resolve(text, from, other) == e.resolve(
            text,
            from,
            other,
        ),
    decreases from,
{
    let after = e.define(text, scope, name, value);
    assert(after.scopes[from as int] == e.scopes[from as int]);
    lemma_added_binding_keeps_links(
        e,
        text,
        scope,
        name,
        value,
        e.scopes[from as int].first,
        other,
    );
    match e.enclosing(from) {
        Some(outer) => {
            lemma_added_binding_keeps_resolve(e, text, scope, name, value, outer, other);
        },
        None => {},
    }
}

/// Lexical scoping: what is defined in a scope is not seen from a scope
/// that was made before it. In a consistent store, defining a name in
/// the scope `inner` leaves every lookup from an earlier scope `outer`,
/// such as the scopes around `inner`, as it was; a block that shadows a
/// variable does not touch the outer binding.
pub proof fn lemma_definition_stays_inside(
    e: Scopes,
    text: Seq<char>,
    inner: usize,
    outer: usize,
    name: Span,
    value: LoxObject,
    other: Span,
)
    requires
        e.well_formed(),
        outer < inner,
    ensures
        e.define(text, inner, name, value).get(text, outer, other) == e.get(text, outer, other),
{
    if inner < e.scopes.len() {
        lemma_resolved_is_outward(e, text, outer, other);
        match e.lookup_here(text, inner, name) {
            Some(i) => {
                lemma_found_is_owned(e, text, e.scopes[inner as int].first, name, inner);
                lemma_set_value_keeps_resolve(e, i, value, text, outer, other);
            },
            None => {
                lemma_added_binding_keeps_resolve(e, text, inner, name, value, outer, other);
            },
        }
    }
}

/// What is defined in a scope is what is read back from it.
pub proof fn lemma_define_then_get(
    e: Scopes,
    text: Seq<char>,
    scope: usize,
    name: Span,
    value: LoxObject,
)
    requires
        scope < e.scopes.len(),
        e.bindings.len() < usize::MAX,
    ensures
        e.define(text, scope, name, value).get(text, scope, name) == Some(value),
{
    match e.lookup_here(text, scope, name) {
        Some(i) => {
            lemma_found_exists(e, text, e.scopes[scope as int].first, name);
            lemma_set_value_keeps_links(
                e,
                i,
                value,
                text,
                e.scopes[scope as int].first,
                name,
            );
        },
        None => {},
    }
}

} // verus!
