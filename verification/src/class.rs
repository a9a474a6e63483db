//! Classes and method lookup.

use vstd::prelude::*;
use crate::callable::LoxFunction;
use crate::environment::{Environment, Scopes};
use crate::tokens::{LoxObject, Span};

verus! {

/// A class: the range of its name, its superclass if any, and the scope
/// that holds its methods.
#[derive(Clone, Copy, Debug)]
pub struct LoxClass {
    pub name: Span,
    pub superclass: Option<usize>,
    pub methods: usize,
}

/// The method `name` of `class`: its own, or else the nearest ancestor's.
/// Superclasses are earlier classes only.
pub open spec fn find_method(
    classes: Seq<LoxClass>,
    scopes: Scopes,
    text: Seq<char>,
    class: usize,
    name: Span,
) -> Option<LoxFunction>
    decreases class,
{
    if class >= classes.len() {
        None
    } else {
        let own = match scopes.lookup_here(text, classes[class as int].methods, name) {
            Some(i) => match scopes.bindings[i as int].value {
                LoxObject::Callable(function) => Some(function),
                _ => None,
            },
            None => None,
        };
        match own {
            Some(function) => Some(function),
            None => match classes[class as int].superclass {
                Some(parent) => if parent < class {
                    find_method(classes, scopes, text, parent, name)
                } else {
                    None
                },
                None => None,
            },
        }
    }
}

impl LoxClass {
    pub fn new(name: Span, superclass: Option<usize>, methods: usize) -> (class: LoxClass)
        ensures
            class == (LoxClass { name, superclass, methods }),
    {
        LoxClass { name, superclass, methods }
    }

    /// The method `name` of the class with index `class`, looked up
    /// through its ancestors, nearest first.
    #[verifier::loop_isolation(false)]
    pub fn find_methods(
        classes: &Vec<LoxClass>,
        environment: &Environment,
        text: &Vec<char>,
        class: usize,
        name: &Span,
    ) -> (method: Option<LoxFunction>)
        ensures
            method == find_method(classes@, environment@, text@, class, *name),
    {
        let mut current = class;
        let ghost goal = find_method(classes@, environment@, text@, class, *name);
        loop
            invariant
                goal == find_method(classes@, environment@, text@, current, *name),
            decreases current,
        {
            if current >= classes.len() {
                return None;
            }
            let record = classes[current];
            match environment.lookup_here(text, record.methods, name) {
                Some(i) => match environment.bindings[i].value {
                    LoxObject::Callable(function) => {
                        return Some(function);
                    },
                    _ => {},
                },
                None => {},
            }
            match record.superclass {
                Some(parent) => {
                    if parent < current {
                        current = parent;
                    } else {
                        return None;
                    }
                },
                None => {
                    return None;
                },
            }
        }
    }
}

} // verus!
