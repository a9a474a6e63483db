//! Instances of classes.

use vstd::prelude::*;
use crate::callable::bound_to;
use crate::class::{find_method, LoxClass};
use crate::environment::{Environment, Scopes};
use crate::tokens::{LoxObject, Span};

verus! {

/// An instance: its class, fixed at construction, and the scope that
/// holds its fields.
#[derive(Clone, Copy, Debug)]
pub struct LoxInstance {
    pub class: usize,
    pub fields: usize,
}

/// What reading property `name` of an instance yields, and the scopes
/// afterwards: a field of that name, or else the method of that name of
/// its class or the nearest ancestor that has one, bound to the instance;
/// nothing when there is neither. `handle` is the index of the instance.
pub open spec fn read_property(
    instance: LoxInstance,
    handle: usize,
    classes: Seq<LoxClass>,
    scopes: Scopes,
    text: Seq<char>,
    this: Span,
    name: Span,
) -> (Scopes, Option<LoxObject>) {
    match scopes.lookup_here(text, instance.fields, name) {
        Some(i) => (scopes, Some(scopes.bindings[i as int].value)),
        None => match find_method(classes, scopes, text, instance.class, name) {
            Some(function) => {
                let (bound_scopes, bound) = bound_to(function, scopes, text, this, handle);
                (bound_scopes, Some(LoxObject::Callable(bound)))
            },
            None => (scopes, None),
        },
    }
}

impl LoxInstance {
    pub fn new(class: usize, fields: usize) -> (instance: LoxInstance)
        ensures
            instance == (LoxInstance { class, fields }),
    {
        LoxInstance { class, fields }
    }

    /// Reads property `name`; `handle` is the index of this instance.
    pub fn get(
        &self,
        handle: usize,
        classes: &Vec<LoxClass>,
        environment: &mut Environment,
        text: &Vec<char>,
        this: Span,
        name: &Span,
    ) -> (value: Option<LoxObject>)
        ensures
            (final(environment)@, value) == read_property(
                *self,
                handle,
                classes@,
                old(environment)@,
                text@,
                this,
                *name,
            ),
            old(environment)@.well_formed() ==> final(environment)@.well_formed(),
    {
        match environment.lookup_here(text, self.fields, name) {
            Some(i) => Some(environment.bindings[i].value),
            None => match LoxClass::find_methods(classes, environment, text, self.class, name) {
                Some(function) => Some(
                    LoxObject::Callable(function.bind(environment, text, this, handle)),
                ),
                None => None,
            },
        }
    }

    /// Writes field `name`, which is made if the instance has none of
    /// that name.
    pub fn set(&self, environment: &mut Environment, text: &Vec<char>, name: Span, value: LoxObject)
        ensures
            final(environment)@ == old(environment)@.define(text@, self.fields, name, value),
            old(environment)@.well_formed() ==> final(environment)@.well_formed(),
    {
        environment.define(text, self.fields, name, value);
    }
}

} // verus!
