//! Function values.

use vstd::prelude::*;
use crate::environment::{Environment, Scopes};
use crate::stmt::{Ast, Program, Stmt};
use crate::tokens::{LoxObject, Span};

verus! {

/// A function value: a function declaration together with the scope it
/// was created in.
#[derive(Clone, Copy, Debug)]
pub struct LoxFunction {
    /// The statement that declares the function.
    pub declaration: usize,
    /// The scope the function closes over.
    pub closure: usize,
    /// Whether this is the `init` method of a class.
    pub is_init: bool,
}

/// The scopes and the function after `function` has been bound to an
/// instance: a new scope inside its closure binds the name `this` to the
/// instance, and the bound function closes over that scope.
pub open spec fn bound_to(
    function: LoxFunction,
    scopes: Scopes,
    text: Seq<char>,
    this: Span,
    instance: usize,
) -> (Scopes, LoxFunction) {
    let scope = scopes.scopes.len() as usize;
    (
        scopes.push_scope(Some(function.closure)).define(
            text,
            scope,
            this,
            LoxObject::Instance(instance),
        ),
        LoxFunction { closure: scope, ..function },
    )
}

/// The number of parameters of the function that statement `declaration`
/// declares; nothing when it declares no function.
pub open spec fn arity_of(ast: Ast, declaration: usize) -> Option<usize> {
    match ast.stmt(declaration) {
        Some(Stmt::Fun(function)) => Some(function.params.len),
        _ => None,
    }
}

impl LoxFunction {
    pub fn new(declaration: usize, closure: usize, is_init: bool) -> (function: LoxFunction)
        ensures
            function == (LoxFunction { declaration, closure, is_init }),
    {
        LoxFunction { declaration, closure, is_init }
    }

    /// Binds the function to an instance. Every call makes a new scope,
    /// so two bindings of one method are two functions.
    pub fn bind(
        &self,
        environment: &mut Environment,
        text: &Vec<char>,
        this: Span,
        instance: usize,
    ) -> (bound: LoxFunction)
        ensures
            (final(environment)@, bound) == bound_to(
                *self,
                old(environment)@,
                text@,
                this,
                instance,
            ),
            old(environment)@.well_formed() ==> final(environment)@.well_formed(),
    {
        let scope = environment.new_with_enclosing(Some(self.closure));
        environment.define(text, scope, this, LoxObject::Instance(instance));
        LoxFunction::new(self.declaration, scope, self.is_init)
    }

    /// The number of parameters the function takes.
    pub fn arity(&self, program: &Program) -> (count: Option<usize>)
        ensures
            count == arity_of(program@, self.declaration),
    {
        match program.stmt(self.declaration) {
            Some(Stmt::Fun(function)) => Some(function.params.len),
            _ => None,
        }
    }
}

} // verus!
