//! The resolver: a pass over the syntax that fixes, for each use of a
//! local variable, how many scopes out its declaration lies.
//!
//! [`resolve_expr`], [`resolve_stmt`] and their companions state what the
//! pass does to a [`Resolution`]; the methods of [`Resolver`] are proved
//! to compute exactly that.

use vstd::prelude::*;
use crate::environment::{Environment, Scopes};
use crate::expr::{Expr, ListRef};
use crate::interpreter::{Interpreter, Machine, Names};
use crate::stmt::{lemma_expr_ok, lemma_stmt_ok, Ast, ClassStmt, FunStmt, Stmt};
use crate::tokens::{LoxObject, Span};

verus! {

/// What the resolver rejects.
#[derive(Clone, Copy, Debug, PartialEq, Eq, Structural)]
pub enum ResolveError {
    /// A local variable is read in its own initializer.
    OwnInitializer,
    /// `return` outside any function.
    ReturnOutsideFunction,
    /// `return` with a value inside an initializer.
    ReturnFromInitializer,
    /// `this` outside any class.
    ThisOutsideClass,
    /// `break` outside any loop.
    BreakOutsideLoop,
    /// A node refers to a node that does not come before it.
    Malformed,
}

impl ResolveError {
    /// The text of the complaint.
    pub open spec fn message_text(self) -> Seq<char> {
        match self {
            ResolveError::OwnInitializer => "Can't read local variable in its own initializer."@,
            ResolveError::ReturnOutsideFunction => "Can't return from top-level code."@,
            ResolveError::ReturnFromInitializer => "Can't return a value from an initializer."@,
            ResolveError::ThisOutsideClass => "Can't use 'this' outside of a class."@,
            ResolveError::BreakOutsideLoop => "Can't break outside of a loop."@,
            ResolveError::Malformed => "The program's tables are inconsistent."@,
        }
    }

    /// The text of the complaint.
    pub fn message(&self) -> (msg: &'static str)
        ensures
            msg@ == self.message_text(),
    {
        match self {
            ResolveError::OwnInitializer => "Can't read local variable in its own initializer.",
            ResolveError::ReturnOutsideFunction => "Can't return from top-level code.",
            ResolveError::ReturnFromInitializer => "Can't return a value from an initializer.",
            ResolveError::ThisOutsideClass => "Can't use 'this' outside of a class.",
            ResolveError::BreakOutsideLoop => "Can't break outside of a loop.",
            ResolveError::Malformed => "The program's tables are inconsistent.",
        }
    }
}

/// The kind of function whose body is being resolved.
#[derive(Clone, Copy, Debug, PartialEq, Eq, Structural)]
pub enum FunctionType {
    Outside,
    Function,
    Method,
    Init,
}

/// Whether a class body is being resolved.
#[derive(Clone, Copy, Debug, PartialEq, Eq, Structural)]
pub enum ClassType {
    Outside,
    Class,
}

/// The state of a resolution pass. A name is bound to `false` in a scope
/// from its declaration on and to `true` once it is defined.
pub struct Resolution {
    pub scopes: Scopes,
    pub current: Option<usize>,
    pub function: FunctionType,
    pub class: ClassType,
    pub in_loop: bool,
    pub locals: Seq<Option<usize>>,
}

/// What the pass is given and does not change.
pub struct Context {
    pub ast: Ast,
    pub text: Seq<char>,
    pub names: Names,
}

impl Resolution {
    /// Opens a scope inside the current one.
    pub open spec fn begin_scope(self) -> Resolution {
        Resolution {
            scopes: self.scopes.push_scope(self.current),
            current: Some(self.scopes.scopes.len() as usize),
            ..self
        }
    }

    /// Goes back to the scope around the current one.
    pub open spec fn end_scope(self) -> Resolution {
        Resolution {
            current: match self.current {
                Some(scope) => self.scopes.enclosing(scope),
                None => None,
            },
            ..self
        }
    }

    /// Binds `name` in the current scope, as defined or not. Outside any
    /// scope nothing happens.
    pub open spec fn mark(self, text: Seq<char>, name: Span, defined: bool) -> Resolution {
        match self.current {
            Some(scope) => Resolution {
                scopes: self.scopes.define(text, scope, name, LoxObject::Bool(defined)),
                ..self
            },
            None => self,
        }
    }

    /// Whether the current scope has `name` declared and not yet defined.
    pub open spec fn half_declared(self, text: Seq<char>, name: Span) -> bool {
        match self.current {
            Some(scope) => match self.scopes.lookup_here(text, scope, name) {
                Some(i) => match self.scopes.bindings[i as int].value {
                    LoxObject::Bool(defined) => !defined,
                    _ => false,
                },
                None => false,
            },
            None => false,
        }
    }

    /// Records for expression `id` how far out `name` is bound; a name
    /// that no scope binds is left to be found when the program runs.
    pub open spec fn resolve_local(self, text: Seq<char>, id: usize, name: Span) -> Resolution {
        match self.current {
            Some(scope) => match self.scopes.depth_of(text, scope, name) {
                Some(depth) => if id < self.locals.len() {
                    Resolution { locals: self.locals.update(id as int, Some(depth)), ..self }
                } else {
                    self
                },
                None => self,
            },
            None => self,
        }
    }
}

/// Resolves the expressions of `list` from `index` on, each of which must
/// come before node `bound`.
pub open spec fn resolve_arguments(
    c: Context,
    r: Resolution,
    bound: usize,
    list: ListRef,
    index: usize,
) -> Result<Resolution, ResolveError>
    decreases bound, list.len - index,
{
    if index >= list.len {
        Ok(r)
    } else {
        match c.ast.item(list, index) {
            Some(id) => if id < bound {
                match resolve_expr(c, r, id) {
                    Ok(next) => resolve_arguments(c, next, bound, list, (index + 1) as usize),
                    Err(error) => Err(error),
                }
            } else {
                Err(ResolveError::Malformed)
            },
            None => Err(ResolveError::Malformed),
        }
    }
}

/// Resolves operand `child` of expression `id`, which must come before
/// it.
pub open spec fn resolve_child(c: Context, r: Resolution, id: usize, child: usize) -> Result<
    Resolution,
    ResolveError,
>
    decreases id, 1nat,
{
    if child < id {
        resolve_expr(c, r, child)
    } else {
        Err(ResolveError::Malformed)
    }
}

/// Resolves expression `id`.
pub open spec fn resolve_expr(c: Context, r: Resolution, id: usize) -> Result<
    Resolution,
    ResolveError,
>
    decreases id + 1, 0nat,
{
    match c.ast.expr(id) {
        None => Err(ResolveError::Malformed),
        Some(Expr::Literal(_)) => Ok(r),
        Some(Expr::Grouping(grouping)) => resolve_child(c, r, id, grouping.expression),
        Some(Expr::Unary(unary)) => resolve_child(c, r, id, unary.right),
        Some(Expr::Binary(binary)) => match resolve_child(c, r, id, binary.left) {
            Ok(next) => resolve_child(c, next, id, binary.right),
            Err(error) => Err(error),
        },
        Some(Expr::Logical(logical)) => match resolve_child(c, r, id, logical.left) {
            Ok(next) => resolve_child(c, next, id, logical.right),
            Err(error) => Err(error),
        },
        Some(Expr::Variable(variable)) => if r.half_declared(c.text, variable.name.lexeme) {
            Err(ResolveError::OwnInitializer)
        } else {
            Ok(r.resolve_local(c.text, id, variable.name.lexeme))
        },
        Some(Expr::Assign(assign)) => match resolve_child(c, r, id, assign.value) {
            Ok(next) => Ok(next.resolve_local(c.text, id, assign.name.lexeme)),
            Err(error) => Err(error),
        },
        Some(Expr::Call(call)) => match resolve_child(c, r, id, call.callee) {
            Ok(next) => resolve_arguments(c, next, id, call.arguments, 0),
            Err(error) => Err(error),
        },
        Some(Expr::Get(get)) => resolve_child(c, r, id, get.object),
        Some(Expr::SetProperty(set)) => match resolve_child(c, r, id, set.value) {
            Ok(next) => resolve_child(c, next, id, set.object),
            Err(error) => Err(error),
        },
        Some(Expr::This(this)) => if r.class == ClassType::Outside {
            Err(ResolveError::ThisOutsideClass)
        } else {
            Ok(r.resolve_local(c.text, id, this.name.lexeme))
        },
        Some(Expr::Super(sup)) => Ok(r.resolve_local(c.text, id, sup.keyword.lexeme)),
    }
}

/// Binds the parameters of `params` from `index` on in the current scope.
pub open spec fn define_parameters(c: Context, r: Resolution, params: ListRef, index: usize) -> Resolution
    decreases params.len - index,
{
    if index >= params.len {
        r
    } else {
        let next = match c.ast.param(params, index) {
            Some(name) => r.mark(c.text, name.lexeme, true),
            None => r,
        };
        define_parameters(c, next, params, (index + 1) as usize)
    }
}

/// Resolves the statements of `list` from `index` on, each of which must
/// come before node `bound`.
pub open spec fn resolve_statements(
    c: Context,
    r: Resolution,
    bound: usize,
    list: ListRef,
    index: usize,
) -> Result<Resolution, ResolveError>
    decreases bound, 1nat, list.len - index,
{
    if index >= list.len {
        Ok(r)
    } else {
        match c.ast.item(list, index) {
            Some(id) => if id < bound {
                match resolve_stmt(c, r, id) {
                    Ok(next) => resolve_statements(c, next, bound, list, (index + 1) as usize),
                    Err(error) => Err(error),
                }
            } else {
                Err(ResolveError::Malformed)
            },
            None => Err(ResolveError::Malformed),
        }
    }
}

/// Resolves the body of function `id` in a scope of its own that binds
/// its parameters. Loops around the function do not count inside it.
pub open spec fn resolve_function(
    c: Context,
    r: Resolution,
    id: usize,
    function: FunStmt,
    kind: FunctionType,
) -> Result<Resolution, ResolveError>
    decreases id, 2nat, 0nat,
{
    let inside = define_parameters(
        c,
        (Resolution { function: kind, in_loop: false, ..r }).begin_scope(),
        function.params,
        0,
    );
    match resolve_statements(c, inside, id, function.body, 0) {
        Ok(done) => Ok(
            Resolution { function: r.function, in_loop: r.in_loop, ..done.end_scope() },
        ),
        Err(error) => Err(error),
    }
}

/// Resolves the methods of `list` from `index` on, each of which must
/// come before node `bound`. An entry of the list that is no function
/// declaration is passed over.
pub open spec fn resolve_methods(
    c: Context,
    r: Resolution,
    bound: usize,
    list: ListRef,
    index: usize,
) -> Result<Resolution, ResolveError>
    decreases bound, 3nat, list.len - index,
{
    if index >= list.len {
        Ok(r)
    } else {
        match c.ast.item(list, index) {
            Some(id) => if id < bound {
                match c.ast.stmt(id) {
                    Some(Stmt::Fun(function)) => match resolve_function(
                        c,
                        r,
                        id,
                        function,
                        if function.name.lexeme.text(c.text) == c.names.init.text(c.text) {
                            FunctionType::Init
                        } else {
                            FunctionType::Method
                        },
                    ) {
                        Ok(next) => resolve_methods(c, next, bound, list, (index + 1) as usize),
                        Err(error) => Err(error),
                    },
                    _ => resolve_methods(c, r, bound, list, (index + 1) as usize),
                }
            } else {
                Err(ResolveError::Malformed)
            },
            None => Err(ResolveError::Malformed),
        }
    }
}

/// Resolves a class declaration: the name is bound, then the methods are
/// resolved inside a scope that binds `this`, itself inside a scope that
/// binds `super` when the class has a superclass.
pub open spec fn resolve_class(c: Context, r: Resolution, id: usize, class: ClassStmt) -> Result<
    Resolution,
    ResolveError,
>
    decreases id, 4nat, 0nat,
{
    let named = (Resolution { class: ClassType::Class, ..r }).mark(
        c.text,
        class.name.lexeme,
        true,
    );
    let parent = match class.superclass {
        Some(superclass) => match resolve_expr(c, named, superclass) {
            Ok(next) => Ok(next.begin_scope().mark(c.text, c.names.superclass, true)),
            Err(error) => Err(error),
        },
        None => Ok(named),
    };
    match parent {
        Err(error) => Err(error),
        Ok(around) => match resolve_methods(
            c,
            around.begin_scope().mark(c.text, c.names.this, true),
            id,
            class.methods,
            0,
        ) {
            Err(error) => Err(error),
            Ok(done) => Ok(
                Resolution {
                    class: r.class,
                    ..if class.superclass is Some {
                        done.end_scope().end_scope()
                    } else {
                        done.end_scope()
                    }
                },
            ),
        },
    }
}

/// Resolves statement `child` of statement `id`, which must come before
/// it.
pub open spec fn resolve_part(c: Context, r: Resolution, id: usize, child: usize) -> Result<
    Resolution,
    ResolveError,
>
    decreases id, 5nat, 0nat,
{
    if child < id {
        resolve_stmt(c, r, child)
    } else {
        Err(ResolveError::Malformed)
    }
}

/// Resolves statement `id`.
pub open spec fn resolve_stmt(c: Context, r: Resolution, id: usize) -> Result<
    Resolution,
    ResolveError,
>
    decreases id + 1, 0nat, 0nat,
{
    match c.ast.stmt(id) {
        None => Err(ResolveError::Malformed),
        Some(Stmt::Expression(statement)) => resolve_expr(c, r, statement.expression),
        Some(Stmt::Print(statement)) => resolve_expr(c, r, statement.expression),
        Some(Stmt::Var(statement)) => {
            let declared = r.mark(c.text, statement.name.lexeme, false);
            match statement.initializer {
                Some(initializer) => match resolve_expr(c, declared, initializer) {
                    Ok(next) => Ok(next.mark(c.text, statement.name.lexeme, true)),
                    Err(error) => Err(error),
                },
                None => Ok(declared.mark(c.text, statement.name.lexeme, true)),
            }
        },
        Some(Stmt::Block(block)) => match resolve_statements(
            c,
            r.begin_scope(),
            id,
            block.statements,
            0,
        ) {
            Ok(done) => Ok(done.end_scope()),
            Err(error) => Err(error),
        },
        Some(Stmt::If(statement)) => match resolve_expr(c, r, statement.condition) {
            Err(error) => Err(error),
            Ok(tested) => match resolve_part(c, tested, id, statement.then_branch) {
                Err(error) => Err(error),
                Ok(next) => match statement.else_branch {
                    Some(other) => resolve_part(c, next, id, other),
                    None => Ok(next),
                },
            },
        },
        Some(Stmt::While(statement)) => match resolve_expr(c, r, statement.condition) {
            Err(error) => Err(error),
            Ok(tested) => match resolve_part(
                c,
                Resolution { in_loop: true, ..tested },
                id,
                statement.body,
            ) {
                Ok(done) => Ok(Resolution { in_loop: r.in_loop, ..done }),
                Err(error) => Err(error),
            },
        },
        Some(Stmt::Fun(function)) => resolve_function(
            c,
            r.mark(c.text, function.name.lexeme, true),
            id,
            function,
            FunctionType::Function,
        ),
        Some(Stmt::Return(statement)) => if r.function == FunctionType::Outside {
            Err(ResolveError::ReturnOutsideFunction)
        } else {
            match statement.value {
                Some(value) => if r.function == FunctionType::Init {
                    Err(ResolveError::ReturnFromInitializer)
                } else {
                    resolve_expr(c, r, value)
                },
                None => Ok(r),
            }
        },
        Some(Stmt::Break(_)) => if r.in_loop {
            Ok(r)
        } else {
            Err(ResolveError::BreakOutsideLoop)
        },
        Some(Stmt::Class(class)) => resolve_class(c, r, id, class),
    }
}

/// Resolves the top-level statements `body` from `index` on.
pub open spec fn resolve_body(c: Context, r: Resolution, body: Seq<usize>, index: nat) -> Result<
    Resolution,
    ResolveError,
>
    decreases body.len() - index,
{
    if index >= body.len() {
        Ok(r)
    } else {
        match resolve_stmt(c, r, body[index as int]) {
            Ok(next) => resolve_body(c, next, body, index + 1),
            Err(error) => Err(error),
        }
    }
}

/// The state a pass starts in: no scope, outside any function, class and
/// loop.
pub open spec fn initial(locals: Seq<Option<usize>>) -> Resolution {
    Resolution {
        scopes: Scopes { scopes: Seq::empty(), bindings: Seq::empty() },
        current: None,
        function: FunctionType::Outside,
        class: ClassType::Outside,
        in_loop: false,
        locals,
    }
}

/// What resolving a whole program yields: the resolution table. The
/// top-level statements are resolved inside one scope.
pub open spec fn resolve_program(c: Context, body: Seq<usize>, locals: Seq<Option<usize>>) -> Result<
    Seq<Option<usize>>,
    ResolveError,
> {
    match resolve_body(c, initial(locals).begin_scope(), body, 0) {
        Ok(done) => Ok(done.locals),
        Err(error) => Err(error),
    }
}


/// Whether a result is anything but the report of inconsistent tables.
pub open spec fn sound(result: Result<Resolution, ResolveError>) -> bool {
    result != Err::<Resolution, ResolveError>(ResolveError::Malformed)
}

/// In the tables of a tree, resolving an operand never finds the tables
/// inconsistent.
pub proof fn lemma_child_is_sound(c: Context, r: Resolution, id: usize, child: usize)
    requires
        c.ast.well_formed(),
        id < c.ast.exprs.len(),
        child < id,
    ensures
        sound(resolve_child(c, r, id, child)),
    decreases id, 1nat,
{
    lemma_expr_is_sound(c, r, child);
}

/// In the tables of a tree, resolving a list of arguments never finds
/// the tables inconsistent.
pub proof fn lemma_arguments_are_sound(
    c: Context,
    r: Resolution,
    bound: usize,
    list: ListRef,
    index: usize,
)
    requires
        c.ast.well_formed(),
        bound <= c.ast.exprs.len(),
        c.ast.list_below(list, bound as int),
    ensures
        sound(resolve_arguments(c, r, bound, list, index)),
    decreases bound, list.len - index,
{
    if index < list.len {
        let id = c.ast.lists[list.start + index];
        assert(c.ast.item(list, index) == Some(id));
        lemma_expr_is_sound(c, r, id);
        match resolve_expr(c, r, id) {
            Ok(next) => {
                lemma_arguments_are_sound(c, next, bound, list, (index + 1) as usize);
            },
            Err(_) => {},
        }
    }
}

/// In the tables of a tree, resolving an expression never finds the
/// tables inconsistent.
pub proof fn lemma_expr_is_sound(c: Context, r: Resolution, id: usize)
    requires
        c.ast.well_formed(),
        id < c.ast.exprs.len(),
    ensures
        sound(resolve_expr(c, r, id)),
    decreases id + 1, 0nat,
{
    lemma_expr_ok(c.ast, id);
    match c.ast.exprs[id as int] {
        Expr::Grouping(grouping) => {
            lemma_child_is_sound(c, r, id, grouping.expression);
        },
        Expr::Unary(unary) => {
            lemma_child_is_sound(c, r, id, unary.right);
        },
        Expr::Binary(binary) => {
            lemma_child_is_sound(c, r, id, binary.left);
            match resolve_child(c, r, id, binary.left) {
                Ok(next) => {
                    lemma_child_is_sound(c, next, id, binary.right);
                },
                Err(_) => {},
            }
        },
        Expr::Logical(logical) => {
            lemma_child_is_sound(c, r, id, logical.left);
            match resolve_child(c, r, id, logical.left) {
                Ok(next) => {
                    lemma_child_is_sound(c, next, id, logical.right);
                },
                Err(_) => {},
            }
        },
        Expr::Assign(assign) => {
            lemma_child_is_sound(c, r, id, assign.value);
        },
        Expr::Call(call) => {
            lemma_child_is_sound(c, r, id, call.callee);
            match resolve_child(c, r, id, call.callee) {
                Ok(next) => {
                    lemma_arguments_are_sound(c, next, id, call.arguments, 0);
                },
                Err(_) => {},
            }
        },
        Expr::Get(get) => {
            lemma_child_is_sound(c, r, id, get.object);
        },
        Expr::SetProperty(set) => {
            lemma_child_is_sound(c, r, id, set.value);
            match resolve_child(c, r, id, set.value) {
                Ok(next) => {
                    lemma_child_is_sound(c, next, id, set.object);
                },
                Err(_) => {},
            }
        },
        _ => {},
    }
}

/// In the tables of a tree, resolving a list of statements never finds
/// the tables inconsistent.
pub proof fn lemma_statements_are_sound(
    c: Context,
    r: Resolution,
    bound: usize,
    list: ListRef,
    index: usize,
)
    requires
        c.ast.well_formed(),
        bound <= c.ast.stmts.len(),
        c.ast.list_below(list, bound as int),
    ensures
        sound(resolve_statements(c, r, bound, list, index)),
    decreases bound, 1nat, list.len - index,
{
    if index < list.len {
        let id = c.ast.lists[list.start + index];
        assert(c.ast.item(list, index) == Some(id));
        lemma_stmt_is_sound(c, r, id);
        match resolve_stmt(c, r, id) {
            Ok(next) => {
                lemma_statements_are_sound(c, next, bound, list, (index + 1) as usize);
            },
            Err(_) => {},
        }
    }
}

/// In the tables of a tree, resolving a function never finds the tables
/// inconsistent.
pub proof fn lemma_function_is_sound(
    c: Context,
    r: Resolution,
    id: usize,
    function: FunStmt,
    kind: FunctionType,
)
    requires
        c.ast.well_formed(),
        id < c.ast.stmts.len(),
        c.ast.list_below(function.body, id as int),
    ensures
        sound(resolve_function(c, r, id, function, kind)),
    decreases id, 2nat, 0nat,
{
    let inside = define_parameters(
        c,
        (Resolution { function: kind, in_loop: false, ..r }).begin_scope(),
        function.params,
        0,
    );
    lemma_statements_are_sound(c, inside, id, function.body, 0);
}

/// In the tables of a tree, resolving a list of methods never finds the
/// tables inconsistent.
pub proof fn lemma_methods_are_sound(
    c: Context,
    r: Resolution,
    bound: usize,
    list: ListRef,
    index: usize,
)
    requires
        c.ast.well_formed(),
        bound <= c.ast.stmts.len(),
        c.ast.list_below(list, bound as int),
    ensures
        sound(resolve_methods(c, r, bound, list, index)),
    decreases bound, 3nat, list.len - index,
{
    if index < list.len {
        let id = c.ast.lists[list.start + index];
        assert(c.ast.item(list, index) == Some(id));
        lemma_stmt_ok(c.ast, id);
        match c.ast.stmts[id as int] {
            Stmt::Fun(function) => {
                let kind = if function.name.lexeme.text(c.text) == c.names.init.text(c.text) {
                    FunctionType::Init
                } else {
                    FunctionType::Method
                };
                lemma_function_is_sound(c, r, id, function, kind);
                match resolve_function(c, r, id, function, kind) {
                    Ok(next) => {
                        lemma_methods_are_sound(c, next, bound, list, (index + 1) as usize);
                    },
                    Err(_) => {},
                }
            },
            _ => {
                lemma_methods_are_sound(c, r, bound, list, (index + 1) as usize);
            },
        }
    }
}

/// In the tables of a tree, resolving a class never finds the tables
/// inconsistent.
pub proof fn lemma_class_is_sound(c: Context, r: Resolution, id: usize, class: ClassStmt)
    requires
        c.ast.well_formed(),
        id < c.ast.stmts.len(),
        c.ast.stmts[id as int] == Stmt::Class(class),
    ensures
        sound(resolve_class(c, r, id, class)),
    decreases id, 4nat, 0nat,
{
    lemma_stmt_ok(c.ast, id);
    let named = (Resolution { class: ClassType::Class, ..r }).mark(
        c.text,
        class.name.lexeme,
        true,
    );
    match class.superclass {
        Some(superclass) => {
            lemma_expr_is_sound(c, named, superclass);
            match resolve_expr(c, named, superclass) {
                Ok(next) => {
                    lemma_methods_are_sound(
                        c,
                        next.begin_scope().mark(c.text, c.names.superclass, true).begin_scope().mark(
                            c.text,
                            c.names.this,
                            true,
                        ),
                        id,
                        class.methods,
                        0,
                    );
                },
                Err(_) => {},
            }
        },
        None => {
            lemma_methods_are_sound(
                c,
                named.begin_scope().mark(c.text, c.names.this, true),
                id,
                class.methods,
                0,
            );
        },
    }
}

/// In the tables of a tree, resolving a part of a statement never finds
/// the tables inconsistent.
pub proof fn lemma_part_is_sound(c: Context, r: Resolution, id: usize, child: usize)
    requires
        c.ast.well_formed(),
        id < c.ast.stmts.len(),
        child < id,
    ensures
        sound(resolve_part(c, r, id, child)),
    decreases id, 5nat, 0nat,
{
    lemma_stmt_is_sound(c, r, child);
}

/// In the tables of a tree, resolving a statement never finds the tables
/// inconsistent.
pub proof fn lemma_stmt_is_sound(c: Context, r: Resolution, id: usize)
    requires
        c.ast.well_formed(),
        id < c.ast.stmts.len(),
    ensures
        sound(resolve_stmt(c, r, id)),
    decreases id + 1, 0nat, 0nat,
{
    lemma_stmt_ok(c.ast, id);
    match c.ast.stmts[id as int] {
        Stmt::Expression(statement) => {
            lemma_expr_is_sound(c, r, statement.expression);
        },
        Stmt::Print(statement) => {
            lemma_expr_is_sound(c, r, statement.expression);
        },
        Stmt::Var(statement) => {
            match statement.initializer {
                Some(initializer) => {
                    lemma_expr_is_sound(
                        c,
                        r.mark(c.text, statement.name.lexeme, false),
                        initializer,
                    );
                },
                None => {},
            }
        },
        Stmt::Block(block) => {
            lemma_statements_are_sound(c, r.begin_scope(), id, block.statements, 0);
        },
        Stmt::If(statement) => {
            lemma_expr_is_sound(c, r, statement.condition);
            match resolve_expr(c, r, statement.condition) {
                Ok(tested) => {
                    lemma_part_is_sound(c, tested, id, statement.then_branch);
                    match resolve_part(c, tested, id, statement.then_branch) {
                        Ok(next) => {
                            match statement.else_branch {
                                Some(other) => {
                                    lemma_part_is_sound(c, next, id, other);
                                },
                                None => {},
                            }
                        },
                        Err(_) => {},
                    }
                },
                Err(_) => {},
            }
        },
        Stmt::While(statement) => {
            lemma_expr_is_sound(c, r, statement.condition);
            match resolve_expr(c, r, statement.condition) {
                Ok(tested) => {
                    lemma_part_is_sound(
                        c,
                        Resolution { in_loop: true, ..tested },
                        id,
                        statement.body,
                    );
                },
                Err(_) => {},
            }
        },
        Stmt::Fun(function) => {
            lemma_function_is_sound(
                c,
                r.mark(c.text, function.name.lexeme, true),
                id,
                function,
                FunctionType::Function,
            );
        },
        Stmt::Return(statement) => {
            match statement.value {
                Some(value) => {
                    lemma_expr_is_sound(c, r, value);
                },
                None => {},
            }
        },
        Stmt::Break(_) => {},
        Stmt::Class(class) => {
            lemma_class_is_sound(c, r, id, class);
        },
    }
}

/// In the tables of a tree, resolving top-level statements that exist
/// never finds the tables inconsistent.
pub proof fn lemma_body_is_sound(c: Context, r: Resolution, body: Seq<usize>, index: nat)
    requires
        c.ast.well_formed(),
        forall|k: int| 0 <= k < body.len() ==> (#[trigger] body[k]) < c.ast.stmts.len(),
    ensures
        sound(resolve_body(c, r, body, index)),
    decreases body.len() - index,
{
    if index < body.len() {
        lemma_stmt_is_sound(c, r, body[index as int]);
        match resolve_stmt(c, r, body[index as int]) {
            Ok(next) => {
                lemma_body_is_sound(c, next, body, index + 1);
            },
            Err(_) => {},
        }
    }
}

/// The resolver never finds the tables of a tree inconsistent: a program
/// whose every node refers to earlier nodes only, as the parser builds
/// them, resolves or fails with an error of the program itself.
pub proof fn lemma_resolve_is_sound(c: Context, body: Seq<usize>, locals: Seq<Option<usize>>)
    requires
        c.ast.well_formed(),
        forall|k: int| 0 <= k < body.len() ==> (#[trigger] body[k]) < c.ast.stmts.len(),
    ensures
        resolve_program(c, body, locals) != Err::<Seq<Option<usize>>, ResolveError>(
            ResolveError::Malformed,
        ),
{
    lemma_body_is_sound(c, initial(locals).begin_scope(), body, 0);
}

/// What a pass is given by the interpreter whose table it fills.
pub open spec fn context(machine: Machine) -> Context {
    Context { ast: machine.ast, text: machine.text, names: machine.names }
}

/// The resolver. It writes what it finds into the resolution table of
/// the interpreter it is handed.
pub struct Resolver {
    pub scopes: Environment,
    pub current: Option<usize>,
    pub current_function: FunctionType,
    pub current_class: ClassType,
    pub in_loop: bool,
}

impl Resolver {
    /// The state of the pass, given the table filled so far.
    pub open spec fn state(&self, locals: Seq<Option<usize>>) -> Resolution {
        Resolution {
            scopes: self.scopes@,
            current: self.current,
            function: self.current_function,
            class: self.current_class,
            in_loop: self.in_loop,
            locals,
        }
    }

    /// Whether this resolver and the machine `after` are what `expected`
    /// says of a step that started from the machine `before` and returned
    /// `found`. Nothing but the resolution table of the machine has
    /// changed. On success the state is the expected one; on failure the
    /// error is the expected one.
    pub open spec fn outcome(
        &self,
        after: Machine,
        before: Machine,
        expected: Result<Resolution, ResolveError>,
        found: Result<(), ResolveError>,
    ) -> bool {
        &&& after == (Machine { locals: after.locals, ..before })
        &&& match expected {
            Ok(resolution) => found is Ok && self.state(after.locals) == resolution,
            Err(error) => found == Err::<(), ResolveError>(error),
        }
    }

    pub fn new() -> (resolver: Resolver)
        ensures
            forall|locals: Seq<Option<usize>>| #[trigger] resolver.state(locals) == initial(locals),
    {
        Resolver {
            scopes: Environment::new(),
            current: None,
            current_function: FunctionType::Outside,
            current_class: ClassType::Outside,
            in_loop: false,
        }
    }

    /// Opens a scope inside the current one.
    pub fn begin_scope(&mut self)
        ensures
            forall|locals: Seq<Option<usize>>|
                #![trigger old(self).state(locals)]
                final(self).state(locals) == old(self).state(locals).begin_scope(),
    {
        self.current = Some(self.scopes.new_with_enclosing(self.current));
    }

    /// Goes back to the scope around the current one.
    pub fn end_scope(&mut self)
        ensures
            forall|locals: Seq<Option<usize>>|
                #![trigger old(self).state(locals)]
                final(self).state(locals) == old(self).state(locals).end_scope(),
    {
        self.current = match self.current {
            Some(scope) => self.scopes.enclosing(scope),
            None => None,
        };
    }

    /// Binds `name` in the current scope as declared and not yet defined.
    fn declare(&mut self, text: &Vec<char>, name: Span)
        ensures
            forall|locals: Seq<Option<usize>>|
                #![trigger old(self).state(locals)]
                final(self).state(locals) == old(self).state(locals).mark(text@, name, false),
    {
        match self.current {
            Some(scope) => self.scopes.define(text, scope, name, LoxObject::Bool(false)),
            None => {},
        }
    }

    /// Binds `name` in the current scope as defined.
    fn define(&mut self, text: &Vec<char>, name: Span)
        ensures
            forall|locals: Seq<Option<usize>>|
                #![trigger old(self).state(locals)]
                final(self).state(locals) == old(self).state(locals).mark(text@, name, true),
    {
        match self.current {
            Some(scope) => self.scopes.define(text, scope, name, LoxObject::Bool(true)),
            None => {},
        }
    }

    fn half_declared(&self, text: &Vec<char>, name: Span) -> (half: bool)
        ensures
            forall|locals: Seq<Option<usize>>|
                half == (#[trigger] self.state(locals)).half_declared(text@, name),
    {
        match self.current {
            Some(scope) => match self.scopes.lookup_here(text, scope, &name) {
                Some(i) => match self.scopes.bindings[i].value {
                    LoxObject::Bool(defined) => !defined,
                    _ => false,
                },
                None => false,
            },
            None => false,
        }
    }

    /// Records for expression `id` how far out `name` is bound.
    fn resolve_local(&self, interpreter: &mut Interpreter, id: usize, name: Span)
        ensures
            final(interpreter)@ == (Machine {
                locals: self.state(old(interpreter)@.locals).resolve_local(
                    old(interpreter)@.text,
                    id,
                    name,
                ).locals,
                ..old(interpreter)@
            }),
            self.state(final(interpreter)@.locals) == self.state(
                old(interpreter)@.locals,
            ).resolve_local(old(interpreter)@.text, id, name),
    {
        match self.current {
            Some(scope) => match self.scopes.depth_of(&interpreter.text, scope, &name) {
                Some(depth) => interpreter.resolve(id, depth),
                None => {},
            },
            None => {},
        }
    }

    fn resolve_child(&mut self, interpreter: &mut Interpreter, id: usize, child: usize) -> (r:
        Result<(), ResolveError>)
        ensures
            final(self).outcome(
                final(interpreter)@,
                old(interpreter)@,
                resolve_child(
                    context(old(interpreter)@),
                    old(self).state(old(interpreter)@.locals),
                    id,
                    child,
                ),
                r,
            ),
        decreases id, 1nat,
    {
        if child < id {
            self.resolve_expr(interpreter, child)
        } else {
            Err(ResolveError::Malformed)
        }
    }

    #[verifier::loop_isolation(false)]
    fn resolve_arguments(&mut self, interpreter: &mut Interpreter, bound: usize, list: ListRef) -> (r:
        Result<(), ResolveError>)
        ensures
            final(self).outcome(
                final(interpreter)@,
                old(interpreter)@,
                resolve_arguments(
                    context(old(interpreter)@),
                    old(self).state(old(interpreter)@.locals),
                    bound,
                    list,
                    0,
                ),
                r,
            ),
        decreases bound, 1nat,
    {
        let ghost c = context(interpreter@);
        let ghost goal = resolve_arguments(c, self.state(interpreter@.locals), bound, list, 0);
        let mut index: usize = 0;
        while index < list.len
            invariant
                index <= list.len,
                interpreter@ == (Machine { locals: interpreter@.locals, ..old(interpreter)@ }),
                goal == resolve_arguments(c, self.state(interpreter@.locals), bound, list, index),
            decreases list.len - index,
        {
            match interpreter.program.item(list, index) {
                Some(id) => {
                    if id < bound {
                        match self.resolve_expr(interpreter, id) {
                            Ok(()) => {},
                            Err(error) => {
                                return Err(error);
                            },
                        }
                    } else {
                        return Err(ResolveError::Malformed);
                    }
                },
                None => {
                    return Err(ResolveError::Malformed);
                },
            }
            index += 1;
        }
        Ok(())
    }

    /// Resolves expression `id`.
    pub fn resolve_expr(&mut self, interpreter: &mut Interpreter, id: usize) -> (r: Result<
        (),
        ResolveError,
    >)
        ensures
            final(self).outcome(
                final(interpreter)@,
                old(interpreter)@,
                resolve_expr(
                    context(old(interpreter)@),
                    old(self).state(old(interpreter)@.locals),
                    id,
                ),
                r,
            ),
        decreases id + 1, 0nat,
    {
        match interpreter.program.expr(id) {
            None => Err(ResolveError::Malformed),
            Some(Expr::Literal(_)) => Ok(()),
            Some(Expr::Grouping(grouping)) => self.resolve_child(
                interpreter,
                id,
                grouping.expression,
            ),
            Some(Expr::Unary(unary)) => self.resolve_child(interpreter, id, unary.right),
            Some(Expr::Binary(binary)) => match self.resolve_child(interpreter, id, binary.left) {
                Ok(()) => self.resolve_child(interpreter, id, binary.right),
                Err(error) => Err(error),
            },
            Some(Expr::Logical(logical)) => match self.resolve_child(
                interpreter,
                id,
                logical.left,
            ) {
                Ok(()) => self.resolve_child(interpreter, id, logical.right),
                Err(error) => Err(error),
            },
            Some(Expr::Variable(variable)) => {
                if self.half_declared(&interpreter.text, variable.name.lexeme) {
                    Err(ResolveError::OwnInitializer)
                } else {
                    self.resolve_local(interpreter, id, variable.name.lexeme);
                    Ok(())
                }
            },
            Some(Expr::Assign(assign)) => match self.resolve_child(interpreter, id, assign.value) {
                Ok(()) => {
                    self.resolve_local(interpreter, id, assign.name.lexeme);
                    Ok(())
                },
                Err(error) => Err(error),
            },
            Some(Expr::Call(call)) => match self.resolve_child(interpreter, id, call.callee) {
                Ok(()) => self.resolve_arguments(interpreter, id, call.arguments),
                Err(error) => Err(error),
            },
            Some(Expr::Get(get)) => self.resolve_child(interpreter, id, get.object),
            Some(Expr::SetProperty(set)) => match self.resolve_child(interpreter, id, set.value) {
                Ok(()) => self.resolve_child(interpreter, id, set.object),
                Err(error) => Err(error),
            },
            Some(Expr::This(this)) => {
                if self.current_class == ClassType::Outside {
                    Err(ResolveError::ThisOutsideClass)
                } else {
                    self.resolve_local(interpreter, id, this.name.lexeme);
                    Ok(())
                }
            },
            Some(Expr::Super(sup)) => {
                self.resolve_local(interpreter, id, sup.keyword.lexeme);
                Ok(())
            },
        }
    }

    /// Binds the parameters of `params` in the current scope.
    #[verifier::loop_isolation(false)]
    fn define_parameters(&mut self, interpreter: &Interpreter, params: ListRef)
        ensures
            forall|locals: Seq<Option<usize>>|
                #![trigger old(self).state(locals)]
                final(self).state(locals) == define_parameters(
                    context(interpreter@),
                    old(self).state(locals),
                    params,
                    0,
                ),
    {
        let ghost c = context(interpreter@);
        let mut index: usize = 0;
        while index < params.len
            invariant
                index <= params.len,
                forall|locals: Seq<Option<usize>>|
                    define_parameters(c, #[trigger] self.state(locals), params, index)
                        == define_parameters(c, old(self).state(locals), params, 0),
            decreases params.len - index,
        {
            let ghost before = *self;
            match interpreter.program.param(params, index) {
                Some(name) => self.define(&interpreter.text, name.lexeme),
                None => {},
            }
            assert forall|locals: Seq<Option<usize>>|
                define_parameters(
                    c,
                    #[trigger] self.state(locals),
                    params,
                    (index + 1) as usize,
                ) == define_parameters(c, old(self).state(locals), params, 0) by {
                assert(define_parameters(c, before.state(locals), params, index)
                    == define_parameters(c, old(self).state(locals), params, 0));
            }
            index += 1;
        }
    }

    /// Resolves the statements of a list, each of which must come before
    /// node `bound`.
    #[verifier::loop_isolation(false)]
    fn resolve_list(&mut self, interpreter: &mut Interpreter, bound: usize, list: ListRef) -> (r:
        Result<(), ResolveError>)
        ensures
            final(self).outcome(
                final(interpreter)@,
                old(interpreter)@,
                resolve_statements(
                    context(old(interpreter)@),
                    old(self).state(old(interpreter)@.locals),
                    bound,
                    list,
                    0,
                ),
                r,
            ),
        decreases bound, 1nat, 0nat,
    {
        let ghost c = context(interpreter@);
        let ghost goal = resolve_statements(c, self.state(interpreter@.locals), bound, list, 0);
        let mut index: usize = 0;
        while index < list.len
            invariant
                index <= list.len,
                interpreter@ == (Machine { locals: interpreter@.locals, ..old(interpreter)@ }),
                goal == resolve_statements(c, self.state(interpreter@.locals), bound, list, index),
            decreases list.len - index,
        {
            match interpreter.program.item(list, index) {
                Some(id) => {
                    if id < bound {
                        match self.resolve_statement(interpreter, id) {
                            Ok(()) => {},
                            Err(error) => {
                                return Err(error);
                            },
                        }
                    } else {
                        return Err(ResolveError::Malformed);
                    }
                },
                None => {
                    return Err(ResolveError::Malformed);
                },
            }
            index += 1;
        }
        Ok(())
    }

    /// Resolves the body of function `id` in a scope of its own.
    fn resolve_function(
        &mut self,
        interpreter: &mut Interpreter,
        id: usize,
        function: FunStmt,
        kind: FunctionType,
    ) -> (r: Result<(), ResolveError>)
        ensures
            final(self).outcome(
                final(interpreter)@,
                old(interpreter)@,
                resolve_function(
                    context(old(interpreter)@),
                    old(self).state(old(interpreter)@.locals),
                    id,
                    function,
                    kind,
                ),
                r,
            ),
        decreases id, 2nat, 0nat,
    {
        let ghost table = interpreter@.locals;
        let enclosing_function = self.current_function;
        let enclosing_loop = self.in_loop;
        self.current_function = kind;
        self.in_loop = false;
        assert(self.state(table) == (Resolution {
            function: kind,
            in_loop: false,
            ..old(self).state(table)
        }));
        self.begin_scope();
        self.define_parameters(interpreter, function.params);
        match self.resolve_list(interpreter, id, function.body) {
            Ok(()) => {},
            Err(error) => {
                return Err(error);
            },
        }
        let ghost done = self.state(interpreter@.locals);
        self.end_scope();
        assert(self.state(interpreter@.locals) == done.end_scope());
        self.current_function = enclosing_function;
        self.in_loop = enclosing_loop;
        Ok(())
    }

    /// Resolves the methods of a list.
    #[verifier::loop_isolation(false)]
    fn resolve_methods(&mut self, interpreter: &mut Interpreter, bound: usize, list: ListRef) -> (r:
        Result<(), ResolveError>)
        ensures
            final(self).outcome(
                final(interpreter)@,
                old(interpreter)@,
                resolve_methods(
                    context(old(interpreter)@),
                    old(self).state(old(interpreter)@.locals),
                    bound,
                    list,
                    0,
                ),
                r,
            ),
        decreases bound, 3nat, 0nat,
    {
        let ghost c = context(interpreter@);
        let ghost goal = resolve_methods(c, self.state(interpreter@.locals), bound, list, 0);
        let mut index: usize = 0;
        while index < list.len
            invariant
                index <= list.len,
                interpreter@ == (Machine { locals: interpreter@.locals, ..old(interpreter)@ }),
                goal == resolve_methods(c, self.state(interpreter@.locals), bound, list, index),
            decreases list.len - index,
        {
            match interpreter.program.item(list, index) {
                Some(id) => {
                    if id >= bound {
                        return Err(ResolveError::Malformed);
                    }
                    match interpreter.program.stmt(id) {
                        Some(Stmt::Fun(function)) => {
                            let kind = if function.name.lexeme.same_text(
                                &interpreter.names.init,
                                &interpreter.text,
                            ) {
                                FunctionType::Init
                            } else {
                                FunctionType::Method
                            };
                            match self.resolve_function(interpreter, id, function, kind) {
                                Ok(()) => {},
                                Err(error) => {
                                    return Err(error);
                                },
                            }
                        },
                        _ => {},
                    }
                },
                None => {
                    return Err(ResolveError::Malformed);
                },
            }
            index += 1;
        }
        Ok(())
    }

    /// Resolves a class declaration.
    fn resolve_class(&mut self, interpreter: &mut Interpreter, id: usize, class: ClassStmt) -> (r:
        Result<(), ResolveError>)
        ensures
            final(self).outcome(
                final(interpreter)@,
                old(interpreter)@,
                resolve_class(
                    context(old(interpreter)@),
                    old(self).state(old(interpreter)@.locals),
                    id,
                    class,
                ),
                r,
            ),
        decreases id, 4nat, 0nat,
    {
        let ghost table = interpreter@.locals;
        let enclosing_class = self.current_class;
        self.current_class = ClassType::Class;
        assert(self.state(table) == (Resolution {
            class: ClassType::Class,
            ..old(self).state(table)
        }));
        self.define(&interpreter.text, class.name.lexeme);
        match class.superclass {
            Some(superclass) => {
                match self.resolve_expr(interpreter, superclass) {
                    Ok(()) => {},
                    Err(error) => {
                        return Err(error);
                    },
                }
                self.begin_scope();
                self.define(&interpreter.text, interpreter.names.superclass);
            },
            None => {},
        }
        self.begin_scope();
        self.define(&interpreter.text, interpreter.names.this);
        match self.resolve_methods(interpreter, id, class.methods) {
            Ok(()) => {},
            Err(error) => {
                return Err(error);
            },
        }
        self.end_scope();
        if class.superclass.is_some() {
            self.end_scope();
        }
        self.current_class = enclosing_class;
        Ok(())
    }

    fn resolve_part(&mut self, interpreter: &mut Interpreter, id: usize, child: usize) -> (r:
        Result<(), ResolveError>)
        ensures
            final(self).outcome(
                final(interpreter)@,
                old(interpreter)@,
                resolve_part(
                    context(old(interpreter)@),
                    old(self).state(old(interpreter)@.locals),
                    id,
                    child,
                ),
                r,
            ),
        decreases id, 5nat, 0nat,
    {
        if child < id {
            self.resolve_statement(interpreter, child)
        } else {
            Err(ResolveError::Malformed)
        }
    }

    /// Resolves statement `id`.
    pub fn resolve_statement(&mut self, interpreter: &mut Interpreter, id: usize) -> (r: Result<
        (),
        ResolveError,
    >)
        ensures
            final(self).outcome(
                final(interpreter)@,
                old(interpreter)@,
                resolve_stmt(
                    context(old(interpreter)@),
                    old(self).state(old(interpreter)@.locals),
                    id,
                ),
                r,
            ),
        decreases id + 1, 0nat, 0nat,
    {
        match interpreter.program.stmt(id) {
            None => Err(ResolveError::Malformed),
            Some(Stmt::Expression(statement)) => self.resolve_expr(
                interpreter,
                statement.expression,
            ),
            Some(Stmt::Print(statement)) => self.resolve_expr(interpreter, statement.expression),
            Some(Stmt::Var(statement)) => {
                self.declare(&interpreter.text, statement.name.lexeme);
                match statement.initializer {
                    Some(initializer) => match self.resolve_expr(interpreter, initializer) {
                        Ok(()) => {},
                        Err(error) => {
                            return Err(error);
                        },
                    },
                    None => {},
                }
                self.define(&interpreter.text, statement.name.lexeme);
                return Ok(());
            },
            Some(Stmt::Block(block)) => {
                self.begin_scope();
                match self.resolve_list(interpreter, id, block.statements) {
                    Ok(()) => {},
                    Err(error) => {
                        return Err(error);
                    },
                }
                self.end_scope();
                return Ok(());
            },
            Some(Stmt::If(statement)) => {
                match self.resolve_expr(interpreter, statement.condition) {
                    Ok(()) => {},
                    Err(error) => {
                        return Err(error);
                    },
                }
                match self.resolve_part(interpreter, id, statement.then_branch) {
                    Ok(()) => {},
                    Err(error) => {
                        return Err(error);
                    },
                }
                match statement.else_branch {
                    Some(other) => {
                        return self.resolve_part(interpreter, id, other);
                    },
                    None => {
                        return Ok(());
                    },
                }
            },
            Some(Stmt::While(statement)) => {
                let enclosing_loop = self.in_loop;
                match self.resolve_expr(interpreter, statement.condition) {
                    Ok(()) => {},
                    Err(error) => {
                        return Err(error);
                    },
                }
                let ghost tested = self.state(interpreter@.locals);
                self.in_loop = true;
                assert(self.state(interpreter@.locals) == (Resolution { in_loop: true, ..tested }));
                match self.resolve_part(interpreter, id, statement.body) {
                    Ok(()) => {},
                    Err(error) => {
                        return Err(error);
                    },
                }
                self.in_loop = enclosing_loop;
                return Ok(());
            },
            Some(Stmt::Fun(function)) => {
                self.define(&interpreter.text, function.name.lexeme);
                return self.resolve_function(interpreter, id, function, FunctionType::Function);
            },
            Some(Stmt::Return(statement)) => {
                if self.current_function == FunctionType::Outside {
                    return Err(ResolveError::ReturnOutsideFunction);
                }
                match statement.value {
                    Some(value) => {
                        if self.current_function == FunctionType::Init {
                            Err(ResolveError::ReturnFromInitializer)
                        } else {
                            self.resolve_expr(interpreter, value)
                        }
                    },
                    None => Ok(()),
                }
            },
            Some(Stmt::Break(_)) => {
                if self.in_loop {
                    Ok(())
                } else {
                    Err(ResolveError::BreakOutsideLoop)
                }
            },
            Some(Stmt::Class(class)) => self.resolve_class(interpreter, id, class),
        }
    }

    /// Resolves the top-level statements `statements` in order.
    #[verifier::loop_isolation(false)]
    pub fn resolve_statements(&mut self, interpreter: &mut Interpreter, statements: &Vec<usize>) -> (r:
        Result<(), ResolveError>)
        ensures
            final(self).outcome(
                final(interpreter)@,
                old(interpreter)@,
                resolve_body(
                    context(old(interpreter)@),
                    old(self).state(old(interpreter)@.locals),
                    statements@,
                    0,
                ),
                r,
            ),
    {
        let ghost c = context(interpreter@);
        let ghost goal = resolve_body(c, self.state(interpreter@.locals), statements@, 0);
        let mut index: usize = 0;
        while index < statements.len()
            invariant
                index <= statements.len(),
                interpreter@ == (Machine { locals: interpreter@.locals, ..old(interpreter)@ }),
                goal == resolve_body(c, self.state(interpreter@.locals), statements@, index as nat),
            decreases statements.len() - index,
        {
            match self.resolve_statement(interpreter, statements[index]) {
                Ok(()) => {},
                Err(error) => {
                    return Err(error);
                },
            }
            index += 1;
        }
        Ok(())
    }
}

/// Resolves a whole program into the resolution table of `interpreter`.
/// The top-level statements `body` are resolved inside one scope. Returns
/// the error that stopped the pass, if any.
pub fn resolve(interpreter: &mut Interpreter, body: &Vec<usize>) -> (failure: Option<ResolveError>)
    ensures
        final(interpreter)@ == (Machine { locals: final(interpreter)@.locals, ..old(interpreter)@ }),
        match resolve_program(context(old(interpreter)@), body@, old(interpreter)@.locals) {
            Ok(locals) => {
                &&& failure is None
                &&& final(interpreter)@ == (Machine { locals, ..old(interpreter)@ })
            },
            Err(error) => failure == Some(error),
        },
{
    let ghost table = interpreter@.locals;
    let mut resolver = Resolver::new();
    assert(resolver.state(table) == initial(table));
    resolver.begin_scope();
    assert(resolver.state(table) == initial(table).begin_scope());
    match resolver.resolve_statements(interpreter, body) {
        Ok(()) => None,
        Err(error) => Some(error),
    }
}

} // verus!
