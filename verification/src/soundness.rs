//! Consistency of the machine.
//!
//! A machine is consistent when everything it holds refers to things
//! that exist: nodes of the syntax tables, classes, instances, and the
//! values on the value stack that the frames count on. This module
//! states that property and proves that every step keeps it, so that a
//! machine that starts consistent never fails for an inconsistency.

use vstd::prelude::*;
use crate::callable::{bound_to, LoxFunction};
use crate::class::{find_method, LoxClass};
use crate::environment::{lemma_found_exists, lemma_resolved_exists, reach, Scopes};
use crate::exceptions::{Return, RuntimeErrorKind};
use crate::expr::{CallExpr, Expr, ListRef};
use crate::instance::{read_property, LoxInstance};
use crate::interpreter::{
    bind_parameters, define_methods, owed, Action, Event, Frame, Machine, State,
};
use crate::stmt::{
    binary_operator, lemma_expr_ok, lemma_new_list_below, lemma_push_list, lemma_stmt_ok,
    unary_operator, Ast, ClassStmt, Stmt,
};
use crate::tokens::{LoxObject, Span, Token};
use crate::utils::Clock;

verus! {

/// What a value may refer to: how many classes and instances there are,
/// and the syntax tables.
pub struct World {
    pub ast: Ast,
    pub classes: nat,
    pub instances: nat,
}

/// The world of a machine.
pub open spec fn world(machine: Machine) -> World {
    World {
        ast: machine.ast,
        classes: machine.classes.len(),
        instances: machine.instances.len(),
    }
}

/// Whether the world `later` holds everything the world `earlier` holds.
pub open spec fn grown(earlier: World, later: World) -> bool {
    &&& later.ast == earlier.ast
    &&& earlier.classes <= later.classes
    &&& earlier.instances <= later.instances
}

/// Whether a value refers to things that exist: a function to a function
/// declaration, a class and an instance to entries of their tables.
pub open spec fn value_ok(w: World, value: LoxObject) -> bool {
    match value {
        LoxObject::Callable(function) => w.ast.stmt(function.declaration) matches Some(
            Stmt::Fun(_),
        ),
        LoxObject::Class(class) => class < w.classes,
        LoxObject::Instance(instance) => instance < w.instances,
        _ => true,
    }
}

/// Whether every value bound in the scopes refers to things that exist.
pub open spec fn bindings_ok(w: World, scopes: Scopes) -> bool {
    forall|i: int|
        0 <= i < scopes.bindings.len() ==> value_ok(w, (#[trigger] scopes.bindings[i]).value)
}

/// Whether every value of a sequence refers to things that exist.
pub open spec fn values_ok(w: World, values: Seq<LoxObject>) -> bool {
    forall|i: int| 0 <= i < values.len() ==> value_ok(w, #[trigger] values[i])
}

/// Whether a frame refers to things that exist.
pub open spec fn frame_ok(w: World, frame: Frame) -> bool {
    match frame {
        Frame::Unary(operator) => unary_operator(operator.token_type),
        Frame::BinaryLeft(binary) => binary.right < w.ast.exprs.len() && binary_operator(
            binary.operator.token_type,
        ),
        Frame::BinaryRight(operator, left) => binary_operator(operator.token_type) && value_ok(
            w,
            left,
        ),
        Frame::Logical(_, right) => right < w.ast.exprs.len(),
        Frame::Callee(call) => w.ast.list_below(call.arguments, w.ast.exprs.len() as int),
        Frame::Argument(call, begun) => {
            &&& w.ast.list_below(call.arguments, w.ast.exprs.len() as int)
            &&& 1 <= begun <= call.arguments.len
        },
        Frame::SetObject(set) => set.value < w.ast.exprs.len(),
        Frame::SetValue(_, instance) => instance < w.instances,
        Frame::Sequence(list, next, _) => {
            &&& w.ast.list_below(list, w.ast.stmts.len() as int)
            &&& next <= list.len
        },
        Frame::If(statement) => {
            &&& statement.then_branch < w.ast.stmts.len()
            &&& statement.else_branch matches Some(other) ==> other < w.ast.stmts.len()
        },
        Frame::WhileCondition(statement, _) => statement.condition < w.ast.exprs.len()
            && statement.body < w.ast.stmts.len(),
        Frame::WhileBody(statement, _) => statement.condition < w.ast.exprs.len()
            && statement.body < w.ast.stmts.len(),
        Frame::Call(_, result) => result matches Some(fixed) ==> value_ok(w, fixed),
        Frame::Superclass(class) => w.ast.list_below(class.methods, w.ast.stmts.len() as int),
        _ => true,
    }
}

/// Whether every frame of a stack refers to things that exist.
pub open spec fn frames_ok(w: World, frames: Seq<Frame>) -> bool {
    forall|i: int| 0 <= i < frames.len() ==> frame_ok(w, #[trigger] frames[i])
}

/// How many values the frames of a stack keep on the value stack, all
/// together.
pub open spec fn pending(frames: Seq<Frame>) -> nat
    decreases frames.len(),
{
    if frames.len() == 0 {
        0
    } else {
        pending(frames.drop_last()) + owed(frames.last())
    }
}

/// Whether the state refers to things that exist.
pub open spec fn state_ok(w: World, state: State) -> bool {
    match state {
        State::Evaluate(id) => id < w.ast.exprs.len(),
        State::Execute(id) => id < w.ast.stmts.len(),
        State::Value(value) => value_ok(w, value),
        State::Return(signal) => value_ok(w, signal.value),
        State::Waiting(action) => !(action is Failed),
        _ => true,
    }
}

/// Whether the machine can count what it holds.
pub open spec fn fits(machine: Machine) -> bool {
    &&& machine.scopes.scopes.len() <= usize::MAX
    &&& machine.scopes.bindings.len() <= usize::MAX
    &&& machine.classes.len() <= usize::MAX
    &&& machine.instances.len() <= usize::MAX
}

/// Whether the machine, apart from its state, is consistent, with
/// `extra` values on the value stack beyond those its frames keep there.
pub open spec fn settled(machine: Machine, extra: nat) -> bool {
    &&& machine.ast.well_formed()
    &&& bindings_ok(world(machine), machine.scopes)
    &&& values_ok(world(machine), machine.values)
    &&& frames_ok(world(machine), machine.frames)
    &&& machine.values.len() == pending(machine.frames) + extra
}

/// Whether an action reports an inconsistency.
pub open spec fn reports_corruption(action: Action) -> bool {
    action matches Action::Failed(error) && error.kind == RuntimeErrorKind::Corrupt
}

/// Whether the machine is consistent: it has ended, or it has failed for
/// a reason of the program, or everything it holds refers to things that
/// exist.
pub open spec fn consistent(machine: Machine) -> bool {
    match machine.state {
        State::Finished => true,
        State::Failed(error) => error.kind != RuntimeErrorKind::Corrupt,
        _ => settled(machine, 0) && fits(machine) && state_ok(world(machine), machine.state),
    }
}

/// Whether a step that led to `next` and handed out `action` went well:
/// no inconsistency was reported and the machine is consistent.
pub open spec fn fine(outcome: (Machine, Action)) -> bool {
    !reports_corruption(outcome.1) && consistent(outcome.0)
}

/// What exists in a world exists in every world grown from it.
pub proof fn lemma_world_grows(
    earlier: World,
    later: World,
    scopes: Scopes,
    values: Seq<LoxObject>,
    frames: Seq<Frame>,
)
    requires
        grown(earlier, later),
    ensures
        bindings_ok(earlier, scopes) ==> bindings_ok(later, scopes),
        values_ok(earlier, values) ==> values_ok(later, values),
        frames_ok(earlier, frames) ==> frames_ok(later, frames),
{
    if bindings_ok(earlier, scopes) {
        assert forall|i: int| 0 <= i < scopes.bindings.len() implies value_ok(
            later,
            (#[trigger] scopes.bindings[i]).value,
        ) by {
            assert(value_ok(earlier, scopes.bindings[i].value));
        }
    }
    if values_ok(earlier, values) {
        assert forall|i: int| 0 <= i < values.len() implies value_ok(
            later,
            #[trigger] values[i],
        ) by {
            assert(value_ok(earlier, values[i]));
        }
    }
    if frames_ok(earlier, frames) {
        assert forall|i: int| 0 <= i < frames.len() implies frame_ok(
            later,
            #[trigger] frames[i],
        ) by {
            assert(frame_ok(earlier, frames[i]));
        }
    }
}

/// Replacing a value by one that exists keeps the bindings sound.
pub proof fn lemma_set_value_ok(w: World, scopes: Scopes, i: usize, value: LoxObject)
    requires
        bindings_ok(w, scopes),
        value_ok(w, value),
        i < scopes.bindings.len(),
    ensures
        bindings_ok(w, scopes.set_value(i, value)),
{
    let after = scopes.set_value(i, value);
    assert forall|k: int| 0 <= k < after.bindings.len() implies value_ok(
        w,
        (#[trigger] after.bindings[k]).value,
    ) by {
        if k != i {
            assert(value_ok(w, scopes.bindings[k].value));
        }
    }
}

/// Defining a name as a value that exists keeps the bindings sound.
pub proof fn lemma_define_ok(
    w: World,
    scopes: Scopes,
    text: Seq<char>,
    scope: usize,
    name: Span,
    value: LoxObject,
)
    requires
        bindings_ok(w, scopes),
        value_ok(w, value),
    ensures
        bindings_ok(w, scopes.define(text, scope, name, value)),
{
    if scope < scopes.scopes.len() {
        match scopes.lookup_here(text, scope, name) {
            Some(i) => {
                lemma_found_exists(scopes, text, scopes.scopes[scope as int].first, name);
                lemma_set_value_ok(w, scopes, i, value);
            },
            None => {
                let after = scopes.define(text, scope, name, value);
                assert forall|k: int| 0 <= k < after.bindings.len() implies value_ok(
                    w,
                    (#[trigger] after.bindings[k]).value,
                ) by {
                    if k < scopes.bindings.len() {
                        assert(value_ok(w, scopes.bindings[k].value));
                    }
                }
            },
        }
    }
}

/// Assigning a value that exists keeps the bindings sound.
pub proof fn lemma_assign_ok(
    w: World,
    scopes: Scopes,
    text: Seq<char>,
    scope: usize,
    distance: nat,
    name: Span,
    value: LoxObject,
)
    requires
        bindings_ok(w, scopes),
        value_ok(w, value),
    ensures
        scopes.assign(text, scope, name, value) matches Some(after) ==> bindings_ok(w, after),
        scopes.assign_at(text, scope, distance, name, value) matches Some(after) ==> bindings_ok(
            w,
            after,
        ),
{
    match scopes.resolve(text, scope, name) {
        Some(i) => {
            lemma_resolved_exists(scopes, text, scope, name);
            lemma_set_value_ok(w, scopes, i, value);
        },
        None => {},
    }
    match scopes.ancestor(scope, distance) {
        Some(target) => {
            lemma_define_ok(w, scopes, text, target, name, value);
        },
        None => {},
    }
}

/// What is read from sound bindings exists.
pub proof fn lemma_get_ok(
    w: World,
    scopes: Scopes,
    text: Seq<char>,
    scope: usize,
    distance: nat,
    name: Span,
)
    requires
        bindings_ok(w, scopes),
    ensures
        scopes.get(text, scope, name) matches Some(value) ==> value_ok(w, value),
        scopes.get_at(text, scope, distance, name) matches Some(value) ==> value_ok(w, value),
        scopes.lookup_here(text, scope, name) matches Some(i) ==> i < scopes.bindings.len()
            && value_ok(w, scopes.bindings[i as int].value),
{
    lemma_resolved_exists(scopes, text, scope, name);
    match scopes.resolve(text, scope, name) {
        Some(i) => {
            assert(value_ok(w, scopes.bindings[i as int].value));
        },
        None => {},
    }
    if scope < scopes.scopes.len() {
        lemma_found_exists(scopes, text, scopes.scopes[scope as int].first, name);
        match scopes.lookup_here(text, scope, name) {
            Some(i) => {
                assert(value_ok(w, scopes.bindings[i as int].value));
            },
            None => {},
        }
    }
    match scopes.ancestor(scope, distance) {
        Some(target) => {
            if target < scopes.scopes.len() {
                lemma_found_exists(scopes, text, scopes.scopes[target as int].first, name);
                match scopes.lookup_here(text, target, name) {
                    Some(i) => {
                        assert(value_ok(w, scopes.bindings[i as int].value));
                    },
                    None => {},
                }
            }
        },
        None => {},
    }
}

/// A method found in sound bindings is a function that exists.
pub proof fn lemma_find_method_ok(
    w: World,
    classes: Seq<LoxClass>,
    scopes: Scopes,
    text: Seq<char>,
    class: usize,
    name: Span,
)
    requires
        bindings_ok(w, scopes),
    ensures
        find_method(classes, scopes, text, class, name) matches Some(function) ==> value_ok(
            w,
            LoxObject::Callable(function),
        ),
    decreases class,
{
    if class < classes.len() {
        lemma_get_ok(w, scopes, text, classes[class as int].methods, 0, name);
        match classes[class as int].superclass {
            Some(parent) => {
                if parent < class {
                    lemma_find_method_ok(w, classes, scopes, text, parent, name);
                }
            },
            None => {},
        }
    }
}

/// Binding a function that exists to an instance that exists keeps the
/// bindings sound and yields a function that exists.
pub proof fn lemma_bound_ok(
    w: World,
    function: LoxFunction,
    scopes: Scopes,
    text: Seq<char>,
    this: Span,
    instance: usize,
)
    requires
        bindings_ok(w, scopes),
        value_ok(w, LoxObject::Callable(function)),
        instance < w.instances,
    ensures
        bindings_ok(w, bound_to(function, scopes, text, this, instance).0),
        value_ok(w, LoxObject::Callable(bound_to(function, scopes, text, this, instance).1)),
{
    let pushed = scopes.push_scope(Some(function.closure));
    assert(bindings_ok(w, pushed));
    lemma_define_ok(
        w,
        pushed,
        text,
        scopes.scopes.len() as usize,
        this,
        LoxObject::Instance(instance),
    );
}

/// Reading a property from sound bindings keeps them sound and yields a
/// value that exists.
pub proof fn lemma_read_property_ok(
    w: World,
    instance: LoxInstance,
    handle: usize,
    classes: Seq<LoxClass>,
    scopes: Scopes,
    text: Seq<char>,
    this: Span,
    name: Span,
)
    requires
        bindings_ok(w, scopes),
        handle < w.instances,
    ensures
        bindings_ok(w, read_property(instance, handle, classes, scopes, text, this, name).0),
        read_property(instance, handle, classes, scopes, text, this, name).1 matches Some(
            value,
        ) ==> value_ok(w, value),
{
    lemma_get_ok(w, scopes, text, instance.fields, 0, name);
    lemma_find_method_ok(w, classes, scopes, text, instance.class, name);
    match find_method(classes, scopes, text, instance.class, name) {
        Some(function) => {
            lemma_bound_ok(w, function, scopes, text, this, handle);
        },
        None => {},
    }
}

/// Binding parameters to values that exist keeps the bindings sound.
pub proof fn lemma_bind_parameters_ok(
    w: World,
    scopes: Scopes,
    text: Seq<char>,
    ast: Ast,
    params: ListRef,
    values: Seq<LoxObject>,
    base: int,
    scope: usize,
    index: usize,
)
    requires
        bindings_ok(w, scopes),
        values_ok(w, values),
        0 <= base,
        base + params.len <= values.len(),
        index <= params.len,
    ensures
        bindings_ok(w, bind_parameters(scopes, text, ast, params, values, base, scope, index)),
    decreases params.len - index,
{
    if index < params.len {
        let next = match ast.param(params, index) {
            Some(name) => scopes.define(text, scope, name.lexeme, values[base + index]),
            None => scopes,
        };
        match ast.param(params, index) {
            Some(name) => {
                assert(value_ok(w, values[base + index]));
                lemma_define_ok(w, scopes, text, scope, name.lexeme, values[base + index]);
            },
            None => {},
        }
        lemma_bind_parameters_ok(
            w,
            next,
            text,
            ast,
            params,
            values,
            base,
            scope,
            (index + 1) as usize,
        );
    }
}

/// Binding the methods of a class keeps the bindings sound.
pub proof fn lemma_define_methods_ok(
    w: World,
    scopes: Scopes,
    text: Seq<char>,
    init: Span,
    list: ListRef,
    methods: usize,
    closure: usize,
    index: usize,
)
    requires
        bindings_ok(w, scopes),
        index <= list.len,
    ensures
        bindings_ok(w, define_methods(scopes, text, w.ast, init, list, methods, closure, index)),
    decreases list.len - index,
{
    if index < list.len {
        let next = match w.ast.item(list, index) {
            Some(id) => match w.ast.stmt(id) {
                Some(Stmt::Fun(declaration)) => scopes.define(
                    text,
                    methods,
                    declaration.name.lexeme,
                    LoxObject::Callable(
                        LoxFunction {
                            declaration: id,
                            closure,
                            is_init: declaration.name.lexeme.text(text) == init.text(text),
                        },
                    ),
                ),
                _ => scopes,
            },
            None => scopes,
        };
        match w.ast.item(list, index) {
            Some(id) => match w.ast.stmt(id) {
                Some(Stmt::Fun(declaration)) => {
                    lemma_define_ok(
                        w,
                        scopes,
                        text,
                        methods,
                        declaration.name.lexeme,
                        LoxObject::Callable(
                            LoxFunction {
                                declaration: id,
                                closure,
                                is_init: declaration.name.lexeme.text(text) == init.text(text),
                            },
                        ),
                    );
                },
                _ => {},
            },
            None => {},
        }
        lemma_define_methods_ok(
            w,
            next,
            text,
            init,
            list,
            methods,
            closure,
            (index + 1) as usize,
        );
    }
}

/// A frame put on the stack adds what it keeps on the value stack to
/// what the stack keeps there, and a stack of sound frames with one more
/// sound frame is sound.
pub proof fn lemma_push_frame(w: World, frames: Seq<Frame>, frame: Frame)
    ensures
        pending(frames.push(frame)) == pending(frames) + owed(frame),
        frames_ok(w, frames) && frame_ok(w, frame) ==> frames_ok(w, frames.push(frame)),
{
    assert(frames.push(frame).drop_last() =~= frames);
    if frames_ok(w, frames) && frame_ok(w, frame) {
        assert forall|i: int| 0 <= i < frames.push(frame).len() implies frame_ok(
            w,
            #[trigger] frames.push(frame)[i],
        ) by {
            if i < frames.len() {
                assert(frame_ok(w, frames[i]));
            }
        }
    }
}

/// A stack of sound frames without its last frame is sound, and that
/// last frame is sound.
pub proof fn lemma_pop_frame(w: World, frames: Seq<Frame>)
    requires
        frames.len() > 0,
        frames_ok(w, frames),
    ensures
        frames_ok(w, frames.drop_last()),
        frame_ok(w, frames.last()),
        pending(frames) == pending(frames.drop_last()) + owed(frames.last()),
{
    assert(frame_ok(w, frames[frames.len() - 1]));
    assert forall|i: int| 0 <= i < frames.drop_last().len() implies frame_ok(
        w,
        #[trigger] frames.drop_last()[i],
    ) by {
        assert(frame_ok(w, frames[i]));
    }
}

/// Values that exist, with one more that exists, or without some of the
/// last, exist.
pub proof fn lemma_values_change(w: World, values: Seq<LoxObject>, value: LoxObject, kept: int)
    requires
        values_ok(w, values),
    ensures
        value_ok(w, value) ==> values_ok(w, values.push(value)),
        0 <= kept <= values.len() ==> values_ok(w, values.subrange(0, kept)),
{
    if value_ok(w, value) {
        assert forall|i: int| 0 <= i < values.push(value).len() implies value_ok(
            w,
            #[trigger] values.push(value)[i],
        ) by {
            if i < values.len() {
                assert(value_ok(w, values[i]));
            }
        }
    }
    if 0 <= kept <= values.len() {
        assert forall|i: int| 0 <= i < values.subrange(0, kept).len() implies value_ok(
            w,
            #[trigger] values.subrange(0, kept)[i],
        ) by {
            assert(value_ok(w, values[i]));
        }
    }
}

/// A run that lies below a bound lies below every greater bound.
pub proof fn lemma_list_below_more(ast: Ast, list: ListRef, bound: int, more: int)
    requires
        ast.list_below(list, bound),
        bound <= more,
    ensures
        ast.list_below(list, more),
        forall|index: usize|
            index < list.len ==> ((#[trigger] ast.item(list, index)) matches Some(id) && id < more),
{
    assert forall|k: int| list.start <= k < list.start + list.len implies (#[trigger] ast.lists[k])
        < more by {
        assert(ast.lists[k] < bound);
    }
    assert forall|index: usize| index < list.len implies ((#[trigger] ast.item(
        list,
        index,
    )) matches Some(id) && id < more) by {
        assert(ast.lists[list.start + index] < bound);
    }
}

/// Going on in a state that refers to things that exist is fine.
pub proof fn lemma_go(m: Machine, state: State)
    requires
        fits(m),
        settled(m, 0),
        state_ok(world(m), state),
        !(state is Finished),
        !(state is Failed),
    ensures
        fine(m.go(state)),
{
}

/// Leaving a sound frame to wait is fine.
pub proof fn lemma_defer(m: Machine, frame: Frame, state: State)
    requires
        fits(m),
        settled(m, owed(frame)),
        frame_ok(world(m), frame),
        state_ok(world(m), state),
        state is Evaluate || state is Execute,
    ensures
        fine(m.defer(frame, state)),
{
    lemma_push_frame(world(m), m.frames, frame);
}

/// Reading a variable is fine.
pub proof fn lemma_lookup(m: Machine, id: usize, name: Token)
    requires
        fits(m),
        settled(m, 0),
    ensures
        fine(m.lookup(id, name)),
{
    match m.local(id) {
        Some(distance) => {
            lemma_get_ok(world(m), m.scopes, m.text, m.current, distance as nat, name.lexeme);
        },
        None => {
            lemma_get_ok(world(m), m.scopes, m.text, m.current, 0, name.lexeme);
        },
    }
}

/// Writing a variable is fine.
pub proof fn lemma_store(m: Machine, id: usize, name: Token, value: LoxObject)
    requires
        settled(m, 0),
        value_ok(world(m), value),
        fits(m),
        fits(m.store(id, name, value).0),
    ensures
        fine(m.store(id, name, value)),
{
    match m.local(id) {
        Some(distance) => {
            lemma_assign_ok(
                world(m),
                m.scopes,
                m.text,
                m.current,
                distance as nat,
                name.lexeme,
                value,
            );
        },
        None => {
            lemma_assign_ok(world(m), m.scopes, m.text, m.current, 0, name.lexeme, value);
        },
    }
}

/// Evaluating `super.method` is fine.
pub proof fn lemma_evaluate_super(m: Machine, id: usize, keyword: Token, method: Token)
    requires
        settled(m, 0),
        fits(m),
        fits(m.evaluate_super(id, keyword, method).0),
    ensures
        fine(m.evaluate_super(id, keyword, method)),
{
    match m.local(id) {
        Some(distance) => {
            if distance != 0 {
                lemma_get_ok(
                    world(m),
                    m.scopes,
                    m.text,
                    m.current,
                    distance as nat,
                    m.names.superclass,
                );
                lemma_get_ok(
                    world(m),
                    m.scopes,
                    m.text,
                    m.current,
                    (distance - 1) as nat,
                    m.names.this,
                );
                match (
                    m.scopes.get_at(m.text, m.current, distance as nat, m.names.superclass),
                    m.scopes.get_at(m.text, m.current, (distance - 1) as nat, m.names.this),
                ) {
                    (Some(LoxObject::Class(class)), Some(LoxObject::Instance(instance))) => {
                        lemma_find_method_ok(
                            world(m),
                            m.classes,
                            m.scopes,
                            m.text,
                            class,
                            method.lexeme,
                        );
                        match find_method(m.classes, m.scopes, m.text, class, method.lexeme) {
                            Some(function) => {
                                lemma_bound_ok(
                                    world(m),
                                    function,
                                    m.scopes,
                                    m.text,
                                    m.names.this,
                                    instance,
                                );
                            },
                            None => {},
                        }
                    },
                    _ => {},
                }
            }
        },
        None => {},
    }
}

/// Evaluating an expression that exists is fine.
pub proof fn lemma_evaluate(m: Machine, id: usize)
    requires
        settled(m, 0),
        id < m.ast.exprs.len(),
        fits(m),
        fits(m.evaluate(id).0),
    ensures
        fine(m.evaluate(id)),
{
    lemma_expr_ok(m.ast, id);
    match m.ast.exprs[id as int] {
        Expr::Literal(_) => {},
        Expr::Grouping(grouping) => {
            lemma_go(m, State::Evaluate(grouping.expression));
        },
        Expr::Unary(unary) => {
            lemma_defer(m, Frame::Unary(unary.operator), State::Evaluate(unary.right));
        },
        Expr::Binary(binary) => {
            lemma_defer(m, Frame::BinaryLeft(binary), State::Evaluate(binary.left));
        },
        Expr::Logical(logical) => {
            lemma_defer(
                m,
                Frame::Logical(logical.operator, logical.right),
                State::Evaluate(logical.left),
            );
        },
        Expr::Variable(variable) => {
            lemma_lookup(m, id, variable.name);
        },
        Expr::This(this) => {
            lemma_lookup(m, id, this.name);
        },
        Expr::Assign(assign) => {
            lemma_defer(m, Frame::Assign(id, assign), State::Evaluate(assign.value));
        },
        Expr::Call(call) => {
            lemma_list_below_more(m.ast, call.arguments, id as int, m.ast.exprs.len() as int);
            lemma_defer(m, Frame::Callee(call), State::Evaluate(call.callee));
        },
        Expr::Get(get) => {
            lemma_defer(m, Frame::Get(get.name), State::Evaluate(get.object));
        },
        Expr::SetProperty(set) => {
            lemma_defer(m, Frame::SetObject(set), State::Evaluate(set.object));
        },
        Expr::Super(sup) => {
            lemma_evaluate_super(m, id, sup.keyword, sup.method);
        },
    }
}

/// Declaring a class is fine.
pub proof fn lemma_declare_class(m: Machine, class: ClassStmt, superclass: Option<usize>)
    requires
        settled(m, 0),
        superclass matches Some(parent) ==> parent < m.classes.len(),
        fits(m),
        fits(m.declare_class(class, superclass).0),
    ensures
        fine(m.declare_class(class, superclass)),
{
    let w = world(m);
    let name = class.name.lexeme;
    let declared = m.scopes.define(m.text, m.current, name, LoxObject::Nil);
    lemma_define_ok(w, m.scopes, m.text, m.current, name, LoxObject::Nil);
    let closure = if superclass is Some {
        declared.scopes.len() as usize
    } else {
        m.current
    };
    let around = match superclass {
        Some(parent) => declared.push_scope(Some(m.current)).define(
            m.text,
            closure,
            m.names.superclass,
            LoxObject::Class(parent),
        ),
        None => declared,
    };
    match superclass {
        Some(parent) => {
            assert(bindings_ok(w, declared.push_scope(Some(m.current))));
            lemma_define_ok(
                w,
                declared.push_scope(Some(m.current)),
                m.text,
                closure,
                m.names.superclass,
                LoxObject::Class(parent),
            );
        },
        None => {},
    }
    let methods = around.scopes.len() as usize;
    assert(bindings_ok(w, around.push_scope(None)));
    lemma_define_methods_ok(
        w,
        around.push_scope(None),
        m.text,
        m.names.init,
        class.methods,
        methods,
        closure,
        0,
    );
    let filled = define_methods(
        around.push_scope(None),
        m.text,
        m.ast,
        m.names.init,
        class.methods,
        methods,
        closure,
        0,
    );
    let handle = m.classes.len() as usize;
    let after = m.declare_class(class, superclass).0;
    let later = world(after);
    lemma_world_grows(w, later, filled, m.values, m.frames);
    lemma_define_ok(later, filled, m.text, m.current, name, LoxObject::Class(handle));
}

/// Executing a statement that exists is fine.
pub proof fn lemma_execute(m: Machine, id: usize)
    requires
        settled(m, 0),
        id < m.ast.stmts.len(),
        fits(m),
        fits(m.execute(id).0),
    ensures
        fine(m.execute(id)),
{
    lemma_stmt_ok(m.ast, id);
    let w = world(m);
    match m.ast.stmts[id as int] {
        Stmt::Expression(statement) => {
            lemma_go(m, State::Evaluate(statement.expression));
        },
        Stmt::Print(statement) => {
            lemma_defer(m, Frame::Print, State::Evaluate(statement.expression));
        },
        Stmt::Var(statement) => {
            match statement.initializer {
                Some(initializer) => {
                    lemma_defer(m, Frame::Var(statement.name), State::Evaluate(initializer));
                },
                None => {
                    lemma_define_ok(
                        w,
                        m.scopes,
                        m.text,
                        m.current,
                        statement.name.lexeme,
                        LoxObject::Nil,
                    );
                },
            }
        },
        Stmt::Block(block) => {
            lemma_list_below_more(m.ast, block.statements, id as int, m.ast.stmts.len() as int);
            lemma_push_frame(
                w,
                m.frames,
                Frame::Sequence(block.statements, 0, Some(m.current)),
            );
            assert(bindings_ok(w, m.scopes.push_scope(Some(m.current))));
        },
        Stmt::If(statement) => {
            lemma_defer(m, Frame::If(statement), State::Evaluate(statement.condition));
        },
        Stmt::While(statement) => {
            lemma_defer(
                m,
                Frame::WhileCondition(statement, m.current),
                State::Evaluate(statement.condition),
            );
        },
        Stmt::Fun(declaration) => {
            lemma_define_ok(
                w,
                m.scopes,
                m.text,
                m.current,
                declaration.name.lexeme,
                LoxObject::Callable(
                    LoxFunction { declaration: id, closure: m.current, is_init: false },
                ),
            );
        },
        Stmt::Return(statement) => {
            match statement.value {
                Some(value) => {
                    lemma_defer(m, Frame::ReturnValue, State::Evaluate(value));
                },
                None => {
                    lemma_go(m, State::Return(Return { value: LoxObject::Nil }));
                },
            }
        },
        Stmt::Break(_) => {
            lemma_go(m, State::Break);
        },
        Stmt::Class(class) => {
            lemma_list_below_more(m.ast, class.methods, id as int, m.ast.stmts.len() as int);
            match class.superclass {
                Some(superclass) => {
                    lemma_defer(m, Frame::Superclass(class), State::Evaluate(superclass));
                },
                None => {
                    lemma_declare_class(m, class, None);
                },
            }
        },
    }
}

/// Applying an operator to values that exist is fine.
pub proof fn lemma_apply(m: Machine, operator: Token, left: LoxObject, right: LoxObject)
    requires
        fits(m),
        settled(m, 0),
    ensures
        unary_operator(operator.token_type) ==> fine(m.apply_unary(operator, right)),
        binary_operator(operator.token_type) ==> fine(m.apply_binary(operator, left, right)),
{
}

/// Entering a function that exists is fine.
pub proof fn lemma_call_function(
    m: Machine,
    function: LoxFunction,
    count: usize,
    paren: Token,
    result: Option<LoxObject>,
)
    requires
        settled(m, (count + 1) as nat),
        value_ok(world(m), LoxObject::Callable(function)),
        result matches Some(fixed) ==> value_ok(world(m), fixed),
        fits(m.call_function(function, count, paren, result).0),
    ensures
        fine(m.call_function(function, count, paren, result)),
{
    let w = world(m);
    match m.ast.stmt(function.declaration) {
        Some(Stmt::Fun(declaration)) => {
            if declaration.params.len == count {
                lemma_stmt_ok(m.ast, function.declaration);
                lemma_list_below_more(
                    m.ast,
                    declaration.body,
                    function.declaration as int,
                    m.ast.stmts.len() as int,
                );
                let scope = m.scopes.scopes.len() as usize;
                let base = m.values.len() - count;
                assert(bindings_ok(w, m.scopes.push_scope(Some(function.closure))));
                lemma_bind_parameters_ok(
                    w,
                    m.scopes.push_scope(Some(function.closure)),
                    m.text,
                    m.ast,
                    declaration.params,
                    m.values,
                    base,
                    scope,
                    0,
                );
                lemma_values_change(w, m.values, LoxObject::Nil, base - 1);
                lemma_push_frame(w, m.frames, Frame::Call(m.current, result));
                lemma_push_frame(
                    w,
                    m.frames.push(Frame::Call(m.current, result)),
                    Frame::Sequence(declaration.body, 0, None),
                );
            }
        },
        _ => {},
    }
}

/// Making an instance of a class that exists is fine.
pub proof fn lemma_instantiate(m: Machine, class: usize, count: usize, paren: Token)
    requires
        settled(m, (count + 1) as nat),
        class < m.classes.len(),
        fits(m),
        fits(m.instantiate(class, count, paren).0),
    ensures
        fine(m.instantiate(class, count, paren)),
{
    let w = world(m);
    let fields = m.scopes.scopes.len() as usize;
    let instance = m.instances.len() as usize;
    let made = Machine {
        scopes: m.scopes.push_scope(None),
        instances: m.instances.push(LoxInstance { class, fields }),
        ..m
    };
    let later = world(made);
    assert(bindings_ok(w, made.scopes));
    lemma_world_grows(w, later, made.scopes, m.values, m.frames);
    match find_method(made.classes, made.scopes, made.text, class, made.names.init) {
        Some(init) => {
            lemma_find_method_ok(later, made.classes, made.scopes, made.text, class, made.names.init);
            lemma_bound_ok(later, init, made.scopes, made.text, made.names.this, instance);
            let (scopes, bound) = made.bind(init, instance);
            let ready = Machine { scopes, ..made };
            assert(world(ready) == later);
            assert(settled(ready, (count + 1) as nat));
            lemma_call_function(
                ready,
                bound,
                count,
                paren,
                Some(LoxObject::Instance(instance)),
            );
        },
        None => {
            if count == 0 {
                lemma_values_change(later, m.values, LoxObject::Nil, m.values.len() - 1);
                assert(m.values.drop_last() =~= m.values.subrange(0, m.values.len() - 1));
            }
        },
    }
}

/// Calling what stands under the arguments is fine.
pub proof fn lemma_invoke(m: Machine, count: usize, paren: Token)
    requires
        settled(m, (count + 1) as nat),
        fits(m),
        fits(m.invoke(count, paren).0),
    ensures
        fine(m.invoke(count, paren)),
{
    let w = world(m);
    let callee = m.values[m.values.len() - count - 1];
    assert(value_ok(w, callee));
    match callee {
        LoxObject::Callable(function) => {
            lemma_get_ok(w, m.scopes, m.text, function.closure, 0, m.names.this);
            lemma_call_function(m, function, count, paren, m.fixed_result(function));
        },
        LoxObject::Class(class) => {
            lemma_instantiate(m, class, count, paren);
        },
        LoxObject::Native(_) => {
            if count == 0 {
                lemma_values_change(w, m.values, LoxObject::Nil, m.values.len() - 1);
                assert(m.values.drop_last() =~= m.values.subrange(0, m.values.len() - 1));
            }
        },
        _ => {},
    }
}

/// Taking up the callee or an argument of a call is fine.
pub proof fn lemma_next_argument(m: Machine, call: CallExpr, begun: usize, value: LoxObject)
    requires
        settled(m, begun as nat),
        value_ok(world(m), value),
        m.ast.list_below(call.arguments, m.ast.exprs.len() as int),
        begun <= call.arguments.len,
        fits(m),
        fits(m.next_argument(call, begun, value).0),
    ensures
        fine(m.next_argument(call, begun, value)),
{
    let w = world(m);
    let kept = Machine { values: m.values.push(value), ..m };
    lemma_values_change(w, m.values, value, 0);
    assert(settled(kept, (begun + 1) as nat));
    lemma_list_below_more(
        m.ast,
        call.arguments,
        m.ast.exprs.len() as int,
        m.ast.exprs.len() as int,
    );
    if begun < call.arguments.len {
        match m.ast.item(call.arguments, begun) {
            Some(argument) => {
                lemma_defer(
                    kept,
                    Frame::Argument(call, (begun + 1) as usize),
                    State::Evaluate(argument),
                );
            },
            None => {},
        }
    } else {
        lemma_invoke(kept, begun, call.paren);
    }
}

/// Reading and writing properties of values that exist is fine.
pub proof fn lemma_property(m: Machine, name: Token, instance: usize, value: LoxObject)
    requires
        fits(m),
        settled(m, 0),
        value_ok(world(m), value),
    ensures
        fits(m.get_property(name, value).0) ==> fine(m.get_property(name, value)),
        instance < m.instances.len() && fits(m.set_property(name, instance, value).0) ==> fine(
            m.set_property(name, instance, value),
        ),
{
    let w = world(m);
    match value {
        LoxObject::Instance(handle) => {
            lemma_read_property_ok(
                w,
                m.instances[handle as int],
                handle,
                m.classes,
                m.scopes,
                m.text,
                m.names.this,
                name.lexeme,
            );
        },
        _ => {},
    }
    if instance < m.instances.len() {
        lemma_define_ok(
            w,
            m.scopes,
            m.text,
            m.instances[instance as int].fields,
            name.lexeme,
            value,
        );
    }
}

/// Going on with a list of statements that exist is fine.
pub proof fn lemma_sequence(m: Machine, list: ListRef, next: usize, restore: Option<usize>)
    requires
        fits(m),
        settled(m, 0),
        m.ast.list_below(list, m.ast.stmts.len() as int),
        next <= list.len,
    ensures
        fine(m.sequence(list, next, restore)),
{
    lemma_list_below_more(m.ast, list, m.ast.stmts.len() as int, m.ast.stmts.len() as int);
    if next < list.len {
        match m.ast.item(list, next) {
            Some(statement) => {
                lemma_defer(
                    m,
                    Frame::Sequence(list, (next + 1) as usize, restore),
                    State::Execute(statement),
                );
            },
            None => {},
        }
    }
}

/// Handing a value that exists to a sound frame is fine.
pub proof fn lemma_resume(m: Machine, frame: Frame, value: LoxObject)
    requires
        settled(m, owed(frame)),
        frame_ok(world(m), frame),
        value_ok(world(m), value),
        fits(m),
        fits(m.resume(frame, value).0),
    ensures
        fine(m.resume(frame, value)),
{
    let w = world(m);
    match frame {
        Frame::Unary(operator) => {
            lemma_apply(m, operator, value, value);
        },
        Frame::BinaryLeft(binary) => {
            lemma_defer(
                m,
                Frame::BinaryRight(binary.operator, value),
                State::Evaluate(binary.right),
            );
        },
        Frame::BinaryRight(operator, left) => {
            lemma_apply(m, operator, left, value);
        },
        Frame::Logical(operator, right) => {
            lemma_go(m, State::Evaluate(right));
            lemma_go(m, State::Value(value));
        },
        Frame::Assign(id, assign) => {
            lemma_store(m, id, assign.name, value);
        },
        Frame::Callee(call) => {
            lemma_next_argument(m, call, 0, value);
        },
        Frame::Argument(call, begun) => {
            lemma_next_argument(m, call, begun, value);
        },
        Frame::Get(name) => {
            lemma_property(m, name, 0, value);
        },
        Frame::SetObject(set) => {
            match value {
                LoxObject::Instance(instance) => {
                    lemma_defer(m, Frame::SetValue(set.name, instance), State::Evaluate(set.value));
                },
                _ => {},
            }
        },
        Frame::SetValue(name, instance) => {
            lemma_property(m, name, instance, value);
        },
        Frame::Print => {},
        Frame::Var(name) => {
            lemma_define_ok(w, m.scopes, m.text, m.current, name.lexeme, value);
        },
        Frame::Sequence(list, next, restore) => {
            lemma_sequence(m, list, next, restore);
        },
        Frame::If(statement) => {
            lemma_go(m, State::Execute(statement.then_branch));
            match statement.else_branch {
                Some(other) => {
                    lemma_go(m, State::Execute(other));
                },
                None => {},
            }
        },
        Frame::WhileCondition(statement, scope) => {
            lemma_defer(m, Frame::WhileBody(statement, scope), State::Execute(statement.body));
        },
        Frame::WhileBody(statement, scope) => {
            lemma_defer(
                m,
                Frame::WhileCondition(statement, scope),
                State::Evaluate(statement.condition),
            );
        },
        Frame::ReturnValue => {
            lemma_go(m, State::Return(Return { value }));
        },
        Frame::Call(scope, result) => {},
        Frame::Superclass(class) => {
            match value {
                LoxObject::Class(parent) => {
                    lemma_declare_class(m, class, Some(parent));
                },
                _ => {},
            }
        },
    }
}

/// Dropping the innermost frame together with the values it keeps
/// leaves a machine that is consistent apart from its state.
pub proof fn lemma_abandoned(m: Machine)
    requires
        settled(m, 0),
        m.frames.len() > 0,
    ensures
        settled(m.abandoned(), 0),
        settled(m.popped(), owed(m.frames.last())),
        frame_ok(world(m), m.frames.last()),
{
    let w = world(m);
    lemma_pop_frame(w, m.frames);
    let kept = m.values.len() - owed(m.frames.last());
    lemma_values_change(w, m.values, LoxObject::Nil, kept);
}

/// Every step of a consistent machine is fine: it reports no
/// inconsistency and leaves the machine consistent, as long as the
/// machine can count what it holds afterwards.
pub proof fn lemma_step_is_fine(m: Machine, event: Event)
    requires
        consistent(m),
        fits(m.step(event).0),
    ensures
        fine(m.step(event)),
{
    let w = world(m);
    match m.state {
        State::Evaluate(id) => {
            lemma_evaluate(m, id);
        },
        State::Execute(id) => {
            lemma_execute(m, id);
        },
        State::Value(value) => {
            if m.frames.len() > 0 {
                lemma_abandoned(m);
                lemma_resume(m.popped(), m.frames.last(), value);
            }
        },
        State::Return(_) => {
            if m.frames.len() > 0 {
                lemma_abandoned(m);
            }
        },
        State::Break => {
            if m.frames.len() > 0 {
                lemma_abandoned(m);
            }
        },
        State::Waiting(action) => {},
        State::Finished => {},
        State::Failed(error) => {},
    }
}

/// A machine starts consistent when it is given the tables of a tree
/// and top-level statements that exist.
pub proof fn lemma_start_is_consistent(source: Seq<char>, ast: Ast, body: Seq<usize>)
    requires
        ast.well_formed(),
        ast.lists.len() + body.len() <= usize::MAX,
        forall|k: int| 0 <= k < body.len() ==> (#[trigger] body[k]) < ast.stmts.len(),
    ensures
        consistent(Machine::start(source, ast, body)),
{
    let m = Machine::start(source, ast, body);
    let w = world(m);
    lemma_push_list(ast, body);
    lemma_new_list_below(ast, body, ast.stmts.len() as int);
    let empty = Scopes { scopes: Seq::empty(), bindings: Seq::empty() };
    assert(bindings_ok(w, empty.push_scope(None)));
    lemma_define_ok(w, empty.push_scope(None), m.text, 0, m.names.clock, LoxObject::Native(Clock {}));
    let list = ListRef { start: ast.lists.len() as usize, len: body.len() as usize };
    lemma_push_frame(w, Seq::empty(), Frame::Sequence(list, 0, None));
    assert(m.frames =~= Seq::<Frame>::empty().push(Frame::Sequence(list, 0, None)));
    assert(pending(Seq::<Frame>::empty()) == 0);
}

/// A machine that is consistent stays so whatever is written into its
/// resolution table.
pub proof fn lemma_resolution_keeps_consistent(m: Machine, locals: Seq<Option<usize>>)
    requires
        consistent(m),
    ensures
        consistent(Machine { locals, ..m }),
{
}

} // verus!
