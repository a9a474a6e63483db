//! The evaluator, written as a step machine.
//!
//! A machine holds the program, the scopes, the objects and an explicit
//! stack of what is left to do. [`Interpreter::step`] performs one
//! transition. Arithmetic on numbers, their parsing and printing, and the
//! clock are not done here: when the machine needs one of them it hands
//! out an [`Action`] that asks for it, and the caller passes the answer
//! to the next step as an [`Event`].
//!
//! [`Machine`] is the mathematical model of a machine, and
//! [`Machine::step`] says what one transition does. The methods of
//! [`Interpreter`] are proved to compute exactly that.

use vstd::prelude::*;
use crate::callable::{bound_to, LoxFunction};
use crate::class::{find_method, LoxClass};
use crate::environment::{Environment, Scopes};
use crate::exceptions::{Return, RuntimeError, RuntimeErrorKind};
use crate::expr::{AssignExpr, BinaryExpr, CallExpr, Expr, ListRef, Literal, SetExpr};
use crate::instance::{read_property, LoxInstance};
use crate::stmt::{Ast, ClassStmt, IfStmt, Program, Stmt, WhileStmt};
use crate::soundness::{
    consistent, fits, lemma_start_is_consistent, lemma_step_is_fine, reports_corruption,
};
use crate::tokens::{
    push_span, push_text, repeat_span, span_less, text_less, LoxObject, Span, Token, TokenType,
};
use crate::utils::Clock;

verus! {

/// An operation on numbers that the machine asks its caller to perform.
#[derive(Clone, Copy, Debug, PartialEq, Eq, Structural)]
pub enum NumberOp {
    Add,
    Subtract,
    Multiply,
    Divide,
    Negate,
    Less,
    LessEqual,
    Greater,
    GreaterEqual,
    Equal,
    NotEqual,
}

/// What a step hands back to the caller.
#[derive(Clone, Copy, Debug)]
pub enum Action {
    /// Nothing is needed; step again.
    Continue,
    /// Compute `left op right` (for `Negate`, of `left` alone) and answer
    /// with `Event::Number`.
    Arithmetic { op: NumberOp, left: u32, right: u32 },
    /// Decide `left op right` and answer with `Event::Truth`.
    Compare { op: NumberOp, left: u32, right: u32 },
    /// Read the number written in this range of the text and answer with
    /// `Event::Number`.
    Parse { lexeme: Span },
    /// Write the number out and answer with `Event::Text`.
    Format { number: u32 },
    /// Read the clock and answer with `Event::Number`.
    Clock,
    /// The program has run to its end.
    Finished,
    /// The program has failed.
    Failed(RuntimeError),
}

/// What the caller tells a step.
#[derive(Debug)]
pub enum Event {
    /// Nothing; go on.
    Resume,
    Number(u32),
    Truth(bool),
    Text(Vec<char>),
}

/// What the machine does next.
#[derive(Clone, Copy, Debug)]
pub enum State {
    /// Evaluate this expression.
    Evaluate(usize),
    /// Execute this statement.
    Execute(usize),
    /// Hand this value to the innermost frame.
    Value(LoxObject),
    /// Carry this signal out to the nearest call.
    Return(Return),
    /// Leave the nearest loop.
    Break,
    /// Wait for the answer to this action.
    Waiting(Action),
    Finished,
    Failed(RuntimeError),
}

/// A piece of work that waits for a value. A frame holds what it needs
/// of the node it works on.
#[derive(Clone, Copy, Debug)]
pub enum Frame {
    /// Apply this unary operator.
    Unary(Token),
    /// The left operand of this binary expression is under way.
    BinaryLeft(BinaryExpr),
    /// The right operand is under way; operator and left value.
    BinaryRight(Token, LoxObject),
    /// The left operand of `and` or `or` is under way; operator and right
    /// expression.
    Logical(Token, usize),
    /// The value of this assignment is under way; the index of the
    /// expression and the expression.
    Assign(usize, AssignExpr),
    /// The callee of this call is under way.
    Callee(CallExpr),
    /// An argument of this call is under way; the count of arguments
    /// begun so far.
    Argument(CallExpr, usize),
    /// The object of a property read is under way.
    Get(Token),
    /// The object of this property write is under way.
    SetObject(SetExpr),
    /// The value of a property write is under way; name and instance.
    SetValue(Token, usize),
    /// The value to print is under way.
    Print,
    /// The initializer of a variable is under way.
    Var(Token),
    /// Statements of a list run one after another; the next index, and
    /// the scope to go back to at the end.
    Sequence(ListRef, usize, Option<usize>),
    /// The condition of this if statement is under way.
    If(IfStmt),
    /// The condition of this while statement is under way; the scope of
    /// the loop.
    WhileCondition(WhileStmt, usize),
    /// The body of this while statement is under way; the scope of the
    /// loop.
    WhileBody(WhileStmt, usize),
    /// The value of a return statement is under way.
    ReturnValue,
    /// A function body is under way; the caller's scope, and the value
    /// the call yields whatever the body returns.
    Call(usize, Option<LoxObject>),
    /// The superclass of this class is under way.
    Superclass(ClassStmt),
}

/// Where the names the language reserves stand in the text store.
#[derive(Clone, Copy, Debug)]
pub struct Names {
    pub this: Span,
    pub superclass: Span,
    pub init: Span,
    pub clock: Span,
}

/// The mathematical model of an interpreter.
pub struct Machine {
    pub ast: Ast,
    pub locals: Seq<Option<usize>>,
    pub names: Names,
    pub text: Seq<char>,
    pub scopes: Scopes,
    pub classes: Seq<LoxClass>,
    pub instances: Seq<LoxInstance>,
    pub current: usize,
    pub frames: Seq<Frame>,
    pub values: Seq<LoxObject>,
    pub state: State,
    pub output: Seq<char>,
}

/// What an ordering operator says of two texts.
pub open spec fn compare_texts(kind: TokenType, a: Seq<char>, b: Seq<char>) -> bool {
    match kind {
        TokenType::Less => text_less(a, b, 0),
        TokenType::LessEqual => !text_less(b, a, 0),
        TokenType::Greater => text_less(b, a, 0),
        _ => !text_less(a, b, 0),
    }
}

/// What an ordering operator says of two booleans; `false` comes first.
pub open spec fn compare_bools(kind: TokenType, a: bool, b: bool) -> bool {
    match kind {
        TokenType::Less => !a && b,
        TokenType::LessEqual => !a || b,
        TokenType::Greater => a && !b,
        _ => a || !b,
    }
}

/// The number operation an operator token stands for.
pub open spec fn number_op(kind: TokenType) -> NumberOp {
    match kind {
        TokenType::Plus => NumberOp::Add,
        TokenType::Minus => NumberOp::Subtract,
        TokenType::Star => NumberOp::Multiply,
        TokenType::Slash => NumberOp::Divide,
        TokenType::Less => NumberOp::Less,
        TokenType::LessEqual => NumberOp::LessEqual,
        TokenType::Greater => NumberOp::Greater,
        TokenType::GreaterEqual => NumberOp::GreaterEqual,
        TokenType::EqualEqual => NumberOp::Equal,
        _ => NumberOp::NotEqual,
    }
}

/// How many values a frame keeps on the value stack: for a call whose
/// arguments are under way, the callee and the arguments evaluated so
/// far.
pub open spec fn owed(frame: Frame) -> nat {
    match frame {
        Frame::Argument(_, begun) => begun as nat,
        _ => 0,
    }
}

/// The scopes after the parameters of `params` from `index` on have been
/// bound in `scope` to the values that stand from `base` on.
pub open spec fn bind_parameters(
    scopes: Scopes,
    text: Seq<char>,
    ast: Ast,
    params: ListRef,
    values: Seq<LoxObject>,
    base: int,
    scope: usize,
    index: usize,
) -> Scopes
    decreases params.len - index,
{
    if index >= params.len {
        scopes
    } else {
        let next = match ast.param(params, index) {
            Some(name) => scopes.define(text, scope, name.lexeme, values[base + index]),
            None => scopes,
        };
        bind_parameters(next, text, ast, params, values, base, scope, (index + 1) as usize)
    }
}

/// The scopes after the function declarations of `list` from `index` on
/// have been bound as methods in the scope `methods`. An entry of the
/// list that is no function declaration is passed over.
pub open spec fn define_methods(
    scopes: Scopes,
    text: Seq<char>,
    ast: Ast,
    init: Span,
    list: ListRef,
    methods: usize,
    closure: usize,
    index: usize,
) -> Scopes
    decreases list.len - index,
{
    if index >= list.len {
        scopes
    } else {
        let next = match ast.item(list, index) {
            Some(id) => match ast.stmt(id) {
                Some(Stmt::Fun(declaration)) => scopes.define(
                    text,
                    methods,
                    declaration.name.lexeme,
                    LoxObject::Callable(
                        LoxFunction {
                            declaration: id,
                            closure,
                            is_init: declaration.name.lexeme.text(text) == init.text(text),
                        },
                    ),
                ),
                _ => scopes,
            },
            None => scopes,
        };
        define_methods(next, text, ast, init, list, methods, closure, (index + 1) as usize)
    }
}

impl Machine {
    /// The distance the resolver recorded for this expression, if any.
    pub open spec fn local(self, id: usize) -> Option<usize> {
        if id < self.locals.len() {
            self.locals[id as int]
        } else {
            None
        }
    }

    /// Goes on in the given state.
    pub open spec fn go(self, state: State) -> (Machine, Action) {
        (Machine { state, ..self }, Action::Continue)
    }

    /// Goes on with a value for the innermost frame.
    pub open spec fn value(self, value: LoxObject) -> (Machine, Action) {
        self.go(State::Value(value))
    }

    /// Asks the caller for something and waits.
    pub open spec fn wait(self, action: Action) -> (Machine, Action) {
        (Machine { state: State::Waiting(action), ..self }, action)
    }

    /// Ends the run with an error.
    pub open spec fn fail(self, kind: RuntimeErrorKind, token: Option<Token>) -> (Machine, Action) {
        let error = RuntimeError { kind, token };
        (Machine { state: State::Failed(error), ..self }, Action::Failed(error))
    }

    /// Leaves `frame` to wait for what `state` produces.
    pub open spec fn defer(self, frame: Frame, state: State) -> (Machine, Action) {
        Machine { frames: self.frames.push(frame), ..self }.go(state)
    }

    /// The name of a class as text; empty for an unknown class.
    pub open spec fn class_name(self, class: usize) -> Seq<char> {
        if class < self.classes.len() {
            self.classes[class as int].name.text(self.text)
        } else {
            Seq::empty()
        }
    }

    /// What `print` writes for a value that is no number.
    pub open spec fn display(self, value: LoxObject) -> Seq<char> {
        match value {
            LoxObject::Nil => "nil"@,
            LoxObject::Bool(b) => if b {
                "true"@
            } else {
                "false"@
            },
            LoxObject::String(span) => span.text(self.text),
            LoxObject::Number(_) => Seq::empty(),
            LoxObject::Callable(_) => "<loxFunction>"@,
            LoxObject::Native(_) => "<native fn>"@,
            LoxObject::Class(class) => "<loxClass "@ + self.class_name(class) + ">"@,
            LoxObject::Instance(instance) => "<loxInstance "@ + (if instance
                < self.instances.len() {
                self.class_name(self.instances[instance as int].class)
            } else {
                Seq::empty()
            }) + ">"@,
        }
    }

    /// Reads a variable in the nearest scope that binds its name.
    pub open spec fn lookup_by_name(self, name: Token) -> (Machine, Action) {
        match self.scopes.get(self.text, self.current, name.lexeme) {
            Some(value) => self.value(value),
            None => self.fail(RuntimeErrorKind::UndefinedVariable, Some(name)),
        }
    }

    /// Reads a variable: at the recorded distance when the resolver
    /// recorded one and there is a scope that far out, else in the
    /// nearest scope that binds the name.
    pub open spec fn lookup(self, id: usize, name: Token) -> (Machine, Action) {
        match self.local(id) {
            Some(distance) => match self.scopes.get_at(
                self.text,
                self.current,
                distance as nat,
                name.lexeme,
            ) {
                Some(value) => self.value(value),
                None => self.lookup_by_name(name),
            },
            None => self.lookup_by_name(name),
        }
    }

    /// The scopes and the function after `function` has been bound to an
    /// instance.
    pub open spec fn bind(self, function: LoxFunction, instance: usize) -> (Scopes, LoxFunction) {
        bound_to(function, self.scopes, self.text, self.names.this, instance)
    }

    /// Evaluates `super.method`.
    pub open spec fn evaluate_super(self, id: usize, keyword: Token, method: Token) -> (
        Machine,
        Action,
    ) {
        match self.local(id) {
            None => self.fail(RuntimeErrorKind::UndefinedVariable, Some(keyword)),
            Some(distance) => if distance == 0 {
                self.value(LoxObject::Nil)
            } else {
                match (
                    self.scopes.get_at(
                        self.text,
                        self.current,
                        distance as nat,
                        self.names.superclass,
                    ),
                    self.scopes.get_at(
                        self.text,
                        self.current,
                        (distance - 1) as nat,
                        self.names.this,
                    ),
                ) {
                    (Some(LoxObject::Class(class)), Some(LoxObject::Instance(instance))) => match find_method(
                        self.classes,
                        self.scopes,
                        self.text,
                        class,
                        method.lexeme,
                    ) {
                        Some(function) => {
                            let (scopes, bound) = self.bind(function, instance);
                            Machine { scopes, ..self }.value(LoxObject::Callable(bound))
                        },
                        None => self.fail(RuntimeErrorKind::UndefinedProperty, Some(method)),
                    },
                    _ => self.value(LoxObject::Nil),
                }
            },
        }
    }

    /// One step for the state `Evaluate(id)`.
    pub open spec fn evaluate(self, id: usize) -> (Machine, Action) {
        match self.ast.expr(id) {
            None => self.fail(RuntimeErrorKind::Corrupt, None),
            Some(Expr::Literal(literal)) => match literal.value {
                Literal::Nil => self.value(LoxObject::Nil),
                Literal::Bool(b) => self.value(LoxObject::Bool(b)),
                Literal::String(span) => self.value(LoxObject::String(span)),
                Literal::Number(lexeme) => self.wait(Action::Parse { lexeme }),
            },
            Some(Expr::Grouping(grouping)) => self.go(State::Evaluate(grouping.expression)),
            Some(Expr::Unary(unary)) => self.defer(
                Frame::Unary(unary.operator),
                State::Evaluate(unary.right),
            ),
            Some(Expr::Binary(binary)) => self.defer(
                Frame::BinaryLeft(binary),
                State::Evaluate(binary.left),
            ),
            Some(Expr::Logical(logical)) => self.defer(
                Frame::Logical(logical.operator, logical.right),
                State::Evaluate(logical.left),
            ),
            Some(Expr::Variable(variable)) => self.lookup(id, variable.name),
            Some(Expr::This(this)) => self.lookup(id, this.name),
            Some(Expr::Assign(assign)) => self.defer(
                Frame::Assign(id, assign),
                State::Evaluate(assign.value),
            ),
            Some(Expr::Call(call)) => self.defer(Frame::Callee(call), State::Evaluate(call.callee)),
            Some(Expr::Get(get)) => self.defer(Frame::Get(get.name), State::Evaluate(get.object)),
            Some(Expr::SetProperty(set)) => self.defer(
                Frame::SetObject(set),
                State::Evaluate(set.object),
            ),
            Some(Expr::Super(sup)) => self.evaluate_super(id, sup.keyword, sup.method),
        }
    }

    /// Declares a class whose superclass, if any, has been evaluated.
    pub open spec fn declare_class(self, class: ClassStmt, superclass: Option<usize>) -> (
        Machine,
        Action,
    ) {
        let name = class.name.lexeme;
        let declared = self.scopes.define(self.text, self.current, name, LoxObject::Nil);
        let closure = if superclass is Some {
            declared.scopes.len() as usize
        } else {
            self.current
        };
        let around = match superclass {
            Some(parent) => declared.push_scope(Some(self.current)).define(
                self.text,
                closure,
                self.names.superclass,
                LoxObject::Class(parent),
            ),
            None => declared,
        };
        let methods = around.scopes.len() as usize;
        let filled = define_methods(
            around.push_scope(None),
            self.text,
            self.ast,
            self.names.init,
            class.methods,
            methods,
            closure,
            0,
        );
        let handle = self.classes.len() as usize;
        Machine {
            scopes: filled.define(self.text, self.current, name, LoxObject::Class(handle)),
            classes: self.classes.push(LoxClass { name, superclass, methods }),
            ..self
        }.value(LoxObject::Nil)
    }

    /// One step for the state `Execute(id)`.
    pub open spec fn execute(self, id: usize) -> (Machine, Action) {
        match self.ast.stmt(id) {
            None => self.fail(RuntimeErrorKind::Corrupt, None),
            Some(Stmt::Expression(statement)) => self.go(State::Evaluate(statement.expression)),
            Some(Stmt::Print(statement)) => self.defer(
                Frame::Print,
                State::Evaluate(statement.expression),
            ),
            Some(Stmt::Var(statement)) => match statement.initializer {
                Some(initializer) => self.defer(
                    Frame::Var(statement.name),
                    State::Evaluate(initializer),
                ),
                None => Machine {
                    scopes: self.scopes.define(
                        self.text,
                        self.current,
                        statement.name.lexeme,
                        LoxObject::Nil,
                    ),
                    ..self
                }.value(LoxObject::Nil),
            },
            Some(Stmt::Block(block)) => Machine {
                scopes: self.scopes.push_scope(Some(self.current)),
                current: self.scopes.scopes.len() as usize,
                frames: self.frames.push(
                    Frame::Sequence(block.statements, 0, Some(self.current)),
                ),
                ..self
            }.value(LoxObject::Nil),
            Some(Stmt::If(statement)) => self.defer(
                Frame::If(statement),
                State::Evaluate(statement.condition),
            ),
            Some(Stmt::While(statement)) => self.defer(
                Frame::WhileCondition(statement, self.current),
                State::Evaluate(statement.condition),
            ),
            Some(Stmt::Fun(declaration)) => Machine {
                scopes: self.scopes.define(
                    self.text,
                    self.current,
                    declaration.name.lexeme,
                    LoxObject::Callable(
                        LoxFunction { declaration: id, closure: self.current, is_init: false },
                    ),
                ),
                ..self
            }.value(LoxObject::Nil),
            Some(Stmt::Return(statement)) => match statement.value {
                Some(value) => self.defer(Frame::ReturnValue, State::Evaluate(value)),
                None => self.go(State::Return(Return { value: LoxObject::Nil })),
            },
            Some(Stmt::Break(_)) => self.go(State::Break),
            Some(Stmt::Class(class)) => match class.superclass {
                Some(superclass) => self.defer(
                    Frame::Superclass(class),
                    State::Evaluate(superclass),
                ),
                None => self.declare_class(class, None),
            },
        }
    }

    /// Applies a unary operator.
    pub open spec fn apply_unary(self, operator: Token, value: LoxObject) -> (Machine, Action) {
        match operator.token_type {
            TokenType::Bang => self.value(LoxObject::Bool(!value.is_truthy())),
            TokenType::Minus => match value {
                LoxObject::Number(n) => self.wait(
                    Action::Arithmetic { op: NumberOp::Negate, left: n, right: 0 },
                ),
                _ => self.fail(RuntimeErrorKind::OperandMustBeNumber, Some(operator)),
            },
            _ => self.fail(RuntimeErrorKind::Corrupt, Some(operator)),
        }
    }

    /// Whether two values that are not both numbers are equal: strings by
    /// their text, booleans by their value, `nil` to `nil`, and nothing
    /// else.
    pub open spec fn equal(self, left: LoxObject, right: LoxObject) -> bool {
        match (left, right) {
            (LoxObject::String(a), LoxObject::String(b)) => a.text(self.text) == b.text(self.text),
            (LoxObject::Bool(a), LoxObject::Bool(b)) => a == b,
            (LoxObject::Nil, LoxObject::Nil) => true,
            _ => false,
        }
    }

    /// Applies a binary operator to two values.
    pub open spec fn apply_binary(self, operator: Token, left: LoxObject, right: LoxObject) -> (
        Machine,
        Action,
    ) {
        let kind = operator.token_type;
        let op = number_op(kind);
        match kind {
            TokenType::Plus => match (left, right) {
                (LoxObject::Number(a), LoxObject::Number(b)) => self.wait(
                    Action::Arithmetic { op, left: a, right: b },
                ),
                (LoxObject::String(a), LoxObject::String(b)) => {
                    let text = self.text + a.text(self.text) + b.text(self.text);
                    Machine { text, ..self }.value(
                        LoxObject::String(
                            Span { start: self.text.len() as usize, end: text.len() as usize },
                        ),
                    )
                },
                _ => self.fail(RuntimeErrorKind::OperandsMustBeNumbersOrStrings, Some(operator)),
            },
            TokenType::Minus | TokenType::Star | TokenType::Slash => match (left, right) {
                (LoxObject::Number(a), LoxObject::Number(b)) => self.wait(
                    Action::Arithmetic { op, left: a, right: b },
                ),
                _ => self.fail(RuntimeErrorKind::OperandsMustBeNumbers, Some(operator)),
            },
            TokenType::Less | TokenType::LessEqual | TokenType::Greater | TokenType::GreaterEqual => match (
                left,
                right,
            ) {
                (LoxObject::Number(a), LoxObject::Number(b)) => self.wait(
                    Action::Compare { op, left: a, right: b },
                ),
                (LoxObject::String(a), LoxObject::String(b)) => self.value(
                    LoxObject::Bool(compare_texts(kind, a.text(self.text), b.text(self.text))),
                ),
                (LoxObject::Bool(a), LoxObject::Bool(b)) => self.value(
                    LoxObject::Bool(compare_bools(kind, a, b)),
                ),
                _ => self.fail(RuntimeErrorKind::OperandsMustBeComparable, Some(operator)),
            },
            TokenType::EqualEqual | TokenType::BangEqual => match (left, right) {
                (LoxObject::Number(a), LoxObject::Number(b)) => self.wait(
                    Action::Compare { op, left: a, right: b },
                ),
                _ => self.value(
                    LoxObject::Bool(self.equal(left, right) == (kind == TokenType::EqualEqual)),
                ),
            },
            _ => self.fail(RuntimeErrorKind::Corrupt, Some(operator)),
        }
    }

    /// Writes a variable in the nearest scope that binds its name.
    pub open spec fn store_by_name(self, name: Token, value: LoxObject) -> (Machine, Action) {
        match self.scopes.assign(self.text, self.current, name.lexeme, value) {
            Some(scopes) => Machine { scopes, ..self }.value(value),
            None => self.fail(RuntimeErrorKind::UndefinedVariable, Some(name)),
        }
    }

    /// Writes a variable: at the recorded distance when the resolver
    /// recorded one and there is a scope that far out, else in the
    /// nearest scope that binds the name.
    pub open spec fn store(self, id: usize, name: Token, value: LoxObject) -> (Machine, Action) {
        match self.local(id) {
            Some(distance) => match self.scopes.assign_at(
                self.text,
                self.current,
                distance as nat,
                name.lexeme,
                value,
            ) {
                Some(scopes) => Machine { scopes, ..self }.value(value),
                None => self.store_by_name(name, value),
            },
            None => self.store_by_name(name, value),
        }
    }

    /// What a call of `function` yields whatever its body returns: for an
    /// initializer, the instance it is bound to.
    pub open spec fn fixed_result(self, function: LoxFunction) -> Option<LoxObject> {
        if function.is_init {
            self.scopes.get(self.text, function.closure, self.names.this)
        } else {
            None
        }
    }

    /// Enters the body of `function`, whose callee and `count` arguments
    /// stand on top of the value stack. The call will yield `result` if
    /// that is a value, and else what the body returns.
    pub open spec fn call_function(
        self,
        function: LoxFunction,
        count: usize,
        paren: Token,
        result: Option<LoxObject>,
    ) -> (Machine, Action) {
        match self.ast.stmt(function.declaration) {
            Some(Stmt::Fun(declaration)) => if declaration.params.len != count {
                self.fail(RuntimeErrorKind::ArityMismatch, Some(paren))
            } else if self.values.len() < count + 1 {
                self.fail(RuntimeErrorKind::Corrupt, Some(paren))
            } else {
                let scope = self.scopes.scopes.len() as usize;
                let base = self.values.len() - count;
                Machine {
                    scopes: bind_parameters(
                        self.scopes.push_scope(Some(function.closure)),
                        self.text,
                        self.ast,
                        declaration.params,
                        self.values,
                        base,
                        scope,
                        0,
                    ),
                    values: self.values.subrange(0, base - 1),
                    frames: self.frames.push(Frame::Call(self.current, result)).push(
                        Frame::Sequence(declaration.body, 0, None),
                    ),
                    current: scope,
                    ..self
                }.value(LoxObject::Nil)
            },
            _ => self.fail(RuntimeErrorKind::Corrupt, Some(paren)),
        }
    }

    /// Makes an instance of `class`, whose callee and `count` arguments
    /// stand on top of the value stack, and runs its initializer if it
    /// has one. The call yields the instance whatever the initializer
    /// returns.
    pub open spec fn instantiate(self, class: usize, count: usize, paren: Token) -> (
        Machine,
        Action,
    ) {
        if class >= self.classes.len() || self.values.len() < count + 1 {
            self.fail(RuntimeErrorKind::Corrupt, Some(paren))
        } else {
            let fields = self.scopes.scopes.len() as usize;
            let instance = self.instances.len() as usize;
            let made = Machine {
                scopes: self.scopes.push_scope(None),
                instances: self.instances.push(LoxInstance { class, fields }),
                ..self
            };
            match find_method(made.classes, made.scopes, made.text, class, made.names.init) {
                Some(init) => {
                    let (scopes, bound) = made.bind(init, instance);
                    Machine { scopes, ..made }.call_function(
                        bound,
                        count,
                        paren,
                        Some(LoxObject::Instance(instance)),
                    )
                },
                None => if count != 0 {
                    made.fail(RuntimeErrorKind::ArityMismatch, Some(paren))
                } else {
                    Machine { values: made.values.drop_last(), ..made }.value(
                        LoxObject::Instance(instance),
                    )
                },
            }
        }
    }

    /// Calls what stands under the `count` arguments on top of the value
    /// stack.
    pub open spec fn invoke(self, count: usize, paren: Token) -> (Machine, Action) {
        if self.values.len() < count + 1 {
            self.fail(RuntimeErrorKind::Corrupt, Some(paren))
        } else {
            match self.values[self.values.len() - count - 1] {
                LoxObject::Callable(function) => self.call_function(
                    function,
                    count,
                    paren,
                    self.fixed_result(function),
                ),
                LoxObject::Class(class) => self.instantiate(class, count, paren),
                LoxObject::Native(_) => if count != 0 {
                    self.fail(RuntimeErrorKind::ArityMismatch, Some(paren))
                } else {
                    Machine { values: self.values.drop_last(), ..self }.wait(Action::Clock)
                },
                _ => self.fail(RuntimeErrorKind::NotCallable, Some(paren)),
            }
        }
    }

    /// Takes up the value of the callee or of an argument of a call, and
    /// goes on with the next argument or with the call itself. `begun`
    /// counts the arguments begun so far.
    pub open spec fn next_argument(self, call: CallExpr, begun: usize, value: LoxObject) -> (
        Machine,
        Action,
    ) {
        let kept = Machine { values: self.values.push(value), ..self };
        if begun < call.arguments.len {
            match self.ast.item(call.arguments, begun) {
                Some(argument) => kept.defer(
                    Frame::Argument(call, (begun + 1) as usize),
                    State::Evaluate(argument),
                ),
                None => kept.fail(RuntimeErrorKind::Corrupt, Some(call.paren)),
            }
        } else {
            kept.invoke(begun, call.paren)
        }
    }

    /// Reads a property of a value.
    pub open spec fn get_property(self, name: Token, object: LoxObject) -> (Machine, Action) {
        match object {
            LoxObject::Instance(instance) => if instance >= self.instances.len() {
                self.fail(RuntimeErrorKind::Corrupt, Some(name))
            } else {
                let (scopes, found) = read_property(
                    self.instances[instance as int],
                    instance,
                    self.classes,
                    self.scopes,
                    self.text,
                    self.names.this,
                    name.lexeme,
                );
                match found {
                    Some(value) => Machine { scopes, ..self }.value(value),
                    None => self.fail(RuntimeErrorKind::UndefinedProperty, Some(name)),
                }
            },
            _ => self.fail(RuntimeErrorKind::OnlyInstancesHaveProperties, Some(name)),
        }
    }

    /// Writes a field of an instance.
    pub open spec fn set_property(self, name: Token, instance: usize, value: LoxObject) -> (
        Machine,
        Action,
    ) {
        if instance >= self.instances.len() {
            self.fail(RuntimeErrorKind::Corrupt, Some(name))
        } else {
            Machine {
                scopes: self.scopes.define(
                    self.text,
                    self.instances[instance as int].fields,
                    name.lexeme,
                    value,
                ),
                ..self
            }.value(value)
        }
    }

    /// Prints a value, or asks for the text of a number.
    pub open spec fn print(self, value: LoxObject) -> (Machine, Action) {
        match value {
            LoxObject::Number(number) => self.wait(Action::Format { number }),
            _ => Machine {
                output: self.output + self.display(value) + seq!['\n'],
                ..self
            }.value(LoxObject::Nil),
        }
    }

    /// Goes on with statement `next` of a list, or leaves the list.
    pub open spec fn sequence(self, list: ListRef, next: usize, restore: Option<usize>) -> (
        Machine,
        Action,
    ) {
        if next < list.len {
            match self.ast.item(list, next) {
                Some(statement) => self.defer(
                    Frame::Sequence(list, (next + 1) as usize, restore),
                    State::Execute(statement),
                ),
                None => self.fail(RuntimeErrorKind::Corrupt, None),
            }
        } else {
            Machine {
                current: match restore {
                    Some(scope) => scope,
                    None => self.current,
                },
                ..self
            }.value(LoxObject::Nil)
        }
    }

    /// Hands `value` to `frame`, which has been taken off the stack.
    pub open spec fn resume(self, frame: Frame, value: LoxObject) -> (Machine, Action) {
        match frame {
            Frame::Unary(operator) => self.apply_unary(operator, value),
            Frame::BinaryLeft(binary) => self.defer(
                Frame::BinaryRight(binary.operator, value),
                State::Evaluate(binary.right),
            ),
            Frame::BinaryRight(operator, left) => self.apply_binary(operator, left, value),
            Frame::Logical(operator, right) => if (operator.token_type == TokenType::Or)
                == value.is_truthy() {
                self.value(value)
            } else {
                self.go(State::Evaluate(right))
            },
            Frame::Assign(id, assign) => self.store(id, assign.name, value),
            Frame::Callee(call) => self.next_argument(call, 0, value),
            Frame::Argument(call, begun) => self.next_argument(call, begun, value),
            Frame::Get(name) => self.get_property(name, value),
            Frame::SetObject(set) => match value {
                LoxObject::Instance(instance) => self.defer(
                    Frame::SetValue(set.name, instance),
                    State::Evaluate(set.value),
                ),
                _ => self.fail(RuntimeErrorKind::OnlyInstancesHaveFields, Some(set.name)),
            },
            Frame::SetValue(name, instance) => self.set_property(name, instance, value),
            Frame::Print => self.print(value),
            Frame::Var(name) => Machine {
                scopes: self.scopes.define(self.text, self.current, name.lexeme, value),
                ..self
            }.value(LoxObject::Nil),
            Frame::Sequence(list, next, restore) => self.sequence(list, next, restore),
            Frame::If(statement) => if value.is_truthy() {
                self.go(State::Execute(statement.then_branch))
            } else {
                match statement.else_branch {
                    Some(other) => self.go(State::Execute(other)),
                    None => self.value(LoxObject::Nil),
                }
            },
            Frame::WhileCondition(statement, scope) => if value.is_truthy() {
                self.defer(Frame::WhileBody(statement, scope), State::Execute(statement.body))
            } else {
                self.value(LoxObject::Nil)
            },
            Frame::WhileBody(statement, scope) => self.defer(
                Frame::WhileCondition(statement, scope),
                State::Evaluate(statement.condition),
            ),
            Frame::ReturnValue => self.go(State::Return(Return { value })),
            Frame::Call(scope, result) => Machine { current: scope, ..self }.value(
                match result {
                    Some(fixed) => fixed,
                    None => LoxObject::Nil,
                },
            ),
            Frame::Superclass(class) => match value {
                LoxObject::Class(parent) => self.declare_class(class, Some(parent)),
                _ => self.fail(RuntimeErrorKind::SuperclassMustBeClass, Some(class.name)),
            },
        }
    }

    /// The machine without its innermost frame.
    pub open spec fn popped(self) -> Machine {
        Machine { frames: self.frames.drop_last(), ..self }
    }

    /// The machine without its innermost frame and without the values
    /// that frame keeps on the value stack.
    pub open spec fn abandoned(self) -> Machine {
        let kept = if owed(self.frames.last()) <= self.values.len() {
            self.values.len() - owed(self.frames.last())
        } else {
            0
        };
        Machine { values: self.values.subrange(0, kept), ..self.popped() }
    }

    /// One step for the state `Value(value)`: the innermost frame takes
    /// the value; without a frame the program has ended.
    pub open spec fn deliver(self, value: LoxObject) -> (Machine, Action) {
        if self.frames.len() == 0 {
            (Machine { state: State::Finished, ..self }, Action::Finished)
        } else {
            self.popped().resume(self.frames.last(), value)
        }
    }

    /// One step for the state `Return(value)`: one frame is dropped; a
    /// call frame ends the search and yields the value, or what the call
    /// is fixed to yield.
    pub open spec fn unwind_return(self, value: LoxObject) -> (Machine, Action) {
        if self.frames.len() == 0 {
            self.fail(RuntimeErrorKind::ReturnOutsideFunction, None)
        } else {
            match self.frames.last() {
                Frame::Call(scope, result) => Machine { current: scope, ..self.popped() }.value(
                    match result {
                        Some(fixed) => fixed,
                        None => value,
                    },
                ),
                _ => self.abandoned().go(State::Return(Return { value })),
            }
        }
    }

    /// One step for the state `Break`: one frame is dropped; the frame of
    /// a loop body ends the search and the loop.
    pub open spec fn unwind_break(self) -> (Machine, Action) {
        if self.frames.len() == 0 {
            self.fail(RuntimeErrorKind::BreakOutsideLoop, None)
        } else {
            match self.frames.last() {
                Frame::WhileBody(_, scope) => Machine { current: scope, ..self.popped() }.value(
                    LoxObject::Nil,
                ),
                Frame::Call(_, _) => self.fail(RuntimeErrorKind::BreakOutsideLoop, None),
                _ => self.abandoned().go(State::Break),
            }
        }
    }

    /// One step for the state `Waiting(action)`: an answer of the right
    /// kind is taken up; any other event has the action asked again.
    pub open spec fn answer(self, action: Action, event: Event) -> (Machine, Action) {
        match (action, event) {
            (Action::Arithmetic { .. }, Event::Number(n)) => self.value(LoxObject::Number(n)),
            (Action::Parse { .. }, Event::Number(n)) => self.value(LoxObject::Number(n)),
            (Action::Clock, Event::Number(n)) => self.value(LoxObject::Number(n)),
            (Action::Compare { .. }, Event::Truth(b)) => self.value(LoxObject::Bool(b)),
            (Action::Format { .. }, Event::Text(text)) => Machine {
                output: self.output + text@ + seq!['\n'],
                ..self
            }.value(LoxObject::Nil),
            _ => (self, action),
        }
    }

    /// One transition of the machine.
    pub open spec fn step(self, event: Event) -> (Machine, Action) {
        match self.state {
            State::Evaluate(id) => self.evaluate(id),
            State::Execute(id) => self.execute(id),
            State::Value(value) => self.deliver(value),
            State::Return(signal) => self.unwind_return(signal.value),
            State::Break => self.unwind_break(),
            State::Waiting(action) => self.answer(action, event),
            State::Finished => (self, Action::Finished),
            State::Failed(error) => (self, Action::Failed(error)),
        }
    }
}


impl Machine {
    /// The machine at the start of a run of a program over `source`:
    /// the text store holds the source and then the reserved names, the
    /// clock is bound in the outermost scope, the current scope lies
    /// inside it, no expression is resolved, and the statements of `body`
    /// are about to run.
    pub open spec fn start(source: Seq<char>, ast: Ast, body: Seq<usize>) -> Machine {
        let with_this = source + "this"@;
        let with_super = with_this + "super"@;
        let with_init = with_super + "init"@;
        let text = with_init + "clock"@;
        let names = Names {
            this: Span { start: source.len() as usize, end: with_this.len() as usize },
            superclass: Span { start: with_this.len() as usize, end: with_super.len() as usize },
            init: Span { start: with_super.len() as usize, end: with_init.len() as usize },
            clock: Span { start: with_init.len() as usize, end: text.len() as usize },
        };
        Machine {
            ast: ast.push_list(body),
            locals: Seq::new(ast.exprs.len(), |i: int| None::<usize>),
            names,
            text,
            scopes: (Scopes { scopes: Seq::empty(), bindings: Seq::empty() }).push_scope(
                None,
            ).define(text, 0, names.clock, LoxObject::Native(Clock {})).push_scope(Some(0usize)),
            classes: Seq::empty(),
            instances: Seq::empty(),
            current: 1,
            frames: seq![
                Frame::Sequence(
                    ListRef { start: ast.lists.len() as usize, len: body.len() as usize },
                    0,
                    None,
                ),
            ],
            values: Seq::empty(),
            state: State::Value(LoxObject::Nil),
            output: Seq::empty(),
        }
    }

    /// Steps until the machine asks for something, ends, or has taken
    /// `budget` further steps after the first.
    pub open spec fn run(self, event: Event, budget: nat) -> (Machine, Action)
        decreases budget,
    {
        let (next, action) = self.step(event);
        if action is Continue && budget > 0 {
            next.run(Event::Resume, (budget - 1) as nat)
        } else {
            (next, action)
        }
    }
}

/// The machine after the events of `events` have been handed to it, one
/// step each.
pub open spec fn replay(machine: Machine, events: Seq<Event>) -> Machine
    decreases events.len(),
{
    if events.len() == 0 {
        machine
    } else {
        replay(machine.step(events[0]).0, events.skip(1))
    }
}

/// The return signal passes through blocks and loops: a frame that is no
/// call frame is dropped and the signal goes on unchanged.
pub proof fn lemma_return_passes_through(machine: Machine, value: LoxObject)
    requires
        machine.frames.len() > 0,
        !(machine.frames.last() is Call),
    ensures
        machine.unwind_return(value) == (
            Machine { state: State::Return(Return { value }), ..machine.abandoned() },
            Action::Continue,
        ),
{
}

/// The return signal ends at the nearest call frame: the caller's scope
/// is current again, and the call yields the returned value, or the
/// value the call is fixed to yield.
pub proof fn lemma_return_ends_at_call(
    machine: Machine,
    value: LoxObject,
    scope: usize,
    result: Option<LoxObject>,
)
    requires
        machine.frames.len() > 0,
        machine.frames.last() == Frame::Call(scope, result),
    ensures
        machine.unwind_return(value) == (
            Machine {
                state: State::Value(
                    match result {
                        Some(fixed) => fixed,
                        None => value,
                    },
                ),
                current: scope,
                ..machine.popped()
            },
            Action::Continue,
        ),
{
}

/// A body that runs to its end without a return statement yields `nil`,
/// or the value the call is fixed to yield.
pub proof fn lemma_body_end_yields_nil(
    machine: Machine,
    last: LoxObject,
    scope: usize,
    result: Option<LoxObject>,
)
    requires
        machine.frames.len() > 0,
        machine.frames.last() == Frame::Call(scope, result),
    ensures
        machine.deliver(last) == (
            Machine {
                state: State::Value(
                    match result {
                        Some(fixed) => fixed,
                        None => LoxObject::Nil,
                    },
                ),
                current: scope,
                ..machine.popped()
            },
            Action::Continue,
        ),
{
}

/// Calling a class that has an initializer enters the initializer once,
/// with a call frame that is fixed to yield the new instance: whatever
/// the initializer returns, the call expression evaluates to the
/// instance.
pub proof fn lemma_constructor_yields_instance(
    machine: Machine,
    class: usize,
    count: usize,
    paren: Token,
)
    requires
        machine.instantiate(class, count, paren).1 is Continue,
        find_method(
            machine.classes,
            machine.scopes.push_scope(None),
            machine.text,
            class,
            machine.names.init,
        ) is Some,
    ensures
        ({
            let after = machine.instantiate(class, count, paren).0;
            &&& after.instances == machine.instances.push(
                LoxInstance { class, fields: machine.scopes.scopes.len() as usize },
            )
            &&& after.frames.len() == machine.frames.len() + 2
            &&& after.frames[machine.frames.len() as int] == Frame::Call(
                machine.current,
                Some(LoxObject::Instance(machine.instances.len() as usize)),
            )
        }),
{
}

/// Calling a class that has no initializer yields a new instance at
/// once.
pub proof fn lemma_plain_constructor_yields_instance(
    machine: Machine,
    class: usize,
    paren: Token,
)
    requires
        class < machine.classes.len(),
        machine.values.len() >= 1,
        find_method(
            machine.classes,
            machine.scopes.push_scope(None),
            machine.text,
            class,
            machine.names.init,
        ) is None,
    ensures
        machine.instantiate(class, 0, paren).0.state == State::Value(
            LoxObject::Instance(machine.instances.len() as usize),
        ),
        machine.instantiate(class, 0, paren).0.instances == machine.instances.push(
            LoxInstance { class, fields: machine.scopes.scopes.len() as usize },
        ),
{
}

/// An interpreter for one program.
pub struct Interpreter {
    pub program: Program,
    pub locals: Vec<Option<usize>>,
    pub names: Names,
    pub text: Vec<char>,
    pub environment: Environment,
    pub classes: Vec<LoxClass>,
    pub instances: Vec<LoxInstance>,
    pub current: usize,
    pub frames: Vec<Frame>,
    pub values: Vec<LoxObject>,
    pub state: State,
    pub output: Vec<char>,
}

impl View for Interpreter {
    type V = Machine;

    open spec fn view(&self) -> Machine {
        Machine {
            ast: self.program@,
            locals: self.locals@,
            names: self.names,
            text: self.text@,
            scopes: self.environment@,
            classes: self.classes@,
            instances: self.instances@,
            current: self.current,
            frames: self.frames@,
            values: self.values@,
            state: self.state,
            output: self.output@,
        }
    }
}

impl Interpreter {
    /// An interpreter about to run the statements `body` of `program`,
    /// which was parsed from `source`.
    pub fn new(source: Vec<char>, program: Program, body: &Vec<usize>) -> (interpreter: Interpreter)
        ensures
            interpreter@ == Machine::start(source@, program@, body@),
            interpreter@.scopes.well_formed(),
            program@.well_formed() ==> interpreter@.ast.well_formed(),
            program@.well_formed() && (forall|k: int|
                0 <= k < body@.len() ==> (#[trigger] body@[k]) < program@.stmts.len())
                ==> consistent(interpreter@),
    {
        let ghost ast = program@;
        let mut program = program;
        let mut locals: Vec<Option<usize>> = Vec::new();
        let count = program.exprs.len();
        let mut i: usize = 0;
        while i < count
            invariant
                i <= count,
                locals@ == Seq::new(i as nat, |i: int| None::<usize>),
            decreases count - i,
        {
            locals.push(None);
            i += 1;
            assert(locals@ =~= Seq::new(i as nat, |i: int| None::<usize>));
        }
        let list = program.push_list(body);
        proof {
            if ast.well_formed() && (forall|k: int|
                0 <= k < body@.len() ==> (#[trigger] body@[k]) < ast.stmts.len()) {
                lemma_start_is_consistent(source@, ast, body@);
            }
        }
        let mut text = source;
        let a = text.len();
        push_text(&mut text, "this");
        let b = text.len();
        push_text(&mut text, "super");
        let c = text.len();
        push_text(&mut text, "init");
        let d = text.len();
        push_text(&mut text, "clock");
        let e = text.len();
        let names = Names {
            this: Span::new(a, b),
            superclass: Span::new(b, c),
            init: Span::new(c, d),
            clock: Span::new(d, e),
        };
        let mut environment = Environment::new();
        let globals = environment.new_with_enclosing(None);
        environment.define(&text, globals, names.clock, LoxObject::Native(Clock {}));
        let current = environment.new_with_enclosing(Some(globals));
        let mut frames: Vec<Frame> = Vec::new();
        frames.push(Frame::Sequence(list, 0, None));
        assert(frames@ =~= seq![Frame::Sequence(list, 0, None)]);
        Interpreter {
            program,
            locals,
            names,
            text,
            environment,
            classes: Vec::new(),
            instances: Vec::new(),
            current,
            frames,
            values: Vec::new(),
            state: State::Value(LoxObject::Nil),
            output: Vec::new(),
        }
    }

    /// Records that expression `expr` refers to the scope `depth` steps
    /// out from the scope it is evaluated in. An unknown expression is
    /// passed over.
    pub fn resolve(&mut self, expr: usize, depth: usize)
        ensures
            old(self)@.scopes.well_formed() ==> final(self)@.scopes.well_formed(),
            consistent(old(self)@) ==> consistent(final(self)@),
            final(self)@ == (Machine {
                locals: if expr < old(self).locals@.len() {
                    old(self).locals@.update(expr as int, Some(depth))
                } else {
                    old(self).locals@
                },
                ..old(self)@
            }),
    {
        if expr < self.locals.len() {
            self.locals.set(expr, Some(depth));
        }
    }

    /// The distance recorded for an expression, if any.
    fn local(&self, id: usize) -> (distance: Option<usize>)
        ensures
            distance == self@.local(id),
    {
        if id < self.locals.len() {
            self.locals[id]
        } else {
            None
        }
    }

    fn go(&mut self, state: State) -> (action: Action)
        ensures
            old(self)@.scopes.well_formed() ==> final(self)@.scopes.well_formed(),
            (final(self)@, action) == old(self)@.go(state),
    {
        self.state = state;
        Action::Continue
    }

    fn value(&mut self, value: LoxObject) -> (action: Action)
        ensures
            old(self)@.scopes.well_formed() ==> final(self)@.scopes.well_formed(),
            (final(self)@, action) == old(self)@.value(value),
    {
        self.go(State::Value(value))
    }

    fn wait(&mut self, request: Action) -> (action: Action)
        ensures
            old(self)@.scopes.well_formed() ==> final(self)@.scopes.well_formed(),
            (final(self)@, action) == old(self)@.wait(request),
    {
        self.state = State::Waiting(request);
        request
    }

    fn fail(&mut self, kind: RuntimeErrorKind, token: Option<Token>) -> (action: Action)
        ensures
            old(self)@.scopes.well_formed() ==> final(self)@.scopes.well_formed(),
            (final(self)@, action) == old(self)@.fail(kind, token),
    {
        let error = RuntimeError::new(kind, token);
        self.state = State::Failed(error);
        Action::Failed(error)
    }

    fn defer(&mut self, frame: Frame, state: State) -> (action: Action)
        ensures
            old(self)@.scopes.well_formed() ==> final(self)@.scopes.well_formed(),
            (final(self)@, action) == old(self)@.defer(frame, state),
    {
        self.frames.push(frame);
        self.go(state)
    }

    /// Adds the name of a class to the output.
    fn write_class_name(&mut self, class: usize)
        ensures
            old(self)@.scopes.well_formed() ==> final(self)@.scopes.well_formed(),
            final(self)@ == (Machine {
                output: old(self).output@ + old(self)@.class_name(class),
                ..old(self)@
            }),
    {
        if class < self.classes.len() {
            let name = self.classes[class].name;
            push_span(&mut self.output, &self.text, name);
        } else {
            assert(self.output@ =~= self.output@ + Seq::<char>::empty());
        }
    }

    /// Adds what `print` writes for a value to the output.
    fn write_display(&mut self, value: LoxObject)
        ensures
            old(self)@.scopes.well_formed() ==> final(self)@.scopes.well_formed(),
            final(self)@ == (Machine {
                output: old(self).output@ + old(self)@.display(value),
                ..old(self)@
            }),
    {
        let ghost before = self.output@;
        match value {
            LoxObject::Nil => push_text(&mut self.output, "nil"),
            LoxObject::Bool(b) => if b {
                push_text(&mut self.output, "true")
            } else {
                push_text(&mut self.output, "false")
            },
            LoxObject::String(span) => push_span(&mut self.output, &self.text, span),
            LoxObject::Number(_) => {
                assert(self.output@ =~= self.output@ + Seq::<char>::empty());
            },
            LoxObject::Callable(_) => push_text(&mut self.output, "<loxFunction>"),
            LoxObject::Native(_) => push_text(&mut self.output, "<native fn>"),
            LoxObject::Class(class) => {
                push_text(&mut self.output, "<loxClass ");
                self.write_class_name(class);
                push_text(&mut self.output, ">");
                assert(self.output@ =~= before + ("<loxClass "@ + self@.class_name(class) + ">"@));
            },
            LoxObject::Instance(instance) => {
                push_text(&mut self.output, "<loxInstance ");
                if instance < self.instances.len() {
                    let class = self.instances[instance].class;
                    self.write_class_name(class);
                }
                push_text(&mut self.output, ">");
                assert(self.output@ =~= before + old(self)@.display(value));
            },
        }
    }

    fn lookup(&mut self, id: usize, name: Token) -> (action: Action)
        ensures
            old(self)@.scopes.well_formed() ==> final(self)@.scopes.well_formed(),
            (final(self)@, action) == old(self)@.lookup(id, name),
    {
        match self.local(id) {
            Some(distance) => match self.environment.get_at(
                &self.text,
                self.current,
                distance,
                name.lexeme,
            ) {
                Some(value) => self.value(value),
                None => self.lookup_by_name(name),
            },
            None => self.lookup_by_name(name),
        }
    }

    fn lookup_by_name(&mut self, name: Token) -> (action: Action)
        ensures
            old(self)@.scopes.well_formed() ==> final(self)@.scopes.well_formed(),
            (final(self)@, action) == old(self)@.lookup_by_name(name),
    {
        match self.environment.get(&self.text, self.current, name.lexeme) {
            Some(value) => self.value(value),
            None => self.fail(RuntimeErrorKind::UndefinedVariable, Some(name)),
        }
    }

    /// Binds `function` to an instance.
    fn bind(&mut self, function: LoxFunction, instance: usize) -> (bound: LoxFunction)
        ensures
            old(self)@.scopes.well_formed() ==> final(self)@.scopes.well_formed(),
            final(self)@ == (Machine {
                scopes: old(self)@.bind(function, instance).0,
                ..old(self)@
            }),
            bound == old(self)@.bind(function, instance).1,
    {
        function.bind(&mut self.environment, &self.text, self.names.this, instance)
    }

    fn evaluate_super(&mut self, id: usize, keyword: Token, method: Token) -> (action: Action)
        ensures
            old(self)@.scopes.well_formed() ==> final(self)@.scopes.well_formed(),
            (final(self)@, action) == old(self)@.evaluate_super(id, keyword, method),
    {
        match self.local(id) {
            None => self.fail(RuntimeErrorKind::UndefinedVariable, Some(keyword)),
            Some(distance) => {
                if distance == 0 {
                    return self.value(LoxObject::Nil);
                }
                let superclass = self.environment.get_at(
                    &self.text,
                    self.current,
                    distance,
                    self.names.superclass,
                );
                let object = self.environment.get_at(
                    &self.text,
                    self.current,
                    distance - 1,
                    self.names.this,
                );
                match (superclass, object) {
                    (Some(LoxObject::Class(class)), Some(LoxObject::Instance(instance))) => {
                        match LoxClass::find_methods(
                            &self.classes,
                            &self.environment,
                            &self.text,
                            class,
                            &method.lexeme,
                        ) {
                            Some(function) => {
                                let bound = self.bind(function, instance);
                                self.value(LoxObject::Callable(bound))
                            },
                            None => self.fail(RuntimeErrorKind::UndefinedProperty, Some(method)),
                        }
                    },
                    _ => self.value(LoxObject::Nil),
                }
            },
        }
    }

    /// One step for the state `Evaluate(id)`.
    pub fn evaluate(&mut self, id: usize) -> (action: Action)
        ensures
            old(self)@.scopes.well_formed() ==> final(self)@.scopes.well_formed(),
            (final(self)@, action) == old(self)@.evaluate(id),
    {
        match self.program.expr(id) {
            None => self.fail(RuntimeErrorKind::Corrupt, None),
            Some(Expr::Literal(literal)) => match literal.value {
                Literal::Nil => self.value(LoxObject::Nil),
                Literal::Bool(b) => self.value(LoxObject::Bool(b)),
                Literal::String(span) => self.value(LoxObject::String(span)),
                Literal::Number(lexeme) => self.wait(Action::Parse { lexeme }),
            },
            Some(Expr::Grouping(grouping)) => self.go(State::Evaluate(grouping.expression)),
            Some(Expr::Unary(unary)) => self.defer(
                Frame::Unary(unary.operator),
                State::Evaluate(unary.right),
            ),
            Some(Expr::Binary(binary)) => self.defer(
                Frame::BinaryLeft(binary),
                State::Evaluate(binary.left),
            ),
            Some(Expr::Logical(logical)) => self.defer(
                Frame::Logical(logical.operator, logical.right),
                State::Evaluate(logical.left),
            ),
            Some(Expr::Variable(variable)) => self.lookup(id, variable.name),
            Some(Expr::This(this)) => self.lookup(id, this.name),
            Some(Expr::Assign(assign)) => self.defer(
                Frame::Assign(id, assign),
                State::Evaluate(assign.value),
            ),
            Some(Expr::Call(call)) => self.defer(Frame::Callee(call), State::Evaluate(call.callee)),
            Some(Expr::Get(get)) => self.defer(Frame::Get(get.name), State::Evaluate(get.object)),
            Some(Expr::SetProperty(set)) => self.defer(
                Frame::SetObject(set),
                State::Evaluate(set.object),
            ),
            Some(Expr::Super(sup)) => self.evaluate_super(id, sup.keyword, sup.method),
        }
    }

    /// Binds the function declarations of `list` as methods in the scope
    /// `methods`.
    fn define_methods(&mut self, list: ListRef, methods: usize, closure: usize)
        ensures
            old(self)@.scopes.well_formed() ==> final(self)@.scopes.well_formed(),
            final(self)@ == (Machine {
                scopes: define_methods(
                    old(self)@.scopes,
                    old(self)@.text,
                    old(self)@.ast,
                    old(self)@.names.init,
                    list,
                    methods,
                    closure,
                    0,
                ),
                ..old(self)@
            }),
    {
        let mut index: usize = 0;
        while index < list.len
            invariant
                index <= list.len,
                self@ == (Machine { scopes: self@.scopes, ..old(self)@ }),
                old(self)@.scopes.well_formed() ==> self@.scopes.well_formed(),
                define_methods(
                    self@.scopes,
                    self@.text,
                    self@.ast,
                    self@.names.init,
                    list,
                    methods,
                    closure,
                    index,
                ) == define_methods(
                    old(self)@.scopes,
                    old(self)@.text,
                    old(self)@.ast,
                    old(self)@.names.init,
                    list,
                    methods,
                    closure,
                    0,
                ),
            decreases list.len - index,
        {
            match self.program.item(list, index) {
                Some(id) => match self.program.stmt(id) {
                    Some(Stmt::Fun(declaration)) => {
                        let is_init = declaration.name.lexeme.same_text(
                            &self.names.init,
                            &self.text,
                        );
                        self.environment.define(
                            &self.text,
                            methods,
                            declaration.name.lexeme,
                            LoxObject::Callable(LoxFunction::new(id, closure, is_init)),
                        );
                    },
                    _ => {},
                },
                None => {},
            }
            index += 1;
        }
    }

    fn declare_class(&mut self, class: ClassStmt, superclass: Option<usize>) -> (action: Action)
        ensures
            old(self)@.scopes.well_formed() ==> final(self)@.scopes.well_formed(),
            (final(self)@, action) == old(self)@.declare_class(class, superclass),
    {
        let name = class.name.lexeme;
        self.environment.define(&self.text, self.current, name, LoxObject::Nil);
        let closure = match superclass {
            Some(parent) => {
                let scope = self.environment.new_with_enclosing(Some(self.current));
                self.environment.define(
                    &self.text,
                    scope,
                    self.names.superclass,
                    LoxObject::Class(parent),
                );
                scope
            },
            None => self.current,
        };
        let methods = self.environment.new_with_enclosing(None);
        self.define_methods(class.methods, methods, closure);
        let handle = self.classes.len();
        self.classes.push(LoxClass::new(name, superclass, methods));
        self.environment.define(&self.text, self.current, name, LoxObject::Class(handle));
        self.value(LoxObject::Nil)
    }

    /// One step for the state `Execute(id)`.
    pub fn execute(&mut self, id: usize) -> (action: Action)
        ensures
            old(self)@.scopes.well_formed() ==> final(self)@.scopes.well_formed(),
            (final(self)@, action) == old(self)@.execute(id),
    {
        match self.program.stmt(id) {
            None => self.fail(RuntimeErrorKind::Corrupt, None),
            Some(Stmt::Expression(statement)) => self.go(State::Evaluate(statement.expression)),
            Some(Stmt::Print(statement)) => self.defer(
                Frame::Print,
                State::Evaluate(statement.expression),
            ),
            Some(Stmt::Var(statement)) => match statement.initializer {
                Some(initializer) => self.defer(
                    Frame::Var(statement.name),
                    State::Evaluate(initializer),
                ),
                None => {
                    self.environment.define(
                        &self.text,
                        self.current,
                        statement.name.lexeme,
                        LoxObject::Nil,
                    );
                    self.value(LoxObject::Nil)
                },
            },
            Some(Stmt::Block(block)) => self.execute_block(block.statements),
            Some(Stmt::If(statement)) => self.defer(
                Frame::If(statement),
                State::Evaluate(statement.condition),
            ),
            Some(Stmt::While(statement)) => self.defer(
                Frame::WhileCondition(statement, self.current),
                State::Evaluate(statement.condition),
            ),
            Some(Stmt::Fun(declaration)) => {
                self.environment.define(
                    &self.text,
                    self.current,
                    declaration.name.lexeme,
                    LoxObject::Callable(LoxFunction::new(id, self.current, false)),
                );
                self.value(LoxObject::Nil)
            },
            Some(Stmt::Return(statement)) => match statement.value {
                Some(value) => self.defer(Frame::ReturnValue, State::Evaluate(value)),
                None => self.go(State::Return(Return { value: LoxObject::Nil })),
            },
            Some(Stmt::Break(_)) => self.go(State::Break),
            Some(Stmt::Class(class)) => match class.superclass {
                Some(superclass) => self.defer(
                    Frame::Superclass(class),
                    State::Evaluate(superclass),
                ),
                None => self.declare_class(class, None),
            },
        }
    }

    /// Enters a block: its statements will run in a new scope inside the
    /// current one, which is gone back to afterwards.
    pub fn execute_block(&mut self, statements: ListRef) -> (action: Action)
        ensures
            old(self)@.scopes.well_formed() ==> final(self)@.scopes.well_formed(),
            (final(self)@, action) == (Machine {
                scopes: old(self)@.scopes.push_scope(Some(old(self).current)),
                current: old(self)@.scopes.scopes.len() as usize,
                frames: old(self)@.frames.push(
                    Frame::Sequence(statements, 0, Some(old(self).current)),
                ),
                ..old(self)@
            }).value(LoxObject::Nil),
    {
        let previous = self.current;
        self.current = self.environment.new_with_enclosing(Some(previous));
        self.frames.push(Frame::Sequence(statements, 0, Some(previous)));
        self.value(LoxObject::Nil)
    }

    fn apply_unary(&mut self, operator: Token, value: LoxObject) -> (action: Action)
        ensures
            old(self)@.scopes.well_formed() ==> final(self)@.scopes.well_formed(),
            (final(self)@, action) == old(self)@.apply_unary(operator, value),
    {
        match operator.token_type {
            TokenType::Bang => self.value(LoxObject::Bool(!value.is_truthy())),
            TokenType::Minus => match value {
                LoxObject::Number(n) => self.wait(
                    Action::Arithmetic { op: NumberOp::Negate, left: n, right: 0 },
                ),
                _ => self.fail(RuntimeErrorKind::OperandMustBeNumber, Some(operator)),
            },
            _ => self.fail(RuntimeErrorKind::Corrupt, Some(operator)),
        }
    }

    fn equal(&self, left: LoxObject, right: LoxObject) -> (same: bool)
        ensures
            same == self@.equal(left, right),
    {
        match (left, right) {
            (LoxObject::String(a), LoxObject::String(b)) => a.same_text(&b, &self.text),
            (LoxObject::Bool(a), LoxObject::Bool(b)) => a == b,
            (LoxObject::Nil, LoxObject::Nil) => true,
            _ => false,
        }
    }

    fn number_op(kind: TokenType) -> (op: NumberOp)
        ensures
            op == number_op(kind),
    {
        match kind {
            TokenType::Plus => NumberOp::Add,
            TokenType::Minus => NumberOp::Subtract,
            TokenType::Star => NumberOp::Multiply,
            TokenType::Slash => NumberOp::Divide,
            TokenType::Less => NumberOp::Less,
            TokenType::LessEqual => NumberOp::LessEqual,
            TokenType::Greater => NumberOp::Greater,
            TokenType::GreaterEqual => NumberOp::GreaterEqual,
            TokenType::EqualEqual => NumberOp::Equal,
            _ => NumberOp::NotEqual,
        }
    }

    fn compare_texts(&self, kind: TokenType, a: Span, b: Span) -> (r: bool)
        ensures
            r == compare_texts(kind, a.text(self.text@), b.text(self.text@)),
    {
        match kind {
            TokenType::Less => span_less(&self.text, a, b),
            TokenType::LessEqual => !span_less(&self.text, b, a),
            TokenType::Greater => span_less(&self.text, b, a),
            _ => !span_less(&self.text, a, b),
        }
    }

    fn compare_bools(kind: TokenType, a: bool, b: bool) -> (r: bool)
        ensures
            r == compare_bools(kind, a, b),
    {
        match kind {
            TokenType::Less => !a && b,
            TokenType::LessEqual => !a || b,
            TokenType::Greater => a && !b,
            _ => a || !b,
        }
    }

    /// Joins two strings into a new one at the end of the text store.
    fn concatenate(&mut self, a: Span, b: Span) -> (action: Action)
        ensures
            old(self)@.scopes.well_formed() ==> final(self)@.scopes.well_formed(),
            (final(self)@, action) == ({
                let text = old(self)@.text + a.text(old(self)@.text) + b.text(old(self)@.text);
                (Machine { text, ..old(self)@ }).value(
                    LoxObject::String(
                        Span { start: old(self)@.text.len() as usize, end: text.len() as usize },
                    ),
                )
            }),
    {
        let ghost before = self.text@;
        let start = self.text.len();
        repeat_span(&mut self.text, a);
        proof {
            // The ranges still select what they selected before the text grew.
            if b.fits(before.len()) {
                assert(b.text(self.text@) =~= b.text(before));
            }
        }
        if b.start <= b.end && b.end <= start {
            repeat_span(&mut self.text, b);
        } else {
            assert(self.text@ =~= self.text@ + b.text(before));
        }
        let end = self.text.len();
        self.value(LoxObject::String(Span::new(start, end)))
    }

    fn apply_binary(&mut self, operator: Token, left: LoxObject, right: LoxObject) -> (action:
        Action)
        ensures
            old(self)@.scopes.well_formed() ==> final(self)@.scopes.well_formed(),
            (final(self)@, action) == old(self)@.apply_binary(operator, left, right),
    {
        let kind = operator.token_type;
        let op = Self::number_op(kind);
        match kind {
            TokenType::Plus => match (left, right) {
                (LoxObject::Number(a), LoxObject::Number(b)) => self.wait(
                    Action::Arithmetic { op, left: a, right: b },
                ),
                (LoxObject::String(a), LoxObject::String(b)) => self.concatenate(a, b),
                _ => self.fail(RuntimeErrorKind::OperandsMustBeNumbersOrStrings, Some(operator)),
            },
            TokenType::Minus | TokenType::Star | TokenType::Slash => match (left, right) {
                (LoxObject::Number(a), LoxObject::Number(b)) => self.wait(
                    Action::Arithmetic { op, left: a, right: b },
                ),
                _ => self.fail(RuntimeErrorKind::OperandsMustBeNumbers, Some(operator)),
            },
            TokenType::Less | TokenType::LessEqual | TokenType::Greater | TokenType::GreaterEqual => match (
                left,
                right,
            ) {
                (LoxObject::Number(a), LoxObject::Number(b)) => self.wait(
                    Action::Compare { op, left: a, right: b },
                ),
                (LoxObject::String(a), LoxObject::String(b)) => {
                    let result = self.compare_texts(kind, a, b);
                    self.value(LoxObject::Bool(result))
                },
                (LoxObject::Bool(a), LoxObject::Bool(b)) => self.value(
                    LoxObject::Bool(Self::compare_bools(kind, a, b)),
                ),
                _ => self.fail(RuntimeErrorKind::OperandsMustBeComparable, Some(operator)),
            },
            TokenType::EqualEqual | TokenType::BangEqual => match (left, right) {
                (LoxObject::Number(a), LoxObject::Number(b)) => self.wait(
                    Action::Compare { op, left: a, right: b },
                ),
                _ => {
                    let same = self.equal(left, right);
                    self.value(LoxObject::Bool(same == (kind == TokenType::EqualEqual)))
                },
            },
            _ => self.fail(RuntimeErrorKind::Corrupt, Some(operator)),
        }
    }

    fn store(&mut self, id: usize, name: Token, value: LoxObject) -> (action: Action)
        ensures
            old(self)@.scopes.well_formed() ==> final(self)@.scopes.well_formed(),
            (final(self)@, action) == old(self)@.store(id, name, value),
    {
        match self.local(id) {
            Some(distance) => {
                if self.environment.assign_at(
                    &self.text,
                    self.current,
                    distance,
                    name.lexeme,
                    value,
                ) {
                    self.value(value)
                } else {
                    self.store_by_name(name, value)
                }
            },
            None => self.store_by_name(name, value),
        }
    }

    fn store_by_name(&mut self, name: Token, value: LoxObject) -> (action: Action)
        ensures
            old(self)@.scopes.well_formed() ==> final(self)@.scopes.well_formed(),
            (final(self)@, action) == old(self)@.store_by_name(name, value),
    {
        if self.environment.assign(&self.text, self.current, name.lexeme, value) {
            self.value(value)
        } else {
            self.fail(RuntimeErrorKind::UndefinedVariable, Some(name))
        }
    }

    /// Binds the parameters of `params` in `scope` to the values that
    /// stand from `base` on.
    fn bind_parameters(&mut self, params: ListRef, base: usize, scope: usize)
        requires
            base + params.len <= old(self).values@.len(),
        ensures
            old(self)@.scopes.well_formed() ==> final(self)@.scopes.well_formed(),
            final(self)@ == (Machine {
                scopes: bind_parameters(
                    old(self)@.scopes,
                    old(self)@.text,
                    old(self)@.ast,
                    params,
                    old(self)@.values,
                    base as int,
                    scope,
                    0,
                ),
                ..old(self)@
            }),
    {
        let mut index: usize = 0;
        while index < params.len
            invariant
                index <= params.len,
                base + params.len <= self.values@.len(),
                self@ == (Machine { scopes: self@.scopes, ..old(self)@ }),
                old(self)@.scopes.well_formed() ==> self@.scopes.well_formed(),
                bind_parameters(
                    self@.scopes,
                    self@.text,
                    self@.ast,
                    params,
                    self@.values,
                    base as int,
                    scope,
                    index,
                ) == bind_parameters(
                    old(self)@.scopes,
                    old(self)@.text,
                    old(self)@.ast,
                    params,
                    old(self)@.values,
                    base as int,
                    scope,
                    0,
                ),
            decreases params.len - index,
        {
            match self.program.param(params, index) {
                Some(name) => {
                    assert(base + index < self.values.len());
                    let value = self.values[base + index];
                    self.environment.define(&self.text, scope, name.lexeme, value);
                },
                None => {},
            }
            index += 1;
        }
    }

    fn call_function(
        &mut self,
        function: LoxFunction,
        count: usize,
        paren: Token,
        result: Option<LoxObject>,
    ) -> (action: Action)
        ensures
            old(self)@.scopes.well_formed() ==> final(self)@.scopes.well_formed(),
            (final(self)@, action) == old(self)@.call_function(function, count, paren, result),
    {
        match self.program.stmt(function.declaration) {
            Some(Stmt::Fun(declaration)) => {
                if declaration.params.len != count {
                    return self.fail(RuntimeErrorKind::ArityMismatch, Some(paren));
                }
                if self.values.len() <= count {
                    return self.fail(RuntimeErrorKind::Corrupt, Some(paren));
                }
                let base = self.values.len() - count;
                let scope = self.environment.new_with_enclosing(Some(function.closure));
                self.bind_parameters(declaration.params, base, scope);
                self.values.truncate(base - 1);
                self.frames.push(Frame::Call(self.current, result));
                self.frames.push(Frame::Sequence(declaration.body, 0, None));
                self.current = scope;
                self.value(LoxObject::Nil)
            },
            _ => self.fail(RuntimeErrorKind::Corrupt, Some(paren)),
        }
    }

    fn instantiate(&mut self, class: usize, count: usize, paren: Token) -> (action: Action)
        ensures
            old(self)@.scopes.well_formed() ==> final(self)@.scopes.well_formed(),
            (final(self)@, action) == old(self)@.instantiate(class, count, paren),
    {
        if class >= self.classes.len() || self.values.len() <= count {
            return self.fail(RuntimeErrorKind::Corrupt, Some(paren));
        }
        let fields = self.environment.new_with_enclosing(None);
        let instance = self.instances.len();
        self.instances.push(LoxInstance::new(class, fields));
        match LoxClass::find_methods(
            &self.classes,
            &self.environment,
            &self.text,
            class,
            &self.names.init,
        ) {
            Some(init) => {
                let bound = self.bind(init, instance);
                self.call_function(bound, count, paren, Some(LoxObject::Instance(instance)))
            },
            None => {
                if count != 0 {
                    self.fail(RuntimeErrorKind::ArityMismatch, Some(paren))
                } else {
                    self.values.pop();
                    self.value(LoxObject::Instance(instance))
                }
            },
        }
    }

    fn invoke(&mut self, count: usize, paren: Token) -> (action: Action)
        ensures
            old(self)@.scopes.well_formed() ==> final(self)@.scopes.well_formed(),
            (final(self)@, action) == old(self)@.invoke(count, paren),
    {
        if self.values.len() <= count {
            return self.fail(RuntimeErrorKind::Corrupt, Some(paren));
        }
        match self.values[self.values.len() - count - 1] {
            LoxObject::Callable(function) => {
                let result = if function.is_init {
                    self.environment.get(&self.text, function.closure, self.names.this)
                } else {
                    None
                };
                self.call_function(function, count, paren, result)
            },
            LoxObject::Class(class) => self.instantiate(class, count, paren),
            LoxObject::Native(clock) => {
                if count != clock.arity() {
                    self.fail(RuntimeErrorKind::ArityMismatch, Some(paren))
                } else {
                    self.values.pop();
                    self.wait(Action::Clock)
                }
            },
            _ => self.fail(RuntimeErrorKind::NotCallable, Some(paren)),
        }
    }

    fn next_argument(&mut self, call: CallExpr, begun: usize, value: LoxObject) -> (action: Action)
        ensures
            old(self)@.scopes.well_formed() ==> final(self)@.scopes.well_formed(),
            (final(self)@, action) == old(self)@.next_argument(call, begun, value),
    {
        self.values.push(value);
        if begun < call.arguments.len {
            match self.program.item(call.arguments, begun) {
                Some(argument) => self.defer(
                    Frame::Argument(call, begun + 1),
                    State::Evaluate(argument),
                ),
                None => self.fail(RuntimeErrorKind::Corrupt, Some(call.paren)),
            }
        } else {
            self.invoke(begun, call.paren)
        }
    }

    fn get_property(&mut self, name: Token, object: LoxObject) -> (action: Action)
        ensures
            old(self)@.scopes.well_formed() ==> final(self)@.scopes.well_formed(),
            (final(self)@, action) == old(self)@.get_property(name, object),
    {
        match object {
            LoxObject::Instance(instance) => {
                if instance >= self.instances.len() {
                    return self.fail(RuntimeErrorKind::Corrupt, Some(name));
                }
                let record = self.instances[instance];
                match record.get(
                    instance,
                    &self.classes,
                    &mut self.environment,
                    &self.text,
                    self.names.this,
                    &name.lexeme,
                ) {
                    Some(value) => self.value(value),
                    None => self.fail(RuntimeErrorKind::UndefinedProperty, Some(name)),
                }
            },
            _ => self.fail(RuntimeErrorKind::OnlyInstancesHaveProperties, Some(name)),
        }
    }

    fn set_property(&mut self, name: Token, instance: usize, value: LoxObject) -> (action: Action)
        ensures
            old(self)@.scopes.well_formed() ==> final(self)@.scopes.well_formed(),
            (final(self)@, action) == old(self)@.set_property(name, instance, value),
    {
        if instance >= self.instances.len() {
            self.fail(RuntimeErrorKind::Corrupt, Some(name))
        } else {
            let record = self.instances[instance];
            record.set(&mut self.environment, &self.text, name.lexeme, value);
            self.value(value)
        }
    }

    fn print(&mut self, value: LoxObject) -> (action: Action)
        ensures
            old(self)@.scopes.well_formed() ==> final(self)@.scopes.well_formed(),
            (final(self)@, action) == old(self)@.print(value),
    {
        match value {
            LoxObject::Number(number) => self.wait(Action::Format { number }),
            _ => {
                self.write_display(value);
                self.output.push('\n');
                assert(self.output@ =~= old(self).output@ + old(self)@.display(value) + seq![
                    '\n',
                ]);
                self.value(LoxObject::Nil)
            },
        }
    }

    fn sequence(&mut self, list: ListRef, next: usize, restore: Option<usize>) -> (action: Action)
        ensures
            old(self)@.scopes.well_formed() ==> final(self)@.scopes.well_formed(),
            (final(self)@, action) == old(self)@.sequence(list, next, restore),
    {
        if next < list.len {
            match self.program.item(list, next) {
                Some(statement) => self.defer(
                    Frame::Sequence(list, next + 1, restore),
                    State::Execute(statement),
                ),
                None => self.fail(RuntimeErrorKind::Corrupt, None),
            }
        } else {
            match restore {
                Some(scope) => {
                    self.current = scope;
                },
                None => {},
            }
            self.value(LoxObject::Nil)
        }
    }

    /// Hands `value` to `frame`, which has been taken off the stack.
    fn resume(&mut self, frame: Frame, value: LoxObject) -> (action: Action)
        ensures
            old(self)@.scopes.well_formed() ==> final(self)@.scopes.well_formed(),
            (final(self)@, action) == old(self)@.resume(frame, value),
    {
        match frame {
            Frame::Unary(operator) => self.apply_unary(operator, value),
            Frame::BinaryLeft(binary) => self.defer(
                Frame::BinaryRight(binary.operator, value),
                State::Evaluate(binary.right),
            ),
            Frame::BinaryRight(operator, left) => self.apply_binary(operator, left, value),
            Frame::Logical(operator, right) => {
                if (operator.token_type == TokenType::Or) == value.is_truthy() {
                    self.value(value)
                } else {
                    self.go(State::Evaluate(right))
                }
            },
            Frame::Assign(id, assign) => self.store(id, assign.name, value),
            Frame::Callee(call) => self.next_argument(call, 0, value),
            Frame::Argument(call, begun) => self.next_argument(call, begun, value),
            Frame::Get(name) => self.get_property(name, value),
            Frame::SetObject(set) => match value {
                LoxObject::Instance(instance) => self.defer(
                    Frame::SetValue(set.name, instance),
                    State::Evaluate(set.value),
                ),
                _ => self.fail(RuntimeErrorKind::OnlyInstancesHaveFields, Some(set.name)),
            },
            Frame::SetValue(name, instance) => self.set_property(name, instance, value),
            Frame::Print => self.print(value),
            Frame::Var(name) => {
                self.environment.define(&self.text, self.current, name.lexeme, value);
                self.value(LoxObject::Nil)
            },
            Frame::Sequence(list, next, restore) => self.sequence(list, next, restore),
            Frame::If(statement) => {
                if value.is_truthy() {
                    self.go(State::Execute(statement.then_branch))
                } else {
                    match statement.else_branch {
                        Some(other) => self.go(State::Execute(other)),
                        None => self.value(LoxObject::Nil),
                    }
                }
            },
            Frame::WhileCondition(statement, scope) => {
                if value.is_truthy() {
                    self.defer(Frame::WhileBody(statement, scope), State::Execute(statement.body))
                } else {
                    self.value(LoxObject::Nil)
                }
            },
            Frame::WhileBody(statement, scope) => self.defer(
                Frame::WhileCondition(statement, scope),
                State::Evaluate(statement.condition),
            ),
            Frame::ReturnValue => self.go(State::Return(Return { value })),
            Frame::Call(scope, result) => {
                self.current = scope;
                self.value(
                    match result {
                        Some(fixed) => fixed,
                        None => LoxObject::Nil,
                    },
                )
            },
            Frame::Superclass(class) => match value {
                LoxObject::Class(parent) => self.declare_class(class, Some(parent)),
                _ => self.fail(RuntimeErrorKind::SuperclassMustBeClass, Some(class.name)),
            },
        }
    }

    fn deliver(&mut self, value: LoxObject) -> (action: Action)
        ensures
            old(self)@.scopes.well_formed() ==> final(self)@.scopes.well_formed(),
            (final(self)@, action) == old(self)@.deliver(value),
    {
        match self.frames.pop() {
            None => {
                self.state = State::Finished;
                Action::Finished
            },
            Some(frame) => self.resume(frame, value),
        }
    }

    fn unwind_return(&mut self, value: LoxObject) -> (action: Action)
        ensures
            old(self)@.scopes.well_formed() ==> final(self)@.scopes.well_formed(),
            (final(self)@, action) == old(self)@.unwind_return(value),
    {
        match self.frames.pop() {
            None => self.fail(RuntimeErrorKind::ReturnOutsideFunction, None),
            Some(Frame::Call(scope, result)) => {
                self.current = scope;
                self.value(
                    match result {
                        Some(fixed) => fixed,
                        None => value,
                    },
                )
            },
            Some(frame) => {
                self.release(frame);
                self.go(State::Return(Return { value }))
            },
        }
    }

    /// Drops the values that `frame`, which has been taken off the stack,
    /// kept on the value stack.
    fn release(&mut self, frame: Frame)
        ensures
            final(self)@ == (Machine {
                values: old(self)@.values.subrange(
                    0,
                    if owed(frame) <= old(self)@.values.len() {
                        old(self)@.values.len() - owed(frame)
                    } else {
                        0
                    },
                ),
                ..old(self)@
            }),
    {
        match frame {
            Frame::Argument(_, begun) => {
                let height = self.values.len();
                self.values.truncate(if begun <= height { height - begun } else { 0 });
            },
            _ => {
                assert(self.values@.subrange(0, self.values@.len() as int) =~= self.values@);
            },
        }
    }

    fn unwind_break(&mut self) -> (action: Action)
        ensures
            old(self)@.scopes.well_formed() ==> final(self)@.scopes.well_formed(),
            (final(self)@, action) == old(self)@.unwind_break(),
    {
        let depth = self.frames.len();
        if depth == 0 {
            return self.fail(RuntimeErrorKind::BreakOutsideLoop, None);
        }
        match self.frames[depth - 1] {
            Frame::WhileBody(_, scope) => {
                self.frames.pop();
                self.current = scope;
                self.value(LoxObject::Nil)
            },
            Frame::Call(_, _) => self.fail(RuntimeErrorKind::BreakOutsideLoop, None),
            frame => {
                self.frames.pop();
                self.release(frame);
                self.go(State::Break)
            },
        }
    }

    fn answer(&mut self, request: Action, event: Event) -> (action: Action)
        ensures
            old(self)@.scopes.well_formed() ==> final(self)@.scopes.well_formed(),
            (final(self)@, action) == old(self)@.answer(request, event),
    {
        match (request, event) {
            (Action::Arithmetic { .. }, Event::Number(n)) => self.value(LoxObject::Number(n)),
            (Action::Parse { .. }, Event::Number(n)) => self.value(LoxObject::Number(n)),
            (Action::Clock, Event::Number(n)) => self.value(LoxObject::Number(n)),
            (Action::Compare { .. }, Event::Truth(b)) => self.value(LoxObject::Bool(b)),
            (Action::Format { .. }, Event::Text(text)) => {
                let mut i: usize = 0;
                while i < text.len()
                    invariant
                        i <= text.len(),
                        self@ == (Machine {
                            output: old(self).output@ + text@.subrange(0, i as int),
                            ..old(self)@
                        }),
                    decreases text.len() - i,
                {
                    self.output.push(text[i]);
                    i += 1;
                    assert(self.output@ =~= old(self).output@ + text@.subrange(0, i as int));
                }
                self.output.push('\n');
                assert(self.output@ =~= old(self).output@ + text@ + seq!['\n']) by {
                    assert(text@.subrange(0, i as int) =~= text@);
                }
                self.value(LoxObject::Nil)
            },
            _ => request,
        }
    }

    /// One transition of the machine. A consistent machine stays
    /// consistent and never reports an inconsistency.
    pub fn step(&mut self, event: Event) -> (action: Action)
        ensures
            old(self)@.scopes.well_formed() ==> final(self)@.scopes.well_formed(),
            (final(self)@, action) == old(self)@.step(event),
            consistent(old(self)@) ==> consistent(final(self)@) && !reports_corruption(action),
    {
        let ghost told = event;
        let action = self.step_inner(event);
        proof {
            if consistent(old(self)@) {
                assert(self.environment.scopes@.len() == self.environment.scopes.len());
                assert(self.environment.bindings@.len() == self.environment.bindings.len());
                assert(self.classes@.len() == self.classes.len());
                assert(self.instances@.len() == self.instances.len());
                lemma_step_is_fine(old(self)@, told);
            }
        }
        action
    }

    fn step_inner(&mut self, event: Event) -> (action: Action)
        ensures
            old(self)@.scopes.well_formed() ==> final(self)@.scopes.well_formed(),
            (final(self)@, action) == old(self)@.step(event),
    {
        match self.state {
            State::Evaluate(id) => self.evaluate(id),
            State::Execute(id) => self.execute(id),
            State::Value(value) => self.deliver(value),
            State::Return(signal) => self.unwind_return(signal.value),
            State::Break => self.unwind_break(),
            State::Waiting(request) => self.answer(request, event),
            State::Finished => Action::Finished,
            State::Failed(error) => Action::Failed(error),
        }
    }

    /// What the program has printed so far.
    pub fn output(&self) -> (text: String)
        ensures
            text@ == self@.output,
    {
        crate::logger::to_string(&self.output)
    }

    /// Steps until the machine asks for something, ends, or has taken
    /// `budget` further steps after the first.
    pub fn interpret(&mut self, event: Event, budget: usize) -> (action: Action)
        ensures
            old(self)@.scopes.well_formed() ==> final(self)@.scopes.well_formed(),
            (final(self)@, action) == old(self)@.run(event, budget as nat),
            consistent(old(self)@) ==> consistent(final(self)@) && !reports_corruption(action),
    {
        let ghost goal = self@.run(event, budget as nat);
        let mut action = self.step(event);
        let mut left = budget;
        while left > 0 && matches!(action, Action::Continue)
            invariant
                old(self)@.scopes.well_formed() ==> self@.scopes.well_formed(),
                consistent(old(self)@) ==> consistent(self@) && !reports_corruption(action),
                goal == (if action is Continue && left > 0 {
                    self@.run(Event::Resume, (left - 1) as nat)
                } else {
                    (self@, action)
                }),
            decreases left,
        {
            action = self.step(Event::Resume);
            left -= 1;
        }
        action
    }
}

} // verus!
