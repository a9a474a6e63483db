//! Expression nodes.
//!
//! A program's nodes live in the tables of a [`crate::stmt::Program`] and
//! refer to one another by index, so every node has a stable identity.

use vstd::prelude::*;
use crate::tokens::{Span, Token};

verus! {

/// A value as written in the source. Numbers and strings are kept as the
/// range of their text; a string's range excludes its quotes.
#[derive(Clone, Copy, Debug)]
pub enum Literal {
    Nil,
    Bool(bool),
    Number(Span),
    String(Span),
}

/// A run of `len` entries of a list table, from `start` on.
#[derive(Clone, Copy, Debug)]
pub struct ListRef {
    pub start: usize,
    pub len: usize,
}

impl ListRef {
    pub fn new(start: usize, len: usize) -> (list: ListRef)
        ensures
            list == (ListRef { start, len }),
    {
        ListRef { start, len }
    }
}

/// An arithmetic, comparison or equality operator between two operands.
#[derive(Clone, Copy, Debug)]
pub struct BinaryExpr {
    pub left: usize,
    pub operator: Token,
    pub right: usize,
}

impl BinaryExpr {
    pub fn new(left: usize, operator: Token, right: usize) -> (node: BinaryExpr)
        ensures
            node == (BinaryExpr { left, operator, right }),
    {
        BinaryExpr { left, operator, right }
    }
}

/// A parenthesised expression.
#[derive(Clone, Copy, Debug)]
pub struct GroupingExpr {
    pub expression: usize,
}

impl GroupingExpr {
    pub fn new(expression: usize) -> (node: GroupingExpr)
        ensures
            node == (GroupingExpr { expression }),
    {
        GroupingExpr { expression }
    }
}

/// A value written out in the source.
#[derive(Clone, Copy, Debug)]
pub struct LiteralExpr {
    pub value: Literal,
}

impl LiteralExpr {
    pub fn new(value: Literal) -> (node: LiteralExpr)
        ensures
            node == (LiteralExpr { value }),
    {
        LiteralExpr { value }
    }
}

/// `!` or `-` before an operand.
#[derive(Clone, Copy, Debug)]
pub struct UnaryExpr {
    pub right: usize,
    pub operator: Token,
}

impl UnaryExpr {
    pub fn new(right: usize, operator: Token) -> (node: UnaryExpr)
        ensures
            node == (UnaryExpr { right, operator }),
    {
        UnaryExpr { right, operator }
    }
}

/// A variable read.
#[derive(Clone, Copy, Debug)]
pub struct VariableExpr {
    pub name: Token,
}

impl VariableExpr {
    pub fn new(name: Token) -> (node: VariableExpr)
        ensures
            node == (VariableExpr { name }),
    {
        VariableExpr { name }
    }
}

/// An assignment to a variable.
#[derive(Clone, Copy, Debug)]
pub struct AssignExpr {
    pub name: Token,
    pub value: usize,
}

impl AssignExpr {
    pub fn new(name: Token, value: usize) -> (node: AssignExpr)
        ensures
            node == (AssignExpr { name, value }),
    {
        AssignExpr { name, value }
    }
}

/// `and` or `or` between two operands; the right one is evaluated only when needed.
#[derive(Clone, Copy, Debug)]
pub struct LogicalExpr {
    pub left: usize,
    pub operator: Token,
    pub right: usize,
}

impl LogicalExpr {
    pub fn new(left: usize, operator: Token, right: usize) -> (node: LogicalExpr)
        ensures
            node == (LogicalExpr { left, operator, right }),
    {
        LogicalExpr { left, operator, right }
    }
}

/// A call; `paren` is the closing parenthesis.
#[derive(Clone, Copy, Debug)]
pub struct CallExpr {
    pub callee: usize,
    pub paren: Token,
    pub arguments: ListRef,
}

impl CallExpr {
    pub fn new(callee: usize, paren: Token, arguments: ListRef) -> (node: CallExpr)
        ensures
            node == (CallExpr { callee, paren, arguments }),
    {
        CallExpr { callee, paren, arguments }
    }
}

/// A property read.
#[derive(Clone, Copy, Debug)]
pub struct GetExpr {
    pub object: usize,
    pub name: Token,
}

impl GetExpr {
    pub fn new(object: usize, name: Token) -> (node: GetExpr)
        ensures
            node == (GetExpr { object, name }),
    {
        GetExpr { object, name }
    }
}

/// A property write.
#[derive(Clone, Copy, Debug)]
pub struct SetExpr {
    pub object: usize,
    pub name: Token,
    pub value: usize,
}

impl SetExpr {
    pub fn new(object: usize, name: Token, value: usize) -> (node: SetExpr)
        ensures
            node == (SetExpr { object, name, value }),
    {
        SetExpr { object, name, value }
    }
}

/// `this`.
#[derive(Clone, Copy, Debug)]
pub struct ThisExpr {
    pub name: Token,
}

impl ThisExpr {
    pub fn new(name: Token) -> (node: ThisExpr)
        ensures
            node == (ThisExpr { name }),
    {
        ThisExpr { name }
    }
}

/// `super.method`.
#[derive(Clone, Copy, Debug)]
pub struct SuperExpr {
    pub keyword: Token,
    pub method: Token,
}

impl SuperExpr {
    pub fn new(keyword: Token, method: Token) -> (node: SuperExpr)
        ensures
            node == (SuperExpr { keyword, method }),
    {
        SuperExpr { keyword, method }
    }
}

/// An expression node. Operands are indices into the expression table.
#[derive(Clone, Copy, Debug)]
pub enum Expr {
    Binary(BinaryExpr),
    Grouping(GroupingExpr),
    Literal(LiteralExpr),
    Unary(UnaryExpr),
    Variable(VariableExpr),
    Assign(AssignExpr),
    Logical(LogicalExpr),
    Call(CallExpr),
    Get(GetExpr),
    SetProperty(SetExpr),
    This(ThisExpr),
    Super(SuperExpr),
}

} // verus!
