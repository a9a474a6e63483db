//! Error values.

use vstd::prelude::*;
use vstd::string::StringExecFns;
use crate::tokens::{LoxObject, Token};

verus! {

/// What the parser can object to.
#[derive(Clone, Copy, Debug, PartialEq, Eq, Structural)]
pub enum ParseError {
    ExpectClassName,
    ExpectSuperclassName,
    ExpectLeftBraceBeforeClassBody,
    ExpectRightBraceAfterClassBody,
    ExpectFunctionName,
    ExpectLeftParenAfterFunctionName,
    ExpectParameterName,
    ExpectRightParenAfterParameters,
    ExpectLeftBraceBeforeBody,
    ExpectSemicolonAfterReturn,
    ExpectSemicolonAfterBreak,
    ExpectLeftParenAfterFor,
    ExpectSemicolonAfterLoopCondition,
    ExpectRightParenAfterForClauses,
    ExpectLeftParenAfterWhile,
    ExpectRightParenAfterCondition,
    ExpectLeftParenAfterIf,
    ExpectRightParenAfterIf,
    ExpectRightBraceAfterBody,
    ExpectSemicolonAfterValue,
    ExpectVariableName,
    ExpectSemicolonAfterVariableDeclaration,
    ExpectSemicolonAfterExpression,
    InvalidAssignmentTarget,
    ExpectPropertyName,
    ExpectRightParenAfterArguments,
    ExpectRightParenAfterExpression,
    ExpectDotAfterSuper,
    ExpectSuperclassMethodName,
    InvalidPrimary,
}

impl ParseError {
    /// The text of the complaint.
    pub open spec fn message_text(self) -> Seq<char> {
        match self {
            ParseError::ExpectClassName => "Expect class name."@,
            ParseError::ExpectSuperclassName => "Expect superclass name."@,
            ParseError::ExpectLeftBraceBeforeClassBody => "Expect '{' before class body."@,
            ParseError::ExpectRightBraceAfterClassBody => "Expect '}' after class body."@,
            ParseError::ExpectFunctionName => "Expect function name."@,
            ParseError::ExpectLeftParenAfterFunctionName => "Expect '(' after function name."@,
            ParseError::ExpectParameterName => "Expect parameter name."@,
            ParseError::ExpectRightParenAfterParameters => "Expect ')' after parameters."@,
            ParseError::ExpectLeftBraceBeforeBody => "Expect '{' before body"@,
            ParseError::ExpectSemicolonAfterReturn => "Expect ';' after return."@,
            ParseError::ExpectSemicolonAfterBreak => "Expect ';' after break."@,
            ParseError::ExpectLeftParenAfterFor => "Expect '(' after 'for'"@,
            ParseError::ExpectSemicolonAfterLoopCondition => "Expect ';' after loop condition"@,
            ParseError::ExpectRightParenAfterForClauses => "Expect ')' after for clauses"@,
            ParseError::ExpectLeftParenAfterWhile => "Expect '(' after 'while'"@,
            ParseError::ExpectRightParenAfterCondition => "Expect ')' after condition"@,
            ParseError::ExpectLeftParenAfterIf => "Expect '(' after if"@,
            ParseError::ExpectRightParenAfterIf => "Expect ')' after if"@,
            ParseError::ExpectRightBraceAfterBody => "Expect '}' after body"@,
            ParseError::ExpectSemicolonAfterValue => "Expect ';' after value."@,
            ParseError::ExpectVariableName => "Expect variable name."@,
            ParseError::ExpectSemicolonAfterVariableDeclaration => "Expect ';' after variable declaration."@,
            ParseError::ExpectSemicolonAfterExpression => "Expect ';' after expression."@,
            ParseError::InvalidAssignmentTarget => "Invalid assignment target."@,
            ParseError::ExpectPropertyName => "Expect property name after '.'"@,
            ParseError::ExpectRightParenAfterArguments => "Expect ')' after arguments"@,
            ParseError::ExpectRightParenAfterExpression => "Expect ')' after expression."@,
            ParseError::ExpectDotAfterSuper => "Expect '.' after 'super'."@,
            ParseError::ExpectSuperclassMethodName => "Expect superclass method name."@,
            ParseError::InvalidPrimary => "Invalid primary expression"@,
        }
    }

    /// The text of the complaint.
    pub fn message(&self) -> (msg: &'static str)
        ensures
            msg@ == self.message_text(),
    {
        match self {
            ParseError::ExpectClassName => "Expect class name.",
            ParseError::ExpectSuperclassName => "Expect superclass name.",
            ParseError::ExpectLeftBraceBeforeClassBody => "Expect '{' before class body.",
            ParseError::ExpectRightBraceAfterClassBody => "Expect '}' after class body.",
            ParseError::ExpectFunctionName => "Expect function name.",
            ParseError::ExpectLeftParenAfterFunctionName => "Expect '(' after function name.",
            ParseError::ExpectParameterName => "Expect parameter name.",
            ParseError::ExpectRightParenAfterParameters => "Expect ')' after parameters.",
            ParseError::ExpectLeftBraceBeforeBody => "Expect '{' before body",
            ParseError::ExpectSemicolonAfterReturn => "Expect ';' after return.",
            ParseError::ExpectSemicolonAfterBreak => "Expect ';' after break.",
            ParseError::ExpectLeftParenAfterFor => "Expect '(' after 'for'",
            ParseError::ExpectSemicolonAfterLoopCondition => "Expect ';' after loop condition",
            ParseError::ExpectRightParenAfterForClauses => "Expect ')' after for clauses",
            ParseError::ExpectLeftParenAfterWhile => "Expect '(' after 'while'",
            ParseError::ExpectRightParenAfterCondition => "Expect ')' after condition",
            ParseError::ExpectLeftParenAfterIf => "Expect '(' after if",
            ParseError::ExpectRightParenAfterIf => "Expect ')' after if",
            ParseError::ExpectRightBraceAfterBody => "Expect '}' after body",
            ParseError::ExpectSemicolonAfterValue => "Expect ';' after value.",
            ParseError::ExpectVariableName => "Expect variable name.",
            ParseError::ExpectSemicolonAfterVariableDeclaration => "Expect ';' after variable declaration.",
            ParseError::ExpectSemicolonAfterExpression => "Expect ';' after expression.",
            ParseError::InvalidAssignmentTarget => "Invalid assignment target.",
            ParseError::ExpectPropertyName => "Expect property name after '.'",
            ParseError::ExpectRightParenAfterArguments => "Expect ')' after arguments",
            ParseError::ExpectRightParenAfterExpression => "Expect ')' after expression.",
            ParseError::ExpectDotAfterSuper => "Expect '.' after 'super'.",
            ParseError::ExpectSuperclassMethodName => "Expect superclass method name.",
            ParseError::InvalidPrimary => "Invalid primary expression",
        }
    }

    /// The complaint as an error value that owns its message.
    pub fn to_error(&self) -> (error: ParserError)
        ensures
            error.msg@ == self.message_text(),
    {
        ParserError::raise(String::from_str(self.message()))
    }
}

/// A syntax error with its message.
#[derive(Debug)]
pub struct ParserError {
    pub msg: String,
}

impl ParserError {
    pub fn raise(msg: String) -> (error: ParserError)
        ensures
            error.msg == msg,
    {
        ParserError { msg }
    }
}

/// What can go wrong while a program runs.
#[derive(Clone, Copy, Debug, PartialEq, Eq, Structural)]
pub enum RuntimeErrorKind {
    UndefinedVariable,
    UndefinedProperty,
    NotCallable,
    ArityMismatch,
    OperandMustBeNumber,
    OperandsMustBeNumbers,
    OperandsMustBeNumbersOrStrings,
    OperandsMustBeComparable,
    OnlyInstancesHaveProperties,
    OnlyInstancesHaveFields,
    SuperclassMustBeClass,
    ReturnOutsideFunction,
    BreakOutsideLoop,
    Corrupt,
}

impl RuntimeErrorKind {
    /// The text of the complaint.
    pub open spec fn message_text(self) -> Seq<char> {
        match self {
            RuntimeErrorKind::UndefinedVariable => "Undefined variable."@,
            RuntimeErrorKind::UndefinedProperty => "Undefined property."@,
            RuntimeErrorKind::NotCallable => "Can only call functions and classes."@,
            RuntimeErrorKind::ArityMismatch => "Unexpected number of arguments."@,
            RuntimeErrorKind::OperandMustBeNumber => "Operand must be a number."@,
            RuntimeErrorKind::OperandsMustBeNumbers => "Operands must be numbers."@,
            RuntimeErrorKind::OperandsMustBeNumbersOrStrings => "Operands must be two numbers or two strings."@,
            RuntimeErrorKind::OperandsMustBeComparable => "Operands must be two numbers, two strings or two booleans."@,
            RuntimeErrorKind::OnlyInstancesHaveProperties => "Only instances have properties."@,
            RuntimeErrorKind::OnlyInstancesHaveFields => "Only instances have fields."@,
            RuntimeErrorKind::SuperclassMustBeClass => "Superclass must be a class."@,
            RuntimeErrorKind::ReturnOutsideFunction => "Can't return from top-level code."@,
            RuntimeErrorKind::BreakOutsideLoop => "Can't break outside of a loop."@,
            RuntimeErrorKind::Corrupt => "The program's tables are inconsistent."@,
        }
    }

    /// The text of the complaint.
    pub fn message(&self) -> (msg: &'static str)
        ensures
            msg@ == self.message_text(),
    {
        match self {
            RuntimeErrorKind::UndefinedVariable => "Undefined variable.",
            RuntimeErrorKind::UndefinedProperty => "Undefined property.",
            RuntimeErrorKind::NotCallable => "Can only call functions and classes.",
            RuntimeErrorKind::ArityMismatch => "Unexpected number of arguments.",
            RuntimeErrorKind::OperandMustBeNumber => "Operand must be a number.",
            RuntimeErrorKind::OperandsMustBeNumbers => "Operands must be numbers.",
            RuntimeErrorKind::OperandsMustBeNumbersOrStrings => "Operands must be two numbers or two strings.",
            RuntimeErrorKind::OperandsMustBeComparable => "Operands must be two numbers, two strings or two booleans.",
            RuntimeErrorKind::OnlyInstancesHaveProperties => "Only instances have properties.",
            RuntimeErrorKind::OnlyInstancesHaveFields => "Only instances have fields.",
            RuntimeErrorKind::SuperclassMustBeClass => "Superclass must be a class.",
            RuntimeErrorKind::ReturnOutsideFunction => "Can't return from top-level code.",
            RuntimeErrorKind::BreakOutsideLoop => "Can't break outside of a loop.",
            RuntimeErrorKind::Corrupt => "The program's tables are inconsistent.",
        }
    }
}

/// An error that ends a run, with the token it arose at when there is
/// one.
#[derive(Clone, Copy, Debug)]
pub struct RuntimeError {
    pub kind: RuntimeErrorKind,
    pub token: Option<Token>,
}

impl RuntimeError {
    pub fn new(kind: RuntimeErrorKind, token: Option<Token>) -> (error: RuntimeError)
        ensures
            error == (RuntimeError { kind, token }),
    {
        RuntimeError { kind, token }
    }
}

/// The signal that carries a returned value out to the nearest call.
#[derive(Clone, Copy, Debug)]
pub struct Return {
    pub value: LoxObject,
}

impl Return {
    pub fn new(value: LoxObject) -> (signal: Return)
        ensures
            signal == (Return { value }),
    {
        Return { value }
    }
}

} // verus!
