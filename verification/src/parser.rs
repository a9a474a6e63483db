//! The parser: tokens to syntax tables.
//!
//! The grammar is stated as the `parse_*` functions below, one per rule.
//! Each takes the tokens, a position and the tables built so far, and says
//! how many tokens the rule takes, what the tables hold afterwards and
//! which node or error results. The methods of [`Parser`] are proved to
//! compute exactly these.

use vstd::prelude::*;
use crate::exceptions::{ParseError, ParserError};
use crate::expr::{
    AssignExpr, BinaryExpr, CallExpr, Expr, GetExpr, GroupingExpr, ListRef, Literal, LiteralExpr,
    LogicalExpr, SetExpr, SuperExpr, ThisExpr, UnaryExpr, VariableExpr,
};
use crate::stmt::{
    lemma_expr_ok, Ast, BlockStmt, BreakStmt, ClassStmt, ExpressionStmt, FunStmt, IfStmt, PrintStmt, Program,
    ReturnStmt, Stmt, VarStmt, WhileStmt,
};
use crate::tokens::{Token, TokenType};

verus! {

/// What a grammar rule yields: the number of tokens taken, the tables
/// afterwards, and the node built or the error met.
pub struct Parsed<T> {
    pub used: nat,
    pub ast: Ast,
    pub result: Result<T, ParseError>,
}

/// A syntax error and the token the parser stood at when it gave up.
#[derive(Clone, Copy, Debug)]
pub struct ParseDiagnostic {
    pub token: Token,
    pub error: ParseError,
}

/// What parsing a whole token sequence yields: the top-level statements,
/// the errors, and the tables.
pub struct ParsedProgram {
    pub body: Seq<usize>,
    pub errors: Seq<ParseDiagnostic>,
    pub ast: Ast,
}

pub open spec fn done<T>(used: nat, ast: Ast, value: T) -> Parsed<T> {
    Parsed { used, ast, result: Ok(value) }
}

pub open spec fn fail<T>(used: nat, ast: Ast, error: ParseError) -> Parsed<T> {
    Parsed { used, ast, result: Err(error) }
}

/// The same outcome, counted from `by` tokens earlier.
pub open spec fn shift<T>(parsed: Parsed<T>, by: nat) -> Parsed<T> {
    Parsed { used: parsed.used + by, ..parsed }
}

/// The kind of the token at `p`; past the end, the end-of-file kind.
pub open spec fn kind_at(t: Seq<Token>, p: nat) -> TokenType {
    if p < t.len() {
        t[p as int].token_type
    } else {
        TokenType::Eof
    }
}

/// The token at `p`.
pub open spec fn token_at(t: Seq<Token>, p: nat) -> Token {
    t[p as int]
}

/// How many tokens are left at `p`.
pub open spec fn left(t: Seq<Token>, p: nat) -> nat {
    if p < t.len() {
        (t.len() - p) as nat
    } else {
        0
    }
}

/// Whether `kind` is a binary operator of the given precedence level:
/// 1 factor, 2 term, 3 comparison, 4 equality, 5 `and`, 6 `or`.
pub open spec fn is_operator(level: nat, kind: TokenType) -> bool {
    match kind {
        TokenType::Slash | TokenType::Star => level == 1,
        TokenType::Minus | TokenType::Plus => level == 2,
        TokenType::Greater | TokenType::GreaterEqual | TokenType::Less | TokenType::LessEqual => level
            == 3,
        TokenType::BangEqual | TokenType::EqualEqual => level == 4,
        TokenType::And => level == 5,
        TokenType::Or => level == 6,
        _ => false,
    }
}

/// The node for `left operator right` at a precedence level.
pub open spec fn binary_node(level: nat, left: usize, operator: Token, right: usize) -> Expr {
    if level >= 5 {
        Expr::Logical(LogicalExpr { left, operator, right })
    } else {
        Expr::Binary(BinaryExpr { left, operator, right })
    }
}

/// primary: a literal, `this`, a name, `super.name` or a parenthesised
/// expression.
pub open spec fn parse_primary(t: Seq<Token>, p: nat, a: Ast) -> Parsed<usize>
    decreases left(t, p), 0nat,
{
    let id = a.exprs.len() as usize;
    match kind_at(t, p) {
        TokenType::False => done(
            1,
            a.push_expr(Expr::Literal(LiteralExpr { value: Literal::Bool(false) })),
            id,
        ),
        TokenType::True => done(
            1,
            a.push_expr(Expr::Literal(LiteralExpr { value: Literal::Bool(true) })),
            id,
        ),
        TokenType::Nil => done(1, a.push_expr(Expr::Literal(LiteralExpr { value: Literal::Nil })), id),
        TokenType::Number => done(
            1,
            a.push_expr(
                Expr::Literal(LiteralExpr { value: Literal::Number(token_at(t, p).lexeme) }),
            ),
            id,
        ),
        TokenType::String => done(
            1,
            a.push_expr(
                Expr::Literal(LiteralExpr { value: Literal::String(token_at(t, p).literal()) }),
            ),
            id,
        ),
        TokenType::This => done(1, a.push_expr(Expr::This(ThisExpr { name: token_at(t, p) })), id),
        TokenType::Identifier => done(
            1,
            a.push_expr(Expr::Variable(VariableExpr { name: token_at(t, p) })),
            id,
        ),
        TokenType::Super => if kind_at(t, p + 1) != TokenType::Dot {
            fail(1, a, ParseError::ExpectDotAfterSuper)
        } else if kind_at(t, p + 2) != TokenType::Identifier {
            fail(2, a, ParseError::ExpectSuperclassMethodName)
        } else {
            done(
                3,
                a.push_expr(
                    Expr::Super(SuperExpr { keyword: token_at(t, p), method: token_at(t, p + 2) }),
                ),
                id,
            )
        },
        TokenType::LeftParen => {
            let inner = parse_expression(t, p + 1, a);
            match inner.result {
                Err(_) => shift(inner, 1),
                Ok(expression) => if kind_at(t, p + 1 + inner.used) == TokenType::RightParen {
                    done(
                        inner.used + 2,
                        inner.ast.push_expr(Expr::Grouping(GroupingExpr { expression })),
                        inner.ast.exprs.len() as usize,
                    )
                } else {
                    fail(inner.used + 1, inner.ast, ParseError::ExpectRightParenAfterExpression)
                },
            }
        },
        _ => fail(0, a, ParseError::InvalidPrimary),
    }
}

/// The arguments of a call from `p` on, up to but not including the
/// closing parenthesis: expressions separated by commas, added to `seen`.
pub open spec fn parse_arguments(t: Seq<Token>, p: nat, a: Ast, seen: Seq<usize>) -> Parsed<
    Seq<usize>,
>
    decreases left(t, p), 26nat,
{
    let first = parse_expression(t, p, a);
    match first.result {
        Err(error) => fail(first.used, first.ast, error),
        Ok(argument) => if kind_at(t, p + first.used) == TokenType::Comma {
            shift(
                parse_arguments(t, p + first.used + 1, first.ast, seen.push(argument)),
                first.used + 1,
            )
        } else {
            done(first.used, first.ast, seen.push(argument))
        },
    }
}

/// The rest of a call whose opening parenthesis stands just before `p`.
pub open spec fn parse_finish_call(t: Seq<Token>, p: nat, a: Ast, callee: usize) -> Parsed<usize>
    decreases left(t, p), 27nat,
{
    let arguments = if kind_at(t, p) == TokenType::RightParen {
        done(0, a, Seq::<usize>::empty())
    } else {
        parse_arguments(t, p, a, Seq::empty())
    };
    match arguments.result {
        Err(error) => fail(arguments.used, arguments.ast, error),
        Ok(items) => if kind_at(t, p + arguments.used) == TokenType::RightParen {
            let list = ListRef {
                start: arguments.ast.lists.len() as usize,
                len: items.len() as usize,
            };
            done(
                arguments.used + 1,
                arguments.ast.push_list(items).push_expr(
                    Expr::Call(
                        CallExpr { callee, paren: token_at(t, p + arguments.used), arguments: list },
                    ),
                ),
                arguments.ast.exprs.len() as usize,
            )
        } else {
            fail(arguments.used, arguments.ast, ParseError::ExpectRightParenAfterArguments)
        },
    }
}

/// The rest of a property read whose dot stands just before `p`: the
/// name of the property.
pub open spec fn parse_access(t: Seq<Token>, p: nat, a: Ast, object: usize) -> Parsed<usize> {
    if kind_at(t, p) == TokenType::Identifier {
        done(
            1,
            a.push_expr(Expr::Get(GetExpr { object, name: token_at(t, p) })),
            a.exprs.len() as usize,
        )
    } else {
        fail(0, a, ParseError::ExpectPropertyName)
    }
}

/// What may follow a callee: any run of argument lists and `.name`s.
pub open spec fn parse_call_rest(t: Seq<Token>, p: nat, a: Ast, callee: usize) -> Parsed<usize>
    decreases left(t, p), 0nat,
{
    if kind_at(t, p) == TokenType::LeftParen {
        let call = parse_finish_call(t, p + 1, a, callee);
        match call.result {
            Err(_) => shift(call, 1),
            Ok(id) => shift(parse_call_rest(t, p + 1 + call.used, call.ast, id), 1 + call.used),
        }
    } else if kind_at(t, p) == TokenType::Dot {
        let access = parse_access(t, p + 1, a, callee);
        match access.result {
            Err(_) => shift(access, 1),
            Ok(id) => shift(
                parse_call_rest(t, p + 1 + access.used, access.ast, id),
                1 + access.used,
            ),
        }
    } else {
        done(0, a, callee)
    }
}

/// call: a primary and what follows it.
pub open spec fn parse_call(t: Seq<Token>, p: nat, a: Ast) -> Parsed<usize>
    decreases left(t, p), 1nat,
{
    let first = parse_primary(t, p, a);
    match first.result {
        Err(_) => first,
        Ok(callee) => shift(parse_call_rest(t, p + first.used, first.ast, callee), first.used),
    }
}

/// unary: `!` or `-` before a unary, or a call.
pub open spec fn parse_unary(t: Seq<Token>, p: nat, a: Ast) -> Parsed<usize>
    decreases left(t, p), 2nat,
{
    if kind_at(t, p) == TokenType::Bang || kind_at(t, p) == TokenType::Minus {
        let operand = parse_unary(t, p + 1, a);
        match operand.result {
            Err(_) => shift(operand, 1),
            Ok(right) => done(
                operand.used + 1,
                operand.ast.push_expr(Expr::Unary(UnaryExpr { right, operator: token_at(t, p) })),
                operand.ast.exprs.len() as usize,
            ),
        }
    } else {
        parse_call(t, p, a)
    }
}

/// The operand of a binary operator of the given level: the next tighter
/// level, or a unary below the tightest.
pub open spec fn parse_operand(level: nat, t: Seq<Token>, p: nat, a: Ast) -> Parsed<usize>
    decreases left(t, p), 3 * level + 4,
{
    if level <= 1 {
        parse_unary(t, p, a)
    } else {
        parse_binary((level - 1) as nat, t, p, a)
    }
}

/// What may follow the left operand `lhs` at a level: any run of an
/// operator of that level and an operand, grouped to the left.
pub open spec fn parse_binary_rest(level: nat, t: Seq<Token>, p: nat, a: Ast, lhs: usize) -> Parsed<
    usize,
>
    decreases left(t, p), 3 * level + 3,
{
    if is_operator(level, kind_at(t, p)) {
        let operand = parse_operand(level, t, p + 1, a);
        match operand.result {
            Err(_) => shift(operand, 1),
            Ok(right) => shift(
                parse_binary_rest(
                    level,
                    t,
                    p + 1 + operand.used,
                    operand.ast.push_expr(binary_node(level, lhs, token_at(t, p), right)),
                    operand.ast.exprs.len() as usize,
                ),
                1 + operand.used,
            ),
        }
    } else {
        done(0, a, lhs)
    }
}

/// A binary expression of the given level.
pub open spec fn parse_binary(level: nat, t: Seq<Token>, p: nat, a: Ast) -> Parsed<usize>
    decreases left(t, p), 3 * level + 5,
{
    let first = parse_operand(level, t, p, a);
    match first.result {
        Err(_) => first,
        Ok(lhs) => shift(parse_binary_rest(level, t, p + first.used, first.ast, lhs), first.used),
    }
}

/// The node that assigns `value` to what `target` denotes: a variable or
/// a property. Nothing else can be assigned to.
pub open spec fn assignment_node(target: Expr, value: usize) -> Option<Expr> {
    match target {
        Expr::Variable(variable) => Some(Expr::Assign(AssignExpr { name: variable.name, value })),
        Expr::Get(get) => Some(
            Expr::SetProperty(SetExpr { object: get.object, name: get.name, value }),
        ),
        _ => None,
    }
}

/// assignment: an `or` expression, or such an expression, `=` and an
/// assignment. The value is parsed before the target is judged.
pub open spec fn parse_assignment(t: Seq<Token>, p: nat, a: Ast) -> Parsed<usize>
    decreases left(t, p), 24nat,
{
    let target = parse_binary(6, t, p, a);
    if kind_at(t, p + target.used) == TokenType::Equal {
        let value = parse_assignment(t, p + target.used + 1, target.ast);
        match value.result {
            Err(_) => shift(value, target.used + 1),
            Ok(v) => match target.result {
                Err(error) => fail(target.used + 1 + value.used, value.ast, error),
                Ok(id) => match assignment_node(value.ast.exprs[id as int], v) {
                    Some(node) => done(
                        target.used + 1 + value.used,
                        value.ast.push_expr(node),
                        value.ast.exprs.len() as usize,
                    ),
                    None => fail(
                        target.used + 1 + value.used,
                        value.ast,
                        ParseError::InvalidAssignmentTarget,
                    ),
                },
            },
        }
    } else {
        target
    }
}

/// expression: an assignment.
pub open spec fn parse_expression(t: Seq<Token>, p: nat, a: Ast) -> Parsed<usize>
    decreases left(t, p), 25nat,
{
    parse_assignment(t, p, a)
}

/// An expression and the token `closer` after it.
pub open spec fn parse_closed_expression(
    t: Seq<Token>,
    p: nat,
    a: Ast,
    closer: TokenType,
    error: ParseError,
) -> Parsed<usize>
    decreases left(t, p), 26nat,
{
    let value = parse_expression(t, p, a);
    match value.result {
        Err(_) => value,
        Ok(expression) => if kind_at(t, p + value.used) == closer {
            done(value.used + 1, value.ast, expression)
        } else {
            fail(value.used, value.ast, error)
        },
    }
}

/// An expression statement: an expression and `;`.
pub open spec fn parse_expression_statement(t: Seq<Token>, p: nat, a: Ast) -> Parsed<usize>
    decreases left(t, p), 27nat,
{
    let value = parse_closed_expression(
        t,
        p,
        a,
        TokenType::Semicolon,
        ParseError::ExpectSemicolonAfterExpression,
    );
    match value.result {
        Err(_) => value,
        Ok(expression) => done(
            value.used,
            value.ast.push_stmt(Stmt::Expression(ExpressionStmt { expression })),
            value.ast.stmts.len() as usize,
        ),
    }
}

/// The rest of a print statement after `print`.
pub open spec fn parse_print_statement(t: Seq<Token>, p: nat, a: Ast) -> Parsed<usize>
    decreases left(t, p), 27nat,
{
    let value = parse_closed_expression(
        t,
        p,
        a,
        TokenType::Semicolon,
        ParseError::ExpectSemicolonAfterValue,
    );
    match value.result {
        Err(_) => value,
        Ok(expression) => done(
            value.used,
            value.ast.push_stmt(Stmt::Print(PrintStmt { expression })),
            value.ast.stmts.len() as usize,
        ),
    }
}

/// The rest of a return statement after `return`, whose token is
/// `keyword`.
pub open spec fn parse_return_statement(t: Seq<Token>, p: nat, a: Ast, keyword: Token) -> Parsed<
    usize,
>
    decreases left(t, p), 27nat,
{
    if kind_at(t, p) == TokenType::Semicolon {
        done(
            1,
            a.push_stmt(Stmt::Return(ReturnStmt { keyword, value: None })),
            a.stmts.len() as usize,
        )
    } else {
        let value = parse_closed_expression(
            t,
            p,
            a,
            TokenType::Semicolon,
            ParseError::ExpectSemicolonAfterReturn,
        );
        match value.result {
            Err(_) => value,
            Ok(expression) => done(
                value.used,
                value.ast.push_stmt(Stmt::Return(ReturnStmt { keyword, value: Some(expression) })),
                value.ast.stmts.len() as usize,
            ),
        }
    }
}

/// The rest of a break statement after `break`, whose token is `keyword`.
pub open spec fn parse_break_statement(t: Seq<Token>, p: nat, a: Ast, keyword: Token) -> Parsed<
    usize,
> {
    if kind_at(t, p) == TokenType::Semicolon {
        done(1, a.push_stmt(Stmt::Break(BreakStmt { keyword })), a.stmts.len() as usize)
    } else {
        fail(0, a, ParseError::ExpectSemicolonAfterBreak)
    }
}

/// The rest of a variable declaration after `var`.
pub open spec fn parse_variable_declaration(t: Seq<Token>, p: nat, a: Ast) -> Parsed<usize>
    decreases left(t, p), 27nat,
{
    if kind_at(t, p) != TokenType::Identifier {
        fail(0, a, ParseError::ExpectVariableName)
    } else if kind_at(t, p + 1) == TokenType::Equal {
        let value = parse_closed_expression(
            t,
            p + 2,
            a,
            TokenType::Semicolon,
            ParseError::ExpectSemicolonAfterVariableDeclaration,
        );
        match value.result {
            Err(_) => shift(value, 2),
            Ok(expression) => done(
                value.used + 2,
                value.ast.push_stmt(
                    Stmt::Var(VarStmt { name: token_at(t, p), initializer: Some(expression) }),
                ),
                value.ast.stmts.len() as usize,
            ),
        }
    } else if kind_at(t, p + 1) == TokenType::Semicolon {
        done(
            2,
            a.push_stmt(Stmt::Var(VarStmt { name: token_at(t, p), initializer: None })),
            a.stmts.len() as usize,
        )
    } else {
        fail(1, a, ParseError::ExpectSemicolonAfterVariableDeclaration)
    }
}

/// The rest of a while statement after `while`.
pub open spec fn parse_while_statement(t: Seq<Token>, p: nat, a: Ast) -> Parsed<usize>
    decreases left(t, p), 28nat,
{
    if kind_at(t, p) != TokenType::LeftParen {
        fail(0, a, ParseError::ExpectLeftParenAfterWhile)
    } else {
        let head = parse_closed_expression(
            t,
            p + 1,
            a,
            TokenType::RightParen,
            ParseError::ExpectRightParenAfterCondition,
        );
        match head.result {
            Err(_) => shift(head, 1),
            Ok(condition) => {
                let body = parse_statement(t, p + 1 + head.used, head.ast);
                match body.result {
                    Err(_) => shift(body, 1 + head.used),
                    Ok(body_id) => done(
                        1 + head.used + body.used,
                        body.ast.push_stmt(Stmt::While(WhileStmt { condition, body: body_id })),
                        body.ast.stmts.len() as usize,
                    ),
                }
            },
        }
    }
}

/// An optional else branch: `else` and a statement, or nothing.
pub open spec fn parse_else(t: Seq<Token>, p: nat, a: Ast) -> Parsed<Option<usize>>
    decreases left(t, p), 28nat,
{
    if kind_at(t, p) == TokenType::Else {
        let other = parse_statement(t, p + 1, a);
        match other.result {
            Err(error) => fail(1 + other.used, other.ast, error),
            Ok(else_branch) => done(1 + other.used, other.ast, Some(else_branch)),
        }
    } else {
        done(0, a, None)
    }
}

/// The rest of an if statement after `if`.
pub open spec fn parse_if_statement(t: Seq<Token>, p: nat, a: Ast) -> Parsed<usize>
    decreases left(t, p), 28nat,
{
    if kind_at(t, p) != TokenType::LeftParen {
        fail(0, a, ParseError::ExpectLeftParenAfterIf)
    } else {
        let head = parse_closed_expression(
            t,
            p + 1,
            a,
            TokenType::RightParen,
            ParseError::ExpectRightParenAfterIf,
        );
        match head.result {
            Err(_) => shift(head, 1),
            Ok(condition) => {
                let then = parse_statement(t, p + 1 + head.used, head.ast);
                match then.result {
                    Err(_) => shift(then, 1 + head.used),
                    Ok(then_branch) => {
                        let other = parse_else(t, p + 1 + head.used + then.used, then.ast);
                        match other.result {
                            Err(error) => fail(
                                1 + head.used + then.used + other.used,
                                other.ast,
                                error,
                            ),
                            Ok(else_branch) => done(
                                1 + head.used + then.used + other.used,
                                other.ast.push_stmt(
                                    Stmt::If(IfStmt { condition, then_branch, else_branch }),
                                ),
                                other.ast.stmts.len() as usize,
                            ),
                        }
                    },
                }
            },
        }
    }
}

/// The first clause of a for statement: nothing but `;`, a variable
/// declaration, or an expression statement.
pub open spec fn parse_for_initializer(t: Seq<Token>, p: nat, a: Ast) -> Parsed<Option<usize>>
    decreases left(t, p), 28nat,
{
    if kind_at(t, p) == TokenType::Semicolon {
        done(1, a, None)
    } else {
        let clause = if kind_at(t, p) == TokenType::Var {
            shift(parse_variable_declaration(t, p + 1, a), 1)
        } else {
            parse_expression_statement(t, p, a)
        };
        match clause.result {
            Err(error) => fail(clause.used, clause.ast, error),
            Ok(id) => done(clause.used, clause.ast, Some(id)),
        }
    }
}

/// An optional expression and the token `closer` after it.
pub open spec fn parse_for_clause(
    t: Seq<Token>,
    p: nat,
    a: Ast,
    closer: TokenType,
    error: ParseError,
) -> Parsed<Option<usize>>
    decreases left(t, p), 28nat,
{
    if kind_at(t, p) == closer {
        done(1, a, None)
    } else {
        let clause = parse_closed_expression(t, p, a, closer, error);
        match clause.result {
            Err(error) => fail(clause.used, clause.ast, error),
            Ok(id) => done(clause.used, clause.ast, Some(id)),
        }
    }
}

/// The statement a for loop stands for, given its parsed clauses and
/// body: the body with the increment after it, looped while the condition
/// holds (always, when there is none), with the initializer before it.
pub open spec fn desugar_for(
    a: Ast,
    initializer: Option<usize>,
    condition: Option<usize>,
    increment: Option<usize>,
    body: usize,
) -> (Ast, usize) {
    let (a1, stepped) = match increment {
        Some(expression) => (
            a.push_stmt(Stmt::Expression(ExpressionStmt { expression })).push_list(
                seq![body, a.stmts.len() as usize],
            ).push_stmt(
                Stmt::Block(
                    BlockStmt { statements: ListRef { start: a.lists.len() as usize, len: 2 } },
                ),
            ),
            (a.stmts.len() + 1) as usize,
        ),
        None => (a, body),
    };
    let (a2, test) = match condition {
        Some(expression) => (a1, expression),
        None => (
            a1.push_expr(Expr::Literal(LiteralExpr { value: Literal::Bool(true) })),
            a1.exprs.len() as usize,
        ),
    };
    let a3 = a2.push_stmt(Stmt::While(WhileStmt { condition: test, body: stepped }));
    let looped = a2.stmts.len() as usize;
    match initializer {
        Some(first) => (
            a3.push_list(seq![first, looped]).push_stmt(
                Stmt::Block(
                    BlockStmt { statements: ListRef { start: a3.lists.len() as usize, len: 2 } },
                ),
            ),
            a3.stmts.len() as usize,
        ),
        None => (a3, looped),
    }
}

/// The rest of a for statement after `for`.
pub open spec fn parse_for_statement(t: Seq<Token>, p: nat, a: Ast) -> Parsed<usize>
    decreases left(t, p), 29nat,
{
    if kind_at(t, p) != TokenType::LeftParen {
        fail(0, a, ParseError::ExpectLeftParenAfterFor)
    } else {
        let first = parse_for_initializer(t, p + 1, a);
        match first.result {
            Err(error) => fail(1 + first.used, first.ast, error),
            Ok(initializer) => {
                let second = parse_for_clause(
                    t,
                    p + 1 + first.used,
                    first.ast,
                    TokenType::Semicolon,
                    ParseError::ExpectSemicolonAfterLoopCondition,
                );
                match second.result {
                    Err(error) => fail(1 + first.used + second.used, second.ast, error),
                    Ok(condition) => {
                        let third = parse_for_clause(
                            t,
                            p + 1 + first.used + second.used,
                            second.ast,
                            TokenType::RightParen,
                            ParseError::ExpectRightParenAfterForClauses,
                        );
                        match third.result {
                            Err(error) => fail(
                                1 + first.used + second.used + third.used,
                                third.ast,
                                error,
                            ),
                            Ok(increment) => {
                                let body = parse_statement(
                                    t,
                                    p + 1 + first.used + second.used + third.used,
                                    third.ast,
                                );
                                match body.result {
                                    Err(_) => shift(
                                        body,
                                        1 + first.used + second.used + third.used,
                                    ),
                                    Ok(body_id) => {
                                        let (ast, id) = desugar_for(
                                            body.ast,
                                            initializer,
                                            condition,
                                            increment,
                                            body_id,
                                        );
                                        done(
                                            1 + first.used + second.used + third.used + body.used,
                                            ast,
                                            id,
                                        )
                                    },
                                }
                            },
                        }
                    },
                }
            },
        }
    }
}

/// Declarations from `p` on, added to `seen`, up to and including the
/// closing brace.
pub open spec fn parse_block_items(t: Seq<Token>, p: nat, a: Ast, seen: Seq<usize>) -> Parsed<
    Seq<usize>,
>
    decreases left(t, p), 32nat,
{
    if kind_at(t, p) == TokenType::RightBrace {
        done(1, a, seen)
    } else if kind_at(t, p) == TokenType::Eof {
        fail(0, a, ParseError::ExpectRightBraceAfterBody)
    } else {
        let item = parse_declaration(t, p, a);
        match item.result {
            Err(error) => fail(item.used, item.ast, error),
            Ok(id) => if item.used == 0 {
                // A declaration holds at least one token.
                fail(0, item.ast, ParseError::ExpectRightBraceAfterBody)
            } else {
                shift(parse_block_items(t, p + item.used, item.ast, seen.push(id)), item.used)
            },
        }
    }
}

/// statement: one of the statement forms, told apart by the first token.
pub open spec fn parse_statement(t: Seq<Token>, p: nat, a: Ast) -> Parsed<usize>
    decreases left(t, p), 30nat,
{
    match kind_at(t, p) {
        TokenType::For => shift(parse_for_statement(t, p + 1, a), 1),
        TokenType::If => shift(parse_if_statement(t, p + 1, a), 1),
        TokenType::Print => shift(parse_print_statement(t, p + 1, a), 1),
        TokenType::Return => shift(parse_return_statement(t, p + 1, a, token_at(t, p)), 1),
        TokenType::While => shift(parse_while_statement(t, p + 1, a), 1),
        TokenType::Break => shift(parse_break_statement(t, p + 1, a, token_at(t, p)), 1),
        TokenType::LeftBrace => {
            let block = parse_block_items(t, p + 1, a, Seq::empty());
            match block.result {
                Err(error) => fail(1 + block.used, block.ast, error),
                Ok(items) => done(
                    1 + block.used,
                    block.ast.push_list(items).push_stmt(
                        Stmt::Block(
                            BlockStmt {
                                statements: ListRef {
                                    start: block.ast.lists.len() as usize,
                                    len: items.len() as usize,
                                },
                            },
                        ),
                    ),
                    block.ast.stmts.len() as usize,
                ),
            }
        },
        _ => parse_expression_statement(t, p, a),
    }
}

/// Parameter names from `p` on, separated by commas, added to `seen`.
pub open spec fn parse_parameters(t: Seq<Token>, p: nat, seen: Seq<Token>) -> (Seq<Token>, nat, bool)
    decreases left(t, p),
{
    if kind_at(t, p) != TokenType::Identifier {
        (seen, 0, false)
    } else if kind_at(t, p + 1) == TokenType::Comma {
        let (names, used, ok) = parse_parameters(t, p + 2, seen.push(token_at(t, p)));
        (names, used + 2, ok)
    } else {
        (seen.push(token_at(t, p)), 1, true)
    }
}

/// A function from its name on: name, parameter list, body.
pub open spec fn parse_function(t: Seq<Token>, p: nat, a: Ast) -> Parsed<usize>
    decreases left(t, p), 32nat,
{
    if kind_at(t, p) != TokenType::Identifier {
        fail(0, a, ParseError::ExpectFunctionName)
    } else if kind_at(t, p + 1) != TokenType::LeftParen {
        fail(1, a, ParseError::ExpectLeftParenAfterFunctionName)
    } else {
        let (names, used, ok) = if kind_at(t, p + 2) == TokenType::RightParen {
            (Seq::<Token>::empty(), 0nat, true)
        } else {
            parse_parameters(t, p + 2, Seq::empty())
        };
        if !ok {
            fail(2 + used, a, ParseError::ExpectParameterName)
        } else if kind_at(t, p + 2 + used) != TokenType::RightParen {
            fail(2 + used, a, ParseError::ExpectRightParenAfterParameters)
        } else if kind_at(t, p + 3 + used) != TokenType::LeftBrace {
            fail(3 + used, a, ParseError::ExpectLeftBraceBeforeBody)
        } else {
            let params = ListRef { start: a.params.len() as usize, len: names.len() as usize };
            let block = parse_block_items(t, p + 4 + used, a.push_params(names), Seq::empty());
            match block.result {
                Err(error) => fail(4 + used + block.used, block.ast, error),
                Ok(items) => done(
                    4 + used + block.used,
                    block.ast.push_list(items).push_stmt(
                        Stmt::Fun(
                            FunStmt {
                                name: token_at(t, p),
                                params,
                                body: ListRef {
                                    start: block.ast.lists.len() as usize,
                                    len: items.len() as usize,
                                },
                            },
                        ),
                    ),
                    block.ast.stmts.len() as usize,
                ),
            }
        }
    }
}

/// Method declarations from `p` on, added to `seen`, up to and including
/// the closing brace.
pub open spec fn parse_methods(t: Seq<Token>, p: nat, a: Ast, seen: Seq<usize>) -> Parsed<
    Seq<usize>,
>
    decreases left(t, p), 33nat,
{
    if kind_at(t, p) == TokenType::RightBrace {
        done(1, a, seen)
    } else if kind_at(t, p) == TokenType::Eof {
        fail(0, a, ParseError::ExpectRightBraceAfterClassBody)
    } else {
        let item = parse_function(t, p, a);
        match item.result {
            Err(error) => fail(item.used, item.ast, error),
            Ok(id) => if item.used == 0 {
                // A method holds at least one token.
                fail(0, item.ast, ParseError::ExpectRightBraceAfterClassBody)
            } else {
                shift(parse_methods(t, p + item.used, item.ast, seen.push(id)), item.used)
            },
        }
    }
}

/// The rest of a class declaration after `class`: name, optional
/// `< Superclass`, and the methods between braces.
pub open spec fn parse_class_declaration(t: Seq<Token>, p: nat, a: Ast) -> Parsed<usize>
    decreases left(t, p), 34nat,
{
    if kind_at(t, p) != TokenType::Identifier {
        fail(0, a, ParseError::ExpectClassName)
    } else {
        let inherits = kind_at(t, p + 1) == TokenType::Less;
        if inherits && kind_at(t, p + 2) != TokenType::Identifier {
            fail(2, a, ParseError::ExpectSuperclassName)
        } else {
            let used: nat = if inherits {
                3
            } else {
                1
            };
            let a1 = if inherits {
                a.push_expr(Expr::Variable(VariableExpr { name: token_at(t, p + 2) }))
            } else {
                a
            };
            let superclass = if inherits {
                Some(a.exprs.len() as usize)
            } else {
                None
            };
            if kind_at(t, p + used) != TokenType::LeftBrace {
                fail(used, a1, ParseError::ExpectLeftBraceBeforeClassBody)
            } else {
                let methods = parse_methods(t, p + used + 1, a1, Seq::empty());
                match methods.result {
                    Err(error) => fail(used + 1 + methods.used, methods.ast, error),
                    Ok(items) => done(
                        used + 1 + methods.used,
                        methods.ast.push_list(items).push_stmt(
                            Stmt::Class(
                                ClassStmt {
                                    name: token_at(t, p),
                                    superclass,
                                    methods: ListRef {
                                        start: methods.ast.lists.len() as usize,
                                        len: items.len() as usize,
                                    },
                                },
                            ),
                        ),
                        methods.ast.stmts.len() as usize,
                    ),
                }
            }
        }
    }
}

/// declaration: a class, a function, a variable, or a statement.
pub open spec fn parse_declaration(t: Seq<Token>, p: nat, a: Ast) -> Parsed<usize>
    decreases left(t, p), 31nat,
{
    match kind_at(t, p) {
        TokenType::Class => shift(parse_class_declaration(t, p + 1, a), 1),
        TokenType::Fun => shift(parse_function(t, p + 1, a), 1),
        TokenType::Var => shift(parse_variable_declaration(t, p + 1, a), 1),
        _ => parse_statement(t, p, a),
    }
}

/// Whether a statement can start with a token of this kind.
pub open spec fn starts_statement(kind: TokenType) -> bool {
    match kind {
        TokenType::Class | TokenType::For | TokenType::Fun | TokenType::If | TokenType::Print
        | TokenType::Return | TokenType::Var | TokenType::While => true,
        _ => false,
    }
}

/// How many tokens error recovery skips from `p` on: up to the end, to
/// just after a semicolon, or to a token that starts a statement.
pub open spec fn skipped(t: Seq<Token>, p: nat) -> nat
    decreases left(t, p),
{
    if kind_at(t, p) == TokenType::Eof {
        0
    } else if p >= 1 && kind_at(t, (p - 1) as nat) == TokenType::Semicolon {
        0
    } else if starts_statement(kind_at(t, p)) {
        0
    } else {
        1 + skipped(t, p + 1)
    }
}

/// The whole program from `p` on. A declaration that fails is reported
/// with the token the parser stood at, and parsing resumes at the next
/// statement boundary.
pub open spec fn parse_program(
    t: Seq<Token>,
    p: nat,
    a: Ast,
    body: Seq<usize>,
    errors: Seq<ParseDiagnostic>,
) -> ParsedProgram
    decreases left(t, p),
{
    if kind_at(t, p) == TokenType::Eof {
        ParsedProgram { body, errors, ast: a }
    } else {
        let item = parse_declaration(t, p, a);
        match item.result {
            Ok(id) => if item.used == 0 {
                // A declaration holds at least one token.
                ParsedProgram { body, errors, ast: item.ast }
            } else {
                parse_program(t, p + item.used, item.ast, body.push(id), errors)
            },
            Err(error) => {
                let at = p + item.used;
                let report = errors.push(ParseDiagnostic { token: token_at(t, at), error });
                if kind_at(t, at) == TokenType::Eof {
                    ParsedProgram { body, errors: report, ast: item.ast }
                } else {
                    parse_program(t, at + 1 + skipped(t, at + 1), item.ast, body, report)
                }
            },
        }
    }
}

/// What parsing `tokens` from the start yields.
pub open spec fn parse(tokens: Seq<Token>) -> ParsedProgram {
    parse_program(tokens, 0, Ast::empty(), Seq::empty(), Seq::empty())
}


/// A statement that parses holds at least one token.
pub proof fn lemma_statement_takes_a_token(t: Seq<Token>, p: nat, a: Ast)
    ensures
        parse_statement(t, p, a).result is Ok ==> parse_statement(t, p, a).used >= 1,
{
}

/// A function that parses holds at least one token.
pub proof fn lemma_function_takes_a_token(t: Seq<Token>, p: nat, a: Ast)
    ensures
        parse_function(t, p, a).result is Ok ==> parse_function(t, p, a).used >= 1,
{
}

/// A declaration that parses holds at least one token, so the lists of
/// declarations in blocks, class bodies and programs never stand still.
pub proof fn lemma_declaration_takes_a_token(t: Seq<Token>, p: nat, a: Ast)
    ensures
        parse_declaration(t, p, a).result is Ok ==> parse_declaration(t, p, a).used >= 1,
{
    lemma_statement_takes_a_token(t, p, a);
}

/// Whether two outcomes that carry a list agree.
pub open spec fn same_list(
    found: Result<Vec<usize>, ParseError>,
    expected: Result<Seq<usize>, ParseError>,
) -> bool {
    match (found, expected) {
        (Ok(items), Ok(wanted)) => items@ == wanted,
        (Err(error), Err(wanted)) => error == wanted,
        _ => false,
    }
}

/// A recursive-descent parser over one token sequence.
pub struct Parser {
    pub tokens: Vec<Token>,
    pub current: usize,
    pub program: Program,
    pub errors: Vec<ParseDiagnostic>,
}

impl Parser {
    /// The tokens end with the end-of-file token and the position is
    /// inside them.
    pub open spec fn wf(&self) -> bool {
        &&& self.tokens@.len() > 0
        &&& self.tokens@.last().token_type == TokenType::Eof
        &&& self.current < self.tokens@.len()
    }

    /// Whether this parser is `before` after a rule with the outcome
    /// `parsed` has run. The tables only grow, and the tables of a tree
    /// stay those of a tree.
    pub open spec fn follows<T>(&self, before: Parser, parsed: Parsed<T>) -> bool {
        &&& self.wf()
        &&& self.tokens@ == before.tokens@
        &&& self.errors@ == before.errors@
        &&& self.current == before.current + parsed.used
        &&& self.program@ == parsed.ast
        &&& before.program.exprs@.len() <= self.program.exprs@.len()
        &&& before.program.stmts@.len() <= self.program.stmts@.len()
        &&& before.program.params@.len() <= self.program.params@.len()
        &&& before.program@.well_formed() ==> self.program@.well_formed()
    }

    /// `follows`, for a rule that yields an expression: the node exists,
    /// and a rule that succeeds takes at least one token.
    pub open spec fn follows_expr(
        &self,
        before: Parser,
        parsed: Parsed<usize>,
        found: Result<usize, ParseError>,
    ) -> bool {
        &&& self.follows(before, parsed)
        &&& found == parsed.result
        &&& found is Ok ==> found->Ok_0 < self.program.exprs@.len() && parsed.used >= 1
    }

    /// `follows`, for a rule that yields a statement: the node exists,
    /// and a rule that succeeds takes at least one token.
    pub open spec fn follows_stmt(
        &self,
        before: Parser,
        parsed: Parsed<usize>,
        found: Result<usize, ParseError>,
    ) -> bool {
        &&& self.follows(before, parsed)
        &&& found == parsed.result
        &&& found is Ok ==> found->Ok_0 < self.program.stmts@.len() && parsed.used >= 1
    }

    /// `follows`, for a rule that yields a list of nodes, each of which
    /// is below `limit`.
    pub open spec fn follows_list(
        &self,
        before: Parser,
        parsed: Parsed<Seq<usize>>,
        found: Result<Vec<usize>, ParseError>,
        limit: int,
    ) -> bool {
        &&& self.follows(before, parsed)
        &&& same_list(found, parsed.result)
        &&& found is Ok ==> parsed.used >= 1
        &&& found is Ok ==> forall|k: int|
            0 <= k < found->Ok_0@.len() ==> (#[trigger] found->Ok_0@[k]) < limit
    }

    /// A parser at the start of `tokens`, which must end with the
    /// end-of-file token.
    pub fn new(tokens: Vec<Token>) -> (parser: Parser)
        requires
            tokens@.len() > 0,
            tokens@.last().token_type == TokenType::Eof,
        ensures
            parser.wf(),
            parser.tokens == tokens,
            parser.current == 0,
            parser.program@ == Ast::empty(),
            parser.program@.well_formed(),
            parser.errors@ == Seq::<ParseDiagnostic>::empty(),
    {
        Parser { tokens, current: 0, program: Program::new(), errors: Vec::new() }
    }

    /// Parses what is left of the tokens. Returns the top-level
    /// statements that parsed; the errors met are added to `errors`.
    #[verifier::loop_isolation(false)]
    pub fn parse(&mut self) -> (result: Result<Vec<usize>, ParserError>)
        requires
            old(self).wf(),
        ensures
            final(self).wf(),
            final(self).tokens@ == old(self).tokens@,
            old(self).program@.well_formed() ==> final(self).program@.well_formed(),
            result is Ok ==> forall|k: int|
                0 <= k < result->Ok_0@.len() ==> (#[trigger] result->Ok_0@[k])
                    < final(self).program.stmts@.len(),
            result is Ok,
            ({
                let all = parse_program(
                    old(self).tokens@,
                    old(self).current as nat,
                    old(self).program@,
                    Seq::empty(),
                    old(self).errors@,
                );
                &&& result->Ok_0@ == all.body
                &&& final(self).errors@ == all.errors
                &&& final(self).program@ == all.ast
            }),
    {
        let mut body: Vec<usize> = Vec::new();
        let ghost t = self.tokens@;
        let ghost goal = parse_program(
            t,
            self.current as nat,
            self.program@,
            Seq::empty(),
            self.errors@,
        );
        let mut stop = self.is_at_end();
        while !stop
            invariant
                self.wf(),
                self.tokens@ == t,
                t == old(self).tokens@,
                stop ==> kind_at(t, self.current as nat) == TokenType::Eof || goal == (ParsedProgram {
                    body: body@,
                    errors: self.errors@,
                    ast: self.program@,
                }),
                old(self).program@.well_formed() ==> self.program@.well_formed(),
                forall|k: int| 0 <= k < body@.len() ==> (#[trigger] body@[k]) < self.program.stmts@.len(),
                goal == parse_program(t, self.current as nat, self.program@, body@, self.errors@),
            decreases t.len() - self.current, if stop { 0nat } else { 1nat },
        {
            if self.is_at_end() {
                stop = true;
            } else {
                match self.declaration() {
                    Ok(id) => {
                        body.push(id);
                    },
                    Err(error) => {
                        let token = self.peek();
                        self.errors.push(ParseDiagnostic { token, error });
                        self.synchronize();
                    },
                }
            }
        }
        Ok(body)
    }

    fn declaration(&mut self) -> (r: Result<usize, ParseError>)
        requires
            old(self).wf(),
        ensures
            final(self).follows_stmt(
                *old(self),
                parse_declaration(old(self).tokens@, old(self).current as nat, old(self).program@),
                r,
            ),
        decreases old(self).tokens@.len() - old(self).current, 31nat,
    {
        match self.peek().token_type {
            TokenType::Class => {
                self.advance();
                self.class_declaration()
            },
            TokenType::Fun => {
                self.advance();
                self.function()
            },
            TokenType::Var => {
                self.advance();
                self.variable_declaration()
            },
            _ => self.statement(),
        }
    }

    fn class_declaration(&mut self) -> (r: Result<usize, ParseError>)
        requires
            old(self).wf(),
        ensures
            final(self).follows(
                *old(self),
                parse_class_declaration(
                    old(self).tokens@,
                    old(self).current as nat,
                    old(self).program@,
                ),
            ),
            r == parse_class_declaration(
                old(self).tokens@,
                old(self).current as nat,
                old(self).program@,
            ).result,
            r is Ok ==> r->Ok_0 < final(self).program.stmts@.len(),
        decreases old(self).tokens@.len() - old(self).current, 34nat,
    {
        let ghost t = self.tokens@;
        let name = match self.consume(TokenType::Identifier, ParseError::ExpectClassName) {
            Ok(token) => token,
            Err(error) => {
                return Err(error);
            },
        };
        let mut superclass: Option<usize> = None;
        if self.match_token(TokenType::Less) {
            let parent = match self.consume(
                TokenType::Identifier,
                ParseError::ExpectSuperclassName,
            ) {
                Ok(token) => token,
                Err(error) => {
                    return Err(error);
                },
            };
            superclass = Some(
                self.program.push_expr(Expr::Variable(VariableExpr::new(parent))),
            );
        }
        match self.consume(TokenType::LeftBrace, ParseError::ExpectLeftBraceBeforeClassBody) {
            Ok(_) => {},
            Err(error) => {
                return Err(error);
            },
        }
        let methods = match self.methods() {
            Ok(items) => items,
            Err(error) => {
                return Err(error);
            },
        };
        Ok(self.program.push_class(name, superclass, &methods))
    }

    /// The methods of a class whose opening brace has been taken, up to
    /// and including the closing brace.
    #[verifier::loop_isolation(false)]
    fn methods(&mut self) -> (r: Result<Vec<usize>, ParseError>)
        requires
            old(self).wf(),
        ensures
            final(self).follows_list(
                *old(self),
                parse_methods(
                    old(self).tokens@,
                    old(self).current as nat,
                    old(self).program@,
                    Seq::empty(),
                ),
                r,
                final(self).program.stmts@.len() as int,
            ),
        decreases old(self).tokens@.len() - old(self).current, 33nat,
    {
        let ghost t = self.tokens@;
        let ghost start = self.current as nat;
        let ghost goal = parse_methods(t, start, self.program@, Seq::empty());
        let mut methods: Vec<usize> = Vec::new();
        while !self.check(TokenType::RightBrace) && !self.is_at_end()
            invariant
                self.wf(),
                self.tokens@ == t,
                self.errors@ == old(self).errors@,
                start <= self.current,
                old(self).program.exprs@.len() <= self.program.exprs@.len(),
                old(self).program.stmts@.len() <= self.program.stmts@.len(),
                old(self).program.params@.len() <= self.program.params@.len(),
                old(self).program@.well_formed() ==> self.program@.well_formed(),
                forall|k: int|
                    0 <= k < methods@.len() ==> (#[trigger] methods@[k]) < self.program.stmts@.len(),
                goal == shift(
                    parse_methods(t, self.current as nat, self.program@, methods@),
                    (self.current - start) as nat,
                ),
            decreases t.len() - self.current,
        {
            match self.function() {
                Ok(id) => {
                    methods.push(id);
                },
                Err(error) => {
                    return Err(error);
                },
            }
        }
        match self.consume(TokenType::RightBrace, ParseError::ExpectRightBraceAfterClassBody) {
            Ok(_) => Ok(methods),
            Err(error) => Err(error),
        }
    }

    #[verifier::loop_isolation(false)]
    fn function(&mut self) -> (r: Result<usize, ParseError>)
        requires
            old(self).wf(),
        ensures
            final(self).follows_stmt(
                *old(self),
                parse_function(old(self).tokens@, old(self).current as nat, old(self).program@),
                r,
            ),
        decreases old(self).tokens@.len() - old(self).current, 32nat,
    {
        let ghost t = self.tokens@;
        let name = match self.consume(TokenType::Identifier, ParseError::ExpectFunctionName) {
            Ok(token) => token,
            Err(error) => {
                return Err(error);
            },
        };
        match self.consume(TokenType::LeftParen, ParseError::ExpectLeftParenAfterFunctionName) {
            Ok(_) => {},
            Err(error) => {
                return Err(error);
            },
        }
        let parameters: Vec<Token> = if self.check(TokenType::RightParen) {
            Vec::new()
        } else {
            match self.parameters() {
                Some(names) => names,
                None => {
                    return Err(ParseError::ExpectParameterName);
                },
            }
        };
        match self.consume(TokenType::RightParen, ParseError::ExpectRightParenAfterParameters) {
            Ok(_) => {},
            Err(error) => {
                return Err(error);
            },
        }
        match self.consume(TokenType::LeftBrace, ParseError::ExpectLeftBraceBeforeBody) {
            Ok(_) => {},
            Err(error) => {
                return Err(error);
            },
        }
        let params = self.program.push_params(&parameters);
        let body = match self.block() {
            Ok(items) => items,
            Err(error) => {
                return Err(error);
            },
        };
        Ok(self.program.push_function(name, params, &body))
    }

    /// Parameter names separated by commas; none when a name is missing.
    #[verifier::loop_isolation(false)]
    fn parameters(&mut self) -> (r: Option<Vec<Token>>)
        requires
            old(self).wf(),
        ensures
            final(self).wf(),
            final(self).tokens == old(self).tokens,
            final(self).errors == old(self).errors,
            final(self).program == old(self).program,
            ({
                let (names, used, ok) = parse_parameters(
                    old(self).tokens@,
                    old(self).current as nat,
                    Seq::empty(),
                );
                &&& final(self).current == old(self).current + used
                &&& ok == (r is Some)
                &&& r is Some ==> r->Some_0@ == names
            }),
    {
        let ghost t = self.tokens@;
        let ghost start = self.current as nat;
        let ghost goal = parse_parameters(t, start, Seq::empty());
        let mut parameters: Vec<Token> = Vec::new();
        let mut more = true;
        while more
            invariant
                self.wf(),
                self.tokens == old(self).tokens,
                self.errors == old(self).errors,
                self.program == old(self).program,
                start <= self.current,
                more ==> goal == ({
                    let (names, used, ok) = parse_parameters(t, self.current as nat, parameters@);
                    (names, (used + self.current - start) as nat, ok)
                }),
                !more ==> goal == (parameters@, (self.current - start) as nat, true),
            decreases t.len() - self.current, if more { 1nat } else { 0nat },
        {
            match self.consume(TokenType::Identifier, ParseError::ExpectParameterName) {
                Ok(token) => {
                    parameters.push(token);
                },
                Err(_) => {
                    return None;
                },
            }
            if !self.match_token(TokenType::Comma) {
                more = false;
            }
        }
        Some(parameters)
    }

    fn statement(&mut self) -> (r: Result<usize, ParseError>)
        requires
            old(self).wf(),
        ensures
            final(self).follows_stmt(
                *old(self),
                parse_statement(old(self).tokens@, old(self).current as nat, old(self).program@),
                r,
            ),
        decreases old(self).tokens@.len() - old(self).current, 30nat,
    {
        match self.peek().token_type {
            TokenType::For => {
                self.advance();
                self.for_statement()
            },
            TokenType::If => {
                self.advance();
                self.if_statement()
            },
            TokenType::Print => {
                self.advance();
                self.print_statement()
            },
            TokenType::Return => {
                self.advance();
                self.return_statement()
            },
            TokenType::While => {
                self.advance();
                self.while_statement()
            },
            TokenType::Break => {
                self.advance();
                self.break_statement()
            },
            TokenType::LeftBrace => {
                self.advance();
                match self.block() {
                    Err(error) => Err(error),
                    Ok(items) => {
                        Ok(self.program.push_block(&items))
                    },
                }
            },
            _ => self.expression_statement(),
        }
    }

    /// The statement after `return`, which has just been taken.
    fn return_statement(&mut self) -> (r: Result<usize, ParseError>)
        requires
            old(self).wf(),
            old(self).current >= 1,
        ensures
            final(self).follows(
                *old(self),
                parse_return_statement(
                    old(self).tokens@,
                    old(self).current as nat,
                    old(self).program@,
                    old(self).tokens@[old(self).current - 1],
                ),
            ),
            r == parse_return_statement(
                old(self).tokens@,
                old(self).current as nat,
                old(self).program@,
                old(self).tokens@[old(self).current - 1],
            ).result,
            r is Ok ==> r->Ok_0 < final(self).program.stmts@.len(),
        decreases old(self).tokens@.len() - old(self).current, 27nat,
    {
        let keyword = self.previous();
        if self.check(TokenType::Semicolon) {
            self.advance();
            return Ok(self.program.push_stmt(Stmt::Return(ReturnStmt::new(keyword, None))));
        }
        match self.closed_expression(TokenType::Semicolon, ParseError::ExpectSemicolonAfterReturn) {
            Err(error) => Err(error),
            Ok(value) => Ok(
                self.program.push_stmt(Stmt::Return(ReturnStmt::new(keyword, Some(value)))),
            ),
        }
    }

    /// The statement after `break`, which has just been taken.
    fn break_statement(&mut self) -> (r: Result<usize, ParseError>)
        requires
            old(self).wf(),
            old(self).current >= 1,
        ensures
            final(self).follows(
                *old(self),
                parse_break_statement(
                    old(self).tokens@,
                    old(self).current as nat,
                    old(self).program@,
                    old(self).tokens@[old(self).current - 1],
                ),
            ),
            r == parse_break_statement(
                old(self).tokens@,
                old(self).current as nat,
                old(self).program@,
                old(self).tokens@[old(self).current - 1],
            ).result,
            r is Ok ==> r->Ok_0 < final(self).program.stmts@.len(),
    {
        let keyword = self.previous();
        match self.consume(TokenType::Semicolon, ParseError::ExpectSemicolonAfterBreak) {
            Err(error) => Err(error),
            Ok(_) => Ok(self.program.push_stmt(Stmt::Break(BreakStmt::new(keyword)))),
        }
    }

    fn for_statement(&mut self) -> (r: Result<usize, ParseError>)
        requires
            old(self).wf(),
        ensures
            final(self).follows(
                *old(self),
                parse_for_statement(old(self).tokens@, old(self).current as nat, old(self).program@),
            ),
            r == parse_for_statement(
                old(self).tokens@,
                old(self).current as nat,
                old(self).program@,
            ).result,
            r is Ok ==> r->Ok_0 < final(self).program.stmts@.len(),
        decreases old(self).tokens@.len() - old(self).current, 29nat,
    {
        match self.consume(TokenType::LeftParen, ParseError::ExpectLeftParenAfterFor) {
            Ok(_) => {},
            Err(error) => {
                return Err(error);
            },
        }
        let initializer = match self.for_initializer() {
            Ok(clause) => clause,
            Err(error) => {
                return Err(error);
            },
        };
        let condition = match self.for_clause(
            TokenType::Semicolon,
            ParseError::ExpectSemicolonAfterLoopCondition,
        ) {
            Ok(clause) => clause,
            Err(error) => {
                return Err(error);
            },
        };
        let increment = match self.for_clause(
            TokenType::RightParen,
            ParseError::ExpectRightParenAfterForClauses,
        ) {
            Ok(clause) => clause,
            Err(error) => {
                return Err(error);
            },
        };
        match self.statement() {
            Err(error) => Err(error),
            Ok(body) => Ok(self.desugar_for(initializer, condition, increment, body)),
        }
    }

    /// The first clause of a for statement.
    fn for_initializer(&mut self) -> (r: Result<Option<usize>, ParseError>)
        requires
            old(self).wf(),
        ensures
            final(self).follows(
                *old(self),
                parse_for_initializer(
                    old(self).tokens@,
                    old(self).current as nat,
                    old(self).program@,
                ),
            ),
            r == parse_for_initializer(
                old(self).tokens@,
                old(self).current as nat,
                old(self).program@,
            ).result,
            r matches Ok(Some(id)) ==> id < final(self).program.stmts@.len(),
        decreases old(self).tokens@.len() - old(self).current, 28nat,
    {
        if self.match_token(TokenType::Semicolon) {
            Ok(None)
        } else if self.match_token(TokenType::Var) {
            match self.variable_declaration() {
                Ok(id) => Ok(Some(id)),
                Err(error) => Err(error),
            }
        } else {
            match self.expression_statement() {
                Ok(id) => Ok(Some(id)),
                Err(error) => Err(error),
            }
        }
    }

    /// Builds the statement a for loop stands for out of its clauses and
    /// body.
    fn desugar_for(
        &mut self,
        initializer: Option<usize>,
        condition: Option<usize>,
        increment: Option<usize>,
        body: usize,
    ) -> (id: usize)
        requires
            body < old(self).program.stmts@.len(),
            initializer matches Some(first) ==> first < old(self).program.stmts@.len(),
            condition matches Some(test) ==> test < old(self).program.exprs@.len(),
            increment matches Some(step) ==> step < old(self).program.exprs@.len(),
        ensures
            id < final(self).program.stmts@.len(),
            old(self).program.stmts@.len() <= final(self).program.stmts@.len(),
            old(self).program.params@.len() <= final(self).program.params@.len(),
            old(self).program@.well_formed() ==> final(self).program@.well_formed(),
            (final(self).program@, id) == desugar_for(
                old(self).program@,
                initializer,
                condition,
                increment,
                body,
            ),
            final(self).tokens == old(self).tokens,
            final(self).errors == old(self).errors,
            final(self).current == old(self).current,
            old(self).program.exprs@.len() <= final(self).program.exprs@.len(),
    {
        let mut body = body;
        if let Some(expression) = increment {
            let step = self.program.push_stmt(Stmt::Expression(ExpressionStmt::new(expression)));
            let mut pair: Vec<usize> = Vec::new();
            pair.push(body);
            pair.push(step);
            assert(pair@ =~= seq![body, step]);
            body = self.program.push_block(&pair);
        }
        let test = match condition {
            Some(expression) => expression,
            None => self.program.push_expr(Expr::Literal(LiteralExpr::new(Literal::Bool(true)))),
        };
        body = self.program.push_stmt(Stmt::While(WhileStmt::new(test, body)));
        if let Some(first) = initializer {
            let mut pair: Vec<usize> = Vec::new();
            pair.push(first);
            pair.push(body);
            assert(pair@ =~= seq![first, body]);
            body = self.program.push_block(&pair);
        }
        body
    }

    /// An optional expression and the token `closer` after it.
    fn for_clause(&mut self, closer: TokenType, error: ParseError) -> (r: Result<
        Option<usize>,
        ParseError,
    >)
        requires
            old(self).wf(),
            closer != TokenType::Eof,
        ensures
            final(self).follows(
                *old(self),
                parse_for_clause(
                    old(self).tokens@,
                    old(self).current as nat,
                    old(self).program@,
                    closer,
                    error,
                ),
            ),
            r == parse_for_clause(
                old(self).tokens@,
                old(self).current as nat,
                old(self).program@,
                closer,
                error,
            ).result,
            r matches Ok(Some(id)) ==> id < final(self).program.exprs@.len(),
        decreases old(self).tokens@.len() - old(self).current, 28nat,
    {
        if self.check(closer) {
            self.advance();
            return Ok(None);
        }
        match self.closed_expression(closer, error) {
            Err(error) => Err(error),
            Ok(id) => Ok(Some(id)),
        }
    }

    fn while_statement(&mut self) -> (r: Result<usize, ParseError>)
        requires
            old(self).wf(),
        ensures
            final(self).follows(
                *old(self),
                parse_while_statement(
                    old(self).tokens@,
                    old(self).current as nat,
                    old(self).program@,
                ),
            ),
            r == parse_while_statement(
                old(self).tokens@,
                old(self).current as nat,
                old(self).program@,
            ).result,
            r is Ok ==> r->Ok_0 < final(self).program.stmts@.len(),
        decreases old(self).tokens@.len() - old(self).current, 28nat,
    {
        match self.consume(TokenType::LeftParen, ParseError::ExpectLeftParenAfterWhile) {
            Ok(_) => {},
            Err(error) => {
                return Err(error);
            },
        }
        let condition = match self.closed_expression(
            TokenType::RightParen,
            ParseError::ExpectRightParenAfterCondition,
        ) {
            Ok(id) => id,
            Err(error) => {
                return Err(error);
            },
        };
        match self.statement() {
            Err(error) => Err(error),
            Ok(body) => Ok(self.program.push_stmt(Stmt::While(WhileStmt::new(condition, body)))),
        }
    }

    fn if_statement(&mut self) -> (r: Result<usize, ParseError>)
        requires
            old(self).wf(),
        ensures
            final(self).follows(
                *old(self),
                parse_if_statement(old(self).tokens@, old(self).current as nat, old(self).program@),
            ),
            r == parse_if_statement(
                old(self).tokens@,
                old(self).current as nat,
                old(self).program@,
            ).result,
            r is Ok ==> r->Ok_0 < final(self).program.stmts@.len(),
        decreases old(self).tokens@.len() - old(self).current, 28nat,
    {
        match self.consume(TokenType::LeftParen, ParseError::ExpectLeftParenAfterIf) {
            Ok(_) => {},
            Err(error) => {
                return Err(error);
            },
        }
        let condition = match self.closed_expression(
            TokenType::RightParen,
            ParseError::ExpectRightParenAfterIf,
        ) {
            Ok(id) => id,
            Err(error) => {
                return Err(error);
            },
        };
        let then_branch = match self.statement() {
            Ok(id) => id,
            Err(error) => {
                return Err(error);
            },
        };
        match self.else_branch() {
            Err(error) => Err(error),
            Ok(else_branch) => Ok(
                self.program.push_stmt(Stmt::If(IfStmt::new(condition, then_branch, else_branch))),
            ),
        }
    }

    /// An optional else branch.
    fn else_branch(&mut self) -> (r: Result<Option<usize>, ParseError>)
        requires
            old(self).wf(),
        ensures
            final(self).follows(
                *old(self),
                parse_else(old(self).tokens@, old(self).current as nat, old(self).program@),
            ),
            r == parse_else(
                old(self).tokens@,
                old(self).current as nat,
                old(self).program@,
            ).result,
            r matches Ok(Some(id)) ==> id < final(self).program.stmts@.len(),
        decreases old(self).tokens@.len() - old(self).current, 28nat,
    {
        if self.match_token(TokenType::Else) {
            match self.statement() {
                Ok(id) => Ok(Some(id)),
                Err(error) => Err(error),
            }
        } else {
            Ok(None)
        }
    }

    /// The declarations of a block whose opening brace has been taken, up
    /// to and including the closing brace.
    #[verifier::loop_isolation(false)]
    fn block(&mut self) -> (r: Result<Vec<usize>, ParseError>)
        requires
            old(self).wf(),
        ensures
            final(self).follows_list(
                *old(self),
                parse_block_items(
                    old(self).tokens@,
                    old(self).current as nat,
                    old(self).program@,
                    Seq::empty(),
                ),
                r,
                final(self).program.stmts@.len() as int,
            ),
        decreases old(self).tokens@.len() - old(self).current, 32nat,
    {
        let ghost t = self.tokens@;
        let ghost start = self.current as nat;
        let ghost goal = parse_block_items(t, start, self.program@, Seq::empty());
        let mut statements: Vec<usize> = Vec::new();
        while !self.check(TokenType::RightBrace) && !self.is_at_end()
            invariant
                self.wf(),
                self.tokens@ == t,
                t == old(self).tokens@,
                self.errors@ == old(self).errors@,
                start <= self.current,
                old(self).current <= start,
                old(self).program.exprs@.len() <= self.program.exprs@.len(),
                old(self).program.stmts@.len() <= self.program.stmts@.len(),
                old(self).program.params@.len() <= self.program.params@.len(),
                old(self).program@.well_formed() ==> self.program@.well_formed(),
                forall|k: int|
                    0 <= k < statements@.len() ==> (#[trigger] statements@[k])
                        < self.program.stmts@.len(),
                goal == shift(
                    parse_block_items(t, self.current as nat, self.program@, statements@),
                    (self.current - start) as nat,
                ),
            decreases t.len() - self.current,
        {
            match self.declaration() {
                Ok(id) => {
                    statements.push(id);
                },
                Err(error) => {
                    return Err(error);
                },
            }
        }
        match self.consume(TokenType::RightBrace, ParseError::ExpectRightBraceAfterBody) {
            Ok(_) => Ok(statements),
            Err(error) => Err(error),
        }
    }

    fn print_statement(&mut self) -> (r: Result<usize, ParseError>)
        requires
            old(self).wf(),
        ensures
            final(self).follows(
                *old(self),
                parse_print_statement(
                    old(self).tokens@,
                    old(self).current as nat,
                    old(self).program@,
                ),
            ),
            r == parse_print_statement(
                old(self).tokens@,
                old(self).current as nat,
                old(self).program@,
            ).result,
            r is Ok ==> r->Ok_0 < final(self).program.stmts@.len(),
        decreases old(self).tokens@.len() - old(self).current, 27nat,
    {
        match self.closed_expression(TokenType::Semicolon, ParseError::ExpectSemicolonAfterValue) {
            Err(error) => Err(error),
            Ok(value) => Ok(self.program.push_stmt(Stmt::Print(PrintStmt::new(value)))),
        }
    }

    fn variable_declaration(&mut self) -> (r: Result<usize, ParseError>)
        requires
            old(self).wf(),
        ensures
            final(self).follows(
                *old(self),
                parse_variable_declaration(
                    old(self).tokens@,
                    old(self).current as nat,
                    old(self).program@,
                ),
            ),
            r == parse_variable_declaration(
                old(self).tokens@,
                old(self).current as nat,
                old(self).program@,
            ).result,
            r is Ok ==> r->Ok_0 < final(self).program.stmts@.len(),
        decreases old(self).tokens@.len() - old(self).current, 27nat,
    {
        let name = match self.consume(TokenType::Identifier, ParseError::ExpectVariableName) {
            Ok(token) => token,
            Err(error) => {
                return Err(error);
            },
        };
        if self.match_token(TokenType::Equal) {
            match self.closed_expression(
                TokenType::Semicolon,
                ParseError::ExpectSemicolonAfterVariableDeclaration,
            ) {
                Err(error) => Err(error),
                Ok(value) => Ok(
                    self.program.push_stmt(Stmt::Var(VarStmt::new(name, Some(value)))),
                ),
            }
        } else {
            match self.consume(
                TokenType::Semicolon,
                ParseError::ExpectSemicolonAfterVariableDeclaration,
            ) {
                Err(error) => Err(error),
                Ok(_) => Ok(self.program.push_stmt(Stmt::Var(VarStmt::new(name, None)))),
            }
        }
    }

    fn expression_statement(&mut self) -> (r: Result<usize, ParseError>)
        requires
            old(self).wf(),
        ensures
            final(self).follows_stmt(
                *old(self),
                parse_expression_statement(
                    old(self).tokens@,
                    old(self).current as nat,
                    old(self).program@,
                ),
                r,
            ),
        decreases old(self).tokens@.len() - old(self).current, 27nat,
    {
        match self.closed_expression(
            TokenType::Semicolon,
            ParseError::ExpectSemicolonAfterExpression,
        ) {
            Err(error) => Err(error),
            Ok(value) => Ok(self.program.push_stmt(Stmt::Expression(ExpressionStmt::new(value)))),
        }
    }

    /// An expression and the token `closer` after it.
    fn closed_expression(&mut self, closer: TokenType, error: ParseError) -> (r: Result<
        usize,
        ParseError,
    >)
        requires
            old(self).wf(),
            closer != TokenType::Eof,
        ensures
            final(self).follows_expr(
                *old(self),
                parse_closed_expression(
                    old(self).tokens@,
                    old(self).current as nat,
                    old(self).program@,
                    closer,
                    error,
                ),
                r,
            ),
        decreases old(self).tokens@.len() - old(self).current, 26nat,
    {
        match self.expression() {
            Err(error) => Err(error),
            Ok(value) => match self.consume(closer, error) {
                Err(error) => Err(error),
                Ok(_) => Ok(value),
            },
        }
    }

    fn expression(&mut self) -> (r: Result<usize, ParseError>)
        requires
            old(self).wf(),
        ensures
            final(self).follows_expr(
                *old(self),
                parse_expression(old(self).tokens@, old(self).current as nat, old(self).program@),
                r,
            ),
        decreases old(self).tokens@.len() - old(self).current, 25nat,
    {
        self.assignment()
    }

    fn assignment(&mut self) -> (r: Result<usize, ParseError>)
        requires
            old(self).wf(),
        ensures
            final(self).follows_expr(
                *old(self),
                parse_assignment(old(self).tokens@, old(self).current as nat, old(self).program@),
                r,
            ),
        decreases old(self).tokens@.len() - old(self).current, 24nat,
    {
        let target = self.binary(6);
        if self.match_token(TokenType::Equal) {
            let value = match self.assignment() {
                Ok(id) => id,
                Err(error) => {
                    return Err(error);
                },
            };
            proof {
                if target is Ok && self.program@.well_formed() {
                    lemma_expr_ok(self.program@, target->Ok_0);
                }
            }
            match target {
                Err(error) => Err(error),
                Ok(id) => match self.program.exprs[id] {
                    Expr::Variable(variable) => Ok(
                        self.program.push_expr(Expr::Assign(AssignExpr::new(variable.name, value))),
                    ),
                    Expr::Get(get) => Ok(
                        self.program.push_expr(
                            Expr::SetProperty(SetExpr::new(get.object, get.name, value)),
                        ),
                    ),
                    _ => Err(ParseError::InvalidAssignmentTarget),
                },
            }
        } else {
            target
        }
    }

    /// Whether `kind` is a binary operator of the given level.
    fn is_operator(level: usize, kind: TokenType) -> (r: bool)
        ensures
            r == is_operator(level as nat, kind),
    {
        match kind {
            TokenType::Slash | TokenType::Star => level == 1,
            TokenType::Minus | TokenType::Plus => level == 2,
            TokenType::Greater | TokenType::GreaterEqual | TokenType::Less | TokenType::LessEqual => level
                == 3,
            TokenType::BangEqual | TokenType::EqualEqual => level == 4,
            TokenType::And => level == 5,
            TokenType::Or => level == 6,
            _ => false,
        }
    }

    /// A binary expression of the given precedence level, from the
    /// tightest, 1, to the loosest, 6.
    #[verifier::loop_isolation(false)]
    fn binary(&mut self, level: usize) -> (r: Result<usize, ParseError>)
        requires
            old(self).wf(),
            level <= 6,
        ensures
            final(self).follows_expr(
                *old(self),
                parse_binary(
                    level as nat,
                    old(self).tokens@,
                    old(self).current as nat,
                    old(self).program@,
                ),
                r,
            ),
        decreases old(self).tokens@.len() - old(self).current, 3 * level + 5,
    {
        let ghost t = self.tokens@;
        let ghost start = self.current as nat;
        let ghost goal = parse_binary(level as nat, t, start, self.program@);
        let mut lhs = match self.operand(level) {
            Ok(id) => id,
            Err(error) => {
                return Err(error);
            },
        };
        while Self::is_operator(level, self.peek().token_type)
            invariant
                self.wf(),
                self.tokens@ == t,
                t == old(self).tokens@,
                self.errors@ == old(self).errors@,
                level <= 6,
                start < self.current,
                old(self).current <= start,
                lhs < self.program.exprs@.len(),
                old(self).program.exprs@.len() <= self.program.exprs@.len(),
                old(self).program.stmts@.len() <= self.program.stmts@.len(),
                old(self).program.params@.len() <= self.program.params@.len(),
                old(self).program@.well_formed() ==> self.program@.well_formed(),
                goal == shift(
                    parse_binary_rest(level as nat, t, self.current as nat, self.program@, lhs),
                    (self.current - start) as nat,
                ),
            decreases t.len() - self.current,
        {
            let operator = self.advance();
            let right = match self.operand(level) {
                Ok(id) => id,
                Err(error) => {
                    return Err(error);
                },
            };
            lhs = if level >= 5 {
                self.program.push_expr(Expr::Logical(LogicalExpr::new(lhs, operator, right)))
            } else {
                self.program.push_expr(Expr::Binary(BinaryExpr::new(lhs, operator, right)))
            };
        }
        Ok(lhs)
    }

    /// The operand of a binary operator of the given level.
    fn operand(&mut self, level: usize) -> (r: Result<usize, ParseError>)
        requires
            old(self).wf(),
            level <= 6,
        ensures
            final(self).follows_expr(
                *old(self),
                parse_operand(
                    level as nat,
                    old(self).tokens@,
                    old(self).current as nat,
                    old(self).program@,
                ),
                r,
            ),
        decreases old(self).tokens@.len() - old(self).current, 3 * level + 4,
    {
        if level <= 1 {
            self.unary()
        } else {
            self.binary(level - 1)
        }
    }

    fn unary(&mut self) -> (r: Result<usize, ParseError>)
        requires
            old(self).wf(),
        ensures
            final(self).follows_expr(
                *old(self),
                parse_unary(old(self).tokens@, old(self).current as nat, old(self).program@),
                r,
            ),
        decreases old(self).tokens@.len() - old(self).current, 2nat,
    {
        if self.check(TokenType::Bang) || self.check(TokenType::Minus) {
            let operator = self.advance();
            match self.unary() {
                Err(error) => Err(error),
                Ok(right) => Ok(
                    self.program.push_expr(Expr::Unary(UnaryExpr::new(right, operator))),
                ),
            }
        } else {
            self.call()
        }
    }

    fn call(&mut self) -> (r: Result<usize, ParseError>)
        requires
            old(self).wf(),
        ensures
            final(self).follows_expr(
                *old(self),
                parse_call(old(self).tokens@, old(self).current as nat, old(self).program@),
                r,
            ),
        decreases old(self).tokens@.len() - old(self).current, 1nat,
    {
        match self.primary() {
            Err(error) => Err(error),
            Ok(callee) => self.call_rest(callee),
        }
    }

    /// What follows a callee: any run of argument lists and `.name`s.
    fn call_rest(&mut self, callee: usize) -> (r: Result<usize, ParseError>)
        requires
            old(self).wf(),
            callee < old(self).program.exprs@.len(),
        ensures
            final(self).follows(
                *old(self),
                parse_call_rest(
                    old(self).tokens@,
                    old(self).current as nat,
                    old(self).program@,
                    callee,
                ),
            ),
            r == parse_call_rest(
                old(self).tokens@,
                old(self).current as nat,
                old(self).program@,
                callee,
            ).result,
            r is Ok ==> r->Ok_0 < final(self).program.exprs@.len(),
        decreases old(self).tokens@.len() - old(self).current, 0nat,
    {
        if self.match_token(TokenType::LeftParen) {
            match self.finish_call(callee) {
                Err(error) => Err(error),
                Ok(id) => self.call_rest(id),
            }
        } else if self.match_token(TokenType::Dot) {
            match self.access(callee) {
                Err(error) => Err(error),
                Ok(id) => self.call_rest(id),
            }
        } else {
            Ok(callee)
        }
    }

    /// The rest of a property read whose dot has been taken.
    fn access(&mut self, object: usize) -> (r: Result<usize, ParseError>)
        requires
            old(self).wf(),
            object < old(self).program.exprs@.len(),
        ensures
            final(self).follows_expr(
                *old(self),
                parse_access(
                    old(self).tokens@,
                    old(self).current as nat,
                    old(self).program@,
                    object,
                ),
                r,
            ),
    {
        match self.consume(TokenType::Identifier, ParseError::ExpectPropertyName) {
            Err(error) => Err(error),
            Ok(name) => Ok(self.program.push_expr(Expr::Get(GetExpr::new(object, name)))),
        }
    }

    /// The rest of a call whose opening parenthesis has been taken.
    fn finish_call(&mut self, callee: usize) -> (r: Result<usize, ParseError>)
        requires
            old(self).wf(),
            callee < old(self).program.exprs@.len(),
        ensures
            final(self).follows_expr(
                *old(self),
                parse_finish_call(
                    old(self).tokens@,
                    old(self).current as nat,
                    old(self).program@,
                    callee,
                ),
                r,
            ),
        decreases old(self).tokens@.len() - old(self).current, 27nat,
    {
        let ghost t = self.tokens@;
        let ghost start = self.current as nat;
        let arguments: Vec<usize> = if self.check(TokenType::RightParen) {
            Vec::new()
        } else {
            match self.arguments() {
                Ok(items) => items,
                Err(error) => {
                    return Err(error);
                },
            }
        };
        let paren = match self.consume(
            TokenType::RightParen,
            ParseError::ExpectRightParenAfterArguments,
        ) {
            Ok(token) => token,
            Err(error) => {
                return Err(error);
            },
        };
        Ok(self.program.push_call(callee, paren, &arguments))
    }

    /// The arguments of a call: expressions separated by commas.
    #[verifier::loop_isolation(false)]
    fn arguments(&mut self) -> (r: Result<Vec<usize>, ParseError>)
        requires
            old(self).wf(),
        ensures
            final(self).follows_list(
                *old(self),
                parse_arguments(
                    old(self).tokens@,
                    old(self).current as nat,
                    old(self).program@,
                    Seq::empty(),
                ),
                r,
                final(self).program.exprs@.len() as int,
            ),
        decreases old(self).tokens@.len() - old(self).current, 26nat,
    {
        let ghost t = self.tokens@;
        let ghost start = self.current as nat;
        let ghost goal = parse_arguments(t, start, self.program@, Seq::empty());
        let mut arguments: Vec<usize> = Vec::new();
        let mut more = true;
        while more
            invariant
                self.wf(),
                self.tokens@ == t,
                self.errors@ == old(self).errors@,
                start <= self.current,
                more || start < self.current,
                old(self).program.exprs@.len() <= self.program.exprs@.len(),
                old(self).program.stmts@.len() <= self.program.stmts@.len(),
                old(self).program.params@.len() <= self.program.params@.len(),
                old(self).program@.well_formed() ==> self.program@.well_formed(),
                forall|k: int|
                    0 <= k < arguments@.len() ==> (#[trigger] arguments@[k])
                        < self.program.exprs@.len(),
                more ==> goal == shift(
                    parse_arguments(t, self.current as nat, self.program@, arguments@),
                    (self.current - start) as nat,
                ),
                !more ==> goal == done::<Seq<usize>>(
                    (self.current - start) as nat,
                    self.program@,
                    arguments@,
                ),
            decreases t.len() - self.current, if more { 1nat } else { 0nat },
        {
            match self.expression() {
                Ok(id) => {
                    arguments.push(id);
                },
                Err(error) => {
                    return Err(error);
                },
            }
            if !self.match_token(TokenType::Comma) {
                more = false;
            }
        }
        Ok(arguments)
    }

    fn primary(&mut self) -> (r: Result<usize, ParseError>)
        requires
            old(self).wf(),
        ensures
            final(self).follows_expr(
                *old(self),
                parse_primary(old(self).tokens@, old(self).current as nat, old(self).program@),
                r,
            ),
        decreases old(self).tokens@.len() - old(self).current, 0nat,
    {
        let token = self.peek();
        match token.token_type {
            TokenType::False => {
                self.advance();
                Ok(self.program.push_expr(Expr::Literal(LiteralExpr::new(Literal::Bool(false)))))
            },
            TokenType::True => {
                self.advance();
                Ok(self.program.push_expr(Expr::Literal(LiteralExpr::new(Literal::Bool(true)))))
            },
            TokenType::Nil => {
                self.advance();
                Ok(self.program.push_expr(Expr::Literal(LiteralExpr::new(Literal::Nil))))
            },
            TokenType::Number => {
                self.advance();
                Ok(
                    self.program.push_expr(
                        Expr::Literal(LiteralExpr::new(Literal::Number(token.lexeme))),
                    ),
                )
            },
            TokenType::String => {
                self.advance();
                Ok(
                    self.program.push_expr(
                        Expr::Literal(LiteralExpr::new(Literal::String(token.literal()))),
                    ),
                )
            },
            TokenType::This => {
                self.advance();
                Ok(self.program.push_expr(Expr::This(ThisExpr::new(token))))
            },
            TokenType::Identifier => {
                self.advance();
                Ok(self.program.push_expr(Expr::Variable(VariableExpr::new(token))))
            },
            TokenType::Super => {
                self.advance();
                match self.consume(TokenType::Dot, ParseError::ExpectDotAfterSuper) {
                    Ok(_) => {},
                    Err(error) => {
                        return Err(error);
                    },
                }
                match self.consume(TokenType::Identifier, ParseError::ExpectSuperclassMethodName) {
                    Err(error) => Err(error),
                    Ok(method) => Ok(
                        self.program.push_expr(Expr::Super(SuperExpr::new(token, method))),
                    ),
                }
            },
            TokenType::LeftParen => {
                self.advance();
                match self.closed_expression(
                    TokenType::RightParen,
                    ParseError::ExpectRightParenAfterExpression,
                ) {
                    Err(error) => Err(error),
                    Ok(expression) => Ok(
                        self.program.push_expr(Expr::Grouping(GroupingExpr::new(expression))),
                    ),
                }
            },
            _ => Err(ParseError::InvalidPrimary),
        }
    }

    /// Takes the current token if it is of the given kind.
    fn match_token(&mut self, token_type: TokenType) -> (matched: bool)
        requires
            old(self).wf(),
            token_type != TokenType::Eof,
        ensures
            final(self).wf(),
            matched == (kind_at(old(self).tokens@, old(self).current as nat) == token_type),
            final(self).current == if matched {
                old(self).current + 1
            } else {
                old(self).current as int
            },
            final(self).tokens == old(self).tokens,
            final(self).errors == old(self).errors,
            final(self).program == old(self).program,
    {
        if self.check(token_type) {
            self.advance();
            true
        } else {
            false
        }
    }

    /// Whether the current token is of the given kind.
    fn check(&self, token_type: TokenType) -> (r: bool)
        requires
            self.wf(),
        ensures
            r == (kind_at(self.tokens@, self.current as nat) == token_type && token_type
                != TokenType::Eof),
    {
        if self.is_at_end() {
            return false;
        }
        self.peek().token_type == token_type
    }

    /// Moves past the current token unless it is the end-of-file token,
    /// and returns the token that stood there.
    fn advance(&mut self) -> (token: Token)
        requires
            old(self).wf(),
        ensures
            final(self).wf(),
            token == old(self).tokens@[old(self).current as int],
            final(self).current == if token.token_type == TokenType::Eof {
                old(self).current as int
            } else {
                old(self).current + 1
            },
            final(self).tokens == old(self).tokens,
            final(self).errors == old(self).errors,
            final(self).program == old(self).program,
    {
        let token = self.peek();
        if !self.is_at_end() {
            assert(self.current < self.tokens.len());
            self.current += 1;
        }
        token
    }

    fn is_at_end(&self) -> (r: bool)
        requires
            self.wf(),
        ensures
            r == (kind_at(self.tokens@, self.current as nat) == TokenType::Eof),
    {
        self.peek().token_type == TokenType::Eof
    }

    fn peek(&self) -> (token: Token)
        requires
            self.wf(),
        ensures
            token == self.tokens@[self.current as int],
    {
        self.tokens[self.current]
    }

    fn previous(&self) -> (token: Token)
        requires
            self.wf(),
            self.current >= 1,
        ensures
            token == self.tokens@[self.current - 1],
    {
        self.tokens[self.current - 1]
    }

    /// Takes the current token if it is of the given kind, and fails with
    /// `error` otherwise.
    fn consume(&mut self, token_type: TokenType, error: ParseError) -> (r: Result<
        Token,
        ParseError,
    >)
        requires
            old(self).wf(),
            token_type != TokenType::Eof,
        ensures
            final(self).wf(),
            final(self).tokens == old(self).tokens,
            final(self).errors == old(self).errors,
            final(self).program == old(self).program,
            kind_at(old(self).tokens@, old(self).current as nat) == token_type ==> r == Ok::<
                Token,
                ParseError,
            >(old(self).tokens@[old(self).current as int]) && final(self).current == old(self).current + 1,
            kind_at(old(self).tokens@, old(self).current as nat) != token_type ==> r == Err::<
                Token,
                ParseError,
            >(error) && final(self).current == old(self).current,
    {
        if self.check(token_type) {
            Ok(self.advance())
        } else {
            Err(error)
        }
    }

    /// Skips to the next statement boundary: past a semicolon, or up to a
    /// token that starts a statement.
    fn synchronize(&mut self)
        requires
            old(self).wf(),
        ensures
            final(self).wf(),
            final(self).tokens == old(self).tokens,
            final(self).errors == old(self).errors,
            final(self).program == old(self).program,
            kind_at(old(self).tokens@, old(self).current as nat) == TokenType::Eof
                ==> final(self).current == old(self).current,
            kind_at(old(self).tokens@, old(self).current as nat) != TokenType::Eof
                ==> final(self).current == old(self).current + 1 + skipped(
                old(self).tokens@,
                (old(self).current + 1) as nat,
            ),
    {
        let ghost t = self.tokens@;
        let ghost first = self.current as nat;
        if self.is_at_end() {
            return ;
        }
        self.advance();
        let mut more = !self.is_at_end();
        while more
            invariant
                self.wf(),
                self.tokens == old(self).tokens,
                self.errors == old(self).errors,
                self.program == old(self).program,
                t == self.tokens@,
                first < self.current,
                more ==> skipped(t, first + 1) == self.current - first - 1 + skipped(
                    t,
                    self.current as nat,
                ),
                !more ==> skipped(t, first + 1) == self.current - first - 1,
            decreases t.len() - self.current, if more { 1nat } else { 0nat },
        {
            if self.is_at_end() {
                more = false;
            } else if self.previous().token_type == TokenType::Semicolon {
                more = false;
            } else {
                match self.peek().token_type {
                    TokenType::Class
                    | TokenType::For
                    | TokenType::Fun
                    | TokenType::If
                    | TokenType::Print
                    | TokenType::Return
                    | TokenType::Var
                    | TokenType::While => {
                        more = false;
                    },
                    _ => {
                        self.advance();
                    },
                }
            }
        }
    }
}

/// What parsing yields, as values.
pub struct Syntax {
    pub program: Program,
    pub body: Vec<usize>,
    pub errors: Vec<ParseDiagnostic>,
}

/// Parses a whole token sequence, which must end with the end-of-file
/// token.
pub fn parse_tokens(tokens: Vec<Token>) -> (syntax: Syntax)
    requires
        tokens@.len() > 0,
        tokens@.last().token_type == TokenType::Eof,
    ensures
        syntax.program@ == parse(tokens@).ast,
        syntax.body@ == parse(tokens@).body,
        syntax.errors@ == parse(tokens@).errors,
        syntax.program@.well_formed(),
        forall|k: int| 0 <= k < syntax.body@.len() ==> (#[trigger] syntax.body@[k])
            < syntax.program@.stmts.len(),
{
    let mut parser = Parser::new(tokens);
    let body = match parser.parse() {
        Ok(body) => body,
        Err(_) => Vec::new(),
    };
    Syntax { program: parser.program, body, errors: parser.errors }
}

} // verus!
