//! Statement nodes and the program that holds all nodes.

use vstd::prelude::*;
use crate::expr::{CallExpr, Expr, ListRef};
use crate::tokens::{Token, TokenType};

verus! {

/// An expression evaluated for its effect.
#[derive(Clone, Copy, Debug)]
pub struct ExpressionStmt {
    pub expression: usize,
}

impl ExpressionStmt {
    pub fn new(expression: usize) -> (node: ExpressionStmt)
        ensures
            node == (ExpressionStmt { expression }),
    {
        ExpressionStmt { expression }
    }
}

/// `print` and the expression to print.
#[derive(Clone, Copy, Debug)]
pub struct PrintStmt {
    pub expression: usize,
}

impl PrintStmt {
    pub fn new(expression: usize) -> (node: PrintStmt)
        ensures
            node == (PrintStmt { expression }),
    {
        PrintStmt { expression }
    }
}

/// A variable declaration with an optional initializer.
#[derive(Clone, Copy, Debug)]
pub struct VarStmt {
    pub name: Token,
    pub initializer: Option<usize>,
}

impl VarStmt {
    pub fn new(name: Token, initializer: Option<usize>) -> (node: VarStmt)
        ensures
            node == (VarStmt { name, initializer }),
    {
        VarStmt { name, initializer }
    }
}

/// A braced list of statements with a scope of its own.
#[derive(Clone, Copy, Debug)]
pub struct BlockStmt {
    pub statements: ListRef,
}

impl BlockStmt {
    pub fn new(statements: ListRef) -> (node: BlockStmt)
        ensures
            node == (BlockStmt { statements }),
    {
        BlockStmt { statements }
    }
}

/// A conditional with an optional else branch.
#[derive(Clone, Copy, Debug)]
pub struct IfStmt {
    pub condition: usize,
    pub then_branch: usize,
    pub else_branch: Option<usize>,
}

impl IfStmt {
    pub fn new(condition: usize, then_branch: usize, else_branch: Option<usize>) -> (node: IfStmt)
        ensures
            node == (IfStmt { condition, then_branch, else_branch }),
    {
        IfStmt { condition, then_branch, else_branch }
    }
}

/// A loop.
#[derive(Clone, Copy, Debug)]
pub struct WhileStmt {
    pub condition: usize,
    pub body: usize,
}

impl WhileStmt {
    pub fn new(condition: usize, body: usize) -> (node: WhileStmt)
        ensures
            node == (WhileStmt { condition, body }),
    {
        WhileStmt { condition, body }
    }
}

/// A function or method declaration. `params` selects parameter names, `body` statements.
#[derive(Clone, Copy, Debug)]
pub struct FunStmt {
    pub name: Token,
    pub params: ListRef,
    pub body: ListRef,
}

impl FunStmt {
    pub fn new(name: Token, params: ListRef, body: ListRef) -> (node: FunStmt)
        ensures
            node == (FunStmt { name, params, body }),
    {
        FunStmt { name, params, body }
    }
}

/// `return` with an optional value.
#[derive(Clone, Copy, Debug)]
pub struct ReturnStmt {
    pub keyword: Token,
    pub value: Option<usize>,
}

impl ReturnStmt {
    pub fn new(keyword: Token, value: Option<usize>) -> (node: ReturnStmt)
        ensures
            node == (ReturnStmt { keyword, value }),
    {
        ReturnStmt { keyword, value }
    }
}

/// A class declaration. `superclass` is a variable expression, `methods` selects function declarations.
#[derive(Clone, Copy, Debug)]
pub struct ClassStmt {
    pub name: Token,
    pub superclass: Option<usize>,
    pub methods: ListRef,
}

impl ClassStmt {
    pub fn new(name: Token, superclass: Option<usize>, methods: ListRef) -> (node: ClassStmt)
        ensures
            node == (ClassStmt { name, superclass, methods }),
    {
        ClassStmt { name, superclass, methods }
    }
}

/// `break`.
#[derive(Clone, Copy, Debug)]
pub struct BreakStmt {
    pub keyword: Token,
}

impl BreakStmt {
    pub fn new(keyword: Token) -> (node: BreakStmt)
        ensures
            node == (BreakStmt { keyword }),
    {
        BreakStmt { keyword }
    }
}

/// A statement node. Operands are indices into the statement and
/// expression tables.
#[derive(Clone, Copy, Debug)]
pub enum Stmt {
    Expression(ExpressionStmt),
    Print(PrintStmt),
    Var(VarStmt),
    Block(BlockStmt),
    If(IfStmt),
    While(WhileStmt),
    Fun(FunStmt),
    Return(ReturnStmt),
    Class(ClassStmt),
    Break(BreakStmt),
}

/// Whether a token of this kind can be the operator of a unary
/// expression.
pub open spec fn unary_operator(kind: TokenType) -> bool {
    kind == TokenType::Bang || kind == TokenType::Minus
}

/// Whether a token of this kind can be the operator of a binary
/// expression.
pub open spec fn binary_operator(kind: TokenType) -> bool {
    match kind {
        TokenType::Slash | TokenType::Star | TokenType::Minus | TokenType::Plus
        | TokenType::Greater | TokenType::GreaterEqual | TokenType::Less | TokenType::LessEqual
        | TokenType::BangEqual | TokenType::EqualEqual => true,
        _ => false,
    }
}

/// The syntax tables of a program, as mathematical sequences.
pub struct Ast {
    pub exprs: Seq<Expr>,
    pub stmts: Seq<Stmt>,
    pub lists: Seq<usize>,
    pub params: Seq<Token>,
}

impl Ast {
    pub open spec fn empty() -> Ast {
        Ast { exprs: Seq::empty(), stmts: Seq::empty(), lists: Seq::empty(), params: Seq::empty() }
    }

    /// The expression with index `id`, if there is one.
    pub open spec fn expr(self, id: usize) -> Option<Expr> {
        if id < self.exprs.len() {
            Some(self.exprs[id as int])
        } else {
            None
        }
    }

    /// The statement with index `id`, if there is one.
    pub open spec fn stmt(self, id: usize) -> Option<Stmt> {
        if id < self.stmts.len() {
            Some(self.stmts[id as int])
        } else {
            None
        }
    }

    /// Entry `index` of the run `list` of the list table, if there is one.
    pub open spec fn item(self, list: ListRef, index: usize) -> Option<usize> {
        if index < list.len && list.start + index < self.lists.len() {
            Some(self.lists[list.start + index])
        } else {
            None
        }
    }

    /// Entry `index` of the run `list` of the parameter table, if there is
    /// one.
    pub open spec fn param(self, list: ListRef, index: usize) -> Option<Token> {
        if index < list.len && list.start + index < self.params.len() {
            Some(self.params[list.start + index])
        } else {
            None
        }
    }

    /// Whether the run `list` lies inside the list table and every entry
    /// of it is below `bound`.
    pub open spec fn list_below(self, list: ListRef, bound: int) -> bool {
        &&& list.start + list.len <= self.lists.len()
        &&& forall|k: int|
            list.start <= k < list.start + list.len ==> (#[trigger] self.lists[k]) < bound
    }

    /// Whether the operands of `node`, taken as expression `id`, come
    /// before it, and its operator is one that such a node can have.
    pub open spec fn expr_ok(self, node: Expr, id: int) -> bool {
        match node {
            Expr::Literal(_) | Expr::Variable(_) | Expr::This(_) | Expr::Super(_) => true,
            Expr::Grouping(grouping) => grouping.expression < id,
            Expr::Unary(unary) => unary.right < id && unary_operator(unary.operator.token_type),
            Expr::Binary(binary) => {
                &&& binary.left < id
                &&& binary.right < id
                &&& binary_operator(binary.operator.token_type)
            },
            Expr::Logical(logical) => logical.left < id && logical.right < id,
            Expr::Assign(assign) => assign.value < id,
            Expr::Call(call) => call.callee < id && self.list_below(call.arguments, id),
            Expr::Get(get) => get.object < id,
            Expr::SetProperty(set) => set.object < id && set.value < id,
        }
    }

    /// Whether the statements that `node`, taken as statement `id`, holds
    /// come before it, and its expressions and parameters exist.
    pub open spec fn stmt_ok(self, node: Stmt, id: int) -> bool {
        match node {
            Stmt::Expression(statement) => statement.expression < self.exprs.len(),
            Stmt::Print(statement) => statement.expression < self.exprs.len(),
            Stmt::Var(statement) => match statement.initializer {
                Some(initializer) => initializer < self.exprs.len(),
                None => true,
            },
            Stmt::Block(block) => self.list_below(block.statements, id),
            Stmt::If(statement) => {
                &&& statement.condition < self.exprs.len()
                &&& statement.then_branch < id
                &&& match statement.else_branch {
                    Some(other) => other < id,
                    None => true,
                }
            },
            Stmt::While(statement) => statement.condition < self.exprs.len() && statement.body
                < id,
            Stmt::Fun(function) => {
                &&& function.params.start + function.params.len <= self.params.len()
                &&& self.list_below(function.body, id)
            },
            Stmt::Return(statement) => match statement.value {
                Some(value) => value < self.exprs.len(),
                None => true,
            },
            Stmt::Break(_) => true,
            Stmt::Class(class) => {
                &&& match class.superclass {
                    Some(superclass) => superclass < self.exprs.len(),
                    None => true,
                }
                &&& self.list_below(class.methods, id)
            },
        }
    }

    /// Whether the tables are those of a tree: every node refers to
    /// nodes that come before it only, and to runs that lie inside their
    /// tables.
    #[verifier::opaque]
    pub open spec fn well_formed(self) -> bool {
        &&& self.exprs.len() <= usize::MAX
        &&& self.stmts.len() <= usize::MAX
        &&& self.lists.len() <= usize::MAX
        &&& self.params.len() <= usize::MAX
        &&& forall|id: int| 0 <= id < self.exprs.len() ==> self.expr_ok(#[trigger] self.exprs[id], id)
        &&& forall|id: int| 0 <= id < self.stmts.len() ==> self.stmt_ok(#[trigger] self.stmts[id], id)
    }

    /// The tables with one more expression; its index is the old length.
    pub open spec fn push_expr(self, expr: Expr) -> Ast {
        Ast { exprs: self.exprs.push(expr), ..self }
    }

    /// The tables with one more statement; its index is the old length.
    pub open spec fn push_stmt(self, stmt: Stmt) -> Ast {
        Ast { stmts: self.stmts.push(stmt), ..self }
    }

    /// The tables with `items` added to the list table.
    pub open spec fn push_list(self, items: Seq<usize>) -> Ast {
        Ast { lists: self.lists + items, ..self }
    }

    /// The tables with `names` added to the parameter table.
    pub open spec fn push_params(self, names: Seq<Token>) -> Ast {
        Ast { params: self.params + names, ..self }
    }
}

/// Empty tables are those of a tree.
pub proof fn lemma_empty_is_well_formed()
    ensures
        Ast::empty().well_formed(),
{
    reveal(Ast::well_formed);
}

/// In the tables of a tree every expression has its operands before it.
pub proof fn lemma_expr_ok(a: Ast, id: usize)
    requires
        a.well_formed(),
        id < a.exprs.len(),
    ensures
        a.expr_ok(a.exprs[id as int], id as int),
{
    reveal(Ast::well_formed);
}

/// In the tables of a tree every statement has its parts before it.
pub proof fn lemma_stmt_ok(a: Ast, id: usize)
    requires
        a.well_formed(),
        id < a.stmts.len(),
    ensures
        a.stmt_ok(a.stmts[id as int], id as int),
{
    reveal(Ast::well_formed);
}

/// A tree stays a tree when an expression is added whose operands are
/// in the tables already.
pub proof fn lemma_push_expr(a: Ast, node: Expr)
    requires
        a.well_formed(),
        a.expr_ok(node, a.exprs.len() as int),
        a.exprs.len() < usize::MAX,
    ensures
        a.push_expr(node).well_formed(),
{
    reveal(Ast::well_formed);
    let b = a.push_expr(node);
    assert forall|id: int| 0 <= id < b.exprs.len() implies b.expr_ok(#[trigger] b.exprs[id], id) by {
        if id < a.exprs.len() {
            assert(a.expr_ok(a.exprs[id], id));
        }
    }
    assert forall|id: int| 0 <= id < b.stmts.len() implies b.stmt_ok(#[trigger] b.stmts[id], id) by {
        assert(a.stmt_ok(a.stmts[id], id));
    }
}

/// A tree stays a tree when a statement is added whose parts are in the
/// tables already.
pub proof fn lemma_push_stmt(a: Ast, node: Stmt)
    requires
        a.well_formed(),
        a.stmt_ok(node, a.stmts.len() as int),
        a.stmts.len() < usize::MAX,
    ensures
        a.push_stmt(node).well_formed(),
{
    reveal(Ast::well_formed);
    let b = a.push_stmt(node);
    assert forall|id: int| 0 <= id < b.exprs.len() implies b.expr_ok(#[trigger] b.exprs[id], id) by {
        assert(a.expr_ok(a.exprs[id], id));
    }
    assert forall|id: int| 0 <= id < b.stmts.len() implies b.stmt_ok(#[trigger] b.stmts[id], id) by {
        if id < a.stmts.len() {
            assert(a.stmt_ok(a.stmts[id], id));
        }
    }
}

/// A run that lies in the list table is the same run after entries have
/// been added to the table.
pub proof fn lemma_list_below_grows(a: Ast, items: Seq<usize>, list: ListRef, bound: int)
    requires
        a.list_below(list, bound),
    ensures
        a.push_list(items).list_below(list, bound),
{
    let b = a.push_list(items);
    assert forall|k: int| list.start <= k < list.start + list.len implies (#[trigger] b.lists[k])
        < bound by {
        assert(b.lists[k] == a.lists[k]);
    }
}

/// A tree stays a tree when entries are added to the list table.
pub proof fn lemma_push_list(a: Ast, items: Seq<usize>)
    requires
        a.well_formed(),
        a.lists.len() + items.len() <= usize::MAX,
    ensures
        a.push_list(items).well_formed(),
{
    reveal(Ast::well_formed);
    let b = a.push_list(items);
    assert forall|id: int| 0 <= id < b.exprs.len() implies b.expr_ok(#[trigger] b.exprs[id], id) by {
        assert(a.expr_ok(a.exprs[id], id));
        match a.exprs[id] {
            Expr::Call(call) => {
                lemma_list_below_grows(a, items, call.arguments, id);
            },
            _ => {},
        }
    }
    assert forall|id: int| 0 <= id < b.stmts.len() implies b.stmt_ok(#[trigger] b.stmts[id], id) by {
        assert(a.stmt_ok(a.stmts[id], id));
        match a.stmts[id] {
            Stmt::Block(block) => {
                lemma_list_below_grows(a, items, block.statements, id);
            },
            Stmt::Fun(function) => {
                lemma_list_below_grows(a, items, function.body, id);
            },
            Stmt::Class(class) => {
                lemma_list_below_grows(a, items, class.methods, id);
            },
            _ => {},
        }
    }
}

/// A tree stays a tree when names are added to the parameter table.
pub proof fn lemma_push_params(a: Ast, names: Seq<Token>)
    requires
        a.well_formed(),
        a.params.len() + names.len() <= usize::MAX,
    ensures
        a.push_params(names).well_formed(),
{
    reveal(Ast::well_formed);
    let b = a.push_params(names);
    assert forall|id: int| 0 <= id < b.exprs.len() implies b.expr_ok(#[trigger] b.exprs[id], id) by {
        assert(a.expr_ok(a.exprs[id], id));
    }
    assert forall|id: int| 0 <= id < b.stmts.len() implies b.stmt_ok(#[trigger] b.stmts[id], id) by {
        assert(a.stmt_ok(a.stmts[id], id));
    }
}

/// The run that entries just added to the list table occupy holds those
/// entries.
pub proof fn lemma_new_list_below(a: Ast, items: Seq<usize>, bound: int)
    requires
        a.lists.len() + items.len() <= usize::MAX,
        forall|k: int| 0 <= k < items.len() ==> items[k] < bound,
    ensures
        a.push_list(items).list_below(
            ListRef { start: a.lists.len() as usize, len: items.len() as usize },
            bound,
        ),
{
    let b = a.push_list(items);
    let list = ListRef { start: a.lists.len() as usize, len: items.len() as usize };
    assert forall|k: int| list.start <= k < list.start + list.len implies (#[trigger] b.lists[k])
        < bound by {
        assert(b.lists[k] == items[k - a.lists.len()]);
    }
}

/// The node tables of a program.
pub struct Program {
    pub exprs: Vec<Expr>,
    pub stmts: Vec<Stmt>,
    pub lists: Vec<usize>,
    pub params: Vec<Token>,
}

impl View for Program {
    type V = Ast;

    open spec fn view(&self) -> Ast {
        Ast { exprs: self.exprs@, stmts: self.stmts@, lists: self.lists@, params: self.params@ }
    }
}

impl Program {
    /// Empty tables.
    pub fn new() -> (program: Program)
        ensures
            program@ == Ast::empty(),
            program@.well_formed(),
    {
        proof {
            lemma_empty_is_well_formed();
        }
        Program { exprs: Vec::new(), stmts: Vec::new(), lists: Vec::new(), params: Vec::new() }
    }

    /// The expression with index `id`, if there is one.
    pub fn expr(&self, id: usize) -> (expr: Option<Expr>)
        ensures
            expr == self@.expr(id),
    {
        if id < self.exprs.len() {
            Some(self.exprs[id])
        } else {
            None
        }
    }

    /// The statement with index `id`, if there is one.
    pub fn stmt(&self, id: usize) -> (stmt: Option<Stmt>)
        ensures
            stmt == self@.stmt(id),
    {
        if id < self.stmts.len() {
            Some(self.stmts[id])
        } else {
            None
        }
    }

    /// Entry `index` of the run `list` of the list table, if there is one.
    pub fn item(&self, list: ListRef, index: usize) -> (item: Option<usize>)
        ensures
            item == self@.item(list, index),
    {
        if index < list.len && list.start < self.lists.len() && index < self.lists.len()
            - list.start {
            Some(self.lists[list.start + index])
        } else {
            None
        }
    }

    /// Entry `index` of the run `list` of the parameter table, if there is
    /// one.
    pub fn param(&self, list: ListRef, index: usize) -> (param: Option<Token>)
        ensures
            param == self@.param(list, index),
    {
        if index < list.len && list.start < self.params.len() && index < self.params.len()
            - list.start {
            Some(self.params[list.start + index])
        } else {
            None
        }
    }

    /// Adds an expression and returns its index.
    pub fn push_expr(&mut self, expr: Expr) -> (id: usize)
        ensures
            id == old(self).exprs@.len(),
            final(self)@ == old(self)@.push_expr(expr),
            old(self)@.well_formed() && old(self)@.expr_ok(expr, id as int) ==> final(self)@.well_formed(),
    {
        let id = self.exprs.len();
        self.exprs.push(expr);
        proof {
            if old(self)@.well_formed() && old(self)@.expr_ok(expr, id as int) {
                assert(old(self).exprs@.len() < self.exprs.len());
                lemma_push_expr(old(self)@, expr);
            }
        }
        id
    }

    /// Adds a statement and returns its index.
    pub fn push_stmt(&mut self, stmt: Stmt) -> (id: usize)
        ensures
            id == old(self).stmts@.len(),
            final(self)@ == old(self)@.push_stmt(stmt),
            old(self)@.well_formed() && old(self)@.stmt_ok(stmt, id as int) ==> final(self)@.well_formed(),
    {
        let id = self.stmts.len();
        self.stmts.push(stmt);
        proof {
            if old(self)@.well_formed() && old(self)@.stmt_ok(stmt, id as int) {
                assert(old(self).stmts@.len() < self.stmts.len());
                lemma_push_stmt(old(self)@, stmt);
            }
        }
        id
    }

    /// Adds `items` to the list table and returns the run they occupy.
    pub fn push_list(&mut self, items: &Vec<usize>) -> (list: ListRef)
        ensures
            list == (ListRef { start: old(self).lists@.len() as usize, len: items@.len() as usize }),
            final(self)@ == old(self)@.push_list(items@),
            old(self)@.well_formed() ==> final(self)@.well_formed(),
            old(self).lists@.len() + items@.len() <= usize::MAX,
    {
        let start = self.lists.len();
        let mut i: usize = 0;
        while i < items.len()
            invariant
                i <= items.len(),
                self.lists@ == old(self).lists@ + items@.subrange(0, i as int),
                self.exprs == old(self).exprs,
                self.stmts == old(self).stmts,
                self.params == old(self).params,
            decreases items.len() - i,
        {
            self.lists.push(items[i]);
            i += 1;
            assert(self.lists@ =~= old(self).lists@ + items@.subrange(0, i as int));
        }
        assert(items@.subrange(0, i as int) =~= items@);
        proof {
            assert(old(self).lists@.len() + items@.len() == self.lists.len());
            if old(self)@.well_formed() {
                lemma_push_list(old(self)@, items@);
            }
        }
        ListRef::new(start, items.len())
    }

    /// Adds `names` to the parameter table and returns the run they occupy.
    pub fn push_params(&mut self, names: &Vec<Token>) -> (list: ListRef)
        ensures
            list == (ListRef { start: old(self).params@.len() as usize, len: names@.len() as usize }),
            final(self)@ == old(self)@.push_params(names@),
            old(self)@.well_formed() ==> final(self)@.well_formed(),
            list.start + list.len <= final(self).params@.len(),
    {
        let start = self.params.len();
        let mut i: usize = 0;
        while i < names.len()
            invariant
                i <= names.len(),
                self.params@ == old(self).params@ + names@.subrange(0, i as int),
                self.exprs == old(self).exprs,
                self.stmts == old(self).stmts,
                self.lists == old(self).lists,
            decreases names.len() - i,
        {
            self.params.push(names[i]);
            i += 1;
            assert(self.params@ =~= old(self).params@ + names@.subrange(0, i as int));
        }
        assert(names@.subrange(0, i as int) =~= names@);
        proof {
            assert(old(self).params@.len() + names@.len() == self.params.len());
            if old(self)@.well_formed() {
                lemma_push_params(old(self)@, names@);
            }
        }
        ListRef::new(start, names.len())
    }
}

impl Program {
    /// Adds a call expression together with the list of its arguments,
    /// and returns its index.
    pub fn push_call(&mut self, callee: usize, paren: Token, arguments: &Vec<usize>) -> (id: usize)
        ensures
            id == old(self).exprs@.len(),
            final(self)@ == old(self)@.push_list(arguments@).push_expr(
                Expr::Call(
                    CallExpr {
                        callee,
                        paren,
                        arguments: ListRef {
                            start: old(self).lists@.len() as usize,
                            len: arguments@.len() as usize,
                        },
                    },
                ),
            ),
            old(self)@.well_formed() && callee < id && (forall|k: int|
                0 <= k < arguments@.len() ==> (#[trigger] arguments@[k]) < id) ==> final(self)@.well_formed(),
    {
        let ghost tables = self@;
        let list = self.push_list(arguments);
        proof {
            if forall|k: int| 0 <= k < arguments@.len() ==> (#[trigger] arguments@[k]) < tables.exprs.len() {
                lemma_new_list_below(tables, arguments@, tables.exprs.len() as int);
            }
        }
        self.push_expr(Expr::Call(CallExpr::new(callee, paren, list)))
    }

    /// Adds a block statement together with the list of its statements,
    /// and returns its index.
    pub fn push_block(&mut self, statements: &Vec<usize>) -> (id: usize)
        ensures
            id == old(self).stmts@.len(),
            final(self)@ == old(self)@.push_list(statements@).push_stmt(
                Stmt::Block(
                    BlockStmt {
                        statements: ListRef {
                            start: old(self).lists@.len() as usize,
                            len: statements@.len() as usize,
                        },
                    },
                ),
            ),
            old(self)@.well_formed() && (forall|k: int|
                0 <= k < statements@.len() ==> (#[trigger] statements@[k]) < id)
                ==> final(self)@.well_formed(),
    {
        let ghost tables = self@;
        let list = self.push_list(statements);
        proof {
            if forall|k: int|
                0 <= k < statements@.len() ==> (#[trigger] statements@[k]) < tables.stmts.len() {
                lemma_new_list_below(tables, statements@, tables.stmts.len() as int);
            }
        }
        self.push_stmt(Stmt::Block(BlockStmt::new(list)))
    }

    /// Adds a function declaration together with the list of the
    /// statements of its body, and returns its index.
    pub fn push_function(&mut self, name: Token, params: ListRef, body: &Vec<usize>) -> (id: usize)
        ensures
            id == old(self).stmts@.len(),
            final(self)@ == old(self)@.push_list(body@).push_stmt(
                Stmt::Fun(
                    FunStmt {
                        name,
                        params,
                        body: ListRef {
                            start: old(self).lists@.len() as usize,
                            len: body@.len() as usize,
                        },
                    },
                ),
            ),
            old(self)@.well_formed() && params.start + params.len <= old(self).params@.len()
                && (forall|k: int| 0 <= k < body@.len() ==> (#[trigger] body@[k]) < id)
                ==> final(self)@.well_formed(),
    {
        let ghost tables = self@;
        let list = self.push_list(body);
        proof {
            if forall|k: int| 0 <= k < body@.len() ==> (#[trigger] body@[k]) < tables.stmts.len() {
                lemma_new_list_below(tables, body@, tables.stmts.len() as int);
            }
        }
        self.push_stmt(Stmt::Fun(FunStmt::new(name, params, list)))
    }

    /// Adds a class declaration together with the list of its methods,
    /// and returns its index.
    pub fn push_class(&mut self, name: Token, superclass: Option<usize>, methods: &Vec<usize>) -> (id:
        usize)
        ensures
            id == old(self).stmts@.len(),
            final(self)@ == old(self)@.push_list(methods@).push_stmt(
                Stmt::Class(
                    ClassStmt {
                        name,
                        superclass,
                        methods: ListRef {
                            start: old(self).lists@.len() as usize,
                            len: methods@.len() as usize,
                        },
                    },
                ),
            ),
            old(self)@.well_formed() && (superclass matches Some(parent) ==> parent
                < old(self).exprs@.len()) && (forall|k: int|
                0 <= k < methods@.len() ==> (#[trigger] methods@[k]) < id) ==> final(self)@.well_formed(),
    {
        let ghost tables = self@;
        let list = self.push_list(methods);
        proof {
            if forall|k: int| 0 <= k < methods@.len() ==> (#[trigger] methods@[k]) < tables.stmts.len() {
                lemma_new_list_below(tables, methods@, tables.stmts.len() as int);
            }
        }
        self.push_stmt(Stmt::Class(ClassStmt::new(name, superclass, list)))
    }
}

} // verus!
