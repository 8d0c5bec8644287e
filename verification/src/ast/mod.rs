//! The abstract syntax tree and the store that owns its nodes.

use id_arena::Arena;
use vstd::prelude::*;

pub mod arena;
pub mod pretty_print_visitor;
pub mod text;
pub mod tree;
pub mod visitor;

use self::tree::{lemma_expression_tree_stable, lemma_statement_tree_stable};
use self::arena::{
    alloc_expression, alloc_statement, expression_arena_items, expression_arena_key,
    get_expression_in, get_statement_in, new_expression_arena, new_statement_arena,
    statement_arena_items, statement_arena_key,
};

verus! {

/// A binary operator.
#[derive(Debug, Clone, Copy, PartialEq, Eq, Structural)]
pub enum BinOp {
    Add,
    Sub,
    Mul,
    Divide,
}

/// A declared parameter type.
#[derive(Debug, Clone, Copy, PartialEq, Eq, Structural)]
pub enum Type {
    Unit,
    Int,
    Boolean,
}

/// A handle to a statement. It names a slot of the store that issued it.
#[derive(Debug, Clone, Copy, PartialEq, Eq, Hash, Structural)]
pub struct StatementId {
    arena_id: u32,
    index: usize,
}

/// A handle to an expression. It names a slot of the store that issued it.
#[derive(Debug, Clone, Copy, PartialEq, Eq, Hash, Structural)]
pub struct ExpressionId {
    arena_id: u32,
    index: usize,
}

impl StatementId {
    /// The key of the store that issued this handle.
    pub closed spec fn arena(self) -> u32 {
        self.arena_id
    }

    /// The position of the statement in its store.
    pub closed spec fn slot(self) -> nat {
        self.index as nat
    }

    /// The position of the statement in its store.
    pub fn index(&self) -> (i: usize)
        ensures
            i == self.slot(),
    {
        self.index
    }
}

impl ExpressionId {
    /// The key of the store that issued this handle.
    pub closed spec fn arena(self) -> u32 {
        self.arena_id
    }

    /// The position of the expression in its store.
    pub closed spec fn slot(self) -> nat {
        self.index as nat
    }

    /// The position of the expression in its store.
    pub fn index(&self) -> (i: usize)
        ensures
            i == self.slot(),
    {
        self.index
    }
}

/// A top-level declaration.
#[derive(Debug, Clone)]
pub enum Declaration {
    FunctionDeclaration { name: String, parameters: Vec<(String, Type)>, statement: StatementId },
}

/// A statement. Its parts are held by handle.
#[derive(Debug, Clone)]
pub enum Statement {
    BlockStatement(Vec<StatementId>),
    LetStatement { identifier: String, expression: ExpressionId },
    ExpressionStatement(ExpressionId),
}

/// An expression. Its operands are held by handle.
#[derive(Debug, Clone)]
pub enum Expression {
    BinOp { op: BinOp, lhs: ExpressionId, rhs: ExpressionId },
    FunctionCall { func: ExpressionId, args: Vec<ExpressionId> },
    Integer(i32),
    Identifier(String),
}

/// A program: the two node stores and the top-level declarations.
#[derive(Debug)]
pub struct Program {
    pub statement_arena: Arena<Statement>,
    pub expression_arena: Arena<Expression>,
    pub declarations: Vec<Declaration>,
}

impl Program {
    /// The stored statements, by slot.
    pub open spec fn statements(&self) -> Seq<Statement> {
        statement_arena_items(self.statement_arena)
    }

    /// The stored expressions, by slot.
    pub open spec fn expressions(&self) -> Seq<Expression> {
        expression_arena_items(self.expression_arena)
    }

    /// The key carried by the statement handles of this program.
    pub open spec fn statement_key(&self) -> u32 {
        statement_arena_key(self.statement_arena)
    }

    /// The key carried by the expression handles of this program.
    pub open spec fn expression_key(&self) -> u32 {
        expression_arena_key(self.expression_arena)
    }

    /// The handle names a statement of this program.
    pub open spec fn has_statement(&self, id: StatementId) -> bool {
        id.arena() == self.statement_key() && id.slot() < self.statements().len()
    }

    /// The handle names an expression of this program.
    pub open spec fn has_expression(&self, id: ExpressionId) -> bool {
        id.arena() == self.expression_key() && id.slot() < self.expressions().len()
    }

    /// The statement that a handle names.
    pub open spec fn statement(&self, id: StatementId) -> Statement
        recommends
            self.has_statement(id),
    {
        self.statements()[id.slot() as int]
    }

    /// The expression that a handle names.
    pub open spec fn expression(&self, id: ExpressionId) -> Expression
        recommends
            self.has_expression(id),
    {
        self.expressions()[id.slot() as int]
    }

    /// The handle carries this program's expression key and names a slot
    /// below `bound`.
    pub open spec fn expression_below(&self, id: ExpressionId, bound: nat) -> bool {
        id.arena() == self.expression_key() && id.slot() < bound
    }

    /// The handle carries this program's statement key and names a slot
    /// below `bound`.
    pub open spec fn statement_below(&self, id: StatementId, bound: nat) -> bool {
        id.arena() == self.statement_key() && id.slot() < bound
    }

    /// Every handle inside `expression` names an expression of this program
    /// in a slot below `bound`.
    pub open spec fn expression_fits(&self, expression: Expression, bound: nat) -> bool {
        match expression {
            Expression::BinOp { op, lhs, rhs } => {
                self.expression_below(lhs, bound) && self.expression_below(rhs, bound)
            },
            Expression::FunctionCall { func, args } => {
                &&& self.expression_below(func, bound)
                &&& forall|i: int|
                    0 <= i < args@.len() ==> self.expression_below(#[trigger] args@[i], bound)
            },
            Expression::Integer(_) => true,
            Expression::Identifier(_) => true,
        }
    }

    /// Every statement handle inside `statement` names a statement of this
    /// program in a slot below `bound`, and every expression handle inside
    /// it names an expression of this program.
    pub open spec fn statement_fits(&self, statement: Statement, bound: nat) -> bool {
        match statement {
            Statement::BlockStatement(statements) => {
                forall|i: int|
                    0 <= i < statements@.len() ==> self.statement_below(
                        #[trigger] statements@[i],
                        bound,
                    )
            },
            Statement::LetStatement { identifier, expression } => self.has_expression(expression),
            Statement::ExpressionStatement(expression) => self.has_expression(expression),
        }
    }

    /// The body of the declaration is a statement of this program.
    pub open spec fn declaration_fits(&self, declaration: Declaration) -> bool {
        match declaration {
            Declaration::FunctionDeclaration { name, parameters, statement } => self.has_statement(
                statement,
            ),
        }
    }

    /// No handle dangles: every handle reachable from the declarations
    /// resolves in this program, and a stored node refers only to nodes
    /// stored before it.
    pub open spec fn well_formed(&self) -> bool {
        &&& forall|i: int|
            0 <= i < self.expressions().len() ==> self.expression_fits(
                #[trigger] self.expressions()[i],
                i as nat,
            )
        &&& forall|i: int|
            0 <= i < self.statements().len() ==> self.statement_fits(
                #[trigger] self.statements()[i],
                i as nat,
            )
        &&& forall|i: int|
            0 <= i < self.declarations@.len() ==> self.declaration_fits(
                #[trigger] self.declarations@[i],
            )
    }

    /// `later` holds every node of this program in the slot it has here,
    /// under the same keys.
    pub open spec fn extended_by(&self, later: &Program) -> bool {
        &&& later.statement_key() == self.statement_key()
        &&& later.expression_key() == self.expression_key()
        &&& self.statements().is_prefix_of(later.statements())
        &&& self.expressions().is_prefix_of(later.expressions())
    }

    /// An empty program.
    pub fn new() -> (program: Program)
        ensures
            program.statements() == Seq::<Statement>::empty(),
            program.expressions() == Seq::<Expression>::empty(),
            program.declarations@ == Seq::<Declaration>::empty(),
            program.well_formed(),
    {
        Program {
            statement_arena: new_statement_arena(),
            expression_arena: new_expression_arena(),
            declarations: Vec::new(),
        }
    }

    /// Stores a statement and returns its handle. Handles issued earlier
    /// keep their meaning.
    pub fn create_statement(&mut self, statement: Statement) -> (id: StatementId)
        ensures
            final(self).statements() == old(self).statements().push(statement),
            final(self).expressions() == old(self).expressions(),
            final(self).statement_key() == old(self).statement_key(),
            final(self).expression_key() == old(self).expression_key(),
            final(self).declarations == old(self).declarations,
            id.arena() == old(self).statement_key(),
            id.slot() == old(self).statements().len(),
            final(self).has_statement(id),
            old(self).extended_by(final(self)),
            old(self).well_formed() && old(self).statement_fits(
                statement,
                old(self).statements().len(),
            ) ==> final(self).well_formed() && final(self).statement_tree(id.slot()) == old(
                self,
            ).tree_of_statement(statement),
    {
        let ghost before = *self;
        let id = alloc_statement(&mut self.statement_arena, statement);
        proof {
            if before.well_formed() && before.statement_fits(statement, before.statements().len()) {
                lemma_statement_tree_stable(&before, self, statement, before.statements().len());
            }
        }
        id
    }

    /// Stores an expression and returns its handle. Handles issued earlier
    /// keep their meaning.
    pub fn create_expression(&mut self, expression: Expression) -> (id: ExpressionId)
        ensures
            final(self).expressions() == old(self).expressions().push(expression),
            final(self).statements() == old(self).statements(),
            final(self).statement_key() == old(self).statement_key(),
            final(self).expression_key() == old(self).expression_key(),
            final(self).declarations == old(self).declarations,
            id.arena() == old(self).expression_key(),
            id.slot() == old(self).expressions().len(),
            final(self).has_expression(id),
            old(self).extended_by(final(self)),
            old(self).well_formed() && old(self).expression_fits(
                expression,
                old(self).expressions().len(),
            ) ==> final(self).well_formed(),
            final(self).expression_tree(id.slot()) == old(self).tree_of_expression(expression),
    {
        let ghost before = *self;
        let id = alloc_expression(&mut self.expression_arena, expression);
        proof {
            lemma_expression_tree_stable(
                before.expressions(),
                self.expressions(),
                expression,
                before.expressions().len(),
            );
        }
        id
    }

    /// The statement that a handle names, or nothing for a handle that this
    /// program did not issue.
    pub fn get_statement(&self, id: StatementId) -> (found: Option<&Statement>)
        ensures
            found.is_some() <==> self.has_statement(id),
            found.is_some() ==> *found.unwrap() == self.statement(id),
    {
        get_statement_in(&self.statement_arena, id)
    }

    /// The expression that a handle names, or nothing for a handle that this
    /// program did not issue.
    pub fn get_expression(&self, id: ExpressionId) -> (found: Option<&Expression>)
        ensures
            found.is_some() <==> self.has_expression(id),
            found.is_some() ==> *found.unwrap() == self.expression(id),
    {
        get_expression_in(&self.expression_arena, id)
    }
}

} // verus!
