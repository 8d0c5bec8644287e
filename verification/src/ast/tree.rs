//! What a stored node stands for: the tree that its handles unfold to.
//!
//! The stores hold flat nodes that refer to each other by handle. The
//! functions here read a node together with everything below it as one
//! value, so that contracts can speak of whole trees.

use vstd::prelude::*;

use super::{BinOp, Declaration, Expression, Program, Statement, Type};

verus! {

/// An expression with its operands in place of their handles.
pub enum ExpressionTree {
    BinOp { op: BinOp, lhs: Box<ExpressionTree>, rhs: Box<ExpressionTree> },
    FunctionCall { func: Box<ExpressionTree>, args: Seq<ExpressionTree> },
    Integer(i32),
    Identifier(Seq<char>),
    /// Stands for a handle that names no stored expression.
    Missing,
}

/// A statement with its parts in place of their handles.
pub enum StatementTree {
    Block(Seq<StatementTree>),
    Let { identifier: Seq<char>, expression: ExpressionTree },
    Expression(ExpressionTree),
    /// Stands for a handle that names no stored statement.
    Missing,
}

/// A function declaration with its body in place of the body's handle.
pub struct FunctionTree {
    pub name: Seq<char>,
    pub parameters: Seq<(Seq<char>, Type)>,
    pub body: StatementTree,
}

/// The tree of the expression stored in `slot`.
pub open spec fn expression_tree_at(expressions: Seq<Expression>, slot: nat) -> ExpressionTree
    decreases slot, 1nat,
{
    if slot < expressions.len() {
        expression_tree_of(expressions, expressions[slot as int], slot)
    } else {
        ExpressionTree::Missing
    }
}

/// The tree of `expression`, whose handles are followed into the slots
/// below `bound`.
pub open spec fn expression_tree_of(
    expressions: Seq<Expression>,
    expression: Expression,
    bound: nat,
) -> ExpressionTree
    decreases bound, 0nat,
{
    match expression {
        Expression::BinOp { op, lhs, rhs } => ExpressionTree::BinOp {
            op,
            lhs: Box::new(
                if lhs.slot() < bound {
                    expression_tree_at(expressions, lhs.slot())
                } else {
                    ExpressionTree::Missing
                },
            ),
            rhs: Box::new(
                if rhs.slot() < bound {
                    expression_tree_at(expressions, rhs.slot())
                } else {
                    ExpressionTree::Missing
                },
            ),
        },
        Expression::FunctionCall { func, args } => ExpressionTree::FunctionCall {
            func: Box::new(
                if func.slot() < bound {
                    expression_tree_at(expressions, func.slot())
                } else {
                    ExpressionTree::Missing
                },
            ),
            args: Seq::new(
                args@.len(),
                |i: int|
                    if 0 <= i < args@.len() && args@[i].slot() < bound {
                        expression_tree_at(expressions, args@[i].slot())
                    } else {
                        ExpressionTree::Missing
                    },
            ),
        },
        Expression::Integer(value) => ExpressionTree::Integer(value),
        Expression::Identifier(name) => ExpressionTree::Identifier(name@),
    }
}

/// The tree of the statement stored in `slot`.
pub open spec fn statement_tree_at(
    statements: Seq<Statement>,
    expressions: Seq<Expression>,
    slot: nat,
) -> StatementTree
    decreases slot, 1nat,
{
    if slot < statements.len() {
        statement_tree_of(statements, expressions, statements[slot as int], slot)
    } else {
        StatementTree::Missing
    }
}

/// The tree of `statement`, whose statement handles are followed into the
/// slots below `bound`.
pub open spec fn statement_tree_of(
    statements: Seq<Statement>,
    expressions: Seq<Expression>,
    statement: Statement,
    bound: nat,
) -> StatementTree
    decreases bound, 0nat,
{
    match statement {
        Statement::BlockStatement(children) => StatementTree::Block(
            Seq::new(
                children@.len(),
                |i: int|
                    if 0 <= i < children@.len() && children@[i].slot() < bound {
                        statement_tree_at(statements, expressions, children@[i].slot())
                    } else {
                        StatementTree::Missing
                    },
            ),
        ),
        Statement::LetStatement { identifier, expression } => StatementTree::Let {
            identifier: identifier@,
            expression: expression_tree_at(expressions, expression.slot()),
        },
        Statement::ExpressionStatement(expression) => StatementTree::Expression(
            expression_tree_at(expressions, expression.slot()),
        ),
    }
}

/// The names and types of a parameter list.
pub open spec fn parameter_views(parameters: Seq<(String, Type)>) -> Seq<(Seq<char>, Type)> {
    Seq::new(parameters.len(), |i: int| (parameters[i].0@, parameters[i].1))
}

/// The tree of a declaration.
pub open spec fn declaration_tree(
    statements: Seq<Statement>,
    expressions: Seq<Expression>,
    declaration: Declaration,
) -> FunctionTree {
    match declaration {
        Declaration::FunctionDeclaration { name, parameters, statement } => FunctionTree {
            name: name@,
            parameters: parameter_views(parameters@),
            body: statement_tree_at(statements, expressions, statement.slot()),
        },
    }
}

impl Program {
    /// The tree of a stored expression.
    pub open spec fn expression_tree(&self, slot: nat) -> ExpressionTree {
        expression_tree_at(self.expressions(), slot)
    }

    /// The tree of an expression that is not stored yet and refers to
    /// stored ones.
    pub open spec fn tree_of_expression(&self, expression: Expression) -> ExpressionTree {
        expression_tree_of(self.expressions(), expression, self.expressions().len())
    }

    /// The tree of a stored statement.
    pub open spec fn statement_tree(&self, slot: nat) -> StatementTree {
        statement_tree_at(self.statements(), self.expressions(), slot)
    }

    /// The tree of a statement that is not stored yet and refers to stored
    /// nodes.
    pub open spec fn tree_of_statement(&self, statement: Statement) -> StatementTree {
        statement_tree_of(
            self.statements(),
            self.expressions(),
            statement,
            self.statements().len(),
        )
    }

    /// The tree of a declaration of this program.
    pub open spec fn tree_of_declaration(&self, declaration: Declaration) -> FunctionTree {
        declaration_tree(self.statements(), self.expressions(), declaration)
    }

    /// `expression` refers only to stored expressions, and its tree is
    /// `tree`.
    pub open spec fn reads_expression(&self, expression: Expression, tree: ExpressionTree) -> bool {
        &&& self.expression_fits(expression, self.expressions().len())
        &&& self.tree_of_expression(expression) == tree
    }

    /// `statement` refers only to stored nodes, and its tree is `tree`.
    pub open spec fn reads_statement(&self, statement: Statement, tree: StatementTree) -> bool {
        &&& self.statement_fits(statement, self.statements().len())
        &&& self.tree_of_statement(statement) == tree
    }

    /// This program came from `before` by storing nodes: it is well
    /// formed, holds every node of `before` in its slot, and declares what
    /// `before` declares.
    pub open spec fn grown_from(&self, before: &Program) -> bool {
        &&& before.extended_by(self)
        &&& self.well_formed()
        &&& self.declarations == before.declarations
    }

    /// The trees of the declarations, in their order.
    pub open spec fn tree(&self) -> Seq<FunctionTree> {
        Seq::new(
            self.declarations@.len(),
            |i: int| self.tree_of_declaration(self.declarations@[i]),
        )
    }
}

/// Storing more expressions changes the tree of none that was stored
/// before, nor that of an expression that refers to those.
pub proof fn lemma_expression_tree_stable(
    before: Seq<Expression>,
    after: Seq<Expression>,
    expression: Expression,
    bound: nat,
)
    requires
        before.is_prefix_of(after),
        bound <= before.len(),
    ensures
        expression_tree_of(before, expression, bound) == expression_tree_of(
            after,
            expression,
            bound,
        ),
        bound < before.len() ==> expression_tree_at(before, bound) == expression_tree_at(
            after,
            bound,
        ),
    decreases bound, 1nat,
{
    lemma_expression_tree_of_stable(before, after, expression, bound);
    if bound < before.len() {
        lemma_expression_tree_of_stable(before, after, before[bound as int], bound);
    }
}

proof fn lemma_expression_tree_of_stable(
    before: Seq<Expression>,
    after: Seq<Expression>,
    expression: Expression,
    bound: nat,
)
    requires
        before.is_prefix_of(after),
        bound <= before.len(),
    ensures
        expression_tree_of(before, expression, bound) == expression_tree_of(
            after,
            expression,
            bound,
        ),
    decreases bound, 0nat,
{
    match expression {
        Expression::BinOp { op, lhs, rhs } => {
            if lhs.slot() < bound {
                lemma_expression_tree_stable(before, after, before[lhs.slot() as int], lhs.slot());
            }
            if rhs.slot() < bound {
                lemma_expression_tree_stable(before, after, before[rhs.slot() as int], rhs.slot());
            }
        },
        Expression::FunctionCall { func, args } => {
            let left = expression_tree_of(before, expression, bound)->args;
            let right = expression_tree_of(after, expression, bound)->args;
            assert forall|i: int| 0 <= i < left.len() implies left[i] == right[i] by {
                let slot = args@[i].slot();
                if slot < bound {
                    lemma_expression_tree_stable(before, after, before[slot as int], slot);
                }
            }
            assert(left =~= right);
            if func.slot() < bound {
                lemma_expression_tree_stable(
                    before,
                    after,
                    before[func.slot() as int],
                    func.slot(),
                );
            }
        },
        _ => {},
    }
}

/// Following handles into more slots than an expression refers to changes
/// nothing.
pub proof fn lemma_expression_tree_bound(
    program: &Program,
    expression: Expression,
    bound: nat,
    wider: nat,
)
    requires
        program.expression_fits(expression, bound),
        bound <= wider,
    ensures
        expression_tree_of(program.expressions(), expression, bound) == expression_tree_of(
            program.expressions(),
            expression,
            wider,
        ),
{
    match expression {
        Expression::FunctionCall { func, args } => {
            assert(expression_tree_of(program.expressions(), expression, bound)->args
                =~= expression_tree_of(program.expressions(), expression, wider)->args);
        },
        _ => {},
    }
}

/// A tree read off an expression that holds no handle.
pub open spec fn leaf_tree(expression: Expression) -> ExpressionTree {
    match expression {
        Expression::Integer(value) => ExpressionTree::Integer(value),
        Expression::Identifier(name) => ExpressionTree::Identifier(name@),
        _ => ExpressionTree::Missing,
    }
}

impl Expression {
    /// The expression holds no handle.
    pub open spec fn is_leaf(self) -> bool {
        self is Integer || self is Identifier
    }
}

/// An expression that refers to stored expressions keeps its tree when
/// more nodes are stored.
pub proof fn lemma_tree_of_expression_stable(
    before: &Program,
    after: &Program,
    expression: Expression,
)
    requires
        before.extended_by(after),
        before.expression_fits(expression, before.expressions().len()),
    ensures
        after.expression_fits(expression, after.expressions().len()),
        after.tree_of_expression(expression) == before.tree_of_expression(expression),
{
    lemma_expression_tree_stable(
        before.expressions(),
        after.expressions(),
        expression,
        before.expressions().len(),
    );
    lemma_expression_tree_bound(
        after,
        expression,
        before.expressions().len(),
        after.expressions().len(),
    );
}

/// Every stored node keeps its tree when more nodes are stored.
pub proof fn lemma_trees_stable(before: &Program, after: &Program)
    requires
        before.extended_by(after),
        before.well_formed(),
    ensures
        forall|slot: nat|
            slot < before.expressions().len() ==> #[trigger] after.expression_tree(slot)
                == before.expression_tree(slot),
        forall|slot: nat|
            slot < before.statements().len() ==> #[trigger] after.statement_tree(slot)
                == before.statement_tree(slot),
{
    assert forall|slot: nat| slot < before.expressions().len() implies #[trigger]
        after.expression_tree(slot) == before.expression_tree(slot) by {
        lemma_expression_tree_stable(
            before.expressions(),
            after.expressions(),
            before.expressions()[slot as int],
            slot,
        );
    }
    assert forall|slot: nat| slot < before.statements().len() implies #[trigger]
        after.statement_tree(slot) == before.statement_tree(slot) by {
        lemma_statement_tree_stable(before, after, before.statements()[slot as int], slot);
    }
}

/// Extension composes.
pub proof fn lemma_extended_by_transitive(first: &Program, second: &Program, third: &Program)
    requires
        first.extended_by(second),
        second.extended_by(third),
    ensures
        first.extended_by(third),
{
}

/// Storing more nodes changes the tree of no statement that was stored
/// before, nor that of a statement that refers to those.
pub proof fn lemma_statement_tree_stable(
    before: &Program,
    after: &Program,
    statement: Statement,
    bound: nat,
)
    requires
        before.extended_by(after),
        before.well_formed(),
        bound <= before.statements().len(),
        before.statement_fits(statement, bound),
    ensures
        statement_tree_of(before.statements(), before.expressions(), statement, bound)
            == statement_tree_of(after.statements(), after.expressions(), statement, bound),
        bound < before.statements().len() ==> before.statement_tree(bound) == after.statement_tree(
            bound,
        ),
    decreases bound, 1nat,
{
    lemma_statement_tree_of_stable(before, after, statement, bound);
    if bound < before.statements().len() {
        lemma_statement_tree_of_stable(before, after, before.statements()[bound as int], bound);
    }
}

proof fn lemma_statement_tree_of_stable(
    before: &Program,
    after: &Program,
    statement: Statement,
    bound: nat,
)
    requires
        before.extended_by(after),
        before.well_formed(),
        bound <= before.statements().len(),
        before.statement_fits(statement, bound),
    ensures
        statement_tree_of(before.statements(), before.expressions(), statement, bound)
            == statement_tree_of(after.statements(), after.expressions(), statement, bound),
    decreases bound, 0nat,
{
    assert forall|slot: nat| slot < bound implies before.statement_tree(slot)
        == after.statement_tree(slot) by {
        lemma_statement_tree_stable(before, after, before.statements()[slot as int], slot);
    }
    assert forall|slot: nat| slot < before.expressions().len() implies expression_tree_at(
        before.expressions(),
        slot,
    ) == expression_tree_at(after.expressions(), slot) by {
        lemma_expression_tree_stable(
            before.expressions(),
            after.expressions(),
            before.expressions()[slot as int],
            slot,
        );
    }
    match statement {
        Statement::BlockStatement(children) => {
            let left = statement_tree_of(
                before.statements(),
                before.expressions(),
                statement,
                bound,
            )->Block_0;
            let right = statement_tree_of(
                after.statements(),
                after.expressions(),
                statement,
                bound,
            )->Block_0;
            assert forall|i: int| 0 <= i < left.len() implies left[i] == right[i] by {
                let slot = children@[i].slot();
                if slot < bound {
                    lemma_statement_tree_stable(
                        before,
                        after,
                        before.statements()[slot as int],
                        slot,
                    );
                }
            }
            assert(left =~= right);
        },
        _ => {},
    }
}

impl ExpressionTree {
    /// No part of the tree stands for a dangling handle.
    pub open spec fn complete(self) -> bool
        decreases self,
    {
        match self {
            ExpressionTree::BinOp { op, lhs, rhs } => lhs.complete() && rhs.complete(),
            ExpressionTree::FunctionCall { func, args } => {
                &&& func.complete()
                &&& forall|i: int| 0 <= i < args.len() ==> (#[trigger] args[i]).complete()
            },
            ExpressionTree::Integer(_) => true,
            ExpressionTree::Identifier(_) => true,
            ExpressionTree::Missing => false,
        }
    }
}

impl StatementTree {
    /// No part of the tree stands for a dangling handle.
    pub open spec fn complete(self) -> bool
        decreases self,
    {
        match self {
            StatementTree::Block(statements) => forall|i: int|
                0 <= i < statements.len() ==> (#[trigger] statements[i]).complete(),
            StatementTree::Let { identifier, expression } => expression.complete(),
            StatementTree::Expression(expression) => expression.complete(),
            StatementTree::Missing => false,
        }
    }
}

impl FunctionTree {
    /// No part of the body stands for a dangling handle.
    pub open spec fn complete(self) -> bool {
        self.body.complete()
    }
}

/// In a well-formed program no stored expression reaches a dangling
/// handle.
pub proof fn lemma_stored_expression_complete(program: &Program, slot: nat)
    requires
        program.well_formed(),
        slot < program.expressions().len(),
    ensures
        program.expression_tree(slot).complete(),
    decreases slot,
{
    let expression = program.expressions()[slot as int];
    assert(program.expression_fits(expression, slot));
    match expression {
        Expression::BinOp { op, lhs, rhs } => {
            lemma_stored_expression_complete(program, lhs.slot());
            lemma_stored_expression_complete(program, rhs.slot());
        },
        Expression::FunctionCall { func, args } => {
            lemma_stored_expression_complete(program, func.slot());
            let trees = program.expression_tree(slot)->args;
            assert forall|i: int| 0 <= i < trees.len() implies (#[trigger] trees[i]).complete() by {
                assert(program.expression_below(args@[i], slot));
                lemma_stored_expression_complete(program, args@[i].slot());
            }
        },
        _ => {},
    }
}

/// In a well-formed program no stored statement reaches a dangling
/// handle.
pub proof fn lemma_stored_statement_complete(program: &Program, slot: nat)
    requires
        program.well_formed(),
        slot < program.statements().len(),
    ensures
        program.statement_tree(slot).complete(),
    decreases slot,
{
    let statement = program.statements()[slot as int];
    assert(program.statement_fits(statement, slot));
    match statement {
        Statement::BlockStatement(children) => {
            let trees = program.statement_tree(slot)->Block_0;
            assert forall|i: int| 0 <= i < trees.len() implies (#[trigger] trees[i]).complete() by {
                assert(program.statement_below(children@[i], slot));
                lemma_stored_statement_complete(program, children@[i].slot());
            }
        },
        Statement::LetStatement { identifier, expression } => {
            lemma_stored_expression_complete(program, expression.slot());
        },
        Statement::ExpressionStatement(expression) => {
            lemma_stored_expression_complete(program, expression.slot());
        },
    }
}

/// No handle dangles: in a well-formed program every handle that can be
/// reached from the declarations names a stored node, so the tree of
/// each declaration is whole.
pub proof fn lemma_no_dangling_handles(program: &Program)
    requires
        program.well_formed(),
    ensures
        forall|i: int|
            0 <= i < program.tree().len() ==> (#[trigger] program.tree()[i]).complete(),
{
    assert forall|i: int| 0 <= i < program.tree().len() implies (#[trigger] program.tree()[
        i
    ]).complete() by {
        let declaration = program.declarations@[i];
        assert(program.declaration_fits(declaration));
        lemma_stored_statement_complete(program, declaration->statement.slot());
    }
}

} // verus!
