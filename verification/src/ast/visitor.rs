//! Traversals of a program.
//!
//! A program walks its own tree and tells a visitor what it meets: the
//! visitor hears of a node when the walk enters it, and again when
//! everything below the node has been visited, this time together with
//! what the visits below gave. A visitor states what each of its methods
//! does as a function on plain values; the walk as a whole then is the fold
//! of those functions over the tree.

use vstd::prelude::*;

use super::tree::parameter_views;
use super::{BinOp, Declaration, Expression, ExpressionId, Program, Statement, StatementId, Type};

verus! {

/// What a visit gave, as a plain value.
pub open spec fn item_view<T: View>(item: Option<T>) -> Option<T::V> {
    match item {
        Some(value) => Some(value@),
        None => None,
    }
}

/// What a run of visits gave, as plain values.
pub open spec fn item_views<T: View>(items: Seq<Option<T>>) -> Seq<Option<T::V>> {
    Seq::new(items.len(), |i: int| item_view(items[i]))
}

/// What the visit of a program gives, as a plain value.
pub type ProgramView<V> = Option<<<V as Visitor>::ProgramItem as View>::V>;

/// What the visit of a declaration gives, as a plain value.
pub type DeclarationView<V> = Option<<<V as Visitor>::DeclarationItem as View>::V>;

/// What the visit of a statement gives, as a plain value.
pub type StatementView<V> = Option<<<V as Visitor>::StatementItem as View>::V>;

/// What the visit of an expression gives, as a plain value.
pub type ExpressionView<V> = Option<<<V as Visitor>::ExpressionItem as View>::V>;

/// One method pair for each kind of node that has nodes below it, one
/// method for each kind that has none. Beside each method stands the
/// function that says what the method does to the visitor's state and what
/// it returns.
pub trait Visitor: Sized + View {
    type ProgramItem: View;

    type DeclarationItem: View;

    type StatementItem: View;

    type ExpressionItem: View;

    /// What holds of the visitor's state between any two calls.
    spec fn valid(state: Self::V) -> bool;

    spec fn after_enter_program(state: Self::V) -> Self::V;

    spec fn after_visit_program(state: Self::V, declarations: Seq<DeclarationView<Self>>) -> (
        Self::V,
        ProgramView<Self>,
    );

    spec fn after_enter_function_declaration(
        state: Self::V,
        name: Seq<char>,
        parameters: Seq<(Seq<char>, Type)>,
    ) -> Self::V;

    spec fn after_visit_function_declaration(
        state: Self::V,
        name: Seq<char>,
        parameters: Seq<(Seq<char>, Type)>,
        body: StatementView<Self>,
    ) -> (Self::V, DeclarationView<Self>);

    spec fn after_enter_block_statement(state: Self::V) -> Self::V;

    spec fn after_visit_block_statement(state: Self::V, statements: Seq<StatementView<Self>>) -> (
        Self::V,
        StatementView<Self>,
    );

    spec fn after_enter_let_statement(state: Self::V, identifier: Seq<char>) -> Self::V;

    spec fn after_visit_let_statement(
        state: Self::V,
        identifier: Seq<char>,
        expression: ExpressionView<Self>,
    ) -> (Self::V, StatementView<Self>);

    spec fn after_enter_expression_statement(state: Self::V) -> Self::V;

    spec fn after_visit_expression_statement(state: Self::V, expression: ExpressionView<Self>) -> (
        Self::V,
        StatementView<Self>,
    );

    spec fn after_enter_binop_expression(state: Self::V, op: BinOp) -> Self::V;

    spec fn after_visit_binop_expression(
        state: Self::V,
        op: BinOp,
        lhs: ExpressionView<Self>,
        rhs: ExpressionView<Self>,
    ) -> (Self::V, ExpressionView<Self>);

    spec fn after_enter_func_call(state: Self::V) -> Self::V;

    spec fn after_visit_func_call(
        state: Self::V,
        func: ExpressionView<Self>,
        args: Seq<ExpressionView<Self>>,
    ) -> (Self::V, ExpressionView<Self>);

    spec fn after_visit_integer(state: Self::V, i: i32) -> (Self::V, ExpressionView<Self>);

    spec fn after_visit_identifier(state: Self::V, id: Seq<char>) -> (
        Self::V,
        ExpressionView<Self>,
    );

    /// The walk enters the program.
    fn enter_program(&mut self)
        requires
            Self::valid(old(self)@),
        ensures
            Self::valid(final(self)@),
            final(self)@ == Self::after_enter_program(old(self)@),
    ;

    /// The walk leaves the program. `declarations` holds what the visits of
    /// the declarations gave, in their order.
    fn visit_program(&mut self, declarations: Vec<Option<Self::DeclarationItem>>) -> (item: Option<
        Self::ProgramItem,
    >)
        requires
            Self::valid(old(self)@),
        ensures
            Self::valid(final(self)@),
            (final(self)@, item_view(item)) == Self::after_visit_program(
                old(self)@,
                item_views(declarations@),
            ),
    ;

    /// The walk enters a function declaration.
    fn enter_function_declaration(&mut self, name: &str, parameters: &Vec<(String, Type)>)
        requires
            Self::valid(old(self)@),
        ensures
            Self::valid(final(self)@),
            final(self)@ == Self::after_enter_function_declaration(
                old(self)@,
                name@,
                parameter_views(parameters@),
            ),
    ;

    /// The walk leaves a function declaration. `body` is what the visit of
    /// the body gave.
    fn visit_function_declaration(
        &mut self,
        name: &str,
        parameters: &Vec<(String, Type)>,
        body: Option<Self::StatementItem>,
    ) -> (item: Option<Self::DeclarationItem>)
        requires
            Self::valid(old(self)@),
        ensures
            Self::valid(final(self)@),
            (final(self)@, item_view(item)) == Self::after_visit_function_declaration(
                old(self)@,
                name@,
                parameter_views(parameters@),
                item_view(body),
            ),
    ;

    /// The walk enters a block.
    fn enter_block_statement(&mut self)
        requires
            Self::valid(old(self)@),
        ensures
            Self::valid(final(self)@),
            final(self)@ == Self::after_enter_block_statement(old(self)@),
    ;

    /// The walk leaves a block. `statements` holds what the visits of its
    /// statements gave, in their order.
    fn visit_block_statement(&mut self, statements: Vec<Option<Self::StatementItem>>) -> (item:
        Option<Self::StatementItem>)
        requires
            Self::valid(old(self)@),
        ensures
            Self::valid(final(self)@),
            (final(self)@, item_view(item)) == Self::after_visit_block_statement(
                old(self)@,
                item_views(statements@),
            ),
    ;

    /// The walk enters a let statement.
    fn enter_let_statement(&mut self, identifier: &str)
        requires
            Self::valid(old(self)@),
        ensures
            Self::valid(final(self)@),
            final(self)@ == Self::after_enter_let_statement(old(self)@, identifier@),
    ;

    /// The walk leaves a let statement. `expression` is what the visit of
    /// the bound expression gave.
    fn visit_let_statement(&mut self, identifier: &str, expression: Option<Self::ExpressionItem>) -> (item:
        Option<Self::StatementItem>)
        requires
            Self::valid(old(self)@),
        ensures
            Self::valid(final(self)@),
            (final(self)@, item_view(item)) == Self::after_visit_let_statement(
                old(self)@,
                identifier@,
                item_view(expression),
            ),
    ;

    /// The walk enters an expression statement.
    fn enter_expression_statement(&mut self)
        requires
            Self::valid(old(self)@),
        ensures
            Self::valid(final(self)@),
            final(self)@ == Self::after_enter_expression_statement(old(self)@),
    ;

    /// The walk leaves an expression statement. `expression` is what the
    /// visit of the expression gave.
    fn visit_expression_statement(&mut self, expression: Option<Self::ExpressionItem>) -> (item:
        Option<Self::StatementItem>)
        requires
            Self::valid(old(self)@),
        ensures
            Self::valid(final(self)@),
            (final(self)@, item_view(item)) == Self::after_visit_expression_statement(
                old(self)@,
                item_view(expression),
            ),
    ;

    /// The walk enters a binary operation.
    fn enter_binop_expression(&mut self, op: BinOp)
        requires
            Self::valid(old(self)@),
        ensures
            Self::valid(final(self)@),
            final(self)@ == Self::after_enter_binop_expression(old(self)@, op),
    ;

    /// The walk leaves a binary operation. `lhs` and `rhs` are what the
    /// visits of the operands gave; the left one was visited first.
    fn visit_binop_expression(
        &mut self,
        op: BinOp,
        lhs: Option<Self::ExpressionItem>,
        rhs: Option<Self::ExpressionItem>,
    ) -> (item: Option<Self::ExpressionItem>)
        requires
            Self::valid(old(self)@),
        ensures
            Self::valid(final(self)@),
            (final(self)@, item_view(item)) == Self::after_visit_binop_expression(
                old(self)@,
                op,
                item_view(lhs),
                item_view(rhs),
            ),
    ;

    /// The walk enters a call.
    fn enter_func_call(&mut self)
        requires
            Self::valid(old(self)@),
        ensures
            Self::valid(final(self)@),
            final(self)@ == Self::after_enter_func_call(old(self)@),
    ;

    /// The walk leaves a call. `func` is what the visit of the callee
    /// gave, `args` what the visits of the arguments gave, in their order;
    /// the callee was visited first.
    fn visit_func_call(
        &mut self,
        func: Option<Self::ExpressionItem>,
        args: Vec<Option<Self::ExpressionItem>>,
    ) -> (item: Option<Self::ExpressionItem>)
        requires
            Self::valid(old(self)@),
        ensures
            Self::valid(final(self)@),
            (final(self)@, item_view(item)) == Self::after_visit_func_call(
                old(self)@,
                item_view(func),
                item_views(args@),
            ),
    ;

    /// The walk meets an integer literal.
    fn visit_integer(&mut self, i: i32) -> (item: Option<Self::ExpressionItem>)
        requires
            Self::valid(old(self)@),
        ensures
            Self::valid(final(self)@),
            (final(self)@, item_view(item)) == Self::after_visit_integer(old(self)@, i),
    ;

    /// The walk meets an identifier.
    fn visit_identifier(&mut self, id: &str) -> (item: Option<Self::ExpressionItem>)
        requires
            Self::valid(old(self)@),
        ensures
            Self::valid(final(self)@),
            (final(self)@, item_view(item)) == Self::after_visit_identifier(old(self)@, id@),
    ;
}

/// The walk of an expression: the visitor's state after it and what it
/// gives. A handle that names no expression of the program leaves the
/// state as it is and gives nothing.
pub open spec fn fold_expression<V: Visitor>(program: &Program, id: ExpressionId, state: V::V) -> (
    V::V,
    ExpressionView<V>,
)
    decreases id.slot(), 1nat, 0nat,
{
    if !program.has_expression(id) {
        (state, None)
    } else {
        match program.expression(id) {
            Expression::BinOp { op, lhs, rhs } => {
                let entered = V::after_enter_binop_expression(state, op);
                let (after_lhs, lhs_item) = if lhs.slot() < id.slot() {
                    fold_expression::<V>(program, lhs, entered)
                } else {
                    (entered, None)
                };
                let (after_rhs, rhs_item) = if rhs.slot() < id.slot() {
                    fold_expression::<V>(program, rhs, after_lhs)
                } else {
                    (after_lhs, None)
                };
                V::after_visit_binop_expression(after_rhs, op, lhs_item, rhs_item)
            },
            Expression::FunctionCall { func, args } => {
                let entered = V::after_enter_func_call(state);
                let (after_func, func_item) = if func.slot() < id.slot() {
                    fold_expression::<V>(program, func, entered)
                } else {
                    (entered, None)
                };
                let (after_args, arg_items) = fold_expressions::<V>(
                    program,
                    args@,
                    id.slot(),
                    after_func,
                );
                V::after_visit_func_call(after_args, func_item, arg_items)
            },
            Expression::Integer(i) => V::after_visit_integer(state, i),
            Expression::Identifier(name) => V::after_visit_identifier(state, name@),
        }
    }
}

/// The walks of a run of expressions in slots below `bound`, one after
/// the other.
pub open spec fn fold_expressions<V: Visitor>(
    program: &Program,
    ids: Seq<ExpressionId>,
    bound: nat,
    state: V::V,
) -> (V::V, Seq<ExpressionView<V>>)
    decreases bound, 0nat, ids.len(),
{
    if ids.len() == 0 {
        (state, Seq::empty())
    } else {
        let (earlier, items) = fold_expressions::<V>(program, ids.drop_last(), bound, state);
        let (after, item) = if ids.last().slot() < bound {
            fold_expression::<V>(program, ids.last(), earlier)
        } else {
            (earlier, None)
        };
        (after, items.push(item))
    }
}

/// The walk of a statement: the visitor's state after it and what it
/// gives. A handle that names no statement of the program leaves the state
/// as it is and gives nothing.
pub open spec fn fold_statement<V: Visitor>(program: &Program, id: StatementId, state: V::V) -> (
    V::V,
    StatementView<V>,
)
    decreases id.slot(), 1nat, 0nat,
{
    if !program.has_statement(id) {
        (state, None)
    } else {
        match program.statement(id) {
            Statement::BlockStatement(statements) => {
                let entered = V::after_enter_block_statement(state);
                let (after, items) = fold_statements::<V>(
                    program,
                    statements@,
                    id.slot(),
                    entered,
                );
                V::after_visit_block_statement(after, items)
            },
            Statement::LetStatement { identifier, expression } => {
                let entered = V::after_enter_let_statement(state, identifier@);
                let (after, item) = fold_expression::<V>(program, expression, entered);
                V::after_visit_let_statement(after, identifier@, item)
            },
            Statement::ExpressionStatement(expression) => {
                let entered = V::after_enter_expression_statement(state);
                let (after, item) = fold_expression::<V>(program, expression, entered);
                V::after_visit_expression_statement(after, item)
            },
        }
    }
}

/// The walks of a run of statements in slots below `bound`, one after the
/// other.
pub open spec fn fold_statements<V: Visitor>(
    program: &Program,
    ids: Seq<StatementId>,
    bound: nat,
    state: V::V,
) -> (V::V, Seq<StatementView<V>>)
    decreases bound, 0nat, ids.len(),
{
    if ids.len() == 0 {
        (state, Seq::empty())
    } else {
        let (earlier, items) = fold_statements::<V>(program, ids.drop_last(), bound, state);
        let (after, item) = if ids.last().slot() < bound {
            fold_statement::<V>(program, ids.last(), earlier)
        } else {
            (earlier, None)
        };
        (after, items.push(item))
    }
}

/// The walk of a declaration.
pub open spec fn fold_declaration<V: Visitor>(
    program: &Program,
    declaration: Declaration,
    state: V::V,
) -> (V::V, DeclarationView<V>) {
    match declaration {
        Declaration::FunctionDeclaration { name, parameters, statement } => {
            let entered = V::after_enter_function_declaration(
                state,
                name@,
                parameter_views(parameters@),
            );
            let (after, body) = fold_statement::<V>(program, statement, entered);
            V::after_visit_function_declaration(after, name@, parameter_views(parameters@), body)
        },
    }
}

/// The walks of a run of declarations, one after the other.
pub open spec fn fold_declarations<V: Visitor>(
    program: &Program,
    declarations: Seq<Declaration>,
    state: V::V,
) -> (V::V, Seq<DeclarationView<V>>)
    decreases declarations.len(),
{
    if declarations.len() == 0 {
        (state, Seq::empty())
    } else {
        let (earlier, items) = fold_declarations::<V>(program, declarations.drop_last(), state);
        let (after, item) = fold_declaration::<V>(program, declarations.last(), earlier);
        (after, items.push(item))
    }
}

/// The walk of a whole program.
pub open spec fn fold_program<V: Visitor>(program: &Program, state: V::V) -> (
    V::V,
    ProgramView<V>,
) {
    let entered = V::after_enter_program(state);
    let (after, items) = fold_declarations::<V>(program, program.declarations@, entered);
    V::after_visit_program(after, items)
}

/// Every method of the visitor takes two states that `related` holds of
/// to two states that `related` holds of, and returns the same for both.
pub open spec fn visits_keep<V: Visitor>(related: spec_fn(V::V, V::V) -> bool) -> bool {
    &&& forall|a: V::V, b: V::V|
        #![trigger V::after_enter_program(a), V::after_enter_program(b)]
        related(a, b) ==> related(V::after_enter_program(a), V::after_enter_program(b))
    &&& forall|a: V::V, b: V::V, items: Seq<DeclarationView<V>>|
        #![trigger V::after_visit_program(a, items), V::after_visit_program(b, items)]
        related(a, b) ==> related(
            V::after_visit_program(a, items).0,
            V::after_visit_program(b, items).0,
        ) && V::after_visit_program(a, items).1 == V::after_visit_program(b, items).1
    &&& forall|a: V::V, b: V::V, name: Seq<char>, parameters: Seq<(Seq<char>, Type)>|
        #![trigger V::after_enter_function_declaration(a, name, parameters), V::after_enter_function_declaration(b, name, parameters)]
        related(a, b) ==> related(
            V::after_enter_function_declaration(a, name, parameters),
            V::after_enter_function_declaration(b, name, parameters),
        )
    &&& forall|
        a: V::V,
        b: V::V,
        name: Seq<char>,
        parameters: Seq<(Seq<char>, Type)>,
        body: StatementView<V>,
    |
        #![trigger V::after_visit_function_declaration(a, name, parameters, body), V::after_visit_function_declaration(b, name, parameters, body)]
        related(a, b) ==> related(
            V::after_visit_function_declaration(a, name, parameters, body).0,
            V::after_visit_function_declaration(b, name, parameters, body).0,
        ) && V::after_visit_function_declaration(a, name, parameters, body).1
            == V::after_visit_function_declaration(b, name, parameters, body).1
    &&& forall|a: V::V, b: V::V|
        #![trigger V::after_enter_block_statement(a), V::after_enter_block_statement(b)]
        related(a, b) ==> related(
            V::after_enter_block_statement(a),
            V::after_enter_block_statement(b),
        )
    &&& forall|a: V::V, b: V::V, items: Seq<StatementView<V>>|
        #![trigger V::after_visit_block_statement(a, items), V::after_visit_block_statement(b, items)]
        related(a, b) ==> related(
            V::after_visit_block_statement(a, items).0,
            V::after_visit_block_statement(b, items).0,
        ) && V::after_visit_block_statement(a, items).1 == V::after_visit_block_statement(
            b,
            items,
        ).1
    &&& forall|a: V::V, b: V::V, identifier: Seq<char>|
        #![trigger V::after_enter_let_statement(a, identifier), V::after_enter_let_statement(b, identifier)]
        related(a, b) ==> related(
            V::after_enter_let_statement(a, identifier),
            V::after_enter_let_statement(b, identifier),
        )
    &&& forall|a: V::V, b: V::V, identifier: Seq<char>, item: ExpressionView<V>|
        #![trigger V::after_visit_let_statement(a, identifier, item), V::after_visit_let_statement(b, identifier, item)]
        related(a, b) ==> related(
            V::after_visit_let_statement(a, identifier, item).0,
            V::after_visit_let_statement(b, identifier, item).0,
        ) && V::after_visit_let_statement(a, identifier, item).1 == V::after_visit_let_statement(
            b,
            identifier,
            item,
        ).1
    &&& forall|a: V::V, b: V::V|
        #![trigger V::after_enter_expression_statement(a), V::after_enter_expression_statement(b)]
        related(a, b) ==> related(
            V::after_enter_expression_statement(a),
            V::after_enter_expression_statement(b),
        )
    &&& forall|a: V::V, b: V::V, item: ExpressionView<V>|
        #![trigger V::after_visit_expression_statement(a, item), V::after_visit_expression_statement(b, item)]
        related(a, b) ==> related(
            V::after_visit_expression_statement(a, item).0,
            V::after_visit_expression_statement(b, item).0,
        ) && V::after_visit_expression_statement(a, item).1
            == V::after_visit_expression_statement(b, item).1
    &&& forall|a: V::V, b: V::V, op: BinOp|
        #![trigger V::after_enter_binop_expression(a, op), V::after_enter_binop_expression(b, op)]
        related(a, b) ==> related(
            V::after_enter_binop_expression(a, op),
            V::after_enter_binop_expression(b, op),
        )
    &&& forall|a: V::V, b: V::V, op: BinOp, lhs: ExpressionView<V>, rhs: ExpressionView<V>|
        #![trigger V::after_visit_binop_expression(a, op, lhs, rhs), V::after_visit_binop_expression(b, op, lhs, rhs)]
        related(a, b) ==> related(
            V::after_visit_binop_expression(a, op, lhs, rhs).0,
            V::after_visit_binop_expression(b, op, lhs, rhs).0,
        ) && V::after_visit_binop_expression(a, op, lhs, rhs).1
            == V::after_visit_binop_expression(b, op, lhs, rhs).1
    &&& forall|a: V::V, b: V::V|
        #![trigger V::after_enter_func_call(a), V::after_enter_func_call(b)]
        related(a, b) ==> related(V::after_enter_func_call(a), V::after_enter_func_call(b))
    &&& forall|a: V::V, b: V::V, func: ExpressionView<V>, args: Seq<ExpressionView<V>>|
        #![trigger V::after_visit_func_call(a, func, args), V::after_visit_func_call(b, func, args)]
        related(a, b) ==> related(
            V::after_visit_func_call(a, func, args).0,
            V::after_visit_func_call(b, func, args).0,
        ) && V::after_visit_func_call(a, func, args).1 == V::after_visit_func_call(
            b,
            func,
            args,
        ).1
    &&& forall|a: V::V, b: V::V, i: i32|
        #![trigger V::after_visit_integer(a, i), V::after_visit_integer(b, i)]
        related(a, b) ==> related(V::after_visit_integer(a, i).0, V::after_visit_integer(b, i).0)
            && V::after_visit_integer(a, i).1 == V::after_visit_integer(b, i).1
    &&& forall|a: V::V, b: V::V, id: Seq<char>|
        #![trigger V::after_visit_identifier(a, id), V::after_visit_identifier(b, id)]
        related(a, b) ==> related(
            V::after_visit_identifier(a, id).0,
            V::after_visit_identifier(b, id).0,
        ) && V::after_visit_identifier(a, id).1 == V::after_visit_identifier(b, id).1
}

/// Two walks of one expression that start in related states end in
/// related states and give the same, if every method of the visitor keeps
/// the relation.
pub proof fn lemma_expression_walks_related<V: Visitor>(
    program: &Program,
    related: spec_fn(V::V, V::V) -> bool,
    id: ExpressionId,
    a: V::V,
    b: V::V,
)
    requires
        visits_keep::<V>(related),
        related(a, b),
    ensures
        related(fold_expression::<V>(program, id, a).0, fold_expression::<V>(program, id, b).0),
        fold_expression::<V>(program, id, a).1 == fold_expression::<V>(program, id, b).1,
    decreases id.slot(), 1nat, 0nat,
{
    if program.has_expression(id) {
        match program.expression(id) {
            Expression::BinOp { op, lhs, rhs } => {
                let a0 = V::after_enter_binop_expression(a, op);
                let b0 = V::after_enter_binop_expression(b, op);
                if lhs.slot() < id.slot() {
                    lemma_expression_walks_related::<V>(program, related, lhs, a0, b0);
                }
                let a1 = if lhs.slot() < id.slot() {
                    fold_expression::<V>(program, lhs, a0).0
                } else {
                    a0
                };
                let b1 = if lhs.slot() < id.slot() {
                    fold_expression::<V>(program, lhs, b0).0
                } else {
                    b0
                };
                if rhs.slot() < id.slot() {
                    lemma_expression_walks_related::<V>(program, related, rhs, a1, b1);
                }
            },
            Expression::FunctionCall { func, args } => {
                let a0 = V::after_enter_func_call(a);
                let b0 = V::after_enter_func_call(b);
                if func.slot() < id.slot() {
                    lemma_expression_walks_related::<V>(program, related, func, a0, b0);
                }
                let a1 = if func.slot() < id.slot() {
                    fold_expression::<V>(program, func, a0).0
                } else {
                    a0
                };
                let b1 = if func.slot() < id.slot() {
                    fold_expression::<V>(program, func, b0).0
                } else {
                    b0
                };
                lemma_expressions_walks_related::<V>(program, related, args@, id.slot(), a1, b1);
            },
            Expression::Integer(i) => {},
            Expression::Identifier(name) => {},
        }
    }
}

/// The same of the walks of a run of expressions.
pub proof fn lemma_expressions_walks_related<V: Visitor>(
    program: &Program,
    related: spec_fn(V::V, V::V) -> bool,
    ids: Seq<ExpressionId>,
    bound: nat,
    a: V::V,
    b: V::V,
)
    requires
        visits_keep::<V>(related),
        related(a, b),
    ensures
        related(
            fold_expressions::<V>(program, ids, bound, a).0,
            fold_expressions::<V>(program, ids, bound, b).0,
        ),
        fold_expressions::<V>(program, ids, bound, a).1 == fold_expressions::<V>(
            program,
            ids,
            bound,
            b,
        ).1,
    decreases bound, 0nat, ids.len(),
{
    if ids.len() > 0 {
        lemma_expressions_walks_related::<V>(program, related, ids.drop_last(), bound, a, b);
        if ids.last().slot() < bound {
            lemma_expression_walks_related::<V>(
                program,
                related,
                ids.last(),
                fold_expressions::<V>(program, ids.drop_last(), bound, a).0,
                fold_expressions::<V>(program, ids.drop_last(), bound, b).0,
            );
        }
    }
}

/// The same of the walks of a statement.
pub proof fn lemma_statement_walks_related<V: Visitor>(
    program: &Program,
    related: spec_fn(V::V, V::V) -> bool,
    id: StatementId,
    a: V::V,
    b: V::V,
)
    requires
        visits_keep::<V>(related),
        related(a, b),
    ensures
        related(fold_statement::<V>(program, id, a).0, fold_statement::<V>(program, id, b).0),
        fold_statement::<V>(program, id, a).1 == fold_statement::<V>(program, id, b).1,
    decreases id.slot(), 1nat, 0nat,
{
    if program.has_statement(id) {
        match program.statement(id) {
            Statement::BlockStatement(statements) => {
                lemma_statements_walks_related::<V>(
                    program,
                    related,
                    statements@,
                    id.slot(),
                    V::after_enter_block_statement(a),
                    V::after_enter_block_statement(b),
                );
            },
            Statement::LetStatement { identifier, expression } => {
                lemma_expression_walks_related::<V>(
                    program,
                    related,
                    expression,
                    V::after_enter_let_statement(a, identifier@),
                    V::after_enter_let_statement(b, identifier@),
                );
            },
            Statement::ExpressionStatement(expression) => {
                lemma_expression_walks_related::<V>(
                    program,
                    related,
                    expression,
                    V::after_enter_expression_statement(a),
                    V::after_enter_expression_statement(b),
                );
            },
        }
    }
}

/// The same of the walks of a run of statements.
pub proof fn lemma_statements_walks_related<V: Visitor>(
    program: &Program,
    related: spec_fn(V::V, V::V) -> bool,
    ids: Seq<StatementId>,
    bound: nat,
    a: V::V,
    b: V::V,
)
    requires
        visits_keep::<V>(related),
        related(a, b),
    ensures
        related(
            fold_statements::<V>(program, ids, bound, a).0,
            fold_statements::<V>(program, ids, bound, b).0,
        ),
        fold_statements::<V>(program, ids, bound, a).1 == fold_statements::<V>(
            program,
            ids,
            bound,
            b,
        ).1,
    decreases bound, 0nat, ids.len(),
{
    if ids.len() > 0 {
        lemma_statements_walks_related::<V>(program, related, ids.drop_last(), bound, a, b);
        if ids.last().slot() < bound {
            lemma_statement_walks_related::<V>(
                program,
                related,
                ids.last(),
                fold_statements::<V>(program, ids.drop_last(), bound, a).0,
                fold_statements::<V>(program, ids.drop_last(), bound, b).0,
            );
        }
    }
}

/// The same of the walks of a declaration.
pub proof fn lemma_declaration_walks_related<V: Visitor>(
    program: &Program,
    related: spec_fn(V::V, V::V) -> bool,
    declaration: Declaration,
    a: V::V,
    b: V::V,
)
    requires
        visits_keep::<V>(related),
        related(a, b),
    ensures
        related(
            fold_declaration::<V>(program, declaration, a).0,
            fold_declaration::<V>(program, declaration, b).0,
        ),
        fold_declaration::<V>(program, declaration, a).1 == fold_declaration::<V>(
            program,
            declaration,
            b,
        ).1,
{
    match declaration {
        Declaration::FunctionDeclaration { name, parameters, statement } => {
            lemma_statement_walks_related::<V>(
                program,
                related,
                statement,
                V::after_enter_function_declaration(a, name@, parameter_views(parameters@)),
                V::after_enter_function_declaration(b, name@, parameter_views(parameters@)),
            );
        },
    }
}

/// The same of the walks of a run of declarations.
pub proof fn lemma_declarations_walks_related<V: Visitor>(
    program: &Program,
    related: spec_fn(V::V, V::V) -> bool,
    declarations: Seq<Declaration>,
    a: V::V,
    b: V::V,
)
    requires
        visits_keep::<V>(related),
        related(a, b),
    ensures
        related(
            fold_declarations::<V>(program, declarations, a).0,
            fold_declarations::<V>(program, declarations, b).0,
        ),
        fold_declarations::<V>(program, declarations, a).1 == fold_declarations::<V>(
            program,
            declarations,
            b,
        ).1,
    decreases declarations.len(),
{
    if declarations.len() > 0 {
        lemma_declarations_walks_related::<V>(program, related, declarations.drop_last(), a, b);
        lemma_declaration_walks_related::<V>(
            program,
            related,
            declarations.last(),
            fold_declarations::<V>(program, declarations.drop_last(), a).0,
            fold_declarations::<V>(program, declarations.drop_last(), b).0,
        );
    }
}

/// The same of the walks of a whole program.
pub proof fn lemma_program_walks_related<V: Visitor>(
    program: &Program,
    related: spec_fn(V::V, V::V) -> bool,
    a: V::V,
    b: V::V,
)
    requires
        visits_keep::<V>(related),
        related(a, b),
    ensures
        related(fold_program::<V>(program, a).0, fold_program::<V>(program, b).0),
        fold_program::<V>(program, a).1 == fold_program::<V>(program, b).1,
{
    lemma_declarations_walks_related::<V>(
        program,
        related,
        program.declarations@,
        V::after_enter_program(a),
        V::after_enter_program(b),
    );
}

impl Program {
    /// Walks the program.
    pub fn accept_program_visitor<V: Visitor>(&self, visitor: &mut V) -> (item: Option<
        V::ProgramItem,
    >)
        requires
            self.well_formed(),
            V::valid(old(visitor)@),
        ensures
            V::valid(final(visitor)@),
            (final(visitor)@, item_view(item)) == fold_program::<V>(self, old(visitor)@),
    {
        visitor.enter_program();
        let ghost entered = visitor@;
        let mut items: Vec<Option<V::DeclarationItem>> = Vec::new();
        let mut i: usize = 0;
        while i < self.declarations.len()
            invariant
                self.well_formed(),
                0 <= i <= self.declarations@.len(),
                V::valid(visitor@),
                (visitor@, item_views(items@)) == fold_declarations::<V>(
                    self,
                    self.declarations@.take(i as int),
                    entered,
                ),
            decreases self.declarations@.len() - i,
        {
            let ghost earlier = item_views(items@);
            let item = self.accept_declaration_visitor(visitor, &self.declarations[i]);
            proof {
                assert(self.declarations@.take(i + 1).drop_last() =~= self.declarations@.take(
                    i as int,
                ));
                assert(item_views(items@.push(item)) =~= earlier.push(item_view(item)));
            }
            items.push(item);
            i += 1;
        }
        assert(self.declarations@.take(i as int) =~= self.declarations@);
        visitor.visit_program(items)
    }

    /// Walks a declaration.
    pub fn accept_declaration_visitor<V: Visitor>(&self, visitor: &mut V, decl: &Declaration) -> (item:
        Option<V::DeclarationItem>)
        requires
            self.well_formed(),
            V::valid(old(visitor)@),
        ensures
            V::valid(final(visitor)@),
            (final(visitor)@, item_view(item)) == fold_declaration::<V>(
                self,
                *decl,
                old(visitor)@,
            ),
    {
        match decl {
            Declaration::FunctionDeclaration { name, parameters, statement } => {
                visitor.enter_function_declaration(name.as_str(), parameters);
                let body = self.accept_statement_visitor(visitor, *statement);
                visitor.visit_function_declaration(name.as_str(), parameters, body)
            },
        }
    }

    /// Walks the statement that a handle names. Nothing is visited, and
    /// nothing is returned, for a handle that this program did not issue.
    pub fn accept_statement_visitor<V: Visitor>(&self, visitor: &mut V, id: StatementId) -> (item:
        Option<V::StatementItem>)
        requires
            self.well_formed(),
            V::valid(old(visitor)@),
        ensures
            V::valid(final(visitor)@),
            (final(visitor)@, item_view(item)) == fold_statement::<V>(self, id, old(visitor)@),
        decreases id.slot(),
    {
        match self.get_statement(id) {
            None => None,
            Some(stmt) => {
                assert(self.statement_fits(self.statements()[id.slot() as int], id.slot()));
                match stmt {
                    Statement::BlockStatement(stmts) => {
                        visitor.enter_block_statement();
                        let ghost entered = visitor@;
                        let mut items: Vec<Option<V::StatementItem>> = Vec::new();
                        let mut i: usize = 0;
                        while i < stmts.len()
                            invariant
                                self.well_formed(),
                                self.has_statement(id),
                                forall|j: int|
                                    0 <= j < stmts@.len() ==> self.statement_below(
                                        #[trigger] stmts@[j],
                                        id.slot(),
                                    ),
                                0 <= i <= stmts@.len(),
                                V::valid(visitor@),
                                (visitor@, item_views(items@)) == fold_statements::<V>(
                                    self,
                                    stmts@.take(i as int),
                                    id.slot(),
                                    entered,
                                ),
                            decreases stmts@.len() - i,
                        {
                            let ghost earlier = item_views(items@);
                            let item = self.accept_statement_visitor(visitor, stmts[i]);
                            proof {
                                assert(stmts@.take(i + 1).drop_last() =~= stmts@.take(i as int));
                                assert(item_views(items@.push(item)) =~= earlier.push(
                                    item_view(item),
                                ));
                            }
                            items.push(item);
                            i += 1;
                        }
                        assert(stmts@.take(i as int) =~= stmts@);
                        visitor.visit_block_statement(items)
                    },
                    Statement::LetStatement { identifier, expression } => {
                        visitor.enter_let_statement(identifier.as_str());
                        let item = self.accept_expression_visitor(visitor, *expression);
                        visitor.visit_let_statement(identifier.as_str(), item)
                    },
                    Statement::ExpressionStatement(expr) => {
                        visitor.enter_expression_statement();
                        let item = self.accept_expression_visitor(visitor, *expr);
                        visitor.visit_expression_statement(item)
                    },
                }
            },
        }
    }

    /// Walks the expression that a handle names. Nothing is visited, and
    /// nothing is returned, for a handle that this program did not issue.
    pub fn accept_expression_visitor<V: Visitor>(&self, visitor: &mut V, id: ExpressionId) -> (item:
        Option<V::ExpressionItem>)
        requires
            self.well_formed(),
            V::valid(old(visitor)@),
        ensures
            V::valid(final(visitor)@),
            (final(visitor)@, item_view(item)) == fold_expression::<V>(self, id, old(visitor)@),
        decreases id.slot(),
    {
        match self.get_expression(id) {
            None => None,
            Some(expr) => {
                assert(self.expression_fits(self.expressions()[id.slot() as int], id.slot()));
                match expr {
                    Expression::BinOp { op, lhs, rhs } => {
                        visitor.enter_binop_expression(*op);
                        let lhs_item = self.accept_expression_visitor(visitor, *lhs);
                        let rhs_item = self.accept_expression_visitor(visitor, *rhs);
                        visitor.visit_binop_expression(*op, lhs_item, rhs_item)
                    },
                    Expression::FunctionCall { func, args } => {
                        visitor.enter_func_call();
                        let func_item = self.accept_expression_visitor(visitor, *func);
                        let ghost entered = visitor@;
                        let mut items: Vec<Option<V::ExpressionItem>> = Vec::new();
                        let mut i: usize = 0;
                        while i < args.len()
                            invariant
                                self.well_formed(),
                                self.has_expression(id),
                                forall|j: int|
                                    0 <= j < args@.len() ==> self.expression_below(
                                        #[trigger] args@[j],
                                        id.slot(),
                                    ),
                                0 <= i <= args@.len(),
                                V::valid(visitor@),
                                (visitor@, item_views(items@)) == fold_expressions::<V>(
                                    self,
                                    args@.take(i as int),
                                    id.slot(),
                                    entered,
                                ),
                            decreases args@.len() - i,
                        {
                            let ghost earlier = item_views(items@);
                            let item = self.accept_expression_visitor(visitor, args[i]);
                            proof {
                                assert(args@.take(i + 1).drop_last() =~= args@.take(i as int));
                                assert(item_views(items@.push(item)) =~= earlier.push(
                                    item_view(item),
                                ));
                            }
                            items.push(item);
                            i += 1;
                        }
                        assert(args@.take(i as int) =~= args@);
                        visitor.visit_func_call(func_item, items)
                    },
                    Expression::Integer(i) => visitor.visit_integer(*i),
                    Expression::Identifier(name) => visitor.visit_identifier(name.as_str()),
                }
            },
        }
    }
}

} // verus!
