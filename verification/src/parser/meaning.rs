//! What a parse tree means: the syntax tree that the converter builds
//! for it.

use vstd::prelude::*;

use super::grouping::accepted;
use super::integer::integer_literal;
use super::precedence::combine;
use super::shape::{ParseNode, Rule};
use crate::ast::tree::{ExpressionTree, FunctionTree, StatementTree};
use crate::ast::{BinOp, Type};

verus! {

/// The operator that an operator token writes.
pub open spec fn operator_of(rule: Rule) -> BinOp {
    match rule {
        Rule::plus => BinOp::Add,
        Rule::minus => BinOp::Sub,
        Rule::star => BinOp::Mul,
        _ => BinOp::Divide,
    }
}

/// An identifier means its text.
pub open spec fn identifier_meaning(node: ParseNode) -> ExpressionTree {
    ExpressionTree::Identifier(node.text@)
}

/// An integer literal means the number that its text writes.
pub open spec fn integer_meaning(node: ParseNode) -> ExpressionTree {
    match integer_literal(node.text@) {
        Some(value) => ExpressionTree::Integer(value),
        None => ExpressionTree::Missing,
    }
}

/// A leaf means what the literal or identifier in it means.
pub open spec fn leaf_meaning(node: ParseNode) -> ExpressionTree {
    if node.children@[0].rule == Rule::integer {
        integer_meaning(node.children@[0])
    } else {
        identifier_meaning(node.children@[0])
    }
}

/// A term means what the leaf, the parenthesized expression or the
/// call in it means.
pub open spec fn term_meaning(node: ParseNode) -> ExpressionTree
    decreases node, 0nat,
{
    if node.children@.len() >= 1 {
        match node.children@[0].rule {
            Rule::leaf => leaf_meaning(node.children@[0]),
            Rule::paren_expression => paren_expression_meaning(node.children@[0]),
            Rule::function_call => function_call_meaning(node.children@[0]),
            _ => ExpressionTree::Missing,
        }
    } else {
        ExpressionTree::Missing
    }
}

/// A parenthesized expression means what the expression in it means.
pub open spec fn paren_expression_meaning(node: ParseNode) -> ExpressionTree
    decreases node, 0nat,
{
    if node.children@.len() >= 1 {
        expression_meaning(node.children@[0])
    } else {
        ExpressionTree::Missing
    }
}

/// A call of the named function on the arguments, in their order.
pub open spec fn function_call_meaning(node: ParseNode) -> ExpressionTree
    decreases node, 0nat,
{
    if node.children@.len() >= 2 {
        ExpressionTree::FunctionCall {
            func: Box::new(identifier_meaning(node.children@[0])),
            args: expression_list_meaning(node.children@[1]),
        }
    } else {
        ExpressionTree::Missing
    }
}

/// The meanings of the expressions of a list, in source order.
pub open spec fn expression_list_meaning(node: ParseNode) -> Seq<ExpressionTree>
    decreases node, 0nat,
{
    Seq::new(
        node.children@.len(),
        |i: int|
            if 0 <= i < node.children@.len() {
                expression_meaning(node.children@[i])
            } else {
                ExpressionTree::Missing
            },
    )
}

/// The operands of an expression, in source order.
pub open spec fn operands(node: ParseNode) -> Seq<ExpressionTree>
    decreases node, 0nat,
{
    Seq::new(
        ((node.children@.len() + 1) / 2) as nat,
        |i: int|
            if 0 <= 2 * i < node.children@.len() {
                term_meaning(node.children@[2 * i])
            } else {
                ExpressionTree::Missing
            },
    )
}

/// The operators of an expression, in source order.
pub open spec fn operators(node: ParseNode) -> Seq<BinOp> {
    Seq::new(
        (node.children@.len() / 2) as nat,
        |i: int| operator_of(node.children@[2 * i + 1].rule),
    )
}

/// The operands of an expression, joined by its operators according to
/// their precedence. An expression whose chain the climber groups in
/// another way has no meaning.
pub open spec fn expression_meaning(node: ParseNode) -> ExpressionTree
    decreases node, 1nat,
{
    if accepted(node) {
        combine(operands(node), operators(node))
    } else {
        ExpressionTree::Missing
    }
}

/// The type that a type node writes.
pub open spec fn type_meaning(node: ParseNode) -> Type {
    if node.text@ == "int"@ {
        Type::Int
    } else if node.text@ == "bool"@ {
        Type::Boolean
    } else {
        Type::Unit
    }
}

/// The name and the type of a parameter.
pub open spec fn parameter_meaning(node: ParseNode) -> (Seq<char>, Type) {
    (node.children@[0].text@, type_meaning(node.children@[1]))
}

/// The parameters of a list, in source order.
pub open spec fn parameter_list_meaning(node: ParseNode) -> Seq<(Seq<char>, Type)> {
    Seq::new(node.children@.len(), |i: int| parameter_meaning(node.children@[i]))
}

/// An expression statement means the statement of its expression.
pub open spec fn expression_statement_meaning(node: ParseNode) -> StatementTree {
    StatementTree::Expression(expression_meaning(node.children@[0]))
}

/// A let statement means the binding of its name to its expression.
pub open spec fn let_statement_meaning(node: ParseNode) -> StatementTree {
    StatementTree::Let {
        identifier: node.children@[0].text@,
        expression: expression_meaning(node.children@[1]),
    }
}

/// A block means the block of its statements, in source order.
pub open spec fn block_statement_meaning(node: ParseNode) -> StatementTree
    decreases node,
{
    StatementTree::Block(
        Seq::new(
            node.children@.len(),
            |i: int|
                if 0 <= i < node.children@.len() {
                    statement_meaning(node.children@[i])
                } else {
                    StatementTree::Missing
                },
        ),
    )
}

/// A statement means what the statement in it means.
pub open spec fn statement_meaning(node: ParseNode) -> StatementTree
    decreases node,
{
    if node.children@.len() >= 1 {
        match node.children@[0].rule {
            Rule::expression_statement => expression_statement_meaning(node.children@[0]),
            Rule::let_statement => let_statement_meaning(node.children@[0]),
            Rule::block_statement => block_statement_meaning(node.children@[0]),
            _ => StatementTree::Missing,
        }
    } else {
        StatementTree::Missing
    }
}

/// A function declaration means the function of its name, parameters
/// and body.
pub open spec fn function_declaration_meaning(node: ParseNode) -> FunctionTree {
    FunctionTree {
        name: node.children@[0].text@,
        parameters: parameter_list_meaning(node.children@[1]),
        body: block_statement_meaning(node.children@[2]),
    }
}

/// A declaration means what the function declaration in it means.
pub open spec fn declaration_meaning(node: ParseNode) -> FunctionTree {
    function_declaration_meaning(node.children@[0])
}

/// The functions that a program declares, in source order.
pub open spec fn program_meaning(node: ParseNode) -> Seq<FunctionTree> {
    Seq::new(node.children@.len(), |i: int| declaration_meaning(node.children@[i]))
}

/// Every function of the program has a meaning.
pub open spec fn program_has_meaning(node: ParseNode) -> bool {
    forall|i: int|
        0 <= i < node.children@.len() ==> (#[trigger] declaration_meaning(
            node.children@[i],
        )).complete()
}

/// Every expression of the list has a meaning.
pub open spec fn expression_list_has_meaning(node: ParseNode) -> bool {
    forall|i: int|
        0 <= i < node.children@.len() ==> (#[trigger] expression_list_meaning(node)[i]).complete()
}

} // verus!
