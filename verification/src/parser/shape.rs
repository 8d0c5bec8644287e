//! The concrete parse tree and the shapes that the converter accepts.
//!
//! For each kind of node there is a predicate that says which trees the
//! converter takes for it, and a function that tests the predicate.

use vstd::prelude::*;
use vstd::string::*;

use super::integer::{integer_literal, parse_integer};

verus! {

/// The tag of a parse tree node.
#[allow(non_camel_case_types)]
#[derive(Debug, Clone, Copy, PartialEq, Eq, PartialOrd, Ord, Hash, Structural)]
pub enum Rule {
    program,
    declaration,
    function_declaration,
    parameter_list,
    parameter,
    ty,
    unit_ty,
    statement,
    block_statement,
    let_statement,
    expression_statement,
    expression,
    term,
    paren_expression,
    function_call,
    expression_list,
    leaf,
    integer,
    identifier,
    plus,
    minus,
    star,
    slash,
}

/// A node of the concrete parse tree: its tag, the text it spans, and the
/// nodes directly below it, in source order.
#[derive(Debug)]
pub struct ParseNode {
    pub rule: Rule,
    pub text: String,
    pub children: Vec<ParseNode>,
}

/// The tag of an operator token.
pub open spec fn is_operator(rule: Rule) -> bool {
    rule == Rule::plus || rule == Rule::minus || rule == Rule::star || rule == Rule::slash
}

/// An integer literal that a signed 32-bit integer can hold.
pub open spec fn is_integer(node: ParseNode) -> bool {
    node.rule == Rule::integer && integer_literal(node.text@).is_some()
}

/// An identifier.
pub open spec fn is_identifier(node: ParseNode) -> bool {
    node.rule == Rule::identifier
}

/// A leaf holds an integer literal or an identifier first.
pub open spec fn is_leaf(node: ParseNode) -> bool {
    &&& node.children@.len() >= 1
    &&& match node.children@[0].rule {
        Rule::integer => is_integer(node.children@[0]),
        Rule::identifier => true,
        _ => false,
    }
}

/// A term holds a leaf, a parenthesized expression or a call first.
pub open spec fn is_term(node: ParseNode) -> bool
    decreases node,
{
    &&& node.children@.len() >= 1
    &&& match node.children@[0].rule {
        Rule::leaf => is_leaf(node.children@[0]),
        Rule::paren_expression => is_paren_expression(node.children@[0]),
        Rule::function_call => is_function_call(node.children@[0]),
        _ => false,
    }
}

/// A parenthesized expression holds an expression first.
pub open spec fn is_paren_expression(node: ParseNode) -> bool
    decreases node,
{
    &&& node.rule == Rule::paren_expression
    &&& node.children@.len() >= 1
    &&& is_expression(node.children@[0])
}

/// A call holds the callee's identifier, then the list of arguments.
pub open spec fn is_function_call(node: ParseNode) -> bool
    decreases node,
{
    &&& node.rule == Rule::function_call
    &&& node.children@.len() >= 2
    &&& is_identifier(node.children@[0])
    &&& is_expression_list(node.children@[1])
}

/// An expression list holds expressions.
pub open spec fn is_expression_list(node: ParseNode) -> bool
    decreases node,
{
    &&& node.rule == Rule::expression_list
    &&& forall|i: int|
        0 <= i < node.children@.len() ==> is_expression(#[trigger] node.children@[i])
}

/// An expression holds terms with one operator between each two.
pub open spec fn is_expression(node: ParseNode) -> bool
    decreases node,
{
    &&& node.rule == Rule::expression
    &&& node.children@.len() % 2 == 1
    &&& forall|i: int|
        0 <= i < node.children@.len() ==> if i % 2 == 0 {
            is_term(#[trigger] node.children@[i])
        } else {
            is_operator(node.children@[i].rule)
        }
}

/// A type is written `int` or `bool`, or holds the unit type first.
pub open spec fn is_type(node: ParseNode) -> bool {
    &&& node.rule == Rule::ty
    &&& (node.text@ == "int"@ || node.text@ == "bool"@ || (node.children@.len() >= 1
        && node.children@[0].rule == Rule::unit_ty))
}

/// A parameter holds its name, then its type.
pub open spec fn is_parameter(node: ParseNode) -> bool {
    &&& node.rule == Rule::parameter
    &&& node.children@.len() >= 2
    &&& is_type(node.children@[1])
}

/// A parameter list holds parameters.
pub open spec fn is_parameter_list(node: ParseNode) -> bool {
    &&& node.rule == Rule::parameter_list
    &&& forall|i: int|
        0 <= i < node.children@.len() ==> is_parameter(#[trigger] node.children@[i])
}

/// An expression statement holds an expression first.
pub open spec fn is_expression_statement(node: ParseNode) -> bool {
    &&& node.rule == Rule::expression_statement
    &&& node.children@.len() >= 1
    &&& is_expression(node.children@[0])
}

/// A let statement holds the bound name, then the expression.
pub open spec fn is_let_statement(node: ParseNode) -> bool {
    &&& node.rule == Rule::let_statement
    &&& node.children@.len() >= 2
    &&& is_expression(node.children@[1])
}

/// A block holds statements.
pub open spec fn is_block_statement(node: ParseNode) -> bool
    decreases node,
{
    &&& node.rule == Rule::block_statement
    &&& forall|i: int|
        0 <= i < node.children@.len() ==> is_statement(#[trigger] node.children@[i])
}

/// A statement holds an expression statement, a let statement or a block
/// first.
pub open spec fn is_statement(node: ParseNode) -> bool
    decreases node,
{
    &&& node.rule == Rule::statement
    &&& node.children@.len() >= 1
    &&& match node.children@[0].rule {
        Rule::expression_statement => is_expression_statement(node.children@[0]),
        Rule::let_statement => is_let_statement(node.children@[0]),
        Rule::block_statement => is_block_statement(node.children@[0]),
        _ => false,
    }
}

/// A function declaration holds its name, its parameter list and its body.
pub open spec fn is_function_declaration(node: ParseNode) -> bool {
    &&& node.rule == Rule::function_declaration
    &&& node.children@.len() >= 3
    &&& is_parameter_list(node.children@[1])
    &&& is_block_statement(node.children@[2])
}

/// A declaration holds a function declaration first.
pub open spec fn is_declaration(node: ParseNode) -> bool {
    &&& node.rule == Rule::declaration
    &&& node.children@.len() >= 1
    &&& is_function_declaration(node.children@[0])
}

/// A program holds declarations.
pub open spec fn is_program(node: ParseNode) -> bool {
    &&& node.rule == Rule::program
    &&& forall|i: int|
        0 <= i < node.children@.len() ==> is_declaration(#[trigger] node.children@[i])
}

/// Tests whether a tag is that of an operator token.
pub fn check_operator(rule: Rule) -> (ok: bool)
    ensures
        ok == is_operator(rule),
{
    rule == Rule::plus || rule == Rule::minus || rule == Rule::star || rule == Rule::slash
}

/// Tests whether a tree is one that `convert_integer` takes.
pub fn check_integer(node: &ParseNode) -> (ok: bool)
    ensures
        ok == is_integer(*node),
{
    node.rule == Rule::integer && parse_integer(node.text.as_str()).is_some()
}

/// Tests whether a tree is one that `convert_leaf` takes.
pub fn check_leaf(node: &ParseNode) -> (ok: bool)
    ensures
        ok == is_leaf(*node),
{
    if node.children.len() < 1 {
        return false;
    }
    match node.children[0].rule {
        Rule::integer => check_integer(&node.children[0]),
        Rule::identifier => true,
        _ => false,
    }
}

/// Tests whether a tree is one that `convert_term` takes.
pub fn check_term(node: &ParseNode) -> (ok: bool)
    ensures
        ok == is_term(*node),
    decreases node,
{
    if node.children.len() < 1 {
        return false;
    }
    match node.children[0].rule {
        Rule::leaf => check_leaf(&node.children[0]),
        Rule::paren_expression => check_paren_expression(&node.children[0]),
        Rule::function_call => check_function_call(&node.children[0]),
        _ => false,
    }
}

/// Tests whether a tree is one that `convert_paren_expression` takes.
pub fn check_paren_expression(node: &ParseNode) -> (ok: bool)
    ensures
        ok == is_paren_expression(*node),
    decreases node,
{
    node.rule == Rule::paren_expression && node.children.len() >= 1 && check_expression(
        &node.children[0],
    )
}

/// Tests whether a tree is one that `convert_function_call` takes.
pub fn check_function_call(node: &ParseNode) -> (ok: bool)
    ensures
        ok == is_function_call(*node),
    decreases node,
{
    node.rule == Rule::function_call && node.children.len() >= 2 && node.children[0].rule
        == Rule::identifier && check_expression_list(&node.children[1])
}

/// Tests whether a tree is one that `convert_expression_list` takes.
pub fn check_expression_list(node: &ParseNode) -> (ok: bool)
    ensures
        ok == is_expression_list(*node),
    decreases node,
{
    if node.rule != Rule::expression_list {
        return false;
    }
    let mut i: usize = 0;
    while i < node.children.len()
        invariant
            0 <= i <= node.children@.len(),
            forall|j: int| 0 <= j < i ==> is_expression(#[trigger] node.children@[j]),
        decreases node.children@.len() - i,
    {
        if !check_expression(&node.children[i]) {
            return false;
        }
        i += 1;
    }
    true
}

/// Tests whether a tree is one that `convert_expression` takes.
pub fn check_expression(node: &ParseNode) -> (ok: bool)
    ensures
        ok == is_expression(*node),
    decreases node,
{
    if node.rule != Rule::expression || node.children.len() % 2 != 1 {
        return false;
    }
    let mut i: usize = 0;
    while i < node.children.len()
        invariant
            0 <= i <= node.children@.len(),
            forall|j: int|
                0 <= j < i ==> if j % 2 == 0 {
                    is_term(#[trigger] node.children@[j])
                } else {
                    is_operator(node.children@[j].rule)
                },
        decreases node.children@.len() - i,
    {
        let ok = if i % 2 == 0 {
            check_term(&node.children[i])
        } else {
            check_operator(node.children[i].rule)
        };
        if !ok {
            return false;
        }
        i += 1;
    }
    true
}

/// Tests whether a tree is one that `convert_type` takes.
pub fn check_type(node: &ParseNode) -> (ok: bool)
    ensures
        ok == is_type(*node),
{
    node.rule == Rule::ty && (node.text == String::from_str("int") || node.text
        == String::from_str("bool") || (node.children.len() >= 1 && node.children[0].rule
        == Rule::unit_ty))
}

/// Tests whether a tree is one that `convert_parameter` takes.
pub fn check_parameter(node: &ParseNode) -> (ok: bool)
    ensures
        ok == is_parameter(*node),
{
    node.rule == Rule::parameter && node.children.len() >= 2 && check_type(&node.children[1])
}

/// Tests whether a tree is one that `convert_parameter_list` takes.
pub fn check_parameter_list(node: &ParseNode) -> (ok: bool)
    ensures
        ok == is_parameter_list(*node),
{
    if node.rule != Rule::parameter_list {
        return false;
    }
    let mut i: usize = 0;
    while i < node.children.len()
        invariant
            0 <= i <= node.children@.len(),
            forall|j: int| 0 <= j < i ==> is_parameter(#[trigger] node.children@[j]),
        decreases node.children@.len() - i,
    {
        if !check_parameter(&node.children[i]) {
            return false;
        }
        i += 1;
    }
    true
}

/// Tests whether a tree is one that `convert_expression_statement`
/// takes.
pub fn check_expression_statement(node: &ParseNode) -> (ok: bool)
    ensures
        ok == is_expression_statement(*node),
{
    node.rule == Rule::expression_statement && node.children.len() >= 1 && check_expression(
        &node.children[0],
    )
}

/// Tests whether a tree is one that `convert_let_statement` takes.
pub fn check_let_statement(node: &ParseNode) -> (ok: bool)
    ensures
        ok == is_let_statement(*node),
{
    node.rule == Rule::let_statement && node.children.len() >= 2 && check_expression(
        &node.children[1],
    )
}

/// Tests whether a tree is one that `convert_block_statement` takes.
pub fn check_block_statement(node: &ParseNode) -> (ok: bool)
    ensures
        ok == is_block_statement(*node),
    decreases node,
{
    if node.rule != Rule::block_statement {
        return false;
    }
    let mut i: usize = 0;
    while i < node.children.len()
        invariant
            0 <= i <= node.children@.len(),
            forall|j: int| 0 <= j < i ==> is_statement(#[trigger] node.children@[j]),
        decreases node.children@.len() - i,
    {
        if !check_statement(&node.children[i]) {
            return false;
        }
        i += 1;
    }
    true
}

/// Tests whether a tree is one that `convert_statement` takes.
pub fn check_statement(node: &ParseNode) -> (ok: bool)
    ensures
        ok == is_statement(*node),
    decreases node,
{
    if node.rule != Rule::statement || node.children.len() < 1 {
        return false;
    }
    match node.children[0].rule {
        Rule::expression_statement => check_expression_statement(&node.children[0]),
        Rule::let_statement => check_let_statement(&node.children[0]),
        Rule::block_statement => check_block_statement(&node.children[0]),
        _ => false,
    }
}

/// Tests whether a tree is one that `convert_function_declaration`
/// takes.
pub fn check_function_declaration(node: &ParseNode) -> (ok: bool)
    ensures
        ok == is_function_declaration(*node),
{
    node.rule == Rule::function_declaration && node.children.len() >= 3
        && check_parameter_list(&node.children[1]) && check_block_statement(&node.children[2])
}

/// Tests whether a tree is one that `convert_declaration` takes.
pub fn check_declaration(node: &ParseNode) -> (ok: bool)
    ensures
        ok == is_declaration(*node),
{
    node.rule == Rule::declaration && node.children.len() >= 1 && check_function_declaration(
        &node.children[0],
    )
}

/// Tests whether a tree is one that `convert_program` takes.
pub fn check_program(node: &ParseNode) -> (ok: bool)
    ensures
        ok == is_program(*node),
{
    if node.rule != Rule::program {
        return false;
    }
    let mut i: usize = 0;
    while i < node.children.len()
        invariant
            0 <= i <= node.children@.len(),
            forall|j: int| 0 <= j < i ==> is_declaration(#[trigger] node.children@[j]),
        decreases node.children@.len() - i,
    {
        if !check_declaration(&node.children[i]) {
            return false;
        }
        i += 1;
    }
    true
}

} // verus!
