//! From the concrete parse tree to the abstract syntax tree.
//!
//! Each converter takes the parse tree node of one kind and builds the
//! syntax tree node that it means. Nodes below the one returned are stored
//! in the program as they are built. A converter takes only a node of the
//! shape that its kind has; `shape` holds the tests.
//!
//! The operands of an expression are grouped by the precedence climber of
//! the parser library. Nothing is proved of that climber, so the grouping
//! is tested before anything is built on it: a converter gives nothing
//! for a tree with an expression that the climber does not group by the
//! precedence of the operators.

use vstd::prelude::*;
use vstd::string::*;

pub mod climber;
pub mod grouping;
pub mod integer;
pub mod meaning;
pub mod precedence;
pub mod shape;

use self::climber::climb;
use self::grouping::{
    lemma_grouping_by_precedence, lemma_sound_stretch, make_chain_tokens,
    make_precedence_table, Grouping,
};
use self::integer::parse_integer;
use self::meaning::{
    block_statement_meaning, declaration_meaning, expression_list_has_meaning,
    expression_list_meaning, expression_meaning, expression_statement_meaning,
    function_call_meaning, function_declaration_meaning, identifier_meaning, integer_meaning,
    leaf_meaning, let_statement_meaning, operands, operator_of, operators,
    parameter_list_meaning, parameter_meaning, paren_expression_meaning, program_has_meaning,
    program_meaning, statement_meaning, term_meaning, type_meaning,
};
use self::precedence::tier_of;
use self::shape::{
    is_block_statement, is_declaration, is_expression, is_expression_list,
    is_expression_statement, is_function_call, is_function_declaration, is_identifier,
    is_integer, is_leaf, is_let_statement, is_operator, is_parameter, is_parameter_list,
    is_paren_expression, is_program, is_statement, is_term, is_type, ParseNode, Rule,
};
use crate::ast::tree::{
    leaf_tree, lemma_extended_by_transitive, lemma_tree_of_expression_stable,
    lemma_trees_stable, parameter_views, ExpressionTree,
};
use crate::ast::{
    BinOp, Declaration, Expression, ExpressionId, Program, Statement, StatementId, Type,
};

verus! {

/// Converts an identifier.
pub fn convert_identifier(pair: &ParseNode) -> (expression: Expression)
    requires
        is_identifier(*pair),
    ensures
        expression.is_leaf(),
        leaf_tree(expression) == identifier_meaning(*pair),
{
    Expression::Identifier(pair.text.clone())
}

/// Converts an integer literal.
pub fn convert_integer(pair: &ParseNode) -> (expression: Expression)
    requires
        is_integer(*pair),
    ensures
        expression.is_leaf(),
        leaf_tree(expression) == integer_meaning(*pair),
{
    Expression::Integer(parse_integer(pair.text.as_str()).unwrap())
}

/// Converts a leaf: an integer literal or an identifier.
pub fn convert_leaf(pair: &ParseNode) -> (expression: Expression)
    requires
        is_leaf(*pair),
    ensures
        expression.is_leaf(),
        leaf_tree(expression) == leaf_meaning(*pair),
{
    let inner = &pair.children[0];
    match inner.rule {
        Rule::integer => convert_integer(inner),
        _ => convert_identifier(inner),
    }
}

/// Converts a type.
pub fn convert_type(pair: &ParseNode) -> (ty: Type)
    requires
        is_type(*pair),
    ensures
        ty == type_meaning(*pair),
{
    if pair.text == String::from_str("int") {
        Type::Int
    } else if pair.text == String::from_str("bool") {
        Type::Boolean
    } else {
        Type::Unit
    }
}

/// Converts a parameter into its name and its type.
pub fn convert_parameter(pair: &ParseNode) -> (parameter: (String, Type))
    requires
        is_parameter(*pair),
    ensures
        (parameter.0@, parameter.1) == parameter_meaning(*pair),
{
    let name = pair.children[0].text.clone();
    let ty = convert_type(&pair.children[1]);
    (name, ty)
}

/// Converts a parameter list, in source order.
pub fn convert_parameter_list(pair: &ParseNode) -> (parameters: Vec<(String, Type)>)
    requires
        is_parameter_list(*pair),
    ensures
        parameter_views(parameters@) == parameter_list_meaning(*pair),
{
    let mut parameters: Vec<(String, Type)> = Vec::new();
    let mut i: usize = 0;
    while i < pair.children.len()
        invariant
            is_parameter_list(*pair),
            0 <= i <= pair.children@.len(),
            parameters@.len() == i,
            forall|j: int|
                0 <= j < i ==> (#[trigger] parameters@[j].0@, parameters@[j].1)
                    == parameter_meaning(pair.children@[j]),
        decreases pair.children@.len() - i,
    {
        let parameter = convert_parameter(&pair.children[i]);
        parameters.push(parameter);
        i += 1;
    }
    assert(parameter_views(parameters@) =~= parameter_list_meaning(*pair));
    parameters
}

/// Stores both operands of an operator and returns the node that joins
/// them.
fn join(program: &mut Program, op: BinOp, lhs: Expression, rhs: Expression) -> (expression:
    Expression)
    requires
        old(program).well_formed(),
        old(program).expression_fits(lhs, old(program).expressions().len()),
        old(program).expression_fits(rhs, old(program).expressions().len()),
    ensures
        final(program).grown_from(old(program)),
        final(program).reads_expression(
            expression,
            (ExpressionTree::BinOp {
                op,
                lhs: Box::new(old(program).tree_of_expression(lhs)),
                rhs: Box::new(old(program).tree_of_expression(rhs)),
            }),
        ),
{
    let ghost entry = *program;
    let lhs_id = program.create_expression(lhs);
    let ghost with_lhs = *program;
    proof {
        lemma_tree_of_expression_stable(&entry, &with_lhs, rhs);
    }
    let rhs_id = program.create_expression(rhs);
    proof {
        lemma_trees_stable(&with_lhs, program);
        lemma_extended_by_transitive(&entry, &with_lhs, program);
        assert(program.expression_tree(lhs_id.slot()) == with_lhs.expression_tree(lhs_id.slot()));
    }
    Expression::BinOp { op, lhs: lhs_id, rhs: rhs_id }
}

/// Builds the expression of a grouping of the chain of `pair`, as far as
/// the grouping reads the chain by precedence. Returns the expression
/// with the positions of the first and the last operand read and the
/// lowest tier among the operators read.
fn build(pair: &ParseNode, grouping: &Grouping, program: &mut Program) -> (built: Option<
    (Expression, usize, usize, u8),
>)
    requires
        is_expression(*pair),
        old(program).well_formed(),
    ensures
        final(program).grown_from(old(program)),
        built.is_some() == (grouping.sound(*pair) && grouping.tree(*pair).complete()),
        built matches Some(read) ==> read.1 == grouping.first() && read.2 == grouping.last()
            && read.3 == grouping.lowest(*pair) && final(program).reads_expression(
            read.0,
            grouping.tree(*pair),
        ),
    decreases pair, 0nat, grouping,
{
    let count: usize = pair.children.len();
    match grouping {
        Grouping::Operand(position) => {
            let position: usize = *position;
            if position >= count || position % 2 != 0 {
                return None;
            }
            match convert_term(&pair.children[position], program) {
                Some(expression) => Some((expression, position, position, 2)),
                None => None,
            }
        },
        Grouping::Applied { operator, lhs, rhs } => {
            let operator: usize = *operator;
            if operator >= count || operator % 2 != 1 {
                return None;
            }
            let op = convert_operator(pair.children[operator].rule);
            let own: u8 = tier_of(op);
            let ghost entry = *program;
            let left = match build(pair, &**lhs, program) {
                Some(left) => left,
                None => {
                    return None;
                },
            };
            proof {
                lemma_sound_stretch(**lhs, *pair);
            }
            if left.2 + 1 != operator || left.3 < own {
                return None;
            }
            let ghost before_rhs = *program;
            let right = match build(pair, &**rhs, program) {
                Some(right) => right,
                None => {
                    proof {
                        lemma_extended_by_transitive(&entry, &before_rhs, program);
                    }
                    return None;
                },
            };
            let ghost after_rhs = *program;
            proof {
                lemma_sound_stretch(**rhs, *pair);
                lemma_extended_by_transitive(&entry, &before_rhs, &after_rhs);
                lemma_tree_of_expression_stable(&before_rhs, &after_rhs, left.0);
            }
            if right.1 != operator + 1 || right.3 <= own {
                return None;
            }
            let expression = join(program, op, left.0, right.0);
            proof {
                lemma_extended_by_transitive(&entry, &after_rhs, program);
            }
            let lowest: u8 = if own <= left.3 && own <= right.3 {
                own
            } else if left.3 <= right.3 {
                left.3
            } else {
                right.3
            };
            Some((expression, left.1, right.2, lowest))
        },
    }
}

/// The operator that an operator token writes.
pub fn convert_operator(rule: Rule) -> (op: BinOp)
    requires
        is_operator(rule),
    ensures
        op == operator_of(rule),
{
    match rule {
        Rule::plus => BinOp::Add,
        Rule::minus => BinOp::Sub,
        Rule::star => BinOp::Mul,
        _ => BinOp::Divide,
    }
}

/// Builds the expression of `pair` on a grouping of its chain. The
/// expression is built if the grouping reads the whole chain by
/// precedence and every operand has a meaning; nothing is built on any
/// other grouping.
pub fn convert_grouping(pair: &ParseNode, grouping: &Grouping, program: &mut Program) -> (expression:
    Option<Expression>)
    requires
        is_expression(*pair),
        old(program).well_formed(),
    ensures
        final(program).grown_from(old(program)),
        expression.is_some() == (grouping.reads_chain(*pair) && grouping.tree(*pair).complete()),
        expression matches Some(built) ==> final(program).reads_expression(
            built,
            grouping.tree(*pair),
        ),
    decreases pair, 1nat,
{
    match build(pair, grouping, program) {
        Some(read) => {
            proof {
                lemma_sound_stretch(*grouping, *pair);
            }
            if read.1 == 0 && read.2 + 1 == pair.children.len() {
                Some(read.0)
            } else {
                None
            }
        },
        None => None,
    }
}

/// Converts an expression. The climber groups the chain of operands and
/// operators; the expression is built if that grouping is the one by
/// precedence, and nothing is built on any other.
pub fn convert_expression(pair: &ParseNode, program: &mut Program) -> (expression: Option<
    Expression,
>)
    requires
        is_expression(*pair),
        old(program).well_formed(),
    ensures
        final(program).grown_from(old(program)),
        expression.is_some() == expression_meaning(*pair).complete(),
        expression matches Some(built) ==> final(program).reads_expression(
            built,
            expression_meaning(*pair),
        ),
    decreases pair, 2nat,
{
    let table = make_precedence_table();
    let (text, tokens) = make_chain_tokens(pair);
    let grouping = climb(&table, text.as_str(), &tokens);
    proof {
        if grouping.reads_chain(*pair) {
            lemma_grouping_by_precedence(grouping, *pair);
        }
    }
    convert_grouping(pair, &grouping, program)
}

/// Converts a term: a leaf, a parenthesized expression or a call.
pub fn convert_term(pair: &ParseNode, program: &mut Program) -> (expression: Option<Expression>)
    requires
        is_term(*pair),
        old(program).well_formed(),
    ensures
        final(program).grown_from(old(program)),
        expression.is_some() == term_meaning(*pair).complete(),
        expression matches Some(built) ==> final(program).reads_expression(
            built,
            term_meaning(*pair),
        ),
    decreases pair, 0nat,
{
    let inner = &pair.children[0];
    match inner.rule {
        Rule::leaf => Some(convert_leaf(inner)),
        Rule::paren_expression => convert_paren_expression(inner, program),
        _ => convert_function_call(inner, program),
    }
}

/// Converts a parenthesized expression.
pub fn convert_paren_expression(pair: &ParseNode, program: &mut Program) -> (expression: Option<
    Expression,
>)
    requires
        is_paren_expression(*pair),
        old(program).well_formed(),
    ensures
        final(program).grown_from(old(program)),
        expression.is_some() == paren_expression_meaning(*pair).complete(),
        expression matches Some(built) ==> final(program).reads_expression(
            built,
            paren_expression_meaning(*pair),
        ),
    decreases pair, 0nat,
{
    convert_expression(&pair.children[0], program)
}

/// A call has a meaning exactly when each of its arguments has one.
proof fn lemma_call_has_meaning(pair: ParseNode)
    requires
        is_function_call(pair),
    ensures
        function_call_meaning(pair).complete() == expression_list_has_meaning(pair.children@[1]),
{
    reveal_with_fuel(ExpressionTree::complete, 2);
    let tree = function_call_meaning(pair);
    let args = expression_list_meaning(pair.children@[1]);
    assert(tree->args == args);
    assert(tree->func.complete());
    if tree.complete() {
        assert forall|i: int| 0 <= i < pair.children@[1].children@.len() implies (
        #[trigger] expression_list_meaning(pair.children@[1])[i]).complete() by {
            assert((tree->args)[i].complete());
        }
    }
    if expression_list_has_meaning(pair.children@[1]) {
        assert forall|i: int| 0 <= i < (tree->args).len() implies (#[trigger] (tree->args)[
            i
        ]).complete() by {
            assert(expression_list_meaning(pair.children@[1])[i].complete());
        }
    }
}

/// Converts a call. The callee is stored as an identifier, then the
/// arguments are stored in their order.
pub fn convert_function_call(pair: &ParseNode, program: &mut Program) -> (expression: Option<
    Expression,
>)
    requires
        is_function_call(*pair),
        old(program).well_formed(),
    ensures
        final(program).grown_from(old(program)),
        expression.is_some() == function_call_meaning(*pair).complete(),
        expression matches Some(built) ==> final(program).reads_expression(
            built,
            function_call_meaning(*pair),
        ),
    decreases pair, 0nat,
{
    let ghost entry = *program;
    let ghost meanings = expression_list_meaning(pair.children@[1]);
    let callee = convert_identifier(&pair.children[0]);
    proof {
        lemma_call_has_meaning(*pair);
    }
    let arguments = match convert_expression_list(&pair.children[1], program) {
        Some(arguments) => arguments,
        None => {
            return None;
        },
    };
    let ghost converted = *program;
    let func = program.create_expression(callee);
    let ghost with_callee = *program;
    let ghost given = arguments@;
    let mut args: Vec<ExpressionId> = Vec::new();
    proof {
        assert forall|j: int| 0 <= j < given.len() implies program.reads_expression(
            #[trigger] given[j],
            meanings[j],
        ) by {
            lemma_tree_of_expression_stable(&converted, &with_callee, given[j]);
        }
        lemma_extended_by_transitive(&entry, &converted, program);
    }
    for argument in it: arguments.into_iter()
        invariant
            it.seq() == given,
            program.grown_from(&entry),
            with_callee.extended_by(program),
            meanings.len() == given.len(),
            args@.len() == it.index(),
            program.expression_below(func, program.expressions().len()),
            program.expression_tree(func.slot()) == identifier_meaning(pair.children@[0]),
            forall|j: int|
                0 <= j < args@.len() ==> program.expression_below(
                    #[trigger] args@[j],
                    program.expressions().len(),
                ) && program.expression_tree(args@[j].slot()) == meanings[j],
            forall|j: int|
                args@.len() <= j < given.len() ==> program.reads_expression(
                    #[trigger] given[j],
                    meanings[j],
                ),
    {
        let ghost before = *program;
        let ghost done = args@.len() as int;
        assert(argument == given[done]);
        let id = program.create_expression(argument);
        args.push(id);
        proof {
            lemma_trees_stable(&before, program);
            lemma_extended_by_transitive(&entry, &before, program);
            lemma_extended_by_transitive(&with_callee, &before, program);
            assert forall|j: int| done + 1 <= j < given.len() implies program.reads_expression(
                #[trigger] given[j],
                meanings[j],
            ) by {
                lemma_tree_of_expression_stable(&before, program, given[j]);
            }
        }
    }
    let expression = Expression::FunctionCall { func, args };
    proof {
        assert(program.tree_of_expression(expression)->args =~= meanings);
    }
    Some(expression)
}

/// Converts the expressions of a list, in source order. None of them is
/// stored.
pub fn convert_expression_list(pair: &ParseNode, program: &mut Program) -> (expressions: Option<
    Vec<Expression>,
>)
    requires
        is_expression_list(*pair),
        old(program).well_formed(),
    ensures
        final(program).grown_from(old(program)),
        expressions.is_some() == expression_list_has_meaning(*pair),
        expressions matches Some(built) ==> built@.len() == pair.children@.len() && forall|i: int|
            0 <= i < built@.len() ==> final(program).reads_expression(
                #[trigger] built@[i],
                expression_list_meaning(*pair)[i],
            ),
    decreases pair, 0nat,
{
    let ghost entry = *program;
    let mut expressions: Vec<Expression> = Vec::new();
    let mut i: usize = 0;
    while i < pair.children.len()
        invariant
            is_expression_list(*pair),
            entry == *old(program),
            0 <= i <= pair.children@.len(),
            expressions@.len() == i,
            program.grown_from(&entry),
            forall|j: int|
                0 <= j < i ==> (#[trigger] expression_list_meaning(*pair)[j]).complete(),
            forall|j: int|
                0 <= j < i ==> program.reads_expression(
                    #[trigger] expressions@[j],
                    expression_list_meaning(*pair)[j],
                ),
        decreases pair.children@.len() - i,
    {
        let ghost before = *program;
        let ghost earlier = expressions@;
        let expression = match convert_expression(&pair.children[i], program) {
            Some(expression) => expression,
            None => {
                proof {
                    lemma_extended_by_transitive(&entry, &before, program);
                    assert(!expression_list_meaning(*pair)[i as int].complete());
                }
                return None;
            },
        };
        expressions.push(expression);
        proof {
            lemma_extended_by_transitive(&entry, &before, program);
            assert forall|j: int| 0 <= j < i + 1 implies program.reads_expression(
                #[trigger] expressions@[j],
                expression_list_meaning(*pair)[j],
            ) by {
                if j < i {
                    assert(expressions@[j] == earlier[j]);
                    lemma_tree_of_expression_stable(&before, program, earlier[j]);
                }
            }
        }
        i += 1;
    }
    Some(expressions)
}

/// Converts an expression statement and stores its expression.
pub fn convert_expression_statement(pair: &ParseNode, program: &mut Program) -> (statement: Option<
    Statement,
>)
    requires
        is_expression_statement(*pair),
        old(program).well_formed(),
    ensures
        final(program).grown_from(old(program)),
        statement.is_some() == expression_statement_meaning(*pair).complete(),
        statement matches Some(built) ==> final(program).reads_statement(
            built,
            expression_statement_meaning(*pair),
        ),
{
    let ghost entry = *program;
    let expression = match convert_expression(&pair.children[0], program) {
        Some(expression) => expression,
        None => {
            return None;
        },
    };
    let ghost converted = *program;
    let id = program.create_expression(expression);
    proof {
        lemma_extended_by_transitive(&entry, &converted, program);
    }
    Some(Statement::ExpressionStatement(id))
}

/// Converts a let statement and stores its expression.
pub fn convert_let_statement(pair: &ParseNode, program: &mut Program) -> (statement: Option<
    Statement,
>)
    requires
        is_let_statement(*pair),
        old(program).well_formed(),
    ensures
        final(program).grown_from(old(program)),
        statement.is_some() == let_statement_meaning(*pair).complete(),
        statement matches Some(built) ==> final(program).reads_statement(
            built,
            let_statement_meaning(*pair),
        ),
{
    let ghost entry = *program;
    let identifier = pair.children[0].text.clone();
    let expression = match convert_expression(&pair.children[1], program) {
        Some(expression) => expression,
        None => {
            return None;
        },
    };
    let ghost converted = *program;
    let expression = program.create_expression(expression);
    proof {
        lemma_extended_by_transitive(&entry, &converted, program);
    }
    Some(Statement::LetStatement { identifier, expression })
}

/// Converts a block and stores its statements, in source order.
pub fn convert_block_statement(pair: &ParseNode, program: &mut Program) -> (statement: Option<
    Statement,
>)
    requires
        is_block_statement(*pair),
        old(program).well_formed(),
    ensures
        final(program).grown_from(old(program)),
        statement.is_some() == block_statement_meaning(*pair).complete(),
        statement matches Some(built) ==> final(program).reads_statement(
            built,
            block_statement_meaning(*pair),
        ),
    decreases pair,
{
    let ghost entry = *program;
    let ghost meanings = block_statement_meaning(*pair)->Block_0;
    let mut stmts: Vec<StatementId> = Vec::new();
    let mut i: usize = 0;
    while i < pair.children.len()
        invariant
            is_block_statement(*pair),
            entry == *old(program),
            meanings == block_statement_meaning(*pair)->Block_0,
            0 <= i <= pair.children@.len(),
            stmts@.len() == i,
            program.grown_from(&entry),
            forall|j: int| 0 <= j < i ==> (#[trigger] meanings[j]).complete(),
            forall|j: int|
                0 <= j < i ==> program.has_statement(#[trigger] stmts@[j])
                    && program.statement_tree(stmts@[j].slot()) == meanings[j],
        decreases pair.children@.len() - i,
    {
        let ghost before = *program;
        let ghost earlier = stmts@;
        let s = match convert_statement(&pair.children[i], program) {
            Some(s) => s,
            None => {
                proof {
                    lemma_extended_by_transitive(&entry, &before, program);
                    assert(!meanings[i as int].complete());
                }
                return None;
            },
        };
        let ghost converted = *program;
        let s = program.create_statement(s);
        stmts.push(s);
        proof {
            lemma_extended_by_transitive(&before, &converted, program);
            lemma_extended_by_transitive(&entry, &before, program);
            lemma_trees_stable(&before, program);
            assert forall|j: int| 0 <= j < i + 1 implies program.has_statement(
                #[trigger] stmts@[j],
            ) && program.statement_tree(stmts@[j].slot()) == meanings[j] by {
                if j < i {
                    assert(stmts@[j] == earlier[j]);
                    assert(program.statement_tree(earlier[j].slot()) == before.statement_tree(
                        earlier[j].slot(),
                    ));
                }
            }
        }
        i += 1;
    }
    let statement = Statement::BlockStatement(stmts);
    proof {
        assert(program.tree_of_statement(statement)->Block_0 =~= meanings);
    }
    Some(statement)
}

/// Converts a statement.
pub fn convert_statement(pair: &ParseNode, program: &mut Program) -> (statement: Option<Statement>)
    requires
        is_statement(*pair),
        old(program).well_formed(),
    ensures
        final(program).grown_from(old(program)),
        statement.is_some() == statement_meaning(*pair).complete(),
        statement matches Some(built) ==> final(program).reads_statement(
            built,
            statement_meaning(*pair),
        ),
    decreases pair,
{
    let statement_pair = &pair.children[0];
    match statement_pair.rule {
        Rule::expression_statement => convert_expression_statement(statement_pair, program),
        Rule::let_statement => convert_let_statement(statement_pair, program),
        _ => convert_block_statement(statement_pair, program),
    }
}

/// Converts a function declaration and stores its body.
pub fn convert_function_declaration(pair: &ParseNode, program: &mut Program) -> (declaration:
    Option<Declaration>)
    requires
        is_function_declaration(*pair),
        old(program).well_formed(),
    ensures
        final(program).grown_from(old(program)),
        declaration.is_some() == function_declaration_meaning(*pair).complete(),
        declaration matches Some(built) ==> final(program).declaration_fits(built),
        declaration matches Some(built) ==> final(program).tree_of_declaration(built)
            == function_declaration_meaning(*pair),
{
    let ghost entry = *program;
    let name = pair.children[0].text.clone();
    let parameters = convert_parameter_list(&pair.children[1]);
    let statement = match convert_block_statement(&pair.children[2], program) {
        Some(statement) => statement,
        None => {
            return None;
        },
    };
    let ghost converted = *program;
    let statement = program.create_statement(statement);
    proof {
        lemma_extended_by_transitive(&entry, &converted, program);
    }
    Some(Declaration::FunctionDeclaration { name, parameters, statement })
}

/// Converts a declaration.
pub fn convert_declaration(pair: &ParseNode, program: &mut Program) -> (declaration: Option<
    Declaration,
>)
    requires
        is_declaration(*pair),
        old(program).well_formed(),
    ensures
        final(program).grown_from(old(program)),
        declaration.is_some() == declaration_meaning(*pair).complete(),
        declaration matches Some(built) ==> final(program).declaration_fits(built),
        declaration matches Some(built) ==> final(program).tree_of_declaration(built)
            == declaration_meaning(*pair),
{
    convert_function_declaration(&pair.children[0], program)
}

/// Builds the program that a parse tree means. No handle in it dangles.
/// Nothing is built of a tree with an expression that has no meaning.
pub fn convert_program(pair: &ParseNode) -> (converted: Option<Program>)
    requires
        is_program(*pair),
    ensures
        converted.is_some() == program_has_meaning(*pair),
        converted matches Some(program) ==> program.well_formed() && program.tree()
            == program_meaning(*pair),
{
    let mut program = Program::new();
    let mut i: usize = 0;
    while i < pair.children.len()
        invariant
            is_program(*pair),
            0 <= i <= pair.children@.len(),
            program.well_formed(),
            program.declarations@.len() == i,
            forall|j: int|
                0 <= j < i ==> (#[trigger] declaration_meaning(pair.children@[j])).complete(),
            forall|j: int|
                0 <= j < i ==> program.tree_of_declaration(#[trigger] program.declarations@[j])
                    == declaration_meaning(pair.children@[j]),
        decreases pair.children@.len() - i,
    {
        let ghost before = program;
        let declaration = match convert_declaration(&pair.children[i], &mut program) {
            Some(declaration) => declaration,
            None => {
                assert(!declaration_meaning(pair.children@[i as int]).complete());
                return None;
            },
        };
        let ghost converted = program;
        program.declarations.push(declaration);
        proof {
            lemma_trees_stable(&before, &converted);
            assert(program.statements() == converted.statements());
            assert(program.expressions() == converted.expressions());
            assert forall|j: int| 0 <= j < i + 1 implies program.tree_of_declaration(
                #[trigger] program.declarations@[j],
            ) == declaration_meaning(pair.children@[j]) by {
                if j < i {
                    let earlier = before.declarations@[j];
                    assert(program.declarations@[j] == earlier);
                    assert(before.declaration_fits(earlier));
                    assert(converted.statement_tree(earlier->statement.slot())
                        == before.statement_tree(earlier->statement.slot()));
                }
            }
            assert forall|j: int| 0 <= j < program.declarations@.len() implies
                program.declaration_fits(#[trigger] program.declarations@[j]) by {
                if j < i {
                    assert(program.declarations@[j] == before.declarations@[j]);
                    assert(before.declaration_fits(before.declarations@[j]));
                }
            }
        }
        i += 1;
    }
    assert(program.tree() =~= program_meaning(*pair));
    Some(program)
}

} // verus!
