#![allow(deprecated)]

use hai::ast::{BinOp, Expression, ExpressionId, Program};
use hai::parser::climber::Associativity;
use hai::parser::grouping::{make_chain_tokens, make_precedence_table, Grouping};
use hai::parser::precedence::tier_of;
use hai::parser::{convert_expression, convert_grouping};
use hai::parser::shape::{check_expression, ParseNode, Rule};
use pest::iterators::PairsBuilder;
use pest::prec_climber::{Assoc, Operator, PrecClimber};

const OPERATORS: [(Rule, &str); 4] =
    [(Rule::plus, "+"), (Rule::minus, "-"), (Rule::star, "*"), (Rule::slash, "/")];

fn leaf_node(rule: Rule, text: &str, children: Vec<ParseNode>) -> ParseNode {
    ParseNode { rule, text: text.to_string(), children }
}

fn operand_name(position: usize) -> String {
    format!("x{}", position)
}

/// The operands `x0`, `x1`, ... with the given operators between them.
fn chain(operators: &[usize]) -> ParseNode {
    let mut children = Vec::new();
    for position in 0..=operators.len() {
        let name = operand_name(position);
        children.push(leaf_node(
            Rule::term,
            &name,
            vec![leaf_node(Rule::leaf, &name, vec![leaf_node(Rule::identifier, &name, vec![])])],
        ));
        if position < operators.len() {
            let (rule, text) = OPERATORS[operators[position]];
            children.push(leaf_node(rule, text, vec![]));
        }
    }
    leaf_node(Rule::expression, "", children)
}

fn written(program: &Program, expression: &Expression) -> String {
    match expression {
        Expression::BinOp { op, lhs, rhs } => {
            let sign = match op {
                BinOp::Add => "+",
                BinOp::Sub => "-",
                BinOp::Mul => "*",
                BinOp::Divide => "/",
            };
            format!("({} {} {})", written_at(program, *lhs), sign, written_at(program, *rhs))
        }
        Expression::Identifier(name) => name.clone(),
        other => panic!("no such node in a chain: {:?}", other),
    }
}

fn written_at(program: &Program, id: ExpressionId) -> String {
    written(program, program.get_expression(id).expect("a dangling expression handle"))
}

/// What the precedence climber of the parser library makes of the chain.
fn climbed_by_pest(operators: &[usize]) -> String {
    let mut text = String::new();
    let mut spans = Vec::new();
    for position in 0..=operators.len() {
        let name = operand_name(position);
        spans.push((Rule::term, text.len(), text.len() + name.len()));
        text.push_str(&name);
        if position < operators.len() {
            let (rule, sign) = OPERATORS[operators[position]];
            spans.push((rule, text.len(), text.len() + sign.len()));
            text.push_str(sign);
        }
    }
    let mut builder = PairsBuilder::new(&text);
    for (rule, start, end) in spans {
        builder = builder.rule(rule, start, end);
    }
    let climber = PrecClimber::new(vec![
        Operator::new(Rule::plus, Assoc::Left) | Operator::new(Rule::minus, Assoc::Left),
        Operator::new(Rule::star, Assoc::Left) | Operator::new(Rule::slash, Assoc::Left),
    ]);
    climber.climb(
        builder.build(),
        |pair| pair.as_str().to_string(),
        |lhs: String, op, rhs: String| format!("({} {} {})", lhs, op.as_str(), rhs),
    )
}

fn all_chains(length: usize) -> Vec<Vec<usize>> {
    let mut chains = vec![vec![]];
    for _ in 0..length {
        let mut longer = Vec::new();
        for chain in &chains {
            for operator in 0..OPERATORS.len() {
                let mut next = chain.clone();
                next.push(operator);
                longer.push(next);
            }
        }
        chains = longer;
    }
    chains
}

#[test]
fn chains_convert_as_the_precedence_climber_reads_them() {
    let mut compared = 0;
    for length in 0..=6 {
        for operators in all_chains(length) {
            let tree = chain(&operators);
            assert!(check_expression(&tree));
            let mut program = Program::new();
            let root = convert_expression(&tree, &mut program).unwrap();
            assert_eq!(written(&program, &root), climbed_by_pest(&operators));
            compared += 1;
        }
    }
    assert_eq!(compared, 1 + 4 + 16 + 64 + 256 + 1024 + 4096);
}

#[test]
fn tiers_put_sums_below_products() {
    assert_eq!(tier_of(BinOp::Add), 0);
    assert_eq!(tier_of(BinOp::Sub), 0);
    assert_eq!(tier_of(BinOp::Mul), 1);
    assert_eq!(tier_of(BinOp::Divide), 1);
}

#[test]
fn a_long_chain_converts() {
    let operators: Vec<usize> = (0..2000).map(|i| (i * 7 + i / 3) % 4).collect();
    let tree = chain(&operators);
    let mut program = Program::new();
    let root = convert_expression(&tree, &mut program).unwrap();
    assert_eq!(written(&program, &root), climbed_by_pest(&operators));
}

fn operand(position: usize) -> Grouping {
    Grouping::operand(position)
}

fn applied(lhs: Grouping, operator: usize, rhs: Grouping) -> Grouping {
    Grouping::applied(lhs, operator, rhs)
}

/// What comes of building the chain on the grouping, written out.
fn built_on(operators: &[usize], grouping: &Grouping) -> Option<String> {
    let tree = chain(operators);
    let mut program = Program::new();
    convert_grouping(&tree, grouping, &mut program).map(|root| written(&program, &root))
}

#[test]
fn the_grouping_by_precedence_is_built_on() {
    // x0 + x1 * x2
    let by_precedence = applied(operand(0), 1, applied(operand(2), 3, operand(4)));
    assert_eq!(built_on(&[0, 2], &by_precedence), Some("(x0 + (x1 * x2))".to_string()));
    // x0 - x1 - x2
    let to_the_left = applied(applied(operand(0), 1, operand(2)), 3, operand(4));
    assert_eq!(built_on(&[1, 1], &to_the_left), Some("((x0 - x1) - x2)".to_string()));
    // x0 * x1 + x2
    assert_eq!(built_on(&[2, 0], &to_the_left), Some("((x0 * x1) + x2)".to_string()));
    assert_eq!(built_on(&[], &operand(0)), Some("x0".to_string()));
}

#[test]
fn other_groupings_are_refused() {
    let to_the_left = applied(applied(operand(0), 1, operand(2)), 3, operand(4));
    let to_the_right = applied(operand(0), 1, applied(operand(2), 3, operand(4)));
    // x0 + x1 * x2 read as (x0 + x1) * x2
    assert_eq!(built_on(&[0, 2], &to_the_left), None);
    // x0 - x1 - x2 read as x0 - (x1 - x2)
    assert_eq!(built_on(&[1, 1], &to_the_right), None);
    // x0 * x1 / x2 read as x0 * (x1 / x2)
    assert_eq!(built_on(&[2, 3], &to_the_right), None);
    // a part of the chain only
    assert_eq!(built_on(&[0, 2], &applied(operand(0), 1, operand(2))), None);
    assert_eq!(built_on(&[0, 2], &applied(operand(2), 3, operand(4))), None);
    assert_eq!(built_on(&[0], &operand(0)), None);
    // operands and operators out of their places
    assert_eq!(built_on(&[0], &applied(operand(2), 1, operand(0))), None);
    assert_eq!(built_on(&[0], &applied(operand(0), 0, operand(2))), None);
    assert_eq!(built_on(&[0], &applied(operand(0), 2, operand(2))), None);
    assert_eq!(built_on(&[0], &applied(operand(0), 1, operand(1))), None);
    assert_eq!(built_on(&[0], &applied(operand(0), 1, operand(4))), None);
    assert_eq!(built_on(&[0], &applied(operand(0), 3, operand(2))), None);
    assert_eq!(built_on(&[], &operand(1)), None);
    assert_eq!(built_on(&[], &operand(usize::MAX)), None);
    assert_eq!(built_on(&[0, 0], &applied(operand(0), 1, operand(4))), None);
}

#[test]
fn the_table_holds_the_tiers() {
    assert_eq!(
        make_precedence_table(),
        vec![
            vec![(Rule::plus, Associativity::Left), (Rule::minus, Associativity::Left)],
            vec![(Rule::star, Associativity::Left), (Rule::slash, Associativity::Left)],
        ]
    );
}

#[test]
fn chain_tokens_follow_the_chain() {
    let (text, tokens) = make_chain_tokens(&chain(&[0, 3]));
    assert_eq!(text, ".....");
    assert_eq!(
        tokens,
        vec![
            (Rule::term, 0, 1),
            (Rule::plus, 1, 2),
            (Rule::term, 2, 3),
            (Rule::slash, 3, 4),
            (Rule::term, 4, 5),
        ]
    );
}

#[test]
fn a_chain_below_a_refused_grouping_is_converted_first() {
    // The operands of a grouping are converted as the grouping is read,
    // so a refusal leaves what was stored before it.
    let tree = chain(&[0, 2]);
    let to_the_left = applied(applied(operand(0), 1, operand(2)), 3, operand(4));
    let mut program = Program::new();
    let kept = program.create_expression(Expression::Integer(7));
    assert!(convert_grouping(&tree, &to_the_left, &mut program).is_none());
    assert!(matches!(program.get_expression(kept), Some(Expression::Integer(7))));
}
