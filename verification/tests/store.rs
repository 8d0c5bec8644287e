use hai::ast::{BinOp, Expression, Program, Statement};

#[test]
fn stored_nodes_are_found_again() {
    let mut program = Program::new();
    let one = program.create_expression(Expression::Integer(1));
    let x = program.create_expression(Expression::Identifier("x".to_string()));
    let sum = program.create_expression(Expression::BinOp { op: BinOp::Add, lhs: one, rhs: x });
    let statement = program.create_statement(Statement::ExpressionStatement(sum));
    assert_eq!(one.index(), 0);
    assert_eq!(x.index(), 1);
    assert_eq!(sum.index(), 2);
    assert_eq!(statement.index(), 0);
    assert!(matches!(program.get_expression(one), Some(Expression::Integer(1))));
    assert!(matches!(program.get_expression(x), Some(Expression::Identifier(name)) if name == "x"));
    match program.get_expression(sum) {
        Some(Expression::BinOp { op: BinOp::Add, lhs, rhs }) => {
            assert_eq!(*lhs, one);
            assert_eq!(*rhs, x);
        }
        other => panic!("not the sum: {:?}", other),
    }
    match program.get_statement(statement) {
        Some(Statement::ExpressionStatement(expression)) => assert_eq!(*expression, sum),
        other => panic!("not the statement: {:?}", other),
    }
}

#[test]
fn handles_of_another_program_are_not_found() {
    let mut first = Program::new();
    let mut second = Program::new();
    let in_first = first.create_expression(Expression::Integer(1));
    let in_second = second.create_expression(Expression::Integer(2));
    let statement_in_first = first.create_statement(Statement::ExpressionStatement(in_first));
    assert_eq!(in_first.index(), in_second.index());
    assert_ne!(in_first, in_second);
    assert!(first.get_expression(in_second).is_none());
    assert!(second.get_expression(in_first).is_none());
    assert!(second.get_statement(statement_in_first).is_none());
    assert!(matches!(first.get_expression(in_first), Some(Expression::Integer(1))));
    assert!(matches!(second.get_expression(in_second), Some(Expression::Integer(2))));
}

#[test]
fn a_new_program_is_empty() {
    let program = Program::new();
    assert!(program.declarations.is_empty());
    let mut other = Program::new();
    let id = other.create_statement(Statement::BlockStatement(vec![]));
    assert!(program.get_statement(id).is_none());
}

#[test]
fn earlier_handles_keep_their_meaning() {
    let mut program = Program::new();
    let first = program.create_expression(Expression::Integer(10));
    for value in 0..100 {
        program.create_expression(Expression::Integer(value));
    }
    assert!(matches!(program.get_expression(first), Some(Expression::Integer(10))));
}
