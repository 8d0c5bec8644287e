use hai::ast::pretty_print_visitor::PrettyPrintVisitor;
use hai::ast::visitor::Visitor;
use hai::ast::{BinOp, Declaration, Expression, Program, Statement, Type};
use hai::convertor::symbol_table::{SymbolTable, TypedVariable};
use hai::convertor::{ast2ir, ty_ast2ir, FunctionConvertor, LoweringError, ProgramConvertor};
use hai::ir;
use hai::ir::builder::FunctionBuilder;
use hai::ir::{Operation, Terminator, Value, Variable, BB};

fn declare(program: &mut Program, name: &str, parameters: Vec<(&str, Type)>, body: Vec<Statement>) {
    let mut ids = Vec::new();
    for statement in body {
        ids.push(program.create_statement(statement));
    }
    let statement = program.create_statement(Statement::BlockStatement(ids));
    program.declarations.push(Declaration::FunctionDeclaration {
        name: name.to_string(),
        parameters: parameters.into_iter().map(|(n, t)| (n.to_string(), t)).collect(),
        statement,
    });
}

fn let_x_plus_one(program: &mut Program, bound: &str, read: &str) -> Statement {
    let x = program.create_expression(Expression::Identifier(read.to_string()));
    let one = program.create_expression(Expression::Integer(1));
    let sum = program.create_expression(Expression::BinOp { op: BinOp::Add, lhs: x, rhs: one });
    Statement::LetStatement { identifier: bound.to_string(), expression: sum }
}

fn destinations(function: &ir::Function) -> Vec<u32> {
    let mut values = Vec::new();
    for block in &function.basic_blocks {
        for statement in &block.statements {
            if let ir::Statement::WithDestination(Value(number), _) = statement {
                values.push(*number);
            }
        }
    }
    values
}

#[test]
fn function_with_one_let_lowers_to_one_block() {
    let mut program = Program::new();
    let body = let_x_plus_one(&mut program, "y", "x");
    declare(&mut program, "f", vec![("x", Type::Int)], vec![body]);
    let module = ast2ir(&program).expect("the program lowers");
    assert_eq!(module.functions.len(), 1);
    let function = &module.functions[0];
    assert_eq!(function.name, "f");
    assert_eq!(function.params, vec![ir::Type::Int]);
    assert_eq!(function.variables, vec![ir::Type::Int, ir::Type::Int]);
    assert_eq!(function.basic_blocks.len(), 1);
    let block = &function.basic_blocks[0];
    assert_eq!(
        block.statements,
        vec![
            ir::Statement::WithDestination(Value(0), Operation::LoadVariable(Variable(0))),
            ir::Statement::WithDestination(Value(1), Operation::LoadImmediate(1)),
            ir::Statement::WithDestination(
                Value(2),
                Operation::BinaryAdd(Value(0), Value(1))
            ),
            ir::Statement::Operation(Operation::StoreVariable(Variable(1), Value(2))),
            ir::Statement::WithDestination(Value(3), Operation::LoadImmediate(0)),
        ]
    );
    assert_eq!(block.terminator, Terminator::Return(Value(3)));
    assert_eq!(destinations(function), vec![0, 1, 2, 3]);
}

#[test]
fn unbound_identifier_fails_the_lowering() {
    let mut program = Program::new();
    let body = let_x_plus_one(&mut program, "y", "z");
    declare(&mut program, "f", vec![("x", Type::Int)], vec![body]);
    assert_eq!(ast2ir(&program).err(), Some(LoweringError::UnresolvedName("z".to_string())));
}

#[test]
fn first_failure_is_the_one_reported() {
    let mut program = Program::new();
    let first = let_x_plus_one(&mut program, "a", "p");
    let second = let_x_plus_one(&mut program, "b", "q");
    declare(&mut program, "ok", vec![("x", Type::Int)], vec![]);
    declare(&mut program, "bad", vec![], vec![first, second]);
    declare(&mut program, "later", vec![], vec![]);
    assert_eq!(ast2ir(&program).err(), Some(LoweringError::UnresolvedName("p".to_string())));
}

#[test]
fn functions_are_lowered_each_on_its_own() {
    let mut program = Program::new();
    let first = let_x_plus_one(&mut program, "y", "x");
    let second = let_x_plus_one(&mut program, "x", "x");
    declare(&mut program, "f", vec![("x", Type::Int), ("b", Type::Boolean), ("u", Type::Unit)], vec![first]);
    declare(&mut program, "g", vec![("x", Type::Int)], vec![second]);
    declare(&mut program, "empty", vec![], vec![]);
    let module = ast2ir(&program).expect("the program lowers");
    let names: Vec<&str> = module.functions.iter().map(|f| f.name.as_str()).collect();
    assert_eq!(names, vec!["f", "g", "empty"]);
    assert_eq!(
        module.functions[0].params,
        vec![ir::Type::Int, ir::Type::Boolean, ir::Type::Unit]
    );
    assert_eq!(module.functions[0].variables.len(), 4);
    assert_eq!(module.functions[1].variables.len(), 2);
    assert_eq!(destinations(&module.functions[0]), vec![0, 1, 2, 3]);
    assert_eq!(destinations(&module.functions[1]), vec![0, 1, 2, 3]);
    let empty = &module.functions[2];
    assert!(empty.params.is_empty());
    assert!(empty.variables.is_empty());
    assert_eq!(
        empty.basic_blocks[0].statements,
        vec![ir::Statement::WithDestination(Value(0), Operation::LoadImmediate(0))]
    );
    assert_eq!(empty.basic_blocks[0].terminator, Terminator::Return(Value(0)));
}

#[test]
fn an_empty_program_lowers_to_an_empty_module() {
    let program = Program::new();
    let module = ast2ir(&program).expect("the program lowers");
    assert!(module.functions.is_empty());
}

#[test]
fn inner_scopes_shadow_and_end() {
    let mut program = Program::new();
    // { let a = 1; { let a = 2; a; } a; let a = 3; }
    let one = program.create_expression(Expression::Integer(1));
    let outer_let =
        program.create_statement(Statement::LetStatement { identifier: "a".to_string(), expression: one });
    let two = program.create_expression(Expression::Integer(2));
    let inner_let =
        program.create_statement(Statement::LetStatement { identifier: "a".to_string(), expression: two });
    let inner_read = program.create_expression(Expression::Identifier("a".to_string()));
    let inner_use = program.create_statement(Statement::ExpressionStatement(inner_read));
    let inner_block = Statement::BlockStatement(vec![inner_let, inner_use]);
    let outer_read = program.create_expression(Expression::Identifier("a".to_string()));
    let three = program.create_expression(Expression::Integer(3));
    let outer_let = program.get_statement(outer_let).unwrap().clone();
    declare(
        &mut program,
        "f",
        vec![],
        vec![
            outer_let,
            inner_block,
            Statement::ExpressionStatement(outer_read),
            Statement::LetStatement { identifier: "a".to_string(), expression: three },
        ],
    );
    let module = ast2ir(&program).expect("the program lowers");
    let function = &module.functions[0];
    assert_eq!(function.variables, vec![ir::Type::Int, ir::Type::Int]);
    assert_eq!(
        function.basic_blocks[0].statements,
        vec![
            ir::Statement::WithDestination(Value(0), Operation::LoadImmediate(1)),
            ir::Statement::Operation(Operation::StoreVariable(Variable(0), Value(0))),
            ir::Statement::WithDestination(Value(1), Operation::LoadImmediate(2)),
            ir::Statement::Operation(Operation::StoreVariable(Variable(1), Value(1))),
            ir::Statement::WithDestination(Value(2), Operation::LoadVariable(Variable(1))),
            ir::Statement::WithDestination(Value(3), Operation::LoadVariable(Variable(0))),
            ir::Statement::WithDestination(Value(4), Operation::LoadImmediate(3)),
            ir::Statement::Operation(Operation::StoreVariable(Variable(0), Value(4))),
            ir::Statement::WithDestination(Value(5), Operation::LoadImmediate(0)),
        ]
    );
}

#[test]
fn a_name_bound_in_a_closed_scope_is_unbound() {
    let mut program = Program::new();
    let one = program.create_expression(Expression::Integer(1));
    let inner_let =
        program.create_statement(Statement::LetStatement { identifier: "a".to_string(), expression: one });
    let read = program.create_expression(Expression::Identifier("a".to_string()));
    declare(
        &mut program,
        "f",
        vec![],
        vec![Statement::BlockStatement(vec![inner_let]), Statement::ExpressionStatement(read)],
    );
    assert_eq!(ast2ir(&program).err(), Some(LoweringError::UnresolvedName("a".to_string())));
}

#[test]
fn operators_lower_operands_left_first() {
    let mut program = Program::new();
    // (a - 2) * (a / 4)
    let a = program.create_expression(Expression::Identifier("a".to_string()));
    let two = program.create_expression(Expression::Integer(2));
    let difference = program.create_expression(Expression::BinOp { op: BinOp::Sub, lhs: a, rhs: two });
    let a_again = program.create_expression(Expression::Identifier("a".to_string()));
    let four = program.create_expression(Expression::Integer(4));
    let quotient =
        program.create_expression(Expression::BinOp { op: BinOp::Divide, lhs: a_again, rhs: four });
    let product = program
        .create_expression(Expression::BinOp { op: BinOp::Mul, lhs: difference, rhs: quotient });
    declare(&mut program, "f", vec![("a", Type::Int)], vec![Statement::ExpressionStatement(product)]);
    let module = ast2ir(&program).expect("the program lowers");
    assert_eq!(
        module.functions[0].basic_blocks[0].statements,
        vec![
            ir::Statement::WithDestination(Value(0), Operation::LoadVariable(Variable(0))),
            ir::Statement::WithDestination(Value(1), Operation::LoadImmediate(2)),
            ir::Statement::WithDestination(Value(2), Operation::BinarySub(Value(0), Value(1))),
            ir::Statement::WithDestination(Value(3), Operation::LoadVariable(Variable(0))),
            ir::Statement::WithDestination(Value(4), Operation::LoadImmediate(4)),
            ir::Statement::WithDestination(Value(5), Operation::BinaryDivide(Value(3), Value(4))),
            ir::Statement::WithDestination(Value(6), Operation::BinaryMul(Value(2), Value(5))),
            ir::Statement::WithDestination(Value(7), Operation::LoadImmediate(0)),
        ]
    );
}

#[test]
fn calls_are_not_lowered() {
    let mut program = Program::new();
    let callee = program.create_expression(Expression::Identifier("g".to_string()));
    let call = program.create_expression(Expression::FunctionCall { func: callee, args: vec![] });
    declare(&mut program, "f", vec![("g", Type::Int)], vec![Statement::ExpressionStatement(call)]);
    assert_eq!(ast2ir(&program).err(), Some(LoweringError::UnsupportedCall));

    let mut program = Program::new();
    let callee = program.create_expression(Expression::Identifier("g".to_string()));
    let call = program.create_expression(Expression::FunctionCall { func: callee, args: vec![] });
    declare(&mut program, "f", vec![], vec![Statement::ExpressionStatement(call)]);
    assert_eq!(ast2ir(&program).err(), Some(LoweringError::UnresolvedName("g".to_string())));
}

#[test]
fn visits_outside_a_function_are_out_of_place() {
    let mut convertor = ProgramConvertor::new();
    assert_eq!(convertor.visit_integer(5), None);
    assert_eq!(convertor.into_error(), Some(LoweringError::OutOfPlace));

    let mut convertor = ProgramConvertor::new();
    convertor.enter_function_declaration("f", &vec![]);
    assert_eq!(convertor.visit_integer(5), Some(Value(0)));
    assert_eq!(convertor.visit_let_statement("a", None), None);
    assert_eq!(convertor.visit_integer(6), None);
    assert!(convertor.visit_function_declaration("f", &vec![], None).is_none());
    assert_eq!(convertor.into_error(), Some(LoweringError::OutOfPlace));
}

#[test]
fn types_lower_to_their_namesakes() {
    assert_eq!(ty_ast2ir(Type::Unit), ir::Type::Unit);
    assert_eq!(ty_ast2ir(Type::Int), ir::Type::Int);
    assert_eq!(ty_ast2ir(Type::Boolean), ir::Type::Boolean);
}

#[test]
fn function_convertor_starts_from_the_parameters() {
    let parameters = vec![("a".to_string(), Type::Int), ("b".to_string(), Type::Boolean)];
    let convertor = FunctionConvertor::new("f", &parameters);
    let shown = format!("{:?}", convertor);
    assert!(shown.contains("\"a\""));
    assert!(shown.contains("\"b\""));
    assert!(shown.contains("variables: [Int, Boolean]"));
}

#[test]
fn symbol_table_resolves_innermost_first() {
    let mut table = SymbolTable::new();
    assert_eq!(table.depth(), 0);
    assert_eq!(table.lookup_variable("a"), None);
    table.end_scope();
    assert_eq!(table.depth(), 0);
    table.begin_scope();
    table.register_variable("a".to_string(), ir::Type::Int, Variable(0));
    table.register_variable("b".to_string(), ir::Type::Boolean, Variable(1));
    table.begin_scope();
    assert_eq!(table.lookup_innermost("a"), None);
    table.register_variable("a".to_string(), ir::Type::Unit, Variable(2));
    assert_eq!(
        table.lookup_variable("a"),
        Some(TypedVariable { ty: ir::Type::Unit, var: Variable(2) })
    );
    assert_eq!(
        table.lookup_variable("b"),
        Some(TypedVariable { ty: ir::Type::Boolean, var: Variable(1) })
    );
    table.register_variable("a".to_string(), ir::Type::Int, Variable(3));
    assert_eq!(
        table.lookup_innermost("a"),
        Some(TypedVariable { ty: ir::Type::Int, var: Variable(3) })
    );
    assert_eq!(table.lookup_variable("c"), None);
    table.end_scope();
    assert_eq!(table.depth(), 1);
    assert_eq!(
        table.lookup_variable("a"),
        Some(TypedVariable { ty: ir::Type::Int, var: Variable(0) })
    );
}

#[test]
fn builder_numbers_values_and_variables_in_order() {
    let mut builder = FunctionBuilder::new("f".to_string(), vec![ir::Type::Boolean, ir::Type::Int]);
    assert_eq!(builder.value_count(), 0);
    assert_eq!(builder.variable_count(), 0);
    assert!(!builder.is_terminated());
    assert_eq!(builder.create_variable_param(1), Variable(0));
    assert_eq!(builder.create_variable(ir::Type::Unit), Variable(1));
    assert_eq!(builder.create_variable_param(0), Variable(2));
    assert_eq!(builder.append_value_operation(Operation::LoadParam(0)), Value(0));
    let second = builder.create_new_bb();
    assert_eq!(second, BB(1));
    assert_eq!(builder.append_value_operation(Operation::LoadImmediate(7)), Value(1));
    builder.switch_to_bb(second);
    assert_eq!(builder.append_value_operation(Operation::LoadVariable(Variable(0))), Value(2));
    builder.append_no_value_operation(Operation::StoreVariable(Variable(1), Value(2)));
    builder.terminate_bb(Terminator::Return(Value(0)));
    builder.terminate_bb(Terminator::Return(Value(2)));
    assert!(!builder.is_terminated());
    builder.switch_to_bb(BB(0));
    builder.terminate_bb(Terminator::Return(Value(1)));
    assert!(builder.is_terminated());
    assert_eq!(builder.value_count(), 3);
    assert_eq!(builder.variable_count(), 3);
    let function = builder.into_function();
    assert_eq!(function.name, "f");
    assert_eq!(function.params, vec![ir::Type::Boolean, ir::Type::Int]);
    assert_eq!(function.variables, vec![ir::Type::Int, ir::Type::Unit, ir::Type::Boolean]);
    assert_eq!(function.basic_blocks.len(), 2);
    assert_eq!(
        function.basic_blocks[0].statements,
        vec![
            ir::Statement::WithDestination(Value(0), Operation::LoadParam(0)),
            ir::Statement::WithDestination(Value(1), Operation::LoadImmediate(7)),
        ]
    );
    assert_eq!(function.basic_blocks[0].terminator, Terminator::Return(Value(1)));
    assert_eq!(
        function.basic_blocks[1].statements,
        vec![
            ir::Statement::WithDestination(Value(2), Operation::LoadVariable(Variable(0))),
            ir::Statement::Operation(Operation::StoreVariable(Variable(1), Value(2))),
        ]
    );
    assert_eq!(function.basic_blocks[1].terminator, Terminator::Return(Value(2)));
}

#[test]
fn a_new_builder_has_one_empty_block() {
    let mut builder = FunctionBuilder::new("g".to_string(), vec![]);
    let value = builder.append_value_operation(Operation::LoadImmediate(0));
    builder.terminate_bb(Terminator::Return(value));
    let function = builder.into_function();
    assert_eq!(function.basic_blocks.len(), 1);
    assert!(function.params.is_empty());
    assert!(function.variables.is_empty());
}

#[test]
fn printing_twice_gives_the_same_lines() {
    let mut program = Program::new();
    let body = let_x_plus_one(&mut program, "y", "x");
    declare(&mut program, "f", vec![("x", Type::Int)], vec![body]);
    let mut first = PrettyPrintVisitor::new();
    assert_eq!(program.accept_program_visitor(&mut first), Some(()));
    let mut second = PrettyPrintVisitor::new();
    assert_eq!(program.accept_program_visitor(&mut second), Some(()));
    assert_eq!(first.lines(), second.lines());
    assert_eq!(program.accept_program_visitor(&mut first), Some(()));
    let twice = first.into_lines();
    let once = second.into_lines();
    assert_eq!(twice.len(), 2 * once.len());
    assert_eq!(&twice[..once.len()], &once[..]);
    assert_eq!(&twice[once.len()..], &once[..]);
}

#[test]
fn printer_writes_one_indented_line_for_each_node() {
    let mut program = Program::new();
    let callee = program.create_expression(Expression::Identifier("g".to_string()));
    let argument = program.create_expression(Expression::Integer(-2147483648));
    let other = program.create_expression(Expression::Integer(0));
    let call =
        program.create_expression(Expression::FunctionCall { func: callee, args: vec![argument, other] });
    let body = let_x_plus_one(&mut program, "y", "x");
    let quotient_lhs = program.create_expression(Expression::Integer(105));
    let quotient_rhs = program.create_expression(Expression::Integer(7));
    let quotient = program
        .create_expression(Expression::BinOp { op: BinOp::Divide, lhs: quotient_lhs, rhs: quotient_rhs });
    let inner = program.create_statement(Statement::ExpressionStatement(quotient));
    declare(
        &mut program,
        "f",
        vec![("x", Type::Int), ("b", Type::Boolean), ("u", Type::Unit)],
        vec![body, Statement::ExpressionStatement(call), Statement::BlockStatement(vec![inner])],
    );
    let mut printer = PrettyPrintVisitor::new();
    program.accept_program_visitor(&mut printer);
    let expected = vec![
        "program",
        "  function_def (name: f)",
        "    param (x, Int)",
        "    param (b, Boolean)",
        "    param (u, Unit)",
        "    block_stmt",
        "      let_stmt (id: y) :",
        "        binop_expr (op: Add)",
        "          identifier: x",
        "          integer: 1",
        "      expr_stmt:",
        "        func_call",
        "          identifier: g",
        "          integer: -2147483648",
        "          integer: 0",
        "      block_stmt",
        "        expr_stmt:",
        "          binop_expr (op: Divide)",
        "            integer: 105",
        "            integer: 7",
    ];
    assert_eq!(printer.lines(), &expected);
}

#[test]
fn a_walk_gives_nothing_for_a_foreign_handle() {
    let mut program = Program::new();
    let mut other = Program::new();
    let foreign = other.create_expression(Expression::Integer(1));
    let foreign_statement = other.create_statement(Statement::ExpressionStatement(foreign));
    let own = program.create_expression(Expression::Integer(2));
    let mut printer = PrettyPrintVisitor::new();
    assert_eq!(program.accept_expression_visitor(&mut printer, foreign), None);
    assert_eq!(program.accept_statement_visitor(&mut printer, foreign_statement), None);
    assert!(printer.lines().is_empty());
    assert_eq!(program.accept_expression_visitor(&mut printer, own), Some(()));
    assert_eq!(printer.lines(), &vec!["integer: 2"]);
}
