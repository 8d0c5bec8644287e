use hai::ast::{BinOp, Declaration, Expression, ExpressionId, Program, Statement, StatementId, Type};
use hai::parser::integer::parse_integer;
use hai::parser::shape::{
    check_expression, check_program, check_statement, check_type, ParseNode, Rule,
};
use hai::parser::{
    convert_expression, convert_parameter_list, convert_program, convert_statement, convert_type,
};

fn node(rule: Rule, text: &str, children: Vec<ParseNode>) -> ParseNode {
    ParseNode { rule, text: text.to_string(), children }
}

fn integer_term(text: &str) -> ParseNode {
    node(Rule::term, text, vec![node(Rule::leaf, text, vec![node(Rule::integer, text, vec![])])])
}

fn identifier_term(name: &str) -> ParseNode {
    node(Rule::term, name, vec![node(Rule::leaf, name, vec![node(Rule::identifier, name, vec![])])])
}

fn paren_term(inner: ParseNode) -> ParseNode {
    node(Rule::term, "", vec![node(Rule::paren_expression, "", vec![inner])])
}

fn call_term(callee: &str, arguments: Vec<ParseNode>) -> ParseNode {
    node(
        Rule::term,
        "",
        vec![node(
            Rule::function_call,
            "",
            vec![
                node(Rule::identifier, callee, vec![]),
                node(Rule::expression_list, "", arguments),
            ],
        )],
    )
}

fn operator(rule: Rule) -> ParseNode {
    let text = match rule {
        Rule::plus => "+",
        Rule::minus => "-",
        Rule::star => "*",
        _ => "/",
    };
    node(rule, text, vec![])
}

fn expression(children: Vec<ParseNode>) -> ParseNode {
    node(Rule::expression, "", children)
}

fn expression_statement(inner: ParseNode) -> ParseNode {
    node(Rule::statement, "", vec![node(Rule::expression_statement, "", vec![inner])])
}

fn let_statement(name: &str, inner: ParseNode) -> ParseNode {
    node(
        Rule::statement,
        "",
        vec![node(Rule::let_statement, "", vec![node(Rule::identifier, name, vec![]), inner])],
    )
}

fn block(statements: Vec<ParseNode>) -> ParseNode {
    node(Rule::block_statement, "", statements)
}

fn function(name: &str, parameters: Vec<(&str, &str)>, body: ParseNode) -> ParseNode {
    let parameters = parameters
        .into_iter()
        .map(|(name, ty)| {
            node(
                Rule::parameter,
                "",
                vec![node(Rule::identifier, name, vec![]), node(Rule::ty, ty, vec![])],
            )
        })
        .collect();
    node(
        Rule::declaration,
        "",
        vec![node(
            Rule::function_declaration,
            "",
            vec![
                node(Rule::identifier, name, vec![]),
                node(Rule::parameter_list, "", parameters),
                body,
            ],
        )],
    )
}

/// Writes an expression with every operation in parentheses.
fn show_expression(program: &Program, expression: &Expression) -> String {
    match expression {
        Expression::BinOp { op, lhs, rhs } => {
            let sign = match op {
                BinOp::Add => "+",
                BinOp::Sub => "-",
                BinOp::Mul => "*",
                BinOp::Divide => "/",
            };
            format!("({} {} {})", show_stored(program, *lhs), sign, show_stored(program, *rhs))
        }
        Expression::FunctionCall { func, args } => {
            let args: Vec<String> = args.iter().map(|a| show_stored(program, *a)).collect();
            format!("{}({})", show_stored(program, *func), args.join(", "))
        }
        Expression::Integer(value) => format!("{}", value),
        Expression::Identifier(name) => name.clone(),
    }
}

fn show_stored(program: &Program, id: ExpressionId) -> String {
    show_expression(program, program.get_expression(id).expect("a dangling expression handle"))
}

fn show_statement(program: &Program, statement: &Statement) -> String {
    match statement {
        Statement::BlockStatement(statements) => {
            let inner: Vec<String> =
                statements.iter().map(|s| show_stored_statement(program, *s)).collect();
            format!("{{ {} }}", inner.join(" "))
        }
        Statement::LetStatement { identifier, expression } => {
            format!("let {} = {};", identifier, show_stored(program, *expression))
        }
        Statement::ExpressionStatement(expression) => {
            format!("{};", show_stored(program, *expression))
        }
    }
}

fn show_stored_statement(program: &Program, id: StatementId) -> String {
    show_statement(program, program.get_statement(id).expect("a dangling statement handle"))
}

fn one_plus_two_times_three() -> ParseNode {
    expression(vec![
        integer_term("1"),
        operator(Rule::plus),
        integer_term("2"),
        operator(Rule::star),
        integer_term("3"),
    ])
}

#[test]
fn multiplication_binds_tighter_than_addition() {
    let tree = expression_statement(one_plus_two_times_three());
    assert!(check_statement(&tree));
    let mut program = Program::new();
    let statement = convert_statement(&tree, &mut program).unwrap();
    let root = match statement {
        Statement::ExpressionStatement(root) => root,
        other => panic!("not an expression statement: {:?}", other),
    };
    match program.get_expression(root).unwrap() {
        Expression::BinOp { op: BinOp::Add, lhs, rhs } => {
            assert!(matches!(program.get_expression(*lhs), Some(Expression::Integer(1))));
            match program.get_expression(*rhs).unwrap() {
                Expression::BinOp { op: BinOp::Mul, lhs, rhs } => {
                    assert!(matches!(program.get_expression(*lhs), Some(Expression::Integer(2))));
                    assert!(matches!(program.get_expression(*rhs), Some(Expression::Integer(3))));
                }
                other => panic!("not a product: {:?}", other),
            }
        }
        other => panic!("not a sum: {:?}", other),
    }
}

#[test]
fn subtraction_associates_to_the_left() {
    let tree = expression_statement(expression(vec![
        integer_term("1"),
        operator(Rule::minus),
        integer_term("2"),
        operator(Rule::minus),
        integer_term("3"),
    ]));
    let mut program = Program::new();
    let statement = convert_statement(&tree, &mut program).unwrap();
    assert_eq!(show_statement(&program, &statement), "((1 - 2) - 3);");
}

#[test]
fn let_binds_a_name_to_an_expression() {
    let tree = let_statement("a", expression(vec![integer_term("5")]));
    assert!(check_statement(&tree));
    let mut program = Program::new();
    let statement = convert_statement(&tree, &mut program).unwrap();
    match statement {
        Statement::LetStatement { identifier, expression } => {
            assert_eq!(identifier, "a");
            assert!(matches!(program.get_expression(expression), Some(Expression::Integer(5))));
        }
        other => panic!("not a let statement: {:?}", other),
    }
}

#[test]
fn call_keeps_callee_and_arguments_in_order() {
    let tree = expression_statement(expression(vec![call_term(
        "f",
        vec![expression(vec![identifier_term("a")]), expression(vec![identifier_term("b")])],
    )]));
    assert!(check_statement(&tree));
    let mut program = Program::new();
    let statement = convert_statement(&tree, &mut program).unwrap();
    let root = match statement {
        Statement::ExpressionStatement(root) => root,
        other => panic!("not an expression statement: {:?}", other),
    };
    match program.get_expression(root).unwrap() {
        Expression::FunctionCall { func, args } => {
            assert!(matches!(
                program.get_expression(*func),
                Some(Expression::Identifier(name)) if name == "f"
            ));
            assert_eq!(args.len(), 2);
            assert!(matches!(
                program.get_expression(args[0]),
                Some(Expression::Identifier(name)) if name == "a"
            ));
            assert!(matches!(
                program.get_expression(args[1]),
                Some(Expression::Identifier(name)) if name == "b"
            ));
        }
        other => panic!("not a call: {:?}", other),
    }
}

#[test]
fn operators_of_both_tiers_mix() {
    let cases: Vec<(Vec<ParseNode>, &str)> = vec![
        (
            vec![
                integer_term("1"),
                operator(Rule::star),
                integer_term("2"),
                operator(Rule::plus),
                integer_term("3"),
            ],
            "((1 * 2) + 3)",
        ),
        (
            vec![
                integer_term("8"),
                operator(Rule::slash),
                integer_term("4"),
                operator(Rule::slash),
                integer_term("2"),
            ],
            "((8 / 4) / 2)",
        ),
        (
            vec![
                integer_term("1"),
                operator(Rule::plus),
                integer_term("2"),
                operator(Rule::star),
                integer_term("3"),
                operator(Rule::slash),
                integer_term("4"),
                operator(Rule::minus),
                integer_term("5"),
            ],
            "((1 + ((2 * 3) / 4)) - 5)",
        ),
        (
            vec![
                integer_term("1"),
                operator(Rule::minus),
                integer_term("2"),
                operator(Rule::star),
                integer_term("3"),
                operator(Rule::plus),
                integer_term("4"),
                operator(Rule::star),
                integer_term("5"),
            ],
            "((1 - (2 * 3)) + (4 * 5))",
        ),
        (vec![identifier_term("x")], "x"),
    ];
    for (children, expected) in cases {
        let tree = expression(children);
        assert!(check_expression(&tree));
        let mut program = Program::new();
        let root = convert_expression(&tree, &mut program).unwrap();
        assert_eq!(show_expression(&program, &root), expected);
    }
}

#[test]
fn parentheses_group() {
    let tree = expression(vec![
        paren_term(expression(vec![
            integer_term("1"),
            operator(Rule::plus),
            integer_term("2"),
        ])),
        operator(Rule::star),
        integer_term("3"),
    ]);
    assert!(check_expression(&tree));
    let mut program = Program::new();
    let root = convert_expression(&tree, &mut program).unwrap();
    assert_eq!(show_expression(&program, &root), "((1 + 2) * 3)");
}

#[test]
fn call_arguments_are_whole_expressions() {
    let tree = expression(vec![
        call_term(
            "g",
            vec![
                one_plus_two_times_three(),
                expression(vec![call_term("h", vec![])]),
            ],
        ),
        operator(Rule::minus),
        integer_term("1"),
    ]);
    assert!(check_expression(&tree));
    let mut program = Program::new();
    let root = convert_expression(&tree, &mut program).unwrap();
    assert_eq!(show_expression(&program, &root), "(g((1 + (2 * 3)), h()) - 1)");
}

#[test]
fn program_keeps_declarations_in_order() {
    let tree = node(
        Rule::program,
        "",
        vec![
            function(
                "f",
                vec![("x", "int"), ("flag", "bool")],
                block(vec![
                    let_statement(
                        "y",
                        expression(vec![
                            identifier_term("x"),
                            operator(Rule::plus),
                            integer_term("1"),
                        ]),
                    ),
                    node(
                        Rule::statement,
                        "",
                        vec![block(vec![expression_statement(expression(vec![
                            identifier_term("y"),
                        ]))])],
                    ),
                ]),
            ),
            function("g", vec![], block(vec![])),
        ],
    );
    assert!(check_program(&tree));
    let program = convert_program(&tree).unwrap();
    assert_eq!(program.declarations.len(), 2);
    match &program.declarations[0] {
        Declaration::FunctionDeclaration { name, parameters, statement } => {
            assert_eq!(name, "f");
            assert_eq!(
                parameters,
                &vec![("x".to_string(), Type::Int), ("flag".to_string(), Type::Boolean)]
            );
            assert_eq!(show_stored_statement(&program, *statement), "{ let y = (x + 1); { y; } }");
        }
    }
    match &program.declarations[1] {
        Declaration::FunctionDeclaration { name, parameters, statement } => {
            assert_eq!(name, "g");
            assert!(parameters.is_empty());
            assert_eq!(show_stored_statement(&program, *statement), "{  }");
        }
    }
}

#[test]
fn every_handle_of_a_converted_program_resolves() {
    let tree = node(
        Rule::program,
        "",
        vec![function(
            "f",
            vec![("x", "int")],
            block(vec![
                expression_statement(expression(vec![call_term(
                    "g",
                    vec![one_plus_two_times_three(), expression(vec![identifier_term("x")])],
                )])),
                let_statement("y", one_plus_two_times_three()),
            ]),
        )],
    );
    let program = convert_program(&tree).unwrap();
    fn walk_expression(program: &Program, id: ExpressionId) -> usize {
        match program.get_expression(id).expect("a dangling expression handle") {
            Expression::BinOp { lhs, rhs, .. } => {
                1 + walk_expression(program, *lhs) + walk_expression(program, *rhs)
            }
            Expression::FunctionCall { func, args } => {
                1 + walk_expression(program, *func)
                    + args.iter().map(|a| walk_expression(program, *a)).sum::<usize>()
            }
            _ => 1,
        }
    }
    fn walk_statement(program: &Program, id: StatementId) -> usize {
        match program.get_statement(id).expect("a dangling statement handle") {
            Statement::BlockStatement(statements) => {
                statements.iter().map(|s| walk_statement(program, *s)).sum()
            }
            Statement::LetStatement { expression, .. } => walk_expression(program, *expression),
            Statement::ExpressionStatement(expression) => walk_expression(program, *expression),
        }
    }
    let mut expressions = 0;
    for declaration in &program.declarations {
        match declaration {
            Declaration::FunctionDeclaration { statement, .. } => {
                expressions += walk_statement(&program, *statement);
            }
        }
    }
    assert_eq!(expressions, 13);
}

#[test]
fn types_are_read_from_their_text() {
    assert_eq!(convert_type(&node(Rule::ty, "int", vec![])), Type::Int);
    assert_eq!(convert_type(&node(Rule::ty, "bool", vec![])), Type::Boolean);
    let unit = node(Rule::ty, "()", vec![node(Rule::unit_ty, "()", vec![])]);
    assert!(check_type(&unit));
    assert_eq!(convert_type(&unit), Type::Unit);
    assert!(!check_type(&node(Rule::ty, "float", vec![])));
    assert!(!check_type(&node(Rule::identifier, "int", vec![])));
    let parameters = node(
        Rule::parameter_list,
        "",
        vec![node(
            Rule::parameter,
            "",
            vec![node(Rule::identifier, "u", vec![]), unit],
        )],
    );
    assert_eq!(convert_parameter_list(&parameters), vec![("u".to_string(), Type::Unit)]);
}

#[test]
fn integer_literals_are_signed_32_bit() {
    assert_eq!(parse_integer("0"), Some(0));
    assert_eq!(parse_integer("007"), Some(7));
    assert_eq!(parse_integer("2147483647"), Some(i32::MAX));
    assert_eq!(parse_integer("2147483648"), None);
    assert_eq!(parse_integer("-2147483648"), Some(i32::MIN));
    assert_eq!(parse_integer("-2147483649"), None);
    assert_eq!(parse_integer("+15"), Some(15));
    assert_eq!(parse_integer("99999999999999999999999"), None);
    assert_eq!(parse_integer(""), None);
    assert_eq!(parse_integer("-"), None);
    assert_eq!(parse_integer("12a"), None);
    assert_eq!(parse_integer("१२"), None);
    for text in ["0", "42", "-42", "+42", "2147483647", "2147483648", "-2147483648", "x", "1 "] {
        assert_eq!(parse_integer(text), text.parse::<i32>().ok());
    }
}

#[test]
fn malformed_trees_are_told_apart() {
    let too_large = expression_statement(expression(vec![integer_term("2147483648")]));
    assert!(!check_statement(&too_large));
    let dangling_operator =
        expression(vec![integer_term("1"), operator(Rule::plus)]);
    assert!(!check_expression(&dangling_operator));
    let two_terms = expression(vec![integer_term("1"), integer_term("2")]);
    assert!(!check_expression(&two_terms));
    let empty = expression(vec![]);
    assert!(!check_expression(&empty));
    let wrong_tag = node(Rule::statement, "", vec![node(Rule::expression, "", vec![])]);
    assert!(!check_statement(&wrong_tag));
    let not_a_program = node(Rule::declaration, "", vec![]);
    assert!(!check_program(&not_a_program));
    let statement_at_top = node(Rule::program, "", vec![two_terms]);
    assert!(!check_program(&statement_at_top));
    assert!(check_program(&node(Rule::program, "", vec![])));
}
