use hai::ast::{Expression, ExpressionId, Program, Statement};
use hai::convertor::{ast2ir, LoweringError};
use hai::ir;
use hai::ir::{Operation, Terminator, Value, Variable};
use hai::parser::shape::{check_program, check_statement, ParseNode, Rule};
use hai::parser::{convert_program, convert_statement};
use pest::iterators::{Pair, PairsBuilder};

/// A node of a parse tree over a source text: its tag, the text it spans,
/// and the nodes below it.
struct Spanned {
    rule: Rule,
    text: &'static str,
    below: Vec<Spanned>,
}

fn spanned(rule: Rule, text: &'static str, below: Vec<Spanned>) -> Spanned {
    Spanned { rule, text, below }
}

fn integer_at(text: &'static str) -> Spanned {
    spanned(Rule::term, text, vec![spanned(Rule::leaf, text, vec![spanned(Rule::integer, text, vec![])])])
}

fn identifier_at(text: &'static str) -> Spanned {
    spanned(
        Rule::term,
        text,
        vec![spanned(Rule::leaf, text, vec![spanned(Rule::identifier, text, vec![])])],
    )
}

/// Lays the nodes out over `source`, each at the first occurrence of its
/// text at or after `from`, and returns the end of the last one.
fn lay_out<'i>(
    mut builder: PairsBuilder<'i, Rule>,
    source: &'i str,
    nodes: &[Spanned],
    mut from: usize,
) -> (PairsBuilder<'i, Rule>, usize) {
    for node in nodes {
        let start = from + source[from..].find(node.text).expect("the text of a node");
        let end = start + node.text.len();
        let below = &node.below;
        builder = builder.rule_with(node.rule, start, end, |inner| {
            lay_out(inner, source, below, start).0
        });
        from = end;
    }
    (builder, from)
}

fn read(pair: Pair<Rule>) -> ParseNode {
    ParseNode {
        rule: pair.as_rule(),
        text: pair.as_str().to_string(),
        children: pair.into_inner().map(read).collect(),
    }
}

/// The parse tree of `source` with the given shape, as the parser library
/// hands it out.
fn parse_tree(source: &str, shape: Spanned) -> ParseNode {
    let (builder, _) = lay_out(PairsBuilder::new(source), source, &[shape], 0);
    read(builder.build().next().unwrap())
}

fn show(program: &Program, id: ExpressionId) -> String {
    match program.get_expression(id).expect("a dangling expression handle") {
        Expression::BinOp { op, lhs, rhs } => format!(
            "BinOp({:?}, {}, {})",
            op,
            show(program, *lhs),
            show(program, *rhs)
        ),
        Expression::FunctionCall { func, args } => {
            let args: Vec<String> = args.iter().map(|a| show(program, *a)).collect();
            format!("FunctionCall({}, [{}])", show(program, *func), args.join(", "))
        }
        Expression::Integer(value) => format!("Integer({})", value),
        Expression::Identifier(name) => format!("Identifier({:?})", name),
    }
}

fn show_statement(program: &Program, statement: &Statement) -> String {
    match statement {
        Statement::BlockStatement(statements) => {
            let inner: Vec<String> = statements
                .iter()
                .map(|s| show_statement(program, program.get_statement(*s).unwrap()))
                .collect();
            format!("Block([{}])", inner.join(", "))
        }
        Statement::LetStatement { identifier, expression } => {
            format!("Let({:?}, {})", identifier, show(program, *expression))
        }
        Statement::ExpressionStatement(expression) => {
            format!("ExpressionStatement({})", show(program, *expression))
        }
    }
}

fn converted(source: &'static str, shape: Spanned) -> String {
    let tree = parse_tree(source, shape);
    assert_eq!(tree.text, source);
    assert!(check_statement(&tree));
    let mut program = Program::new();
    let statement = convert_statement(&tree, &mut program).expect("a grouping by precedence");
    show_statement(&program, &statement)
}

#[test]
fn parsing_a_sum_with_a_product() {
    let source = "1 + 2 * 3;";
    let shape = spanned(
        Rule::statement,
        source,
        vec![spanned(
            Rule::expression_statement,
            source,
            vec![spanned(
                Rule::expression,
                "1 + 2 * 3",
                vec![
                    integer_at("1"),
                    spanned(Rule::plus, "+", vec![]),
                    integer_at("2"),
                    spanned(Rule::star, "*", vec![]),
                    integer_at("3"),
                ],
            )],
        )],
    );
    assert_eq!(
        converted(source, shape),
        "ExpressionStatement(BinOp(Add, Integer(1), BinOp(Mul, Integer(2), Integer(3))))"
    );
}

#[test]
fn parsing_two_differences() {
    let source = "1 - 2 - 3;";
    let shape = spanned(
        Rule::statement,
        source,
        vec![spanned(
            Rule::expression_statement,
            source,
            vec![spanned(
                Rule::expression,
                "1 - 2 - 3",
                vec![
                    integer_at("1"),
                    spanned(Rule::minus, "-", vec![]),
                    integer_at("2"),
                    spanned(Rule::minus, "-", vec![]),
                    integer_at("3"),
                ],
            )],
        )],
    );
    assert_eq!(
        converted(source, shape),
        "ExpressionStatement(BinOp(Sub, BinOp(Sub, Integer(1), Integer(2)), Integer(3)))"
    );
}

#[test]
fn parsing_a_let() {
    let source = "let a = 5;";
    let shape = spanned(
        Rule::statement,
        source,
        vec![spanned(
            Rule::let_statement,
            source,
            vec![
                spanned(Rule::identifier, "a", vec![]),
                spanned(Rule::expression, "5", vec![integer_at("5")]),
            ],
        )],
    );
    assert_eq!(converted(source, shape), "Let(\"a\", Integer(5))");
}

#[test]
fn parsing_a_call() {
    let source = "f(a, b);";
    let shape = spanned(
        Rule::statement,
        source,
        vec![spanned(
            Rule::expression_statement,
            source,
            vec![spanned(
                Rule::expression,
                "f(a, b)",
                vec![spanned(
                    Rule::term,
                    "f(a, b)",
                    vec![spanned(
                        Rule::function_call,
                        "f(a, b)",
                        vec![
                            spanned(Rule::identifier, "f", vec![]),
                            spanned(
                                Rule::expression_list,
                                "a, b",
                                vec![
                                    spanned(Rule::expression, "a", vec![identifier_at("a")]),
                                    spanned(Rule::expression, "b", vec![identifier_at("b")]),
                                ],
                            ),
                        ],
                    )],
                )],
            )],
        )],
    );
    assert_eq!(
        converted(source, shape),
        "ExpressionStatement(FunctionCall(Identifier(\"f\"), [Identifier(\"a\"), Identifier(\"b\")]))"
    );
}

fn function_text(source: &'static str, read_name: &'static str) -> ParseNode {
    let body = source.find('{').unwrap();
    let shape = spanned(
        Rule::program,
        source,
        vec![spanned(
            Rule::declaration,
            source,
            vec![spanned(
                Rule::function_declaration,
                source,
                vec![
                    spanned(Rule::identifier, "f", vec![]),
                    spanned(
                        Rule::parameter_list,
                        "x: int",
                        vec![spanned(
                            Rule::parameter,
                            "x: int",
                            vec![
                                spanned(Rule::identifier, "x", vec![]),
                                spanned(Rule::ty, "int", vec![]),
                            ],
                        )],
                    ),
                    spanned(
                        Rule::block_statement,
                        &source[body..],
                        vec![spanned(
                            Rule::statement,
                            &source[body + 2..source.len() - 2],
                            vec![spanned(
                                Rule::let_statement,
                                &source[body + 2..source.len() - 2],
                                vec![
                                    spanned(Rule::identifier, "y", vec![]),
                                    spanned(
                                        Rule::expression,
                                        &source[source.find('=').unwrap() + 2..source.len() - 3],
                                        vec![
                                            identifier_at(read_name),
                                            spanned(Rule::plus, "+", vec![]),
                                            integer_at("1"),
                                        ],
                                    ),
                                ],
                            )],
                        )],
                    ),
                ],
            )],
        )],
    );
    parse_tree(source, shape)
}

#[test]
fn lowering_a_function_from_its_text() {
    let tree = function_text("fn f(x: int): { let y = x + 1; }", "x");
    assert!(check_program(&tree));
    let program = convert_program(&tree).expect("a grouping by precedence");
    let module = ast2ir(&program).expect("the program lowers");
    assert_eq!(module.functions.len(), 1);
    let function = &module.functions[0];
    assert_eq!(function.name, "f");
    assert_eq!(function.params.len(), 1);
    assert_eq!(function.variables.len(), 2);
    assert_eq!(function.basic_blocks.len(), 1);
    let mut next = 0;
    for statement in &function.basic_blocks[0].statements {
        if let ir::Statement::WithDestination(Value(number), _) = statement {
            assert_eq!(*number, next);
            next += 1;
        }
    }
    assert_eq!(next, 4);
    assert_eq!(function.basic_blocks[0].terminator, Terminator::Return(Value(3)));
    assert_eq!(
        function.basic_blocks[0].statements[3],
        ir::Statement::Operation(Operation::StoreVariable(Variable(1), Value(2)))
    );
    assert!(matches!(
        program.get_statement(match &program.declarations[0] {
            hai::ast::Declaration::FunctionDeclaration { statement, .. } => *statement,
        }),
        Some(Statement::BlockStatement(statements)) if statements.len() == 1
    ));
}

#[test]
fn lowering_an_unbound_name_from_its_text() {
    let tree = function_text("fn f(x: int): { let y = z + 1; }", "z");
    assert!(check_program(&tree));
    let program = convert_program(&tree).expect("a grouping by precedence");
    assert_eq!(ast2ir(&program).err(), Some(LoweringError::UnresolvedName("z".to_string())));
}
