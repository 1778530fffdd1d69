use monkey::ast::ExpressionNode;
use monkey::ast::StatementNode;
use monkey::lexer::Lexer;
use monkey::parser::Diagnostic;
use monkey::parser::Parser;
use monkey::token::TokenType;

fn parse(input: &str) -> (monkey::ast::ProgramNode, Vec<Diagnostic>) {
    let lexer = Lexer::new(input.to_string());
    let mut parser = Parser::new(lexer);
    let program = parser.parse_program();
    (program, parser.diagnostics().clone())
}

#[test]
fn test_let_statements() {
    let input = "\
let x = 5;
let y = 10;
let foobar = 838383;".to_string();

    let l = Lexer::new(input);
    let mut p = Parser::new(l);
    let program = p.parse_program();

    assert_eq!(program.statements.len(), 3, "Program must contain 3 statements");

    let expected = vec!["x".to_string(), "y".to_string(), "foobar".to_string()];
    expected.iter().zip(program.statements.iter()).for_each(|(ident, s)| {
        assert_eq!(s.token_literal(), "let".to_string(), "Expected let statment");
        match s {
            StatementNode::Let(l) => assert_eq!(&l.name.value, ident),
            _ => panic!("expected a let statement"),
        }
    });
}

#[test]
fn let_statement_binds_name_and_value_shape() {
    let (program, diags) = parse("let x = 5; let y = a + b; let z = f(1);");
    assert!(diags.is_empty());
    assert_eq!(program.statements.len(), 3);
    match &program.statements[0] {
        StatementNode::Let(l) => {
            assert_eq!(l.name.value, "x");
            match &l.value {
                ExpressionNode::Integer(n) => assert_eq!(n.token.literal, "5"),
                _ => panic!("expected an integer literal"),
            }
        },
        _ => panic!("expected a let statement"),
    }
    match &program.statements[1] {
        StatementNode::Let(l) => {
            assert_eq!(l.name.value, "y");
            assert!(matches!(l.value, ExpressionNode::Infix(_)));
        },
        _ => panic!("expected a let statement"),
    }
    match &program.statements[2] {
        StatementNode::Let(l) => {
            assert_eq!(l.name.value, "z");
            assert!(matches!(l.value, ExpressionNode::Call(_)));
        },
        _ => panic!("expected a let statement"),
    }
}

#[test]
fn return_statement_carries_value() {
    let (program, diags) = parse("return 42;");
    assert!(diags.is_empty());
    assert_eq!(program.statements.len(), 1);
    match &program.statements[0] {
        StatementNode::Return(r) => match &r.value {
            ExpressionNode::Integer(n) => assert_eq!(n.token.literal, "42"),
            _ => panic!("expected an integer literal"),
        },
        _ => panic!("expected a return statement"),
    }
    assert_eq!(program.statements[0].token_literal(), "return");
}

#[test]
fn multiplication_binds_tighter_than_addition() {
    let (program, diags) = parse("1 + 2 * 3");
    assert!(diags.is_empty());
    assert_eq!(program.statements.len(), 1);
    match &program.statements[0] {
        StatementNode::Expression(e) => match &e.expression {
            ExpressionNode::Infix(root) => {
                assert_eq!(root.operator, "+");
                assert!(matches!(*root.left, ExpressionNode::Integer(_)));
                match &*root.right {
                    ExpressionNode::Infix(right) => assert_eq!(right.operator, "*"),
                    _ => panic!("expected the right child to be the * subtree"),
                }
            },
            _ => panic!("expected an infix expression"),
        },
        _ => panic!("expected an expression statement"),
    }
    assert_eq!(program.to_text(), "(1 + (2 * 3))");
}

#[test]
fn equal_precedence_operators_fold_left() {
    let (program, diags) = parse("1 - 2 - 3");
    assert!(diags.is_empty());
    assert_eq!(program.to_text(), "((1 - 2) - 3)");
}

#[test]
fn precedence_orders_comparisons_and_equality() {
    let (program, diags) = parse("5 < 4 != 3 > 4;");
    assert!(diags.is_empty());
    assert_eq!(program.to_text(), "((5 < 4) != (3 > 4))");
}

#[test]
fn mixed_precedence_renders_fully_parenthesized() {
    let (program, diags) = parse("a + b * c + d / e - f");
    assert!(diags.is_empty());
    assert_eq!(program.to_text(), "(((a + (b * c)) + (d / e)) - f)");
}

#[test]
fn grouped_expression_overrides_precedence() {
    let (program, diags) = parse("(1 + 2) * 3");
    assert!(diags.is_empty());
    assert_eq!(program.to_text(), "((1 + 2) * 3)");
}

#[test]
fn prefix_operators_parse_and_render() {
    let (program, diags) = parse("!true; -15;");
    assert!(diags.is_empty());
    assert_eq!(program.statements.len(), 2);
    assert_eq!(program.to_text(), "(!true)(-15)");
    match &program.statements[1] {
        StatementNode::Expression(e) => match &e.expression {
            ExpressionNode::Prefix(p) => {
                assert_eq!(p.operator, "-");
                assert!(matches!(*p.right, ExpressionNode::Integer(_)));
            },
            _ => panic!("expected a prefix expression"),
        },
        _ => panic!("expected an expression statement"),
    }
}

#[test]
fn malformed_let_reports_diagnostic_and_recovers() {
    let (program, diags) = parse("let = 5; let y = 2;");
    assert!(diags.len() >= 1);
    assert!(matches!(
        diags[0],
        Diagnostic::UnexpectedToken { expected: TokenType::Ident, .. }
    ));
    let recovered = program.statements.iter().any(|s| match s {
        StatementNode::Let(l) => l.name.value == "y",
        _ => false,
    });
    assert!(recovered, "the statement after the malformed one must still parse");
}

#[test]
fn if_else_round_trip_shapes() {
    let (program, diags) = parse("if (x < y) { x } else { y }");
    assert!(diags.is_empty());
    assert_eq!(program.statements.len(), 1);
    match &program.statements[0] {
        StatementNode::Expression(e) => match &e.expression {
            ExpressionNode::If(ie) => {
                match &*ie.condition {
                    ExpressionNode::Infix(c) => {
                        assert_eq!(c.token.token_type, TokenType::LT);
                        assert_eq!(c.operator, "<");
                    },
                    _ => panic!("expected a less-than condition"),
                }
                assert_eq!(ie.consequence.statements.len(), 1);
                match &ie.consequence.statements[0] {
                    StatementNode::Expression(s) => match &s.expression {
                        ExpressionNode::Identifier(i) => assert_eq!(i.value, "x"),
                        _ => panic!("expected identifier x"),
                    },
                    _ => panic!("expected an expression statement"),
                }
                let alt = ie.alternative.as_ref().expect("expected an else block");
                assert_eq!(alt.statements.len(), 1);
                match &alt.statements[0] {
                    StatementNode::Expression(s) => match &s.expression {
                        ExpressionNode::Identifier(i) => assert_eq!(i.value, "y"),
                        _ => panic!("expected identifier y"),
                    },
                    _ => panic!("expected an expression statement"),
                }
            },
            _ => panic!("expected an if expression"),
        },
        _ => panic!("expected an expression statement"),
    }
}

#[test]
fn if_without_else_has_no_alternative() {
    let (program, diags) = parse("if (x) { 1 }");
    assert!(diags.is_empty());
    match &program.statements[0] {
        StatementNode::Expression(e) => match &e.expression {
            ExpressionNode::If(ie) => assert!(ie.alternative.is_none()),
            _ => panic!("expected an if expression"),
        },
        _ => panic!("expected an expression statement"),
    }
}

#[test]
fn call_parses_callee_and_arguments() {
    let (program, diags) = parse("add(1, 2 * 3)");
    assert!(diags.is_empty());
    assert_eq!(program.statements.len(), 1);
    match &program.statements[0] {
        StatementNode::Expression(e) => match &e.expression {
            ExpressionNode::Call(c) => {
                match &*c.function {
                    ExpressionNode::Identifier(i) => assert_eq!(i.value, "add"),
                    _ => panic!("expected the callee to be an identifier"),
                }
                assert_eq!(c.arguments.len(), 2);
                match &c.arguments[1] {
                    ExpressionNode::Infix(a) => assert_eq!(a.operator, "*"),
                    _ => panic!("expected the second argument to be a * expression"),
                }
            },
            _ => panic!("expected a call expression"),
        },
        _ => panic!("expected an expression statement"),
    }
    assert_eq!(program.to_text(), "add(1, (2 * 3))");
}

#[test]
fn call_with_no_arguments_is_empty_list() {
    let (program, diags) = parse("nop()");
    assert!(diags.is_empty());
    match &program.statements[0] {
        StatementNode::Expression(e) => match &e.expression {
            ExpressionNode::Call(c) => assert_eq!(c.arguments.len(), 0),
            _ => panic!("expected a call expression"),
        },
        _ => panic!("expected an expression statement"),
    }
}

#[test]
fn calls_nest_inside_operators() {
    let (program, diags) = parse("a + add(b * c) + d");
    assert!(diags.is_empty());
    assert_eq!(program.to_text(), "((a + add((b * c))) + d)");
}

#[test]
fn function_literal_parses_parameters_and_body() {
    let (program, diags) = parse("fn(x, y) { x + y; }");
    assert!(diags.is_empty());
    match &program.statements[0] {
        StatementNode::Expression(e) => match &e.expression {
            ExpressionNode::Function(f) => {
                assert_eq!(f.parameters.len(), 2);
                assert_eq!(f.parameters[0].value, "x");
                assert_eq!(f.parameters[1].value, "y");
                assert_eq!(f.body.statements.len(), 1);
            },
            _ => panic!("expected a function literal"),
        },
        _ => panic!("expected an expression statement"),
    }
    assert_eq!(program.to_text(), "fn(x, y) (x + y)");
}

#[test]
fn function_literal_with_no_parameters() {
    let (program, diags) = parse("fn() { 1; }");
    assert!(diags.is_empty());
    match &program.statements[0] {
        StatementNode::Expression(e) => match &e.expression {
            ExpressionNode::Function(f) => assert_eq!(f.parameters.len(), 0),
            _ => panic!("expected a function literal"),
        },
        _ => panic!("expected an expression statement"),
    }
}

#[test]
fn boolean_literals_parse() {
    let (program, diags) = parse("true; false;");
    assert!(diags.is_empty());
    match &program.statements[0] {
        StatementNode::Expression(e) => match &e.expression {
            ExpressionNode::Boolean(b) => assert!(b.value),
            _ => panic!("expected a boolean literal"),
        },
        _ => panic!("expected an expression statement"),
    }
    assert_eq!(program.to_text(), "truefalse");
}

#[test]
fn empty_input_parses_to_empty_program() {
    let (program, diags) = parse("");
    assert!(diags.is_empty());
    assert_eq!(program.statements.len(), 0);
}

#[test]
fn block_statement_at_top_level() {
    let (program, diags) = parse("{ 1; 2; }");
    assert!(diags.is_empty());
    assert_eq!(program.statements.len(), 1);
    match &program.statements[0] {
        StatementNode::Block(b) => assert_eq!(b.statements.len(), 2),
        _ => panic!("expected a block statement"),
    }
}

#[test]
fn missing_prefix_rule_reports_diagnostic() {
    let (_, diags) = parse(");");
    assert!(diags.len() >= 1);
    assert!(matches!(diags[0], Diagnostic::NoPrefixRule { .. }));
}

#[test]
fn unterminated_group_reports_expected_rparen() {
    let (_, diags) = parse("(1 + 2");
    assert!(diags.iter().any(|d| matches!(
        d,
        Diagnostic::UnexpectedToken { expected: TokenType::RParen, .. }
    )));
}

#[test]
fn unterminated_block_reports_expected_rbrace() {
    let (_, diags) = parse("{ 1;");
    assert!(diags.iter().any(|d| matches!(
        d,
        Diagnostic::UnexpectedToken { expected: TokenType::RBrace, .. }
    )));
}

#[test]
fn let_without_assign_reports_diagnostic() {
    let (_, diags) = parse("let x 5;");
    assert!(diags.iter().any(|d| matches!(
        d,
        Diagnostic::UnexpectedToken { expected: TokenType::Assign, .. }
    )));
}

#[test]
fn illegal_token_surfaces_as_diagnostic() {
    let (_, diags) = parse("let x = @;");
    assert!(diags.len() >= 1);
}
