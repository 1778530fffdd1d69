use monkey::ast::IdentifierExpression;
use monkey::ast::Node;
use monkey::ast::ProgramNode;
use monkey::ast::StatementNode;
use monkey::lexer::Lexer;
use monkey::parser::Parser;
use monkey::token::TokenType;

fn parse_program(input: &str) -> ProgramNode {
    let lexer = Lexer::new(input.to_string());
    let mut parser = Parser::new(lexer);
    parser.parse_program()
}

#[test]
fn identifier_expression_new_carries_name() {
    let ident = IdentifierExpression::new("myVar");
    assert_eq!(ident.value, "myVar");
    assert_eq!(ident.token.token_type, TokenType::Ident);
    assert_eq!(ident.token.literal, "myVar");
}

#[test]
fn statement_token_literal_is_introducing_token() {
    let program = parse_program("let x = 1; return 2; 3;");
    assert_eq!(program.statements[0].token_literal(), "let");
    assert_eq!(program.statements[1].token_literal(), "return");
    assert_eq!(program.statements[2].token_literal(), "3");
}

#[test]
fn node_token_literal_of_program_is_first_statement() {
    let program = parse_program("let x = 1;");
    assert_eq!(Node::Program(program).token_literal(), "let");
}

#[test]
fn node_token_literal_of_empty_program_is_empty() {
    let program = parse_program("");
    assert_eq!(Node::Program(program).token_literal(), "");
}

#[test]
fn node_token_literal_of_statement_and_expression() {
    let mut program = parse_program("let x = 1;");
    let stmt = program.statements.pop().expect("one statement");
    match &stmt {
        StatementNode::Let(l) => {
            assert_eq!(l.value.token_literal(), "1");
        },
        _ => panic!("expected a let statement"),
    }
    assert_eq!(Node::Statement(stmt).token_literal(), "let");
}

#[test]
fn program_text_round_trips_let_and_return() {
    let program = parse_program("let x = 5; return x;");
    assert_eq!(program.to_text(), "let x = 5;return x;");
}

#[test]
fn if_expression_renders_with_else() {
    let program = parse_program("if (x < y) { x } else { y }");
    assert_eq!(program.to_text(), "if(x < y) xelse y");
}
