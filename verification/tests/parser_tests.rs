use minic::lexer::{Lexer, Token};
use minic::parser::{Expr, ParseError, Parser, Stmt};

fn parse_source(src: &str) -> Result<Vec<Stmt>, ParseError> {
    let mut lexer = Lexer::new(src);
    let mut tokens = vec![];
    loop {
        let tok = lexer.next_token();
        if tok == Token::EOF {
            break;
        }
        tokens.push(tok);
    }
    let mut parser = Parser::new(&tokens);
    parser.parse()
}

#[test]
fn parse_let_binding_round_trip() {
    let stmts = parse_source("let x = 10 + 20;").unwrap();
    assert_eq!(
        stmts,
        vec![Stmt::Let(
            "x".to_string(),
            Expr::BinaryOp(
                Box::new(Expr::Number(10)),
                "+".to_string(),
                Box::new(Expr::Number(20)),
            ),
        )]
    );
}

#[test]
fn parse_chain_is_right_associative() {
    let stmts = parse_source("a + b - c").unwrap();
    assert_eq!(
        stmts,
        vec![Stmt::ExprStmt(Expr::BinaryOp(
            Box::new(Expr::Variable("a".to_string())),
            "+".to_string(),
            Box::new(Expr::BinaryOp(
                Box::new(Expr::Variable("b".to_string())),
                "-".to_string(),
                Box::new(Expr::Variable("c".to_string())),
            )),
        ))]
    );
}

#[test]
fn parse_let_without_identifier_fails() {
    assert_eq!(parse_source("let 5;"), Err(ParseError::MalformedLetBinding));
}

#[test]
fn parse_let_inside_block_without_identifier_fails() {
    assert_eq!(
        parse_source("if x { let ; }"),
        Err(ParseError::MalformedLetBinding)
    );
}

#[test]
fn parse_let_with_optional_assign_and_semicolon() {
    let stmts = parse_source("let x 5").unwrap();
    assert_eq!(stmts, vec![Stmt::Let("x".to_string(), Expr::Number(5))]);
}

#[test]
fn parse_if_without_braces_gives_empty_block() {
    let stmts = parse_source("if x y;").unwrap();
    assert_eq!(
        stmts,
        vec![
            Stmt::If(Expr::Variable("x".to_string()), vec![], vec![]),
            Stmt::ExprStmt(Expr::Variable("y".to_string())),
        ]
    );
}

#[test]
fn parse_unrecognized_leading_token_becomes_zero() {
    let stmts = parse_source(";").unwrap();
    assert_eq!(stmts, vec![Stmt::ExprStmt(Expr::Number(0))]);
}

#[test]
fn parse_empty_input_gives_empty_program() {
    assert_eq!(parse_source(""), Ok(vec![]));
}

#[test]
fn parse_while_with_empty_body() {
    let stmts = parse_source("while x < 30 { }").unwrap();
    assert_eq!(
        stmts,
        vec![Stmt::While(
            Expr::BinaryOp(
                Box::new(Expr::Variable("x".to_string())),
                "<".to_string(),
                Box::new(Expr::Number(30)),
            ),
            vec![],
        )]
    );
}

#[test]
fn parse_if_nested_in_while() {
    let stmts = parse_source("while x { if y { } }").unwrap();
    assert_eq!(
        stmts,
        vec![Stmt::While(
            Expr::Variable("x".to_string()),
            vec![Stmt::If(Expr::Variable("y".to_string()), vec![], vec![])],
        )]
    );
}

#[test]
fn parse_if_with_else_blocks() {
    let stmts = parse_source("if x { y; } else { z; }").unwrap();
    assert_eq!(
        stmts,
        vec![Stmt::If(
            Expr::Variable("x".to_string()),
            vec![Stmt::ExprStmt(Expr::Variable("y".to_string()))],
            vec![Stmt::ExprStmt(Expr::Variable("z".to_string()))],
        )]
    );
}
