use minic::codegen::CodeGen;
use minic::lexer::{Lexer, Token};
use minic::parser::{Expr, Parser, Stmt};

fn compile_source(src: &str) -> String {
    let mut lexer = Lexer::new(src);
    let mut tokens = vec![];
    loop {
        let tok = lexer.next_token();
        if tok == Token::EOF {
            break;
        }
        tokens.push(tok);
    }
    let mut parser = Parser::new(&tokens);
    let stmts = parser.parse().unwrap();
    let mut codegen = CodeGen::new();
    codegen.gen_program(&stmts)
}

#[test]
fn gen_expression_statements_only() {
    // With no bindings and no control flow, the output is each expression's
    // code followed by a discard, in source order, and a trailing halt.
    assert_eq!(
        compile_source("1 + 2; x; 3;"),
        "PUSH 1\nPUSH 2\nADD\nPOP\nLOAD x\nPOP\nPUSH 3\nPOP\nHALT"
    );
}

#[test]
fn gen_if_else_lowering() {
    assert_eq!(
        compile_source("if x > 15 { x = x - 5; } else { x = x + 5; }"),
        "LOAD x\nPUSH 15\nGT\nJZ Lelse_0\nLOAD x\nPOP\nPUSH 0\nPOP\nLOAD x\nPUSH 5\nSUB\nPOP\n\
         JMP Lend_1\nLABEL Lelse_0\nLOAD x\nPOP\nPUSH 0\nPOP\nLOAD x\nPUSH 5\nADD\nPOP\n\
         LABEL Lend_1\nHALT"
    );
}

#[test]
fn gen_while_lowering() {
    assert_eq!(
        compile_source("while x < 30 { x = x + 1; }"),
        "LABEL Lstart_0\nLOAD x\nPUSH 30\nLT\nJZ Lend_1\nLOAD x\nPOP\nPUSH 0\nPOP\nLOAD x\n\
         PUSH 1\nADD\nPOP\nJMP Lstart_0\nLABEL Lend_1\nHALT"
    );
}

#[test]
fn gen_empty_if_bodies_still_emit_labels_and_jumps() {
    assert_eq!(
        compile_source("if x { } else { }"),
        "LOAD x\nJZ Lelse_0\nJMP Lend_1\nLABEL Lelse_0\nLABEL Lend_1\nHALT"
    );
}

#[test]
fn gen_same_ast_twice_in_fresh_sessions_is_identical() {
    let mut lexer = Lexer::new("let x = 1; if x { x; } while x { x; }");
    let mut tokens = vec![];
    loop {
        let tok = lexer.next_token();
        if tok == Token::EOF {
            break;
        }
        tokens.push(tok);
    }
    let mut parser = Parser::new(&tokens);
    let stmts = parser.parse().unwrap();
    let mut first_session = CodeGen::new();
    let out1 = first_session.gen_program(&stmts);
    let mut second_session = CodeGen::new();
    let out2 = second_session.gen_program(&stmts);
    assert_eq!(out1, out2);
}

#[test]
fn gen_store_for_let_binding() {
    assert_eq!(compile_source("let y = 4;"), "PUSH 4\nSTORE y\nHALT");
}

#[test]
fn gen_empty_program_is_just_halt() {
    assert_eq!(compile_source(""), "HALT");
}

#[test]
fn gen_negative_literal() {
    let stmts = vec![Stmt::ExprStmt(Expr::Number(-3))];
    let mut codegen = CodeGen::new();
    assert_eq!(codegen.gen_program(&stmts), "PUSH -3\nPOP\nHALT");
}

#[test]
fn gen_unknown_operator_degrades_to_comment() {
    let stmts = vec![Stmt::ExprStmt(Expr::BinaryOp(
        Box::new(Expr::Number(1)),
        "%".to_string(),
        Box::new(Expr::Number(2)),
    ))];
    let mut codegen = CodeGen::new();
    assert_eq!(
        codegen.gen_program(&stmts),
        "PUSH 1\nPUSH 2\n// UNKNOWN_OP %\nPOP\nHALT"
    );
}

#[test]
fn gen_reused_session_keeps_counting_labels() {
    let stmts = vec![Stmt::If(Expr::Variable("x".to_string()), vec![], vec![])];
    let mut codegen = CodeGen::new();
    let out1 = codegen.gen_program(&stmts);
    assert_eq!(
        out1,
        "LOAD x\nJZ Lelse_0\nJMP Lend_1\nLABEL Lelse_0\nLABEL Lend_1\nHALT"
    );
    // The same session keeps its lines and its counter.
    let out2 = codegen.gen_program(&stmts);
    assert_eq!(
        out2,
        "LOAD x\nJZ Lelse_0\nJMP Lend_1\nLABEL Lelse_0\nLABEL Lend_1\nHALT\n\
         LOAD x\nJZ Lelse_2\nJMP Lend_3\nLABEL Lelse_2\nLABEL Lend_3\nHALT"
    );
}

#[test]
fn gen_deeply_nested_labels_increase() {
    assert_eq!(
        compile_source("if a { if b { } }"),
        "LOAD a\nJZ Lelse_0\nLOAD b\nJZ Lelse_2\nJMP Lend_3\nLABEL Lelse_2\nLABEL Lend_3\n\
         JMP Lend_1\nLABEL Lelse_0\nLABEL Lend_1\nHALT"
    );
}
