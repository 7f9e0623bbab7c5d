use minic::codegen::CodeGen;
use minic::lexer::{Lexer, Token};
use minic::parser::Parser;

fn run_pipeline(src: &str) -> String {
    let mut lexer = Lexer::new(src);
    let mut tokens = vec![];
    loop {
        let tok = lexer.next_token();
        if tok == Token::EOF {
            break;
        }
        tokens.push(tok);
    }
    let mut parser = Parser::new(&tokens);
    let stmts = parser.parse().unwrap();
    let mut codegen = CodeGen::new();
    codegen.gen_program(&stmts)
}

#[test]
fn pipeline_demo_program() {
    let src = "
        let x = 10 + 20;
        if x > 15 {
            x = x - 5;
        } else {
            x = x + 5;
        }
        while x < 30 {
            x = x + 1;
        }
    ";
    assert_eq!(
        run_pipeline(src),
        "PUSH 10\nPUSH 20\nADD\nSTORE x\n\
         LOAD x\nPUSH 15\nGT\nJZ Lelse_0\nLOAD x\nPOP\nPUSH 0\nPOP\nLOAD x\nPUSH 5\nSUB\nPOP\n\
         JMP Lend_1\nLABEL Lelse_0\nLOAD x\nPOP\nPUSH 0\nPOP\nLOAD x\nPUSH 5\nADD\nPOP\n\
         LABEL Lend_1\n\
         LABEL Lstart_2\nLOAD x\nPUSH 30\nLT\nJZ Lend_3\nLOAD x\nPOP\nPUSH 0\nPOP\nLOAD x\n\
         PUSH 1\nADD\nPOP\nJMP Lstart_2\nLABEL Lend_3\nHALT"
    );
}

#[test]
fn pipeline_every_operator() {
    assert_eq!(
        run_pipeline("a + b; a - b; a == b; a < b; a > b;"),
        "LOAD a\nLOAD b\nADD\nPOP\n\
         LOAD a\nLOAD b\nSUB\nPOP\n\
         LOAD a\nLOAD b\nEQ\nPOP\n\
         LOAD a\nLOAD b\nLT\nPOP\n\
         LOAD a\nLOAD b\nGT\nPOP\nHALT"
    );
}

#[test]
fn pipeline_let_then_use() {
    assert_eq!(
        run_pipeline("let n = 2; n == 2;"),
        "PUSH 2\nSTORE n\nLOAD n\nPUSH 2\nEQ\nPOP\nHALT"
    );
}
