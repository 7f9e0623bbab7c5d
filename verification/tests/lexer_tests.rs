use minic::lexer::{Lexer, Token};

fn collect_tokens(src: &str) -> Vec<Token> {
    let mut lexer = Lexer::new(src);
    let mut tokens = vec![];
    loop {
        let tok = lexer.next_token();
        if tok == Token::EOF {
            break;
        }
        tokens.push(tok);
    }
    tokens
}

#[test]
fn lex_no_spaces_matches_spaced() {
    let tight = collect_tokens("let x=1;");
    let spaced = collect_tokens("let x = 1 ;");
    assert_eq!(tight, spaced);
    assert_eq!(
        tight,
        vec![
            Token::Let,
            Token::Ident("x".to_string()),
            Token::Assign,
            Token::Number(1),
            Token::Semicolon,
        ]
    );
}

#[test]
fn lex_keywords_and_identifiers() {
    assert_eq!(
        collect_tokens("let if else while letx whiley"),
        vec![
            Token::Let,
            Token::If,
            Token::Else,
            Token::While,
            Token::Ident("letx".to_string()),
            Token::Ident("whiley".to_string()),
        ]
    );
}

#[test]
fn lex_assign_versus_equality() {
    assert_eq!(
        collect_tokens("= == ="),
        vec![Token::Assign, Token::Equal, Token::Assign]
    );
    assert_eq!(
        collect_tokens("x==y"),
        vec![
            Token::Ident("x".to_string()),
            Token::Equal,
            Token::Ident("y".to_string()),
        ]
    );
}

#[test]
fn lex_punctuation_markers() {
    assert_eq!(
        collect_tokens("+-(){};<>"),
        vec![
            Token::Plus,
            Token::Minus,
            Token::Lparen,
            Token::Rparen,
            Token::LBrace,
            Token::RBrace,
            Token::Semicolon,
            Token::Less,
            Token::Greater,
        ]
    );
}

#[test]
fn lex_number_runs() {
    assert_eq!(
        collect_tokens("1234 007 0"),
        vec![Token::Number(1234), Token::Number(7), Token::Number(0)]
    );
}

#[test]
fn lex_unrecognized_character_ends_stream() {
    // An unrecognized character is consumed and yields the end-of-input
    // marker, so a driver that stops at the first marker sees only `a`.
    assert_eq!(collect_tokens("a $ b"), vec![Token::Ident("a".to_string())]);
}

#[test]
fn lex_uppercase_ends_identifier_run() {
    let mut lexer = Lexer::new("aB");
    assert_eq!(lexer.next_token(), Token::Ident("a".to_string()));
    assert_eq!(lexer.next_token(), Token::EOF);
}

#[test]
fn lex_end_of_input_is_idempotent() {
    let mut lexer = Lexer::new("x");
    assert_eq!(lexer.next_token(), Token::Ident("x".to_string()));
    assert_eq!(lexer.next_token(), Token::EOF);
    assert_eq!(lexer.next_token(), Token::EOF);
    assert_eq!(lexer.next_token(), Token::EOF);
}

#[test]
fn lex_whitespace_only_is_empty() {
    let mut lexer = Lexer::new(" \n\t ");
    assert_eq!(lexer.next_token(), Token::EOF);
}
