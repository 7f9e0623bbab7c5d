use vstd::prelude::*;

use crate::strutil::push_char;
use vstd::string::StrSliceExecFns;
use vstd::string::StringExecFns;

verus! {

/// One lexical token of the source language.
#[derive(Debug, PartialEq, Clone)]
pub enum Token {
    Number(i32),
    Ident(String),
    Let,
    If,
    Else,
    While,
    Plus,
    Minus,
    Assign,
    Equal,
    Less,
    Greater,
    Lparen,
    Rparen,
    LBrace,
    RBrace,
    Semicolon,
    EOF,
}

/// Mathematical image of a token; identifier text appears as a character sequence.
pub enum TokenV {
    Number(int),
    Ident(Seq<char>),
    Let,
    If,
    Else,
    While,
    Plus,
    Minus,
    Assign,
    Equal,
    Less,
    Greater,
    Lparen,
    Rparen,
    LBrace,
    RBrace,
    Semicolon,
    EOF,
}

/// The mathematical image of a token.
pub open spec fn token_view(t: Token) -> TokenV {
    match t {
        Token::Number(n) => TokenV::Number(n as int),
        Token::Ident(s) => TokenV::Ident(s@),
        Token::Let => TokenV::Let,
        Token::If => TokenV::If,
        Token::Else => TokenV::Else,
        Token::While => TokenV::While,
        Token::Plus => TokenV::Plus,
        Token::Minus => TokenV::Minus,
        Token::Assign => TokenV::Assign,
        Token::Equal => TokenV::Equal,
        Token::Less => TokenV::Less,
        Token::Greater => TokenV::Greater,
        Token::Lparen => TokenV::Lparen,
        Token::Rparen => TokenV::Rparen,
        Token::LBrace => TokenV::LBrace,
        Token::RBrace => TokenV::RBrace,
        Token::Semicolon => TokenV::Semicolon,
        Token::EOF => TokenV::EOF,
    }
}

/// Characters left to scan from `pos`.
pub open spec fn lex_rem(input: Seq<char>, pos: int) -> nat {
    if 0 <= pos && pos <= input.len() {
        (input.len() - pos) as nat
    } else {
        0
    }
}

pub open spec fn is_ws(c: char) -> bool {
    c == ' ' || c == '\n' || c == '\t'
}

pub open spec fn is_digit(c: char) -> bool {
    48 <= c as u32 && c as u32 <= 57
}

pub open spec fn is_lower(c: char) -> bool {
    97 <= c as u32 && c as u32 <= 122
}

pub open spec fn digit_val(c: char) -> int {
    c as u32 - 48
}

/// Value and end position of the maximal digit run starting at `pos`, with
/// base-10 accumulation that wraps on 32-bit overflow.
pub open spec fn scan_number(input: Seq<char>, pos: int, acc: i32) -> (i32, int)
    decreases lex_rem(input, pos),
{
    if 0 <= pos && pos < input.len() && is_digit(input[pos]) {
        scan_number(
            input,
            pos + 1,
            acc.wrapping_mul(10).wrapping_add(digit_val(input[pos]) as i32),
        )
    } else {
        (acc, pos)
    }
}

/// End position of the maximal run of lowercase letters starting at `pos`.
pub open spec fn ident_end(input: Seq<char>, pos: int) -> int
    decreases lex_rem(input, pos),
{
    if 0 <= pos && pos < input.len() && is_lower(input[pos]) {
        ident_end(input, pos + 1)
    } else {
        pos
    }
}

/// Classifies a scanned word against the fixed keyword set.
pub open spec fn word_token(s: Seq<char>) -> TokenV {
    if s == "let"@ {
        TokenV::Let
    } else if s == "if"@ {
        TokenV::If
    } else if s == "else"@ {
        TokenV::Else
    } else if s == "while"@ {
        TokenV::While
    } else {
        TokenV::Ident(s)
    }
}

/// The token produced at `pos`, and the cursor position after it: whitespace
/// is skipped, digit runs become numbers, lowercase runs become keywords or
/// identifiers, punctuation maps to its marker, `==` is two characters, and
/// any other character is consumed and ends the token stream.
pub open spec fn spec_next_token(input: Seq<char>, pos: int) -> (TokenV, int)
    decreases lex_rem(input, pos),
{
    if !(0 <= pos && pos < input.len()) {
        (TokenV::EOF, pos)
    } else {
        let c = input[pos];
        if is_ws(c) {
            spec_next_token(input, pos + 1)
        } else if is_digit(c) {
            let (v, p) = scan_number(input, pos, 0);
            (TokenV::Number(v as int), p)
        } else if is_lower(c) {
            let end = ident_end(input, pos);
            (word_token(input.subrange(pos, end)), end)
        } else if c == '+' {
            (TokenV::Plus, pos + 1)
        } else if c == '-' {
            (TokenV::Minus, pos + 1)
        } else if c == '=' {
            if pos + 1 < input.len() && input[pos + 1] == '=' {
                (TokenV::Equal, pos + 2)
            } else {
                (TokenV::Assign, pos + 1)
            }
        } else if c == '<' {
            (TokenV::Less, pos + 1)
        } else if c == '>' {
            (TokenV::Greater, pos + 1)
        } else if c == '(' {
            (TokenV::Lparen, pos + 1)
        } else if c == ')' {
            (TokenV::Rparen, pos + 1)
        } else if c == '{' {
            (TokenV::LBrace, pos + 1)
        } else if c == '}' {
            (TokenV::RBrace, pos + 1)
        } else if c == ';' {
            (TokenV::Semicolon, pos + 1)
        } else {
            (TokenV::EOF, pos + 1)
        }
    }
}

/// Pull-based scanner over the source text, with a cursor into its characters.
pub struct Lexer {
    pub input: Vec<char>,
    pub pos: usize,
}

impl Lexer {
    /// A fresh scanner over `input`, with the cursor at the start.
    pub fn new(input: &str) -> (l: Lexer)
        ensures
            l.input@ == input@,
            l.pos == 0,
    {
        let n = input.unicode_len();
        let mut v: Vec<char> = Vec::new();
        let mut i: usize = 0;
        while i < n
            invariant
                i <= n,
                n == input@.len(),
                v@ == input@.subrange(0, i as int),
            decreases n - i,
        {
            let c = input.get_char(i);
            v.push(c);
            i = i + 1;
            proof {
                assert(v@ =~= input@.subrange(0, i as int));
            }
        }
        proof {
            assert(v@ =~= input@);
        }
        Lexer { input: v, pos: 0 }
    }

    /// Returns the next token and advances the cursor past it. At the end of
    /// the input every call yields the end-of-input marker.
    pub fn next_token(&mut self) -> (t: Token)
        ensures
            final(self).input == old(self).input,
            (token_view(t), final(self).pos as int) == spec_next_token(
                old(self).input@,
                old(self).pos as int,
            ),
    {
        loop
            invariant
                self.input == old(self).input,
                spec_next_token(self.input@, self.pos as int) == spec_next_token(
                    old(self).input@,
                    old(self).pos as int,
                ),
            decreases lex_rem(self.input@, self.pos as int),
        {
            if self.pos >= self.input.len() {
                return Token::EOF;
            }
            let c = self.input[self.pos];
            let u = c as u32;
            if c == ' ' || c == '\n' || c == '\t' {
                self.pos = self.pos + 1;
            } else if u >= 48 && u <= 57 {
                return self.lex_number();
            } else if u >= 97 && u <= 122 {
                return self.lex_ident();
            } else if c == '+' {
                self.pos = self.pos + 1;
                return Token::Plus;
            } else if c == '-' {
                self.pos = self.pos + 1;
                return Token::Minus;
            } else if c == '=' {
                let p = self.peek_char();
                let two = match p {
                    Some(cc) => cc == '=',
                    None => false,
                };
                if two {
                    self.pos = self.pos + 2;
                    return Token::Equal;
                } else {
                    self.pos = self.pos + 1;
                    return Token::Assign;
                }
            } else if c == '<' {
                self.pos = self.pos + 1;
                return Token::Less;
            } else if c == '>' {
                self.pos = self.pos + 1;
                return Token::Greater;
            } else if c == '(' {
                self.pos = self.pos + 1;
                return Token::Lparen;
            } else if c == ')' {
                self.pos = self.pos + 1;
                return Token::Rparen;
            } else if c == '{' {
                self.pos = self.pos + 1;
                return Token::LBrace;
            } else if c == '}' {
                self.pos = self.pos + 1;
                return Token::RBrace;
            } else if c == ';' {
                self.pos = self.pos + 1;
                return Token::Semicolon;
            } else {
                self.pos = self.pos + 1;
                return Token::EOF;
            }
        }
    }

    /// The character one position past the cursor, if any.
    fn peek_char(&self) -> (c: Option<char>)
        requires
            self.pos < self.input@.len(),
        ensures
            c == (if self.pos + 1 < self.input@.len() {
                Some(self.input@[self.pos as int + 1])
            } else {
                None::<char>
            }),
    {
        let n = self.input.len();
        if self.pos + 1 < n {
            Some(self.input[self.pos + 1])
        } else {
            None
        }
    }

    /// Consumes the maximal digit run at the cursor into a number token,
    /// accumulating base-10 with wrapping 32-bit arithmetic.
    fn lex_number(&mut self) -> (t: Token)
        ensures
            final(self).input == old(self).input,
            ({
                let (v, p) = scan_number(old(self).input@, old(self).pos as int, 0);
                t == Token::Number(v) && final(self).pos as int == p
            }),
    {
        let mut num: i32 = 0;
        loop
            invariant
                self.input == old(self).input,
                scan_number(self.input@, self.pos as int, num) == scan_number(
                    old(self).input@,
                    old(self).pos as int,
                    0,
                ),
            ensures
                self.input == old(self).input,
                scan_number(self.input@, self.pos as int, num) == scan_number(
                    old(self).input@,
                    old(self).pos as int,
                    0,
                ),
                !(self.pos < self.input@.len() && is_digit(self.input@[self.pos as int])),
            decreases lex_rem(self.input@, self.pos as int),
        {
            if self.pos < self.input.len() {
                let c = self.input[self.pos];
                let u = c as u32;
                if u >= 48 && u <= 57 {
                    let d = u - 48;
                    num = num.wrapping_mul(10).wrapping_add(d as i32);
                    self.pos = self.pos + 1;
                } else {
                    break;
                }
            } else {
                break;
            }
        }
        Token::Number(num)
    }

    /// Consumes the maximal lowercase run at the cursor and classifies it as
    /// a keyword or an identifier.
    fn lex_ident(&mut self) -> (t: Token)
        requires
            old(self).pos <= old(self).input@.len(),
        ensures
            final(self).input == old(self).input,
            final(self).pos as int == ident_end(old(self).input@, old(self).pos as int),
            token_view(t) == word_token(
                old(self).input@.subrange(
                    old(self).pos as int,
                    ident_end(old(self).input@, old(self).pos as int),
                ),
            ),
    {
        let ghost p0: int = self.pos as int;
        let mut s = String::new();
        loop
            invariant
                self.input == old(self).input,
                0 <= p0 <= self.pos as int <= self.input@.len(),
                s@ == self.input@.subrange(p0, self.pos as int),
                ident_end(self.input@, self.pos as int) == ident_end(old(self).input@, p0),
            ensures
                self.input == old(self).input,
                0 <= p0 <= self.pos as int <= self.input@.len(),
                s@ == self.input@.subrange(p0, self.pos as int),
                ident_end(self.input@, self.pos as int) == ident_end(old(self).input@, p0),
                !(self.pos < self.input@.len() && is_lower(self.input@[self.pos as int])),
            decreases lex_rem(self.input@, self.pos as int),
        {
            if self.pos < self.input.len() {
                let c = self.input[self.pos];
                let u = c as u32;
                if u >= 97 && u <= 122 {
                    let ghost posg: int = self.pos as int;
                    push_char(&mut s, c);
                    self.pos = self.pos + 1;
                    proof {
                        assert(self.input@.subrange(p0, posg + 1) =~= self.input@.subrange(
                            p0,
                            posg,
                        ) + seq![self.input@[posg]]);
                        assert(s@ == self.input@.subrange(p0, posg + 1));
                    }
                } else {
                    break;
                }
            } else {
                break;
            }
        }
        let kw_let = String::from_str("let");
        let kw_if = String::from_str("if");
        let kw_else = String::from_str("else");
        let kw_while = String::from_str("while");
        if s == kw_let {
            Token::Let
        } else if s == kw_if {
            Token::If
        } else if s == kw_else {
            Token::Else
        } else if s == kw_while {
            Token::While
        } else {
            Token::Ident(s)
        }
    }
}

} // verus!
