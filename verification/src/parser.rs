use vstd::prelude::*;

use crate::lexer::{token_view, Token, TokenV};
use vstd::string::StringExecFns;

verus! {

broadcast use vstd::slice::group_slice_axioms;

/// An expression of the abstract syntax tree.
#[derive(Debug, PartialEq)]
pub enum Expr {
    Number(i32),
    Variable(String),
    BinaryOp(Box<Expr>, String, Box<Expr>),
}

/// A statement of the abstract syntax tree.
#[derive(Debug, PartialEq)]
pub enum Stmt {
    Let(String, Expr),
    ExprStmt(Expr),
    If(Expr, Vec<Stmt>, Vec<Stmt>),
    While(Expr, Vec<Stmt>),
}

/// The one unrecoverable parse failure: `let` not followed by an identifier.
#[derive(Debug, Clone, Copy, PartialEq, Eq, Structural)]
pub enum ParseError {
    MalformedLetBinding,
}

/// Mathematical image of an expression.
pub enum ExprV {
    Number(int),
    Variable(Seq<char>),
    BinaryOp(Box<ExprV>, Seq<char>, Box<ExprV>),
}

/// Mathematical image of a statement.
pub enum StmtV {
    Let(Seq<char>, ExprV),
    ExprStmt(ExprV),
    If(ExprV, Seq<StmtV>, Seq<StmtV>),
    While(ExprV, Seq<StmtV>),
}

/// The mathematical image of an expression: strings become character
/// sequences, machine integers become unbounded ones.
pub open spec fn expr_view(e: Expr) -> ExprV
    decreases e,
{
    match e {
        Expr::Number(n) => ExprV::Number(n as int),
        Expr::Variable(s) => ExprV::Variable(s@),
        Expr::BinaryOp(l, op, r) => ExprV::BinaryOp(
            Box::new(expr_view(*l)),
            op@,
            Box::new(expr_view(*r)),
        ),
    }
}

/// The mathematical image of a statement.
pub open spec fn stmt_view(s: Stmt) -> StmtV
    decreases s,
{
    match s {
        Stmt::Let(n, e) => StmtV::Let(n@, expr_view(e)),
        Stmt::ExprStmt(e) => StmtV::ExprStmt(expr_view(e)),
        Stmt::If(c, t, els) => StmtV::If(expr_view(c), stmts_view(t@), stmts_view(els@)),
        Stmt::While(c, b) => StmtV::While(expr_view(c), stmts_view(b@)),
    }
}

/// The mathematical image of a statement sequence, element by element.
pub open spec fn stmts_view(v: Seq<Stmt>) -> Seq<StmtV>
    decreases v,
{
    if v.len() == 0 {
        Seq::empty()
    } else {
        seq![stmt_view(v[0])] + stmts_view(v.subrange(1, v.len() as int))
    }
}

/// The mathematical image of a token sequence, element by element.
pub open spec fn toks_view(toks: Seq<Token>) -> Seq<TokenV> {
    toks.map_values(|t: Token| token_view(t))
}

/// The token the parser sees at `pos`: past the end it sees end-of-input.
pub open spec fn tok_at(toks: Seq<TokenV>, pos: int) -> TokenV {
    if 0 <= pos && pos < toks.len() {
        toks[pos]
    } else {
        TokenV::EOF
    }
}

/// Parser progress measure from `pos`.
pub open spec fn p_rem(toks: Seq<TokenV>, pos: int) -> nat {
    if pos < 0 {
        toks.len() + 1
    } else if pos <= toks.len() {
        (toks.len() - pos) as nat
    } else {
        0
    }
}

/// The cursor position after consuming the token at `pos`.
pub open spec fn nxt(toks: Seq<TokenV>, pos: int) -> int {
    if 0 <= pos && pos < toks.len() {
        pos + 1
    } else {
        pos
    }
}

/// Guards the recursion measure of the parsing functions: clamps a
/// returned position to the least it can truly be. The progress lemmas
/// below show each clamped position is already past the bound, so the
/// clamp never changes a value.
pub open spec fn at_least(p: int, lo: int) -> int {
    if p < lo {
        lo
    } else {
        p
    }
}

/// Whether a token continues an expression as a binary operator.
pub open spec fn is_binop(t: TokenV) -> bool {
    match t {
        TokenV::Plus | TokenV::Minus | TokenV::Equal | TokenV::Less | TokenV::Greater => true,
        _ => false,
    }
}

/// The operator text the parser records for a binary-operator token.
pub open spec fn op_text(t: TokenV) -> Seq<char> {
    match t {
        TokenV::Plus => "+"@,
        TokenV::Minus => "-"@,
        TokenV::Equal => "=="@,
        TokenV::Less => "<"@,
        TokenV::Greater => ">"@,
        _ => ""@,
    }
}

/// One primary: a literal, a variable reference, or — for any other token —
/// a consumed token and a zero literal in its place.
pub open spec fn spec_parse_primary(toks: Seq<TokenV>, pos: int) -> (ExprV, int) {
    match tok_at(toks, pos) {
        TokenV::Number(n) => (ExprV::Number(n), nxt(toks, pos)),
        TokenV::Ident(name) => (ExprV::Variable(name), nxt(toks, pos)),
        _ => (ExprV::Number(0), nxt(toks, pos)),
    }
}

/// One expression: a primary, then — if a binary operator follows — that
/// operator applied to the primary and to the whole expression after it
/// (right-associative, no precedence levels).
pub open spec fn spec_parse_expr(toks: Seq<TokenV>, pos: int) -> (ExprV, int)
    decreases p_rem(toks, pos), 0int,
{
    let (left, p) = spec_parse_primary(toks, pos);
    let t = tok_at(toks, p);
    if is_binop(t) {
        let (right, p2) = spec_parse_expr(toks, nxt(toks, p));
        (ExprV::BinaryOp(Box::new(left), op_text(t), Box::new(right)), p2)
    } else {
        (left, p)
    }
}

/// A brace-delimited block; with no opening brace, an empty block and no
/// token consumed. `None` reports a malformed `let` inside the block.
pub open spec fn spec_parse_block(toks: Seq<TokenV>, pos: int) -> Option<(Seq<StmtV>, int)>
    decreases p_rem(toks, pos), 1int,
{
    if tok_at(toks, pos) is LBrace {
        match spec_parse_block_items(toks, nxt(toks, pos)) {
            Option::Some((ss, p)) => {
                let p2 = if tok_at(toks, p) is RBrace {
                    nxt(toks, p)
                } else {
                    p
                };
                Option::Some((ss, p2))
            },
            Option::None => Option::None,
        }
    } else {
        Option::Some((Seq::empty(), pos))
    }
}

/// An `if` statement: condition, then-block, and an optional `else` block.
pub open spec fn spec_parse_if(toks: Seq<TokenV>, pos: int) -> Option<(StmtV, int)>
    decreases p_rem(toks, pos), 2int,
{
    let p1 = nxt(toks, pos);
    let (cond, pc) = spec_parse_expr(toks, p1);
    let pc2 = at_least(pc, p1);
    match spec_parse_block(toks, pc2) {
        Option::Some((thn, pt)) => {
            let pt2 = at_least(pt, pc2);
            if tok_at(toks, pt2) is Else {
                match spec_parse_block(toks, nxt(toks, pt2)) {
                    Option::Some((els, pe)) => Option::Some((StmtV::If(cond, thn, els), pe)),
                    Option::None => Option::None,
                }
            } else {
                Option::Some((StmtV::If(cond, thn, Seq::empty()), pt2))
            }
        },
        Option::None => Option::None,
    }
}

/// A `while` statement: condition and body block.
pub open spec fn spec_parse_while(toks: Seq<TokenV>, pos: int) -> Option<(StmtV, int)>
    decreases p_rem(toks, pos), 2int,
{
    let p1 = nxt(toks, pos);
    let (cond, pc) = spec_parse_expr(toks, p1);
    let pc2 = at_least(pc, p1);
    match spec_parse_block(toks, pc2) {
        Option::Some((body, pb)) => Option::Some((StmtV::While(cond, body), pb)),
        Option::None => Option::None,
    }
}

/// One statement, dispatched on the current token. `None` reports the one
/// fatal condition: `let` not followed by an identifier.
pub open spec fn spec_parse_stmt(toks: Seq<TokenV>, pos: int) -> Option<(StmtV, int)>
    decreases p_rem(toks, pos), 3int,
{
    match tok_at(toks, pos) {
        TokenV::Let => {
            let p1 = nxt(toks, pos);
            match tok_at(toks, p1) {
                TokenV::Ident(name) => {
                    let p2 = nxt(toks, p1);
                    let p3 = if tok_at(toks, p2) is Assign {
                        nxt(toks, p2)
                    } else {
                        p2
                    };
                    let (e, p4) = spec_parse_expr(toks, p3);
                    let p5 = if tok_at(toks, p4) is Semicolon {
                        nxt(toks, p4)
                    } else {
                        p4
                    };
                    Option::Some((StmtV::Let(name, e), p5))
                },
                _ => Option::None,
            }
        },
        TokenV::If => spec_parse_if(toks, pos),
        TokenV::While => spec_parse_while(toks, pos),
        _ => {
            let (e, p1) = spec_parse_expr(toks, pos);
            let p2 = if tok_at(toks, p1) is Semicolon {
                nxt(toks, p1)
            } else {
                p1
            };
            Option::Some((StmtV::ExprStmt(e), p2))
        },
    }
}

/// The statements of a block body, up to a closing brace or end-of-input.
pub open spec fn spec_parse_block_items(toks: Seq<TokenV>, pos: int) -> Option<(Seq<StmtV>, int)>
    decreases p_rem(toks, pos), 4int,
{
    let t = tok_at(toks, pos);
    if t is RBrace || t is EOF {
        Option::Some((Seq::empty(), pos))
    } else {
        match spec_parse_stmt(toks, pos) {
            Option::Some((s, p)) => {
                match spec_parse_block_items(toks, at_least(p, pos + 1)) {
                    Option::Some((rest, p2)) => Option::Some((seq![s] + rest, p2)),
                    Option::None => Option::None,
                }
            },
            Option::None => Option::None,
        }
    }
}

/// The top-level statement sequence, up to end-of-input.
pub open spec fn spec_parse_toplevel(toks: Seq<TokenV>, pos: int) -> Option<(Seq<StmtV>, int)>
    decreases p_rem(toks, pos), 4int,
{
    let t = tok_at(toks, pos);
    if t is EOF {
        Option::Some((Seq::empty(), pos))
    } else {
        match spec_parse_stmt(toks, pos) {
            Option::Some((s, p)) => {
                match spec_parse_toplevel(toks, at_least(p, pos + 1)) {
                    Option::Some((rest, p2)) => Option::Some((seq![s] + rest, p2)),
                    Option::None => Option::None,
                }
            },
            Option::None => Option::None,
        }
    }
}

/// The parser never moves its cursor backwards, and consumes at least one
/// token whenever one is available.
pub proof fn lemma_parse_expr_pos(toks: Seq<TokenV>, pos: int)
    ensures
        spec_parse_expr(toks, pos).1 >= pos,
        0 <= pos && pos < toks.len() ==> spec_parse_expr(toks, pos).1 >= pos + 1,
    decreases p_rem(toks, pos), 0int,
{
    let (left, p) = spec_parse_primary(toks, pos);
    let t = tok_at(toks, p);
    if is_binop(t) {
        lemma_parse_expr_pos(toks, nxt(toks, p));
    }
}

/// After a full expression the current token is never a binary operator.
pub proof fn lemma_parse_expr_nonop(toks: Seq<TokenV>, pos: int)
    ensures
        !is_binop(tok_at(toks, spec_parse_expr(toks, pos).1)),
    decreases p_rem(toks, pos), 0int,
{
    let (left, p) = spec_parse_primary(toks, pos);
    let t = tok_at(toks, p);
    if is_binop(t) {
        lemma_parse_expr_nonop(toks, nxt(toks, p));
    }
}

/// Block parsing never moves the cursor backwards.
pub proof fn lemma_parse_block_pos(toks: Seq<TokenV>, pos: int)
    ensures
        spec_parse_block(toks, pos) matches Option::Some((ss, p)) ==> p >= pos,
    decreases p_rem(toks, pos), 1int,
{
    if tok_at(toks, pos) is LBrace {
        lemma_parse_block_items_pos(toks, nxt(toks, pos));
    }
}

/// An `if` statement consumes at least its leading token.
pub proof fn lemma_parse_if_pos(toks: Seq<TokenV>, pos: int)
    ensures
        spec_parse_if(toks, pos) matches Option::Some((s, p)) ==> p >= nxt(toks, pos),
    decreases p_rem(toks, pos), 2int,
{
    let p1 = nxt(toks, pos);
    lemma_parse_expr_pos(toks, p1);
    let (cond, pc) = spec_parse_expr(toks, p1);
    let pc2 = at_least(pc, p1);
    lemma_parse_block_pos(toks, pc2);
    match spec_parse_block(toks, pc2) {
        Option::Some((thn, pt)) => {
            let pt2 = at_least(pt, pc2);
            if tok_at(toks, pt2) is Else {
                lemma_parse_block_pos(toks, nxt(toks, pt2));
            }
        },
        Option::None => {},
    }
}

/// A `while` statement consumes at least its leading token.
pub proof fn lemma_parse_while_pos(toks: Seq<TokenV>, pos: int)
    ensures
        spec_parse_while(toks, pos) matches Option::Some((s, p)) ==> p >= nxt(toks, pos),
    decreases p_rem(toks, pos), 2int,
{
    let p1 = nxt(toks, pos);
    lemma_parse_expr_pos(toks, p1);
    let (cond, pc) = spec_parse_expr(toks, p1);
    lemma_parse_block_pos(toks, at_least(pc, p1));
}

/// A statement never moves the cursor backwards, and consumes at least one
/// token whenever one is available.
pub proof fn lemma_parse_stmt_pos(toks: Seq<TokenV>, pos: int)
    ensures
        spec_parse_stmt(toks, pos) matches Option::Some((s, p)) ==> p >= pos && (0 <= pos
            && pos < toks.len() ==> p >= pos + 1),
    decreases p_rem(toks, pos), 3int,
{
    match tok_at(toks, pos) {
        TokenV::Let => {
            let p1 = nxt(toks, pos);
            match tok_at(toks, p1) {
                TokenV::Ident(name) => {
                    let p2 = nxt(toks, p1);
                    let p3 = if tok_at(toks, p2) is Assign {
                        nxt(toks, p2)
                    } else {
                        p2
                    };
                    lemma_parse_expr_pos(toks, p3);
                },
                _ => {},
            }
        },
        TokenV::If => {
            lemma_parse_if_pos(toks, pos);
        },
        TokenV::While => {
            lemma_parse_while_pos(toks, pos);
        },
        _ => {
            lemma_parse_expr_pos(toks, pos);
        },
    }
}

/// A block body never moves the cursor backwards.
pub proof fn lemma_parse_block_items_pos(toks: Seq<TokenV>, pos: int)
    ensures
        spec_parse_block_items(toks, pos) matches Option::Some((ss, p)) ==> p >= pos,
    decreases p_rem(toks, pos), 4int,
{
    let t = tok_at(toks, pos);
    if !(t is RBrace || t is EOF) {
        lemma_parse_stmt_pos(toks, pos);
        match spec_parse_stmt(toks, pos) {
            Option::Some((s, p)) => {
                lemma_parse_block_items_pos(toks, at_least(p, pos + 1));
            },
            Option::None => {},
        }
    }
}

/// The top-level statement sequence never moves the cursor backwards.
pub proof fn lemma_parse_toplevel_pos(toks: Seq<TokenV>, pos: int)
    ensures
        spec_parse_toplevel(toks, pos) matches Option::Some((ss, p)) ==> p >= pos,
    decreases p_rem(toks, pos), 4int,
{
    let t = tok_at(toks, pos);
    if !(t is EOF) {
        lemma_parse_stmt_pos(toks, pos);
        match spec_parse_stmt(toks, pos) {
            Option::Some((s, p)) => {
                lemma_parse_toplevel_pos(toks, at_least(p, pos + 1));
            },
            Option::None => {},
        }
    }
}

/// Statement views distribute over appending one statement.
pub proof fn lemma_stmts_view_push(v: Seq<Stmt>, s: Stmt)
    ensures
        stmts_view(v.push(s)) == stmts_view(v) + seq![stmt_view(s)],
    decreases v.len(),
{
    if v.len() == 0 {
        let w = v.push(s);
        assert(w.len() == 1);
        assert(w[0] == s);
        assert(w.subrange(1, w.len() as int) =~= Seq::<Stmt>::empty());
        assert(stmts_view(w) == seq![stmt_view(w[0])] + stmts_view(w.subrange(1, w.len() as int)));
        assert(stmts_view(w.subrange(1, w.len() as int)) == Seq::<StmtV>::empty());
        assert(stmts_view(v) == Seq::<StmtV>::empty());
        assert(stmts_view(w) =~= stmts_view(v) + seq![stmt_view(s)]);
    } else {
        assert(v.push(s)[0] == v[0]);
        lemma_stmts_view_push(v.subrange(1, v.len() as int), s);
        assert(v.push(s).subrange(1, v.push(s).len() as int) =~= v.subrange(
            1,
            v.len() as int,
        ).push(s));
        assert(stmts_view(v.push(s)) =~= stmts_view(v) + seq![stmt_view(s)]);
    }
}

/// A copy of a token with the same mathematical image.
fn dup_token(t: &Token) -> (r: Token)
    ensures
        token_view(r) == token_view(*t),
{
    match t {
        Token::Number(n) => Token::Number(*n),
        Token::Ident(s) => Token::Ident(s.clone()),
        Token::Let => Token::Let,
        Token::If => Token::If,
        Token::Else => Token::Else,
        Token::While => Token::While,
        Token::Plus => Token::Plus,
        Token::Minus => Token::Minus,
        Token::Assign => Token::Assign,
        Token::Equal => Token::Equal,
        Token::Less => Token::Less,
        Token::Greater => Token::Greater,
        Token::Lparen => Token::Lparen,
        Token::Rparen => Token::Rparen,
        Token::LBrace => Token::LBrace,
        Token::RBrace => Token::RBrace,
        Token::Semicolon => Token::Semicolon,
        Token::EOF => Token::EOF,
    }
}

/// Recursive-descent parser over a finite token sequence.
pub struct Parser<'a> {
    pub tokens: &'a [Token],
    pub pos: usize,
}

impl<'a> Parser<'a> {
    /// A parser over `tokens`, with the cursor at the start.
    pub fn new(tokens: &'a [Token]) -> (p: Parser<'a>)
        ensures
            p.tokens == tokens,
            p.pos == 0,
    {
        Parser { tokens, pos: 0 }
    }

    /// The token at the cursor; past the end, the end-of-input marker.
    fn current(&self) -> (t: Token)
        ensures
            token_view(t) == tok_at(toks_view(self.tokens@), self.pos as int),
    {
        let n = self.tokens.len();
        if self.pos < n {
            dup_token(&self.tokens[self.pos])
        } else {
            Token::EOF
        }
    }

    /// Moves the cursor past the current token, if one remains.
    fn next(&mut self)
        ensures
            final(self).tokens == old(self).tokens,
            final(self).pos as int == nxt(toks_view(old(self).tokens@), old(self).pos as int),
    {
        if self.pos < self.tokens.len() {
            self.pos = self.pos + 1;
        }
    }

    /// Parses top-level statements until end-of-input, returning the program
    /// or the one fatal error, a `let` with no identifier after it.
    pub fn parse(&mut self) -> (r: Result<Vec<Stmt>, ParseError>)
        ensures
            final(self).tokens == old(self).tokens,
            ({
                match spec_parse_toplevel(toks_view(old(self).tokens@), old(self).pos as int) {
                    Option::Some((sv, p)) => r matches Ok(v) && stmts_view(v@) == sv && final(self).pos as int == p,
                    Option::None => r matches Err(e) && e == ParseError::MalformedLetBinding,
                }
            }),
    {
        let ghost toks: Seq<TokenV> = toks_view(self.tokens@);
        let ghost p0: int = self.pos as int;
        let mut stmts: Vec<Stmt> = Vec::new();
        proof {
            assert(stmts_view(stmts@) =~= Seq::<StmtV>::empty());
            match spec_parse_toplevel(toks, p0) {
                Option::Some((rest, pr)) => {
                    assert(stmts_view(stmts@) + rest =~= rest);
                },
                Option::None => {},
            }
        }
        loop
            invariant
                self.tokens == old(self).tokens,
                toks == toks_view(self.tokens@),
                p0 == old(self).pos as int,
                0 <= p0 <= self.pos as int,
                ({
                    match spec_parse_toplevel(toks, self.pos as int) {
                        Option::Some((rest, pr)) => spec_parse_toplevel(toks, p0)
                            == Option::Some((stmts_view(stmts@) + rest, pr)),
                        Option::None => spec_parse_toplevel(toks, p0) is None,
                    }
                }),
            ensures
                self.tokens == old(self).tokens,
                tok_at(toks, self.pos as int) is EOF,
                spec_parse_toplevel(toks, p0) == Option::Some(
                    (stmts_view(stmts@), self.pos as int),
                ),
            decreases p_rem(toks, self.pos as int),
        {
            let t = self.current();
            let stop = matches!(&t, Token::EOF);
            if stop {
                break;
            }
            let ghost piter: int = self.pos as int;
            let ghost stmts0: Seq<Stmt> = stmts@;
            proof {
                lemma_parse_stmt_pos(toks, piter);
            }
            let s = match self.parse_stmt() {
                Ok(s) => s,
                Err(e) => {
                    return Err(e);
                },
            };
            stmts.push(s);
            proof {
                lemma_stmts_view_push(stmts0, s);
                match spec_parse_toplevel(toks, self.pos as int) {
                    Option::Some((rest2, pr2)) => {
                        assert(stmts_view(stmts@) + rest2 =~= stmts_view(stmts0) + (seq![
                            stmt_view(s),
                        ] + rest2));
                    },
                    Option::None => {},
                }
            }
        }
        Ok(stmts)
    }

    /// Parses one statement, dispatching on the current token.
    fn parse_stmt(&mut self) -> (r: Result<Stmt, ParseError>)
        ensures
            final(self).tokens == old(self).tokens,
            ({
                match spec_parse_stmt(toks_view(old(self).tokens@), old(self).pos as int) {
                    Option::Some((sv, p)) => r matches Ok(s) && stmt_view(s) == sv && final(self).pos as int == p,
                    Option::None => r matches Err(e) && e == ParseError::MalformedLetBinding,
                }
            }),
        decreases p_rem(toks_view(old(self).tokens@), old(self).pos as int), 3int,
    {
        let t = self.current();
        match t {
            Token::Let => {
                self.next();
                let t2 = self.current();
                match t2 {
                    Token::Ident(name) => {
                        self.next();
                        let t3 = self.current();
                        if matches!(&t3, Token::Assign) {
                            self.next();
                        }
                        let expr = self.parse_expr();
                        let t4 = self.current();
                        if matches!(&t4, Token::Semicolon) {
                            self.next();
                        }
                        Ok(Stmt::Let(name, expr))
                    },
                    _ => Err(ParseError::MalformedLetBinding),
                }
            },
            Token::If => self.parse_if(),
            Token::While => self.parse_while(),
            _ => {
                let expr = self.parse_expr();
                let t2 = self.current();
                if matches!(&t2, Token::Semicolon) {
                    self.next();
                }
                Ok(Stmt::ExprStmt(expr))
            },
        }
    }

    /// Parses one expression: a primary, then a right-associative chain of
    /// binary operators without precedence levels.
    fn parse_expr(&mut self) -> (e: Expr)
        ensures
            final(self).tokens == old(self).tokens,
            ({
                let (ev, p) = spec_parse_expr(toks_view(old(self).tokens@), old(self).pos as int);
                expr_view(e) == ev && final(self).pos as int == p
            }),
        decreases p_rem(toks_view(old(self).tokens@), old(self).pos as int), 0int,
    {
        let ghost toks: Seq<TokenV> = toks_view(self.tokens@);
        let ghost p0: int = self.pos as int;
        let t0 = self.current();
        let mut left: Expr;
        match t0 {
            Token::Number(n) => {
                self.next();
                left = Expr::Number(n);
            },
            Token::Ident(name) => {
                self.next();
                left = Expr::Variable(name);
            },
            _ => {
                self.next();
                left = Expr::Number(0);
            },
        }
        loop
            invariant
                self.tokens == old(self).tokens,
                toks == toks_view(self.tokens@),
                p0 == old(self).pos as int,
                0 <= p0 <= self.pos as int,
                ({
                    let t = tok_at(toks, self.pos as int);
                    if is_binop(t) {
                        spec_parse_expr(toks, p0) == {
                            let (right, p2) = spec_parse_expr(toks, nxt(toks, self.pos as int));
                            (
                                ExprV::BinaryOp(
                                    Box::new(expr_view(left)),
                                    op_text(t),
                                    Box::new(right),
                                ),
                                p2,
                            )
                        }
                    } else {
                        spec_parse_expr(toks, p0) == (expr_view(left), self.pos as int)
                    }
                }),
            ensures
                self.tokens == old(self).tokens,
                spec_parse_expr(toks, p0) == (expr_view(left), self.pos as int),
            decreases p_rem(toks, self.pos as int),
        {
            let t = self.current();
            let is_op = matches!(
                &t,
                Token::Plus | Token::Minus | Token::Equal | Token::Less | Token::Greater
            );
            if !is_op {
                break;
            }
            let op: String = match t {
                Token::Plus => String::from_str("+"),
                Token::Minus => String::from_str("-"),
                Token::Equal => String::from_str("=="),
                Token::Less => String::from_str("<"),
                Token::Greater => String::from_str(">"),
                _ => String::from_str(""),
            };
            self.next();
            proof {
                lemma_parse_expr_pos(toks, self.pos as int);
                lemma_parse_expr_nonop(toks, self.pos as int);
            }
            let right = self.parse_expr();
            left = Expr::BinaryOp(Box::new(left), op, Box::new(right));
        }
        left
    }

    /// Parses an `if` statement: condition, then-block, optional else-block.
    fn parse_if(&mut self) -> (r: Result<Stmt, ParseError>)
        ensures
            final(self).tokens == old(self).tokens,
            ({
                match spec_parse_if(toks_view(old(self).tokens@), old(self).pos as int) {
                    Option::Some((sv, p)) => r matches Ok(s) && stmt_view(s) == sv && final(self).pos as int == p,
                    Option::None => r matches Err(e) && e == ParseError::MalformedLetBinding,
                }
            }),
        decreases p_rem(toks_view(old(self).tokens@), old(self).pos as int), 2int,
    {
        let ghost toks: Seq<TokenV> = toks_view(self.tokens@);
        let ghost p0: int = self.pos as int;
        self.next();
        let ghost p1: int = self.pos as int;
        let cond = self.parse_expr();
        let ghost pc: int = self.pos as int;
        proof {
            lemma_parse_expr_pos(toks, p1);
        }
        let then_block = match self.parse_block() {
            Ok(v) => v,
            Err(e) => {
                return Err(e);
            },
        };
        proof {
            lemma_parse_block_pos(toks, pc);
        }
        let mut else_block: Vec<Stmt> = Vec::new();
        let t = self.current();
        if matches!(&t, Token::Else) {
            self.next();
            else_block = match self.parse_block() {
                Ok(v) => v,
                Err(e) => {
                    return Err(e);
                },
            };
        }
        proof {
            assert(stmts_view(Seq::<Stmt>::empty()) =~= Seq::<StmtV>::empty());
        }
        Ok(Stmt::If(cond, then_block, else_block))
    }

    /// Parses a `while` statement: condition and body block.
    fn parse_while(&mut self) -> (r: Result<Stmt, ParseError>)
        ensures
            final(self).tokens == old(self).tokens,
            ({
                match spec_parse_while(toks_view(old(self).tokens@), old(self).pos as int) {
                    Option::Some((sv, p)) => r matches Ok(s) && stmt_view(s) == sv && final(self).pos as int == p,
                    Option::None => r matches Err(e) && e == ParseError::MalformedLetBinding,
                }
            }),
        decreases p_rem(toks_view(old(self).tokens@), old(self).pos as int), 2int,
    {
        let ghost toks: Seq<TokenV> = toks_view(self.tokens@);
        let ghost p0: int = self.pos as int;
        self.next();
        let ghost p1: int = self.pos as int;
        let cond = self.parse_expr();
        proof {
            lemma_parse_expr_pos(toks, p1);
        }
        let body = match self.parse_block() {
            Ok(v) => v,
            Err(e) => {
                return Err(e);
            },
        };
        Ok(Stmt::While(cond, body))
    }

    /// Parses a brace-delimited block; with no opening brace, an empty block.
    fn parse_block(&mut self) -> (r: Result<Vec<Stmt>, ParseError>)
        ensures
            final(self).tokens == old(self).tokens,
            ({
                match spec_parse_block(toks_view(old(self).tokens@), old(self).pos as int) {
                    Option::Some((sv, p)) => r matches Ok(v) && stmts_view(v@) == sv && final(self).pos as int == p,
                    Option::None => r matches Err(e) && e == ParseError::MalformedLetBinding,
                }
            }),
        decreases p_rem(toks_view(old(self).tokens@), old(self).pos as int), 1int,
    {
        let ghost toks: Seq<TokenV> = toks_view(self.tokens@);
        let ghost p0: int = self.pos as int;
        let mut stmts: Vec<Stmt> = Vec::new();
        let t = self.current();
        if !matches!(&t, Token::LBrace) {
            proof {
                assert(stmts_view(stmts@) =~= Seq::<StmtV>::empty());
            }
            return Ok(stmts);
        }
        self.next();
        proof {
            assert(stmts_view(stmts@) =~= Seq::<StmtV>::empty());
            match spec_parse_block_items(toks, self.pos as int) {
                Option::Some((rest, pr)) => {
                    assert(stmts_view(stmts@) + rest =~= rest);
                },
                Option::None => {},
            }
        }
        loop
            invariant
                self.tokens == old(self).tokens,
                toks == toks_view(self.tokens@),
                p0 == old(self).pos as int,
                0 <= p0 < toks.len(),
                tok_at(toks, p0) is LBrace,
                p0 < self.pos as int,
                ({
                    match spec_parse_block_items(toks, self.pos as int) {
                        Option::Some((rest, pr)) => spec_parse_block_items(toks, nxt(toks, p0))
                            == Option::Some((stmts_view(stmts@) + rest, pr)),
                        Option::None => spec_parse_block_items(toks, nxt(toks, p0)) is None,
                    }
                }),
            ensures
                self.tokens == old(self).tokens,
                tok_at(toks, self.pos as int) is RBrace || tok_at(toks, self.pos as int) is EOF,
                spec_parse_block_items(toks, nxt(toks, p0)) == Option::Some(
                    (stmts_view(stmts@), self.pos as int),
                ),
            decreases p_rem(toks, self.pos as int),
        {
            let t2 = self.current();
            let stop = matches!(&t2, Token::RBrace | Token::EOF);
            if stop {
                break;
            }
            let ghost piter: int = self.pos as int;
            let ghost stmts0: Seq<Stmt> = stmts@;
            proof {
                lemma_parse_stmt_pos(toks, piter);
            }
            let s = match self.parse_stmt() {
                Ok(s) => s,
                Err(e) => {
                    return Err(e);
                },
            };
            stmts.push(s);
            proof {
                lemma_stmts_view_push(stmts0, s);
                match spec_parse_block_items(toks, self.pos as int) {
                    Option::Some((rest2, pr2)) => {
                        assert(stmts_view(stmts@) + rest2 =~= stmts_view(stmts0) + (seq![
                            stmt_view(s),
                        ] + rest2));
                    },
                    Option::None => {},
                }
            }
        }
        let t3 = self.current();
        if matches!(&t3, Token::RBrace) {
            self.next();
        }
        Ok(stmts)
    }
}


} // verus!
