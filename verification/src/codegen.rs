use vstd::prelude::*;

use crate::parser::{expr_view, stmt_view, stmts_view, Expr, ExprV, Stmt, StmtV};
use crate::strutil::{dec_digits, int_str, push_i32, push_u64};
use vstd::string::StringExecFns;

verus! {

broadcast use vstd::slice::group_slice_axioms;

/// The views of the emitted instruction lines.
pub open spec fn lines_view(code: Seq<String>) -> Seq<Seq<char>> {
    code.map_values(|s: String| s@)
}

/// The view of the lines after emitting one more.
pub proof fn lemma_lines_view_push(code: Seq<String>, s: String)
    ensures
        lines_view(code.push(s)) == lines_view(code).push(s@),
{
    assert(lines_view(code.push(s)) =~= lines_view(code).push(s@));
}

/// The label text for a purpose prefix and a counter value.
pub open spec fn label_str(prefix: Seq<char>, cnt: nat) -> Seq<char> {
    prefix + "_"@ + dec_digits(cnt)
}

/// The instruction line for a binary operator: operators outside the fixed
/// set degrade to a diagnostic comment line.
pub open spec fn op_line(op: Seq<char>) -> Seq<char> {
    if op == "+"@ {
        "ADD"@
    } else if op == "-"@ {
        "SUB"@
    } else if op == "=="@ {
        "EQ"@
    } else if op == "<"@ {
        "LT"@
    } else if op == ">"@ {
        "GT"@
    } else {
        "// UNKNOWN_OP "@ + op
    }
}

/// The instruction lines for one expression: left operand, right operand,
/// then the operator instruction.
pub open spec fn spec_gen_expr(e: ExprV) -> Seq<Seq<char>>
    decreases e,
{
    match e {
        ExprV::Number(n) => seq!["PUSH "@ + int_str(n)],
        ExprV::Variable(name) => seq!["LOAD "@ + name],
        ExprV::BinaryOp(l, op, r) => spec_gen_expr(*l) + spec_gen_expr(*r) + seq![op_line(op)],
    }
}

/// How many labels code generation allocates for one statement.
pub open spec fn labels_needed_stmt(s: StmtV) -> nat
    decreases s,
{
    match s {
        StmtV::Let(_, _) => 0,
        StmtV::ExprStmt(_) => 0,
        StmtV::If(_, t, e) => 2 + labels_needed_stmts(t) + labels_needed_stmts(e),
        StmtV::While(_, b) => 2 + labels_needed_stmts(b),
    }
}

pub open spec fn labels_needed_stmts(ss: Seq<StmtV>) -> nat
    decreases ss,
{
    if ss.len() == 0 {
        0
    } else {
        labels_needed_stmt(ss[0]) + labels_needed_stmts(ss.subrange(1, ss.len() as int))
    }
}

/// The instruction lines for one statement, from label counter `cnt`, and
/// the counter after it.
pub open spec fn spec_gen_stmt(s: StmtV, cnt: nat) -> (Seq<Seq<char>>, nat)
    decreases s,
{
    match s {
        StmtV::Let(name, e) => (spec_gen_expr(e) + seq!["STORE "@ + name], cnt),
        StmtV::ExprStmt(e) => (spec_gen_expr(e) + seq!["POP"@], cnt),
        StmtV::If(c, t, els) => {
            let else_l = label_str("Lelse"@, cnt);
            let end_l = label_str("Lend"@, cnt + 1);
            let (tcode, cnt1) = spec_gen_stmts(t, cnt + 2);
            let (ecode, cnt2) = spec_gen_stmts(els, cnt1);
            (
                spec_gen_expr(c) + seq!["JZ "@ + else_l] + tcode + seq![
                    "JMP "@ + end_l,
                    "LABEL "@ + else_l,
                ] + ecode + seq!["LABEL "@ + end_l],
                cnt2,
            )
        },
        StmtV::While(c, b) => {
            let start_l = label_str("Lstart"@, cnt);
            let end_l = label_str("Lend"@, cnt + 1);
            let (bcode, cnt1) = spec_gen_stmts(b, cnt + 2);
            (
                seq!["LABEL "@ + start_l] + spec_gen_expr(c) + seq!["JZ "@ + end_l] + bcode + seq![
                    "JMP "@ + start_l,
                    "LABEL "@ + end_l,
                ],
                cnt1,
            )
        },
    }
}

/// The instruction lines for a statement sequence, in order, threading the
/// label counter through.
pub open spec fn spec_gen_stmts(ss: Seq<StmtV>, cnt: nat) -> (Seq<Seq<char>>, nat)
    decreases ss,
{
    if ss.len() == 0 {
        (Seq::empty(), cnt)
    } else {
        let (first, cnt1) = spec_gen_stmt(ss[0], cnt);
        let (rest, cnt2) = spec_gen_stmts(ss.subrange(1, ss.len() as int), cnt1);
        (first + rest, cnt2)
    }
}

/// Instruction lines joined with single newlines, no trailing newline.
pub open spec fn join_lines(lines: Seq<Seq<char>>) -> Seq<char>
    decreases lines.len(),
{
    if lines.len() == 0 {
        Seq::empty()
    } else if lines.len() == 1 {
        lines[0]
    } else {
        lines[0] + "\n"@ + join_lines(lines.subrange(1, lines.len() as int))
    }
}

/// The whole program text: the lines of every statement from a fresh label
/// counter, a final halt instruction, joined with newlines.
pub open spec fn spec_gen_program(ss: Seq<StmtV>) -> Seq<char> {
    join_lines(spec_gen_stmts(ss, 0).0 + seq!["HALT"@])
}

/// Code generation allocates exactly the labels the statement needs.
pub proof fn lemma_gen_stmt_count(s: StmtV, cnt: nat)
    ensures
        spec_gen_stmt(s, cnt).1 == cnt + labels_needed_stmt(s),
    decreases s,
{
    match s {
        StmtV::Let(_, _) => {},
        StmtV::ExprStmt(_) => {},
        StmtV::If(c, t, els) => {
            lemma_gen_stmts_count(t, cnt + 2);
            lemma_gen_stmts_count(els, spec_gen_stmts(t, cnt + 2).1);
        },
        StmtV::While(c, b) => {
            lemma_gen_stmts_count(b, cnt + 2);
        },
    }
}

pub proof fn lemma_gen_stmts_count(ss: Seq<StmtV>, cnt: nat)
    ensures
        spec_gen_stmts(ss, cnt).1 == cnt + labels_needed_stmts(ss),
    decreases ss,
{
    if ss.len() > 0 {
        lemma_gen_stmt_count(ss[0], cnt);
        lemma_gen_stmts_count(ss.subrange(1, ss.len() as int), spec_gen_stmt(ss[0], cnt).1);
    }
}

/// Joining distributes over appending one line.
pub proof fn lemma_join_push(lines: Seq<Seq<char>>, x: Seq<char>)
    ensures
        join_lines(lines.push(x)) == (if lines.len() == 0 {
            x
        } else {
            join_lines(lines) + "\n"@ + x
        }),
    decreases lines.len(),
{
    let w = lines.push(x);
    if lines.len() == 0 {
        assert(w.len() == 1);
        assert(w[0] == x);
    } else if lines.len() == 1 {
        assert(w[0] == lines[0]);
        assert(w.subrange(1, w.len() as int) =~= Seq::<Seq<char>>::empty().push(x));
        lemma_join_push(Seq::<Seq<char>>::empty(), x);
        assert(join_lines(w) == lines[0] + "\n"@ + x);
        assert(join_lines(lines) == lines[0]);
    } else {
        let tail = lines.subrange(1, lines.len() as int);
        lemma_join_push(tail, x);
        assert(w[0] == lines[0]);
        assert(w.subrange(1, w.len() as int) =~= tail.push(x));
        assert(join_lines(w) == lines[0] + "\n"@ + (join_lines(tail) + "\n"@ + x));
        assert(join_lines(lines) == lines[0] + "\n"@ + join_lines(tail));
        assert(lines[0] + "\n"@ + (join_lines(tail) + "\n"@ + x) =~= (lines[0] + "\n"@
            + join_lines(tail)) + "\n"@ + x);
    }
}

/// The view of statements keeps length and order.
pub proof fn lemma_stmts_view_props(v: Seq<Stmt>)
    ensures
        stmts_view(v).len() == v.len(),
        forall|i: int| 0 <= i < v.len() ==> stmts_view(v)[i] == stmt_view(v[i]),
    decreases v.len(),
{
    if v.len() > 0 {
        let tail = v.subrange(1, v.len() as int);
        lemma_stmts_view_props(tail);
        assert forall|i: int| 0 <= i < v.len() implies stmts_view(v)[i] == stmt_view(v[i]) by {
            if i > 0 {
                assert(stmts_view(v)[i] == stmts_view(tail)[i - 1]);
                assert(tail[i - 1] == v[i]);
            }
        }
    }
}


/// The lines of a program of expression statements: each expression's
/// evaluation code followed by one discard instruction, in source order.
pub open spec fn expr_discard_lines(ss: Seq<StmtV>) -> Seq<Seq<char>>
    decreases ss,
{
    if ss.len() == 0 {
        Seq::empty()
    } else {
        (match ss[0] {
            StmtV::ExprStmt(e) => spec_gen_expr(e) + seq!["POP"@],
            _ => Seq::empty(),
        }) + expr_discard_lines(ss.subrange(1, ss.len() as int))
    }
}

/// For a statement sequence with no binding and no control flow — only
/// expression statements — code generation emits exactly each expression's
/// evaluation code followed by a discard instruction, in source order, and
/// allocates no labels.
pub proof fn lemma_expression_stmts(ss: Seq<StmtV>, cnt: nat)
    requires
        forall|i: int| 0 <= i < ss.len() ==> ss[i] is ExprStmt,
    ensures
        spec_gen_stmts(ss, cnt) == (expr_discard_lines(ss), cnt),
    decreases ss.len(),
{
    if ss.len() > 0 {
        let tail = ss.subrange(1, ss.len() as int);
        assert forall|i: int| 0 <= i < tail.len() implies tail[i] is ExprStmt by {
            assert(tail[i] == ss[i + 1]);
        }
        lemma_expression_stmts(tail, cnt);
        assert(ss[0] is ExprStmt);
        match ss[0] {
            StmtV::ExprStmt(e) => {
                assert(spec_gen_stmt(ss[0], cnt) == (spec_gen_expr(e) + seq!["POP"@], cnt));
                assert(expr_discard_lines(ss) == (spec_gen_expr(e) + seq!["POP"@])
                    + expr_discard_lines(tail));
                assert(spec_gen_stmts(ss, cnt) == (
                    (spec_gen_expr(e) + seq!["POP"@]) + expr_discard_lines(tail),
                    cnt,
                ));
            },
            _ => {
                assert(false);
            },
        }
    }
}

/// A program of expression statements alone generates exactly the
/// evaluation code of each expression followed by a discard instruction,
/// in source order, and a trailing halt instruction.
pub proof fn lemma_expression_program(ss: Seq<StmtV>)
    requires
        forall|i: int| 0 <= i < ss.len() ==> ss[i] is ExprStmt,
    ensures
        spec_gen_program(ss) == join_lines(expr_discard_lines(ss) + seq!["HALT"@]),
{
    lemma_expression_stmts(ss, 0);
}

/// Instruction text from a fresh generation session is a function of the
/// syntax tree alone: two independent sessions over the same tree yield
/// identical text, the label counter restarting at zero in each.
pub proof fn lemma_generate_session_independent(
    ss: Seq<StmtV>,
    out1: Seq<char>,
    out2: Seq<char>,
)
    requires
        out1 == spec_gen_program(ss),
        out2 == spec_gen_program(ss),
    ensures
        out1 == out2,
{
}

/// Emitter of virtual-machine instruction text: the lines so far and the
/// label counter for this session.
pub struct CodeGen {
    pub code: Vec<String>,
    pub label_cnt: usize,
}

impl CodeGen {
    /// A fresh session: no lines, counter at zero.
    pub fn new() -> (g: CodeGen)
        ensures
            g.code@.len() == 0,
            g.label_cnt == 0,
    {
        CodeGen { code: Vec::new(), label_cnt: 0 }
    }

    /// Appends one finished instruction line.
    fn emit(&mut self, s: String)
        ensures
            final(self).label_cnt == old(self).label_cnt,
            final(self).code@ == old(self).code@.push(s),
            lines_view(final(self).code@) == lines_view(old(self).code@).push(s@),
    {
        let ghost c: Seq<String> = self.code@;
        self.code.push(s);
        proof {
            lemma_lines_view_push(c, s);
        }
    }

    /// A fresh label from the purpose prefix and the counter, which advances.
    fn new_label(&mut self, prefix: &str) -> (r: String)
        requires
            old(self).label_cnt < usize::MAX,
        ensures
            final(self).code == old(self).code,
            final(self).label_cnt == old(self).label_cnt + 1,
            r@ == label_str(prefix@, old(self).label_cnt as nat),
    {
        let mut l = String::from_str(prefix);
        l.append("_");
        push_u64(&mut l, self.label_cnt as u64);
        self.label_cnt = self.label_cnt + 1;
        proof {
            assert(l@ =~= label_str(prefix@, old(self).label_cnt as nat));
        }
        l
    }

    /// Emits the evaluation code of one expression: left operand, right
    /// operand, then the operator instruction, leaving one value on the
    /// virtual machine's stack.
    fn gen_expr(&mut self, expr: &Expr)
        ensures
            final(self).label_cnt == old(self).label_cnt,
            lines_view(final(self).code@) == lines_view(old(self).code@) + spec_gen_expr(
                expr_view(*expr),
            ),
        decreases *expr,
    {
        let ghost code0: Seq<String> = self.code@;
        match expr {
            Expr::Number(n) => {
                let mut line = String::from_str("PUSH ");
                push_i32(&mut line, *n);
                let ghost linev: Seq<char> = line@;
                self.emit(line);
                proof {
                    lemma_lines_view_push(code0, self.code@.last());
                    assert(linev == "PUSH "@ + int_str(*n as int));
                    assert(lines_view(self.code@) =~= lines_view(code0) + spec_gen_expr(
                        expr_view(*expr),
                    ));
                }
            },
            Expr::Variable(name) => {
                let mut line = String::from_str("LOAD ");
                line.append(name.as_str());
                let ghost linev: Seq<char> = line@;
                self.emit(line);
                proof {
                    lemma_lines_view_push(code0, self.code@.last());
                    assert(linev == "LOAD "@ + name@);
                    assert(lines_view(self.code@) =~= lines_view(code0) + spec_gen_expr(
                        expr_view(*expr),
                    ));
                }
            },
            Expr::BinaryOp(l, op, r) => {
                self.gen_expr(&**l);
                self.gen_expr(&**r);
                let ghost code2: Seq<String> = self.code@;
                let plus = String::from_str("+");
                let minus = String::from_str("-");
                let eqeq = String::from_str("==");
                let less = String::from_str("<");
                let greater = String::from_str(">");
                let opline: String = if *op == plus {
                    String::from_str("ADD")
                } else if *op == minus {
                    String::from_str("SUB")
                } else if *op == eqeq {
                    String::from_str("EQ")
                } else if *op == less {
                    String::from_str("LT")
                } else if *op == greater {
                    String::from_str("GT")
                } else {
                    let mut line = String::from_str("// UNKNOWN_OP ");
                    line.append(op.as_str());
                    line
                };
                proof {
                    assert(opline@ == op_line(op@));
                }
                self.emit(opline);
                proof {
                    lemma_lines_view_push(code2, self.code@.last());
                    assert(expr_view(*expr) == ExprV::BinaryOp(
                        Box::new(expr_view(**l)),
                        op@,
                        Box::new(expr_view(**r)),
                    ));
                    assert(spec_gen_expr(expr_view(*expr)) == spec_gen_expr(expr_view(**l))
                        + spec_gen_expr(expr_view(**r)) + seq![op_line(op@)]);
                    assert(lines_view(self.code@) =~= lines_view(code0) + spec_gen_expr(
                        expr_view(*expr),
                    ));
                }
            },
        }
    }

    /// Emits the code of one statement: stores and discards for simple
    /// statements, label-and-jump lowering for control flow.
    fn gen_stmt(&mut self, stmt: &Stmt)
        requires
            old(self).label_cnt as nat + labels_needed_stmt(stmt_view(*stmt)) <= usize::MAX as nat,
        ensures
            ({
                let (lines, c2) = spec_gen_stmt(stmt_view(*stmt), old(self).label_cnt as nat);
                lines_view(final(self).code@) == lines_view(old(self).code@) + lines && final(self).label_cnt as nat == c2
            }),
        decreases *stmt, 1int,
    {
        let ghost code0: Seq<String> = self.code@;
        let ghost c0: nat = self.label_cnt as nat;
        match stmt {
            Stmt::Let(name, expr) => {
                self.gen_expr(expr);
                let mut line = String::from_str("STORE ");
                line.append(name.as_str());
                proof {
                    assert(line@ == "STORE "@ + name@);
                }
                self.emit(line);
                proof {
                    assert(lines_view(self.code@) =~= lines_view(code0) + (spec_gen_expr(
                        expr_view(*expr),
                    ) + seq!["STORE "@ + name@]));
                }
            },
            Stmt::ExprStmt(expr) => {
                self.gen_expr(expr);
                self.emit(String::from_str("POP"));
                proof {
                    assert(lines_view(self.code@) =~= lines_view(code0) + (spec_gen_expr(
                        expr_view(*expr),
                    ) + seq!["POP"@]));
                }
            },
            Stmt::If(cond, then_block, else_block) => {
                let ghost tv: Seq<StmtV> = stmts_view(then_block@);
                let ghost ev: Seq<StmtV> = stmts_view(else_block@);
                self.gen_expr(cond);
                let else_label = self.new_label("Lelse");
                let end_label = self.new_label("Lend");
                let mut jz = String::from_str("JZ ");
                jz.append(else_label.as_str());
                self.emit(jz);
                proof {
                    lemma_gen_stmts_count(tv, (c0 + 2) as nat);
                }
                self.gen_stmts(then_block.as_slice());
                let mut jmp = String::from_str("JMP ");
                jmp.append(end_label.as_str());
                self.emit(jmp);
                let mut lab = String::from_str("LABEL ");
                lab.append(else_label.as_str());
                self.emit(lab);
                self.gen_stmts(else_block.as_slice());
                let mut lab2 = String::from_str("LABEL ");
                lab2.append(end_label.as_str());
                self.emit(lab2);
                proof {
                    let else_l = label_str("Lelse"@, c0);
                    let end_l = label_str("Lend"@, (c0 + 1) as nat);
                    let (tcode, cnt1) = spec_gen_stmts(tv, (c0 + 2) as nat);
                    let (ecode, cnt2) = spec_gen_stmts(ev, cnt1);
                    assert(lines_view(self.code@) =~= lines_view(code0) + (spec_gen_expr(
                        expr_view(*cond),
                    ) + seq!["JZ "@ + else_l] + tcode + seq![
                        "JMP "@ + end_l,
                        "LABEL "@ + else_l,
                    ] + ecode + seq!["LABEL "@ + end_l]));
                }
            },
            Stmt::While(cond, body) => {
                let ghost bv: Seq<StmtV> = stmts_view(body@);
                let start_label = self.new_label("Lstart");
                let end_label = self.new_label("Lend");
                let mut lab = String::from_str("LABEL ");
                lab.append(start_label.as_str());
                self.emit(lab);
                self.gen_expr(cond);
                let mut jz = String::from_str("JZ ");
                jz.append(end_label.as_str());
                self.emit(jz);
                proof {
                    lemma_gen_stmts_count(bv, (c0 + 2) as nat);
                }
                self.gen_stmts(body.as_slice());
                let mut jmp = String::from_str("JMP ");
                jmp.append(start_label.as_str());
                self.emit(jmp);
                let mut lab2 = String::from_str("LABEL ");
                lab2.append(end_label.as_str());
                self.emit(lab2);
                proof {
                    let start_l = label_str("Lstart"@, c0);
                    let end_l = label_str("Lend"@, (c0 + 1) as nat);
                    let (bcode, cnt1) = spec_gen_stmts(bv, (c0 + 2) as nat);
                    assert(lines_view(self.code@) =~= lines_view(code0) + (seq![
                        "LABEL "@ + start_l,
                    ] + spec_gen_expr(expr_view(*cond)) + seq!["JZ "@ + end_l] + bcode + seq![
                        "JMP "@ + start_l,
                        "LABEL "@ + end_l,
                    ]));
                }
            },
        }
    }

    /// Emits the code of each statement in order, threading the label
    /// counter through.
    #[verifier::loop_isolation(false)]
    fn gen_stmts(&mut self, stmts: &[Stmt])
        requires
            old(self).label_cnt as nat + labels_needed_stmts(stmts_view(stmts@))
                <= usize::MAX as nat,
        ensures
            ({
                let (lines, c2) = spec_gen_stmts(stmts_view(stmts@), old(self).label_cnt as nat);
                lines_view(final(self).code@) == lines_view(old(self).code@) + lines && final(self).label_cnt as nat == c2
            }),
        decreases stmts@, 0int,
    {
        let ghost tv: Seq<StmtV> = stmts_view(stmts@);
        let ghost c0: nat = self.label_cnt as nat;
        let ghost code0: Seq<String> = self.code@;
        proof {
            lemma_stmts_view_props(stmts@);
            assert(tv.subrange(0, tv.len() as int) =~= tv);
        }
        let mut i: usize = 0;
        while i < stmts.len()
            invariant
                i <= stmts@.len(),
                ({
                    let (rem_lines, cr) = spec_gen_stmts(
                        tv.subrange(i as int, tv.len() as int),
                        self.label_cnt as nat,
                    );
                    let (all_lines, call) = spec_gen_stmts(tv, c0);
                    lines_view(self.code@) + rem_lines == lines_view(code0) + all_lines && cr
                        == call
                }),
                self.label_cnt as nat + labels_needed_stmts(
                    tv.subrange(i as int, tv.len() as int),
                ) <= usize::MAX as nat,
            decreases stmts@.len() - i,
        {
            let ghost csnap: nat = self.label_cnt as nat;
            let ghost sub_i: Seq<StmtV> = tv.subrange(i as int, tv.len() as int);
            proof {
                assert(sub_i[0] == stmt_view(stmts@[i as int]));
                assert(sub_i.subrange(1, sub_i.len() as int) =~= tv.subrange(
                    i as int + 1,
                    tv.len() as int,
                ));
                lemma_gen_stmt_count(sub_i[0], csnap);
            }
            let ghost codepre: Seq<String> = self.code@;
            self.gen_stmt(&stmts[i]);
            i = i + 1;
            proof {
                let (first, cnt1) = spec_gen_stmt(sub_i[0], csnap);
                let (rest, cnt2) = spec_gen_stmts(
                    tv.subrange(i as int, tv.len() as int),
                    cnt1,
                );
                assert((lines_view(codepre) + first) + rest =~= lines_view(codepre) + (first
                    + rest));
            }
        }
        proof {
            assert(tv.subrange(tv.len() as int, tv.len() as int) =~= Seq::<StmtV>::empty());
            let (all_lines, call) = spec_gen_stmts(tv, c0);
            assert(lines_view(self.code@) + Seq::<Seq<char>>::empty() =~= lines_view(
                self.code@,
            ));
        }
    }

    /// Emits the code of the whole program and returns the instruction text:
    /// every statement in order, a final halt instruction, one line each,
    /// joined with newlines.
    #[verifier::loop_isolation(false)]
    pub fn gen_program(&mut self, stmts: &[Stmt]) -> (r: String)
        requires
            old(self).label_cnt as nat + labels_needed_stmts(stmts_view(stmts@))
                <= usize::MAX as nat,
        ensures
            ({
                let (lines, c2) = spec_gen_stmts(stmts_view(stmts@), old(self).label_cnt as nat);
                lines_view(final(self).code@) == lines_view(old(self).code@) + lines + seq![
                    "HALT"@,
                ] && final(self).label_cnt as nat == c2 && r@ == join_lines(
                    lines_view(final(self).code@),
                )
            }),
            old(self).code@.len() == 0 && old(self).label_cnt == 0 ==> r@ == spec_gen_program(
                stmts_view(stmts@),
            ),
    {
        let ghost code0: Seq<String> = self.code@;
        let ghost c0: nat = self.label_cnt as nat;
        self.gen_stmts(stmts);
        self.emit(String::from_str("HALT"));
        proof {
            let (lines, c2) = spec_gen_stmts(stmts_view(stmts@), c0);
            assert(lines_view(self.code@) =~= lines_view(code0) + lines + seq!["HALT"@]);
        }
        let mut out = String::new();
        let mut i: usize = 0;
        while i < self.code.len()
            invariant
                i <= self.code@.len(),
                out@ == join_lines(lines_view(self.code@).subrange(0, i as int)),
            decreases self.code@.len() - i,
        {
            let ghost pre: Seq<Seq<char>> = lines_view(self.code@).subrange(0, i as int);
            if i > 0 {
                out.append("\n");
            }
            out.append(self.code[i].as_str());
            proof {
                let linev = lines_view(self.code@)[i as int];
                lemma_join_push(pre, linev);
                assert(lines_view(self.code@).subrange(0, i as int + 1) =~= pre.push(linev));
                if i == 0 {
                    assert(out@ =~= linev);
                } else {
                    assert(out@ =~= (join_lines(pre) + "\n"@) + linev);
                    assert((join_lines(pre) + "\n"@) + linev =~= join_lines(pre) + "\n"@
                        + linev);
                }
            }
            i = i + 1;
        }
        proof {
            assert(lines_view(self.code@).subrange(0, self.code@.len() as int) =~= lines_view(
                self.code@,
            ));
            if code0.len() == 0 && c0 == 0 {
                let (lines, c2) = spec_gen_stmts(stmts_view(stmts@), 0);
                assert(lines_view(code0) =~= Seq::<Seq<char>>::empty());
                assert(lines_view(code0) + lines + seq!["HALT"@] =~= lines + seq!["HALT"@]);
            }
        }
        out
    }
}

} // verus!
