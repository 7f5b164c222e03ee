//! The parser: recursive descent with precedence climbing, local constant
//! folding, and line-tracked error recovery.
//!
//! The parser keeps one token of lookahead and builds [`ExprNode`] trees.
//! Binary expressions use precedence climbing: from a parsed primary,
//! operators at or above the current threshold are consumed, and a
//! tighter-binding next operator is absorbed into the right-hand side first,
//! so that equal precedence associates to the left.  Whenever both operands
//! of a fresh binary operation are literals, the node is folded to the exact
//! literal result; an operation whose exact result is not representable — an
//! out-of-range sum or product, a quotient with no finite decimal form, a
//! division by zero — is left unfolded.
//!
//! A syntax error ends only its top-level construct: the driver records a
//! diagnostic and resumes at the next construct boundary (a `;`, a leading
//! keyword, or the end of the input).  A lexical error — an invalid numeric
//! literal — is fatal and ends the whole run at once.
//!
//! The spec functions `sp_*` state what each parsing routine consumes and
//! returns; the executable routines are proved to implement them exactly.

use vstd::prelude::*;
use crate::ast::{
    diag_views, Diagnostic, DiagModel, Expr, expr_views, ExprNode, expr_wf, FuncModel, Function,
    name_views, ProtoModel, Prototype, TopLevel, TopModel, top_views,
};
use crate::lexer::{Lexer, lemma_scan_line_independent, scan, Token, TokenModel, lemma_scan_bounds};
use crate::numeral::{
    denotes, diff_value, fits, lemma_norm_value, norm, Numeral, prod_value, spec_quotient,
    sum_value, value_lt,
};
use vstd::string::StringExecFns;

verus! {

/// The binding strength of a binary operator; `-1` marks a character that is
/// no binary operator, so the precedence loop always terminates on it.
pub open spec fn op_precedence(c: char) -> int {
    if c == '<' || c == '>' {
        10
    } else if c == '+' || c == '-' {
        20
    } else if c == '*' || c == '/' {
        40
    } else {
        -1
    }
}

/// The binding strength of the token under the cursor: only a symbol token
/// can be a binary operator.
pub open spec fn spec_precedence(t: TokenModel) -> int {
    match t {
        TokenModel::Symbol(c) => op_precedence(c),
        _ => -1,
    }
}

fn precedence(c: char) -> (r: i64)
    ensures
        r as int == op_precedence(c),
{
    if c == '<' || c == '>' {
        10
    } else if c == '+' || c == '-' {
        20
    } else if c == '*' || c == '/' {
        40
    } else {
        -1
    }
}

/// A normalized value packed into a numeral, or `None` when it does not fit.
pub open spec fn norm_numeral(v: (int, nat)) -> Option<Numeral> {
    if fits(norm(v.0, v.1)) {
        Some(Numeral { mantissa: norm(v.0, v.1).0 as i64, scale: norm(v.0, v.1).1 as u32 })
    } else {
        None
    }
}

/// The folded literal for an operator on two literal operands: the exact
/// sum, difference, product or quotient when it is representable, and for a
/// comparison one for true and zero for false.  A division by zero, an
/// unrepresentable result and any other operator fold to nothing.
pub open spec fn spec_fold(op: char, a: Numeral, b: Numeral) -> Option<Numeral> {
    if op == '+' {
        norm_numeral(sum_value(a, b))
    } else if op == '-' {
        norm_numeral(diff_value(a, b))
    } else if op == '*' {
        norm_numeral(prod_value(a, b))
    } else if op == '/' {
        spec_quotient(a, b)
    } else if op == '<' {
        Some(
            if value_lt(a, b) {
                Numeral { mantissa: 1, scale: 0 }
            } else {
                Numeral { mantissa: 0, scale: 0 }
            },
        )
    } else if op == '>' {
        Some(
            if value_lt(b, a) {
                Numeral { mantissa: 1, scale: 0 }
            } else {
                Numeral { mantissa: 0, scale: 0 }
            },
        )
    } else {
        None
    }
}

/// The node for a freshly built binary operation: two literal operands fold
/// to a single literal where [`spec_fold`] gives one; anything else stays an
/// operation node.
pub open spec fn spec_combine(op: char, l: Expr, r: Expr) -> Expr {
    match (l, r) {
        (Expr::Number(a), Expr::Number(b)) => match spec_fold(op, a, b) {
            Some(n) => Expr::Number(n),
            None => Expr::BinaryOperation(op, Box::new(l), Box::new(r)),
        },
        _ => Expr::BinaryOperation(op, Box::new(l), Box::new(r)),
    }
}

/// Law: constant folding is exact on literal-only operands.  Where an
/// addition, subtraction or multiplication folds at all, the folded literal
/// denotes exactly the sum, difference or product of the two values; a
/// comparison folds, by definition, to one where it holds and zero where it
/// does not.  For the matching laws on quotients, see
/// [`crate::numeral::lemma_quotient_exact`] and
/// [`crate::numeral::lemma_quotient_complete`].
pub proof fn lemma_fold_exact(op: char, a: Numeral, b: Numeral)
    requires
        op == '+' || op == '-' || op == '*',
    ensures
        spec_fold(op, a, b) matches Some(c) ==> denotes(
            c,
            if op == '+' {
                sum_value(a, b)
            } else if op == '-' {
                diff_value(a, b)
            } else {
                prod_value(a, b)
            },
        ),
{
    let v = if op == '+' {
        sum_value(a, b)
    } else if op == '-' {
        diff_value(a, b)
    } else {
        prod_value(a, b)
    };
    lemma_norm_value(v.0, v.1);
}

/// The outcome of one parsing routine: a value or a diagnostic, and the
/// stream state — cursor and line — where the routine stopped.
pub struct PRes<T> {
    pub out: Result<T, DiagModel>,
    pub pos: int,
    pub line: int,
}

/// The token under the cursor.
pub open spec fn cur(s: Seq<char>, pos: int, line: int) -> TokenModel {
    scan(s, pos, line).0
}

/// The cursor after consuming the token under it.
pub open spec fn adv_pos(s: Seq<char>, pos: int, line: int) -> int {
    scan(s, pos, line).1
}

/// The line count after consuming the token under the cursor; error
/// diagnostics cite it.
pub open spec fn adv_line(s: Seq<char>, pos: int, line: int) -> int {
    scan(s, pos, line).2
}

/// `next` where parsing has moved forward and stayed inside the input — it
/// always has — and the least position that keeps recursion well-founded
/// otherwise.
pub open spec fn step(s: Seq<char>, pos: int, next: int) -> int {
    if pos + 1 <= next <= s.len() {
        next
    } else if pos + 1 <= s.len() {
        pos + 1
    } else {
        s.len() as int
    }
}

/// `next` where parsing has not moved backwards — it never has — and `pos`
/// otherwise.
pub open spec fn at_least(pos: int, next: int) -> int {
    if next >= pos {
        next
    } else {
        pos
    }
}

/// A recoverable syntax diagnostic.
pub open spec fn syntax_err(msg: Seq<char>, line: int) -> DiagModel {
    DiagModel { message: msg, line, fatal: false }
}

/// The fatal diagnostic for an invalid numeric literal.
pub open spec fn lexical_err(text: Seq<char>, line: int) -> DiagModel {
    DiagModel { message: "Invalid numeric literal "@ + text, line, fatal: true }
}

/// How much input is left before the cursor reaches the end; the measure
/// every parsing routine decreases.
pub open spec fn remaining(s: Seq<char>, pos: int) -> int {
    if pos <= s.len() {
        s.len() - pos
    } else {
        0
    }
}

/// An expression: a primary followed by binary-operator tails from
/// precedence zero.
pub open spec fn sp_expression(s: Seq<char>, pos: int, line: int) -> PRes<Expr>
    decreases remaining(s, pos), 4int,
{
    let r1 = sp_primary(s, pos, line);
    match r1.out {
        Err(d) => r1,
        Ok(lhs) => sp_binop_rhs(s, step(s, pos, r1.pos), r1.line, 0, lhs),
    }
}

/// Precedence climbing from a parsed left-hand side: consume operators of at
/// least `min_prec`, absorb tighter-binding next operators into the
/// right-hand side first, fold literal operands, and stop at the first token
/// that does not continue the expression.
pub open spec fn sp_binop_rhs(s: Seq<char>, pos: int, line: int, min_prec: int, lhs: Expr) -> PRes<
    Expr,
>
    decreases remaining(s, pos), 0int,
{
    let t = cur(s, pos, line);
    if spec_precedence(t) < min_prec {
        PRes { out: Ok(lhs), pos, line }
    } else {
        match t {
            TokenModel::Symbol(op) => {
                let r2 = sp_primary(s, step(s, pos, adv_pos(s, pos, line)), adv_line(s, pos, line));
                match r2.out {
                    Err(d) => r2,
                    Ok(rhs0) => {
                        let tprec = op_precedence(op);
                        let nprec = spec_precedence(cur(s, r2.pos, r2.line));
                        if tprec < nprec {
                            let r3 = sp_binop_rhs(s, step(s, pos, r2.pos), r2.line, tprec + 1, rhs0);
                            match r3.out {
                                Err(d) => r3,
                                Ok(rhs1) => sp_binop_rhs(
                                    s,
                                    step(s, pos, r3.pos),
                                    r3.line,
                                    min_prec,
                                    spec_combine(op, lhs, rhs1),
                                ),
                            }
                        } else {
                            sp_binop_rhs(
                                s,
                                step(s, pos, r2.pos),
                                r2.line,
                                min_prec,
                                spec_combine(op, lhs, rhs0),
                            )
                        }
                    },
                }
            },
            _ => PRes { out: Ok(lhs), pos, line },
        }
    }
}

/// A primary expression: a literal, a variable or call, a parenthesized
/// expression, a conditional, or a loop.  An invalid literal is the fatal
/// lexical error; any other unexpected token is a recoverable syntax error.
pub open spec fn sp_primary(s: Seq<char>, pos: int, line: int) -> PRes<Expr>
    decreases remaining(s, pos), 3int,
{
    match cur(s, pos, line) {
        TokenModel::Identifier(_) => sp_identifier(s, pos, line),
        TokenModel::Number(n) => PRes {
            out: Ok(Expr::Number(n)),
            pos: adv_pos(s, pos, line),
            line: adv_line(s, pos, line),
        },
        TokenModel::If => sp_if(s, pos, line),
        TokenModel::For => sp_for(s, pos, line),
        TokenModel::Symbol(c) => {
            if c == '(' {
                let r = sp_expression(
                    s,
                    step(s, pos, adv_pos(s, pos, line)),
                    adv_line(s, pos, line),
                );
                match r.out {
                    Err(d) => r,
                    Ok(e) => {
                        if cur(s, r.pos, r.line) == TokenModel::Symbol(')') {
                            PRes {
                                out: Ok(e),
                                pos: adv_pos(s, r.pos, r.line),
                                line: adv_line(s, r.pos, r.line),
                            }
                        } else {
                            PRes {
                                out: Err(
                                    syntax_err(
                                        "Expected ) in expression"@,
                                        adv_line(s, r.pos, r.line),
                                    ),
                                ),
                                pos: r.pos,
                                line: r.line,
                            }
                        }
                    },
                }
            } else {
                PRes {
                    out: Err(
                        syntax_err(
                            "Unknown token when expecting an expression"@,
                            adv_line(s, pos, line),
                        ),
                    ),
                    pos,
                    line,
                }
            }
        },
        TokenModel::Invalid(text) => PRes {
            out: Err(lexical_err(text, adv_line(s, pos, line))),
            pos,
            line,
        },
        _ => PRes {
            out: Err(
                syntax_err("Unknown token when expecting an expression"@, adv_line(s, pos, line)),
            ),
            pos,
            line,
        },
    }
}

/// After an identifier: a bare variable reference, or — when an opening
/// parenthesis follows — a call with a comma-separated argument list.
pub open spec fn sp_identifier(s: Seq<char>, pos: int, line: int) -> PRes<Expr>
    decreases remaining(s, pos), 1int,
{
    match cur(s, pos, line) {
        TokenModel::Identifier(name) => {
            let p1 = step(s, pos, adv_pos(s, pos, line));
            let l1 = adv_line(s, pos, line);
            if cur(s, p1, l1) == TokenModel::Symbol('(') {
                let p2 = step(s, pos, adv_pos(s, p1, l1));
                let l2 = adv_line(s, p1, l1);
                if cur(s, p2, l2) == TokenModel::Symbol(')') {
                    PRes {
                        out: Ok(Expr::FunctionCall(name, Seq::empty())),
                        pos: adv_pos(s, p2, l2),
                        line: adv_line(s, p2, l2),
                    }
                } else {
                    sp_arguments(s, p2, l2, name, Seq::empty())
                }
            } else {
                PRes { out: Ok(Expr::Variable(name)), pos: p1, line: l1 }
            }
        },
        _ => PRes {
            out: Err(syntax_err("Expected valid identifier"@, adv_line(s, pos, line))),
            pos,
            line,
        },
    }
}

/// One argument of a call — an expression — followed by a separator.
pub open spec fn sp_arguments(
    s: Seq<char>,
    pos: int,
    line: int,
    callee: Seq<char>,
    acc: Seq<Expr>,
) -> PRes<Expr>
    decreases remaining(s, pos), 5int,
{
    let r = sp_expression(s, pos, line);
    match r.out {
        Err(d) => PRes { out: Err(d), pos: r.pos, line: r.line },
        Ok(e) => sp_args_sep(s, at_least(pos, r.pos), r.line, callee, acc.push(e)),
    }
}

/// After one argument: a comma and further arguments, or the closing
/// parenthesis, or the error that the list is malformed.
pub open spec fn sp_args_sep(
    s: Seq<char>,
    pos: int,
    line: int,
    callee: Seq<char>,
    acc: Seq<Expr>,
) -> PRes<Expr>
    decreases remaining(s, pos), 0int,
{
    match cur(s, pos, line) {
        TokenModel::Symbol(c) => {
            if c == ',' {
                sp_arguments(
                    s,
                    step(s, pos, adv_pos(s, pos, line)),
                    adv_line(s, pos, line),
                    callee,
                    acc,
                )
            } else if c == ')' {
                PRes {
                    out: Ok(Expr::FunctionCall(callee, acc)),
                    pos: adv_pos(s, pos, line),
                    line: adv_line(s, pos, line),
                }
            } else {
                PRes {
                    out: Err(
                        syntax_err("Expected ) or , in argument list"@, adv_line(s, pos, line)),
                    ),
                    pos,
                    line,
                }
            }
        },
        _ => PRes {
            out: Err(syntax_err("Expected ) or , in argument list"@, adv_line(s, pos, line))),
            pos,
            line,
        },
    }
}

/// A conditional: `if` condition `then` branch `else` branch.  A missing
/// `then` or `else` is a syntax error citing the line of the `if` itself.
pub open spec fn sp_if(s: Seq<char>, pos: int, line: int) -> PRes<Expr>
    decreases remaining(s, pos), 1int,
{
    if cur(s, pos, line) != TokenModel::If {
        // never reached: the primary dispatch guarantees the keyword
        PRes {
            out: Err(
                syntax_err("Unknown token when expecting an expression"@, adv_line(s, pos, line)),
            ),
            pos,
            line,
        }
    } else {
        let if_line = adv_line(s, pos, line);
        let rc = sp_expression(s, step(s, pos, adv_pos(s, pos, line)), adv_line(s, pos, line));
        match rc.out {
            Err(d) => rc,
            Ok(cond) => {
                if cur(s, rc.pos, rc.line) == TokenModel::Then {
                    let rt = sp_expression(
                        s,
                        step(s, pos, adv_pos(s, rc.pos, rc.line)),
                        adv_line(s, rc.pos, rc.line),
                    );
                    match rt.out {
                        Err(d) => rt,
                        Ok(then_e) => {
                            if cur(s, rt.pos, rt.line) == TokenModel::Else {
                                let re = sp_expression(
                                    s,
                                    step(s, pos, adv_pos(s, rt.pos, rt.line)),
                                    adv_line(s, rt.pos, rt.line),
                                );
                                match re.out {
                                    Err(d) => re,
                                    Ok(else_e) => PRes {
                                        out: Ok(
                                            Expr::IfElse(
                                                Box::new(cond),
                                                Box::new(then_e),
                                                Box::new(else_e),
                                            ),
                                        ),
                                        pos: re.pos,
                                        line: re.line,
                                    },
                                }
                            } else {
                                PRes {
                                    out: Err(syntax_err("Expected else"@, if_line)),
                                    pos: rt.pos,
                                    line: rt.line,
                                }
                            }
                        },
                    }
                } else {
                    PRes {
                        out: Err(syntax_err("Expected then"@, if_line)),
                        pos: rc.pos,
                        line: rc.line,
                    }
                }
            },
        }
    }
}

/// A loop: `for` name `=` start `,` end, an optional `,` step, then `in` and
/// the body.  The loop variable's name is consumed but, as in the data
/// model, not recorded.
pub open spec fn sp_for(s: Seq<char>, pos: int, line: int) -> PRes<Expr>
    decreases remaining(s, pos), 2int,
{
    if cur(s, pos, line) != TokenModel::For {
        // never reached: the primary dispatch guarantees the keyword
        PRes {
            out: Err(
                syntax_err("Unknown token when expecting an expression"@, adv_line(s, pos, line)),
            ),
            pos,
            line,
        }
    } else {
        let p1 = step(s, pos, adv_pos(s, pos, line));
        let l1 = adv_line(s, pos, line);
        match cur(s, p1, l1) {
            TokenModel::Identifier(_) => {
                let p2 = step(s, pos, adv_pos(s, p1, l1));
                let l2 = adv_line(s, p1, l1);
                if cur(s, p2, l2) == TokenModel::Symbol('=') {
                    let p3 = step(s, pos, adv_pos(s, p2, l2));
                    let l3 = adv_line(s, p2, l2);
                    let rs = sp_expression(s, p3, l3);
                    match rs.out {
                        Err(d) => rs,
                        Ok(start_e) => {
                            if cur(s, rs.pos, rs.line) == TokenModel::Symbol(',') {
                                let re = sp_expression(
                                    s,
                                    step(s, pos, adv_pos(s, rs.pos, rs.line)),
                                    adv_line(s, rs.pos, rs.line),
                                );
                                match re.out {
                                    Err(d) => re,
                                    Ok(end_e) => sp_for_tail(s, pos, line, re.pos, re.line, start_e, end_e),
                                }
                            } else {
                                PRes {
                                    out: Err(
                                        syntax_err(
                                            "expected , after start value"@,
                                            adv_line(s, rs.pos, rs.line),
                                        ),
                                    ),
                                    pos: rs.pos,
                                    line: rs.line,
                                }
                            }
                        },
                    }
                } else {
                    PRes {
                        out: Err(syntax_err("Expected = after for"@, adv_line(s, p2, l2))),
                        pos: p2,
                        line: l2,
                    }
                }
            },
            _ => PRes {
                out: Err(syntax_err("Expected identifier after for"@, adv_line(s, p1, l1))),
                pos: p1,
                line: l1,
            },
        }
    }
}

/// After a loop's end expression: the optional step, the `in` keyword, and
/// the body.  `pos` and `line` are those of the `for` itself, `epos` and
/// `eline` the state after the end expression.
pub open spec fn sp_for_tail(
    s: Seq<char>,
    pos: int,
    line: int,
    epos: int,
    eline: int,
    start_e: Expr,
    end_e: Expr,
) -> PRes<Expr>
    decreases remaining(s, pos), 0int,
{
    if cur(s, pos, line) != TokenModel::For {
        // never reached: only the loop rule calls this
        PRes {
            out: Err(syntax_err("expected 'in' after for"@, eline)),
            pos: epos,
            line: eline,
        }
    } else {
        let has_step = cur(s, epos, eline) == TokenModel::Symbol(',');
        let rstep = if has_step {
            sp_expression(s, step(s, pos, adv_pos(s, epos, eline)), adv_line(s, epos, eline))
        } else {
            PRes { out: Ok(end_e), pos: epos, line: eline }
        };
        match rstep.out {
            Err(d) => rstep,
            Ok(step_e) => {
                if cur(s, rstep.pos, rstep.line) == TokenModel::In {
                    let rb = sp_expression(
                        s,
                        step(s, pos, adv_pos(s, rstep.pos, rstep.line)),
                        adv_line(s, rstep.pos, rstep.line),
                    );
                    match rb.out {
                        Err(d) => rb,
                        Ok(body_e) => PRes {
                            out: Ok(
                                Expr::ForLoop(
                                    Box::new(start_e),
                                    Box::new(end_e),
                                    if has_step {
                                        Some(Box::new(step_e))
                                    } else {
                                        None
                                    },
                                    Box::new(body_e),
                                ),
                            ),
                            pos: rb.pos,
                            line: rb.line,
                        },
                    }
                } else {
                    PRes {
                        out: Err(
                            syntax_err(
                                "expected 'in' after for"@,
                                adv_line(s, rstep.pos, rstep.line),
                            ),
                        ),
                        pos: rstep.pos,
                        line: rstep.line,
                    }
                }
            },
        }
    }
}

/// A prototype: a name, `(`, bare parameter names — each optionally followed
/// by one comma — and `)`.
pub open spec fn sp_prototype(s: Seq<char>, pos: int, line: int) -> PRes<ProtoModel>
    decreases remaining(s, pos), 0int,
{
    match cur(s, pos, line) {
        TokenModel::Identifier(name) => {
            let p1 = step(s, pos, adv_pos(s, pos, line));
            let l1 = adv_line(s, pos, line);
            if cur(s, p1, l1) == TokenModel::Symbol('(') {
                let p2 = step(s, pos, adv_pos(s, p1, l1));
                let l2 = adv_line(s, p1, l1);
                let ra = sp_parameters(s, p2, l2, Seq::empty());
                if cur(s, ra.pos, ra.line) == TokenModel::Symbol(')') {
                    PRes {
                        out: Ok(
                            ProtoModel {
                                name,
                                args: match ra.out {
                                    Ok(args) => args,
                                    Err(_) => Seq::empty(),
                                },
                            },
                        ),
                        pos: adv_pos(s, ra.pos, ra.line),
                        line: adv_line(s, ra.pos, ra.line),
                    }
                } else {
                    PRes {
                        out: Err(
                            syntax_err("Expected ) in prototype"@, adv_line(s, ra.pos, ra.line)),
                        ),
                        pos: ra.pos,
                        line: ra.line,
                    }
                }
            } else {
                PRes {
                    out: Err(syntax_err("Expected ( in prototype"@, adv_line(s, p1, l1))),
                    pos: p1,
                    line: l1,
                }
            }
        },
        _ => PRes {
            out: Err(syntax_err("Expected identifier after def"@, adv_line(s, pos, line))),
            pos,
            line,
        },
    }
}

/// A prototype's parameter names: identifiers, each optionally followed by
/// one comma; stops at the first token that is neither.  Never fails.
pub open spec fn sp_parameters(s: Seq<char>, pos: int, line: int, acc: Seq<Seq<char>>) -> PRes<
    Seq<Seq<char>>,
>
    decreases remaining(s, pos), 0int,
{
    match cur(s, pos, line) {
        TokenModel::Identifier(id) => {
            let p1 = step(s, pos, adv_pos(s, pos, line));
            let l1 = adv_line(s, pos, line);
            if cur(s, p1, l1) == TokenModel::Symbol(',') {
                sp_parameters(s, step(s, pos, adv_pos(s, p1, l1)), adv_line(s, p1, l1), acc.push(id))
            } else {
                sp_parameters(s, p1, l1, acc.push(id))
            }
        },
        _ => PRes { out: Ok(acc), pos, line },
    }
}

/// A definition: `def`, a prototype, and the body expression.
pub open spec fn sp_definition(s: Seq<char>, pos: int, line: int) -> PRes<FuncModel>
    decreases remaining(s, pos), 0int,
{
    if cur(s, pos, line) != TokenModel::Def {
        // never reached: the driver dispatches on the keyword
        PRes {
            out: Err(syntax_err("Expected identifier after def"@, adv_line(s, pos, line))),
            pos,
            line,
        }
    } else {
        let rp = sp_prototype(s, step(s, pos, adv_pos(s, pos, line)), adv_line(s, pos, line));
        match rp.out {
            Err(d) => PRes { out: Err(d), pos: rp.pos, line: rp.line },
            Ok(proto) => {
                let rb = sp_expression(s, step(s, pos, rp.pos), rp.line);
                match rb.out {
                    Err(d) => PRes { out: Err(d), pos: rb.pos, line: rb.line },
                    Ok(body) => PRes {
                        out: Ok(FuncModel { proto, body }),
                        pos: rb.pos,
                        line: rb.line,
                    },
                }
            },
        }
    }
}

/// An external declaration: the keyword and a bare prototype.
pub open spec fn sp_external(s: Seq<char>, pos: int, line: int) -> PRes<ProtoModel>
    decreases remaining(s, pos), 0int,
{
    if cur(s, pos, line) != TokenModel::External {
        // never reached: the driver dispatches on the keyword
        PRes {
            out: Err(syntax_err("Expected identifier after def"@, adv_line(s, pos, line))),
            pos,
            line,
        }
    } else {
        sp_prototype(s, step(s, pos, adv_pos(s, pos, line)), adv_line(s, pos, line))
    }
}

/// The name of the anonymous function wrapped around a bare expression.
pub open spec fn anon_name() -> Seq<char> {
    "__anon_expr"@
}

/// A bare top-level expression, wrapped into an anonymous zero-argument
/// function.
pub open spec fn sp_top_expr(s: Seq<char>, pos: int, line: int) -> PRes<FuncModel>
    decreases remaining(s, pos), 5int,
{
    let r = sp_expression(s, pos, line);
    match r.out {
        Err(d) => PRes { out: Err(d), pos: r.pos, line: r.line },
        Ok(body) => PRes {
            out: Ok(FuncModel { proto: ProtoModel { name: anon_name(), args: Seq::empty() }, body }),
            pos: r.pos,
            line: r.line,
        },
    }
}

/// Error recovery: skip tokens up to the next construct boundary — a `;`, a
/// leading keyword, the end of the input, or an invalid literal (which the
/// driver turns into the fatal diagnostic).
pub open spec fn sp_skip(s: Seq<char>, pos: int, line: int) -> (int, int)
    decreases remaining(s, pos), 0int,
{
    match cur(s, pos, line) {
        TokenModel::Eof => (pos, line),
        TokenModel::Def => (pos, line),
        TokenModel::External => (pos, line),
        TokenModel::Invalid(_) => (pos, line),
        TokenModel::Symbol(c) => {
            if c == ';' {
                (pos, line)
            } else {
                sp_skip(s, step(s, pos, adv_pos(s, pos, line)), adv_line(s, pos, line))
            }
        },
        _ => sp_skip(s, step(s, pos, adv_pos(s, pos, line)), adv_line(s, pos, line)),
    }
}

/// The driver: skip statement terminators, stop at the end of the input,
/// parse one construct per iteration, and on a syntax error record it and
/// resume at the next boundary.  An invalid literal yields one fatal
/// diagnostic and ends the run at once; the forest holds every construct
/// parsed before that.
pub open spec fn sp_run(s: Seq<char>, pos: int, line: int) -> (Seq<TopModel>, Seq<DiagModel>)
    decreases remaining(s, pos), 8int,
{
    match cur(s, pos, line) {
        TokenModel::Eof => (Seq::empty(), Seq::empty()),
        TokenModel::Invalid(text) => (
            Seq::empty(),
            seq![lexical_err(text, adv_line(s, pos, line))],
        ),
        TokenModel::Symbol(c) => {
            if c == ';' {
                sp_run(s, step(s, pos, adv_pos(s, pos, line)), adv_line(s, pos, line))
            } else {
                sp_run_construct(s, pos, line)
            }
        },
        _ => sp_run_construct(s, pos, line),
    }
}

/// One top-level construct: a definition, an external declaration, or a
/// bare expression, by the leading token.
pub open spec fn sp_construct_one(s: Seq<char>, pos: int, line: int) -> PRes<TopModel>
    decreases remaining(s, pos), 6int,
{
    match cur(s, pos, line) {
        TokenModel::Def => {
            let r = sp_definition(s, pos, line);
            PRes {
                out: match r.out {
                    Ok(f) => Ok(TopModel::Definition(f)),
                    Err(d) => Err(d),
                },
                pos: r.pos,
                line: r.line,
            }
        },
        TokenModel::External => {
            let r = sp_external(s, pos, line);
            PRes {
                out: match r.out {
                    Ok(p) => Ok(TopModel::Declaration(p)),
                    Err(d) => Err(d),
                },
                pos: r.pos,
                line: r.line,
            }
        },
        _ => {
            let r = sp_top_expr(s, pos, line);
            PRes {
                out: match r.out {
                    Ok(f) => Ok(TopModel::Definition(f)),
                    Err(d) => Err(d),
                },
                pos: r.pos,
                line: r.line,
            }
        },
    }
}

/// One driver iteration on a construct: parse it, then continue the run
/// after it, or recover from its failure.
pub open spec fn sp_run_construct(s: Seq<char>, pos: int, line: int) -> (
    Seq<TopModel>,
    Seq<DiagModel>,
)
    decreases remaining(s, pos), 7int,
{
    match cur(s, pos, line) {
        // never reached: the driver stops on these before dispatching here
        TokenModel::Eof => (Seq::empty(), Seq::empty()),
        TokenModel::Invalid(_) => (Seq::empty(), Seq::empty()),
        _ => {
            let r = sp_construct_one(s, pos, line);
            match r.out {
                Ok(item) => {
                    let rest = sp_run(s, step(s, pos, r.pos), r.line);
                    (seq![item] + rest.0, rest.1)
                },
                Err(d) => sp_run_recover(s, pos, line, d, r.pos, r.line),
            }
        },
    }
}

/// After a failed construct: record the diagnostic; a fatal one ends the
/// run, otherwise skip to the next boundary and continue.  `pos` and `line`
/// are those of the construct, `epos` and `eline` the state at the error.
pub open spec fn sp_run_recover(
    s: Seq<char>,
    pos: int,
    line: int,
    d: DiagModel,
    epos: int,
    eline: int,
) -> (Seq<TopModel>, Seq<DiagModel>)
    decreases remaining(s, pos), 1int,
{
    if d.fatal {
        (Seq::empty(), seq![d])
    } else if 0 <= pos < s.len() {
        let b = sp_skip(s, at_least(pos, epos), eline);
        let rest = sp_run(s, step(s, pos, b.0), b.1);
        (rest.0, seq![d] + rest.1)
    } else {
        // never reached: a construct begins strictly inside the input
        (Seq::empty(), seq![d])
    }
}

/// Folds an operator over two literal operands, as [`spec_fold`] states.
fn fold_literals(op: char, a: Numeral, b: Numeral) -> (r: Option<Numeral>)
    requires
        a.wf(),
        b.wf(),
    ensures
        r == spec_fold(op, a, b),
        r matches Some(n) ==> n.wf(),
{
    if op == '+' {
        a.checked_add(b)
    } else if op == '-' {
        a.checked_sub(b)
    } else if op == '*' {
        a.checked_mul(b)
    } else if op == '/' {
        a.checked_div(b)
    } else if op == '<' {
        Some(
            if a.less_than(b) {
                Numeral { mantissa: 1, scale: 0 }
            } else {
                Numeral { mantissa: 0, scale: 0 }
            },
        )
    } else if op == '>' {
        Some(
            if a.greater_than(b) {
                Numeral { mantissa: 1, scale: 0 }
            } else {
                Numeral { mantissa: 0, scale: 0 }
            },
        )
    } else {
        None
    }
}

/// Builds the node for a binary operation, folding two literal operands to
/// the exact literal result where one exists.
fn combine(op: char, lhs: Box<ExprNode>, rhs: Box<ExprNode>) -> (r: Box<ExprNode>)
    requires
        expr_wf(lhs@),
        expr_wf(rhs@),
    ensures
        r@ == spec_combine(op, lhs@, rhs@),
        expr_wf(r@),
{
    let ln: Option<Numeral> = match &*lhs {
        ExprNode::Number(n) => Some(*n),
        _ => None,
    };
    let rn: Option<Numeral> = match &*rhs {
        ExprNode::Number(n) => Some(*n),
        _ => None,
    };
    if let (Some(a), Some(b)) = (ln, rn) {
        match fold_literals(op, a, b) {
            Some(n) => Box::new(ExprNode::Number(n)),
            None => Box::new(ExprNode::BinaryOperation(op, lhs, rhs)),
        }
    } else {
        Box::new(ExprNode::BinaryOperation(op, lhs, rhs))
    }
}

/// Law: a missing `else` is a recoverable syntax error citing the line of
/// the `if` construct itself: where the condition parses, the `then` keyword
/// and its branch follow, but the `else` keyword does not, the conditional
/// rule stops with exactly that diagnostic at the state where it noticed.
/// (A missing `then` behaves the same way, by the same definition.)
pub proof fn lemma_missing_else_cites_if_line(s: Seq<char>, pos: int, line: int)
    requires
        cur(s, pos, line) == TokenModel::If,
        ({
            let rc = sp_expression(s, step(s, pos, adv_pos(s, pos, line)), adv_line(s, pos, line));
            &&& rc.out is Ok
            &&& cur(s, rc.pos, rc.line) == TokenModel::Then
            &&& ({
                let rt = sp_expression(
                    s,
                    step(s, pos, adv_pos(s, rc.pos, rc.line)),
                    adv_line(s, rc.pos, rc.line),
                );
                rt.out is Ok && cur(s, rt.pos, rt.line) != TokenModel::Else
            })
        }),
    ensures
        sp_if(s, pos, line).out == Err::<Expr, DiagModel>(
            syntax_err("Expected else"@, adv_line(s, pos, line)),
        ),
        !syntax_err("Expected else"@, adv_line(s, pos, line)).fatal,
{
}

/// Law: a recoverable failure ends only its construct — the driver records
/// the diagnostic first, skips to the next construct boundary, and the rest
/// of the run is exactly a run started from that boundary.
pub proof fn lemma_recovery_resumes_at_boundary(
    s: Seq<char>,
    pos: int,
    line: int,
    d: DiagModel,
    epos: int,
    eline: int,
)
    requires
        !d.fatal,
        0 <= pos < s.len(),
    ensures
        ({
            let b = sp_skip(s, at_least(pos, epos), eline);
            let rest = sp_run(s, step(s, pos, b.0), b.1);
            sp_run_recover(s, pos, line, d, epos, eline) == (rest.0, seq![d] + rest.1)
        }),
{
}

/// Whether only the final diagnostic of a report, if any, may be fatal.
pub open spec fn fatal_only_last(ds: Seq<DiagModel>) -> bool {
    forall|i: int| 0 <= i < ds.len() - 1 ==> !(#[trigger] ds[i]).fatal
}

/// Law: in every report a run produces, each diagnostic before the last is
/// recoverable — a fatal diagnostic ends the run at once, so it can only be
/// the last one recorded.
pub proof fn lemma_fatal_diagnostic_is_last(s: Seq<char>, pos: int, line: int)
    ensures
        fatal_only_last(sp_run(s, pos, line).1),
    decreases remaining(s, pos), 3int,
{
    match cur(s, pos, line) {
        TokenModel::Eof => {},
        TokenModel::Invalid(_) => {},
        TokenModel::Symbol(c) => {
            if c == ';' {
                lemma_fatal_diagnostic_is_last(
                    s,
                    step(s, pos, adv_pos(s, pos, line)),
                    adv_line(s, pos, line),
                );
            } else {
                lemma_fatal_construct(s, pos, line);
            }
        },
        _ => {
            lemma_fatal_construct(s, pos, line);
        },
    }
}

proof fn lemma_fatal_construct(s: Seq<char>, pos: int, line: int)
    ensures
        fatal_only_last(sp_run_construct(s, pos, line).1),
    decreases remaining(s, pos), 2int,
{
    match cur(s, pos, line) {
        TokenModel::Eof => {},
        TokenModel::Invalid(_) => {},
        _ => {
            let r = sp_construct_one(s, pos, line);
            match r.out {
                Ok(_) => {
                    lemma_fatal_diagnostic_is_last(s, step(s, pos, r.pos), r.line);
                },
                Err(d) => {
                    lemma_fatal_recover(s, pos, line, d, r.pos, r.line);
                },
            }
        },
    }
}

proof fn lemma_fatal_recover(s: Seq<char>, pos: int, line: int, d: DiagModel, epos: int, eline: int)
    ensures
        fatal_only_last(sp_run_recover(s, pos, line, d, epos, eline).1),
    decreases remaining(s, pos), 1int,
{
    if d.fatal {
    } else if 0 <= pos < s.len() {
        let b = sp_skip(s, at_least(pos, epos), eline);
        lemma_fatal_diagnostic_is_last(s, step(s, pos, b.0), b.1);
        let rest = sp_run(s, step(s, pos, b.0), b.1).1;
        let ds = sp_run_recover(s, pos, line, d, epos, eline).1;
        assert(ds == seq![d] + rest);
        assert forall|i: int| 0 <= i < ds.len() - 1 implies !(#[trigger] ds[i]).fatal by {
            if i > 0 {
                assert(ds[i] == rest[i - 1]);
            }
        }
    }
}

/// One successful driver step: a construct parsed at `(pc, lc)` extends the
/// forest and leaves the diagnostics alone.
proof fn lemma_run_step_ok(
    s: Seq<char>,
    p0: int,
    l0: int,
    pc: int,
    lc: int,
    np: int,
    nl: int,
    i0: Seq<TopModel>,
    d0: Seq<DiagModel>,
    item: TopModel,
)
    requires
        cur(s, pc, lc) != TokenModel::Eof,
        !(cur(s, pc, lc) matches TokenModel::Invalid(_)),
        cur(s, pc, lc) != TokenModel::Symbol(';'),
        sp_construct_one(s, pc, lc) == (PRes { out: Ok::<TopModel, DiagModel>(item), pos: np, line: nl }),
        pc < np <= s.len(),
        sp_run(s, p0, l0).0 == i0 + sp_run(s, pc, lc).0,
        sp_run(s, p0, l0).1 == d0 + sp_run(s, pc, lc).1,
    ensures
        sp_run(s, p0, l0).0 == i0.push(item) + sp_run(s, np, nl).0,
        sp_run(s, p0, l0).1 == d0 + sp_run(s, np, nl).1,
{
    let rest = sp_run(s, np, nl);
    assert(step(s, pc, np) == np);
    assert(sp_run(s, pc, lc) == sp_run_construct(s, pc, lc));
    assert(sp_run(s, pc, lc).0 =~= seq![item] + rest.0);
    assert(sp_run(s, pc, lc).1 =~= rest.1);
    assert(i0 + sp_run(s, pc, lc).0 =~= i0.push(item) + rest.0);
}

/// One failed, recoverable driver step: the diagnostic is recorded and the
/// run resumes after the boundary that recovery skipped to.
proof fn lemma_run_step_err(
    s: Seq<char>,
    p0: int,
    l0: int,
    pc: int,
    lc: int,
    epos: int,
    eline: int,
    bp: int,
    bl: int,
    i0: Seq<TopModel>,
    d0: Seq<DiagModel>,
    d: DiagModel,
)
    requires
        cur(s, pc, lc) != TokenModel::Eof,
        !(cur(s, pc, lc) matches TokenModel::Invalid(_)),
        cur(s, pc, lc) != TokenModel::Symbol(';'),
        sp_construct_one(s, pc, lc) == (PRes { out: Err::<TopModel, DiagModel>(d), pos: epos, line: eline }),
        !d.fatal,
        pc <= epos <= s.len(),
        cur(s, pc, lc) == TokenModel::Def || cur(s, pc, lc) == TokenModel::External ==> pc < epos,
        (bp, bl) == sp_skip(s, epos, eline),
        epos <= bp <= s.len(),
        !is_boundary(cur(s, epos, eline)) ==> epos < bp,
        sp_run(s, p0, l0).0 == i0 + sp_run(s, pc, lc).0,
        sp_run(s, p0, l0).1 == d0 + sp_run(s, pc, lc).1,
    ensures
        pc < bp,
        sp_run(s, p0, l0).0 == i0 + sp_run(s, bp, bl).0,
        sp_run(s, p0, l0).1 == d0.push(d) + sp_run(s, bp, bl).1,
{
    let rest = sp_run(s, bp, bl);
    assert(0 <= pc < s.len());
    assert(at_least(pc, epos) == epos);
    if epos == pc {
        lemma_scan_line_independent(s, pc, eline, lc);
        assert(cur(s, epos, eline) == cur(s, pc, lc));
    }
    assert(pc < bp <= s.len());
    assert(step(s, pc, bp) == bp);
    assert(sp_run(s, pc, lc) == sp_run_construct(s, pc, lc));
    assert(sp_run_construct(s, pc, lc) == sp_run_recover(s, pc, lc, d, epos, eline));
    assert(sp_run(s, pc, lc).0 =~= rest.0);
    assert(sp_run(s, pc, lc).1 =~= seq![d] + rest.1);
    assert(d0 + sp_run(s, pc, lc).1 =~= d0.push(d) + rest.1);
}

/// One failed, fatal driver step: the run ends with the fatal diagnostic as
/// the last one recorded.
proof fn lemma_run_step_fatal(
    s: Seq<char>,
    p0: int,
    l0: int,
    pc: int,
    lc: int,
    epos: int,
    eline: int,
    i0: Seq<TopModel>,
    d0: Seq<DiagModel>,
    d: DiagModel,
)
    requires
        cur(s, pc, lc) != TokenModel::Eof,
        !(cur(s, pc, lc) matches TokenModel::Invalid(_)),
        cur(s, pc, lc) != TokenModel::Symbol(';'),
        sp_construct_one(s, pc, lc) == (PRes { out: Err::<TopModel, DiagModel>(d), pos: epos, line: eline }),
        d.fatal,
        sp_run(s, p0, l0).0 == i0 + sp_run(s, pc, lc).0,
        sp_run(s, p0, l0).1 == d0 + sp_run(s, pc, lc).1,
    ensures
        sp_run(s, p0, l0).0 == i0,
        sp_run(s, p0, l0).1 == d0.push(d),
{
    assert(sp_run(s, pc, lc) == sp_run_construct(s, pc, lc));
    assert(sp_run_construct(s, pc, lc) == sp_run_recover(s, pc, lc, d, epos, eline));
    assert(sp_run(s, pc, lc).0 =~= Seq::<TopModel>::empty());
    assert(sp_run(s, pc, lc).1 =~= seq![d]);
    assert(i0 + sp_run(s, pc, lc).0 =~= i0);
    assert(d0 + sp_run(s, pc, lc).1 =~= d0.push(d));
}

/// The parser: one token of lookahead pulled from the lexer.  The ghost
/// fields are the stream position and line from which the lookahead was
/// scanned; the contracts of the parsing methods are stated over them.
pub struct Parser {
    lexer: Lexer,
    current: Token,
    cpos: Ghost<int>,
    cline: Ghost<int>,
}

impl Parser {
    /// The input as a sequence of characters.
    pub closed spec fn input(&self) -> Seq<char> {
        self.lexer.input()
    }

    /// The cursor from which the lookahead token was scanned.
    pub closed spec fn pos(&self) -> int {
        self.cpos@
    }

    /// The line count from which the lookahead token was scanned.
    pub closed spec fn line(&self) -> int {
        self.cline@
    }

    /// The lookahead token.
    pub closed spec fn cur_token(&self) -> TokenModel {
        self.current@
    }

    /// The parser's invariant: the lexer is well formed and the lookahead
    /// token is exactly the scan of the stream state `(pos, line)`, which the
    /// lexer has consumed.
    pub closed spec fn wf(&self) -> bool {
        &&& self.lexer.wf()
        &&& 0 <= self.cpos@ <= self.input().len()
        &&& scan(self.input(), self.cpos@, self.cline@) == (
            self.current@,
            self.lexer.position(),
            self.lexer.line_number(),
        )
        &&& (self.current@ matches TokenModel::Number(n) ==> n.wf())
    }

    /// A parser over the given lexer, primed with one token of lookahead.
    pub fn new(lexer: Lexer) -> (r: Parser)
        requires
            lexer.wf(),
        ensures
            r.wf(),
            r.input() == lexer.input(),
            r.pos() == lexer.position(),
            r.line() == lexer.line_number(),
    {
        proof {
            lexer.lemma_wf_bounds();
        }
        let ghost p = lexer.position();
        let ghost l = lexer.line_number();
        let mut lx = lexer;
        let t = lx.next_token();
        Parser { lexer: lx, current: t, cpos: Ghost(p), cline: Ghost(l) }
    }

    /// Consumes the lookahead and pulls the next token.
    fn get_next_token(&mut self)
        requires
            old(self).wf(),
        ensures
            final(self).wf(),
            final(self).input() == old(self).input(),
            final(self).pos() == adv_pos(old(self).input(), old(self).pos(), old(self).line()),
            final(self).line() == adv_line(old(self).input(), old(self).pos(), old(self).line()),
            old(self).pos() <= final(self).pos() <= old(self).input().len(),
            old(self).cur_token() != TokenModel::Eof ==> old(self).pos() < final(self).pos(),
    {
        proof {
            lemma_scan_bounds(self.input(), self.cpos@, self.cline@);
        }
        let ghost p = self.lexer.position();
        let ghost l = self.lexer.line_number();
        let t = self.lexer.next_token();
        self.current = t;
        self.cpos = Ghost(p);
        self.cline = Ghost(l);
    }

    /// Whether the lookahead is the given one-character symbol.
    fn symbol_is(&self, c: char) -> (r: bool)
        ensures
            r == (self.cur_token() == TokenModel::Symbol(c)),
    {
        match &self.current {
            Token::Symbol(x) => *x == c,
            _ => false,
        }
    }

    /// A recoverable syntax diagnostic citing the tokenizer's current line.
    fn error(&self, message: &str) -> (d: Diagnostic)
        requires
            self.wf(),
        ensures
            d@ == syntax_err(message@, adv_line(self.input(), self.pos(), self.line())),
    {
        Diagnostic { message: message.to_owned(), line: self.lexer.current_line(), fatal: false }
    }

    /// The fatal diagnostic for an invalid numeric literal.
    fn lexical_error(&self, text: String) -> (d: Diagnostic)
        requires
            self.wf(),
        ensures
            d@ == lexical_err(text@, adv_line(self.input(), self.pos(), self.line())),
    {
        let mut message = "Invalid numeric literal ".to_owned();
        message.append(text.as_str());
        Diagnostic { message, line: self.lexer.current_line(), fatal: true }
    }

    /// Skips to the next construct boundary, as [`sp_skip`] states.
    #[verifier::loop_isolation(false)]
    fn skip_to_boundary(&mut self)
        requires
            old(self).wf(),
        ensures
            final(self).wf(),
            final(self).input() == old(self).input(),
            (final(self).pos(), final(self).line()) == sp_skip(
                old(self).input(),
                old(self).pos(),
                old(self).line(),
            ),
            old(self).pos() <= final(self).pos() <= old(self).input().len(),
            !is_boundary(old(self).cur_token()) ==> old(self).pos() < final(self).pos(),
    {
        let ghost s = self.input();
        let ghost p0 = self.pos();
        let ghost l0 = self.line();
        loop
            invariant
                self.wf(),
                self.input() == s,
                p0 <= self.pos() <= s.len(),
                sp_skip(s, p0, l0) == sp_skip(s, self.pos(), self.line()),
                !is_boundary(cur(s, p0, l0)) ==> p0 < self.pos() || !is_boundary(
                    cur(s, self.pos(), self.line()),
                ),
            decreases remaining(s, self.pos()),
        {
            if matches!(self.current, Token::Eof) || matches!(self.current, Token::Def)
                || matches!(self.current, Token::External)
                || matches!(self.current, Token::Invalid(_)) {
                return ;
            }
            if self.symbol_is(';') {
                return ;
            }
            self.get_next_token();
        }
    }

    /// Parses one expression, as [`sp_expression`] states.
    fn parse_expression(&mut self) -> (r: Result<Box<ExprNode>, Diagnostic>)
        requires
            old(self).wf(),
        ensures
            final(self).wf(),
            final(self).input() == old(self).input(),
            old(self).pos() <= final(self).pos() <= old(self).input().len(),
            r is Ok ==> old(self).pos() < final(self).pos(),
            ({
                let res = sp_expression(old(self).input(), old(self).pos(), old(self).line());
                &&& final(self).pos() == res.pos
                &&& final(self).line() == res.line
                &&& (match r {
                    Ok(e) => res.out == Ok::<Expr, DiagModel>(e@) && expr_wf(e@),
                    Err(d) => res.out == Err::<Expr, DiagModel>(d@),
                })
            }),
        decreases remaining(old(self).input(), old(self).pos()), 4int,
    {
        let lhs = match self.parse_primary() {
            Ok(e) => e,
            Err(d) => return Err(d),
        };
        self.parse_binop_rhs(0, lhs)
    }

    /// Climbs binary operators from `lhs`, as [`sp_binop_rhs`] states.
    #[verifier::loop_isolation(false)]
    fn parse_binop_rhs(&mut self, expression_precedence: i64, lhs: Box<ExprNode>) -> (r: Result<
        Box<ExprNode>,
        Diagnostic,
    >)
        requires
            old(self).wf(),
            expr_wf(lhs@),
        ensures
            final(self).wf(),
            final(self).input() == old(self).input(),
            old(self).pos() <= final(self).pos() <= old(self).input().len(),
            ({
                let res = sp_binop_rhs(
                    old(self).input(),
                    old(self).pos(),
                    old(self).line(),
                    expression_precedence as int,
                    lhs@,
                );
                &&& final(self).pos() == res.pos
                &&& final(self).line() == res.line
                &&& (match r {
                    Ok(e) => res.out == Ok::<Expr, DiagModel>(e@) && expr_wf(e@),
                    Err(d) => res.out == Err::<Expr, DiagModel>(d@),
                })
            }),
        decreases remaining(old(self).input(), old(self).pos()), 1int,
    {
        let ghost s = self.input();
        let ghost p0 = self.pos();
        let ghost l0 = self.line();
        let ghost lhs0 = lhs@;
        let mut lhs = lhs;
        loop
            invariant
                self.wf(),
                self.input() == s,
                p0 <= self.pos() <= s.len(),
                expr_wf(lhs@),
                sp_binop_rhs(s, p0, l0, expression_precedence as int, lhs0) == sp_binop_rhs(
                    s,
                    self.pos(),
                    self.line(),
                    expression_precedence as int,
                    lhs@,
                ),
            decreases remaining(s, self.pos()),
        {
            let op: Option<char> = match &self.current {
                Token::Symbol(c) => Some(*c),
                _ => None,
            };
            let token_precedence: i64 = match op {
                Some(c) => precedence(c),
                None => -1,
            };
            if token_precedence < expression_precedence {
                return Ok(lhs);
            }
            let binop = match op {
                Some(c) => c,
                None => {
                    return Ok(lhs);
                },
            };
            self.get_next_token();
            let rhs = match self.parse_primary() {
                Ok(e) => e,
                Err(d) => return Err(d),
            };
            let next_precedence: i64 = match &self.current {
                Token::Symbol(c) => precedence(*c),
                _ => -1,
            };
            let rhs = if token_precedence < next_precedence {
                match self.parse_binop_rhs(token_precedence + 1, rhs) {
                    Ok(e) => e,
                    Err(d) => return Err(d),
                }
            } else {
                rhs
            };
            lhs = combine(binop, lhs, rhs);
        }
    }

    /// Parses one primary expression, as [`sp_primary`] states.
    fn parse_primary(&mut self) -> (r: Result<Box<ExprNode>, Diagnostic>)
        requires
            old(self).wf(),
        ensures
            final(self).wf(),
            final(self).input() == old(self).input(),
            old(self).pos() <= final(self).pos() <= old(self).input().len(),
            r is Ok ==> old(self).pos() < final(self).pos(),
            ({
                let res = sp_primary(old(self).input(), old(self).pos(), old(self).line());
                &&& final(self).pos() == res.pos
                &&& final(self).line() == res.line
                &&& (match r {
                    Ok(e) => res.out == Ok::<Expr, DiagModel>(e@) && expr_wf(e@),
                    Err(d) => res.out == Err::<Expr, DiagModel>(d@),
                })
            }),
        decreases remaining(old(self).input(), old(self).pos()), 3int,
    {
        if matches!(self.current, Token::Identifier(_)) {
            return self.parse_identifier_expr();
        }
        let num: Option<Numeral> = match &self.current {
            Token::Number(n) => Some(*n),
            _ => None,
        };
        if let Some(n) = num {
            self.get_next_token();
            return Ok(Box::new(ExprNode::Number(n)));
        }
        if matches!(self.current, Token::If) {
            return self.parse_if_expr();
        }
        if matches!(self.current, Token::For) {
            return self.parse_for_expr();
        }
        if self.symbol_is('(') {
            self.get_next_token();
            let e = match self.parse_expression() {
                Ok(e) => e,
                Err(d) => return Err(d),
            };
            if self.symbol_is(')') {
                self.get_next_token();
                return Ok(e);
            }
            return Err(self.error("Expected ) in expression"));
        }
        let text: Option<String> = match &self.current {
            Token::Invalid(t) => Some(t.clone()),
            _ => None,
        };
        if let Some(text) = text {
            return Err(self.lexical_error(text));
        }
        Err(self.error("Unknown token when expecting an expression"))
    }

    /// Parses a variable reference or a call, as [`sp_identifier`] states.
    fn parse_identifier_expr(&mut self) -> (r: Result<Box<ExprNode>, Diagnostic>)
        requires
            old(self).wf(),
        ensures
            final(self).wf(),
            final(self).input() == old(self).input(),
            old(self).pos() <= final(self).pos() <= old(self).input().len(),
            r is Ok ==> old(self).pos() < final(self).pos(),
            ({
                let res = sp_identifier(old(self).input(), old(self).pos(), old(self).line());
                &&& final(self).pos() == res.pos
                &&& final(self).line() == res.line
                &&& (match r {
                    Ok(e) => res.out == Ok::<Expr, DiagModel>(e@) && expr_wf(e@),
                    Err(d) => res.out == Err::<Expr, DiagModel>(d@),
                })
            }),
        decreases remaining(old(self).input(), old(self).pos()), 2int,
    {
        let name: Option<String> = match &self.current {
            Token::Identifier(n) => Some(n.clone()),
            _ => None,
        };
        let name = match name {
            Some(n) => n,
            None => {
                return Err(self.error("Expected valid identifier"));
            },
        };
        self.get_next_token();
        if !self.symbol_is('(') {
            return Ok(Box::new(ExprNode::Variable(name)));
        }
        self.get_next_token();
        if self.symbol_is(')') {
            self.get_next_token();
            let node = ExprNode::FunctionCall(name, Vec::new());
            proof {
                match node@ {
                    Expr::FunctionCall(nm, vargs) => {
                        assert(vargs =~= Seq::<Expr>::empty());
                    },
                    _ => {
                        assert(false);
                    },
                }
            }
            return Ok(Box::new(node));
        }
        proof {
            assert(expr_views(Seq::<ExprNode>::empty()) =~= Seq::<Expr>::empty());
        }
        self.parse_arguments(name, Vec::new())
    }

    /// Parses one call argument and the list's continuation, as
    /// [`sp_arguments`] states.
    fn parse_arguments(&mut self, callee: String, args: Vec<ExprNode>) -> (r: Result<
        Box<ExprNode>,
        Diagnostic,
    >)
        requires
            old(self).wf(),
            forall|i: int| 0 <= i < args@.len() ==> expr_wf(#[trigger] args@[i]@),
        ensures
            final(self).wf(),
            final(self).input() == old(self).input(),
            old(self).pos() <= final(self).pos() <= old(self).input().len(),
            ({
                let res = sp_arguments(
                    old(self).input(),
                    old(self).pos(),
                    old(self).line(),
                    callee@,
                    expr_views(args@),
                );
                &&& final(self).pos() == res.pos
                &&& final(self).line() == res.line
                &&& (match r {
                    Ok(e) => res.out == Ok::<Expr, DiagModel>(e@) && expr_wf(e@),
                    Err(d) => res.out == Err::<Expr, DiagModel>(d@),
                })
            }),
        decreases remaining(old(self).input(), old(self).pos()), 6int,
    {
        let e = match self.parse_expression() {
            Ok(e) => e,
            Err(d) => return Err(d),
        };
        let ghost a0 = args@;
        let mut args = args;
        args.push(*e);
        proof {
            assert(expr_views(args@) =~= expr_views(a0).push(e@));
        }
        self.parse_args_sep(callee, args)
    }

    /// Parses the separator after a call argument, as [`sp_args_sep`]
    /// states.
    fn parse_args_sep(&mut self, callee: String, args: Vec<ExprNode>) -> (r: Result<
        Box<ExprNode>,
        Diagnostic,
    >)
        requires
            old(self).wf(),
            forall|i: int| 0 <= i < args@.len() ==> expr_wf(#[trigger] args@[i]@),
        ensures
            final(self).wf(),
            final(self).input() == old(self).input(),
            old(self).pos() <= final(self).pos() <= old(self).input().len(),
            ({
                let res = sp_args_sep(
                    old(self).input(),
                    old(self).pos(),
                    old(self).line(),
                    callee@,
                    expr_views(args@),
                );
                &&& final(self).pos() == res.pos
                &&& final(self).line() == res.line
                &&& (match r {
                    Ok(e) => res.out == Ok::<Expr, DiagModel>(e@) && expr_wf(e@),
                    Err(d) => res.out == Err::<Expr, DiagModel>(d@),
                })
            }),
        decreases remaining(old(self).input(), old(self).pos()), 0int,
    {
        if self.symbol_is(',') {
            self.get_next_token();
            return self.parse_arguments(callee, args);
        }
        if self.symbol_is(')') {
            self.get_next_token();
            let ghost av = args@;
            let node = ExprNode::FunctionCall(callee, args);
            proof {
                match node@ {
                    Expr::FunctionCall(nm, vargs) => {
                        assert(vargs.len() == av.len());
                        assert(forall|i: int| 0 <= i < av.len() ==> vargs[i] == #[trigger] av[i]@);
                        assert(vargs =~= expr_views(av));
                    },
                    _ => {
                        assert(false);
                    },
                }
            }
            return Ok(Box::new(node));
        }
        Err(self.error("Expected ) or , in argument list"))
    }

    /// Parses a conditional, as [`sp_if`] states; a missing `then` or `else`
    /// is reported on the line of the `if` itself.
    fn parse_if_expr(&mut self) -> (r: Result<Box<ExprNode>, Diagnostic>)
        requires
            old(self).wf(),
        ensures
            final(self).wf(),
            final(self).input() == old(self).input(),
            old(self).pos() <= final(self).pos() <= old(self).input().len(),
            r is Ok ==> old(self).pos() < final(self).pos(),
            ({
                let res = sp_if(old(self).input(), old(self).pos(), old(self).line());
                &&& final(self).pos() == res.pos
                &&& final(self).line() == res.line
                &&& (match r {
                    Ok(e) => res.out == Ok::<Expr, DiagModel>(e@) && expr_wf(e@),
                    Err(d) => res.out == Err::<Expr, DiagModel>(d@),
                })
            }),
        decreases remaining(old(self).input(), old(self).pos()), 2int,
    {
        if !matches!(self.current, Token::If) {
            return Err(self.error("Unknown token when expecting an expression"));
        }
        let if_line = self.lexer.current_line();
        self.get_next_token();
        let cond = match self.parse_expression() {
            Ok(e) => e,
            Err(d) => return Err(d),
        };
        if !matches!(self.current, Token::Then) {
            return Err(Diagnostic { message: "Expected then".to_owned(), line: if_line, fatal: false });
        }
        self.get_next_token();
        let then_e = match self.parse_expression() {
            Ok(e) => e,
            Err(d) => return Err(d),
        };
        if !matches!(self.current, Token::Else) {
            return Err(Diagnostic { message: "Expected else".to_owned(), line: if_line, fatal: false });
        }
        self.get_next_token();
        let else_e = match self.parse_expression() {
            Ok(e) => e,
            Err(d) => return Err(d),
        };
        Ok(Box::new(ExprNode::IfElse(cond, then_e, else_e)))
    }

    /// Parses a loop, as [`sp_for`] states.
    fn parse_for_expr(&mut self) -> (r: Result<Box<ExprNode>, Diagnostic>)
        requires
            old(self).wf(),
        ensures
            final(self).wf(),
            final(self).input() == old(self).input(),
            old(self).pos() <= final(self).pos() <= old(self).input().len(),
            r is Ok ==> old(self).pos() < final(self).pos(),
            ({
                let res = sp_for(old(self).input(), old(self).pos(), old(self).line());
                &&& final(self).pos() == res.pos
                &&& final(self).line() == res.line
                &&& (match r {
                    Ok(e) => res.out == Ok::<Expr, DiagModel>(e@) && expr_wf(e@),
                    Err(d) => res.out == Err::<Expr, DiagModel>(d@),
                })
            }),
        decreases remaining(old(self).input(), old(self).pos()), 2int,
    {
        if !matches!(self.current, Token::For) {
            return Err(self.error("Unknown token when expecting an expression"));
        }
        self.get_next_token();
        if !matches!(self.current, Token::Identifier(_)) {
            return Err(self.error("Expected identifier after for"));
        }
        self.get_next_token();
        if !self.symbol_is('=') {
            return Err(self.error("Expected = after for"));
        }
        self.get_next_token();
        let start_e = match self.parse_expression() {
            Ok(e) => e,
            Err(d) => return Err(d),
        };
        if !self.symbol_is(',') {
            return Err(self.error("expected , after start value"));
        }
        self.get_next_token();
        let end_e = match self.parse_expression() {
            Ok(e) => e,
            Err(d) => return Err(d),
        };
        let has_step = self.symbol_is(',');
        let step_e: Option<Box<ExprNode>> = if has_step {
            self.get_next_token();
            match self.parse_expression() {
                Ok(e) => Some(e),
                Err(d) => return Err(d),
            }
        } else {
            None
        };
        if !matches!(self.current, Token::In) {
            return Err(self.error("expected 'in' after for"));
        }
        self.get_next_token();
        let body_e = match self.parse_expression() {
            Ok(e) => e,
            Err(d) => return Err(d),
        };
        Ok(Box::new(ExprNode::ForLoop(start_e, end_e, step_e, body_e)))
    }

    /// Parses a prototype, as [`sp_prototype`] states.
    #[verifier::loop_isolation(false)]
    fn parse_prototype(&mut self) -> (r: Result<Prototype, Diagnostic>)
        requires
            old(self).wf(),
        ensures
            final(self).wf(),
            final(self).input() == old(self).input(),
            old(self).pos() <= final(self).pos() <= old(self).input().len(),
            r is Ok ==> old(self).pos() < final(self).pos(),
            ({
                let res = sp_prototype(old(self).input(), old(self).pos(), old(self).line());
                &&& final(self).pos() == res.pos
                &&& final(self).line() == res.line
                &&& (match r {
                    Ok(p) => res.out == Ok::<ProtoModel, DiagModel>(p@),
                    Err(d) => res.out == Err::<ProtoModel, DiagModel>(d@),
                })
            }),
    {
        let ghost s = self.input();
        let name: Option<String> = match &self.current {
            Token::Identifier(n) => Some(n.clone()),
            _ => None,
        };
        let name = match name {
            Some(n) => n,
            None => {
                return Err(self.error("Expected identifier after def"));
            },
        };
        self.get_next_token();
        if !self.symbol_is('(') {
            return Err(self.error("Expected ( in prototype"));
        }
        self.get_next_token();
        let ghost pstart = self.pos();
        let ghost lstart = self.line();
        let mut argnames: Vec<String> = Vec::new();
        proof {
            assert(name_views(argnames@) =~= Seq::<Seq<char>>::empty());
        }
        loop
            invariant
                self.wf(),
                self.input() == s,
                pstart <= self.pos() <= s.len(),
                sp_parameters(s, pstart, lstart, Seq::empty()) == sp_parameters(
                    s,
                    self.pos(),
                    self.line(),
                    name_views(argnames@),
                ),
            decreases remaining(s, self.pos()),
        {
            let id: Option<String> = match &self.current {
                Token::Identifier(n) => Some(n.clone()),
                _ => None,
            };
            match id {
                Some(id) => {
                    let ghost a0 = argnames@;
                    argnames.push(id);
                    proof {
                        assert(name_views(argnames@) =~= name_views(a0).push(argnames@.last()@));
                    }
                    self.get_next_token();
                    if self.symbol_is(',') {
                        self.get_next_token();
                    }
                },
                None => {
                    break ;
                },
            }
        }
        if !self.symbol_is(')') {
            return Err(self.error("Expected ) in prototype"));
        }
        self.get_next_token();
        let ghost av = argnames@;
        let proto = Prototype { name, args: argnames };
        proof {
            assert(proto@.args =~= name_views(av));
        }
        Ok(proto)
    }

    /// Parses a definition — `def`, a prototype, the body — as
    /// [`sp_definition`] states.
    fn parse_definition(&mut self) -> (r: Result<Function, Diagnostic>)
        requires
            old(self).wf(),
        ensures
            final(self).wf(),
            final(self).input() == old(self).input(),
            old(self).pos() <= final(self).pos() <= old(self).input().len(),
            old(self).cur_token() == TokenModel::Def ==> old(self).pos() < final(self).pos(),
            ({
                let res = sp_definition(old(self).input(), old(self).pos(), old(self).line());
                &&& final(self).pos() == res.pos
                &&& final(self).line() == res.line
                &&& (match r {
                    Ok(f) => res.out == Ok::<FuncModel, DiagModel>(f@) && expr_wf(f.body@),
                    Err(d) => res.out == Err::<FuncModel, DiagModel>(d@),
                })
            }),
    {
        if !matches!(self.current, Token::Def) {
            return Err(self.error("Expected identifier after def"));
        }
        self.get_next_token();
        let proto = match self.parse_prototype() {
            Ok(p) => p,
            Err(d) => return Err(d),
        };
        let body = match self.parse_expression() {
            Ok(e) => e,
            Err(d) => return Err(d),
        };
        Ok(Function { proto, body: *body })
    }

    /// Parses an external declaration — the keyword and a bare prototype —
    /// as [`sp_external`] states.
    fn parse_external(&mut self) -> (r: Result<Prototype, Diagnostic>)
        requires
            old(self).wf(),
        ensures
            final(self).wf(),
            final(self).input() == old(self).input(),
            old(self).pos() <= final(self).pos() <= old(self).input().len(),
            old(self).cur_token() == TokenModel::External ==> old(self).pos() < final(self).pos(),
            ({
                let res = sp_external(old(self).input(), old(self).pos(), old(self).line());
                &&& final(self).pos() == res.pos
                &&& final(self).line() == res.line
                &&& (match r {
                    Ok(p) => res.out == Ok::<ProtoModel, DiagModel>(p@),
                    Err(d) => res.out == Err::<ProtoModel, DiagModel>(d@),
                })
            }),
    {
        if !matches!(self.current, Token::External) {
            return Err(self.error("Expected identifier after def"));
        }
        self.get_next_token();
        self.parse_prototype()
    }

    /// Parses a bare expression and wraps it into the anonymous
    /// zero-argument function, as [`sp_top_expr`] states.
    fn parse_top_level_expr(&mut self) -> (r: Result<Function, Diagnostic>)
        requires
            old(self).wf(),
        ensures
            final(self).wf(),
            final(self).input() == old(self).input(),
            old(self).pos() <= final(self).pos() <= old(self).input().len(),
            r is Ok ==> old(self).pos() < final(self).pos(),
            ({
                let res = sp_top_expr(old(self).input(), old(self).pos(), old(self).line());
                &&& final(self).pos() == res.pos
                &&& final(self).line() == res.line
                &&& (match r {
                    Ok(f) => res.out == Ok::<FuncModel, DiagModel>(f@) && expr_wf(f.body@),
                    Err(d) => res.out == Err::<FuncModel, DiagModel>(d@),
                })
            }),
    {
        let body = match self.parse_expression() {
            Ok(e) => e,
            Err(d) => return Err(d),
        };
        let proto = Prototype { name: "__anon_expr".to_owned(), args: Vec::new() };
        proof {
            assert(proto@.args =~= Seq::<Seq<char>>::empty());
        }
        Ok(Function { proto, body: *body })
    }

    /// Parses one top-level construct, as [`sp_construct_one`] states.
    fn parse_construct(&mut self) -> (r: Result<TopLevel, Diagnostic>)
        requires
            old(self).wf(),
        ensures
            final(self).wf(),
            final(self).input() == old(self).input(),
            old(self).pos() <= final(self).pos() <= old(self).input().len(),
            r is Ok ==> old(self).pos() < final(self).pos(),
            old(self).cur_token() == TokenModel::Def || old(self).cur_token()
                == TokenModel::External ==> old(self).pos() < final(self).pos(),
            ({
                let res = sp_construct_one(old(self).input(), old(self).pos(), old(self).line());
                &&& final(self).pos() == res.pos
                &&& final(self).line() == res.line
                &&& (match r {
                    Ok(item) => res.out == Ok::<TopModel, DiagModel>(item@),
                    Err(d) => res.out == Err::<TopModel, DiagModel>(d@),
                })
            }),
    {
        if matches!(self.current, Token::Def) {
            match self.parse_definition() {
                Ok(f) => Ok(TopLevel::Definition(f)),
                Err(d) => Err(d),
            }
        } else if matches!(self.current, Token::External) {
            match self.parse_external() {
                Ok(p) => Ok(TopLevel::Declaration(p)),
                Err(d) => Err(d),
            }
        } else {
            match self.parse_top_level_expr() {
                Ok(f) => Ok(TopLevel::Definition(f)),
                Err(d) => Err(d),
            }
        }
    }

    /// Parses the whole input, as [`sp_run`] states: the forest of top-level
    /// constructs that parsed, and a diagnostic for each construct that did
    /// not.  The run succeeds exactly when the diagnostics come back empty; a
    /// fatal diagnostic — an invalid numeric literal — is always the last and
    /// ends the run at once.
    #[verifier::rlimit(100)]
    pub fn run(&mut self) -> (r: (Vec<TopLevel>, Vec<Diagnostic>))
        requires
            old(self).wf(),
        ensures
            final(self).wf(),
            ({
                let spec_r = sp_run(old(self).input(), old(self).pos(), old(self).line());
                top_views(r.0@) == spec_r.0 && diag_views(r.1@) == spec_r.1
            }),
    {
        let ghost s = self.input();
        let ghost p0 = self.pos();
        let ghost l0 = self.line();
        let mut items: Vec<TopLevel> = Vec::new();
        let mut diags: Vec<Diagnostic> = Vec::new();
        proof {
            assert(top_views(items@) =~= Seq::<TopModel>::empty());
            assert(diag_views(diags@) =~= Seq::<DiagModel>::empty());
            assert(Seq::<TopModel>::empty() + sp_run(s, p0, l0).0 =~= sp_run(s, p0, l0).0);
            assert(Seq::<DiagModel>::empty() + sp_run(s, p0, l0).1 =~= sp_run(s, p0, l0).1);
        }
        loop
            invariant
                self.wf(),
                s == old(self).input(),
                p0 == old(self).pos(),
                l0 == old(self).line(),
                self.input() == s,
                p0 <= self.pos() <= s.len(),
                sp_run(s, p0, l0).0 == top_views(items@) + sp_run(s, self.pos(), self.line()).0,
                sp_run(s, p0, l0).1 == diag_views(diags@) + sp_run(s, self.pos(), self.line()).1,
            decreases remaining(s, self.pos()),
        {
            let ghost pc = self.pos();
            let ghost lc = self.line();
            if matches!(self.current, Token::Eof) {
                proof {
                    assert(sp_run(s, pc, lc).0 =~= Seq::<TopModel>::empty());
                    assert(top_views(items@) + sp_run(s, pc, lc).0 =~= top_views(items@));
                    assert(diag_views(diags@) + sp_run(s, pc, lc).1 =~= diag_views(diags@));
                }
                return (items, diags);
            }
            let invalid: Option<String> = match &self.current {
                Token::Invalid(t) => Some(t.clone()),
                _ => None,
            };
            if let Some(text) = invalid {
                let d = self.lexical_error(text);
                let ghost d0 = diags@;
                diags.push(d);
                proof {
                    assert(diag_views(diags@) =~= diag_views(d0).push(diags@.last()@));
                    assert(top_views(items@) + sp_run(s, pc, lc).0 =~= top_views(items@));
                    assert(diag_views(d0) + sp_run(s, pc, lc).1 =~= diag_views(diags@));
                }
                return (items, diags);
            }
            if self.symbol_is(';') {
                self.get_next_token();
                continue ;
            }
            // one construct: a definition, an external declaration, or a
            // bare expression
            let failed: Diagnostic;
            match self.parse_construct() {
                Ok(item) => {
                    let ghost i0 = items@;
                    items.push(item);
                    proof {
                        lemma_run_step_ok(
                            s,
                            p0,
                            l0,
                            pc,
                            lc,
                            self.pos(),
                            self.line(),
                            top_views(i0),
                            diag_views(diags@),
                            items@.last()@,
                        );
                        assert(top_views(items@) =~= top_views(i0).push(items@.last()@));
                    }
                    continue ;
                },
                Err(d) => {
                    failed = d;
                },
            }
            // the construct failed: record the diagnostic, stop on a fatal
            // one, and otherwise resume at the next boundary
            let fatal = failed.fatal;
            let ghost epos = self.pos();
            let ghost eline = self.line();
            let ghost d0 = diags@;
            diags.push(failed);
            proof {
                assert(diag_views(diags@) =~= diag_views(d0).push(diags@.last()@));
            }
            if fatal {
                proof {
                    lemma_run_step_fatal(
                        s,
                        p0,
                        l0,
                        pc,
                        lc,
                        epos,
                        eline,
                        top_views(items@),
                        diag_views(d0),
                        diags@.last()@,
                    );
                }
                return (items, diags);
            }
            self.skip_to_boundary();
            proof {
                lemma_run_step_err(
                    s,
                    p0,
                    l0,
                    pc,
                    lc,
                    epos,
                    eline,
                    self.pos(),
                    self.line(),
                    top_views(items@),
                    diag_views(d0),
                    diags@.last()@,
                );
            }
        }
    }
}

/// Whether a token ends error recovery: a construct can begin right after
/// it, or it must reach the driver itself.
pub open spec fn is_boundary(t: TokenModel) -> bool {
    match t {
        TokenModel::Eof => true,
        TokenModel::Def => true,
        TokenModel::External => true,
        TokenModel::Invalid(_) => true,
        TokenModel::Symbol(c) => c == ';',
        _ => false,
    }
}

} // verus!
