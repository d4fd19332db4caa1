use vstd::prelude::*;
use crate::ast::{SExpr, SStmt};
use crate::token::SToken;
use crate::lexer::{next_token_at, line_col, lemma_next_token_progress, lemma_eof_stays};
use crate::semantics::token_debug;
use crate::text::decimal;

verus! {

// ---------------------------------------------------------------------------
// The grammar of Kingcobra, as the parser reads it: a Pratt parser over the
// stream of tokens that the lexer makes of the input from a starting position.
// ---------------------------------------------------------------------------

/// The characters being parsed, and the position the lexer started at.
pub struct Src {
    pub inp: Seq<char>,
    pub p0: nat,
}

/// The lexer's position after it has made `n` tokens.
pub open spec fn pos_after(src: Src, n: nat) -> nat
    decreases n,
{
    if n == 0 {
        if src.p0 <= src.inp.len() {
            src.p0
        } else {
            src.inp.len()
        }
    } else {
        next_token_at(src.inp, pos_after(src, (n - 1) as nat)).1
    }
}

/// Token number `n` of the stream.
pub open spec fn tok(src: Src, n: nat) -> SToken {
    next_token_at(src.inp, pos_after(src, n)).0
}

/// The parser's place: the number of the current token, the error messages so far, and
/// whether the parser has met an infix operator with no expression before it, where parsing
/// cannot go on.
pub struct PS {
    pub k: nat,
    pub errs: Seq<Seq<char>>,
    pub crashed: bool,
}

/// The current token.
pub open spec fn cur(src: Src, st: PS) -> SToken {
    tok(src, st.k)
}

/// The token after the current one.
pub open spec fn peek(src: Src, st: PS) -> SToken {
    tok(src, st.k + 1)
}

/// The place one token further on.
pub open spec fn adv(st: PS) -> PS {
    PS { k: st.k + 1, errs: st.errs, crashed: st.crashed }
}

/// The number of characters the lexer has read when it stands at position `p`.
pub open spec fn consumed_at(inp: Seq<char>, p: nat) -> nat {
    if p < inp.len() {
        p + 1
    } else {
        inp.len()
    }
}

/// The start of an error message: where the lexer stands when the parser is at `st`.
pub open spec fn error_head(src: Src, st: PS) -> Seq<char> {
    let lc = line_col(src.inp, consumed_at(src.inp, pos_after(src, st.k + 2)));
    "Error at line "@ + decimal(lc.0 as int) + ", col "@ + decimal(lc.1 as int) + ": "@
}

/// The place with one more error message.
pub open spec fn with_error(src: Src, st: PS, msg: Seq<char>) -> PS {
    PS { k: st.k, errs: st.errs.push(error_head(src, st) + msg), crashed: st.crashed }
}

/// The place after the parser has hit a missing expression.
pub open spec fn crash(st: PS) -> PS {
    PS { k: st.k, errs: st.errs, crashed: true }
}

/// Binding strength of a token as an infix operator: 0 lowest, then `==`, `<`, `+`, `*`,
/// prefix, call, index.
pub open spec fn prec_of(t: SToken) -> nat {
    match t {
        SToken::Eq | SToken::NotEq => 1,
        SToken::Lt | SToken::Gt => 2,
        SToken::Plus | SToken::Minus => 3,
        SToken::Slash | SToken::Asterisk => 4,
        SToken::LParen => 6,
        SToken::Dot => 6,
        SToken::LBracket => 7,
        _ => 0,
    }
}

/// The binding strength of a prefix operator's operand.
pub open spec fn prefix_prec() -> nat {
    5
}

/// Characters not yet read by the lexer after `n` tokens.
pub open spec fn remaining(src: Src, n: nat) -> nat {
    if pos_after(src, n) <= src.inp.len() {
        (src.inp.len() - pos_after(src, n)) as nat
    } else {
        0
    }
}

/// A measure of the work left at token `k`: it never grows as the parser moves on, and it
/// shrinks with each step unless the parser stands at the end with nothing left to read.
pub open spec fn measure(src: Src, k: nat) -> nat {
    4 * remaining(src, k + 2) + (if tok(src, k) != SToken::Eof { 1nat } else { 0 }) + (if tok(
        src,
        k + 1,
    ) != SToken::Eof {
        2nat
    } else {
        0
    })
}

/// The lexer never reads past the end of the input.
pub proof fn lemma_pos_after(src: Src, n: nat)
    ensures
        pos_after(src, n) <= src.inp.len(),
    decreases n,
{
    if n > 0 {
        lemma_pos_after(src, (n - 1) as nat);
        lemma_next_token_progress(src.inp, pos_after(src, (n - 1) as nat));
    }
}

/// One step on, the measure does not grow; it shrinks where the current token or the one
/// after it is not the end.
pub proof fn lemma_measure_step(src: Src, k: nat)
    ensures
        measure(src, k + 1) <= measure(src, k),
        (tok(src, k) != SToken::Eof || tok(src, k + 1) != SToken::Eof) ==> measure(src, k + 1)
            < measure(src, k),
{
    lemma_pos_after(src, k + 2);
    lemma_pos_after(src, k + 1);
    lemma_next_token_progress(src.inp, pos_after(src, k + 2));
    lemma_next_token_progress(src.inp, pos_after(src, k + 1));
    assert(pos_after(src, k + 3) == next_token_at(src.inp, pos_after(src, k + 2)).1);
    assert(tok(src, k + 2) == next_token_at(src.inp, pos_after(src, k + 2)).0);
}

/// Further on, the measure is no larger.
pub proof fn lemma_measure_mono(src: Src, a: nat, b: nat)
    requires
        a <= b,
    ensures
        measure(src, b) <= measure(src, a),
    decreases b - a,
{
    if a < b {
        lemma_measure_mono(src, a, (b - 1) as nat);
        lemma_measure_step(src, (b - 1) as nat);
    }
}

/// From a place where the current token is not the end, every later place has a smaller measure.
pub proof fn lemma_measure_after(src: Src, a: nat, b: nat)
    requires
        a < b,
        tok(src, a) != SToken::Eof,
    ensures
        measure(src, b) < measure(src, a),
{
    lemma_measure_step(src, a);
    lemma_measure_mono(src, a + 1, b);
}

/// From a place where the next token is not the end, every later place has a smaller measure.
pub proof fn lemma_measure_after_peek(src: Src, a: nat, b: nat)
    requires
        a < b,
        tok(src, a + 1) != SToken::Eof,
    ensures
        measure(src, b) < measure(src, a),
{
    lemma_measure_step(src, a);
    lemma_measure_mono(src, a + 1, b);
}

/// The input holds no NUL character (which the lexer reads as an end of its own).
pub open spec fn no_nul(inp: Seq<char>) -> bool {
    forall|i: int| 0 <= i < inp.len() ==> inp[i] != '\0'
}

/// On an input with no NUL character, once the token stream reaches the end it stays there.
pub proof fn lemma_eof_sticky(src: Src, n: nat, m: nat)
    requires
        no_nul(src.inp),
        tok(src, n) == SToken::Eof,
        n <= m,
    ensures
        tok(src, m) == SToken::Eof,
        n < m ==> pos_after(src, m) == src.inp.len(),
    decreases m - n,
{
    if n < m {
        let p: nat = (m - 1) as nat;
        lemma_eof_sticky(src, n, p);
        lemma_pos_after(src, p);
        lemma_eof_stays(src.inp, pos_after(src, p));
        assert(pos_after(src, m) == next_token_at(src.inp, pos_after(src, p)).1);
    }
}

/// A program holds at most as many statements as there are tokens before the end: each
/// statement starts at a token of its own that is not the end.
pub proof fn lemma_program_len(src: Src, st: PS, acc: Seq<SStmt>, n: nat)
    requires
        no_nul(src.inp),
        tok(src, n) == SToken::Eof,
        acc.len() <= st.k,
        acc.len() <= n,
    ensures
        p_program(src, st, acc).0.len() <= n,
    decreases measure(src, st.k),
{
    if cur(src, st) != SToken::Eof {
        if st.k >= n {
            lemma_eof_sticky(src, n, st.k);
        }
        let (s, st1) = p_statement(src, st);
        let acc2 = match s {
            Some(x) => acc.push(x),
            None => acc,
        };
        if st1.k >= st.k {
            lemma_measure_after(src, st.k, st1.k + 1);
            lemma_program_len(src, adv(st1), acc2, n);
        }
    }
}

// ---------------------------------------------------------------------------
// The parsing functions. Each takes the place and gives what it parsed and the place
// after it. A `decreases` pair is the measure and the function's rank; the branches
// guarded by `k` comparisons are the ones the parser always takes.
// ---------------------------------------------------------------------------

/// The statements of a program, from the current token to the end.
pub open spec fn p_program(src: Src, st: PS, acc: Seq<SStmt>) -> (Seq<SStmt>, PS)
    decreases measure(src, st.k), 30nat,
{
    if cur(src, st) == SToken::Eof {
        (acc, st)
    } else {
        let (s, st1) = p_statement(src, st);
        let acc2 = match s {
            Some(x) => acc.push(x),
            None => acc,
        };
        if st1.k >= st.k {
            proof {
                lemma_measure_after(src, st.k, st1.k + 1);
            }
            p_program(src, adv(st1), acc2)
        } else {
            (acc2, st1)
        }
    }
}

/// The lexer never moves back: a later token starts no earlier.
pub proof fn lemma_pos_mono(src: Src, a: nat, b: nat)
    requires
        a <= b,
    ensures
        pos_after(src, a) <= pos_after(src, b),
    decreases b - a,
{
    if a < b {
        let p: nat = (b - 1) as nat;
        lemma_pos_mono(src, a, p);
        lemma_pos_after(src, p);
        lemma_next_token_progress(src.inp, pos_after(src, p));
    }
}

/// A program holds at most as many statements as there are characters left to read: each
/// statement starts at a token of its own that is not the end, and such a token is read from
/// at least one character. This holds of every input, NUL characters included.
pub proof fn lemma_program_len_chars(src: Src, st: PS, acc: Seq<SStmt>)
    ensures
        p_program(src, st, acc).0.len() <= acc.len() + remaining(src, st.k),
    decreases measure(src, st.k),
{
    if cur(src, st) != SToken::Eof {
        lemma_pos_after(src, st.k);
        lemma_next_token_progress(src.inp, pos_after(src, st.k));
        let (s, st1) = p_statement(src, st);
        let acc2 = match s {
            Some(x) => acc.push(x),
            None => acc,
        };
        if st1.k >= st.k {
            lemma_measure_after(src, st.k, st1.k + 1);
            lemma_program_len_chars(src, adv(st1), acc2);
            lemma_pos_mono(src, st.k + 1, st1.k + 1);
            lemma_pos_after(src, st1.k + 1);
        }
    }
}

/// A program holds at most as many statements as the lexer makes tokens before it has read
/// the whole input: once token number `n` starts at the end of the input, the parser stands at
/// the end from there on, and each statement before starts at a token of its own. This holds
/// of every input, NUL characters included.
pub proof fn lemma_program_len_tokens(src: Src, st: PS, acc: Seq<SStmt>, n: nat)
    requires
        pos_after(src, n) == src.inp.len(),
    ensures
        p_program(src, st, acc).0.len() <= acc.len() + (if st.k <= n { n - st.k } else { 0 }),
    decreases measure(src, st.k),
{
    if st.k >= n {
        lemma_pos_mono(src, n, st.k);
        lemma_pos_after(src, st.k);
        lemma_next_token_progress(src.inp, pos_after(src, st.k));
    }
    if cur(src, st) != SToken::Eof {
        let (s, st1) = p_statement(src, st);
        let acc2 = match s {
            Some(x) => acc.push(x),
            None => acc,
        };
        if st1.k >= st.k {
            lemma_measure_after(src, st.k, st1.k + 1);
            lemma_program_len_tokens(src, adv(st1), acc2, n);
        }
    }
}

/// The statements of a block, up to `done`, `otherwise` or the end.
pub open spec fn p_block(src: Src, st: PS, acc: Seq<SStmt>) -> (Seq<SStmt>, PS)
    decreases measure(src, st.k), 30nat,
{
    let c = cur(src, st);
    if c == SToken::Done || c == SToken::Otherwise || c == SToken::Eof {
        (acc, st)
    } else {
        let (s, st1) = p_statement(src, st);
        let acc2 = match s {
            Some(x) => acc.push(x),
            None => acc,
        };
        if st1.k >= st.k {
            proof {
                lemma_measure_after(src, st.k, st1.k + 1);
            }
            p_block(src, adv(st1), acc2)
        } else {
            (acc2, st1)
        }
    }
}

/// One statement.
pub open spec fn p_statement(src: Src, st: PS) -> (Option<SStmt>, PS)
    decreases measure(src, st.k), 29nat,
{
    match cur(src, st) {
        SToken::Let => p_let(src, st),
        SToken::Return => p_return(src, st),
        SToken::Class => p_class(src, st),
        _ => p_expression_statement(src, st),
    }
}

/// `let name = value`, at `let`.
pub open spec fn p_let(src: Src, st: PS) -> (Option<SStmt>, PS)
    decreases measure(src, st.k), 28nat,
{
    if cur(src, st) == SToken::Eof {
        (None, st)
    } else {
        let st1 = adv(st);
        proof {
            lemma_measure_after(src, st.k, st1.k);
        }
        let (name, st2) = p_expression(src, 0, st1);
        match name {
            None => (None, st2),
            Some(n) => if peek(src, st2) != SToken::Assign {
                (None, with_error(src, st2, "Expected '=', got "@ + token_debug(peek(src, st2))))
            } else if st2.k >= st1.k {
                let st3 = adv(adv(st2));
                proof {
                    lemma_measure_after(src, st.k, st3.k);
                }
                let (value, st4) = p_expression(src, 0, st3);
                match value {
                    None => (None, st4),
                    Some(v) => (Some(SStmt::Let { name: n, value: v }), st4),
                }
            } else {
                (None, st2)
            },
        }
    }
}

/// `return value`, at `return`.
pub open spec fn p_return(src: Src, st: PS) -> (Option<SStmt>, PS)
    decreases measure(src, st.k), 28nat,
{
    if cur(src, st) == SToken::Eof {
        (None, st)
    } else {
        let st1 = adv(st);
        proof {
            lemma_measure_after(src, st.k, st1.k);
        }
        let (v, st2) = p_expression(src, 0, st1);
        match v {
            None => (None, st2),
            Some(e) => (Some(SStmt::Return(e)), st2),
        }
    }
}

/// `class Name: body done`, at `class`.
pub open spec fn p_class(src: Src, st: PS) -> (Option<SStmt>, PS)
    decreases measure(src, st.k), 28nat,
{
    match peek(src, st) {
        SToken::Ident(n) => {
            let st1 = adv(st);
            if peek(src, st1) != SToken::Colon {
                (
                    None,
                    with_error(src, st1, "Expected ':' after class name, got "@ + token_debug(peek(src, st1))),
                )
            } else {
                let st2 = adv(adv(st1));
                proof {
                    lemma_measure_after_peek(src, st.k, st2.k);
                }
                let (body, st3) = p_block(src, st2, Seq::empty());
                (Some(SStmt::ClassStatement { name: n, body: Box::new(SStmt::Block(body)) }), st3)
            }
        },
        _ => (None, with_error(src, st, "Expected identifier after class, got "@ + token_debug(peek(src, st)))),
    }
}

/// An expression on a line by itself.
pub open spec fn p_expression_statement(src: Src, st: PS) -> (Option<SStmt>, PS)
    decreases measure(src, st.k), 28nat,
{
    let (e, st1) = p_expression(src, 0, st);
    match e {
        None => (None, st1),
        Some(x) => (Some(SStmt::Expression(x)), st1),
    }
}

/// An expression whose operators bind more strongly than `prec`.
pub open spec fn p_expression(src: Src, prec: nat, st: PS) -> (Option<SExpr>, PS)
    decreases measure(src, st.k), 27nat,
{
    let (left, st1) = p_operand(src, st);
    if st1.k >= st.k {
        proof {
            lemma_measure_mono(src, st.k, st1.k);
        }
        p_infix_loop(src, prec, left, st1)
    } else {
        (left, st1)
    }
}

/// The expression that starts at the current token, before any infix operator.
pub open spec fn p_operand(src: Src, st: PS) -> (Option<SExpr>, PS)
    decreases measure(src, st.k), 26nat,
{
    match cur(src, st) {
        SToken::Ident(n) => (Some(SExpr::Identifier(n)), st),
        SToken::Int(v) => (Some(SExpr::Integer(v)), st),
        SToken::Str(s) => (Some(SExpr::Str(s)), st),
        SToken::True => (Some(SExpr::Boolean(true)), st),
        SToken::False => (Some(SExpr::Boolean(false)), st),
        SToken::Minus | SToken::Illegal | SToken::New => p_prefix(src, st),
        SToken::LParen => p_grouped(src, st),
        SToken::LBracket => p_array(src, st),
        SToken::LBrace => p_hash(src, st),
        SToken::When => p_if(src, st),
        SToken::While => p_while(src, st),
        SToken::Fn => p_function(src, st),
        SToken::Import => p_import(src, st),
        _ => (
            None,
            with_error(src, st, "No prefix parse function for "@ + token_debug(cur(src, st))),
        ),
    }
}

/// The infix operators that follow `left` and bind more strongly than `prec`.
pub open spec fn p_infix_loop(src: Src, prec: nat, left: Option<SExpr>, st: PS) -> (Option<SExpr>, PS)
    decreases measure(src, st.k), 26nat,
{
    let pk = peek(src, st);
    if pk != SToken::Eof && prec < prec_of(pk) {
        let st2 = adv(st);
        match left {
            None => (None, crash(st2)),
            Some(l) => {
                proof {
                    lemma_measure_after_peek(src, st.k, st2.k);
                }
                let (l2, st3) = p_infix(src, l, st2);
                if st3.k >= st2.k {
                    proof {
                        lemma_measure_mono(src, st2.k, st3.k);
                    }
                    p_infix_loop(src, prec, l2, st3)
                } else {
                    (l2, st3)
                }
            },
        }
    } else {
        (left, st)
    }
}

/// `-right`, `new right` or an illegal character before an expression, at the operator.
pub open spec fn p_prefix(src: Src, st: PS) -> (Option<SExpr>, PS)
    decreases measure(src, st.k), 25nat,
{
    let op = cur(src, st);
    if op == SToken::Eof {
        (None, st)
    } else {
        let st1 = adv(st);
        proof {
            lemma_measure_after(src, st.k, st1.k);
        }
        let (r, st2) = p_expression(src, prefix_prec(), st1);
        match r {
            None => (None, st2),
            Some(x) => (Some(SExpr::Prefix { operator: op, right: Box::new(x) }), st2),
        }
    }
}

/// The rest of an infix expression after `left`, at the operator.
pub open spec fn p_infix(src: Src, left: SExpr, st: PS) -> (Option<SExpr>, PS)
    decreases measure(src, st.k), 22nat,
{
    let op = cur(src, st);
    if op == SToken::LParen {
        p_call(src, left, st)
    } else if op == SToken::LBracket {
        p_index(src, left, st)
    } else if op == SToken::Dot {
        p_member(src, left, st)
    } else if op == SToken::Eof {
        (None, st)
    } else {
        let st1 = adv(st);
        proof {
            lemma_measure_after(src, st.k, st1.k);
        }
        let (r, st2) = p_expression(src, prec_of(op), st1);
        match r {
            None => (None, st2),
            Some(x) => (Some(SExpr::Infix { left: Box::new(left), operator: op, right: Box::new(x) }), st2),
        }
    }
}

/// `( expression )`, at `(`.
pub open spec fn p_grouped(src: Src, st: PS) -> (Option<SExpr>, PS)
    decreases measure(src, st.k), 25nat,
{
    if cur(src, st) == SToken::Eof {
        (None, st)
    } else {
        let st1 = adv(st);
        proof {
            lemma_measure_after(src, st.k, st1.k);
        }
        let (e, st2) = p_expression(src, 0, st1);
        if peek(src, st2) != SToken::RParen {
            (None, st2)
        } else {
            (e, adv(st2))
        }
    }
}

/// `when condition: ... [otherwise: ...] done`, at `when`.
pub open spec fn p_if(src: Src, st: PS) -> (Option<SExpr>, PS)
    decreases measure(src, st.k), 25nat,
{
    if cur(src, st) == SToken::Eof {
        (None, st)
    } else {
        let st1 = adv(st);
        proof {
            lemma_measure_after(src, st.k, st1.k);
        }
        let (c, st2) = p_expression(src, 0, st1);
        match c {
            None => (None, st2),
            Some(cond) => if peek(src, st2) != SToken::Colon {
                (None, st2)
            } else if st2.k >= st1.k {
                let st3 = adv(adv(st2));
                proof {
                    lemma_measure_after(src, st.k, st3.k);
                }
                let (cons, st4) = p_block(src, st3, Seq::empty());
                if cur(src, st4) == SToken::Otherwise {
                    if peek(src, st4) != SToken::Colon {
                        (None, st4)
                    } else if st4.k >= st3.k {
                        let st5 = adv(adv(st4));
                        proof {
                            lemma_measure_after(src, st.k, st5.k);
                        }
                        let (alt, st6) = p_block(src, st5, Seq::empty());
                        (
                            Some(
                                SExpr::If {
                                    condition: Box::new(cond),
                                    consequence: Box::new(SStmt::Block(cons)),
                                    alternative: Some(Box::new(SStmt::Block(alt))),
                                },
                            ),
                            st6,
                        )
                    } else {
                        (None, st4)
                    }
                } else {
                    (
                        Some(
                            SExpr::If {
                                condition: Box::new(cond),
                                consequence: Box::new(SStmt::Block(cons)),
                                alternative: None,
                            },
                        ),
                        st4,
                    )
                }
            } else {
                (None, st2)
            },
        }
    }
}

/// `fn(params): body done`, at `fn`.
pub open spec fn p_function(src: Src, st: PS) -> (Option<SExpr>, PS)
    decreases measure(src, st.k), 25nat,
{
    if peek(src, st) != SToken::LParen || cur(src, st) == SToken::Eof {
        (None, st)
    } else {
        let st1 = adv(st);
        proof {
            lemma_measure_after(src, st.k, st1.k);
        }
        let (params, st2) = p_params(src, st1);
        if peek(src, st2) != SToken::Colon {
            (None, st2)
        } else if st2.k >= st1.k {
            let st3 = adv(adv(st2));
            proof {
                lemma_measure_after(src, st.k, st3.k);
            }
            let (body, st4) = p_block(src, st3, Seq::empty());
            (Some(SExpr::Function { parameters: params, body: Box::new(SStmt::Block(body)) }), st4)
        } else {
            (None, st2)
        }
    }
}

/// The parameter names of a function, at `(`.
pub open spec fn p_params(src: Src, st: PS) -> (Seq<Seq<char>>, PS) {
    if peek(src, st) == SToken::RParen {
        (Seq::empty(), adv(st))
    } else if cur(src, st) == SToken::Eof {
        (Seq::empty(), st)
    } else {
        let st1 = adv(st);
        let ids = match cur(src, st1) {
            SToken::Ident(n) => seq![n],
            _ => Seq::empty(),
        };
        p_params_loop(src, ids, st1)
    }
}

/// More parameter names after `, `.
pub open spec fn p_params_loop(src: Src, ids: Seq<Seq<char>>, st: PS) -> (Seq<Seq<char>>, PS)
    decreases measure(src, st.k), 23nat,
{
    if peek(src, st) == SToken::Comma {
        let st2 = adv(adv(st));
        proof {
            lemma_measure_after_peek(src, st.k, st2.k);
        }
        let ids2 = match cur(src, st2) {
            SToken::Ident(n) => ids.push(n),
            _ => ids,
        };
        p_params_loop(src, ids2, st2)
    } else if peek(src, st) != SToken::RParen {
        (Seq::empty(), st)
    } else {
        (ids, adv(st))
    }
}

/// `left(arguments)`, at `(`.
pub open spec fn p_call(src: Src, left: SExpr, st: PS) -> (Option<SExpr>, PS)
    decreases measure(src, st.k), 21nat,
{
    let (args, st1) = p_list(src, SToken::RParen, st);
    (Some(SExpr::Call { function: Box::new(left), arguments: args }), st1)
}

/// A comma-separated list of expressions up to `end`, at the token before the first one.
pub open spec fn p_list(src: Src, end: SToken, st: PS) -> (Seq<SExpr>, PS)
    decreases measure(src, st.k), 20nat,
{
    if peek(src, st) == end {
        (Seq::empty(), adv(st))
    } else if cur(src, st) == SToken::Eof {
        (Seq::empty(), st)
    } else {
        let st1 = adv(st);
        proof {
            lemma_measure_after(src, st.k, st1.k);
        }
        let (e, st2) = p_expression(src, 0, st1);
        let acc = match e {
            Some(x) => seq![x],
            None => Seq::empty(),
        };
        if st2.k >= st1.k {
            proof {
                lemma_measure_mono(src, st1.k, st2.k);
            }
            p_list_loop(src, end, acc, st2)
        } else {
            (Seq::empty(), st2)
        }
    }
}

/// More expressions of a list after `, `, then the closing `end`.
pub open spec fn p_list_loop(src: Src, end: SToken, acc: Seq<SExpr>, st: PS) -> (Seq<SExpr>, PS)
    decreases measure(src, st.k), 19nat,
{
    if peek(src, st) == SToken::Comma {
        let st3 = adv(adv(st));
        proof {
            lemma_measure_after_peek(src, st.k, st3.k);
        }
        let (e, st4) = p_expression(src, 0, st3);
        let acc2 = match e {
            Some(x) => acc.push(x),
            None => acc,
        };
        if st4.k >= st3.k {
            proof {
                lemma_measure_mono(src, st3.k, st4.k);
            }
            p_list_loop(src, end, acc2, st4)
        } else {
            (Seq::empty(), st4)
        }
    } else if peek(src, st) != end {
        (Seq::empty(), st)
    } else {
        (acc, adv(st))
    }
}

/// `[elements]`, at `[`.
pub open spec fn p_array(src: Src, st: PS) -> (Option<SExpr>, PS)
    decreases measure(src, st.k), 25nat,
{
    let (es, st1) = p_list(src, SToken::RBracket, st);
    (Some(SExpr::ArrayLiteral(es)), st1)
}

/// `left[index]`, at `[`.
pub open spec fn p_index(src: Src, left: SExpr, st: PS) -> (Option<SExpr>, PS)
    decreases measure(src, st.k), 21nat,
{
    if cur(src, st) == SToken::Eof {
        (None, st)
    } else {
        let st1 = adv(st);
        proof {
            lemma_measure_after(src, st.k, st1.k);
        }
        let (i, st2) = p_expression(src, 0, st1);
        match i {
            None => (None, st2),
            Some(ix) => if peek(src, st2) != SToken::RBracket {
                (None, st2)
            } else {
                (Some(SExpr::IndexExpression { left: Box::new(left), index: Box::new(ix) }), adv(st2))
            },
        }
    }
}

/// `{key: value, ...}`, at `{`.
pub open spec fn p_hash(src: Src, st: PS) -> (Option<SExpr>, PS)
    decreases measure(src, st.k), 25nat,
{
    p_hash_loop(src, Seq::empty(), st)
}

/// The pairs of a hash literal after those in `pairs`.
pub open spec fn p_hash_loop(src: Src, pairs: Seq<(SExpr, SExpr)>, st: PS) -> (Option<SExpr>, PS)
    decreases measure(src, st.k), 24nat,
{
    if peek(src, st) == SToken::RBrace {
        (Some(SExpr::HashLiteral(pairs)), adv(st))
    } else if cur(src, st) == SToken::Eof {
        (None, st)
    } else {
        let st1 = adv(st);
        proof {
            lemma_measure_after(src, st.k, st1.k);
        }
        let (key, st2) = p_expression(src, 0, st1);
        match key {
            None => (None, st2),
            Some(kx) => if peek(src, st2) != SToken::Colon {
                (None, st2)
            } else if st2.k >= st1.k {
                let st3 = adv(adv(st2));
                proof {
                    lemma_measure_after(src, st.k, st3.k);
                }
                let (val, st4) = p_expression(src, 0, st3);
                match val {
                    None => (None, st4),
                    Some(vx) => {
                        let pairs2 = pairs.push((kx, vx));
                        if peek(src, st4) != SToken::RBrace && peek(src, st4) != SToken::Comma {
                            (None, st4)
                        } else if st4.k < st3.k {
                            (None, st4)
                        } else if peek(src, st4) == SToken::Comma {
                            proof {
                                lemma_measure_after(src, st.k, st4.k + 1);
                            }
                            p_hash_loop(src, pairs2, adv(st4))
                        } else {
                            proof {
                                lemma_measure_after(src, st.k, st4.k);
                            }
                            p_hash_loop(src, pairs2, st4)
                        }
                    },
                }
            } else {
                (None, st2)
            },
        }
    }
}

/// `while condition: body done`, at `while`.
pub open spec fn p_while(src: Src, st: PS) -> (Option<SExpr>, PS)
    decreases measure(src, st.k), 25nat,
{
    if cur(src, st) == SToken::Eof {
        (None, st)
    } else {
        let st1 = adv(st);
        proof {
            lemma_measure_after(src, st.k, st1.k);
        }
        let (c, st2) = p_expression(src, 0, st1);
        match c {
            None => (None, st2),
            Some(cond) => if peek(src, st2) != SToken::Colon {
                (None, st2)
            } else if st2.k >= st1.k {
                let st3 = adv(adv(st2));
                proof {
                    lemma_measure_after(src, st.k, st3.k);
                }
                let (body, st4) = p_block(src, st3, Seq::empty());
                (Some(SExpr::WhileExpression { condition: Box::new(cond), body: Box::new(SStmt::Block(body)) }), st4)
            } else {
                (None, st2)
            },
        }
    }
}

/// `import path`, at `import`.
pub open spec fn p_import(src: Src, st: PS) -> (Option<SExpr>, PS)
    decreases measure(src, st.k), 25nat,
{
    if cur(src, st) == SToken::Eof {
        (None, st)
    } else {
        let st1 = adv(st);
        proof {
            lemma_measure_after(src, st.k, st1.k);
        }
        let (p, st2) = p_expression(src, 0, st1);
        match p {
            None => (None, st2),
            Some(x) => (Some(SExpr::ImportExpression(Box::new(x))), st2),
        }
    }
}

/// `left.property`, at `.`.
pub open spec fn p_member(src: Src, left: SExpr, st: PS) -> (Option<SExpr>, PS)
    decreases measure(src, st.k), 21nat,
{
    let st1 = adv(st);
    match cur(src, st1) {
        SToken::Ident(n) => (Some(SExpr::MemberExpression { left: Box::new(left), property: n }), st1),
        _ => (
            None,
            with_error(src, st1, "Expected identifier after dot, got "@ + token_debug(cur(src, st1))),
        ),
    }
}

} // verus!
