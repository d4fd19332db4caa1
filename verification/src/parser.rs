use vstd::prelude::*;
use crate::ast::{Expression, Program, Statement, SExpr, SStmt, expr_view, stmt_view, exprs_view, pairs_view, stmts_view, strings_view, lemma_exprs_push, lemma_pairs_push, lemma_stmts_push, lemma_stmts_view_index};
use crate::grammar::{Src, PS, no_nul, lemma_program_len, lemma_program_len_chars, lemma_program_len_tokens, tok, pos_after, cur, peek, adv, measure, prec_of, prefix_prec, error_head, with_error, crash, consumed_at, lemma_measure_after, lemma_measure_after_peek, lemma_measure_mono, lemma_pos_after, p_program, p_block, p_statement, p_let, p_return, p_class, p_expression_statement, p_expression, p_operand, p_infix_loop, p_prefix, p_infix, p_grouped, p_if, p_function, p_params, p_params_loop, p_call, p_list, p_list_loop, p_array, p_index, p_hash, p_hash_loop, p_while, p_import, p_member};
use crate::lexer::{Lexer, next_token_at, line_col};
use crate::object::push_digits;
use crate::semantics::{debug_token, token_debug};
use crate::token::{SToken, Token};
use crate::host::{HostReply, SReply};

verus! {

/// How strongly an operator binds, from weakest to strongest.
#[derive(Debug, PartialEq, Eq, Clone, Copy)]
pub enum Precedence {
    Lowest,
    Equals,
    LessGreater,
    Sum,
    Product,
    Prefix,
    Call,
    Index,
}

/// The rank of a binding strength: 0 for the weakest.
pub open spec fn prec_rank(p: Precedence) -> nat {
    match p {
        Precedence::Lowest => 0,
        Precedence::Equals => 1,
        Precedence::LessGreater => 2,
        Precedence::Sum => 3,
        Precedence::Product => 4,
        Precedence::Prefix => 5,
        Precedence::Call => 6,
        Precedence::Index => 7,
    }
}

impl Precedence {
    /// The rank of this binding strength.
    pub fn rank(&self) -> (r: u8)
        ensures
            r == prec_rank(*self),
    {
        match self {
            Precedence::Lowest => 0,
            Precedence::Equals => 1,
            Precedence::LessGreater => 2,
            Precedence::Sum => 3,
            Precedence::Product => 4,
            Precedence::Prefix => 5,
            Precedence::Call => 6,
            Precedence::Index => 7,
        }
    }
}

/// How strongly a token binds as an infix operator.
pub fn token_precedence(token: &Token) -> (p: Precedence)
    ensures
        prec_rank(p) == prec_of(token@),
{
    match token {
        Token::Eq | Token::NotEq => Precedence::Equals,
        Token::Lt | Token::Gt => Precedence::LessGreater,
        Token::Plus | Token::Minus => Precedence::Sum,
        Token::Slash | Token::Asterisk => Precedence::Product,
        Token::LParen => Precedence::Call,
        Token::Dot => Precedence::Call,
        Token::LBracket => Precedence::Index,
        _ => Precedence::Lowest,
    }
}

/// The value of a parsed expression, if any.
pub open spec fn opt_expr(o: Option<Expression>) -> Option<SExpr> {
    match o {
        Some(e) => Some(expr_view(e)),
        None => None,
    }
}

/// The value of a parsed statement, if any.
pub open spec fn opt_stmt(o: Option<Statement>) -> Option<SStmt> {
    match o {
        Some(s) => Some(stmt_view(s)),
        None => None,
    }
}

/// Reads tokens from a lexer and builds the syntax tree of a program.
pub struct Parser {
    lexer: Lexer,
    cur_token: Token,
    peek_token: Token,
    pub errors: Vec<String>,
    crashed: bool,
    src: Ghost<Src>,
    k: Ghost<nat>,
}

impl Parser {
    /// The input and starting position of the token stream.
    pub closed spec fn source(&self) -> Src {
        self.src@
    }

    /// The parser's place in the token stream, its errors, and whether it has met a missing
    /// expression where it needed one.
    pub closed spec fn state(&self) -> PS {
        PS { k: self.k@, errs: strings_view(self.errors@), crashed: self.crashed }
    }

    /// The parser's fields agree with the token stream.
    pub closed spec fn wf(&self) -> bool {
        &&& self.lexer.wf()
        &&& self.lexer.input() == self.src@.inp
        &&& self.src@.p0 <= self.src@.inp.len()
        &&& self.lexer.pos() == pos_after(self.src@, self.k@ + 2)
        &&& self.cur_token@ == tok(self.src@, self.k@)
        &&& self.peek_token@ == tok(self.src@, self.k@ + 1)
    }

    /// Whether the parser met an infix operator with no expression before it. Parsing cannot
    /// go on from there: the program is malformed beyond what an error message reports, and
    /// what was parsed means nothing.
    pub fn failed(&self) -> (r: bool)
        ensures
            r == self.state().crashed,
    {
        self.crashed
    }

    /// The error messages so far, in the order they were met.
    pub fn error_messages(&self) -> (r: &Vec<String>)
        ensures
            strings_view(r@) == self.state().errs,
    {
        &self.errors
    }

    /// A parser over the tokens of `lexer`, with the first two tokens read.
    pub fn new(lexer: Lexer) -> (p: Parser)
        requires
            lexer.wf(),
        ensures
            p.wf(),
            p.source() == (Src { inp: lexer.input(), p0: lexer.pos() }),
            p.state() == (PS { k: 0, errs: Seq::empty(), crashed: false }),
    {
        let mut lexer = lexer;
        let ghost src = Src { inp: lexer.input(), p0: lexer.pos() };
        proof {
            lexer.lemma_within();
            assert(pos_after(src, 0) == lexer.pos());
        }
        let cur_token = lexer.next_token();
        let peek_token = lexer.next_token();
        let p = Parser {
            lexer,
            cur_token,
            peek_token,
            errors: Vec::new(),
            crashed: false,
            src: Ghost(src),
            k: Ghost(0),
        };
        assert(p.state().errs =~= Seq::<Seq<char>>::empty());
        p
    }

    /// Moves one token on.
    pub fn next_token(&mut self)
        requires
            old(self).wf(),
        ensures
            final(self).wf(),
            final(self).source() == old(self).source(),
            final(self).state() == adv(old(self).state()),
    {
        proof {
            lemma_pos_after(self.src@, self.k@ + 2);
        }
        self.cur_token = self.peek_token.copy();
        self.peek_token = self.lexer.next_token();
        self.k = Ghost(self.k@ + 1);
        proof {
            assert(pos_after(self.src@, self.k@ + 2) == next_token_at(self.src@.inp, pos_after(self.src@, self.k@ + 1)).1);
        }
    }

    /// Adds an error message: where the lexer stands, then `what`, then `detail`.
    fn record_error(&mut self, what: &str, detail: String)
        requires
            old(self).wf(),
        ensures
            final(self).wf(),
            final(self).source() == old(self).source(),
            final(self).state() == with_error(old(self).source(), old(self).state(), what@ + detail@),
    {
        let mut s = String::from_str("Error at line ");
        push_digits(&mut s, self.lexer.line() as u64);
        s.append(", col ");
        push_digits(&mut s, self.lexer.column() as u64);
        s.append(": ");
        s.append(what);
        s.append(detail.as_str());
        let ghost msg = s@;
        self.errors.push(s);
        proof {
            assert(msg =~= error_head(self.src@, old(self).state()) + (what@ + detail@));
            assert(strings_view(self.errors@) =~= strings_view(old(self).errors@).push(msg));
        }
    }

    /// The whole program: statements up to the end of the input. Each statement starts at a
    /// token of its own, so there are no more statements than tokens before the first end on
    /// an input with no NUL character, than tokens before the lexer has read the whole input
    /// on any input, and than characters of input. (A NUL character reads as an end, but the
    /// lexer reads on after it, and a `when` block that ends there lets parsing go on.)
    pub fn parse_program(&mut self) -> (program: Program)
        requires
            old(self).wf(),
        ensures
            final(self).wf(),
            final(self).source() == old(self).source(),
            (program@, final(self).state()) == p_program(old(self).source(), old(self).state(), Seq::empty()),
            cur(final(self).source(), final(self).state()) == SToken::Eof,
            forall|n: nat|
                no_nul(old(self).source().inp) && #[trigger] tok(old(self).source(), n) == SToken::Eof
                    ==> program@.len() <= n,
            forall|n: nat|
                #[trigger] pos_after(old(self).source(), n) == old(self).source().inp.len() ==> program@.len() <= n,
            program@.len() <= old(self).source().inp.len(),
    {
        let ghost src = self.src@;
        let mut statements: Vec<Statement> = Vec::new();
        assert(stmts_view(statements@) =~= Seq::<SStmt>::empty());
        while !matches!(self.cur_token, Token::Eof)
            invariant
                self.wf(),
                self.source() == src,
                old(self).source() == src,
                p_program(src, old(self).state(), Seq::empty()) == p_program(src, self.state(), stmts_view(statements@)),
            decreases measure(src, self.k@),
        {
            let ghost k0 = self.k@;
            let s = self.parse_statement();
            match s {
                Some(st) => {
                    proof {
                        lemma_stmts_push(statements@, st);
                    }
                    statements.push(st);
                },
                None => {},
            }
            proof {
                lemma_measure_after(src, k0, self.k@ + 1);
            }
            self.next_token();
        }
        proof {
            assert forall|n: nat|
                no_nul(src.inp) && #[trigger] tok(src, n) == SToken::Eof implies stmts_view(statements@).len() <= n by {
                lemma_program_len(src, old(self).state(), Seq::empty(), n);
            }
            assert forall|n: nat| #[trigger] pos_after(src, n) == src.inp.len() implies stmts_view(statements@).len() <= n by {
                lemma_program_len_tokens(src, old(self).state(), Seq::empty(), n);
            }
            lemma_program_len_chars(src, old(self).state(), Seq::empty());
            lemma_pos_after(src, old(self).state().k);
            lemma_stmts_view_index(statements@);
        }
        Program { statements }
    }

    fn parse_statement(&mut self) -> (s: Option<Statement>)
        requires
            old(self).wf(),
        ensures
            final(self).wf(),
            final(self).source() == old(self).source(),
            final(self).state().k >= old(self).state().k,
            (opt_stmt(s), final(self).state()) == p_statement(old(self).source(), old(self).state()),
        decreases measure(old(self).source(), old(self).state().k), 29nat,
    {
        match self.cur_token {
            Token::Let => self.parse_let_statement(),
            Token::Return => self.parse_return_statement(),
            Token::Class => self.parse_class_statement(),
            _ => self.parse_expression_statement(),
        }
    }

    fn parse_let_statement(&mut self) -> (s: Option<Statement>)
        requires
            old(self).wf(),
        ensures
            final(self).wf(),
            final(self).source() == old(self).source(),
            final(self).state().k >= old(self).state().k,
            (opt_stmt(s), final(self).state()) == p_let(old(self).source(), old(self).state()),
        decreases measure(old(self).source(), old(self).state().k), 28nat,
    {
        let ghost src = self.src@;
        let ghost k0 = self.k@;
        if matches!(self.cur_token, Token::Eof) {
            return None;
        }
        self.next_token();
        proof {
            lemma_measure_after(src, k0, self.k@);
        }
        let ghost k1 = self.k@;
        let name = match self.parse_expression(Precedence::Lowest) {
            Some(n) => n,
            None => return None,
        };
        if !matches!(self.peek_token, Token::Assign) {
            let d = debug_token(&self.peek_token);
            self.record_error("Expected '=', got ", d);
            return None;
        }
        self.next_token();
        self.next_token();
        proof {
            lemma_measure_after(src, k0, self.k@);
        }
        let value = match self.parse_expression(Precedence::Lowest) {
            Some(v) => v,
            None => return None,
        };
        Some(Statement::Let { name, value })
    }

    fn parse_return_statement(&mut self) -> (s: Option<Statement>)
        requires
            old(self).wf(),
        ensures
            final(self).wf(),
            final(self).source() == old(self).source(),
            final(self).state().k >= old(self).state().k,
            (opt_stmt(s), final(self).state()) == p_return(old(self).source(), old(self).state()),
        decreases measure(old(self).source(), old(self).state().k), 28nat,
    {
        let ghost src = self.src@;
        let ghost k0 = self.k@;
        if matches!(self.cur_token, Token::Eof) {
            return None;
        }
        self.next_token();
        proof {
            lemma_measure_after(src, k0, self.k@);
        }
        let value = match self.parse_expression(Precedence::Lowest) {
            Some(v) => v,
            None => return None,
        };
        Some(Statement::Return(value))
    }

    fn parse_class_statement(&mut self) -> (s: Option<Statement>)
        requires
            old(self).wf(),
        ensures
            final(self).wf(),
            final(self).source() == old(self).source(),
            final(self).state().k >= old(self).state().k,
            (opt_stmt(s), final(self).state()) == p_class(old(self).source(), old(self).state()),
        decreases measure(old(self).source(), old(self).state().k), 28nat,
    {
        let ghost src = self.src@;
        let ghost k0 = self.k@;
        let name = match &self.peek_token {
            Token::Ident(n) => n.clone(),
            _ => {
                let d = debug_token(&self.peek_token);
                self.record_error("Expected identifier after class, got ", d);
                return None;
            },
        };
        self.next_token();
        if !matches!(self.peek_token, Token::Colon) {
            let d = debug_token(&self.peek_token);
            self.record_error("Expected ':' after class name, got ", d);
            return None;
        }
        self.next_token();
        self.next_token();
        proof {
            lemma_measure_after_peek(src, k0, self.k@);
        }
        let body = self.parse_block_statement();
        let block = Statement::Block(body);
        assert(stmt_view(block) == SStmt::Block(stmts_view(body@)));
        Some(Statement::ClassStatement { name, body: Box::new(block) })
    }

    fn parse_expression_statement(&mut self) -> (s: Option<Statement>)
        requires
            old(self).wf(),
        ensures
            final(self).wf(),
            final(self).source() == old(self).source(),
            final(self).state().k >= old(self).state().k,
            (opt_stmt(s), final(self).state()) == p_expression_statement(old(self).source(), old(self).state()),
        decreases measure(old(self).source(), old(self).state().k), 28nat,
    {
        match self.parse_expression(Precedence::Lowest) {
            Some(e) => Some(Statement::Expression(e)),
            None => None,
        }
    }

    fn parse_expression(&mut self, precedence: Precedence) -> (e: Option<Expression>)
        requires
            old(self).wf(),
        ensures
            final(self).wf(),
            final(self).source() == old(self).source(),
            final(self).state().k >= old(self).state().k,
            (opt_expr(e), final(self).state()) == p_expression(old(self).source(), prec_rank(precedence), old(self).state()),
        decreases measure(old(self).source(), old(self).state().k), 27nat,
    {
        let ghost src = self.src@;
        let ghost k0 = self.k@;
        let left = self.parse_operand();
        proof {
            lemma_measure_mono(src, k0, self.k@);
        }
        self.parse_infix_loop(precedence, left)
    }

    /// The expression that starts at the current token, before any infix operator.
    fn parse_operand(&mut self) -> (e: Option<Expression>)
        requires
            old(self).wf(),
        ensures
            final(self).wf(),
            final(self).source() == old(self).source(),
            final(self).state().k >= old(self).state().k,
            (opt_expr(e), final(self).state()) == p_operand(old(self).source(), old(self).state()),
        decreases measure(old(self).source(), old(self).state().k), 26nat,
    {
        match &self.cur_token {
            Token::Ident(name) => Some(Expression::Identifier(name.clone())),
            Token::Int(val) => Some(Expression::Integer(*val)),
            Token::String(val) => Some(Expression::String(val.clone())),
            Token::True => Some(Expression::Boolean(true)),
            Token::False => Some(Expression::Boolean(false)),
            Token::Minus | Token::Illegal | Token::New => self.parse_prefix_expression(),
            Token::LParen => self.parse_grouped_expression(),
            Token::LBracket => self.parse_array_literal(),
            Token::LBrace => self.parse_hash_literal(),
            Token::When => self.parse_if_expression(),
            Token::While => self.parse_while_expression(),
            Token::Fn => self.parse_function_literal(),
            Token::Import => self.parse_import_expression(),
            _ => {
                let d = debug_token(&self.cur_token);
                self.record_error("No prefix parse function for ", d);
                None
            },
        }
    }

    /// The infix operators that follow `left` and bind more strongly than `precedence`.
    #[verifier::loop_isolation(false)]
    fn parse_infix_loop(&mut self, precedence: Precedence, left: Option<Expression>) -> (e: Option<Expression>)
        requires
            old(self).wf(),
        ensures
            final(self).wf(),
            final(self).source() == old(self).source(),
            final(self).state().k >= old(self).state().k,
            (opt_expr(e), final(self).state()) == p_infix_loop(old(self).source(), prec_rank(precedence), opt_expr(left), old(self).state()),
        decreases measure(old(self).source(), old(self).state().k), 26nat,
    {
        let ghost src = self.src@;
        let ghost left0 = opt_expr(left);
        let mut left = left;
        let p = precedence.rank();
        while !matches!(self.peek_token, Token::Eof) && p < token_precedence(&self.peek_token).rank()
            invariant
                self.wf(),
                self.source() == src,
                old(self).source() == src,
                self.state().k >= old(self).state().k,
                p == prec_rank(precedence),
                measure(src, self.k@) <= measure(src, old(self).state().k),
                p_infix_loop(src, prec_rank(precedence), left0, old(self).state()) == p_infix_loop(
                    src,
                    prec_rank(precedence),
                    opt_expr(left),
                    self.state(),
                ),
            decreases measure(src, self.k@),
        {
            let ghost k1 = self.k@;
            let ghost st1 = self.state();
            self.next_token();
            proof {
                lemma_measure_after_peek(src, k1, self.k@);
            }
            let l = match left {
                Some(l) => l,
                None => {
                    assert(p_infix_loop(src, prec_rank(precedence), None, st1) == (None::<SExpr>, crash(adv(st1))));
                    self.crashed = true;
                    return None;
                },
            };
            left = self.parse_infix_expression(l);
            proof {
                lemma_measure_mono(src, k1 + 1, self.k@);
            }
        }
        left
    }

    fn parse_prefix_expression(&mut self) -> (e: Option<Expression>)
        requires
            old(self).wf(),
        ensures
            final(self).wf(),
            final(self).source() == old(self).source(),
            final(self).state().k >= old(self).state().k,
            (opt_expr(e), final(self).state()) == p_prefix(old(self).source(), old(self).state()),
        decreases measure(old(self).source(), old(self).state().k), 25nat,
    {
        let ghost src = self.src@;
        let ghost k0 = self.k@;
        if matches!(self.cur_token, Token::Eof) {
            return None;
        }
        let operator = self.cur_token.copy();
        self.next_token();
        proof {
            lemma_measure_after(src, k0, self.k@);
        }
        let right = match self.parse_expression(Precedence::Prefix) {
            Some(r) => r,
            None => return None,
        };
        Some(Expression::Prefix { operator, right: Box::new(right) })
    }

    fn parse_infix_expression(&mut self, left: Expression) -> (e: Option<Expression>)
        requires
            old(self).wf(),
        ensures
            final(self).wf(),
            final(self).source() == old(self).source(),
            final(self).state().k >= old(self).state().k,
            (opt_expr(e), final(self).state()) == p_infix(old(self).source(), left@, old(self).state()),
        decreases measure(old(self).source(), old(self).state().k), 22nat,
    {
        let ghost src = self.src@;
        let ghost k0 = self.k@;
        let operator = self.cur_token.copy();
        let precedence = token_precedence(&self.cur_token);
        if matches!(operator, Token::LParen) {
            return self.parse_call_expression(left);
        } else if matches!(operator, Token::LBracket) {
            return self.parse_index_expression(left);
        } else if matches!(operator, Token::Dot) {
            return self.parse_member_expression(left);
        } else if matches!(operator, Token::Eof) {
            return None;
        }
        self.next_token();
        proof {
            lemma_measure_after(src, k0, self.k@);
        }
        let right = match self.parse_expression(precedence) {
            Some(r) => r,
            None => return None,
        };
        Some(Expression::Infix { left: Box::new(left), operator, right: Box::new(right) })
    }

    fn parse_grouped_expression(&mut self) -> (e: Option<Expression>)
        requires
            old(self).wf(),
        ensures
            final(self).wf(),
            final(self).source() == old(self).source(),
            final(self).state().k >= old(self).state().k,
            (opt_expr(e), final(self).state()) == p_grouped(old(self).source(), old(self).state()),
        decreases measure(old(self).source(), old(self).state().k), 25nat,
    {
        let ghost src = self.src@;
        let ghost k0 = self.k@;
        if matches!(self.cur_token, Token::Eof) {
            return None;
        }
        self.next_token();
        proof {
            lemma_measure_after(src, k0, self.k@);
        }
        let exp = self.parse_expression(Precedence::Lowest);
        if !matches!(self.peek_token, Token::RParen) {
            return None;
        }
        self.next_token();
        exp
    }

    fn parse_if_expression(&mut self) -> (e: Option<Expression>)
        requires
            old(self).wf(),
        ensures
            final(self).wf(),
            final(self).source() == old(self).source(),
            final(self).state().k >= old(self).state().k,
            (opt_expr(e), final(self).state()) == p_if(old(self).source(), old(self).state()),
        decreases measure(old(self).source(), old(self).state().k), 25nat,
    {
        let ghost src = self.src@;
        let ghost k0 = self.k@;
        if matches!(self.cur_token, Token::Eof) {
            return None;
        }
        self.next_token();
        proof {
            lemma_measure_after(src, k0, self.k@);
        }
        let condition = match self.parse_expression(Precedence::Lowest) {
            Some(c) => c,
            None => return None,
        };
        if !matches!(self.peek_token, Token::Colon) {
            return None;
        }
        self.next_token();
        self.next_token();
        proof {
            lemma_measure_after(src, k0, self.k@);
        }
        let ghost k3 = self.k@;
        let consequence = self.parse_block_statement();
        let mut alternative = None;
        if matches!(self.cur_token, Token::Otherwise) {
            if !matches!(self.peek_token, Token::Colon) {
                return None;
            }
            self.next_token();
            self.next_token();
            proof {
                lemma_measure_after(src, k0, self.k@);
            }
            let alt = self.parse_block_statement_inner();
            let block = Statement::Block(alt);
            assert(stmt_view(block) == SStmt::Block(stmts_view(alt@)));
            alternative = Some(Box::new(block));
        }
        let cons = Statement::Block(consequence);
        assert(stmt_view(cons) == SStmt::Block(stmts_view(consequence@)));
        Some(Expression::If { condition: Box::new(condition), consequence: Box::new(cons), alternative })
    }

    fn parse_block_statement(&mut self) -> (ss: Vec<Statement>)
        requires
            old(self).wf(),
        ensures
            final(self).wf(),
            final(self).source() == old(self).source(),
            final(self).state().k >= old(self).state().k,
            (stmts_view(ss@), final(self).state()) == p_block(old(self).source(), old(self).state(), Seq::empty()),
        decreases measure(old(self).source(), old(self).state().k), 31nat,
    {
        self.parse_block_statement_inner()
    }

    fn parse_block_statement_inner(&mut self) -> (ss: Vec<Statement>)
        requires
            old(self).wf(),
        ensures
            final(self).wf(),
            final(self).source() == old(self).source(),
            final(self).state().k >= old(self).state().k,
            (stmts_view(ss@), final(self).state()) == p_block(old(self).source(), old(self).state(), Seq::empty()),
        decreases measure(old(self).source(), old(self).state().k), 30nat,
    {
        let ghost src = self.src@;
        let mut statements: Vec<Statement> = Vec::new();
        assert(stmts_view(statements@) =~= Seq::<SStmt>::empty());
        while !matches!(self.cur_token, Token::Done) && !matches!(self.cur_token, Token::Otherwise) && !matches!(self.cur_token, Token::Eof)
            invariant
                self.wf(),
                self.source() == src,
                old(self).source() == src,
                self.state().k >= old(self).state().k,
                measure(src, self.k@) <= measure(src, old(self).state().k),
                p_block(src, old(self).state(), Seq::empty()) == p_block(src, self.state(), stmts_view(statements@)),
            decreases measure(src, self.k@),
        {
            let ghost k0 = self.k@;
            let s = self.parse_statement();
            match s {
                Some(st) => {
                    proof {
                        lemma_stmts_push(statements@, st);
                    }
                    statements.push(st);
                },
                None => {},
            }
            proof {
                lemma_measure_after(src, k0, self.k@ + 1);
            }
            self.next_token();
        }
        statements
    }

    fn parse_function_literal(&mut self) -> (e: Option<Expression>)
        requires
            old(self).wf(),
        ensures
            final(self).wf(),
            final(self).source() == old(self).source(),
            final(self).state().k >= old(self).state().k,
            (opt_expr(e), final(self).state()) == p_function(old(self).source(), old(self).state()),
        decreases measure(old(self).source(), old(self).state().k), 25nat,
    {
        let ghost src = self.src@;
        let ghost k0 = self.k@;
        if !matches!(self.peek_token, Token::LParen) || matches!(self.cur_token, Token::Eof) {
            return None;
        }
        self.next_token();
        let parameters = self.parse_function_parameters();
        if !matches!(self.peek_token, Token::Colon) {
            return None;
        }
        self.next_token();
        self.next_token();
        proof {
            lemma_measure_after(src, k0, self.k@);
        }
        let body = self.parse_block_statement();
        let block = Statement::Block(body);
        assert(stmt_view(block) == SStmt::Block(stmts_view(body@)));
        Some(Expression::Function { parameters, body: Box::new(block) })
    }

    fn parse_function_parameters(&mut self) -> (ids: Vec<String>)
        requires
            old(self).wf(),
        ensures
            final(self).wf(),
            final(self).source() == old(self).source(),
            final(self).state().k >= old(self).state().k,
            (strings_view(ids@), final(self).state()) == p_params(old(self).source(), old(self).state()),
    {
        let ghost src = self.src@;
        let mut identifiers: Vec<String> = Vec::new();
        assert(strings_view(identifiers@) =~= Seq::<Seq<char>>::empty());
        if matches!(self.peek_token, Token::RParen) {
            self.next_token();
            return identifiers;
        }
        if matches!(self.cur_token, Token::Eof) {
            return identifiers;
        }
        self.next_token();
        match &self.cur_token {
            Token::Ident(name) => {
                identifiers.push(name.clone());
                assert(strings_view(identifiers@) =~= seq![name@]);
            },
            _ => {},
        }
        while matches!(self.peek_token, Token::Comma)
            invariant
                self.wf(),
                self.source() == src,
                old(self).source() == src,
                self.state().k >= old(self).state().k,
                p_params(src, old(self).state()) == p_params_loop(src, strings_view(identifiers@), self.state()),
            decreases measure(src, self.k@),
        {
            let ghost k1 = self.k@;
            self.next_token();
            self.next_token();
            proof {
                lemma_measure_after_peek(src, k1, self.k@);
            }
            match &self.cur_token {
                Token::Ident(name) => {
                    let ghost before = identifiers@;
                    identifiers.push(name.clone());
                    assert(strings_view(identifiers@) =~= strings_view(before).push(name@));
                },
                _ => {},
            }
        }
        if !matches!(self.peek_token, Token::RParen) {
            return Vec::new();
        }
        self.next_token();
        identifiers
    }

    fn parse_call_expression(&mut self, function: Expression) -> (e: Option<Expression>)
        requires
            old(self).wf(),
        ensures
            final(self).wf(),
            final(self).source() == old(self).source(),
            final(self).state().k >= old(self).state().k,
            (opt_expr(e), final(self).state()) == p_call(old(self).source(), function@, old(self).state()),
        decreases measure(old(self).source(), old(self).state().k), 21nat,
    {
        let arguments = self.parse_call_arguments();
        Some(Expression::Call { function: Box::new(function), arguments })
    }

    fn parse_call_arguments(&mut self) -> (args: Vec<Expression>)
        requires
            old(self).wf(),
        ensures
            final(self).wf(),
            final(self).source() == old(self).source(),
            final(self).state().k >= old(self).state().k,
            (exprs_view(args@), final(self).state()) == p_list(old(self).source(), SToken::RParen, old(self).state()),
        decreases measure(old(self).source(), old(self).state().k), 20nat,
    {
        self.parse_expression_list(Token::RParen)
    }

    fn parse_array_literal(&mut self) -> (e: Option<Expression>)
        requires
            old(self).wf(),
        ensures
            final(self).wf(),
            final(self).source() == old(self).source(),
            final(self).state().k >= old(self).state().k,
            (opt_expr(e), final(self).state()) == p_array(old(self).source(), old(self).state()),
        decreases measure(old(self).source(), old(self).state().k), 25nat,
    {
        let elements = self.parse_expression_list(Token::RBracket);
        Some(Expression::ArrayLiteral(elements))
    }

    fn parse_expression_list(&mut self, end_token: Token) -> (list: Vec<Expression>)
        requires
            old(self).wf(),
        ensures
            final(self).wf(),
            final(self).source() == old(self).source(),
            final(self).state().k >= old(self).state().k,
            (exprs_view(list@), final(self).state()) == p_list(old(self).source(), end_token@, old(self).state()),
        decreases measure(old(self).source(), old(self).state().k), 19nat,
    {
        let ghost src = self.src@;
        let ghost k0 = self.k@;
        let mut list: Vec<Expression> = Vec::new();
        assert(exprs_view(list@) =~= Seq::<SExpr>::empty());
        if self.peek_token.same(&end_token) {
            self.next_token();
            return list;
        }
        if matches!(self.cur_token, Token::Eof) {
            return list;
        }
        self.next_token();
        proof {
            lemma_measure_after(src, k0, self.k@);
        }
        let ghost k1 = self.k@;
        match self.parse_expression(Precedence::Lowest) {
            Some(e) => {
                proof {
                    lemma_exprs_push(list@, e);
                }
                list.push(e);
            },
            None => {},
        }
        proof {
            lemma_measure_mono(src, k1, self.k@);
        }
        while matches!(self.peek_token, Token::Comma)
            invariant
                self.wf(),
                self.source() == src,
                old(self).source() == src,
                self.state().k >= old(self).state().k,
                k0 == old(self).state().k,
                measure(src, self.k@) < measure(src, k0),
                p_list(src, end_token@, old(self).state()) == p_list_loop(src, end_token@, exprs_view(list@), self.state()),
            decreases measure(src, self.k@),
        {
            let ghost k2 = self.k@;
            self.next_token();
            self.next_token();
            proof {
                lemma_measure_after_peek(src, k2, self.k@);
            }
            let ghost k3 = self.k@;
            match self.parse_expression(Precedence::Lowest) {
                Some(e) => {
                    proof {
                        lemma_exprs_push(list@, e);
                    }
                    list.push(e);
                },
                None => {},
            }
            proof {
                lemma_measure_mono(src, k3, self.k@);
            }
        }
        if !self.peek_token.same(&end_token) {
            return Vec::new();
        }
        self.next_token();
        list
    }

    fn parse_index_expression(&mut self, left: Expression) -> (e: Option<Expression>)
        requires
            old(self).wf(),
        ensures
            final(self).wf(),
            final(self).source() == old(self).source(),
            final(self).state().k >= old(self).state().k,
            (opt_expr(e), final(self).state()) == p_index(old(self).source(), left@, old(self).state()),
        decreases measure(old(self).source(), old(self).state().k), 21nat,
    {
        let ghost src = self.src@;
        let ghost k0 = self.k@;
        if matches!(self.cur_token, Token::Eof) {
            return None;
        }
        self.next_token();
        proof {
            lemma_measure_after(src, k0, self.k@);
        }
        let index = match self.parse_expression(Precedence::Lowest) {
            Some(i) => i,
            None => return None,
        };
        if !matches!(self.peek_token, Token::RBracket) {
            return None;
        }
        self.next_token();
        Some(Expression::IndexExpression { left: Box::new(left), index: Box::new(index) })
    }

    fn parse_hash_literal(&mut self) -> (e: Option<Expression>)
        requires
            old(self).wf(),
        ensures
            final(self).wf(),
            final(self).source() == old(self).source(),
            final(self).state().k >= old(self).state().k,
            (opt_expr(e), final(self).state()) == p_hash(old(self).source(), old(self).state()),
        decreases measure(old(self).source(), old(self).state().k), 25nat,
    {
        let ghost src = self.src@;
        let ghost k0 = self.k@;
        let mut pairs: Vec<(Expression, Expression)> = Vec::new();
        assert(pairs_view(pairs@) =~= Seq::<(SExpr, SExpr)>::empty());
        while !matches!(self.peek_token, Token::RBrace)
            invariant
                self.wf(),
                self.source() == src,
                old(self).source() == src,
                self.state().k >= old(self).state().k,
                k0 == old(self).state().k,
                measure(src, self.k@) <= measure(src, k0),
                p_hash(src, old(self).state()) == p_hash_loop(src, pairs_view(pairs@), self.state()),
            decreases measure(src, self.k@),
        {
            let ghost k1 = self.k@;
            if matches!(self.cur_token, Token::Eof) {
                return None;
            }
            self.next_token();
            proof {
                lemma_measure_after(src, k1, self.k@);
            }
            let key = match self.parse_expression(Precedence::Lowest) {
                Some(k) => k,
                None => return None,
            };
            if !matches!(self.peek_token, Token::Colon) {
                return None;
            }
            self.next_token();
            self.next_token();
            proof {
                lemma_measure_after(src, k1, self.k@);
            }
            let value = match self.parse_expression(Precedence::Lowest) {
                Some(v) => v,
                None => return None,
            };
            let ghost pk = (key@, value@);
            proof {
                lemma_pairs_push(pairs@, (key, value));
            }
            pairs.push((key, value));
            if !matches!(self.peek_token, Token::RBrace) && !matches!(self.peek_token, Token::Comma) {
                return None;
            }
            if matches!(self.peek_token, Token::Comma) {
                self.next_token();
            }
            proof {
                lemma_measure_after(src, k1, self.k@);
            }
        }
        self.next_token();
        Some(Expression::HashLiteral(pairs))
    }

    fn parse_while_expression(&mut self) -> (e: Option<Expression>)
        requires
            old(self).wf(),
        ensures
            final(self).wf(),
            final(self).source() == old(self).source(),
            final(self).state().k >= old(self).state().k,
            (opt_expr(e), final(self).state()) == p_while(old(self).source(), old(self).state()),
        decreases measure(old(self).source(), old(self).state().k), 25nat,
    {
        let ghost src = self.src@;
        let ghost k0 = self.k@;
        if matches!(self.cur_token, Token::Eof) {
            return None;
        }
        self.next_token();
        proof {
            lemma_measure_after(src, k0, self.k@);
        }
        let condition = match self.parse_expression(Precedence::Lowest) {
            Some(c) => c,
            None => return None,
        };
        if !matches!(self.peek_token, Token::Colon) {
            return None;
        }
        self.next_token();
        self.next_token();
        proof {
            lemma_measure_after(src, k0, self.k@);
        }
        let body = self.parse_block_statement();
        let block = Statement::Block(body);
        assert(stmt_view(block) == SStmt::Block(stmts_view(body@)));
        Some(Expression::WhileExpression { condition: Box::new(condition), body: Box::new(block) })
    }

    fn parse_import_expression(&mut self) -> (e: Option<Expression>)
        requires
            old(self).wf(),
        ensures
            final(self).wf(),
            final(self).source() == old(self).source(),
            final(self).state().k >= old(self).state().k,
            (opt_expr(e), final(self).state()) == p_import(old(self).source(), old(self).state()),
        decreases measure(old(self).source(), old(self).state().k), 25nat,
    {
        let ghost src = self.src@;
        let ghost k0 = self.k@;
        if matches!(self.cur_token, Token::Eof) {
            return None;
        }
        self.next_token();
        proof {
            lemma_measure_after(src, k0, self.k@);
        }
        let path = match self.parse_expression(Precedence::Lowest) {
            Some(p) => p,
            None => return None,
        };
        Some(Expression::ImportExpression(Box::new(path)))
    }

    fn parse_member_expression(&mut self, left: Expression) -> (e: Option<Expression>)
        requires
            old(self).wf(),
        ensures
            final(self).wf(),
            final(self).source() == old(self).source(),
            final(self).state().k >= old(self).state().k,
            (opt_expr(e), final(self).state()) == p_member(old(self).source(), left@, old(self).state()),
        decreases measure(old(self).source(), old(self).state().k), 21nat,
    {
        self.next_token();
        let property = match &self.cur_token {
            Token::Ident(name) => name.clone(),
            _ => {
                let d = debug_token(&self.cur_token);
                self.record_error("Expected identifier after dot, got ", d);
                return None;
            },
        };
        Some(Expression::MemberExpression { left: Box::new(left), property })
    }
}

/// What parsing the text of a file from its start gives: the statements and the parser's
/// final place.
pub open spec fn file_parse(text: Seq<char>) -> (Seq<SStmt>, PS) {
    p_program(Src { inp: text, p0: 0 }, PS { k: 0, errs: Seq::empty(), crashed: false }, Seq::empty())
}

/// The reply to a request to import a file, made from the file's text: the parsed program,
/// or the parse errors when there are any. There is none when parsing met an infix operator
/// with no expression before it, where parsing cannot go on.
pub fn module_reply(text: &str) -> (r: Option<HostReply>)
    requires
        text@.len() < usize::MAX,
    ensures
        r is None <==> file_parse(text@).1.crashed,
        r matches Some(rep) ==> rep@ == (if file_parse(text@).1.errs.len() == 0 {
            SReply::Module(file_parse(text@).0)
        } else {
            SReply::ModuleErrors(file_parse(text@).1.errs)
        }),
{
    let lexer = Lexer::new(text);
    let mut parser = Parser::new(lexer);
    let program = parser.parse_program();
    if parser.failed() {
        return None;
    }
    if parser.errors.len() == 0 {
        Some(HostReply::Module(program))
    } else {
        Some(HostReply::ModuleErrors(parser.errors))
    }
}

} // verus!
