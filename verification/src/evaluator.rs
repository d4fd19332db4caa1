use vstd::prelude::*;
use crate::ast::{Expression, Program, Statement, copy_strings, strings_view, exprs_view, pairs_view, stmts_view, lemma_exprs_view_index, lemma_pairs_view_index, lemma_stmts_view_index};
use crate::environment::{EnvHeap, Environment, bare_frame, frame_set, heap_lookup, heap_set};
use crate::host::{HostReply, HostRequest, SReply, replies_view};
use crate::object::{Builtin, HashKey, HashPairs, Object, SObject, obj_view, objs_view, spec_hash_key, hash_get, hash_insert, display, lemma_objs_view_index, push_decimal};
use crate::semantics::{SFlow, SState, truthy, prefix_op, int_infix, infix_op, index_op, ident_value, debug_token, debug_expression, debug_strings, stops, leaves_block, unwrap_return, member_value, bind, ev_expr, ev_prefix, ev_infix, ev_index, ev_if, ev_list, ev_hash, ev_while, ev_import, ev_member, ev_call, apply, ev_stmt, ev_let, ev_class, ev_block, ev_program, empty_frame, with_builtins};
use crate::builtins::{call_builtin, inject_builtins};
use crate::object::lemma_objs_view_push;
use crate::token::Token;
use crate::debug::debug_text;

verus! {

/// How an evaluation ended: with a value (an error value among them), with a request for
/// outside work that the reply log does not answer yet, with a crash (an arithmetic overflow,
/// which is fatal), or with no fuel left.
#[derive(Debug, PartialEq)]
pub enum Outcome {
    Value(Object),
    Request(HostRequest),
    Crash(String),
    OutOfFuel,
}

impl View for Outcome {
    type V = SFlow;

    open spec fn view(&self) -> SFlow {
        match self {
            Outcome::Value(o) => SFlow::Val(o@),
            Outcome::Request(r) => SFlow::Req(r@),
            Outcome::Crash(s) => SFlow::Crash(s@),
            Outcome::OutOfFuel => SFlow::Fuel,
        }
    }
}

/// The state of a running program: its scopes, and how many replies of the log it has used.
pub struct Machine {
    pub heap: EnvHeap,
    pub used: usize,
}

impl View for Machine {
    type V = SState;

    open spec fn view(&self) -> SState {
        SState { heap: self.heap@, used: self.used as nat }
    }
}

impl Machine {
    /// A machine with no scopes that has used no replies.
    pub fn new() -> (m: Machine)
        ensures
            m@.heap == Seq::<crate::environment::SFrame>::empty(),
            m@.used == 0,
    {
        Machine { heap: EnvHeap::new(), used: 0 }
    }

    /// A copy of the machine, to run a program again from the same state.
    pub fn copy(&self) -> (res: Machine)
        ensures
            res@ == self@,
    {
        Machine { heap: self.heap.copy(), used: self.used }
    }
}

/// The values of the reply log.
pub open spec fn log(replies: &Vec<HostReply>) -> Seq<SReply> {
    replies_view(replies@)
}

/// Whether a value is an error.
pub fn is_error(obj: &Object) -> (r: bool)
    ensures
        r == (obj@ is Error),
{
    match obj {
        Object::Error(_) => true,
        _ => false,
    }
}

/// Whether a value counts as true in a condition.
pub fn is_truthy(obj: &Object) -> (r: bool)
    ensures
        r == truthy(obj@),
{
    match obj {
        Object::Null => false,
        Object::Boolean(b) => *b,
        _ => true,
    }
}

/// An error value whose message is `prefix` followed by `rest`.
fn error_with(prefix: &str, rest: &str) -> (o: Object)
    ensures
        o@ == SObject::Error(prefix@ + rest@),
{
    let mut s = String::from_str(prefix);
    s.append(rest);
    Object::Error(s)
}

/// An error value with this message.
fn error_of(msg: &str) -> (o: Object)
    ensures
        o@ == SObject::Error(msg@),
{
    Object::Error(String::from_str(msg))
}

/// The value of `-right`.
pub fn eval_minus_prefix_operator_expression(right: Object, heap: &EnvHeap) -> (out: Outcome)
    ensures
        out@ == prefix_op(heap@, crate::token::SToken::Minus, right@),
{
    match right {
        Object::Integer(v) => {
            if v == i64::MIN {
                Outcome::Crash(String::from_str("attempt to negate with overflow"))
            } else {
                Outcome::Value(Object::Integer(-v))
            }
        },
        _ => {
            let d = debug_text(heap, &right);
            Outcome::Value(error_with("Unknown operator: -", d.as_str()))
        },
    }
}

/// The value of `operator right`.
pub fn eval_prefix_expression(operator: &Token, right: Object, heap: &EnvHeap) -> (out: Outcome)
    ensures
        out@ == prefix_op(heap@, operator@, right@),
{
    match operator {
        Token::Minus => eval_minus_prefix_operator_expression(right, heap),
        Token::New => {
            match right {
                Object::Instance { .. } => Outcome::Value(right),
                _ => {
                    let d = debug_text(heap, &right);
                    Outcome::Value(
                        error_with("'new' can only be used with class instantiation, got ", d.as_str()),
                    )
                },
            }
        },
        _ => {
            let d = debug_token(operator);
            Outcome::Value(error_with("Unknown prefix operator: ", d.as_str()))
        },
    }
}

/// The value of an operator applied to two integers.
pub fn eval_integer_infix_expression(operator: &Token, left: i64, right: i64) -> (out: Outcome)
    ensures
        out@ == int_infix(operator@, left, right),
{
    match operator {
        Token::Plus => match left.checked_add(right) {
            Some(v) => Outcome::Value(Object::Integer(v)),
            None => Outcome::Crash(String::from_str("attempt to add with overflow")),
        },
        Token::Minus => match left.checked_sub(right) {
            Some(v) => Outcome::Value(Object::Integer(v)),
            None => Outcome::Crash(String::from_str("attempt to subtract with overflow")),
        },
        Token::Asterisk => match left.checked_mul(right) {
            Some(v) => Outcome::Value(Object::Integer(v)),
            None => Outcome::Crash(String::from_str("attempt to multiply with overflow")),
        },
        Token::Slash => {
            if right == 0 {
                Outcome::Value(error_of("Division by zero"))
            } else {
                match left.checked_div(right) {
                    Some(v) => Outcome::Value(Object::Integer(v)),
                    None => Outcome::Crash(String::from_str("attempt to divide with overflow")),
                }
            }
        },
        Token::Lt => Outcome::Value(Object::Boolean(left < right)),
        Token::Gt => Outcome::Value(Object::Boolean(left > right)),
        Token::Eq => Outcome::Value(Object::Boolean(left == right)),
        Token::NotEq => Outcome::Value(Object::Boolean(left != right)),
        _ => {
            let d = debug_token(operator);
            Outcome::Value(error_with("Unknown integer operator: ", d.as_str()))
        },
    }
}

/// The value of an infix operator applied to two values.
pub fn eval_infix_expression(operator: &Token, left: Object, right: Object, heap: &EnvHeap) -> (out: Outcome)
    ensures
        out@ == infix_op(heap@, operator@, left@, right@),
{
    match (&left, &right) {
        (Object::Integer(a), Object::Integer(b)) => eval_integer_infix_expression(operator, *a, *b),
        (Object::Boolean(a), Object::Boolean(b)) => match operator {
            Token::Eq => Outcome::Value(Object::Boolean(*a == *b)),
            Token::NotEq => Outcome::Value(Object::Boolean(*a != *b)),
            _ => {
                let mut s = String::from_str("Unknown operator: ");
                let d = debug_token(operator);
                s.append(d.as_str());
                s.append(" for booleans");
                Outcome::Value(Object::Error(s))
            },
        },
        (Object::String(a), Object::String(b)) => match operator {
            Token::Plus => {
                let mut s = a.clone();
                s.append(b.as_str());
                Outcome::Value(Object::String(s))
            },
            Token::Eq => Outcome::Value(Object::Boolean(a.eq(b))),
            Token::NotEq => Outcome::Value(Object::Boolean(!a.eq(b))),
            _ => {
                let mut s = String::from_str("Unknown operator: ");
                let d = debug_token(operator);
                s.append(d.as_str());
                s.append(" for strings");
                Outcome::Value(Object::Error(s))
            },
        },
        _ => {
            let mut s = String::from_str("Type mismatch: ");
            let dl = debug_text(heap, &left);
            let dr = debug_text(heap, &right);
            s.append(dl.as_str());
            s.append(" and ");
            s.append(dr.as_str());
            Outcome::Value(Object::Error(s))
        },
    }
}

/// The value of `left[index]`.
pub fn eval_index_expression(left: Object, index: Object, heap: &EnvHeap) -> (out: Object)
    ensures
        out@ == index_op(heap@, left@, index@),
{
    match (&left, &index) {
        (Object::Array(elements), Object::Integer(i)) => {
            proof {
                lemma_objs_view_index(elements@);
            }
            if *i < 0 || (*i as u64) >= (elements.len() as u64) {
                Object::Null
            } else {
                elements[*i as usize].copy()
            }
        },
        (Object::Hash(pairs), _) => match index.get_hash_key(heap) {
            Err(msg) => Object::Error(msg),
            Ok(hk) => match pairs.get(&hk) {
                Some(v) => v.copy(),
                None => Object::Null,
            },
        },
        _ => {
            let mut s = String::from_str("Index operator not supported: ");
            let dl = debug_text(heap, &left);
            let di = debug_text(heap, &index);
            s.append(dl.as_str());
            s.append(" [");
            s.append(di.as_str());
            s.append("]");
            Object::Error(s)
        },
    }
}

/// The value a name has in scope `env`, or an error.
pub fn eval_identifier(name: &String, env: usize, heap: &EnvHeap) -> (out: Object)
    ensures
        out@ == ident_value(heap@, env as nat, name@),
{
    match heap.lookup(env, name) {
        Some(v) => v,
        None => error_with("Identifier not found: ", name.as_str()),
    }
}


/// The value an evaluation gave, or the outcome that ends the enclosing expression.
fn value_of(out: Outcome) -> (r: Result<Object, Outcome>)
    ensures
        match r {
            Ok(v) => !stops(out@) && out@ == SFlow::Val(v@),
            Err(o) => stops(out@) && o@ == out@,
        },
{
    match out {
        Outcome::Value(v) => {
            if is_error(&v) {
                Err(Outcome::Value(v))
            } else {
                Ok(v)
            }
        },
        other => Err(other),
    }
}

/// The value of `property` on a module or an instance.
fn member_lookup(heap: &EnvHeap, lv: Object, prop: &String) -> (out: Outcome)
    ensures
        out@ == member_value(heap@, lv@, prop@),
{
    match &lv {
        Object::Module(md) => match heap.lookup(*md, prop) {
            Some(v) => Outcome::Value(v),
            None => {
                let mut s = String::from_str("Module has no property '");
                s.append(prop.as_str());
                s.append("'");
                Outcome::Value(Object::Error(s))
            },
        },
        Object::Instance { class_env, instance_env, .. } => match heap.lookup(*instance_env, prop) {
            Some(v) => Outcome::Value(v),
            None => match heap.lookup(*class_env, prop) {
                Some(v) => match v {
                    Object::Function { .. } => Outcome::Value(
                        Object::BoundMethod { instance: Box::new(lv.copy()), method: Box::new(v) },
                    ),
                    _ => Outcome::Value(v),
                },
                None => {
                    let mut s = String::from_str("Instance has no property '");
                    s.append(prop.as_str());
                    s.append("'");
                    Outcome::Value(Object::Error(s))
                },
            },
        },
        _ => {
            let mut s = String::from_str("Cannot access property '");
            s.append(prop.as_str());
            s.append("' on ");
            let d = debug_text(heap, &lv);
            s.append(d.as_str());
            Outcome::Value(Object::Error(s))
        },
    }
}

/// Evaluates an expression in scope `env`, with `fuel` steps at most.
pub fn eval_expression_bounded(fuel: u64, e: &Expression, env: usize, m: &mut Machine, replies: &Vec<HostReply>) -> (out: Outcome)
    requires
        old(m).used <= replies@.len(),
    ensures
        final(m).used <= replies@.len(),
        (out@, final(m)@) == ev_expr(fuel as nat, e@, env as nat, log(replies), old(m)@),
    decreases fuel, 0nat,
{
    if fuel == 0 {
        return Outcome::OutOfFuel;
    }
    let g: u64 = fuel - 1;
    match e {
        Expression::Identifier(n) => Outcome::Value(eval_identifier(n, env, &m.heap)),
        Expression::Integer(v) => Outcome::Value(Object::Integer(*v)),
        Expression::String(s) => Outcome::Value(Object::String(s.clone())),
        Expression::Boolean(b) => Outcome::Value(Object::Boolean(*b)),
        Expression::Prefix { operator, right } => eval_prefix_node(g, operator, right, env, m, replies),
        Expression::Infix { left, operator, right } => eval_infix_node(g, left, operator, right, env, m, replies),
        Expression::If { condition, consequence, alternative } => eval_if_node(
            g,
            condition,
            consequence,
            alternative,
            env,
            m,
            replies,
        ),
        Expression::Function { parameters, body } => Outcome::Value(
            Object::Function { parameters: copy_strings(parameters), body: Box::new(body.copy()) },
        ),
        Expression::Call { function, arguments } => eval_call_node(g, function, arguments, env, m, replies),
        Expression::ArrayLiteral(es) => match eval_list(g, es, env, m, replies) {
            Ok(vals) => Outcome::Value(Object::Array(vals)),
            Err(fl) => fl,
        },
        Expression::IndexExpression { left, index } => eval_index_node(g, left, index, env, m, replies),
        Expression::HashLiteral(ps) => eval_hash(g, ps, env, m, replies),
        Expression::WhileExpression { condition, body } => eval_while(g, condition, body, env, m, replies),
        Expression::ImportExpression(p) => eval_import_node(g, p, env, m, replies),
        Expression::MemberExpression { left, property } => eval_member_node(g, left, property, env, m, replies),
        Expression::Dummy => Outcome::Value(error_of("Parsed dummy expression")),
    }
}

fn eval_prefix_node(f: u64, operator: &Token, right: &Expression, env: usize, m: &mut Machine, replies: &Vec<HostReply>) -> (out: Outcome)
    requires
        old(m).used <= replies@.len(),
    ensures
        final(m).used <= replies@.len(),
        (out@, final(m)@) == ev_prefix(f as nat, operator@, right@, env as nat, log(replies), old(m)@),
    decreases f, 1nat,
{
    let v = match value_of(eval_expression_bounded(f, right, env, m, replies)) {
        Ok(v) => v,
        Err(o) => return o,
    };
    eval_prefix_expression(operator, v, &m.heap)
}

fn eval_infix_node(f: u64, left: &Expression, operator: &Token, right: &Expression, env: usize, m: &mut Machine, replies: &Vec<HostReply>) -> (out: Outcome)
    requires
        old(m).used <= replies@.len(),
    ensures
        final(m).used <= replies@.len(),
        (out@, final(m)@) == ev_infix(f as nat, left@, operator@, right@, env as nat, log(replies), old(m)@),
    decreases f, 1nat,
{
    let l = match value_of(eval_expression_bounded(f, left, env, m, replies)) {
        Ok(v) => v,
        Err(o) => return o,
    };
    let r = match value_of(eval_expression_bounded(f, right, env, m, replies)) {
        Ok(v) => v,
        Err(o) => return o,
    };
    eval_infix_expression(operator, l, r, &m.heap)
}

fn eval_index_node(f: u64, left: &Expression, index: &Expression, env: usize, m: &mut Machine, replies: &Vec<HostReply>) -> (out: Outcome)
    requires
        old(m).used <= replies@.len(),
    ensures
        final(m).used <= replies@.len(),
        (out@, final(m)@) == ev_index(f as nat, left@, index@, env as nat, log(replies), old(m)@),
    decreases f, 1nat,
{
    let l = match value_of(eval_expression_bounded(f, left, env, m, replies)) {
        Ok(v) => v,
        Err(o) => return o,
    };
    let i = match value_of(eval_expression_bounded(f, index, env, m, replies)) {
        Ok(v) => v,
        Err(o) => return o,
    };
    Outcome::Value(eval_index_expression(l, i, &m.heap))
}

fn eval_if_node(f: u64, condition: &Expression, consequence: &Statement, alternative: &Option<Box<Statement>>, env: usize, m: &mut Machine, replies: &Vec<HostReply>) -> (out: Outcome)
    requires
        old(m).used <= replies@.len(),
    ensures
        final(m).used <= replies@.len(),
        (out@, final(m)@) == ev_if(
            f as nat,
            condition@,
            consequence@,
            match alternative {
                Some(a) => Some(Box::new(a@)),
                None => None,
            },
            env as nat,
            log(replies),
            old(m)@,
        ),
    decreases f, 1nat,
{
    let c = match value_of(eval_expression_bounded(f, condition, env, m, replies)) {
        Ok(v) => v,
        Err(o) => return o,
    };
    if is_truthy(&c) {
        eval_statement_bounded(f, consequence, env, m, replies)
    } else {
        match alternative {
            Some(a) => eval_statement_bounded(f, a, env, m, replies),
            None => Outcome::Value(Object::Null),
        }
    }
}

/// Evaluates the expressions of a list, left to right.
fn eval_list(fuel: u64, es: &Vec<Expression>, env: usize, m: &mut Machine, replies: &Vec<HostReply>) -> (r: Result<Vec<Object>, Outcome>)
    requires
        old(m).used <= replies@.len(),
    ensures
        final(m).used <= replies@.len(),
        (match r {
            Ok(v) => Ok(objs_view(v@)),
            Err(o) => Err(o@),
        }, final(m)@) == ev_list(fuel as nat, exprs_view(es@), 0, Seq::empty(), env as nat, log(replies), old(m)@),
    decreases fuel, 0nat,
{
    proof {
        lemma_exprs_view_index(es@);
    }
    let ghost esv = exprs_view(es@);
    let mut acc: Vec<Object> = Vec::new();
    let mut i: usize = 0;
    let mut f: u64 = fuel;
    assert(objs_view(acc@) =~= Seq::<SObject>::empty());
    while i < es.len()
        invariant
            i <= es@.len(),
            f <= fuel,
            m.used <= replies@.len(),
            esv == exprs_view(es@),
            esv.len() == es@.len(),
            forall|j: int| 0 <= j < es@.len() ==> #[trigger] esv[j] == es@[j]@,
            ev_list(fuel as nat, esv, 0, Seq::empty(), env as nat, log(replies), old(m)@) == ev_list(
                f as nat,
                esv,
                i as nat,
                objs_view(acc@),
                env as nat,
                log(replies),
                m@,
            ),
        decreases es@.len() - i,
    {
        if f == 0 {
            return Err(Outcome::OutOfFuel);
        }
        let out = eval_expression_bounded(f - 1, &es[i], env, m, replies);
        let v = match value_of(out) {
            Ok(v) => v,
            Err(o) => return Err(o),
        };
        proof {
            lemma_objs_view_push(acc@, v);
        }
        acc.push(v);
        i = i + 1;
        f = f - 1;
    }
    Ok(acc)
}

/// Evaluates the pairs of a hash literal, key before value, in order.
fn eval_hash(fuel: u64, ps: &Vec<(Expression, Expression)>, env: usize, m: &mut Machine, replies: &Vec<HostReply>) -> (out: Outcome)
    requires
        old(m).used <= replies@.len(),
    ensures
        final(m).used <= replies@.len(),
        (out@, final(m)@) == ev_hash(fuel as nat, pairs_view(ps@), 0, Seq::empty(), env as nat, log(replies), old(m)@),
    decreases fuel, 0nat,
{
    proof {
        lemma_pairs_view_index(ps@);
    }
    let ghost psv = pairs_view(ps@);
    let mut acc = HashPairs::new();
    let mut i: usize = 0;
    let mut f: u64 = fuel;
    while i < ps.len()
        invariant
            i <= ps@.len(),
            f <= fuel,
            m.used <= replies@.len(),
            psv == pairs_view(ps@),
            psv.len() == ps@.len(),
            forall|j: int| 0 <= j < ps@.len() ==> #[trigger] psv[j] == (ps@[j].0@, ps@[j].1@),
            ev_hash(fuel as nat, psv, 0, Seq::empty(), env as nat, log(replies), old(m)@) == ev_hash(
                f as nat,
                psv,
                i as nat,
                acc@,
                env as nat,
                log(replies),
                m@,
            ),
        decreases ps@.len() - i,
    {
        if f == 0 {
            return Outcome::OutOfFuel;
        }
        let k = match value_of(eval_expression_bounded(f - 1, &ps[i].0, env, m, replies)) {
            Ok(v) => v,
            Err(o) => return o,
        };
        let hk = match k.get_hash_key(&m.heap) {
            Ok(hk) => hk,
            Err(msg) => return Outcome::Value(Object::Error(msg)),
        };
        let v = match value_of(eval_expression_bounded(f - 1, &ps[i].1, env, m, replies)) {
            Ok(v) => v,
            Err(o) => return o,
        };
        acc.insert(hk, v);
        i = i + 1;
        f = f - 1;
    }
    Outcome::Value(Object::Hash(acc))
}

/// Runs a `while` loop.
fn eval_while(fuel: u64, condition: &Expression, body: &Statement, env: usize, m: &mut Machine, replies: &Vec<HostReply>) -> (out: Outcome)
    requires
        old(m).used <= replies@.len(),
    ensures
        final(m).used <= replies@.len(),
        (out@, final(m)@) == ev_while(fuel as nat, condition@, body@, env as nat, log(replies), old(m)@),
    decreases fuel, 0nat,
{
    let mut f: u64 = fuel;
    while f > 0
        invariant
            f <= fuel,
            m.used <= replies@.len(),
            ev_while(fuel as nat, condition@, body@, env as nat, log(replies), old(m)@) == ev_while(
                f as nat,
                condition@,
                body@,
                env as nat,
                log(replies),
                m@,
            ),
        decreases f,
    {
        let c = match value_of(eval_expression_bounded(f - 1, condition, env, m, replies)) {
            Ok(v) => v,
            Err(o) => return o,
        };
        if !is_truthy(&c) {
            return Outcome::Value(Object::Null);
        }
        let r = eval_statement_bounded(f - 1, body, env, m, replies);
        match &r {
            Outcome::Value(Object::ReturnValue(_)) => return r,
            Outcome::Value(Object::Error(_)) => return r,
            Outcome::Value(_) => {},
            _ => return r,
        }
        f = f - 1;
    }
    Outcome::OutOfFuel
}

fn eval_import_node(f: u64, path: &Expression, env: usize, m: &mut Machine, replies: &Vec<HostReply>) -> (out: Outcome)
    requires
        old(m).used <= replies@.len(),
    ensures
        final(m).used <= replies@.len(),
        (out@, final(m)@) == ev_import(f as nat, path@, env as nat, log(replies), old(m)@),
    decreases f, 1nat,
{
    let p = match value_of(eval_expression_bounded(f, path, env, m, replies)) {
        Ok(v) => v,
        Err(o) => return o,
    };
    match p {
        Object::String(fname) => {
            if m.used >= replies.len() {
                return Outcome::Request(HostRequest::Import(fname));
            }
            let r = &replies[m.used];
            m.used = m.used + 1;
            match r {
                HostReply::Module(prog) => {
                    if m.heap.len() >= usize::MAX {
                        return Outcome::Crash(String::from_str("no room for another scope"));
                    }
                    let id: usize = m.heap.add(Environment::new());
                    inject_builtins(&mut m.heap, id);
                    let res = run_program(f, &prog.statements, id, m, replies);
                    match res {
                        Outcome::Value(v) => {
                            if is_error(&v) {
                                Outcome::Value(v)
                            } else {
                                Outcome::Value(Object::Module(id))
                            }
                        },
                        other => other,
                    }
                },
                HostReply::ModuleErrors(errs) => {
                    let mut s = String::from_str("Failed to parse imported file '");
                    s.append(fname.as_str());
                    s.append("': ");
                    let d = debug_strings(errs);
                    s.append(d.as_str());
                    Outcome::Value(Object::Error(s))
                },
                _ => {
                    let mut s = String::from_str("Failed to read imported file '");
                    s.append(fname.as_str());
                    s.append("': ");
                    match r {
                        HostReply::Failure(e) => s.append(e.as_str()),
                        _ => {},
                    }
                    Outcome::Value(Object::Error(s))
                },
            }
        },
        other => {
            let d = debug_text(&m.heap, &other);
            Outcome::Value(error_with("Import path must be a string, got ", d.as_str()))
        },
    }
}

fn eval_member_node(f: u64, left: &Expression, property: &String, env: usize, m: &mut Machine, replies: &Vec<HostReply>) -> (out: Outcome)
    requires
        old(m).used <= replies@.len(),
    ensures
        final(m).used <= replies@.len(),
        (out@, final(m)@) == ev_member(f as nat, left@, property@, env as nat, log(replies), old(m)@),
    decreases f, 1nat,
{
    let l = match value_of(eval_expression_bounded(f, left, env, m, replies)) {
        Ok(v) => v,
        Err(o) => return o,
    };
    member_lookup(&m.heap, l, property)
}

fn eval_call_node(f: u64, function: &Expression, arguments: &Vec<Expression>, env: usize, m: &mut Machine, replies: &Vec<HostReply>) -> (out: Outcome)
    requires
        old(m).used <= replies@.len(),
    ensures
        final(m).used <= replies@.len(),
        (out@, final(m)@) == ev_call(f as nat, function@, exprs_view(arguments@), env as nat, log(replies), old(m)@),
    decreases f, 1nat,
{
    let fv = match value_of(eval_expression_bounded(f, function, env, m, replies)) {
        Ok(v) => v,
        Err(o) => return o,
    };
    let args = match eval_list(f, arguments, env, m, replies) {
        Ok(a) => a,
        Err(o) => return o,
    };
    apply_function(f, fv, args, env, m, replies)
}

/// Binds each parameter to the argument at its position, where there is one.
fn bind_parameters(frame: &mut Environment, parameters: &Vec<String>, args: &Vec<Object>)
    ensures
        final(frame)@ == bind(old(frame)@, strings_view(parameters@), objs_view(args@), 0),
{
    proof {
        lemma_objs_view_index(args@);
    }
    let ghost ps = strings_view(parameters@);
    let ghost avs = objs_view(args@);
    let mut i: usize = 0;
    while i < parameters.len()
        invariant
            i <= parameters@.len(),
            ps == strings_view(parameters@),
            avs == objs_view(args@),
            avs.len() == args@.len(),
            forall|j: int| 0 <= j < args@.len() ==> #[trigger] avs[j] == args@[j]@,
            bind(old(frame)@, ps, avs, 0) == bind(frame@, ps, avs, i as nat),
        decreases parameters@.len() - i,
    {
        if i < args.len() {
            frame.set(parameters[i].clone(), args[i].copy());
        }
        i = i + 1;
    }
}

/// Calls a function value on evaluated arguments: a function body runs in a new scope inside
/// the caller's scope `env`; a bound method also binds `self`; a builtin does its work; a
/// class makes a new instance.
pub fn apply_function(fuel: u64, function: Object, args: Vec<Object>, env: usize, m: &mut Machine, replies: &Vec<HostReply>) -> (out: Outcome)
    requires
        old(m).used <= replies@.len(),
    ensures
        final(m).used <= replies@.len(),
        (out@, final(m)@) == apply(fuel as nat, function@, objs_view(args@), env as nat, log(replies), old(m)@),
    decreases fuel, 0nat,
{
    if fuel == 0 {
        return Outcome::OutOfFuel;
    }
    let g: u64 = fuel - 1;
    let ghost fv = function@;
    match function {
        Object::Function { parameters, body } => {
            let mut frame = Environment::new_enclosed(env);
            bind_parameters(&mut frame, &parameters, &args);
            if m.heap.len() >= usize::MAX {
                return Outcome::Crash(String::from_str("no room for another scope"));
            }
            let id: usize = m.heap.add(frame);
            let r = eval_statement_bounded(g, &body, id, m, replies);
            match r {
                Outcome::Value(Object::ReturnValue(v)) => Outcome::Value(*v),
                other => other,
            }
        },
        Object::BoundMethod { instance, method } => {
            let ghost mv = method@;
            match *method {
                Object::Function { parameters, body } => {
                    assert(mv == SObject::Function { parameters: strings_view(parameters@), body: body@ });
                    assert(fv == SObject::BoundMethod { instance: Box::new(instance@), method: Box::new(mv) });
                    let mut frame = Environment::new_enclosed(env);
                    let ghost inst = instance@;
                    frame.set(String::from_str("self"), *instance);
                    assert(frame@ == frame_set(bare_frame(Some(env as nat)), "self"@, inst));
                    bind_parameters(&mut frame, &parameters, &args);
                    if m.heap.len() >= usize::MAX {
                        return Outcome::Crash(String::from_str("no room for another scope"));
                    }
                    let id: usize = m.heap.add(frame);
                    let r = eval_statement_bounded(g, &body, id, m, replies);
                    match r {
                        Outcome::Value(Object::ReturnValue(v)) => Outcome::Value(*v),
                        other => other,
                    }
                },
                other => {
                    let d = debug_text(&m.heap, &other);
                    Outcome::Value(error_with("Bound method is not a function: ", d.as_str()))
                },
            }
        },
        Object::Builtin(b) => call_builtin(b, args, m, replies),
        Object::Class { name, environment } => {
            if m.heap.len() >= usize::MAX {
                return Outcome::Crash(String::from_str("no room for another scope"));
            }
            let e = Environment::new();
            assert(e@ == empty_frame());
            let id: usize = m.heap.add(e);
            Outcome::Value(Object::Instance { class_name: name, class_env: environment, instance_env: id })
        },
        other => {
            let d = debug_text(&m.heap, &other);
            Outcome::Value(error_with("Not a function or class: ", d.as_str()))
        },
    }
}

/// Evaluates a statement in scope `env`, with `fuel` steps at most.
pub fn eval_statement_bounded(fuel: u64, statement: &Statement, env: usize, m: &mut Machine, replies: &Vec<HostReply>) -> (out: Outcome)
    requires
        old(m).used <= replies@.len(),
    ensures
        final(m).used <= replies@.len(),
        (out@, final(m)@) == ev_stmt(fuel as nat, statement@, env as nat, log(replies), old(m)@),
    decreases fuel, 0nat,
{
    if fuel == 0 {
        return Outcome::OutOfFuel;
    }
    let g: u64 = fuel - 1;
    match statement {
        Statement::Expression(e) => eval_expression_bounded(g, e, env, m, replies),
        Statement::Return(e) => {
            let v = match value_of(eval_expression_bounded(g, e, env, m, replies)) {
                Ok(v) => v,
                Err(o) => return o,
            };
            Outcome::Value(Object::ReturnValue(Box::new(v)))
        },
        Statement::Let { name, value } => eval_let_node(g, name, value, env, m, replies),
        Statement::Block(ss) => run_block(g, ss, env, m, replies),
        Statement::ClassStatement { name, body } => eval_class_node(g, name, body, env, m, replies),
    }
}

fn eval_let_node(f: u64, name: &Expression, value: &Expression, env: usize, m: &mut Machine, replies: &Vec<HostReply>) -> (out: Outcome)
    requires
        old(m).used <= replies@.len(),
    ensures
        final(m).used <= replies@.len(),
        (out@, final(m)@) == ev_let(f as nat, name@, value@, env as nat, log(replies), old(m)@),
    decreases f, 1nat,
{
    let v = match value_of(eval_expression_bounded(f, value, env, m, replies)) {
        Ok(v) => v,
        Err(o) => return o,
    };
    match name {
        Expression::Identifier(id) => {
            m.heap.set(env, id.clone(), v);
            Outcome::Value(Object::Null)
        },
        Expression::MemberExpression { left, property } => {
            let lo = eval_expression_bounded(f, left, env, m, replies);
            match lo {
                Outcome::Value(obj) => match obj {
                    Object::Instance { instance_env, .. } => {
                        m.heap.set(instance_env, property.clone(), v);
                        Outcome::Value(Object::Null)
                    },
                    other => {
                        let d = debug_text(&m.heap, &other);
                        Outcome::Value(error_with("Cannot assign property to ", d.as_str()))
                    },
                },
                other => other,
            }
        },
        _ => {
            let d = debug_expression(name);
            Outcome::Value(error_with("Invalid left-hand side of let statement: ", d.as_str()))
        },
    }
}

fn eval_class_node(f: u64, name: &String, body: &Statement, env: usize, m: &mut Machine, replies: &Vec<HostReply>) -> (out: Outcome)
    requires
        old(m).used <= replies@.len(),
    ensures
        final(m).used <= replies@.len(),
        (out@, final(m)@) == ev_class(f as nat, name@, body@, env as nat, log(replies), old(m)@),
    decreases f, 1nat,
{
    if m.heap.len() >= usize::MAX {
        return Outcome::Crash(String::from_str("no room for another scope"));
    }
    let e = Environment::new();
    assert(e@ == empty_frame());
    let id: usize = m.heap.add(e);
    let r = eval_statement_bounded(f, body, id, m, replies);
    match r {
        Outcome::Value(_) => {
            let cls = Object::Class { name: name.clone(), environment: id };
            m.heap.set(env, name.clone(), cls.copy());
            Outcome::Value(cls)
        },
        other => other,
    }
}

/// Evaluates the statements of a block in order; a `return` or an error ends the block and is
/// handed on as it is.
fn run_block(fuel: u64, ss: &Vec<Statement>, env: usize, m: &mut Machine, replies: &Vec<HostReply>) -> (out: Outcome)
    requires
        old(m).used <= replies@.len(),
    ensures
        final(m).used <= replies@.len(),
        (out@, final(m)@) == ev_block(fuel as nat, stmts_view(ss@), 0, SObject::Null, env as nat, log(replies), old(m)@),
    decreases fuel, 0nat,
{
    proof {
        lemma_stmts_view_index(ss@);
    }
    let ghost ssv = stmts_view(ss@);
    let mut last = Object::Null;
    let mut i: usize = 0;
    let mut f: u64 = fuel;
    while i < ss.len()
        invariant
            i <= ss@.len(),
            f <= fuel,
            m.used <= replies@.len(),
            ssv == stmts_view(ss@),
            ssv.len() == ss@.len(),
            forall|j: int| 0 <= j < ss@.len() ==> #[trigger] ssv[j] == ss@[j]@,
            ev_block(fuel as nat, ssv, 0, SObject::Null, env as nat, log(replies), old(m)@) == ev_block(
                f as nat,
                ssv,
                i as nat,
                last@,
                env as nat,
                log(replies),
                m@,
            ),
        decreases ss@.len() - i,
    {
        if f == 0 {
            return Outcome::OutOfFuel;
        }
        let r = eval_statement_bounded(f - 1, &ss[i], env, m, replies);
        match r {
            Outcome::Value(v) => match v {
                Object::ReturnValue(_) => return Outcome::Value(v),
                Object::Error(_) => return Outcome::Value(v),
                _ => {
                    last = v;
                },
            },
            other => return other,
        }
        i = i + 1;
        f = f - 1;
    }
    Outcome::Value(last)
}

/// Evaluates the statements of a program in order; a `return` ends the program with the value
/// returned, an error ends it with the error.
fn run_program(fuel: u64, ss: &Vec<Statement>, env: usize, m: &mut Machine, replies: &Vec<HostReply>) -> (out: Outcome)
    requires
        old(m).used <= replies@.len(),
    ensures
        final(m).used <= replies@.len(),
        (out@, final(m)@) == ev_program(fuel as nat, stmts_view(ss@), 0, SObject::Null, env as nat, log(replies), old(m)@),
    decreases fuel, 0nat,
{
    proof {
        lemma_stmts_view_index(ss@);
    }
    let ghost ssv = stmts_view(ss@);
    let mut last = Object::Null;
    let mut i: usize = 0;
    let mut f: u64 = fuel;
    while i < ss.len()
        invariant
            i <= ss@.len(),
            f <= fuel,
            m.used <= replies@.len(),
            ssv == stmts_view(ss@),
            ssv.len() == ss@.len(),
            forall|j: int| 0 <= j < ss@.len() ==> #[trigger] ssv[j] == ss@[j]@,
            ev_program(fuel as nat, ssv, 0, SObject::Null, env as nat, log(replies), old(m)@) == ev_program(
                f as nat,
                ssv,
                i as nat,
                last@,
                env as nat,
                log(replies),
                m@,
            ),
        decreases ss@.len() - i,
    {
        if f == 0 {
            return Outcome::OutOfFuel;
        }
        let r = eval_statement_bounded(f - 1, &ss[i], env, m, replies);
        match r {
            Outcome::Value(v) => match v {
                Object::ReturnValue(inner) => return Outcome::Value(*inner),
                Object::Error(_) => return Outcome::Value(v),
                _ => {
                    last = v;
                },
            },
            other => return other,
        }
        i = i + 1;
        f = f - 1;
    }
    Outcome::Value(last)
}

/// The fuel the public entry points run with.
pub open spec fn full_fuel() -> nat {
    u64::MAX as nat
}

/// Evaluates a program in scope `env`, answering outside work from `replies`: the value of
/// its last statement, the value of a `return`, or the first error.
pub fn eval_program(program: &Program, env: usize, m: &mut Machine, replies: &Vec<HostReply>) -> (out: Outcome)
    requires
        old(m).used <= replies@.len(),
    ensures
        final(m).used <= replies@.len(),
        (out@, final(m)@) == ev_program(full_fuel(), program@, 0, SObject::Null, env as nat, log(replies), old(m)@),
{
    run_program(u64::MAX, &program.statements, env, m, replies)
}

/// Evaluates one statement in scope `env`, answering outside work from `replies`.
pub fn eval_statement(statement: &Statement, env: usize, m: &mut Machine, replies: &Vec<HostReply>) -> (out: Outcome)
    requires
        old(m).used <= replies@.len(),
    ensures
        final(m).used <= replies@.len(),
        (out@, final(m)@) == ev_stmt(full_fuel(), statement@, env as nat, log(replies), old(m)@),
{
    eval_statement_bounded(u64::MAX, statement, env, m, replies)
}

/// Evaluates the statements of a block in scope `env`; a `return` stays wrapped for the
/// enclosing function to unwrap.
pub fn eval_block_statement(statements: &Vec<Statement>, env: usize, m: &mut Machine, replies: &Vec<HostReply>) -> (out: Outcome)
    requires
        old(m).used <= replies@.len(),
    ensures
        final(m).used <= replies@.len(),
        (out@, final(m)@) == ev_block(full_fuel(), stmts_view(statements@), 0, SObject::Null, env as nat, log(replies), old(m)@),
{
    run_block(u64::MAX, statements, env, m, replies)
}

/// Evaluates one expression in scope `env`, answering outside work from `replies`.
pub fn eval_expression(expression: &Expression, env: usize, m: &mut Machine, replies: &Vec<HostReply>) -> (out: Outcome)
    requires
        old(m).used <= replies@.len(),
    ensures
        final(m).used <= replies@.len(),
        (out@, final(m)@) == ev_expr(full_fuel(), expression@, env as nat, log(replies), old(m)@),
{
    eval_expression_bounded(u64::MAX, expression, env, m, replies)
}

} // verus!
