use vstd::prelude::*;
use crate::ast::{Expression, SExpr, SStmt, strings_view};
use crate::token::Token;
use crate::token::SToken;
use crate::object::{SObject, SHashKey, Builtin, spec_hash_key, hash_get, hash_insert, display, keys_distinct, lemma_hash_insert_distinct};
use crate::environment::{SFrame, bare_frame, frame_set, heap_lookup, heap_set, lemma_lookup_after_set, lemma_lookup_after_add};
use crate::host::{SRequest, SReply};
use crate::text::decimal;
use crate::debug::obj_debug;
use vstd::utf8::encode_utf8;

verus! {

// ---------------------------------------------------------------------------
// The meaning of a Kingcobra program, as a definitional interpreter.
//
// Evaluation works on the scopes of the heap and on a log of the replies that the
// program around the interpreter gave to earlier requests. Where a builtin or an
// import needs outside work that the log has no reply for yet, evaluation stops
// with that request. Every step of evaluation spends one unit of fuel.
// ---------------------------------------------------------------------------

/// The scopes, and how many replies of the log have been used.
pub struct SState {
    pub heap: Seq<SFrame>,
    pub used: nat,
}

/// How an evaluation ended: with a value (an error value among them), with a request for
/// outside work, with a crash (arithmetic overflow), or with no fuel left.
pub enum SFlow {
    Val(SObject),
    Req(SRequest),
    Crash(Seq<char>),
    Fuel,
}

/// The text that the derived `Debug` of `Token` writes for a token.
pub uninterp spec fn token_debug(t: SToken) -> Seq<char>;

/// The text that the derived `Debug` of `Expression` writes for an expression.
pub uninterp spec fn expr_debug(e: SExpr) -> Seq<char>;

/// The text that `Debug` writes for a list of strings.
pub uninterp spec fn strings_debug(s: Seq<Seq<char>>) -> Seq<char>;

/// An error value with this message.
pub open spec fn err(msg: Seq<char>) -> SFlow {
    SFlow::Val(SObject::Error(msg))
}

/// An evaluation result that ends the enclosing expression: an error, or no value at all.
pub open spec fn stops(fl: SFlow) -> bool {
    match fl {
        SFlow::Val(SObject::Error(_)) => true,
        SFlow::Val(_) => false,
        _ => true,
    }
}

/// A statement result that ends the enclosing block: a `return`, an error, or no value.
pub open spec fn leaves_block(fl: SFlow) -> bool {
    match fl {
        SFlow::Val(SObject::ReturnValue(_)) => true,
        SFlow::Val(SObject::Error(_)) => true,
        SFlow::Val(_) => false,
        _ => true,
    }
}

/// The value inside a `return`, or the result itself.
pub open spec fn unwrap_return(fl: SFlow) -> SFlow {
    match fl {
        SFlow::Val(SObject::ReturnValue(v)) => SFlow::Val(*v),
        _ => fl,
    }
}

/// Whether a value counts as true in a condition: all but `null` and `false`.
pub open spec fn truthy(o: SObject) -> bool {
    match o {
        SObject::Null => false,
        SObject::Boolean(b) => b,
        _ => true,
    }
}

/// The value of `-right` or `new right`.
pub open spec fn prefix_op(h: Seq<SFrame>, op: SToken, right: SObject) -> SFlow {
    match op {
        SToken::Minus => match right {
            SObject::Integer(v) => if v == i64::MIN {
                SFlow::Crash("attempt to negate with overflow"@)
            } else {
                SFlow::Val(SObject::Integer((-v) as i64))
            },
            _ => err("Unknown operator: -"@ + obj_debug(h, right)),
        },
        SToken::New => match right {
            SObject::Instance { .. } => SFlow::Val(right),
            _ => err("'new' can only be used with class instantiation, got "@ + obj_debug(h, right)),
        },
        _ => err("Unknown prefix operator: "@ + token_debug(op)),
    }
}

/// The value of an operator applied to two integers; an overflow crashes, with the message of
/// Rust's checked arithmetic.
pub open spec fn int_infix(op: SToken, l: i64, r: i64) -> SFlow {
    match op {
        SToken::Plus => match l.checked_add(r) {
            Some(v) => SFlow::Val(SObject::Integer(v)),
            None => SFlow::Crash("attempt to add with overflow"@),
        },
        SToken::Minus => match l.checked_sub(r) {
            Some(v) => SFlow::Val(SObject::Integer(v)),
            None => SFlow::Crash("attempt to subtract with overflow"@),
        },
        SToken::Asterisk => match l.checked_mul(r) {
            Some(v) => SFlow::Val(SObject::Integer(v)),
            None => SFlow::Crash("attempt to multiply with overflow"@),
        },
        SToken::Slash => if r == 0 {
            err("Division by zero"@)
        } else {
            match l.checked_div(r) {
                Some(v) => SFlow::Val(SObject::Integer(v)),
                None => SFlow::Crash("attempt to divide with overflow"@),
            }
        },
        SToken::Lt => SFlow::Val(SObject::Boolean(l < r)),
        SToken::Gt => SFlow::Val(SObject::Boolean(l > r)),
        SToken::Eq => SFlow::Val(SObject::Boolean(l == r)),
        SToken::NotEq => SFlow::Val(SObject::Boolean(l != r)),
        _ => err("Unknown integer operator: "@ + token_debug(op)),
    }
}

/// The value of an infix operator applied to two values.
pub open spec fn infix_op(h: Seq<SFrame>, op: SToken, l: SObject, r: SObject) -> SFlow {
    match (l, r) {
        (SObject::Integer(a), SObject::Integer(b)) => int_infix(op, a, b),
        (SObject::Boolean(a), SObject::Boolean(b)) => match op {
            SToken::Eq => SFlow::Val(SObject::Boolean(a == b)),
            SToken::NotEq => SFlow::Val(SObject::Boolean(a != b)),
            _ => err("Unknown operator: "@ + token_debug(op) + " for booleans"@),
        },
        (SObject::Str(a), SObject::Str(b)) => match op {
            SToken::Plus => SFlow::Val(SObject::Str(a + b)),
            SToken::Eq => SFlow::Val(SObject::Boolean(a == b)),
            SToken::NotEq => SFlow::Val(SObject::Boolean(a != b)),
            _ => err("Unknown operator: "@ + token_debug(op) + " for strings"@),
        },
        _ => err("Type mismatch: "@ + obj_debug(h, l) + " and "@ + obj_debug(h, r)),
    }
}

/// The value of `left[index]`: out-of-range array positions and missing hash keys give `null`.
pub open spec fn index_op(h: Seq<SFrame>, l: SObject, i: SObject) -> SObject {
    match (l, i) {
        (SObject::Array(elems), SObject::Integer(k)) => if k < 0 || k >= elems.len() {
            SObject::Null
        } else {
            elems[k as int]
        },
        (SObject::Hash(pairs), _) => match spec_hash_key(i) {
            None => SObject::Error("Unusable as hash key: "@ + obj_debug(h, i)),
            Some(hk) => match hash_get(pairs, hk) {
                Some(v) => v,
                None => SObject::Null,
            },
        },
        _ => SObject::Error(
            "Index operator not supported: "@ + obj_debug(h, l) + " ["@ + obj_debug(h, i) + "]"@,
        ),
    }
}

/// The value a name has in scope `env`, or an error.
pub open spec fn ident_value(h: Seq<SFrame>, env: nat, name: Seq<char>) -> SObject {
    match heap_lookup(h, env, name) {
        Some(v) => v,
        None => SObject::Error("Identifier not found: "@ + name),
    }
}

/// The next unused reply of the log, if there is one.
pub open spec fn next_reply(rs: Seq<SReply>, st: SState) -> Option<SReply> {
    if st.used < rs.len() {
        Some(rs[st.used as int])
    } else {
        None
    }
}

/// The state after one more reply has been used.
pub open spec fn took(st: SState) -> SState {
    SState { heap: st.heap, used: st.used + 1 }
}

/// The state with another heap.
pub open spec fn with_heap(st: SState, h: Seq<SFrame>) -> SState {
    SState { heap: h, used: st.used }
}

/// The reason a reply gives for a failure (empty for other replies).
pub open spec fn failure_text(r: SReply) -> Seq<char> {
    match r {
        SReply::Failure(e) => e,
        _ => Seq::empty(),
    }
}

/// A new scope added to the heap, with its number; none when the heap is full.
pub open spec fn fresh(st: SState, fr: SFrame) -> Option<(nat, SState)> {
    if st.heap.len() < usize::MAX {
        Some((st.heap.len(), with_heap(st, st.heap.push(fr))))
    } else {
        None
    }
}

/// The crash when no further scope can be added.
pub open spec fn heap_full() -> SFlow {
    SFlow::Crash("no room for another scope"@)
}

/// An empty scope with no outer scope.
pub open spec fn empty_frame() -> SFrame {
    bare_frame(None)
}

/// The scope after binding each parameter from position `i` on to the argument at the same
/// position, where there is one.
pub open spec fn bind(fr: SFrame, ps: Seq<Seq<char>>, args: Seq<SObject>, i: nat) -> SFrame
    decreases ps.len() - i,
{
    if i >= ps.len() {
        fr
    } else {
        bind(if i < args.len() { frame_set(fr, ps[i as int], args[i as int]) } else { fr }, ps, args, i + 1)
    }
}

/// The names of the builtin functions, in the order they are bound.
pub open spec fn builtin_names() -> Seq<(Seq<char>, Builtin)> {
    seq![
        ("print"@, Builtin::Print),
        ("len"@, Builtin::Len),
        ("read_file"@, Builtin::ReadFile),
        ("write_file"@, Builtin::WriteFile),
        ("time"@, Builtin::Time),
        ("random"@, Builtin::Random),
    ]
}

/// The heap after binding every builtin name, from position `i` on, in scope `env`.
pub open spec fn with_builtins(h: Seq<SFrame>, env: nat, i: nat) -> Seq<SFrame>
    decreases 6 - i,
{
    if i >= 6 {
        h
    } else {
        with_builtins(heap_set(h, env, builtin_names()[i as int].0, SObject::Builtin(builtin_names()[i as int].1)), env, i + 1)
    }
}

/// The text `print` writes: each argument shown and followed by a space, then a line break.
pub open spec fn print_text(args: Seq<SObject>) -> Seq<char> {
    print_items(args) + seq!['\n']
}

/// Each value shown and followed by a space.
pub open spec fn print_items(args: Seq<SObject>) -> Seq<char>
    decreases args.len(),
{
    if args.len() == 0 {
        Seq::empty()
    } else {
        print_items(args.subrange(0, args.len() - 1)) + display(args[args.len() - 1]) + seq![' ']
    }
}

/// The number `random` makes of the clock's nanoseconds.
pub open spec fn pseudo_random(n: i64) -> i64 {
    let x = n ^ n.wrapping_shl(13) ^ n.wrapping_shr(7);
    match x.checked_rem(1000000) {
        Some(r) => if r < 0 {
            (-r) as i64
        } else {
            r
        },
        None => 0,
    }
}

/// The length of a string in bytes of UTF-8, as `str::len` gives it, then cast as `i64`.
pub open spec fn byte_len(s: Seq<char>) -> i64 {
    ((encode_utf8(s).len() as usize) as i64)
}

/// The message for a call with the wrong number of arguments.
pub open spec fn arity_message(name: Seq<char>, got: nat, expected: Seq<char>) -> Seq<char> {
    "Wrong number of arguments for "@ + name + ". Got "@ + decimal(got as int) + ", expected "@ + expected
}

/// A call of a builtin function on evaluated arguments.
pub open spec fn builtin_call(b: Builtin, args: Seq<SObject>, rs: Seq<SReply>, st: SState) -> (SFlow, SState) {
    match b {
        Builtin::Print => match next_reply(rs, st) {
            Some(_) => (SFlow::Val(SObject::Null), took(st)),
            None => (SFlow::Req(SRequest::Print(print_text(args))), st),
        },
        Builtin::Len => if args.len() != 1 {
            (err(arity_message("len"@, args.len(), "1"@)), st)
        } else {
            match args[0] {
                SObject::Str(s) => (SFlow::Val(SObject::Integer(byte_len(s))), st),
                _ => (err("Argument to 'len' not supported: "@ + display(args[0])), st),
            }
        },
        Builtin::ReadFile => if args.len() != 1 {
            (err(arity_message("read_file"@, args.len(), "1"@)), st)
        } else {
            match args[0] {
                SObject::Str(p) => match next_reply(rs, st) {
                    Some(r) => (
                        match r {
                            SReply::Text(c) => SFlow::Val(SObject::Str(c)),
                            _ => err("Failed to read file "@ + p + ": "@ + failure_text(r)),
                        },
                        took(st),
                    ),
                    None => (SFlow::Req(SRequest::ReadFile(p)), st),
                },
                _ => (err("Argument to read_file must be a string"@), st),
            }
        },
        Builtin::WriteFile => if args.len() != 2 {
            (err(arity_message("write_file"@, args.len(), "2"@)), st)
        } else {
            match (args[0], args[1]) {
                (SObject::Str(p), SObject::Str(c)) => match next_reply(rs, st) {
                    Some(r) => (
                        match r {
                            SReply::Done => SFlow::Val(SObject::Boolean(true)),
                            _ => err("Failed to write file "@ + p + ": "@ + failure_text(r)),
                        },
                        took(st),
                    ),
                    None => (SFlow::Req(SRequest::WriteFile(p, c)), st),
                },
                _ => (err("Arguments to write_file must be strings"@), st),
            }
        },
        Builtin::Time => match next_reply(rs, st) {
            Some(r) => (
                match r {
                    SReply::Number(n) => SFlow::Val(SObject::Integer(n)),
                    _ => err("SystemTime before UNIX EPOCH!"@),
                },
                took(st),
            ),
            None => (SFlow::Req(SRequest::Time), st),
        },
        Builtin::Random => match next_reply(rs, st) {
            Some(r) => (
                match r {
                    SReply::Number(n) => SFlow::Val(SObject::Integer(pseudo_random(n))),
                    _ => SFlow::Val(SObject::Integer(42)),
                },
                took(st),
            ),
            None => (SFlow::Req(SRequest::Random), st),
        },
    }
}

// ---------------------------------------------------------------------------
// Evaluation. Each function takes the fuel first; the functions that take fuel
// `f` from the outside check it and pass `f - 1` on, the helpers for one kind of
// node pass their fuel on unchanged.
// ---------------------------------------------------------------------------

/// Evaluates an expression in scope `env`.
pub open spec fn ev_expr(f: nat, e: SExpr, env: nat, rs: Seq<SReply>, st: SState) -> (SFlow, SState)
    decreases f, 0nat,
{
    if f == 0 {
        (SFlow::Fuel, st)
    } else {
        let g: nat = (f - 1) as nat;
        match e {
            SExpr::Identifier(n) => (SFlow::Val(ident_value(st.heap, env, n)), st),
            SExpr::Integer(v) => (SFlow::Val(SObject::Integer(v)), st),
            SExpr::Str(s) => (SFlow::Val(SObject::Str(s)), st),
            SExpr::Boolean(b) => (SFlow::Val(SObject::Boolean(b)), st),
            SExpr::Prefix { operator, right } => ev_prefix(g, operator, *right, env, rs, st),
            SExpr::Infix { left, operator, right } => ev_infix(g, *left, operator, *right, env, rs, st),
            SExpr::If { condition, consequence, alternative } => ev_if(
                g,
                *condition,
                *consequence,
                alternative,
                env,
                rs,
                st,
            ),
            SExpr::Function { parameters, body } => (
                SFlow::Val(SObject::Function { parameters, body: *body }),
                st,
            ),
            SExpr::Call { function, arguments } => ev_call(g, *function, arguments, env, rs, st),
            SExpr::ArrayLiteral(es) => {
                let (r, st1) = ev_list(g, es, 0, Seq::empty(), env, rs, st);
                match r {
                    Ok(vals) => (SFlow::Val(SObject::Array(vals)), st1),
                    Err(fl) => (fl, st1),
                }
            },
            SExpr::IndexExpression { left, index } => ev_index(g, *left, *index, env, rs, st),
            SExpr::HashLiteral(ps) => ev_hash(g, ps, 0, Seq::empty(), env, rs, st),
            SExpr::WhileExpression { condition, body } => ev_while(g, *condition, *body, env, rs, st),
            SExpr::ImportExpression(p) => ev_import(g, *p, env, rs, st),
            SExpr::MemberExpression { left, property } => ev_member(g, *left, property, env, rs, st),
            SExpr::Dummy => (err("Parsed dummy expression"@), st),
        }
    }
}

/// Evaluates `operator right`.
pub open spec fn ev_prefix(f: nat, op: SToken, right: SExpr, env: nat, rs: Seq<SReply>, st: SState) -> (SFlow, SState)
    decreases f, 1nat,
{
    let (r, st1) = ev_expr(f, right, env, rs, st);
    if stops(r) {
        (r, st1)
    } else {
        (prefix_op(st1.heap, op, r->Val_0), st1)
    }
}

/// Evaluates `left operator right`, left first.
pub open spec fn ev_infix(f: nat, left: SExpr, op: SToken, right: SExpr, env: nat, rs: Seq<SReply>, st: SState) -> (SFlow, SState)
    decreases f, 1nat,
{
    let (l, st1) = ev_expr(f, left, env, rs, st);
    if stops(l) {
        (l, st1)
    } else {
        let (r, st2) = ev_expr(f, right, env, rs, st1);
        if stops(r) {
            (r, st2)
        } else {
            (infix_op(st2.heap, op, l->Val_0, r->Val_0), st2)
        }
    }
}

/// Evaluates `left[index]`, left first.
pub open spec fn ev_index(f: nat, left: SExpr, index: SExpr, env: nat, rs: Seq<SReply>, st: SState) -> (SFlow, SState)
    decreases f, 1nat,
{
    let (l, st1) = ev_expr(f, left, env, rs, st);
    if stops(l) {
        (l, st1)
    } else {
        let (i, st2) = ev_expr(f, index, env, rs, st1);
        if stops(i) {
            (i, st2)
        } else {
            (SFlow::Val(index_op(st2.heap, l->Val_0, i->Val_0)), st2)
        }
    }
}

/// Evaluates a `when` expression.
pub open spec fn ev_if(f: nat, cond: SExpr, cons: SStmt, alt: Option<Box<SStmt>>, env: nat, rs: Seq<SReply>, st: SState) -> (SFlow, SState)
    decreases f, 1nat,
{
    let (c, st1) = ev_expr(f, cond, env, rs, st);
    if stops(c) {
        (c, st1)
    } else if truthy(c->Val_0) {
        ev_stmt(f, cons, env, rs, st1)
    } else {
        match alt {
            Some(a) => ev_stmt(f, *a, env, rs, st1),
            None => (SFlow::Val(SObject::Null), st1),
        }
    }
}

/// Evaluates the expressions of a list from position `i` on, after the values `acc`.
pub open spec fn ev_list(f: nat, es: Seq<SExpr>, i: nat, acc: Seq<SObject>, env: nat, rs: Seq<SReply>, st: SState) -> (Result<Seq<SObject>, SFlow>, SState)
    decreases f, 0nat,
{
    if i >= es.len() {
        (Ok(acc), st)
    } else if f == 0 {
        (Err(SFlow::Fuel), st)
    } else {
        let (r, st1) = ev_expr((f - 1) as nat, es[i as int], env, rs, st);
        if stops(r) {
            (Err(r), st1)
        } else {
            ev_list((f - 1) as nat, es, i + 1, acc.push(r->Val_0), env, rs, st1)
        }
    }
}

/// Evaluates the pairs of a hash literal from position `i` on, into the pairs `acc`.
pub open spec fn ev_hash(f: nat, ps: Seq<(SExpr, SExpr)>, i: nat, acc: Seq<(SHashKey, SObject)>, env: nat, rs: Seq<SReply>, st: SState) -> (SFlow, SState)
    decreases f, 0nat,
{
    if i >= ps.len() {
        (SFlow::Val(SObject::Hash(acc)), st)
    } else if f == 0 {
        (SFlow::Fuel, st)
    } else {
        let g: nat = (f - 1) as nat;
        let (k, st1) = ev_expr(g, ps[i as int].0, env, rs, st);
        if stops(k) {
            (k, st1)
        } else {
            match spec_hash_key(k->Val_0) {
                None => (err("Unusable as hash key: "@ + obj_debug(st1.heap, k->Val_0)), st1),
                Some(hk) => {
                    let (v, st2) = ev_expr(g, ps[i as int].1, env, rs, st1);
                    if stops(v) {
                        (v, st2)
                    } else {
                        ev_hash(g, ps, i + 1, hash_insert(acc, hk, v->Val_0), env, rs, st2)
                    }
                },
            }
        }
    }
}

/// Runs a `while` loop.
pub open spec fn ev_while(f: nat, cond: SExpr, body: SStmt, env: nat, rs: Seq<SReply>, st: SState) -> (SFlow, SState)
    decreases f, 0nat,
{
    if f == 0 {
        (SFlow::Fuel, st)
    } else {
        let g: nat = (f - 1) as nat;
        let (c, st1) = ev_expr(g, cond, env, rs, st);
        if stops(c) {
            (c, st1)
        } else if !truthy(c->Val_0) {
            (SFlow::Val(SObject::Null), st1)
        } else {
            let (r, st2) = ev_stmt(g, body, env, rs, st1);
            if leaves_block(r) {
                (r, st2)
            } else {
                ev_while(g, cond, body, env, rs, st2)
            }
        }
    }
}

/// Evaluates `import path`.
pub open spec fn ev_import(f: nat, path: SExpr, env: nat, rs: Seq<SReply>, st: SState) -> (SFlow, SState)
    decreases f, 1nat,
{
    let (p, st1) = ev_expr(f, path, env, rs, st);
    if stops(p) {
        (p, st1)
    } else {
        match p->Val_0 {
            SObject::Str(fname) => match next_reply(rs, st1) {
                None => (SFlow::Req(SRequest::Import(fname)), st1),
                Some(r) => {
                    let st2 = took(st1);
                    match r {
                        SReply::Module(prog) => match fresh(st2, empty_frame()) {
                            None => (heap_full(), st2),
                            Some((id, st3)) => {
                                let st4 = with_heap(st3, with_builtins(st3.heap, id, 0));
                                let (res, st5) = ev_program(f, prog, 0, SObject::Null, id, rs, st4);
                                if stops(res) {
                                    (res, st5)
                                } else {
                                    (SFlow::Val(SObject::Module(id)), st5)
                                }
                            },
                        },
                        SReply::ModuleErrors(errs) => (
                            err("Failed to parse imported file '"@ + fname + "': "@ + strings_debug(errs)),
                            st2,
                        ),
                        _ => (
                            err("Failed to read imported file '"@ + fname + "': "@ + failure_text(r)),
                            st2,
                        ),
                    }
                },
            },
            other => (err("Import path must be a string, got "@ + obj_debug(st1.heap, other)), st1),
        }
    }
}

/// Evaluates `left.property`.
pub open spec fn ev_member(f: nat, left: SExpr, prop: Seq<char>, env: nat, rs: Seq<SReply>, st: SState) -> (SFlow, SState)
    decreases f, 1nat,
{
    let (l, st1) = ev_expr(f, left, env, rs, st);
    if stops(l) {
        (l, st1)
    } else {
        (member_value(st1.heap, l->Val_0, prop), st1)
    }
}

/// The value of `property` on a module or an instance; methods of an instance's class come
/// bound to the instance.
pub open spec fn member_value(h: Seq<SFrame>, lv: SObject, prop: Seq<char>) -> SFlow {
    match lv {
        SObject::Module(m) => match heap_lookup(h, m, prop) {
            Some(v) => SFlow::Val(v),
            None => err("Module has no property '"@ + prop + "'"@),
        },
        SObject::Instance { class_env, instance_env, .. } => match heap_lookup(h, instance_env, prop) {
            Some(v) => SFlow::Val(v),
            None => match heap_lookup(h, class_env, prop) {
                Some(v) => match v {
                    SObject::Function { .. } => SFlow::Val(
                        SObject::BoundMethod { instance: Box::new(lv), method: Box::new(v) },
                    ),
                    _ => SFlow::Val(v),
                },
                None => err("Instance has no property '"@ + prop + "'"@),
            },
        },
        _ => err("Cannot access property '"@ + prop + "' on "@ + obj_debug(h, lv)),
    }
}

/// Evaluates a call: the callee, then the arguments left to right, then the call itself.
pub open spec fn ev_call(f: nat, func: SExpr, args: Seq<SExpr>, env: nat, rs: Seq<SReply>, st: SState) -> (SFlow, SState)
    decreases f, 1nat,
{
    let (fv, st1) = ev_expr(f, func, env, rs, st);
    if stops(fv) {
        (fv, st1)
    } else {
        let (a, st2) = ev_list(f, args, 0, Seq::empty(), env, rs, st1);
        match a {
            Err(fl) => (fl, st2),
            Ok(vals) => apply(f, fv->Val_0, vals, env, rs, st2),
        }
    }
}

/// Calls a function value on evaluated arguments. A function body runs in a new scope inside
/// the caller's scope, with each parameter bound to the argument at its position.
pub open spec fn apply(f: nat, fv: SObject, args: Seq<SObject>, env: nat, rs: Seq<SReply>, st: SState) -> (SFlow, SState)
    decreases f, 0nat,
{
    if f == 0 {
        (SFlow::Fuel, st)
    } else {
        let g: nat = (f - 1) as nat;
        match fv {
            SObject::Function { parameters, body } => {
                let fr = bind(bare_frame(Some(env)), parameters, args, 0);
                match fresh(st, fr) {
                    None => (heap_full(), st),
                    Some((id, st1)) => {
                        let (r, st2) = ev_stmt(g, body, id, rs, st1);
                        (unwrap_return(r), st2)
                    },
                }
            },
            SObject::BoundMethod { instance, method } => match *method {
                SObject::Function { parameters, body } => {
                    let fr = bind(frame_set(bare_frame(Some(env)), "self"@, *instance), parameters, args, 0);
                    match fresh(st, fr) {
                        None => (heap_full(), st),
                        Some((id, st1)) => {
                            let (r, st2) = ev_stmt(g, body, id, rs, st1);
                            (unwrap_return(r), st2)
                        },
                    }
                },
                m => (err("Bound method is not a function: "@ + obj_debug(st.heap, m)), st),
            },
            SObject::Builtin(b) => builtin_call(b, args, rs, st),
            SObject::Class { name, environment } => match fresh(st, empty_frame()) {
                None => (heap_full(), st),
                Some((id, st1)) => (
                    SFlow::Val(SObject::Instance { class_name: name, class_env: environment, instance_env: id }),
                    st1,
                ),
            },
            _ => (err("Not a function or class: "@ + obj_debug(st.heap, fv)), st),
        }
    }
}

/// Evaluates a statement in scope `env`.
pub open spec fn ev_stmt(f: nat, s: SStmt, env: nat, rs: Seq<SReply>, st: SState) -> (SFlow, SState)
    decreases f, 0nat,
{
    if f == 0 {
        (SFlow::Fuel, st)
    } else {
        let g: nat = (f - 1) as nat;
        match s {
            SStmt::Expression(e) => ev_expr(g, e, env, rs, st),
            SStmt::Return(e) => {
                let (v, st1) = ev_expr(g, e, env, rs, st);
                if stops(v) {
                    (v, st1)
                } else {
                    (SFlow::Val(SObject::ReturnValue(Box::new(v->Val_0))), st1)
                }
            },
            SStmt::Let { name, value } => ev_let(g, name, value, env, rs, st),
            SStmt::Block(ss) => ev_block(g, ss, 0, SObject::Null, env, rs, st),
            SStmt::ClassStatement { name, body } => ev_class(g, name, *body, env, rs, st),
        }
    }
}

/// Evaluates `let name = value`.
pub open spec fn ev_let(f: nat, name: SExpr, value: SExpr, env: nat, rs: Seq<SReply>, st: SState) -> (SFlow, SState)
    decreases f, 1nat,
{
    let (v, st1) = ev_expr(f, value, env, rs, st);
    if stops(v) {
        (v, st1)
    } else {
        match name {
            SExpr::Identifier(id) => (
                SFlow::Val(SObject::Null),
                with_heap(st1, heap_set(st1.heap, env, id, v->Val_0)),
            ),
            SExpr::MemberExpression { left, property } => {
                let (lo, st2) = ev_expr(f, *left, env, rs, st1);
                match lo {
                    SFlow::Val(SObject::Instance { instance_env, .. }) => (
                        SFlow::Val(SObject::Null),
                        with_heap(st2, heap_set(st2.heap, instance_env, property, v->Val_0)),
                    ),
                    SFlow::Val(other) => (err("Cannot assign property to "@ + obj_debug(st2.heap, other)), st2),
                    _ => (lo, st2),
                }
            },
            _ => (err("Invalid left-hand side of let statement: "@ + expr_debug(name)), st1),
        }
    }
}

/// Evaluates `class name: body done`: the body runs in a scope of its own, whose value is
/// then discarded; the class is bound to its name.
pub open spec fn ev_class(f: nat, name: Seq<char>, body: SStmt, env: nat, rs: Seq<SReply>, st: SState) -> (SFlow, SState)
    decreases f, 1nat,
{
    match fresh(st, empty_frame()) {
        None => (heap_full(), st),
        Some((id, st1)) => {
            let (r, st2) = ev_stmt(f, body, id, rs, st1);
            match r {
                SFlow::Val(_) => {
                    let cls = SObject::Class { name, environment: id };
                    (SFlow::Val(cls), with_heap(st2, heap_set(st2.heap, env, name, cls)))
                },
                _ => (r, st2),
            }
        },
    }
}

/// Evaluates the statements of a block from position `i` on; `last` is the value of the
/// statement before. A `return` or an error ends the block and is handed on as it is.
pub open spec fn ev_block(f: nat, ss: Seq<SStmt>, i: nat, last: SObject, env: nat, rs: Seq<SReply>, st: SState) -> (SFlow, SState)
    decreases f, 0nat,
{
    if i >= ss.len() {
        (SFlow::Val(last), st)
    } else if f == 0 {
        (SFlow::Fuel, st)
    } else {
        let (r, st1) = ev_stmt((f - 1) as nat, ss[i as int], env, rs, st);
        if leaves_block(r) {
            (r, st1)
        } else {
            ev_block((f - 1) as nat, ss, i + 1, r->Val_0, env, rs, st1)
        }
    }
}

/// Evaluates the statements of a program from position `i` on; `last` is the value of the
/// statement before. A `return` ends the program with the value returned.
pub open spec fn ev_program(f: nat, ss: Seq<SStmt>, i: nat, last: SObject, env: nat, rs: Seq<SReply>, st: SState) -> (SFlow, SState)
    decreases f, 0nat,
{
    if i >= ss.len() {
        (SFlow::Val(last), st)
    } else if f == 0 {
        (SFlow::Fuel, st)
    } else {
        let (r, st1) = ev_stmt((f - 1) as nat, ss[i as int], env, rs, st);
        if leaves_block(r) {
            (unwrap_return(r), st1)
        } else {
            ev_program((f - 1) as nat, ss, i + 1, r->Val_0, env, rs, st1)
        }
    }
}


/// A variable reads back what `let` bound to it: after `let name = value` has evaluated `value`
/// to a value that is not an error, in a scope that exists, the statement's value is `null`
/// and `name` then evaluates in that scope to the value bound.
pub proof fn lemma_let_then_read(f: nat, g: nat, name: Seq<char>, value: SExpr, env: nat, rs: Seq<SReply>, st: SState)
    requires
        f > 0,
        g > 0,
    ensures
        ({
            let (v, st1) = ev_expr((f - 1) as nat, value, env, rs, st);
            let (r, st2) = ev_stmt(f, SStmt::Let { name: SExpr::Identifier(name), value }, env, rs, st);
            !stops(v) && env < st1.heap.len() ==> r == SFlow::Val(SObject::Null) && ev_expr(
                g,
                SExpr::Identifier(name),
                env,
                rs,
                st2,
            ) == (SFlow::Val(v->Val_0), st2)
        }),
{
    let (v, st1) = ev_expr((f - 1) as nat, value, env, rs, st);
    if !stops(v) && env < st1.heap.len() {
        lemma_lookup_after_set(st1.heap, env, name, v->Val_0);
    }
}

/// Binding parameters leaves every name that is not among the parameters still to bind (those
/// at positions `i` on that have an argument) as it was.
pub proof fn lemma_bind_other(fr: SFrame, ps: Seq<Seq<char>>, args: Seq<SObject>, i: nat, k: Seq<char>)
    requires
        forall|j: int| i <= j < ps.len() && j < args.len() ==> ps[j] != k,
    ensures
        bind(fr, ps, args, i).vars.contains_key(k) == fr.vars.contains_key(k),
        fr.vars.contains_key(k) ==> bind(fr, ps, args, i).vars[k] == fr.vars[k],
        bind(fr, ps, args, i).outer == fr.outer,
    decreases ps.len() - i,
{
    if i < ps.len() {
        let f2 = if i < args.len() { frame_set(fr, ps[i as int], args[i as int]) } else { fr };
        lemma_bind_other(f2, ps, args, i + 1, k);
    }
}

/// Binding parameters binds each parameter to the argument at its last position.
pub proof fn lemma_bind_param(fr: SFrame, ps: Seq<Seq<char>>, args: Seq<SObject>, i: nat, j: int)
    requires
        i <= j < ps.len(),
        j < args.len(),
        forall|l: int| j < l < ps.len() && l < args.len() ==> ps[l] != ps[j],
    ensures
        bind(fr, ps, args, i).vars.contains_key(ps[j]),
        bind(fr, ps, args, i).vars[ps[j]] == args[j],
    decreases ps.len() - i,
{
    let v2 = if i < args.len() { frame_set(fr, ps[i as int], args[i as int]) } else { fr };
    if i < j {
        lemma_bind_param(v2, ps, args, i + 1, j);
    } else {
        lemma_bind_other(v2, ps, args, i + 1, ps[j]);
    }
}

/// A function body runs in a new scope inside the scope it is called from: each parameter
/// names the argument at its (last) position, and every other name means what it means where
/// the function is called.
pub proof fn lemma_call_scope(h: Seq<SFrame>, env: nat, ps: Seq<Seq<char>>, args: Seq<SObject>, k: Seq<char>, j: int)
    requires
        env < h.len(),
    ensures
        ({
            let h2 = h.push(bind(bare_frame(Some(env)), ps, args, 0));
            &&& (forall|l: int| 0 <= l < ps.len() && l < args.len() ==> ps[l] != k) ==> heap_lookup(h2, h.len(), k)
                == heap_lookup(h, env, k)
            &&& (0 <= j < ps.len() && j < args.len() && forall|l: int| j < l < ps.len() && l < args.len() ==> ps[l]
                != ps[j]) ==> heap_lookup(h2, h.len(), ps[j]) == Some(args[j])
        }),
{
    let fr = bind(bare_frame(Some(env)), ps, args, 0);
    let h2 = h.push(fr);
    assert(h2[h.len() as int] == fr);
    if forall|l: int| 0 <= l < ps.len() && l < args.len() ==> ps[l] != k {
        lemma_bind_other(bare_frame(Some(env)), ps, args, 0, k);
        lemma_lookup_after_add(h, fr, env, k);
    }
    if 0 <= j < ps.len() && j < args.len() && forall|l: int| j < l < ps.len() && l < args.len() ==> ps[l] != ps[j] {
        lemma_bind_param(bare_frame(Some(env)), ps, args, 0, j);
    }
}

/// The hash a literal evaluates to never holds a key twice: a key written again takes the
/// later value in place.
pub proof fn lemma_hash_literal_distinct(
    f: nat,
    ps: Seq<(SExpr, SExpr)>,
    i: nat,
    acc: Seq<(SHashKey, SObject)>,
    env: nat,
    rs: Seq<SReply>,
    st: SState,
)
    requires
        keys_distinct(acc),
    ensures
        ev_hash(f, ps, i, acc, env, rs, st).0 matches SFlow::Val(SObject::Hash(p)) ==> keys_distinct(p),
    decreases f,
{
    if i < ps.len() && f > 0 {
        let g: nat = (f - 1) as nat;
        let (k, st1) = ev_expr(g, ps[i as int].0, env, rs, st);
        if !stops(k) {
            match spec_hash_key(k->Val_0) {
                Some(hk) => {
                    let (v, st2) = ev_expr(g, ps[i as int].1, env, rs, st1);
                    if !stops(v) {
                        lemma_hash_insert_distinct(acc, hk, v->Val_0);
                        lemma_hash_literal_distinct(g, ps, i + 1, hash_insert(acc, hk, v->Val_0), env, rs, st2);
                    }
                },
                None => {},
            }
        }
    }
}

/// A `return` or an error ends a program where it happens: when statement `i` returns or
/// fails, the program's value is the value returned, or the error, and the statements after
/// it do not run.
pub proof fn lemma_program_stops(f: nat, ss: Seq<SStmt>, i: nat, last: SObject, env: nat, rs: Seq<SReply>, st: SState)
    requires
        f > 0,
        i < ss.len(),
    ensures
        ({
            let (r, st1) = ev_stmt((f - 1) as nat, ss[i as int], env, rs, st);
            leaves_block(r) ==> ev_program(f, ss, i, last, env, rs, st) == (unwrap_return(r), st1)
                && ev_program(f, ss.subrange(0, i + 1int), i, last, env, rs, st) == (unwrap_return(r), st1)
        }),
{
    assert(ss.subrange(0, i + 1int)[i as int] == ss[i as int]);
}

/// Likewise in a block, where a `return` stays wrapped for the function around it to unwrap.
pub proof fn lemma_block_stops(f: nat, ss: Seq<SStmt>, i: nat, last: SObject, env: nat, rs: Seq<SReply>, st: SState)
    requires
        f > 0,
        i < ss.len(),
    ensures
        ({
            let (r, st1) = ev_stmt((f - 1) as nat, ss[i as int], env, rs, st);
            leaves_block(r) ==> ev_block(f, ss, i, last, env, rs, st) == (r, st1)
                && ev_block(f, ss.subrange(0, i + 1int), i, last, env, rs, st) == (r, st1)
        }),
{
    assert(ss.subrange(0, i + 1int)[i as int] == ss[i as int]);
}

/// Writes a token with `format!("{:?}", ..)`, through the `Debug` that `derive` gives `Token`.
#[verifier::external_body]
pub(crate) fn debug_token(t: &Token) -> (s: String)
    ensures
        s@ == token_debug(t@),
{
    format!("{:?}", t)
}

/// Writes an expression with `format!("{:?}", ..)`, through the `Debug` that `derive` gives
/// `Expression`.
#[verifier::external_body]
pub(crate) fn debug_expression(e: &Expression) -> (s: String)
    ensures
        s@ == expr_debug(e@),
{
    format!("{:?}", e)
}

/// Writes a list of strings with `format!("{:?}", ..)`, the `Debug` of `Vec<String>`.
#[verifier::external_body]
pub(crate) fn debug_strings(v: &Vec<String>) -> (s: String)
    ensures
        s@ == strings_debug(strings_view(v@)),
{
    format!("{:?}", v)
}

} // verus!
