use vstd::prelude::*;
use crate::ast::{SExpr, SStmt};
use crate::host::SReply;
use crate::object::{Builtin, SObject, SHashKey, spec_hash_key, hash_insert};
use crate::semantics::{SFlow, SState, stops, leaves_block, truthy, took, fresh, with_heap, empty_frame, bind, with_builtins, builtin_call, ev_expr, ev_prefix, ev_infix, ev_index, ev_if, ev_list, ev_hash, ev_while, ev_import, ev_member, ev_call, apply, ev_stmt, ev_let, ev_class, ev_block, ev_program};
use crate::environment::{SFrame, bare_frame, frame_set};
use crate::token::SToken;

verus! {

// ---------------------------------------------------------------------------
// Running again with a longer reply log.
//
// A program around the interpreter answers a request by adding a reply to the log and
// running the program again from the state it started in. That is sound because a run
// reads the log only up to the replies it uses: the same run with a longer log takes the
// same steps, unless it stopped to ask for outside work, and a run that asks has used
// every reply its log holds.
// ---------------------------------------------------------------------------

/// The log `more` holds every reply of `rs`, at the same place.
pub open spec fn extends(more: Seq<SReply>, rs: Seq<SReply>) -> bool {
    &&& rs.len() <= more.len()
    &&& forall|i: int| 0 <= i < rs.len() ==> more[i] == rs[i]
}

/// How a run `r` with a log of `n` replies and the same run `r2` with a longer log relate:
/// the first uses no reply past the log; unless it asks for outside work the two agree; and
/// if it asks, it has used all `n` replies.
pub open spec fn replays(r: (SFlow, SState), r2: (SFlow, SState), n: nat) -> bool {
    &&& r.1.used <= n
    &&& !(r.0 is Req) ==> r2 == r
    &&& r.0 is Req ==> r.1.used == n
}

/// The same relation for the evaluation of a list of expressions.
pub open spec fn replays_list(
    r: (Result<Seq<SObject>, SFlow>, SState),
    r2: (Result<Seq<SObject>, SFlow>, SState),
    n: nat,
) -> bool {
    &&& r.1.used <= n
    &&& !(r.0 matches Err(SFlow::Req(_))) ==> r2 == r
    &&& (r.0 matches Err(SFlow::Req(_))) ==> r.1.used == n
}

/// A builtin call reads the log only at the next unused reply.
pub proof fn lemma_replay_builtin(b: Builtin, args: Seq<SObject>, rs: Seq<SReply>, more: Seq<SReply>, st: SState)
    requires
        extends(more, rs),
        st.used <= rs.len(),
    ensures
        replays(builtin_call(b, args, rs, st), builtin_call(b, args, more, st), rs.len()),
{
    if st.used < rs.len() {
        assert(more[st.used as int] == rs[st.used as int]);
    }
}

/// Running an expression again with a longer log.
pub proof fn lemma_replay_expr(f: nat, e: SExpr, env: nat, rs: Seq<SReply>, more: Seq<SReply>, st: SState)
    requires
        extends(more, rs),
        st.used <= rs.len(),
    ensures
        replays(ev_expr(f, e, env, rs, st), ev_expr(f, e, env, more, st), rs.len()),
    decreases f, 0nat,
{
    if f > 0 {
        let g: nat = (f - 1) as nat;
        match e {
            SExpr::Prefix { operator, right } => lemma_replay_prefix(g, operator, *right, env, rs, more, st),
            SExpr::Infix { left, operator, right } => lemma_replay_infix(g, *left, operator, *right, env, rs, more, st),
            SExpr::If { condition, consequence, alternative } => lemma_replay_if(
                g,
                *condition,
                *consequence,
                alternative,
                env,
                rs,
                more,
                st,
            ),
            SExpr::Call { function, arguments } => lemma_replay_call(g, *function, arguments, env, rs, more, st),
            SExpr::ArrayLiteral(es) => lemma_replay_list(g, es, 0, Seq::empty(), env, rs, more, st),
            SExpr::IndexExpression { left, index } => lemma_replay_index(g, *left, *index, env, rs, more, st),
            SExpr::HashLiteral(ps) => lemma_replay_hash(g, ps, 0, Seq::empty(), env, rs, more, st),
            SExpr::WhileExpression { condition, body } => lemma_replay_while(g, *condition, *body, env, rs, more, st),
            SExpr::ImportExpression(p) => lemma_replay_import(g, *p, env, rs, more, st),
            SExpr::MemberExpression { left, property } => lemma_replay_member(g, *left, property, env, rs, more, st),
            _ => {},
        }
    }
}

proof fn lemma_replay_prefix(f: nat, op: SToken, right: SExpr, env: nat, rs: Seq<SReply>, more: Seq<SReply>, st: SState)
    requires
        extends(more, rs),
        st.used <= rs.len(),
    ensures
        replays(ev_prefix(f, op, right, env, rs, st), ev_prefix(f, op, right, env, more, st), rs.len()),
    decreases f, 1nat,
{
    lemma_replay_expr(f, right, env, rs, more, st);
}

proof fn lemma_replay_infix(f: nat, left: SExpr, op: SToken, right: SExpr, env: nat, rs: Seq<SReply>, more: Seq<SReply>, st: SState)
    requires
        extends(more, rs),
        st.used <= rs.len(),
    ensures
        replays(ev_infix(f, left, op, right, env, rs, st), ev_infix(f, left, op, right, env, more, st), rs.len()),
    decreases f, 1nat,
{
    lemma_replay_expr(f, left, env, rs, more, st);
    let (l, st1) = ev_expr(f, left, env, rs, st);
    if !stops(l) {
        lemma_replay_expr(f, right, env, rs, more, st1);
    }
}

proof fn lemma_replay_index(f: nat, left: SExpr, index: SExpr, env: nat, rs: Seq<SReply>, more: Seq<SReply>, st: SState)
    requires
        extends(more, rs),
        st.used <= rs.len(),
    ensures
        replays(ev_index(f, left, index, env, rs, st), ev_index(f, left, index, env, more, st), rs.len()),
    decreases f, 1nat,
{
    lemma_replay_expr(f, left, env, rs, more, st);
    let (l, st1) = ev_expr(f, left, env, rs, st);
    if !stops(l) {
        lemma_replay_expr(f, index, env, rs, more, st1);
    }
}

proof fn lemma_replay_if(
    f: nat,
    cond: SExpr,
    cons: SStmt,
    alt: Option<Box<SStmt>>,
    env: nat,
    rs: Seq<SReply>,
    more: Seq<SReply>,
    st: SState,
)
    requires
        extends(more, rs),
        st.used <= rs.len(),
    ensures
        replays(ev_if(f, cond, cons, alt, env, rs, st), ev_if(f, cond, cons, alt, env, more, st), rs.len()),
    decreases f, 1nat,
{
    lemma_replay_expr(f, cond, env, rs, more, st);
    let (c, st1) = ev_expr(f, cond, env, rs, st);
    if !stops(c) {
        if truthy(c->Val_0) {
            lemma_replay_stmt(f, cons, env, rs, more, st1);
        } else {
            match alt {
                Some(a) => lemma_replay_stmt(f, *a, env, rs, more, st1),
                None => {},
            }
        }
    }
}

proof fn lemma_replay_list(
    f: nat,
    es: Seq<SExpr>,
    i: nat,
    acc: Seq<SObject>,
    env: nat,
    rs: Seq<SReply>,
    more: Seq<SReply>,
    st: SState,
)
    requires
        extends(more, rs),
        st.used <= rs.len(),
    ensures
        replays_list(ev_list(f, es, i, acc, env, rs, st), ev_list(f, es, i, acc, env, more, st), rs.len()),
    decreases f, 0nat,
{
    if i < es.len() && f > 0 {
        let g: nat = (f - 1) as nat;
        lemma_replay_expr(g, es[i as int], env, rs, more, st);
        let (r, st1) = ev_expr(g, es[i as int], env, rs, st);
        if !stops(r) {
            lemma_replay_list(g, es, i + 1, acc.push(r->Val_0), env, rs, more, st1);
        }
    }
}

proof fn lemma_replay_hash(
    f: nat,
    ps: Seq<(SExpr, SExpr)>,
    i: nat,
    acc: Seq<(SHashKey, SObject)>,
    env: nat,
    rs: Seq<SReply>,
    more: Seq<SReply>,
    st: SState,
)
    requires
        extends(more, rs),
        st.used <= rs.len(),
    ensures
        replays(ev_hash(f, ps, i, acc, env, rs, st), ev_hash(f, ps, i, acc, env, more, st), rs.len()),
    decreases f, 0nat,
{
    if i < ps.len() && f > 0 {
        let g: nat = (f - 1) as nat;
        lemma_replay_expr(g, ps[i as int].0, env, rs, more, st);
        let (k, st1) = ev_expr(g, ps[i as int].0, env, rs, st);
        if !stops(k) {
            match spec_hash_key(k->Val_0) {
                Some(hk) => {
                    lemma_replay_expr(g, ps[i as int].1, env, rs, more, st1);
                    let (v, st2) = ev_expr(g, ps[i as int].1, env, rs, st1);
                    if !stops(v) {
                        lemma_replay_hash(g, ps, i + 1, hash_insert(acc, hk, v->Val_0), env, rs, more, st2);
                    }
                },
                None => {},
            }
        }
    }
}

proof fn lemma_replay_while(f: nat, cond: SExpr, body: SStmt, env: nat, rs: Seq<SReply>, more: Seq<SReply>, st: SState)
    requires
        extends(more, rs),
        st.used <= rs.len(),
    ensures
        replays(ev_while(f, cond, body, env, rs, st), ev_while(f, cond, body, env, more, st), rs.len()),
    decreases f, 0nat,
{
    if f > 0 {
        let g: nat = (f - 1) as nat;
        lemma_replay_expr(g, cond, env, rs, more, st);
        let (c, st1) = ev_expr(g, cond, env, rs, st);
        if !stops(c) && truthy(c->Val_0) {
            lemma_replay_stmt(g, body, env, rs, more, st1);
            let (r, st2) = ev_stmt(g, body, env, rs, st1);
            if !leaves_block(r) {
                lemma_replay_while(g, cond, body, env, rs, more, st2);
            }
        }
    }
}

proof fn lemma_replay_import(f: nat, path: SExpr, env: nat, rs: Seq<SReply>, more: Seq<SReply>, st: SState)
    requires
        extends(more, rs),
        st.used <= rs.len(),
    ensures
        replays(ev_import(f, path, env, rs, st), ev_import(f, path, env, more, st), rs.len()),
    decreases f, 1nat,
{
    lemma_replay_expr(f, path, env, rs, more, st);
    let (p, st1) = ev_expr(f, path, env, rs, st);
    if !stops(p) && st1.used < rs.len() {
        assert(more[st1.used as int] == rs[st1.used as int]);
        match rs[st1.used as int] {
            SReply::Module(prog) => {
                let st2 = took(st1);
                match fresh(st2, empty_frame()) {
                    Some((id, st3)) => {
                        let st4 = with_heap(st3, with_builtins(st3.heap, id, 0));
                        lemma_replay_program(f, prog, 0, SObject::Null, id, rs, more, st4);
                    },
                    None => {},
                }
            },
            _ => {},
        }
    }
}

proof fn lemma_replay_member(f: nat, left: SExpr, prop: Seq<char>, env: nat, rs: Seq<SReply>, more: Seq<SReply>, st: SState)
    requires
        extends(more, rs),
        st.used <= rs.len(),
    ensures
        replays(ev_member(f, left, prop, env, rs, st), ev_member(f, left, prop, env, more, st), rs.len()),
    decreases f, 1nat,
{
    lemma_replay_expr(f, left, env, rs, more, st);
}

proof fn lemma_replay_call(f: nat, func: SExpr, args: Seq<SExpr>, env: nat, rs: Seq<SReply>, more: Seq<SReply>, st: SState)
    requires
        extends(more, rs),
        st.used <= rs.len(),
    ensures
        replays(ev_call(f, func, args, env, rs, st), ev_call(f, func, args, env, more, st), rs.len()),
    decreases f, 1nat,
{
    lemma_replay_expr(f, func, env, rs, more, st);
    let (fv, st1) = ev_expr(f, func, env, rs, st);
    if !stops(fv) {
        lemma_replay_list(f, args, 0, Seq::empty(), env, rs, more, st1);
        let (a, st2) = ev_list(f, args, 0, Seq::empty(), env, rs, st1);
        match a {
            Ok(vals) => lemma_replay_apply(f, fv->Val_0, vals, env, rs, more, st2),
            Err(_) => {},
        }
    }
}

/// Calling a function again with a longer log.
pub proof fn lemma_replay_apply(f: nat, fv: SObject, args: Seq<SObject>, env: nat, rs: Seq<SReply>, more: Seq<SReply>, st: SState)
    requires
        extends(more, rs),
        st.used <= rs.len(),
    ensures
        replays(apply(f, fv, args, env, rs, st), apply(f, fv, args, env, more, st), rs.len()),
    decreases f, 0nat,
{
    if f > 0 {
        let g: nat = (f - 1) as nat;
        match fv {
            SObject::Function { parameters, body } => {
                let fr = bind(bare_frame(Some(env)), parameters, args, 0);
                match fresh(st, fr) {
                    Some((id, st1)) => lemma_replay_stmt(g, body, id, rs, more, st1),
                    None => {},
                }
            },
            SObject::BoundMethod { instance, method } => match *method {
                SObject::Function { parameters, body } => {
                    let fr = bind(frame_set(bare_frame(Some(env)), "self"@, *instance), parameters, args, 0);
                    match fresh(st, fr) {
                        Some((id, st1)) => lemma_replay_stmt(g, body, id, rs, more, st1),
                        None => {},
                    }
                },
                _ => {},
            },
            SObject::Builtin(b) => lemma_replay_builtin(b, args, rs, more, st),
            _ => {},
        }
    }
}

/// Running a statement again with a longer log.
pub proof fn lemma_replay_stmt(f: nat, s: SStmt, env: nat, rs: Seq<SReply>, more: Seq<SReply>, st: SState)
    requires
        extends(more, rs),
        st.used <= rs.len(),
    ensures
        replays(ev_stmt(f, s, env, rs, st), ev_stmt(f, s, env, more, st), rs.len()),
    decreases f, 0nat,
{
    if f > 0 {
        let g: nat = (f - 1) as nat;
        match s {
            SStmt::Expression(e) => lemma_replay_expr(g, e, env, rs, more, st),
            SStmt::Return(e) => lemma_replay_expr(g, e, env, rs, more, st),
            SStmt::Let { name, value } => lemma_replay_let(g, name, value, env, rs, more, st),
            SStmt::Block(ss) => lemma_replay_block(g, ss, 0, SObject::Null, env, rs, more, st),
            SStmt::ClassStatement { name, body } => lemma_replay_class(g, name, *body, env, rs, more, st),
        }
    }
}

proof fn lemma_replay_let(f: nat, name: SExpr, value: SExpr, env: nat, rs: Seq<SReply>, more: Seq<SReply>, st: SState)
    requires
        extends(more, rs),
        st.used <= rs.len(),
    ensures
        replays(ev_let(f, name, value, env, rs, st), ev_let(f, name, value, env, more, st), rs.len()),
    decreases f, 1nat,
{
    lemma_replay_expr(f, value, env, rs, more, st);
    let (v, st1) = ev_expr(f, value, env, rs, st);
    if !stops(v) {
        match name {
            SExpr::MemberExpression { left, property } => lemma_replay_expr(f, *left, env, rs, more, st1),
            _ => {},
        }
    }
}

proof fn lemma_replay_class(f: nat, name: Seq<char>, body: SStmt, env: nat, rs: Seq<SReply>, more: Seq<SReply>, st: SState)
    requires
        extends(more, rs),
        st.used <= rs.len(),
    ensures
        replays(ev_class(f, name, body, env, rs, st), ev_class(f, name, body, env, more, st), rs.len()),
    decreases f, 1nat,
{
    match fresh(st, empty_frame()) {
        Some((id, st1)) => lemma_replay_stmt(f, body, id, rs, more, st1),
        None => {},
    }
}

proof fn lemma_replay_block(
    f: nat,
    ss: Seq<SStmt>,
    i: nat,
    last: SObject,
    env: nat,
    rs: Seq<SReply>,
    more: Seq<SReply>,
    st: SState,
)
    requires
        extends(more, rs),
        st.used <= rs.len(),
    ensures
        replays(ev_block(f, ss, i, last, env, rs, st), ev_block(f, ss, i, last, env, more, st), rs.len()),
    decreases f, 0nat,
{
    if i < ss.len() && f > 0 {
        let g: nat = (f - 1) as nat;
        lemma_replay_stmt(g, ss[i as int], env, rs, more, st);
        let (r, st1) = ev_stmt(g, ss[i as int], env, rs, st);
        if !leaves_block(r) {
            lemma_replay_block(g, ss, i + 1, r->Val_0, env, rs, more, st1);
        }
    }
}

/// Running a program again with a longer log of replies: a run that ends without asking for
/// outside work ends the same way, in the same state; a run that asks has used every reply
/// of its log, so the next reply added to the log is the answer to that very request. No run
/// uses a reply past the end of its log.
pub proof fn lemma_replay_program(
    f: nat,
    ss: Seq<SStmt>,
    i: nat,
    last: SObject,
    env: nat,
    rs: Seq<SReply>,
    more: Seq<SReply>,
    st: SState,
)
    requires
        extends(more, rs),
        st.used <= rs.len(),
    ensures
        replays(ev_program(f, ss, i, last, env, rs, st), ev_program(f, ss, i, last, env, more, st), rs.len()),
    decreases f, 0nat,
{
    if i < ss.len() && f > 0 {
        let g: nat = (f - 1) as nat;
        lemma_replay_stmt(g, ss[i as int], env, rs, more, st);
        let (r, st1) = ev_stmt(g, ss[i as int], env, rs, st);
        if !leaves_block(r) {
            lemma_replay_program(g, ss, i + 1, r->Val_0, env, rs, more, st1);
        }
    }
}

} // verus!
