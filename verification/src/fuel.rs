use vstd::prelude::*;
use crate::ast::{SExpr, SStmt};
use crate::host::SReply;
use crate::object::{SObject, SHashKey, spec_hash_key, hash_insert};
use crate::semantics::{SFlow, SState, stops, leaves_block, truthy, took, fresh, with_heap, empty_frame, bind, with_builtins, ev_expr, ev_prefix, ev_infix, ev_index, ev_if, ev_list, ev_hash, ev_while, ev_import, ev_member, ev_call, apply, ev_stmt, ev_let, ev_class, ev_block, ev_program};
use crate::environment::{SFrame, bare_frame, frame_set, heap_lookup, heap_set, lemma_lookup_after_set, lemma_lookup_other_after_set};
use crate::token::SToken;

verus! {

// ---------------------------------------------------------------------------
// Fuel.
//
// Every step of evaluation spends a unit of fuel, and a run that has no fuel left stops
// with `SFlow::Fuel`. A run that ends otherwise ends the same way with any more fuel; the
// laws of evaluation below that compare two runs rest on that.
// ---------------------------------------------------------------------------

/// A run `r` and the same run `r2` with more fuel: unless the first ran out of fuel, they agree.
pub open spec fn more_fuel(r: (SFlow, SState), r2: (SFlow, SState)) -> bool {
    !(r.0 is Fuel) ==> r2 == r
}

/// The same relation for the evaluation of a list of expressions.
pub open spec fn more_fuel_list(
    r: (Result<Seq<SObject>, SFlow>, SState),
    r2: (Result<Seq<SObject>, SFlow>, SState),
) -> bool {
    !(r.0 matches Err(SFlow::Fuel)) ==> r2 == r
}

/// An expression evaluated with more fuel.
pub proof fn lemma_fuel_expr(f: nat, f2: nat, e: SExpr, env: nat, rs: Seq<SReply>, st: SState)
    requires
        f <= f2,
    ensures
        more_fuel(ev_expr(f, e, env, rs, st), ev_expr(f2, e, env, rs, st)),
    decreases f, 0nat,
{
    if f > 0 {
        let g: nat = (f - 1) as nat;
        let g2: nat = (f2 - 1) as nat;
        match e {
            SExpr::Prefix { operator, right } => lemma_fuel_prefix(g, g2, operator, *right, env, rs, st),
            SExpr::Infix { left, operator, right } => lemma_fuel_infix(g, g2, *left, operator, *right, env, rs, st),
            SExpr::If { condition, consequence, alternative } => lemma_fuel_if(
                g,
                g2,
                *condition,
                *consequence,
                alternative,
                env,
                rs,
                st,
            ),
            SExpr::Call { function, arguments } => lemma_fuel_call(g, g2, *function, arguments, env, rs, st),
            SExpr::ArrayLiteral(es) => lemma_fuel_list(g, g2, es, 0, Seq::empty(), env, rs, st),
            SExpr::IndexExpression { left, index } => lemma_fuel_index(g, g2, *left, *index, env, rs, st),
            SExpr::HashLiteral(ps) => lemma_fuel_hash(g, g2, ps, 0, Seq::empty(), env, rs, st),
            SExpr::WhileExpression { condition, body } => lemma_fuel_while(g, g2, *condition, *body, env, rs, st),
            SExpr::ImportExpression(p) => lemma_fuel_import(g, g2, *p, env, rs, st),
            SExpr::MemberExpression { left, property } => lemma_fuel_member(g, g2, *left, property, env, rs, st),
            _ => {},
        }
    }
}

proof fn lemma_fuel_prefix(f: nat, f2: nat, op: SToken, right: SExpr, env: nat, rs: Seq<SReply>, st: SState)
    requires
        f <= f2,
    ensures
        more_fuel(ev_prefix(f, op, right, env, rs, st), ev_prefix(f2, op, right, env, rs, st)),
    decreases f, 1nat,
{
    lemma_fuel_expr(f, f2, right, env, rs, st);
}

proof fn lemma_fuel_infix(f: nat, f2: nat, left: SExpr, op: SToken, right: SExpr, env: nat, rs: Seq<SReply>, st: SState)
    requires
        f <= f2,
    ensures
        more_fuel(ev_infix(f, left, op, right, env, rs, st), ev_infix(f2, left, op, right, env, rs, st)),
    decreases f, 1nat,
{
    lemma_fuel_expr(f, f2, left, env, rs, st);
    let (l, st1) = ev_expr(f, left, env, rs, st);
    if !stops(l) {
        lemma_fuel_expr(f, f2, right, env, rs, st1);
    }
}

proof fn lemma_fuel_index(f: nat, f2: nat, left: SExpr, index: SExpr, env: nat, rs: Seq<SReply>, st: SState)
    requires
        f <= f2,
    ensures
        more_fuel(ev_index(f, left, index, env, rs, st), ev_index(f2, left, index, env, rs, st)),
    decreases f, 1nat,
{
    lemma_fuel_expr(f, f2, left, env, rs, st);
    let (l, st1) = ev_expr(f, left, env, rs, st);
    if !stops(l) {
        lemma_fuel_expr(f, f2, index, env, rs, st1);
    }
}

proof fn lemma_fuel_if(
    f: nat,
    f2: nat,
    cond: SExpr,
    cons: SStmt,
    alt: Option<Box<SStmt>>,
    env: nat,
    rs: Seq<SReply>,
    st: SState,
)
    requires
        f <= f2,
    ensures
        more_fuel(ev_if(f, cond, cons, alt, env, rs, st), ev_if(f2, cond, cons, alt, env, rs, st)),
    decreases f, 1nat,
{
    lemma_fuel_expr(f, f2, cond, env, rs, st);
    let (c, st1) = ev_expr(f, cond, env, rs, st);
    if !stops(c) {
        if truthy(c->Val_0) {
            lemma_fuel_stmt(f, f2, cons, env, rs, st1);
        } else {
            match alt {
                Some(a) => lemma_fuel_stmt(f, f2, *a, env, rs, st1),
                None => {},
            }
        }
    }
}

proof fn lemma_fuel_list(
    f: nat,
    f2: nat,
    es: Seq<SExpr>,
    i: nat,
    acc: Seq<SObject>,
    env: nat,
    rs: Seq<SReply>,
    st: SState,
)
    requires
        f <= f2,
    ensures
        more_fuel_list(ev_list(f, es, i, acc, env, rs, st), ev_list(f2, es, i, acc, env, rs, st)),
    decreases f, 0nat,
{
    if i < es.len() && f > 0 {
        let g: nat = (f - 1) as nat;
        let g2: nat = (f2 - 1) as nat;
        lemma_fuel_expr(g, g2, es[i as int], env, rs, st);
        let (r, st1) = ev_expr(g, es[i as int], env, rs, st);
        if !stops(r) {
            lemma_fuel_list(g, g2, es, i + 1, acc.push(r->Val_0), env, rs, st1);
        }
    }
}

proof fn lemma_fuel_hash(
    f: nat,
    f2: nat,
    ps: Seq<(SExpr, SExpr)>,
    i: nat,
    acc: Seq<(SHashKey, SObject)>,
    env: nat,
    rs: Seq<SReply>,
    st: SState,
)
    requires
        f <= f2,
    ensures
        more_fuel(ev_hash(f, ps, i, acc, env, rs, st), ev_hash(f2, ps, i, acc, env, rs, st)),
    decreases f, 0nat,
{
    if i < ps.len() && f > 0 {
        let g: nat = (f - 1) as nat;
        let g2: nat = (f2 - 1) as nat;
        lemma_fuel_expr(g, g2, ps[i as int].0, env, rs, st);
        let (k, st1) = ev_expr(g, ps[i as int].0, env, rs, st);
        if !stops(k) {
            match spec_hash_key(k->Val_0) {
                Some(hk) => {
                    lemma_fuel_expr(g, g2, ps[i as int].1, env, rs, st1);
                    let (v, st2) = ev_expr(g, ps[i as int].1, env, rs, st1);
                    if !stops(v) {
                        lemma_fuel_hash(g, g2, ps, i + 1, hash_insert(acc, hk, v->Val_0), env, rs, st2);
                    }
                },
                None => {},
            }
        }
    }
}

proof fn lemma_fuel_while(f: nat, f2: nat, cond: SExpr, body: SStmt, env: nat, rs: Seq<SReply>, st: SState)
    requires
        f <= f2,
    ensures
        more_fuel(ev_while(f, cond, body, env, rs, st), ev_while(f2, cond, body, env, rs, st)),
    decreases f, 0nat,
{
    if f > 0 {
        let g: nat = (f - 1) as nat;
        let g2: nat = (f2 - 1) as nat;
        lemma_fuel_expr(g, g2, cond, env, rs, st);
        let (c, st1) = ev_expr(g, cond, env, rs, st);
        if !stops(c) && truthy(c->Val_0) {
            lemma_fuel_stmt(g, g2, body, env, rs, st1);
            let (r, st2) = ev_stmt(g, body, env, rs, st1);
            if !leaves_block(r) {
                lemma_fuel_while(g, g2, cond, body, env, rs, st2);
            }
        }
    }
}

proof fn lemma_fuel_import(f: nat, f2: nat, path: SExpr, env: nat, rs: Seq<SReply>, st: SState)
    requires
        f <= f2,
    ensures
        more_fuel(ev_import(f, path, env, rs, st), ev_import(f2, path, env, rs, st)),
    decreases f, 1nat,
{
    lemma_fuel_expr(f, f2, path, env, rs, st);
    let (p, st1) = ev_expr(f, path, env, rs, st);
    if !stops(p) && st1.used < rs.len() {
        match rs[st1.used as int] {
            SReply::Module(prog) => {
                let st2 = took(st1);
                match fresh(st2, empty_frame()) {
                    Some((id, st3)) => {
                        let st4 = with_heap(st3, with_builtins(st3.heap, id, 0));
                        lemma_fuel_program(f, f2, prog, 0, SObject::Null, id, rs, st4);
                    },
                    None => {},
                }
            },
            _ => {},
        }
    }
}

proof fn lemma_fuel_member(f: nat, f2: nat, left: SExpr, prop: Seq<char>, env: nat, rs: Seq<SReply>, st: SState)
    requires
        f <= f2,
    ensures
        more_fuel(ev_member(f, left, prop, env, rs, st), ev_member(f2, left, prop, env, rs, st)),
    decreases f, 1nat,
{
    lemma_fuel_expr(f, f2, left, env, rs, st);
}

proof fn lemma_fuel_call(f: nat, f2: nat, func: SExpr, args: Seq<SExpr>, env: nat, rs: Seq<SReply>, st: SState)
    requires
        f <= f2,
    ensures
        more_fuel(ev_call(f, func, args, env, rs, st), ev_call(f2, func, args, env, rs, st)),
    decreases f, 1nat,
{
    lemma_fuel_expr(f, f2, func, env, rs, st);
    let (fv, st1) = ev_expr(f, func, env, rs, st);
    if !stops(fv) {
        lemma_fuel_list(f, f2, args, 0, Seq::empty(), env, rs, st1);
        let (a, st2) = ev_list(f, args, 0, Seq::empty(), env, rs, st1);
        match a {
            Ok(vals) => lemma_fuel_apply(f, f2, fv->Val_0, vals, env, rs, st2),
            Err(_) => {},
        }
    }
}

/// A function called with more fuel.
pub proof fn lemma_fuel_apply(f: nat, f2: nat, fv: SObject, args: Seq<SObject>, env: nat, rs: Seq<SReply>, st: SState)
    requires
        f <= f2,
    ensures
        more_fuel(apply(f, fv, args, env, rs, st), apply(f2, fv, args, env, rs, st)),
    decreases f, 0nat,
{
    if f > 0 {
        let g: nat = (f - 1) as nat;
        let g2: nat = (f2 - 1) as nat;
        match fv {
            SObject::Function { parameters, body } => {
                let fr = bind(bare_frame(Some(env)), parameters, args, 0);
                match fresh(st, fr) {
                    Some((id, st1)) => lemma_fuel_stmt(g, g2, body, id, rs, st1),
                    None => {},
                }
            },
            SObject::BoundMethod { instance, method } => match *method {
                SObject::Function { parameters, body } => {
                    let fr = bind(frame_set(bare_frame(Some(env)), "self"@, *instance), parameters, args, 0);
                    match fresh(st, fr) {
                        Some((id, st1)) => lemma_fuel_stmt(g, g2, body, id, rs, st1),
                        None => {},
                    }
                },
                _ => {},
            },
            SObject::Builtin(_) => {},
            _ => {},
        }
    }
}

/// A statement evaluated with more fuel.
pub proof fn lemma_fuel_stmt(f: nat, f2: nat, s: SStmt, env: nat, rs: Seq<SReply>, st: SState)
    requires
        f <= f2,
    ensures
        more_fuel(ev_stmt(f, s, env, rs, st), ev_stmt(f2, s, env, rs, st)),
    decreases f, 0nat,
{
    if f > 0 {
        let g: nat = (f - 1) as nat;
        let g2: nat = (f2 - 1) as nat;
        match s {
            SStmt::Expression(e) => lemma_fuel_expr(g, g2, e, env, rs, st),
            SStmt::Return(e) => lemma_fuel_expr(g, g2, e, env, rs, st),
            SStmt::Let { name, value } => lemma_fuel_let(g, g2, name, value, env, rs, st),
            SStmt::Block(ss) => lemma_fuel_block(g, g2, ss, 0, SObject::Null, env, rs, st),
            SStmt::ClassStatement { name, body } => lemma_fuel_class(g, g2, name, *body, env, rs, st),
        }
    }
}

proof fn lemma_fuel_let(f: nat, f2: nat, name: SExpr, value: SExpr, env: nat, rs: Seq<SReply>, st: SState)
    requires
        f <= f2,
    ensures
        more_fuel(ev_let(f, name, value, env, rs, st), ev_let(f2, name, value, env, rs, st)),
    decreases f, 1nat,
{
    lemma_fuel_expr(f, f2, value, env, rs, st);
    let (v, st1) = ev_expr(f, value, env, rs, st);
    if !stops(v) {
        match name {
            SExpr::MemberExpression { left, property } => lemma_fuel_expr(f, f2, *left, env, rs, st1),
            _ => {},
        }
    }
}

proof fn lemma_fuel_class(f: nat, f2: nat, name: Seq<char>, body: SStmt, env: nat, rs: Seq<SReply>, st: SState)
    requires
        f <= f2,
    ensures
        more_fuel(ev_class(f, name, body, env, rs, st), ev_class(f2, name, body, env, rs, st)),
    decreases f, 1nat,
{
    match fresh(st, empty_frame()) {
        Some((id, st1)) => lemma_fuel_stmt(f, f2, body, id, rs, st1),
        None => {},
    }
}

/// A block evaluated with more fuel.
pub proof fn lemma_fuel_block(
    f: nat,
    f2: nat,
    ss: Seq<SStmt>,
    i: nat,
    last: SObject,
    env: nat,
    rs: Seq<SReply>,
    st: SState,
)
    requires
        f <= f2,
    ensures
        more_fuel(ev_block(f, ss, i, last, env, rs, st), ev_block(f2, ss, i, last, env, rs, st)),
    decreases f, 0nat,
{
    if i < ss.len() && f > 0 {
        let g: nat = (f - 1) as nat;
        let g2: nat = (f2 - 1) as nat;
        lemma_fuel_stmt(g, g2, ss[i as int], env, rs, st);
        let (r, st1) = ev_stmt(g, ss[i as int], env, rs, st);
        if !leaves_block(r) {
            lemma_fuel_block(g, g2, ss, i + 1, r->Val_0, env, rs, st1);
        }
    }
}

/// More fuel changes nothing once there is enough: a program run that does not run out of
/// fuel ends the same way, in the same state, with any more fuel.
pub proof fn lemma_fuel_program(
    f: nat,
    f2: nat,
    ss: Seq<SStmt>,
    i: nat,
    last: SObject,
    env: nat,
    rs: Seq<SReply>,
    st: SState,
)
    requires
        f <= f2,
    ensures
        more_fuel(ev_program(f, ss, i, last, env, rs, st), ev_program(f2, ss, i, last, env, rs, st)),
    decreases f, 0nat,
{
    if i < ss.len() && f > 0 {
        let g: nat = (f - 1) as nat;
        let g2: nat = (f2 - 1) as nat;
        lemma_fuel_stmt(g, g2, ss[i as int], env, rs, st);
        let (r, st1) = ev_stmt(g, ss[i as int], env, rs, st);
        if !leaves_block(r) {
            lemma_fuel_program(g, g2, ss, i + 1, r->Val_0, env, rs, st1);
        }
    }
}


// ---------------------------------------------------------------------------
// Laws of evaluation that compare two runs.
// ---------------------------------------------------------------------------

/// An error in the first part of a compound expression is the value of the whole, and nothing
/// after it runs: once `l` evaluates to an error (with `f` units of fuel), every expression that
/// evaluates `l` first (a prefix or infix operator, an index, a call of `l`, an array that
/// starts with `l`, a `when` on `l`, a property of `l`) evaluates, with two or more units
/// more, to that same error, in the same state.
pub proof fn lemma_error_stops_compound(
    f: nat,
    g: nat,
    l: SExpr,
    env: nat,
    rs: Seq<SReply>,
    st: SState,
    op: SToken,
    r: SExpr,
    args: Seq<SExpr>,
    rest: Seq<SExpr>,
    cs: SStmt,
    alt: Option<Box<SStmt>>,
    prop: Seq<char>,
)
    requires
        ev_expr(f, l, env, rs, st).0 matches SFlow::Val(SObject::Error(_)),
        f + 2 <= g,
    ensures
        ev_expr(g, SExpr::Prefix { operator: op, right: Box::new(l) }, env, rs, st) == ev_expr(f, l, env, rs, st),
        ev_expr(g, SExpr::Infix { left: Box::new(l), operator: op, right: Box::new(r) }, env, rs, st) == ev_expr(
            f,
            l,
            env,
            rs,
            st,
        ),
        ev_expr(g, SExpr::IndexExpression { left: Box::new(l), index: Box::new(r) }, env, rs, st) == ev_expr(
            f,
            l,
            env,
            rs,
            st,
        ),
        ev_expr(g, SExpr::Call { function: Box::new(l), arguments: args }, env, rs, st) == ev_expr(f, l, env, rs, st),
        ev_expr(g, SExpr::ArrayLiteral(seq![l] + rest), env, rs, st) == ev_expr(f, l, env, rs, st),
        ev_expr(g, SExpr::If { condition: Box::new(l), consequence: Box::new(cs), alternative: alt }, env, rs, st)
            == ev_expr(f, l, env, rs, st),
        ev_expr(g, SExpr::MemberExpression { left: Box::new(l), property: prop }, env, rs, st) == ev_expr(
            f,
            l,
            env,
            rs,
            st,
        ),
{
    lemma_fuel_expr(f, (g - 1) as nat, l, env, rs, st);
    lemma_fuel_expr(f, (g - 2) as nat, l, env, rs, st);
    assert((seq![l] + rest)[0] == l);
}

/// A `when` runs the branch its condition picks: once the condition evaluates (with `f` units
/// of fuel) to a value that is not an error, the `when` evaluates, with any more fuel, as the
/// consequence if that value is neither `null` nor `false`, else as the alternative, or to
/// `null` without one; the branch runs in the state the condition left.
pub proof fn lemma_if_rule(f: nat, g: nat, cond: SExpr, cs: SStmt, alt: Option<Box<SStmt>>, env: nat, rs: Seq<SReply>, st: SState)
    requires
        f < g,
        !stops(ev_expr(f, cond, env, rs, st).0),
    ensures
        ({
            let (c, st1) = ev_expr(f, cond, env, rs, st);
            ev_expr(g, SExpr::If { condition: Box::new(cond), consequence: Box::new(cs), alternative: alt }, env, rs, st)
                == if truthy(c->Val_0) {
                ev_stmt((g - 1) as nat, cs, env, rs, st1)
            } else {
                match alt {
                    Some(a) => ev_stmt((g - 1) as nat, *a, env, rs, st1),
                    None => (SFlow::Val(SObject::Null), st1),
                }
            }
        }),
{
    lemma_fuel_expr(f, (g - 1) as nat, cond, env, rs, st);
}

/// `let name = value` binds the value in the scope itself: once `value` evaluates (with `f`
/// units of fuel) to a value that is not an error, the statement evaluates, with any more
/// fuel, to `null`; the name then reads as that value in the scope, the scope's other names
/// and every other scope are untouched, and no reply is used beyond those `value` used.
pub proof fn lemma_let_binds(f: nat, g: nat, id: Seq<char>, value: SExpr, env: nat, rs: Seq<SReply>, st: SState)
    requires
        f < g,
        !stops(ev_expr(f, value, env, rs, st).0),
    ensures
        ({
            let (v, st1) = ev_expr(f, value, env, rs, st);
            let (r, st2) = ev_stmt(g, SStmt::Let { name: SExpr::Identifier(id), value }, env, rs, st);
            &&& r == SFlow::Val(SObject::Null)
            &&& st2.used == st1.used
            &&& st2.heap == heap_set(st1.heap, env, id, v->Val_0)
            &&& env < st1.heap.len() ==> heap_lookup(st2.heap, env, id) == Some(v->Val_0)
                && st2.heap[env as int].vars == st1.heap[env as int].vars.insert(id, v->Val_0)
                && st2.heap[env as int].outer == st1.heap[env as int].outer
            &&& forall|j: int| 0 <= j < st1.heap.len() && j != env ==> st2.heap[j] == st1.heap[j]
            &&& forall|j: nat, n: Seq<char>| n != id ==> heap_lookup(st2.heap, j, n) == heap_lookup(st1.heap, j, n)
        }),
{
    lemma_fuel_expr(f, (g - 1) as nat, value, env, rs, st);
    let (v, st1) = ev_expr(f, value, env, rs, st);
    if env < st1.heap.len() {
        lemma_lookup_after_set(st1.heap, env, id, v->Val_0);
    }
    assert forall|j: nat, n: Seq<char>| n != id implies heap_lookup(heap_set(st1.heap, env, id, v->Val_0), j, n)
        == heap_lookup(st1.heap, j, n) by {
        lemma_lookup_other_after_set(st1.heap, env, id, v->Val_0, j, n);
    }
}

/// Evaluating the statements of a block directly is evaluating the block as a statement: once
/// the block does not run out of fuel (with `f` units), both give its result with any more
/// fuel. That result is `null` for no statements; otherwise the statements run in order in the
/// scope itself, the first `return` or error is the result as it is, with no later statement
/// run, and else the result is the last statement's value.
pub proof fn lemma_block_statement(f: nat, g: nat, ss: Seq<SStmt>, env: nat, rs: Seq<SReply>, st: SState)
    requires
        f <= g,
        !(ev_block(f, ss, 0, SObject::Null, env, rs, st).0 is Fuel),
    ensures
        ev_stmt(g + 1, SStmt::Block(ss), env, rs, st) == ev_block(f, ss, 0, SObject::Null, env, rs, st),
        ev_block(g, ss, 0, SObject::Null, env, rs, st) == ev_block(f, ss, 0, SObject::Null, env, rs, st),
{
    lemma_fuel_block(f, g, ss, 0, SObject::Null, env, rs, st);
}

} // verus!
