use vstd::prelude::*;
use crate::ast::{SStmt, Statement, strings_view};
use crate::environment::{EnvHeap, SFrame, entries_view};
use crate::object::{Builtin, HashKey, HashPairs, Object, SHashKey, SObject, obj_view, bool_text, push_decimal, push_bool, lemma_objs_view_index, lemma_pairs_obj_view_index, objs_view};
use crate::semantics::{strings_debug, debug_strings};
use crate::text::decimal;

verus! {

// ---------------------------------------------------------------------------
// How error messages write a value out: the form that `{:?}` gives a value whose scopes are
// shared cells, `RefCell { value: Environment { store: {..}, outer: .. } }`, with each scope's
// bindings in the order they were made, and a hash as `{key: value, ..}` in the order its
// keys were first stored. Scopes are read from the heap; the depth `d` bounds how many scopes
// deep the writing goes.
// ---------------------------------------------------------------------------

/// The text that `{:?}` writes for a string: the characters in double quotes, escaped.
pub uninterp spec fn str_debug(s: Seq<char>) -> Seq<char>;

/// The text that the derived `Debug` of `Statement` writes for a statement.
pub uninterp spec fn stmt_debug(s: SStmt) -> Seq<char>;

/// Writes a string with `format!("{:?}", ..)`, the `Debug` of `str`.
#[verifier::external_body]
pub(crate) fn debug_str(s: &str) -> (t: String)
    ensures
        t@ == str_debug(s@),
{
    format!("{:?}", s)
}

/// Writes a statement with `format!("{:?}", ..)`, through the `Debug` that `derive` gives
/// `Statement`.
#[verifier::external_body]
pub(crate) fn debug_statement(st: &Statement) -> (t: String)
    ensures
        t@ == stmt_debug(st@),
{
    format!("{:?}", st)
}

/// The name of a builtin function.
pub open spec fn builtin_debug(b: Builtin) -> Seq<char> {
    match b {
        Builtin::Print => "Print"@,
        Builtin::Len => "Len"@,
        Builtin::ReadFile => "ReadFile"@,
        Builtin::WriteFile => "WriteFile"@,
        Builtin::Time => "Time"@,
        Builtin::Random => "Random"@,
    }
}

/// A hash key written out.
pub open spec fn key_debug(k: SHashKey) -> Seq<char> {
    match k {
        SHashKey::Integer(i) => "Integer("@ + decimal(i as int) + ")"@,
        SHashKey::Str(s) => "String("@ + str_debug(s) + ")"@,
        SHashKey::Boolean(b) => "Boolean("@ + bool_text(b) + ")"@,
    }
}

/// A shared cell around a written-out scope.
pub open spec fn cell_debug(t: Seq<char>) -> Seq<char> {
    "RefCell { value: "@ + t + " }"@
}

/// A value written out, reading scopes from `h`.
pub open spec fn obj_text(h: Seq<SFrame>, o: SObject, d: nat) -> Seq<char>
    decreases d, o,
{
    match o {
        SObject::Integer(i) => "Integer("@ + decimal(i as int) + ")"@,
        SObject::Str(s) => "String("@ + str_debug(s) + ")"@,
        SObject::Boolean(b) => "Boolean("@ + bool_text(b) + ")"@,
        SObject::Null => "Null"@,
        SObject::ReturnValue(v) => "ReturnValue("@ + obj_text(h, *v, d) + ")"@,
        SObject::Error(e) => "Error("@ + str_debug(e) + ")"@,
        SObject::Function { parameters, body } => "Function { parameters: "@ + strings_debug(parameters)
            + ", body: "@ + stmt_debug(body) + " }"@,
        SObject::Builtin(b) => "Builtin("@ + builtin_debug(b) + ")"@,
        SObject::Array(v) => "Array(["@ + list_text(h, v, d) + "])"@,
        SObject::Hash(p) => "Hash({"@ + pairs_text(h, p, d) + "})"@,
        SObject::Module(m) => "Module("@ + cell_debug(if d == 0 {
            "..."@
        } else {
            env_text(h, m, (d - 1) as nat)
        }) + ")"@,
        SObject::Class { name, environment } => "Class { name: "@ + str_debug(name) + ", environment: "@
            + cell_debug(if d == 0 {
            "..."@
        } else {
            env_text(h, environment, (d - 1) as nat)
        }) + " }"@,
        SObject::Instance { class_name, class_env, instance_env } => "Instance { class_name: "@ + str_debug(
            class_name,
        ) + ", class_env: "@ + cell_debug(if d == 0 {
            "..."@
        } else {
            env_text(h, class_env, (d - 1) as nat)
        }) + ", instance_env: "@ + cell_debug(if d == 0 {
            "..."@
        } else {
            env_text(h, instance_env, (d - 1) as nat)
        }) + " }"@,
        SObject::BoundMethod { instance, method } => "BoundMethod { instance: "@ + obj_text(h, *instance, d)
            + ", method: "@ + obj_text(h, *method, d) + " }"@,
    }
}

/// Values written out one after the other, separated by `", "`.
pub open spec fn list_text(h: Seq<SFrame>, s: Seq<SObject>, d: nat) -> Seq<char>
    decreases d, s,
{
    if s.len() == 0 {
        Seq::empty()
    } else if s.len() == 1 {
        obj_text(h, s[0], d)
    } else {
        list_text(h, s.subrange(0, s.len() - 1), d) + ", "@ + obj_text(h, s[s.len() - 1], d)
    }
}

/// The pairs of a hash written out as `key: value`, separated by `", "`.
pub open spec fn pairs_text(h: Seq<SFrame>, s: Seq<(SHashKey, SObject)>, d: nat) -> Seq<char>
    decreases d, s,
{
    if s.len() == 0 {
        Seq::empty()
    } else if s.len() == 1 {
        key_debug(s[0].0) + ": "@ + obj_text(h, s[0].1, d)
    } else {
        pairs_text(h, s.subrange(0, s.len() - 1), d) + ", "@ + key_debug(s[s.len() - 1].0) + ": "@ + obj_text(
            h,
            s[s.len() - 1].1,
            d,
        )
    }
}

/// The bindings of a scope written out as `"name": value`, separated by `", "`.
pub open spec fn entries_text(h: Seq<SFrame>, s: Seq<(Seq<char>, SObject)>, d: nat) -> Seq<char>
    decreases d, s,
{
    if s.len() == 0 {
        Seq::empty()
    } else if s.len() == 1 {
        str_debug(s[0].0) + ": "@ + obj_text(h, s[0].1, d)
    } else {
        entries_text(h, s.subrange(0, s.len() - 1), d) + ", "@ + str_debug(s[s.len() - 1].0) + ": "@ + obj_text(
            h,
            s[s.len() - 1].1,
            d,
        )
    }
}

/// Scope number `id` written out, with the scopes around it.
pub open spec fn env_text(h: Seq<SFrame>, id: nat, d: nat) -> Seq<char>
    decreases d, SObject::Null,
{
    if d == 0 || id >= h.len() {
        "..."@
    } else {
        "Environment { store: {"@ + entries_text(h, h[id as int].entries, (d - 1) as nat) + "}, outer: "@
            + match h[id as int].outer {
            None => "None"@,
            Some(j) => "Some("@ + cell_debug(env_text(h, j, (d - 1) as nat)) + ")"@,
        } + " }"@
    }
}

/// A value written out as error messages write it, reading scopes from `h`.
pub open spec fn obj_debug(h: Seq<SFrame>, o: SObject) -> Seq<char> {
    obj_text(h, o, u64::MAX as nat)
}

proof fn lemma_list_text_step(h: Seq<SFrame>, vs: Seq<SObject>, i: int, d: nat)
    requires
        0 <= i < vs.len(),
    ensures
        list_text(h, vs.subrange(0, i + 1), d) == if i == 0 {
            obj_text(h, vs[0], d)
        } else {
            list_text(h, vs.subrange(0, i), d) + ", "@ + obj_text(h, vs[i], d)
        },
{
    let t = vs.subrange(0, i + 1);
    assert(t.subrange(0, i) =~= vs.subrange(0, i));
    assert(t[i] == vs[i]);
}

proof fn lemma_pairs_text_step(h: Seq<SFrame>, vs: Seq<(SHashKey, SObject)>, i: int, d: nat)
    requires
        0 <= i < vs.len(),
    ensures
        pairs_text(h, vs.subrange(0, i + 1), d) == if i == 0 {
            key_debug(vs[0].0) + ": "@ + obj_text(h, vs[0].1, d)
        } else {
            pairs_text(h, vs.subrange(0, i), d) + ", "@ + key_debug(vs[i].0) + ": "@ + obj_text(h, vs[i].1, d)
        },
{
    let t = vs.subrange(0, i + 1);
    assert(t.subrange(0, i) =~= vs.subrange(0, i));
    assert(t[i] == vs[i]);
}

proof fn lemma_entries_text_step(h: Seq<SFrame>, vs: Seq<(Seq<char>, SObject)>, i: int, d: nat)
    requires
        0 <= i < vs.len(),
    ensures
        entries_text(h, vs.subrange(0, i + 1), d) == if i == 0 {
            str_debug(vs[0].0) + ": "@ + obj_text(h, vs[0].1, d)
        } else {
            entries_text(h, vs.subrange(0, i), d) + ", "@ + str_debug(vs[i].0) + ": "@ + obj_text(h, vs[i].1, d)
        },
{
    let t = vs.subrange(0, i + 1);
    assert(t.subrange(0, i) =~= vs.subrange(0, i));
    assert(t[i] == vs[i]);
}

/// Appends a hash key written out.
fn push_key_debug(k: &HashKey, s: &mut String)
    ensures
        final(s)@ == old(s)@ + key_debug(k@),
{
    match k {
        HashKey::Integer(i) => {
            s.append("Integer(");
            push_decimal(s, *i);
            s.append(")");
        },
        HashKey::String(t) => {
            s.append("String(");
            let q = debug_str(t.as_str());
            s.append(q.as_str());
            s.append(")");
        },
        HashKey::Boolean(b) => {
            s.append("Boolean(");
            push_bool(s, *b);
            s.append(")");
        },
    }
    assert(final(s)@ =~= old(s)@ + key_debug(k@));
}

/// Appends a builtin's name.
fn push_builtin_debug(b: Builtin, s: &mut String)
    ensures
        final(s)@ == old(s)@ + builtin_debug(b),
{
    match b {
        Builtin::Print => s.append("Print"),
        Builtin::Len => s.append("Len"),
        Builtin::ReadFile => s.append("ReadFile"),
        Builtin::WriteFile => s.append("WriteFile"),
        Builtin::Time => s.append("Time"),
        Builtin::Random => s.append("Random"),
    }
}

/// Appends a scope reference cut off at depth 0.
fn push_cut(s: &mut String)
    ensures
        final(s)@ == old(s)@ + cell_debug("..."@),
{
    s.append("RefCell { value: ");
    s.append("...");
    s.append(" }");
    assert(final(s)@ =~= old(s)@ + cell_debug("..."@));
}

/// Appends a value written out, reading scopes from `heap`.
#[verifier::rlimit(60)]
fn push_obj_debug(heap: &EnvHeap, o: &Object, d: u64, s: &mut String)
    ensures
        final(s)@ == old(s)@ + obj_text(heap@, o@, d as nat),
    decreases d, o,
{
    let ghost start = s@;
    match o {
        Object::Integer(i) => {
            s.append("Integer(");
            push_decimal(s, *i);
            s.append(")");
            assert(s@ =~= start + obj_text(heap@, o@, d as nat));
        },
        Object::String(t) => {
            s.append("String(");
            let q = debug_str(t.as_str());
            s.append(q.as_str());
            s.append(")");
            assert(s@ =~= start + obj_text(heap@, o@, d as nat));
        },
        Object::Boolean(b) => {
            s.append("Boolean(");
            push_bool(s, *b);
            s.append(")");
            assert(s@ =~= start + obj_text(heap@, o@, d as nat));
        },
        Object::Null => {
            s.append("Null");
            assert(s@ =~= start + obj_text(heap@, o@, d as nat));
        },
        Object::ReturnValue(v) => {
            s.append("ReturnValue(");
            push_obj_debug(heap, v, d, s);
            s.append(")");
            assert(s@ =~= start + obj_text(heap@, o@, d as nat));
        },
        Object::Error(e) => {
            s.append("Error(");
            let q = debug_str(e.as_str());
            s.append(q.as_str());
            s.append(")");
            assert(s@ =~= start + obj_text(heap@, o@, d as nat));
        },
        Object::Function { parameters, body } => {
            s.append("Function { parameters: ");
            let ps = debug_strings(parameters);
            s.append(ps.as_str());
            s.append(", body: ");
            let b = debug_statement(body);
            s.append(b.as_str());
            s.append(" }");
            assert(s@ =~= start + obj_text(heap@, o@, d as nat));
        },
        Object::Builtin(b) => {
            s.append("Builtin(");
            push_builtin_debug(*b, s);
            s.append(")");
            assert(s@ =~= start + obj_text(heap@, o@, d as nat));
        },
        Object::Array(v) => {
            s.append("Array([");
            push_list_debug(heap, v, d, s);
            s.append("])");
            assert(s@ =~= start + obj_text(heap@, o@, d as nat));
        },
        Object::Hash(p) => {
            s.append("Hash({");
            push_pairs_debug(heap, p, d, s);
            s.append("})");
            assert(s@ =~= start + obj_text(heap@, o@, d as nat));
        },
        Object::Module(m) => {
            s.append("Module(");
            if d == 0 {
                push_cut(s);
            } else {
                s.append("RefCell { value: ");
                push_env_debug(heap, *m, d - 1, s);
                s.append(" }");
            }
            s.append(")");
            assert(s@ =~= start + obj_text(heap@, o@, d as nat));
        },
        Object::Class { name, environment } => {
            s.append("Class { name: ");
            let q = debug_str(name.as_str());
            s.append(q.as_str());
            s.append(", environment: ");
            if d == 0 {
                push_cut(s);
            } else {
                s.append("RefCell { value: ");
                push_env_debug(heap, *environment, d - 1, s);
                s.append(" }");
            }
            s.append(" }");
            assert(s@ =~= start + obj_text(heap@, o@, d as nat));
        },
        Object::Instance { class_name, class_env, instance_env } => {
            s.append("Instance { class_name: ");
            let q = debug_str(class_name.as_str());
            s.append(q.as_str());
            s.append(", class_env: ");
            if d == 0 {
                push_cut(s);
            } else {
                s.append("RefCell { value: ");
                push_env_debug(heap, *class_env, d - 1, s);
                s.append(" }");
            }
            s.append(", instance_env: ");
            if d == 0 {
                push_cut(s);
            } else {
                s.append("RefCell { value: ");
                push_env_debug(heap, *instance_env, d - 1, s);
                s.append(" }");
            }
            s.append(" }");
            assert(s@ =~= start + obj_text(heap@, o@, d as nat));
        },
        Object::BoundMethod { instance, method } => {
            s.append("BoundMethod { instance: ");
            push_obj_debug(heap, instance, d, s);
            s.append(", method: ");
            push_obj_debug(heap, method, d, s);
            s.append(" }");
            assert(s@ =~= start + obj_text(heap@, o@, d as nat));
        },
    }
}

/// Appends values written out, separated by `", "`.
fn push_list_debug(heap: &EnvHeap, v: &Vec<Object>, d: u64, s: &mut String)
    ensures
        final(s)@ == old(s)@ + list_text(heap@, objs_view(v@), d as nat),
    decreases d, v,
{
    proof {
        lemma_objs_view_index(v@);
    }
    let ghost vs = objs_view(v@);
    let mut i: usize = 0;
    while i < v.len()
        invariant
            i <= v@.len(),
            vs == objs_view(v@),
            vs.len() == v@.len(),
            forall|j: int| 0 <= j < v@.len() ==> #[trigger] vs[j] == obj_view(v@[j]),
            s@ == old(s)@ + list_text(heap@, vs.subrange(0, i as int), d as nat),
        decreases v@.len() - i,
    {
        proof {
            assert(decreases_to!(v => v@[i as int]));
        }
        if i > 0 {
            s.append(", ");
        }
        push_obj_debug(heap, &v[i], d, s);
        proof {
            lemma_list_text_step(heap@, vs, i as int, d as nat);
            if i == 0 {
                assert(vs.subrange(0, 0) =~= Seq::<SObject>::empty());
            }
        }
        i = i + 1;
        assert(s@ =~= old(s)@ + list_text(heap@, vs.subrange(0, i as int), d as nat));
    }
    assert(vs.subrange(0, v@.len() as int) =~= vs);
}

/// Appends the pairs of a hash written out.
fn push_pairs_debug(heap: &EnvHeap, h: &HashPairs, d: u64, s: &mut String)
    ensures
        final(s)@ == old(s)@ + pairs_text(heap@, h@, d as nat),
    decreases d, h,
{
    proof {
        lemma_pairs_obj_view_index(h.pairs@);
    }
    let ghost vs = h@;
    let mut i: usize = 0;
    while i < h.pairs.len()
        invariant
            i <= h.pairs@.len(),
            vs == h@,
            vs.len() == h.pairs@.len(),
            forall|j: int| 0 <= j < h.pairs@.len() ==> #[trigger] vs[j] == (h.pairs@[j].0@, obj_view(h.pairs@[j].1)),
            s@ == old(s)@ + pairs_text(heap@, vs.subrange(0, i as int), d as nat),
        decreases h.pairs@.len() - i,
    {
        proof {
            assert(decreases_to!(h.pairs => h.pairs@[i as int]));
        }
        if i > 0 {
            s.append(", ");
        }
        push_key_debug(&h.pairs[i].0, s);
        s.append(": ");
        push_obj_debug(heap, &h.pairs[i].1, d, s);
        proof {
            lemma_pairs_text_step(heap@, vs, i as int, d as nat);
            if i == 0 {
                assert(vs.subrange(0, 0) =~= Seq::<(SHashKey, SObject)>::empty());
            }
        }
        i = i + 1;
        assert(s@ =~= old(s)@ + pairs_text(heap@, vs.subrange(0, i as int), d as nat));
    }
    assert(vs.subrange(0, h.pairs@.len() as int) =~= vs);
}

/// Appends scope number `id` written out, with the scopes around it.
fn push_env_debug(heap: &EnvHeap, id: usize, d: u64, s: &mut String)
    ensures
        final(s)@ == old(s)@ + env_text(heap@, id as nat, d as nat),
    decreases d, Object::Null,
{
    if d == 0 || id >= heap.len() {
        s.append("...");
        return;
    }
    let ghost start = s@;
    s.append("Environment { store: {");
    let es = heap.scope_entries(id);
    let ghost vs = entries_view(es@);
    let mut i: usize = 0;
    let ghost mid = s@;
    while i < es.len()
        invariant
            i <= es@.len(),
            d > 0,
            vs == entries_view(es@),
            vs.len() == es@.len(),
            s@ == mid + entries_text(heap@, vs.subrange(0, i as int), (d - 1) as nat),
        decreases es@.len() - i,
    {
        if i > 0 {
            s.append(", ");
        }
        let q = debug_str(es[i].0.as_str());
        s.append(q.as_str());
        s.append(": ");
        push_obj_debug(heap, &es[i].1, d - 1, s);
        proof {
            assert(vs[i as int] == (es@[i as int].0@, obj_view(es@[i as int].1)));
            lemma_entries_text_step(heap@, vs, i as int, (d - 1) as nat);
            if i == 0 {
                assert(vs.subrange(0, 0) =~= Seq::<(Seq<char>, SObject)>::empty());
            }
        }
        i = i + 1;
        assert(s@ =~= mid + entries_text(heap@, vs.subrange(0, i as int), (d - 1) as nat));
    }
    assert(vs.subrange(0, es@.len() as int) =~= vs);
    s.append("}, outer: ");
    match heap.scope_outer(id) {
        None => s.append("None"),
        Some(j) => {
            s.append("Some(");
            s.append("RefCell { value: ");
            push_env_debug(heap, j, d - 1, s);
            s.append(" }");
            s.append(")");
        },
    }
    s.append(" }");
    assert(s@ =~= start + env_text(heap@, id as nat, d as nat));
}

/// A value written out as error messages write it, reading scopes from `heap`.
pub fn debug_text(heap: &EnvHeap, o: &Object) -> (t: String)
    ensures
        t@ == obj_debug(heap@, o@),
{
    let mut s = String::new();
    push_obj_debug(heap, o, u64::MAX, &mut s);
    assert(s@ =~= obj_debug(heap@, o@));
    s
}

} // verus!
