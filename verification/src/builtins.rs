use vstd::prelude::*;
use crate::environment::EnvHeap;
use crate::evaluator::{Machine, Outcome, log};
use crate::host::{HostReply, HostRequest, SReply};
use crate::object::{Builtin, Object, SObject, objs_view, lemma_objs_view_index, display, push_digits};
use crate::semantics::{SFlow, builtin_call, with_builtins, builtin_names, print_items, print_text, pseudo_random, byte_len, arity_message, failure_text};
use crate::text::push_char;

verus! {

/// Binds the builtin functions `print`, `len`, `read_file`, `write_file`, `time` and
/// `random` in scope number `env`.
pub fn inject_builtins(heap: &mut EnvHeap, env: usize)
    ensures
        final(heap)@ == with_builtins(old(heap)@, env as nat, 0),
{
    reveal_with_fuel(with_builtins, 7);
    heap.set(env, String::from_str("print"), Object::Builtin(Builtin::Print));
    heap.set(env, String::from_str("len"), Object::Builtin(Builtin::Len));
    heap.set(env, String::from_str("read_file"), Object::Builtin(Builtin::ReadFile));
    heap.set(env, String::from_str("write_file"), Object::Builtin(Builtin::WriteFile));
    heap.set(env, String::from_str("time"), Object::Builtin(Builtin::Time));
    heap.set(env, String::from_str("random"), Object::Builtin(Builtin::Random));
}

/// The text `print` writes for these arguments.
fn print_line(args: &Vec<Object>) -> (s: String)
    ensures
        s@ == print_text(objs_view(args@)),
{
    proof {
        lemma_objs_view_index(args@);
    }
    let ghost vs = objs_view(args@);
    let mut s = String::new();
    let mut i: usize = 0;
    assert(vs.subrange(0, 0) =~= Seq::<SObject>::empty());
    while i < args.len()
        invariant
            i <= args@.len(),
            vs == objs_view(args@),
            vs.len() == args@.len(),
            forall|j: int| 0 <= j < args@.len() ==> #[trigger] vs[j] == args@[j]@,
            s@ == print_items(vs.subrange(0, i as int)),
        decreases args@.len() - i,
    {
        args[i].push_display(&mut s);
        push_char(&mut s, ' ');
        proof {
            let t = vs.subrange(0, i + 1);
            assert(t.subrange(0, i as int) =~= vs.subrange(0, i as int));
            assert(t[i as int] == vs[i as int]);
        }
        i = i + 1;
    }
    push_char(&mut s, '\n');
    assert(vs.subrange(0, args@.len() as int) =~= vs);
    s
}

/// The message for a call with the wrong number of arguments.
fn arity_error(name: &str, got: usize, expected: &str) -> (o: Object)
    ensures
        o@ == SObject::Error(arity_message(name@, got as nat, expected@)),
{
    let mut s = String::from_str("Wrong number of arguments for ");
    s.append(name);
    s.append(". Got ");
    push_digits(&mut s, got as u64);
    s.append(", expected ");
    s.append(expected);
    Object::Error(s)
}

/// The number `random` makes of the clock's nanoseconds.
fn random_from(n: i64) -> (r: i64)
    ensures
        r == pseudo_random(n),
{
    let x: i64 = n ^ n.wrapping_shl(13) ^ n.wrapping_shr(7);
    match x.checked_rem(1000000) {
        Some(r) => {
            if r < 0 {
                -r
            } else {
                r
            }
        },
        None => 0,
    }
}

/// The reason a reply gives for a failure (empty for other replies).
fn failure_of(r: &HostReply) -> (s: String)
    ensures
        s@ == failure_text(r@),
{
    match r {
        HostReply::Failure(e) => e.clone(),
        _ => String::new(),
    }
}

/// Calls a builtin function on evaluated arguments; outside work comes from the next reply
/// of the log, or is requested when the log has none left.
pub fn call_builtin(b: Builtin, args: Vec<Object>, m: &mut Machine, replies: &Vec<HostReply>) -> (out: Outcome)
    requires
        old(m).used <= replies@.len(),
    ensures
        final(m).used <= replies@.len(),
        (out@, final(m)@) == builtin_call(b, objs_view(args@), log(replies), old(m)@),
{
    proof {
        lemma_objs_view_index(args@);
    }
    match b {
        Builtin::Print => {
            if m.used < replies.len() {
                m.used = m.used + 1;
                Outcome::Value(Object::Null)
            } else {
                Outcome::Request(HostRequest::Print(print_line(&args)))
            }
        },
        Builtin::Len => {
            if args.len() != 1 {
                return Outcome::Value(arity_error("len", args.len(), "1"));
            }
            match &args[0] {
                Object::String(s) => Outcome::Value(Object::Integer(s.as_str().len() as i64)),
                _ => {
                    let mut msg = String::from_str("Argument to 'len' not supported: ");
                    args[0].push_display(&mut msg);
                    Outcome::Value(Object::Error(msg))
                },
            }
        },
        Builtin::ReadFile => {
            if args.len() != 1 {
                return Outcome::Value(arity_error("read_file", args.len(), "1"));
            }
            match &args[0] {
                Object::String(p) => {
                    if m.used < replies.len() {
                        let r = &replies[m.used];
                        m.used = m.used + 1;
                        match r {
                            HostReply::Text(c) => Outcome::Value(Object::String(c.clone())),
                            _ => {
                                let mut msg = String::from_str("Failed to read file ");
                                msg.append(p.as_str());
                                msg.append(": ");
                                let e = failure_of(r);
                                msg.append(e.as_str());
                                Outcome::Value(Object::Error(msg))
                            },
                        }
                    } else {
                        Outcome::Request(HostRequest::ReadFile(p.clone()))
                    }
                },
                _ => Outcome::Value(Object::Error(String::from_str("Argument to read_file must be a string"))),
            }
        },
        Builtin::WriteFile => {
            if args.len() != 2 {
                return Outcome::Value(arity_error("write_file", args.len(), "2"));
            }
            match (&args[0], &args[1]) {
                (Object::String(p), Object::String(c)) => {
                    if m.used < replies.len() {
                        let r = &replies[m.used];
                        m.used = m.used + 1;
                        match r {
                            HostReply::Done => Outcome::Value(Object::Boolean(true)),
                            _ => {
                                let mut msg = String::from_str("Failed to write file ");
                                msg.append(p.as_str());
                                msg.append(": ");
                                let e = failure_of(r);
                                msg.append(e.as_str());
                                Outcome::Value(Object::Error(msg))
                            },
                        }
                    } else {
                        Outcome::Request(HostRequest::WriteFile(p.clone(), c.clone()))
                    }
                },
                _ => Outcome::Value(Object::Error(String::from_str("Arguments to write_file must be strings"))),
            }
        },
        Builtin::Time => {
            if m.used < replies.len() {
                let r = &replies[m.used];
                m.used = m.used + 1;
                match r {
                    HostReply::Number(n) => Outcome::Value(Object::Integer(*n)),
                    _ => Outcome::Value(Object::Error(String::from_str("SystemTime before UNIX EPOCH!"))),
                }
            } else {
                Outcome::Request(HostRequest::Time)
            }
        },
        Builtin::Random => {
            if m.used < replies.len() {
                let r = &replies[m.used];
                m.used = m.used + 1;
                match r {
                    HostReply::Number(n) => Outcome::Value(Object::Integer(random_from(*n))),
                    _ => Outcome::Value(Object::Integer(42)),
                }
            } else {
                Outcome::Request(HostRequest::Random)
            }
        },
    }
}

} // verus!
