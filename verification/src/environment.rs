use vstd::prelude::*;
use crate::object::{Object, SObject, obj_view, hash_find, hash_insert, lemma_hash_find, lemma_hash_find_at, lemma_hash_find_none};

verus! {

/// One scope of variables: the names bound in it, and the scope (by number in an
/// `EnvHeap`) that names not found here are looked up in.
#[derive(Debug, PartialEq)]
pub struct Environment {
    store: Vec<(String, Object)>,
    pub outer: Option<usize>,
}

/// The value of a scope: its variables, its bindings in the order they were made (what is
/// shown when the scope is written out), and the number of its outer scope.
pub struct SFrame {
    pub vars: Map<Seq<char>, SObject>,
    pub entries: Seq<(Seq<char>, SObject)>,
    pub outer: Option<nat>,
}

/// The bindings of a list, each taken by its value.
pub open spec fn entries_view(s: Seq<(String, Object)>) -> Seq<(Seq<char>, SObject)> {
    s.map_values(|e: (String, Object)| (e.0@, obj_view(e.1)))
}

/// A scope after binding `k` to `v`: the binding takes the place of an earlier one for `k`,
/// or comes after the others.
pub open spec fn frame_set(fr: SFrame, k: Seq<char>, v: SObject) -> SFrame {
    SFrame { vars: fr.vars.insert(k, v), entries: hash_insert(fr.entries, k, v), outer: fr.outer }
}

/// A scope with no bindings inside scope number `outer`, if any.
pub open spec fn bare_frame(outer: Option<nat>) -> SFrame {
    SFrame { vars: Map::empty(), entries: Seq::empty(), outer }
}

/// The first value bound to `k` in a list of bindings.
pub open spec fn bindings_lookup(s: Seq<(String, Object)>, k: Seq<char>) -> Option<SObject>
    decreases s.len(),
{
    if s.len() == 0 {
        None
    } else if s[0].0@ == k {
        Some(obj_view(s[0].1))
    } else {
        bindings_lookup(s.subrange(1, s.len() as int), k)
    }
}

/// The variables a list of bindings defines: for each name, its first binding.
pub open spec fn bindings_map(s: Seq<(String, Object)>) -> Map<Seq<char>, SObject> {
    Map::new(|k: Seq<char>| bindings_lookup(s, k) is Some, |k: Seq<char>| bindings_lookup(s, k)->0)
}

impl View for Environment {
    type V = SFrame;

    closed spec fn view(&self) -> SFrame {
        SFrame { vars: bindings_map(self.store@), entries: entries_view(self.store@), outer: match self.outer {
            Some(o) => Some(o as nat),
            None => None,
        } }
    }
}

/// The value bound to `k` in scope number `id` of heap `h`, or in the scopes around it.
pub open spec fn heap_lookup(h: Seq<SFrame>, id: nat, k: Seq<char>) -> Option<SObject>
    decreases id,
{
    if id >= h.len() {
        None
    } else if h[id as int].vars.contains_key(k) {
        Some(h[id as int].vars[k])
    } else {
        match h[id as int].outer {
            Some(j) => if j < id {
                heap_lookup(h, j, k)
            } else {
                None
            },
            None => None,
        }
    }
}

/// The value bound to `k` in scope `f` or, failing that, in its outer scope within `h`.
pub open spec fn frame_lookup(h: Seq<SFrame>, f: SFrame, k: Seq<char>) -> Option<SObject> {
    if f.vars.contains_key(k) {
        Some(f.vars[k])
    } else {
        match f.outer {
            Some(j) => heap_lookup(h, j, k),
            None => None,
        }
    }
}

/// The heap after binding `k` to `v` in scope number `id` (no change for a scope that does
/// not exist).
pub open spec fn heap_set(h: Seq<SFrame>, id: nat, k: Seq<char>, v: SObject) -> Seq<SFrame> {
    if id < h.len() {
        h.update(id as int, frame_set(h[id as int], k, v))
    } else {
        h
    }
}

proof fn lemma_bindings_lookup_at(s: Seq<(String, Object)>, k: Seq<char>, i: int)
    requires
        0 <= i < s.len(),
        s[i].0@ == k,
        forall|j: int| 0 <= j < i ==> s[j].0@ != k,
    ensures
        bindings_lookup(s, k) == Some(obj_view(s[i].1)),
    decreases s.len(),
{
    if i > 0 {
        let t = s.subrange(1, s.len() as int);
        assert forall|j: int| 0 <= j < i - 1 implies t[j].0@ != k by {
            assert(t[j] == s[j + 1]);
        }
        lemma_bindings_lookup_at(t, k, i - 1);
    }
}

proof fn lemma_bindings_lookup_none(s: Seq<(String, Object)>, k: Seq<char>)
    requires
        forall|j: int| 0 <= j < s.len() ==> s[j].0@ != k,
    ensures
        bindings_lookup(s, k) is None,
    decreases s.len(),
{
    if s.len() > 0 {
        let t = s.subrange(1, s.len() as int);
        assert forall|j: int| 0 <= j < t.len() implies t[j].0@ != k by {
            assert(t[j] == s[j + 1]);
        }
        lemma_bindings_lookup_none(t, k);
    }
}

/// Replacing the first binding of `k` rebinds `k` and leaves every other name as it was.
proof fn lemma_bindings_update(s: Seq<(String, Object)>, i: int, name: String, val: Object)
    requires
        0 <= i < s.len(),
        s[i].0@ == name@,
        forall|j: int| 0 <= j < i ==> s[j].0@ != name@,
    ensures
        bindings_map(s.update(i, (name, val))) == bindings_map(s).insert(name@, obj_view(val)),
{
    let t = s.update(i, (name, val));
    assert forall|k: Seq<char>| #[trigger] bindings_lookup(t, k) == (if k == name@ {
        Some(obj_view(val))
    } else {
        bindings_lookup(s, k)
    }) by {
        if k == name@ {
            lemma_bindings_lookup_at(t, k, i);
        } else {
            lemma_lookup_same_except(s, t, k, i);
        }
    }
    assert(bindings_map(t) =~= bindings_map(s).insert(name@, obj_view(val)));
}

proof fn lemma_lookup_same_except(s: Seq<(String, Object)>, t: Seq<(String, Object)>, k: Seq<char>, i: int)
    requires
        0 <= i < s.len(),
        s.len() == t.len(),
        s[i].0@ != k,
        t[i].0@ != k,
        forall|j: int| 0 <= j < s.len() && j != i ==> s[j] == t[j],
    ensures
        bindings_lookup(s, k) == bindings_lookup(t, k),
    decreases s.len(),
{
    if s.len() > 0 {
        let s1 = s.subrange(1, s.len() as int);
        let t1 = t.subrange(1, t.len() as int);
        if i == 0 {
            assert(s1 =~= t1);
        } else {
            assert(s[0] == t[0]);
            if s[0].0@ != k {
                lemma_lookup_same_except(s1, t1, k, i - 1);
            }
        }
    }
}

/// Adding a binding for a name not yet bound binds it and leaves every other name as it was.
proof fn lemma_bindings_push(s: Seq<(String, Object)>, name: String, val: Object)
    requires
        forall|j: int| 0 <= j < s.len() ==> s[j].0@ != name@,
    ensures
        bindings_map(s.push((name, val))) == bindings_map(s).insert(name@, obj_view(val)),
{
    let t = s.push((name, val));
    assert forall|k: Seq<char>| #[trigger] bindings_lookup(t, k) == (if k == name@ {
        Some(obj_view(val))
    } else {
        bindings_lookup(s, k)
    }) by {
        if k == name@ {
            lemma_bindings_lookup_at(t, k, s.len() as int);
        } else {
            lemma_bindings_push_other(s, name, val, k);
        }
    }
    assert(bindings_map(t) =~= bindings_map(s).insert(name@, obj_view(val)));
}

proof fn lemma_bindings_push_other(s: Seq<(String, Object)>, name: String, val: Object, k: Seq<char>)
    requires
        name@ != k,
    ensures
        bindings_lookup(s.push((name, val)), k) == bindings_lookup(s, k),
    decreases s.len(),
{
    let t = s.push((name, val));
    if s.len() > 0 {
        assert(t[0] == s[0]);
        assert(t.subrange(1, t.len() as int) =~= s.subrange(1, s.len() as int).push((name, val)));
        lemma_bindings_push_other(s.subrange(1, s.len() as int), name, val, k);
    } else {
        assert(t[0] == (name, val));
        assert(t.subrange(1, 1) =~= Seq::<(String, Object)>::empty());
        assert(bindings_lookup(t.subrange(1, 1), k) == bindings_lookup(Seq::<(String, Object)>::empty(), k));
    }
}

/// Looking up a name just bound in a scope gives the value bound.
pub proof fn lemma_lookup_after_set(h: Seq<SFrame>, id: nat, k: Seq<char>, v: SObject)
    requires
        id < h.len(),
    ensures
        heap_lookup(heap_set(h, id, k, v), id, k) == Some(v),
{
}

/// Binding a name leaves what every scope sees of every other name unchanged.
pub proof fn lemma_lookup_other_after_set(h: Seq<SFrame>, id: nat, k: Seq<char>, v: SObject, j: nat, other: Seq<char>)
    requires
        other != k,
    ensures
        heap_lookup(heap_set(h, id, k, v), j, other) == heap_lookup(h, j, other),
    decreases j,
{
    let g = heap_set(h, id, k, v);
    if j < h.len() {
        assert(g[j as int].outer == h[j as int].outer);
        assert(g[j as int].vars.contains_key(other) == h[j as int].vars.contains_key(other));
        if h[j as int].vars.contains_key(other) {
            assert(g[j as int].vars[other] == h[j as int].vars[other]);
        } else {
            match h[j as int].outer {
                Some(o) => if o < j {
                    lemma_lookup_other_after_set(h, id, k, v, o, other);
                },
                None => {},
            }
        }
    }
}

/// Binding a name in a scope changes nothing that an older scope (one with a smaller number)
/// sees: an inner scope's variables never leak out to the scopes around it.
pub proof fn lemma_older_scope_unaffected(h: Seq<SFrame>, id: nat, k: Seq<char>, v: SObject, j: nat, name: Seq<char>)
    requires
        j < id,
    ensures
        heap_lookup(heap_set(h, id, k, v), j, name) == heap_lookup(h, j, name),
    decreases j,
{
    let g = heap_set(h, id, k, v);
    if j < h.len() {
        assert(g[j as int] == h[j as int]);
        if !h[j as int].vars.contains_key(name) {
            match h[j as int].outer {
                Some(o) => if o < j {
                    lemma_older_scope_unaffected(h, id, k, v, o, name);
                },
                None => {},
            }
        }
    }
}

/// Adding a scope changes no lookup in the scopes already there.
pub proof fn lemma_lookup_after_add(h: Seq<SFrame>, fr: SFrame, j: nat, name: Seq<char>)
    requires
        j < h.len(),
    ensures
        heap_lookup(h.push(fr), j, name) == heap_lookup(h, j, name),
    decreases j,
{
    assert(h.push(fr)[j as int] == h[j as int]);
    if !h[j as int].vars.contains_key(name) {
        match h[j as int].outer {
            Some(o) => if o < j {
                lemma_lookup_after_add(h, fr, o, name);
            },
            None => {},
        }
    }
}

/// A scope made inside scope `j` sees exactly what `j` sees, as long as it binds nothing
/// of its own.
pub proof fn lemma_enclosed_sees_outer(h: Seq<SFrame>, j: nat, name: Seq<char>)
    ensures
        frame_lookup(h, bare_frame(Some(j)), name) == heap_lookup(h, j, name),
{
}

/// A name bound in a scope shadows that name in the scopes around it.
pub proof fn lemma_shadowing(h: Seq<SFrame>, f: SFrame, name: Seq<char>, v: SObject)
    ensures
        frame_lookup(h, frame_set(f, name, v), name) == Some(v),
{
}

/// Two lists of bindings whose names and values agree position by position define the same
/// variables.
proof fn lemma_bindings_lookup_same(s: Seq<(String, Object)>, t: Seq<(String, Object)>, k: Seq<char>)
    requires
        s.len() == t.len(),
        forall|i: int| 0 <= i < s.len() ==> s[i].0@ == t[i].0@ && obj_view(s[i].1) == obj_view(t[i].1),
    ensures
        bindings_lookup(s, k) == bindings_lookup(t, k),
    decreases s.len(),
{
    if s.len() > 0 {
        let s1 = s.subrange(1, s.len() as int);
        let t1 = t.subrange(1, t.len() as int);
        assert forall|i: int| 0 <= i < s1.len() implies s1[i].0@ == t1[i].0@ && obj_view(s1[i].1) == obj_view(t1[i].1) by {
            assert(s1[i] == s[i + 1] && t1[i] == t[i + 1]);
        }
        lemma_bindings_lookup_same(s1, t1, k);
    }
}

impl Environment {
    /// A scope with no variables and no outer scope.
    pub fn new() -> (env: Self)
        ensures
            env@ == bare_frame(None),
    {
        let env = Environment { store: Vec::new(), outer: None };
        assert(env@.vars =~= Map::<Seq<char>, SObject>::empty());
        assert(env@.entries =~= Seq::<(Seq<char>, SObject)>::empty());
        env
    }

    /// A scope with no variables of its own, inside scope number `outer`.
    pub fn new_enclosed(outer: usize) -> (env: Self)
        ensures
            env@ == bare_frame(Some(outer as nat)),
    {
        let env = Environment { store: Vec::new(), outer: Some(outer) };
        assert(env@.vars =~= Map::<Seq<char>, SObject>::empty());
        assert(env@.entries =~= Seq::<(Seq<char>, SObject)>::empty());
        env
    }

    /// A copy of the scope.
    pub fn copy(&self) -> (res: Environment)
        ensures
            res@ == self@,
    {
        let mut store: Vec<(String, Object)> = Vec::new();
        let mut i: usize = 0;
        while i < self.store.len()
            invariant
                i <= self.store@.len(),
                store@.len() == i,
                forall|j: int| 0 <= j < i ==> #[trigger] store@[j].0@ == self.store@[j].0@ && obj_view(store@[j].1) == obj_view(self.store@[j].1),
            decreases self.store@.len() - i,
        {
            let k = self.store[i].0.clone();
            let v = self.store[i].1.copy();
            store.push((k, v));
            i = i + 1;
        }
        let res = Environment { store, outer: self.outer };
        proof {
            assert forall|k: Seq<char>| #[trigger] bindings_lookup(res.store@, k) == bindings_lookup(self.store@, k) by {
                lemma_bindings_lookup_same(res.store@, self.store@, k);
            }
            assert(bindings_map(res.store@) =~= bindings_map(self.store@));
            assert(entries_view(res.store@) =~= entries_view(self.store@));
        }
        res
    }

    /// The value bound to `name` in this scope itself.
    fn get_local(&self, name: &String) -> (r: Option<Object>)
        ensures
            match r {
                Some(v) => self@.vars.contains_key(name@) && self@.vars[name@] == v@,
                None => !self@.vars.contains_key(name@),
            },
    {
        match self.position(name) {
            Some(i) => {
                proof {
                    lemma_bindings_lookup_at(self.store@, name@, i as int);
                }
                Some(self.store[i].1.copy())
            },
            None => {
                proof {
                    lemma_bindings_lookup_none(self.store@, name@);
                }
                None
            },
        }
    }

    /// Where the first binding of `name` is.
    fn position(&self, name: &String) -> (r: Option<usize>)
        ensures
            r matches Some(i) ==> i < self.store@.len() && self.store@[i as int].0@ == name@
                && forall|j: int| 0 <= j < i ==> self.store@[j].0@ != name@,
            r is None ==> forall|j: int| 0 <= j < self.store@.len() ==> self.store@[j].0@ != name@,
    {
        let mut i: usize = 0;
        while i < self.store.len()
            invariant
                i <= self.store@.len(),
                forall|j: int| 0 <= j < i ==> self.store@[j].0@ != name@,
            decreases self.store@.len() - i,
        {
            if self.store[i].0.eq(name) {
                return Some(i);
            }
            i = i + 1;
        }
        None
    }

    /// The value bound to `name` here or, failing that, in the scopes around this one.
    pub fn get(&self, heap: &EnvHeap, name: &str) -> (r: Option<Object>)
        ensures
            match r {
                Some(v) => frame_lookup(heap@, self@, name@) == Some(v@),
                None => frame_lookup(heap@, self@, name@) is None,
            },
    {
        let key = name.to_owned();
        self.get_named(heap, &key)
    }

    fn get_named(&self, heap: &EnvHeap, name: &String) -> (r: Option<Object>)
        ensures
            match r {
                Some(v) => frame_lookup(heap@, self@, name@) == Some(v@),
                None => frame_lookup(heap@, self@, name@) is None,
            },
    {
        match self.get_local(name) {
            Some(v) => Some(v),
            None => match self.outer {
                Some(j) => heap.lookup(j, name),
                None => None,
            },
        }
    }

    /// Binds `name` to `val` in this scope, replacing an earlier binding here; gives back the value.
    pub fn set(&mut self, name: String, val: Object) -> (r: Object)
        ensures
            final(self)@ == frame_set(old(self)@, name@, val@),
            r@ == val@,
    {
        let r = val.copy();
        let ghost before = self.store@;
        let ghost kv = name@;
        let ghost vv = val@;
        match self.position(&name) {
            Some(i) => {
                proof {
                    lemma_bindings_update(self.store@, i as int, name, val);
                    assert forall|j: int| 0 <= j < i implies #[trigger] entries_view(before)[j].0 != kv by {
                        assert(entries_view(before)[j] == (before[j].0@, obj_view(before[j].1)));
                    }
                    lemma_hash_find_at(entries_view(before), kv, i as int);
                }
                self.store.set(i, (name, val));
                proof {
                    assert(entries_view(self.store@) =~= entries_view(before).update(i as int, (kv, vv)));
                }
            },
            None => {
                proof {
                    lemma_bindings_push(self.store@, name, val);
                    assert forall|j: int| 0 <= j < entries_view(before).len() implies #[trigger] entries_view(before)[j].0
                        != kv by {
                        assert(entries_view(before)[j] == (before[j].0@, obj_view(before[j].1)));
                    }
                    lemma_hash_find_none(entries_view(before), kv);
                }
                self.store.push((name, val));
                proof {
                    assert(entries_view(self.store@) =~= entries_view(before).push((kv, vv)));
                }
            },
        }
        r
    }
}

/// All scopes of a running program, each known by its number. Scopes are only ever added.
pub struct EnvHeap {
    frames: Vec<Environment>,
}

impl View for EnvHeap {
    type V = Seq<SFrame>;

    closed spec fn view(&self) -> Seq<SFrame> {
        self.frames@.map_values(|e: Environment| e@)
    }
}

impl EnvHeap {
    /// A heap with no scopes.
    pub fn new() -> (h: EnvHeap)
        ensures
            h@ == Seq::<SFrame>::empty(),
    {
        let h = EnvHeap { frames: Vec::new() };
        assert(h@ =~= Seq::<SFrame>::empty());
        h
    }

    /// A copy of all the scopes.
    pub fn copy(&self) -> (res: EnvHeap)
        ensures
            res@ == self@,
    {
        let mut frames: Vec<Environment> = Vec::new();
        let mut i: usize = 0;
        while i < self.frames.len()
            invariant
                i <= self.frames@.len(),
                frames@.len() == i,
                forall|j: int| 0 <= j < i ==> #[trigger] frames@[j]@ == self.frames@[j]@,
            decreases self.frames@.len() - i,
        {
            frames.push(self.frames[i].copy());
            i = i + 1;
        }
        let res = EnvHeap { frames };
        assert(res@ =~= self@);
        res
    }

    /// The bindings of scope number `id`, in the order they were made.
    pub(crate) fn scope_entries(&self, id: usize) -> (r: &Vec<(String, Object)>)
        requires
            id < self@.len(),
        ensures
            entries_view(r@) == self@[id as int].entries,
    {
        &self.frames[id].store
    }

    /// The number of the scope around scope number `id`, if there is one.
    pub(crate) fn scope_outer(&self, id: usize) -> (r: Option<usize>)
        requires
            id < self@.len(),
        ensures
            r matches Some(j) ==> self@[id as int].outer == Some(j as nat),
            r is None ==> self@[id as int].outer is None,
    {
        self.frames[id].outer
    }

    /// The number of scopes.
    pub fn len(&self) -> (n: usize)
        ensures
            n == self@.len(),
    {
        self.frames.len()
    }

    /// Adds a scope; gives its number.
    pub fn add(&mut self, env: Environment) -> (id: usize)
        requires
            old(self)@.len() < usize::MAX,
        ensures
            final(self)@ == old(self)@.push(env@),
            id == old(self)@.len(),
    {
        let ghost ev = env@;
        let id: usize = self.frames.len();
        self.frames.push(env);
        assert(self@ =~= old(self)@.push(ev));
        id
    }

    /// The value bound to `name` in scope number `id` or in the scopes around it.
    pub fn lookup(&self, id: usize, name: &String) -> (r: Option<Object>)
        ensures
            match r {
                Some(v) => heap_lookup(self@, id as nat, name@) == Some(v@),
                None => heap_lookup(self@, id as nat, name@) is None,
            },
        decreases id,
    {
        if id >= self.frames.len() {
            return None;
        }
        let frame = &self.frames[id];
        assert(self@[id as int] == frame@);
        match frame.get_local(name) {
            Some(v) => Some(v),
            None => match frame.outer {
                Some(j) => if j < id {
                    self.lookup(j, name)
                } else {
                    None
                },
                None => None,
            },
        }
    }

    /// Binds `name` to `val` in scope number `id`; gives back the value.
    pub fn set(&mut self, id: usize, name: String, val: Object) -> (r: Object)
        ensures
            final(self)@ == heap_set(old(self)@, id as nat, name@, val@),
            r@ == val@,
    {
        if id >= self.frames.len() {
            return val;
        }
        let ghost before = self.frames@;
        let mut frame = self.frames.remove(id);
        let r = frame.set(name, val);
        self.frames.insert(id, frame);
        proof {
            assert(self.frames@ =~= before.update(id as int, self.frames@[id as int]));
            assert(self@ =~= heap_set(old(self)@, id as nat, name@, r@));
        }
        r
    }
}

} // verus!
