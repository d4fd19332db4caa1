use vstd::prelude::*;
use crate::ast::{SStmt, Statement, stmt_view, strings_view, copy_strings};
use crate::text::{decimal, push_char};
use crate::environment::EnvHeap;
use crate::debug::{debug_text, obj_debug};

verus! {

/// The functions that the interpreter provides by name.
#[derive(Debug, PartialEq, Eq, Clone, Copy, Structural)]
pub enum Builtin {
    Print,
    Len,
    ReadFile,
    WriteFile,
    Time,
    Random,
}

/// A value that can index a hash.
#[derive(Debug, PartialEq, Eq, Hash)]
pub enum HashKey {
    Integer(i64),
    String(String),
    Boolean(bool),
}

/// The value of a hash key.
pub enum SHashKey {
    Integer(i64),
    Str(Seq<char>),
    Boolean(bool),
}

impl View for HashKey {
    type V = SHashKey;

    open spec fn view(&self) -> SHashKey {
        match self {
            HashKey::Integer(i) => SHashKey::Integer(*i),
            HashKey::String(s) => SHashKey::Str(s@),
            HashKey::Boolean(b) => SHashKey::Boolean(*b),
        }
    }
}

impl HashKey {
    /// A copy of the key.
    pub fn copy(&self) -> (res: HashKey)
        ensures
            res@ == self@,
    {
        match self {
            HashKey::Integer(i) => HashKey::Integer(*i),
            HashKey::String(s) => HashKey::String(s.clone()),
            HashKey::Boolean(b) => HashKey::Boolean(*b),
        }
    }

    /// Whether two keys are the same key.
    pub fn same(&self, other: &HashKey) -> (res: bool)
        ensures
            res == (self@ == other@),
    {
        match (self, other) {
            (HashKey::Integer(a), HashKey::Integer(b)) => *a == *b,
            (HashKey::String(a), HashKey::String(b)) => a.eq(b),
            (HashKey::Boolean(a), HashKey::Boolean(b)) => *a == *b,
            _ => false,
        }
    }
}

/// The key-value pairs of a hash, each key at most once, in the order the keys were first added.
#[derive(Debug, PartialEq)]
pub struct HashPairs {
    pub pairs: Vec<(HashKey, Object)>,
}

/// A runtime value of Kingcobra.
#[derive(Debug, PartialEq)]
pub enum Object {
    Integer(i64),
    String(String),
    Boolean(bool),
    Null,
    /// wraps a value that a `return` hands back through the enclosing blocks
    ReturnValue(Box<Object>),
    /// an error that stops the program
    Error(String),
    Function { parameters: Vec<String>, body: Box<Statement> },
    Builtin(Builtin),
    Array(Vec<Object>),
    Hash(HashPairs),
    /// the environment (by its number) that an imported file defined its names in
    Module(usize),
    Class { name: String, environment: usize },
    Instance { class_name: String, class_env: usize, instance_env: usize },
    BoundMethod { instance: Box<Object>, method: Box<Object> },
}

/// The value of a runtime value, with strings taken by their characters.
pub enum SObject {
    Integer(i64),
    Str(Seq<char>),
    Boolean(bool),
    Null,
    ReturnValue(Box<SObject>),
    Error(Seq<char>),
    Function { parameters: Seq<Seq<char>>, body: SStmt },
    Builtin(Builtin),
    Array(Seq<SObject>),
    Hash(Seq<(SHashKey, SObject)>),
    Module(nat),
    Class { name: Seq<char>, environment: nat },
    Instance { class_name: Seq<char>, class_env: nat, instance_env: nat },
    BoundMethod { instance: Box<SObject>, method: Box<SObject> },
}

/// The value of a runtime value.
pub open spec fn obj_view(o: Object) -> SObject
    decreases o,
{
    match o {
        Object::Integer(i) => SObject::Integer(i),
        Object::String(s) => SObject::Str(s@),
        Object::Boolean(b) => SObject::Boolean(b),
        Object::Null => SObject::Null,
        Object::ReturnValue(v) => SObject::ReturnValue(Box::new(obj_view(*v))),
        Object::Error(s) => SObject::Error(s@),
        Object::Function { parameters, body } => SObject::Function {
            parameters: strings_view(parameters@),
            body: stmt_view(*body),
        },
        Object::Builtin(b) => SObject::Builtin(b),
        Object::Array(v) => SObject::Array(objs_view(v@)),
        Object::Hash(h) => SObject::Hash(pairs_obj_view(h.pairs@)),
        Object::Module(m) => SObject::Module(m as nat),
        Object::Class { name, environment } => SObject::Class {
            name: name@,
            environment: environment as nat,
        },
        Object::Instance { class_name, class_env, instance_env } => SObject::Instance {
            class_name: class_name@,
            class_env: class_env as nat,
            instance_env: instance_env as nat,
        },
        Object::BoundMethod { instance, method } => SObject::BoundMethod {
            instance: Box::new(obj_view(*instance)),
            method: Box::new(obj_view(*method)),
        },
    }
}

/// The values of a sequence of runtime values.
pub open spec fn objs_view(s: Seq<Object>) -> Seq<SObject>
    decreases s,
{
    if s.len() == 0 {
        Seq::empty()
    } else {
        seq![obj_view(s[0])] + objs_view(s.subrange(1, s.len() as int))
    }
}

/// The values of a hash's pairs.
pub open spec fn pairs_obj_view(s: Seq<(HashKey, Object)>) -> Seq<(SHashKey, SObject)>
    decreases s,
{
    if s.len() == 0 {
        Seq::empty()
    } else {
        seq![(s[0].0@, obj_view(s[0].1))] + pairs_obj_view(s.subrange(1, s.len() as int))
    }
}

impl View for Object {
    type V = SObject;

    open spec fn view(&self) -> SObject {
        obj_view(*self)
    }
}

impl View for HashPairs {
    type V = Seq<(SHashKey, SObject)>;

    open spec fn view(&self) -> Seq<(SHashKey, SObject)> {
        pairs_obj_view(self.pairs@)
    }
}

/// The values of a sequence of runtime values have one value per element, in order.
pub proof fn lemma_objs_view_index(s: Seq<Object>)
    ensures
        objs_view(s).len() == s.len(),
        forall|i: int| 0 <= i < s.len() ==> #[trigger] objs_view(s)[i] == obj_view(s[i]),
    decreases s.len(),
{
    if s.len() > 0 {
        lemma_objs_view_index(s.subrange(1, s.len() as int));
    }
}

/// The values of a hash's pairs have one value per pair, in order.
pub proof fn lemma_pairs_obj_view_index(s: Seq<(HashKey, Object)>)
    ensures
        pairs_obj_view(s).len() == s.len(),
        forall|i: int|
            0 <= i < s.len() ==> #[trigger] pairs_obj_view(s)[i] == (s[i].0@, obj_view(s[i].1)),
    decreases s.len(),
{
    if s.len() > 0 {
        lemma_pairs_obj_view_index(s.subrange(1, s.len() as int));
    }
}

/// Appending a runtime value appends its value.
pub proof fn lemma_objs_view_push(s: Seq<Object>, o: Object)
    ensures
        objs_view(s.push(o)) == objs_view(s).push(obj_view(o)),
{
    lemma_objs_view_index(s);
    lemma_objs_view_index(s.push(o));
    assert(objs_view(s.push(o)) =~= objs_view(s).push(obj_view(o)));
}

/// Two sequences of runtime values with the same values elementwise have the same view.
pub proof fn lemma_objs_view_ext(a: Seq<Object>, b: Seq<Object>)
    requires
        a.len() == b.len(),
        forall|i: int| 0 <= i < a.len() ==> obj_view(#[trigger] a[i]) == obj_view(b[i]),
    ensures
        objs_view(a) == objs_view(b),
{
    lemma_objs_view_index(a);
    lemma_objs_view_index(b);
    assert(objs_view(a) =~= objs_view(b));
}

/// Two sequences of pairs with the same values elementwise have the same view.
pub proof fn lemma_pairs_obj_view_ext(a: Seq<(HashKey, Object)>, b: Seq<(HashKey, Object)>)
    requires
        a.len() == b.len(),
        forall|i: int|
            0 <= i < a.len() ==> (#[trigger] a[i]).0@ == b[i].0@ && obj_view(a[i].1) == obj_view(
                b[i].1,
            ),
    ensures
        pairs_obj_view(a) == pairs_obj_view(b),
{
    lemma_pairs_obj_view_index(a);
    lemma_pairs_obj_view_index(b);
    assert(pairs_obj_view(a) =~= pairs_obj_view(b));
}

// ---------------------------------------------------------------------------
// Hashes
// ---------------------------------------------------------------------------

/// The position of the pair with key `k`, if there is one.
pub open spec fn hash_find<K>(s: Seq<(K, SObject)>, k: K) -> Option<nat>
    decreases s.len(),
{
    if s.len() == 0 {
        None
    } else if s[0].0 == k {
        Some(0)
    } else {
        match hash_find(s.subrange(1, s.len() as int), k) {
            Some(i) => Some(i + 1),
            None => None,
        }
    }
}

/// The value stored under key `k`, if any.
pub open spec fn hash_get<K>(s: Seq<(K, SObject)>, k: K) -> Option<SObject> {
    match hash_find(s, k) {
        Some(i) => Some(s[i as int].1),
        None => None,
    }
}

/// The pairs after storing `v` under `k`: an existing pair for `k` takes the new value in
/// place, otherwise the pair goes at the end.
pub open spec fn hash_insert<K>(s: Seq<(K, SObject)>, k: K, v: SObject) -> Seq<(K, SObject)> {
    match hash_find(s, k) {
        Some(i) => s.update(i as int, (k, v)),
        None => s.push((k, v)),
    }
}

/// What `hash_find` finds is a pair with that key, and before it there is none.
pub proof fn lemma_hash_find<K>(s: Seq<(K, SObject)>, k: K)
    ensures
        hash_find(s, k) matches Some(i) ==> i < s.len() && s[i as int].0 == k && forall|j: int|
            0 <= j < i ==> s[j].0 != k,
        hash_find(s, k) is None ==> forall|j: int| 0 <= j < s.len() ==> s[j].0 != k,
    decreases s.len(),
{
    if s.len() > 0 {
        lemma_hash_find(s.subrange(1, s.len() as int), k);
        if s[0].0 != k {
            assert forall|j: int| 1 <= j < s.len() implies s[j] == s.subrange(
                1,
                s.len() as int,
            )[j - 1] by {}
        }
    }
}

/// A position with key `k` and no earlier such position is what `hash_find` gives.
pub proof fn lemma_hash_find_at<K>(s: Seq<(K, SObject)>, k: K, i: int)
    requires
        0 <= i < s.len(),
        s[i].0 == k,
        forall|j: int| 0 <= j < i ==> s[j].0 != k,
    ensures
        hash_find(s, k) == Some(i as nat),
    decreases s.len(),
{
    if i > 0 {
        let t = s.subrange(1, s.len() as int);
        assert forall|j: int| 0 <= j < i - 1 implies t[j].0 != k by {
            assert(t[j] == s[j + 1]);
        }
        lemma_hash_find_at(t, k, i - 1);
    }
}

/// With no pair for `k`, `hash_find` finds nothing.
pub proof fn lemma_hash_find_none<K>(s: Seq<(K, SObject)>, k: K)
    requires
        forall|j: int| 0 <= j < s.len() ==> s[j].0 != k,
    ensures
        hash_find(s, k) is None,
    decreases s.len(),
{
    if s.len() > 0 {
        let t = s.subrange(1, s.len() as int);
        assert forall|j: int| 0 <= j < t.len() implies t[j].0 != k by {
            assert(t[j] == s[j + 1]);
        }
        lemma_hash_find_none(t, k);
    }
}

/// Reading a key just stored gives the value stored, and every other key reads as it did.
pub proof fn lemma_hash_get_insert(s: Seq<(SHashKey, SObject)>, k: SHashKey, v: SObject, other: SHashKey)
    ensures
        hash_get(hash_insert(s, k, v), k) == Some(v),
        other != k ==> hash_get(hash_insert(s, k, v), other) == hash_get(s, other),
{
    lemma_hash_find(s, k);
    lemma_hash_find(s, other);
    let t = hash_insert(s, k, v);
    match hash_find(s, k) {
        Some(i) => {
            assert forall|j: int| 0 <= j < i implies t[j].0 != k by {
                assert(t[j] == s[j]);
            }
            lemma_hash_find_at(t, k, i as int);
            if other != k {
                match hash_find(s, other) {
                    Some(j) => {
                        assert forall|x: int| 0 <= x < j implies t[x].0 != other by {
                            if x != i {
                                assert(t[x] == s[x]);
                            }
                        }
                        assert(t[j as int] == s[j as int]);
                        lemma_hash_find_at(t, other, j as int);
                    },
                    None => {
                        assert forall|x: int| 0 <= x < t.len() implies t[x].0 != other by {
                            if x != i {
                                assert(t[x] == s[x]);
                            }
                        }
                        lemma_hash_find_none(t, other);
                    },
                }
            }
        },
        None => {
            assert forall|j: int| 0 <= j < s.len() implies t[j].0 != k by {
                assert(t[j] == s[j]);
            }
            lemma_hash_find_at(t, k, s.len() as int);
            if other != k {
                match hash_find(s, other) {
                    Some(j) => {
                        assert forall|x: int| 0 <= x < j implies t[x].0 != other by {
                            assert(t[x] == s[x]);
                        }
                        assert(t[j as int] == s[j as int]);
                        lemma_hash_find_at(t, other, j as int);
                    },
                    None => {
                        assert forall|x: int| 0 <= x < t.len() implies t[x].0 != other by {
                            if x < s.len() {
                                assert(t[x] == s[x]);
                            }
                        }
                        lemma_hash_find_none(t, other);
                    },
                }
            }
        },
    }
}

/// Storing under a key that is there already keeps the number of pairs; a new key adds one.
pub proof fn lemma_hash_insert_len(s: Seq<(SHashKey, SObject)>, k: SHashKey, v: SObject)
    ensures
        hash_insert(s, k, v).len() == s.len() + (if hash_get(s, k) is Some { 0int } else { 1int }),
{
    lemma_hash_find(s, k);
}

/// Whether no key occurs twice.
pub open spec fn keys_distinct(s: Seq<(SHashKey, SObject)>) -> bool {
    forall|i: int, j: int| 0 <= i < j < s.len() ==> s[i].0 != s[j].0
}

/// Storing a value never makes a key occur twice.
pub proof fn lemma_hash_insert_distinct(s: Seq<(SHashKey, SObject)>, k: SHashKey, v: SObject)
    requires
        keys_distinct(s),
    ensures
        keys_distinct(hash_insert(s, k, v)),
{
    lemma_hash_find(s, k);
    let t = hash_insert(s, k, v);
    match hash_find(s, k) {
        Some(i) => {
            assert forall|a: int, b: int| 0 <= a < b < t.len() implies t[a].0 != t[b].0 by {
                assert(s[i as int].0 == k);
                if a != i && b != i {
                    assert(t[a] == s[a] && t[b] == s[b]);
                } else if a == i {
                    assert(t[b] == s[b]);
                } else {
                    assert(t[a] == s[a]);
                }
            }
        },
        None => {
            assert forall|a: int, b: int| 0 <= a < b < t.len() implies t[a].0 != t[b].0 by {
                assert(t[a] == s[a]);
                if b < s.len() {
                    assert(t[b] == s[b]);
                }
            }
        },
    }
}

impl HashPairs {
    /// No key occurs twice.
    pub open spec fn wf(&self) -> bool {
        keys_distinct(self@)
    }

    /// A hash with no pairs.
    pub fn new() -> (h: HashPairs)
        ensures
            h@ == Seq::<(SHashKey, SObject)>::empty(),
            h.wf(),
    {
        HashPairs { pairs: Vec::new() }
    }

    /// The number of pairs.
    pub fn len(&self) -> (n: usize)
        ensures
            n == self@.len(),
    {
        proof {
            lemma_pairs_obj_view_index(self.pairs@);
        }
        self.pairs.len()
    }

    /// Position of the pair with key `key`.
    fn find(&self, key: &HashKey) -> (r: Option<usize>)
        ensures
            r matches Some(i) ==> hash_find(self@, key@) == Some(i as nat) && i < self.pairs@.len(),
            r is None ==> hash_find(self@, key@) is None,
    {
        proof {
            lemma_pairs_obj_view_index(self.pairs@);
        }
        let mut i: usize = 0;
        while i < self.pairs.len()
            invariant
                i <= self.pairs@.len(),
                pairs_obj_view(self.pairs@).len() == self.pairs@.len(),
                forall|j: int|
                    0 <= j < self.pairs@.len() ==> #[trigger] self@[j] == (
                        self.pairs@[j].0@,
                        obj_view(self.pairs@[j].1),
                    ),
                forall|j: int| 0 <= j < i ==> self@[j].0 != key@,
            decreases self.pairs@.len() - i,
        {
            if self.pairs[i].0.same(key) {
                proof {
                    lemma_hash_find_at(self@, key@, i as int);
                }
                return Some(i);
            }
            i = i + 1;
        }
        proof {
            lemma_hash_find_none(self@, key@);
        }
        None
    }

    /// The value stored under `key`, if any.
    pub fn get(&self, key: &HashKey) -> (r: Option<&Object>)
        ensures
            match r {
                Some(v) => hash_get(self@, key@) == Some(v@),
                None => hash_get(self@, key@) is None,
            },
    {
        proof {
            lemma_pairs_obj_view_index(self.pairs@);
        }
        match self.find(key) {
            Some(i) => Some(&self.pairs[i].1),
            None => None,
        }
    }

    /// Stores `val` under `key`, in place of an earlier value for that key.
    pub fn insert(&mut self, key: HashKey, val: Object)
        ensures
            final(self)@ == hash_insert(old(self)@, key@, val@),
            old(self).wf() ==> final(self).wf(),
    {
        proof {
            if old(self).wf() {
                lemma_hash_insert_distinct(old(self)@, key@, val@);
            }
        }
        proof {
            lemma_pairs_obj_view_index(self.pairs@);
        }
        let ghost kv = key@;
        let ghost vv = val@;
        match self.find(&key) {
            Some(i) => {
                let ghost before = self.pairs@;
                self.pairs.set(i, (key, val));
                proof {
                    lemma_pairs_obj_view_index(self.pairs@);
                    assert(self@ =~= pairs_obj_view(before).update(i as int, (kv, vv)));
                }
            },
            None => {
                let ghost before = self.pairs@;
                self.pairs.push((key, val));
                proof {
                    lemma_pairs_obj_view_index(self.pairs@);
                    assert(self@ =~= pairs_obj_view(before).push((kv, vv)));
                }
            },
        }
    }

    /// A copy of the hash.
    pub fn copy(&self) -> (res: HashPairs)
        ensures
            res@ == self@,
        decreases self,
    {
        let mut res: Vec<(HashKey, Object)> = Vec::new();
        let mut i: usize = 0;
        while i < self.pairs.len()
            invariant
                i <= self.pairs@.len(),
                res@.len() == i,
                forall|j: int|
                    0 <= j < i ==> (#[trigger] res@[j]).0@ == self.pairs@[j].0@ && obj_view(res@[j].1)
                        == obj_view(self.pairs@[j].1),
            decreases self.pairs@.len() - i,
        {
            proof {
                assert(decreases_to!(self.pairs => self.pairs@[i as int]));
            }
            let k = self.pairs[i].0.copy();
            let v = self.pairs[i].1.copy();
            res.push((k, v));
            i = i + 1;
        }
        proof {
            lemma_pairs_obj_view_ext(res@, self.pairs@);
        }
        HashPairs { pairs: res }
    }
}

// ---------------------------------------------------------------------------
// Copies and hash keys
// ---------------------------------------------------------------------------

impl Object {
    /// A copy of the value.
    pub fn copy(&self) -> (res: Object)
        ensures
            res@ == self@,
        decreases self,
    {
        match self {
            Object::Integer(i) => Object::Integer(*i),
            Object::String(s) => Object::String(s.clone()),
            Object::Boolean(b) => Object::Boolean(*b),
            Object::Null => Object::Null,
            Object::ReturnValue(v) => Object::ReturnValue(Box::new(v.copy())),
            Object::Error(s) => Object::Error(s.clone()),
            Object::Function { parameters, body } => Object::Function {
                parameters: copy_strings(parameters),
                body: Box::new(body.copy()),
            },
            Object::Builtin(b) => Object::Builtin(*b),
            Object::Array(v) => Object::Array(copy_objects(v)),
            Object::Hash(h) => Object::Hash(h.copy()),
            Object::Module(m) => Object::Module(*m),
            Object::Class { name, environment } => Object::Class {
                name: name.clone(),
                environment: *environment,
            },
            Object::Instance { class_name, class_env, instance_env } => Object::Instance {
                class_name: class_name.clone(),
                class_env: *class_env,
                instance_env: *instance_env,
            },
            Object::BoundMethod { instance, method } => Object::BoundMethod {
                instance: Box::new(instance.copy()),
                method: Box::new(method.copy()),
            },
        }
    }

    /// The hash key this value stands for, or an error for a value that cannot be one.
    pub fn get_hash_key(&self, heap: &EnvHeap) -> (r: Result<HashKey, String>)
        ensures
            match r {
                Ok(k) => spec_hash_key(self@) == Some(k@),
                Err(msg) => spec_hash_key(self@) is None && msg@ == "Unusable as hash key: "@ + obj_debug(heap@, self@),
            },
    {
        match self {
            Object::Integer(i) => Ok(HashKey::Integer(*i)),
            Object::String(s) => Ok(HashKey::String(s.clone())),
            Object::Boolean(b) => Ok(HashKey::Boolean(*b)),
            _ => {
                let mut msg = String::from_str("Unusable as hash key: ");
                let d = debug_text(heap, self);
                msg.append(d.as_str());
                Err(msg)
            },
        }
    }
}

/// A copy of each value.
pub fn copy_objects(v: &Vec<Object>) -> (res: Vec<Object>)
    ensures
        objs_view(res@) == objs_view(v@),
    decreases v,
{
    let mut res: Vec<Object> = Vec::new();
    let mut i: usize = 0;
    while i < v.len()
        invariant
            i <= v@.len(),
            res@.len() == i,
            forall|j: int| 0 <= j < i ==> obj_view(#[trigger] res@[j]) == obj_view(v@[j]),
        decreases v@.len() - i,
    {
        proof {
            assert(decreases_to!(v => v@[i as int]));
        }
        let e = v[i].copy();
        res.push(e);
        i = i + 1;
    }
    proof {
        lemma_objs_view_ext(res@, v@);
    }
    res
}

/// The hash key a value stands for: integers, strings and booleans are keys.
pub open spec fn spec_hash_key(o: SObject) -> Option<SHashKey> {
    match o {
        SObject::Integer(i) => Some(SHashKey::Integer(i)),
        SObject::Str(s) => Some(SHashKey::Str(s)),
        SObject::Boolean(b) => Some(SHashKey::Boolean(b)),
        _ => None,
    }
}

/// Appends the characters of `cs`.
pub fn push_chars(s: &mut String, cs: &[char])
    ensures
        final(s)@ == old(s)@ + cs@,
{
    let mut i: usize = 0;
    while i < cs.len()
        invariant
            i <= cs@.len(),
            s@ == old(s)@ + cs@.subrange(0, i as int),
        decreases cs@.len() - i,
    {
        push_char(s, cs[i]);
        i = i + 1;
        assert(s@ =~= old(s)@ + cs@.subrange(0, i as int));
    }
    assert(cs@.subrange(0, cs@.len() as int) =~= cs@);
}

// ---------------------------------------------------------------------------
// Display
// ---------------------------------------------------------------------------

/// The characters of `"true"` or `"false"`.
pub open spec fn bool_text(b: bool) -> Seq<char> {
    if b {
        seq!['t', 'r', 'u', 'e']
    } else {
        seq!['f', 'a', 'l', 's', 'e']
    }
}

/// Items joined with `", "`.
pub open spec fn join_comma(items: Seq<Seq<char>>) -> Seq<char>
    decreases items.len(),
{
    if items.len() == 0 {
        Seq::empty()
    } else if items.len() == 1 {
        items[0]
    } else {
        join_comma(items.subrange(0, items.len() - 1)) + seq![',', ' '] + items[items.len() - 1]
    }
}

/// How a hash key is shown: strings in double quotes.
pub open spec fn key_text(k: SHashKey) -> Seq<char> {
    match k {
        SHashKey::Integer(i) => decimal(i as int),
        SHashKey::Str(s) => seq!['"'] + s + seq!['"'],
        SHashKey::Boolean(b) => bool_text(b),
    }
}

/// The text a value is shown as when printed.
pub open spec fn display(o: SObject) -> Seq<char>
    decreases o,
{
    match o {
        SObject::Integer(i) => decimal(i as int),
        SObject::Str(s) => s,
        SObject::Boolean(b) => bool_text(b),
        SObject::Null => seq!['n', 'u', 'l', 'l'],
        SObject::ReturnValue(v) => display(*v),
        SObject::Error(e) => seq!['E', 'R', 'R', 'O', 'R', ':', ' '] + e,
        SObject::Function { parameters, .. } => seq!['f', 'n', '('] + join_comma(parameters)
            + seq![')', ' ', '{', ' ', '.', '.', '.', ' ', '}'],
        SObject::Builtin(_) => seq![
            'n', 'a', 't', 'i', 'v', 'e', ' ', 'b', 'u', 'i', 'l', 't', '-', 'i', 'n', ' ', 'f', 'u', 'n', 'c', 't', 'i', 'o', 'n'
        ],
        SObject::Array(v) => seq!['['] + display_list(v) + seq![']'],
        SObject::Hash(p) => seq!['{'] + display_pairs(p) + seq!['}'],
        SObject::Module(_) => seq!['<', 'm', 'o', 'd', 'u', 'l', 'e', '>'],
        SObject::Class { name, .. } => seq!['<', 'c', 'l', 'a', 's', 's', ' '] + name + seq!['>'],
        SObject::Instance { class_name, .. } => seq!['<', 'i', 'n', 's', 't', 'a', 'n', 'c', 'e', ' ']
            + class_name + seq!['>'],
        SObject::BoundMethod { method, .. } => seq![
            '<', 'b', 'o', 'u', 'n', 'd', ' ', 'm', 'e', 't', 'h', 'o', 'd', ':', ' '
        ] + display(*method) + seq!['>'],
    }
}

/// Values shown one after the other, separated by `", "`.
pub open spec fn display_list(s: Seq<SObject>) -> Seq<char>
    decreases s,
{
    if s.len() == 0 {
        Seq::empty()
    } else if s.len() == 1 {
        display(s[0])
    } else {
        display_list(s.subrange(0, s.len() - 1)) + seq![',', ' '] + display(s[s.len() - 1])
    }
}

/// Pairs shown as `key: value`, separated by `", "`.
pub open spec fn display_pairs(s: Seq<(SHashKey, SObject)>) -> Seq<char>
    decreases s,
{
    if s.len() == 0 {
        Seq::empty()
    } else if s.len() == 1 {
        key_text(s[0].0) + seq![':', ' '] + display(s[0].1)
    } else {
        display_pairs(s.subrange(0, s.len() - 1)) + seq![',', ' '] + key_text(s[s.len() - 1].0)
            + seq![':', ' '] + display(s[s.len() - 1].1)
    }
}

/// Showing one more value extends the shown list.
proof fn lemma_display_list_step(vs: Seq<SObject>, i: int)
    requires
        0 <= i < vs.len(),
    ensures
        display_list(vs.subrange(0, i + 1)) == if i == 0 {
            display(vs[0])
        } else {
            display_list(vs.subrange(0, i)) + seq![',', ' '] + display(vs[i])
        },
{
    let t = vs.subrange(0, i + 1);
    assert(t.subrange(0, i) =~= vs.subrange(0, i));
    assert(t[i] == vs[i]);
}

/// Showing one more pair extends the shown pairs.
proof fn lemma_display_pairs_step(vs: Seq<(SHashKey, SObject)>, i: int)
    requires
        0 <= i < vs.len(),
    ensures
        display_pairs(vs.subrange(0, i + 1)) == if i == 0 {
            key_text(vs[0].0) + seq![':', ' '] + display(vs[0].1)
        } else {
            display_pairs(vs.subrange(0, i)) + seq![',', ' '] + key_text(vs[i].0) + seq![':', ' ']
                + display(vs[i].1)
        },
{
    let t = vs.subrange(0, i + 1);
    assert(t.subrange(0, i) =~= vs.subrange(0, i));
    assert(t[i] == vs[i]);
}

/// Joining one more item extends the joined text.
proof fn lemma_join_comma_step(vs: Seq<Seq<char>>, i: int)
    requires
        0 <= i < vs.len(),
    ensures
        join_comma(vs.subrange(0, i + 1)) == if i == 0 {
            vs[0]
        } else {
            join_comma(vs.subrange(0, i)) + seq![',', ' '] + vs[i]
        },
{
    let t = vs.subrange(0, i + 1);
    assert(t.subrange(0, i) =~= vs.subrange(0, i));
    assert(t[i] == vs[i]);
}

/// Appends the decimal digits of `m`.
pub fn push_digits(s: &mut String, m: u64)
    ensures
        final(s)@ == old(s)@ + decimal(m as int),
    decreases m,
{
    if m >= 10 {
        push_digits(s, m / 10);
    }
    let d: u32 = (m % 10) as u32;
    let c: char = if d == 0 { '0' } else if d == 1 { '1' } else if d == 2 { '2' } else if d == 3 { '3' }
        else if d == 4 { '4' } else if d == 5 { '5' } else if d == 6 { '6' } else if d == 7 { '7' }
        else if d == 8 { '8' } else { '9' };
    assert(c == crate::text::digit_char(m as int % 10));
    push_char(s, c);
    assert(final(s)@ =~= old(s)@ + decimal(m as int)) by {
        if m >= 10 {
            assert(decimal(m as int) == decimal(m as int / 10) + seq![crate::text::digit_char(m as int % 10)]);
        }
    }
}

/// Appends the decimal rendering of `n`.
pub fn push_decimal(s: &mut String, n: i64)
    ensures
        final(s)@ == old(s)@ + decimal(n as int),
{
    if n < 0 {
        push_char(s, '-');
        let m: u64 = (0i128 - (n as i128)) as u64;
        push_digits(s, m);
        assert(final(s)@ =~= old(s)@ + decimal(n as int));
    } else {
        push_digits(s, n as u64);
    }
}

impl Object {
    /// Appends the text this value is shown as when printed.
    pub fn push_display(&self, s: &mut String)
        ensures
            final(s)@ == old(s)@ + display(self@),
        decreases self,
    {
        match self {
            Object::Integer(i) => push_decimal(s, *i),
            Object::String(t) => s.append(t.as_str()),
            Object::Boolean(b) => push_bool(s, *b),
            Object::Null => push_chars(s, &['n', 'u', 'l', 'l']),
            Object::ReturnValue(v) => v.push_display(s),
            Object::Error(e) => {
                push_chars(s, &['E', 'R', 'R', 'O', 'R', ':', ' ']);
                s.append(e.as_str());
                assert(final(s)@ =~= old(s)@ + display(self@));
            },
            Object::Function { parameters, .. } => {
                push_chars(s, &['f', 'n', '(']);
                let mut i: usize = 0;
                let ghost ps = strings_view(parameters@);
                let ghost start = s@;
                while i < parameters.len()
                    invariant
                        i <= parameters@.len(),
                        ps == strings_view(parameters@),
                        s@ == start + join_comma(ps.subrange(0, i as int)),
                    decreases parameters@.len() - i,
                {
                    let ghost before = s@;
                    if i > 0 {
                        push_chars(s, &[',', ' ']);
                    }
                    s.append(parameters[i].as_str());
                    proof {
                        lemma_join_comma_step(ps, i as int);
                        assert(ps[i as int] == parameters@[i as int]@);
                        if i == 0 {
                            assert(ps.subrange(0, 0) =~= Seq::<Seq<char>>::empty());
                        }
                    }
                    i = i + 1;
                    assert(s@ =~= start + join_comma(ps.subrange(0, i as int)));
                }
                push_chars(s, &[')', ' ', '{', ' ', '.', '.', '.', ' ', '}']);
                assert(ps.subrange(0, parameters@.len() as int) =~= ps);
                assert(final(s)@ =~= old(s)@ + display(self@));
            },
            Object::Builtin(_) => push_chars(s, &['n', 'a', 't', 'i', 'v', 'e', ' ', 'b', 'u', 'i', 'l', 't', '-', 'i', 'n', ' ', 'f', 'u', 'n', 'c', 't', 'i', 'o', 'n']),
            Object::Array(v) => {
                push_char(s, '[');
                push_display_list(v, s);
                push_char(s, ']');
                assert(final(s)@ =~= old(s)@ + display(self@));
            },
            Object::Hash(h) => {
                push_char(s, '{');
                push_display_pairs(h, s);
                push_char(s, '}');
                assert(final(s)@ =~= old(s)@ + display(self@));
            },
            Object::Module(_) => push_chars(s, &['<', 'm', 'o', 'd', 'u', 'l', 'e', '>']),
            Object::Class { name, .. } => {
                push_chars(s, &['<', 'c', 'l', 'a', 's', 's', ' ']);
                s.append(name.as_str());
                push_char(s, '>');
                assert(final(s)@ =~= old(s)@ + display(self@));
            },
            Object::Instance { class_name, .. } => {
                push_chars(s, &['<', 'i', 'n', 's', 't', 'a', 'n', 'c', 'e', ' ']);
                s.append(class_name.as_str());
                push_char(s, '>');
                assert(final(s)@ =~= old(s)@ + display(self@));
            },
            Object::BoundMethod { method, .. } => {
                push_chars(s, &['<', 'b', 'o', 'u', 'n', 'd', ' ', 'm', 'e', 't', 'h', 'o', 'd', ':', ' ']);
                method.push_display(s);
                push_char(s, '>');
                assert(final(s)@ =~= old(s)@ + display(self@));
            },
        }
    }

    /// The text this value is shown as when printed.
    pub fn to_display_string(&self) -> (s: String)
        ensures
            s@ == display(self@),
    {
        let mut s = String::new();
        self.push_display(&mut s);
        assert(s@ =~= display(self@));
        s
    }
}

/// Appends `true` or `false`.
pub fn push_bool(s: &mut String, b: bool)
    ensures
        final(s)@ == old(s)@ + bool_text(b),
{
    if b {
        push_chars(s, &['t', 'r', 'u', 'e']);
    } else {
        push_chars(s, &['f', 'a', 'l', 's', 'e']);
    }
}

/// Appends the values of `v`, shown and separated by `", "`.
#[verifier::rlimit(30)]
fn push_display_list(v: &Vec<Object>, s: &mut String)
    ensures
        final(s)@ == old(s)@ + display_list(objs_view(v@)),
    decreases v,
{
    proof {
        lemma_objs_view_index(v@);
    }
    let ghost vs = objs_view(v@);
    let mut i: usize = 0;
    while i < v.len()
        invariant
            i <= v@.len(),
            vs == objs_view(v@),
            vs.len() == v@.len(),
            forall|j: int| 0 <= j < v@.len() ==> #[trigger] vs[j] == obj_view(v@[j]),
            s@ == old(s)@ + display_list(vs.subrange(0, i as int)),
        decreases v@.len() - i,
    {
        proof {
            assert(decreases_to!(v => v@[i as int]));
        }
        if i > 0 {
            push_chars(s, &[',', ' ']);
        }
        v[i].push_display(s);
        proof {
            lemma_display_list_step(vs, i as int);
            if i == 0 {
                assert(vs.subrange(0, 0) =~= Seq::<SObject>::empty());
            }
        }
        i = i + 1;
        assert(s@ =~= old(s)@ + display_list(vs.subrange(0, i as int)));
    }
    assert(vs.subrange(0, v@.len() as int) =~= vs);
}

/// Appends the pairs of `h`, shown as `key: value` and separated by `", "`.
#[verifier::rlimit(30)]
fn push_display_pairs(h: &HashPairs, s: &mut String)
    ensures
        final(s)@ == old(s)@ + display_pairs(h@),
    decreases h,
{
    proof {
        lemma_pairs_obj_view_index(h.pairs@);
    }
    let ghost vs = h@;
    let mut i: usize = 0;
    while i < h.pairs.len()
        invariant
            i <= h.pairs@.len(),
            vs == h@,
            vs.len() == h.pairs@.len(),
            forall|j: int| 0 <= j < h.pairs@.len() ==> #[trigger] vs[j] == (h.pairs@[j].0@, obj_view(h.pairs@[j].1)),
            s@ == old(s)@ + display_pairs(vs.subrange(0, i as int)),
        decreases h.pairs@.len() - i,
    {
        proof {
            assert(decreases_to!(h.pairs => h.pairs@[i as int]));
        }
        if i > 0 {
            push_chars(s, &[',', ' ']);
        }
        push_key(&h.pairs[i].0, s);
        push_chars(s, &[':', ' ']);
        h.pairs[i].1.push_display(s);
        proof {
            lemma_display_pairs_step(vs, i as int);
            if i == 0 {
                assert(vs.subrange(0, 0) =~= Seq::<(SHashKey, SObject)>::empty());
            }
        }
        i = i + 1;
        assert(s@ =~= old(s)@ + display_pairs(vs.subrange(0, i as int)));
    }
    assert(vs.subrange(0, h.pairs@.len() as int) =~= vs);
}

/// Appends how a hash key is shown.
fn push_key(k: &HashKey, s: &mut String)
    ensures
        final(s)@ == old(s)@ + key_text(k@),
{
    match k {
        HashKey::Integer(i) => push_decimal(s, *i),
        HashKey::String(t) => {
            push_char(s, '"');
            s.append(t.as_str());
            push_char(s, '"');
            assert(final(s)@ =~= old(s)@ + key_text(k@));
        },
        HashKey::Boolean(b) => push_bool(s, *b),
    }
}

} // verus!
