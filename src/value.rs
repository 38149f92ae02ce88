//! The result of an extraction: a tagged union of scalars, arrays and
//! objects, with path queries over it.

use vstd::prelude::*;
use crate::literal::{digits_up_to, unsigned_literal, zero_float_literal, float_syntax};
use crate::text::{chars_of, string_of};

verus! {

/// A value produced by an extraction.
///
/// A float is held as the decimal text it was read from, in the syntax of
/// `f64::from_str`, so that the value stays exact and comparable.
#[derive(Debug, PartialEq)]
pub enum Value {
    Int(i64),
    Float(String),
    Bool(bool),
    String(String),
    Array(Vec<Value>),
    Object(InnerMap),
    Null,
}

/// The entries of an object, in the order they were first inserted. The
/// maps this library builds never hold a key twice; where a key does occur
/// twice, its first entry is the one that counts.
#[derive(Debug)]
pub struct InnerMap {
    pub entries: Vec<(String, Value)>,
}

/// The mathematical model of a `Value`: strings as character sequences,
/// arrays as sequences, objects as maps from keys to values.
pub enum ValueModel {
    Int(i64),
    Float(Seq<char>),
    Bool(bool),
    String(Seq<char>),
    Array(Seq<ValueModel>),
    Object(Map<Seq<char>, ValueModel>),
    Null,
}

pub open spec fn model_of(v: Value) -> ValueModel
    decreases v,
{
    match v {
        Value::Int(i) => ValueModel::Int(i),
        Value::Float(t) => ValueModel::Float(t@),
        Value::Bool(b) => ValueModel::Bool(b),
        Value::String(s) => ValueModel::String(s@),
        Value::Array(a) => ValueModel::Array(models_of(a@)),
        Value::Object(m) => ValueModel::Object(entries_model(m.entries@)),
        Value::Null => ValueModel::Null,
    }
}

/// The models of a sequence of values.
pub open spec fn models_of(s: Seq<Value>) -> Seq<ValueModel>
    decreases s,
{
    if s.len() == 0 {
        Seq::empty()
    } else {
        models_of(s.subrange(0, s.len() - 1)).push(model_of(s[s.len() - 1]))
    }
}

/// The map that a list of entries stands for: the first entry of a key wins.
pub open spec fn entries_model(s: Seq<(String, Value)>) -> Map<Seq<char>, ValueModel>
    decreases s,
{
    if s.len() == 0 {
        Map::empty()
    } else {
        entries_model(s.subrange(1, s.len() as int)).insert(s[0].0@, model_of(s[0].1))
    }
}

impl View for Value {
    type V = ValueModel;

    open spec fn view(&self) -> ValueModel {
        model_of(*self)
    }
}

impl View for InnerMap {
    type V = Map<Seq<char>, ValueModel>;

    open spec fn view(&self) -> Map<Seq<char>, ValueModel> {
        entries_model(self.entries@)
    }
}

/// No key occurs twice.
pub open spec fn keys_unique(s: Seq<(String, Value)>) -> bool {
    forall|i: int, j: int| 0 <= i < j < s.len() ==> (#[trigger] s[i]).0@ != (#[trigger] s[j]).0@
}

pub open spec fn opt_model(r: Option<Value>) -> Option<ValueModel> {
    match r {
        Some(v) => Some(v@),
        None => None,
    }
}

pub proof fn lemma_models_of(s: Seq<Value>)
    ensures
        models_of(s).len() == s.len(),
        forall|i: int| 0 <= i < s.len() ==> #[trigger] models_of(s)[i] == s[i]@,
    decreases s.len(),
{
    if s.len() > 0 {
        lemma_models_of(s.subrange(0, s.len() - 1));
        assert forall|i: int| 0 <= i < s.len() implies #[trigger] models_of(s)[i] == s[i]@ by {
            if i < s.len() - 1 {
                assert(s.subrange(0, s.len() - 1)[i] == s[i]);
            }
        }
    }
}

proof fn lemma_models_pointwise(s: Seq<Value>, t: Seq<Value>)
    requires
        s.len() == t.len(),
        forall|i: int| 0 <= i < s.len() ==> (#[trigger] s[i])@ == t[i]@,
    ensures
        models_of(s) == models_of(t),
{
    lemma_models_of(s);
    lemma_models_of(t);
    assert(models_of(s) =~= models_of(t));
}

proof fn lemma_entries_pointwise(s: Seq<(String, Value)>, t: Seq<(String, Value)>)
    requires
        s.len() == t.len(),
        forall|i: int| 0 <= i < s.len() ==> (#[trigger] s[i]).0@ == t[i].0@ && s[i].1@ == t[i].1@,
    ensures
        entries_model(s) == entries_model(t),
    decreases s.len(),
{
    if s.len() > 0 {
        let s1 = s.subrange(1, s.len() as int);
        let t1 = t.subrange(1, t.len() as int);
        assert forall|i: int| 0 <= i < s1.len() implies (#[trigger] s1[i]).0@ == t1[i].0@ && s1[i].1@
            == t1[i].1@ by {
            assert(s1[i] == s[i + 1]);
            assert(t1[i] == t[i + 1]);
        }
        lemma_entries_pointwise(s1, t1);
        assert(s[0].0@ == t[0].0@ && s[0].1@ == t[0].1@);
    }
}

proof fn lemma_entries_update(s: Seq<(String, Value)>, i: int, e: (String, Value))
    requires
        0 <= i < s.len(),
        e.0@ == s[i].0@,
        forall|j: int| 0 <= j < i ==> (#[trigger] s[j]).0@ != s[i].0@,
    ensures
        entries_model(s.update(i, e)) == entries_model(s).insert(e.0@, e.1@),
    decreases i,
{
    let t = s.update(i, e);
    if i == 0 {
        assert(t.subrange(1, t.len() as int) == s.subrange(1, s.len() as int));
        assert(entries_model(t) =~= entries_model(s).insert(e.0@, e.1@));
    } else {
        let s1 = s.subrange(1, s.len() as int);
        assert(t.subrange(1, t.len() as int) == s1.update(i - 1, e));
        assert forall|j: int| 0 <= j < i - 1 implies (#[trigger] s1[j]).0@ != s1[i - 1].0@ by {
            assert(s1[j] == s[j + 1]);
        }
        lemma_entries_update(s1, i - 1, e);
        assert(entries_model(t) =~= entries_model(s).insert(e.0@, e.1@));
    }
}

pub proof fn lemma_entries_push(s: Seq<(String, Value)>, e: (String, Value))
    requires
        forall|j: int| 0 <= j < s.len() ==> (#[trigger] s[j]).0@ != e.0@,
    ensures
        entries_model(s.push(e)) == entries_model(s).insert(e.0@, e.1@),
    decreases s.len(),
{
    let t = s.push(e);
    if s.len() == 0 {
        assert(t.subrange(1, t.len() as int) == s);
        assert(entries_model(t) =~= entries_model(s).insert(e.0@, e.1@));
    } else {
        let s1 = s.subrange(1, s.len() as int);
        assert(t.subrange(1, t.len() as int) == s1.push(e));
        assert forall|j: int| 0 <= j < s1.len() implies (#[trigger] s1[j]).0@ != e.0@ by {
            assert(s1[j] == s[j + 1]);
        }
        lemma_entries_push(s1, e);
        assert(entries_model(t) =~= entries_model(s).insert(e.0@, e.1@));
    }
}

/// Appending an entry whose key occurs earlier changes nothing.
pub proof fn lemma_entries_push_repeat(s: Seq<(String, Value)>, e: (String, Value))
    requires
        exists|j: int| 0 <= j < s.len() && (#[trigger] s[j]).0@ == e.0@,
    ensures
        entries_model(s.push(e)) == entries_model(s),
    decreases s.len(),
{
    let t = s.push(e);
    let s1 = s.subrange(1, s.len() as int);
    assert(t.subrange(1, t.len() as int) == s1.push(e));
    if s[0].0@ == e.0@ {
        if s1.len() > 0 && exists|j: int| 0 <= j < s1.len() && (#[trigger] s1[j]).0@ == e.0@ {
            lemma_entries_push_repeat(s1, e);
        } else {
            lemma_entries_push(s1, e);
        }
        assert(entries_model(t) =~= entries_model(s));
    } else {
        let j = choose|j: int| 0 <= j < s.len() && (#[trigger] s[j]).0@ == e.0@;
        assert(s1[j - 1] == s[j]);
        lemma_entries_push_repeat(s1, e);
    }
}

proof fn lemma_entries_first(s: Seq<(String, Value)>, i: int, k: Seq<char>)
    requires
        0 <= i < s.len(),
        s[i].0@ == k,
        forall|j: int| 0 <= j < i ==> (#[trigger] s[j]).0@ != k,
    ensures
        entries_model(s).contains_key(k),
        entries_model(s)[k] == s[i].1@,
    decreases i,
{
    if i > 0 {
        let s1 = s.subrange(1, s.len() as int);
        assert forall|j: int| 0 <= j < i - 1 implies (#[trigger] s1[j]).0@ != k by {
            assert(s1[j] == s[j + 1]);
        }
        lemma_entries_first(s1, i - 1, k);
    }
}

proof fn lemma_entries_none(s: Seq<(String, Value)>, k: Seq<char>)
    requires
        forall|j: int| 0 <= j < s.len() ==> (#[trigger] s[j]).0@ != k,
    ensures
        !entries_model(s).contains_key(k),
    decreases s.len(),
{
    if s.len() > 0 {
        let s1 = s.subrange(1, s.len() as int);
        assert forall|j: int| 0 <= j < s1.len() implies (#[trigger] s1[j]).0@ != k by {
            assert(s1[j] == s[j + 1]);
        }
        lemma_entries_none(s1, k);
    }
}

impl InnerMap {
    /// An empty map.
    pub fn new() -> (r: InnerMap)
        ensures
            r.entries@ == Seq::<(String, Value)>::empty(),
            r@ == Map::<Seq<char>, ValueModel>::empty(),
    {
        InnerMap { entries: Vec::new() }
    }

    /// Number of entries.
    pub fn len(&self) -> (r: usize)
        ensures
            r == self.entries.len(),
    {
        self.entries.len()
    }

    /// Whether the map has no entry.
    pub fn is_empty(&self) -> (r: bool)
        ensures
            r == (self.entries.len() == 0),
            r == (self@ == Map::<Seq<char>, ValueModel>::empty()),
    {
        proof {
            if self.entries.len() > 0 {
                assert(self@.contains_key(self.entries@[0].0@));
            }
        }
        self.entries.len() == 0
    }

    /// Position of the first entry with key `key`.
    fn position(&self, key: &String) -> (r: Option<usize>)
        ensures
            match r {
                Some(i) => i < self.entries.len() && self.entries@[i as int].0@ == key@
                    && forall|j: int| 0 <= j < i ==> (#[trigger] self.entries@[j]).0@ != key@,
                None => forall|j: int| 0 <= j < self.entries.len() ==> (#[trigger] self.entries@[j]).0@ != key@,
            },
    {
        let mut i: usize = 0;
        while i < self.entries.len()
            invariant
                i <= self.entries.len(),
                forall|j: int| 0 <= j < i ==> (#[trigger] self.entries@[j]).0@ != key@,
            decreases self.entries.len() - i,
        {
            if self.entries[i].0 == *key {
                return Some(i);
            }
            i = i + 1;
        }
        None
    }

    /// Position of the first entry with the key `key`, or the number of
    /// entries where there is none.
    pub fn first_position(&self, key: &String) -> (r: usize)
        ensures
            r <= self.entries.len(),
            r < self.entries.len() ==> self.entries@[r as int].0@ == key@,
            forall|j: int| 0 <= j < r ==> (#[trigger] self.entries@[j]).0@ != key@,
    {
        match self.position(key) {
            Some(i) => i,
            None => self.entries.len(),
        }
    }

    /// The value under `key`.
    pub fn get(&self, key: &str) -> (r: Option<&Value>)
        ensures
            match r {
                Some(v) => self@.contains_key(key@) && v@ == self@[key@],
                None => !self@.contains_key(key@),
            },
    {
        let k = key.to_owned();
        match self.position(&k) {
            Some(i) => {
                proof {
                    lemma_entries_first(self.entries@, i as int, key@);
                }
                Some(&self.entries[i].1)
            },
            None => {
                proof {
                    lemma_entries_none(self.entries@, key@);
                }
                None
            },
        }
    }

    /// Sets the value under `key`: an existing entry keeps its place, a new
    /// one goes last.
    pub fn insert(&mut self, key: String, v: Value)
        ensures
            final(self)@ == old(self)@.insert(key@, v@),
            keys_unique(old(self).entries@) ==> keys_unique(final(self).entries@),
    {
        match self.position(&key) {
            Some(i) => {
                proof {
                    lemma_entries_update(self.entries@, i as int, (key, v));
                }
                self.entries.set(i, (key, v));
            },
            None => {
                proof {
                    lemma_entries_push(self.entries@, (key, v));
                }
                self.entries.push((key, v));
            },
        }
    }

    /// A copy of this map.
    pub fn duplicate(&self) -> (r: InnerMap)
        ensures
            r@ == self@,
            r.entries.len() == self.entries.len(),
            forall|i: int| 0 <= i < self.entries.len() ==> (#[trigger] r.entries@[i]).0@ == self.entries@[i].0@,
        decreases self,
    {
        let mut out: Vec<(String, Value)> = Vec::new();
        let mut i: usize = 0;
        while i < self.entries.len()
            invariant
                i <= self.entries.len(),
                out.len() == i,
                forall|j: int| 0 <= j < i ==> (#[trigger] out@[j]).0@ == self.entries@[j].0@
                    && out@[j].1@ == self.entries@[j].1@,
            decreases self.entries.len() - i,
        {
            proof {
                assert(decreases_to!(*self => self.entries));
                assert(decreases_to!(self.entries => self.entries@));
                assert(decreases_to!(self.entries@ => self.entries@[i as int]));
                assert(decreases_to!(self.entries@[i as int] => self.entries@[i as int].1));
            }
            let k = self.entries[i].0.clone();
            let x = self.entries[i].1.duplicate();
            out.push((k, x));
            i = i + 1;
        }
        proof {
            lemma_entries_pointwise(out@, self.entries@);
        }
        InnerMap { entries: out }
    }
}

/// What `is_empty` answers: `Null`, an empty string, array or object, the
/// integer 0 and a float that writes zero.
pub open spec fn model_is_empty(v: ValueModel) -> bool {
    match v {
        ValueModel::Null => true,
        ValueModel::String(s) => s.len() == 0,
        ValueModel::Array(a) => a.len() == 0,
        ValueModel::Object(m) => m == Map::<Seq<char>, ValueModel>::empty(),
        ValueModel::Int(i) => i == 0,
        ValueModel::Float(t) => zero_float_literal(t),
        ValueModel::Bool(_) => false,
    }
}

/// The first position at or after `i` that holds a `.`, or the length.
pub open spec fn dot_at(p: Seq<char>, i: int) -> int
    decreases p.len() - i,
{
    if 0 <= i < p.len() && p[i] != '.' {
        dot_at(p, i + 1)
    } else {
        i
    }
}

/// The first segment of a path.
pub open spec fn path_head(p: Seq<char>) -> Seq<char> {
    p.subrange(0, dot_at(p, 0))
}

/// The path after the first `.`, if there is one.
pub open spec fn path_rest(p: Seq<char>) -> Option<Seq<char>> {
    let d = dot_at(p, 0);
    if d < p.len() {
        Some(p.subrange(d + 1, p.len() as int))
    } else {
        None
    }
}

proof fn lemma_dot_at(p: Seq<char>, i: int)
    requires
        0 <= i <= p.len(),
    ensures
        i <= dot_at(p, i) <= p.len(),
        forall|k: int| i <= k < dot_at(p, i) ==> p[k] != '.',
        dot_at(p, i) < p.len() ==> p[dot_at(p, i)] == '.',
    decreases p.len() - i,
{
    if i < p.len() && p[i] != '.' {
        lemma_dot_at(p, i + 1);
    }
}

proof fn lemma_dot_at_is(p: Seq<char>, d: int)
    requires
        0 <= d <= p.len(),
        forall|k: int| 0 <= k < d ==> p[k] != '.',
        d == p.len() || p[d] == '.',
    ensures
        dot_at(p, 0) == d,
{
    lemma_dot_at(p, 0);
}

/// The value that path `p` leads to from `v`. Each segment is an object
/// key, an array position, or `#`: as the last segment the array's length,
/// elsewhere the rest of the path applied to each element, misses dropped.
pub open spec fn path_lookup(v: ValueModel, p: Seq<char>) -> Option<ValueModel>
    decreases p.len(), 0int,
{
    let head = path_head(p);
    match v {
        ValueModel::Object(m) => if m.contains_key(head) {
            match path_rest(p) {
                Some(r) => if r.len() < p.len() {
                    path_lookup(m[head], r)
                } else {
                    None
                },
                None => Some(m[head]),
            }
        } else {
            None
        },
        ValueModel::Array(a) => if head == seq!['#'] {
            match path_rest(p) {
                None => Some(ValueModel::Int(a.len() as i64)),
                Some(r) => if r.len() < p.len() {
                    Some(ValueModel::Array(project(a, r)))
                } else {
                    None
                },
            }
        } else {
            match unsigned_literal(head) {
                Some(n) => if n < a.len() {
                    match path_rest(p) {
                        Some(r) => if r.len() < p.len() {
                            path_lookup(a[n as int], r)
                        } else {
                            None
                        },
                        None => Some(a[n as int]),
                    }
                } else {
                    None
                },
                None => None,
            }
        },
        _ => None,
    }
}

/// `path_lookup` of `p` on each element of `s`, misses dropped.
pub open spec fn project(s: Seq<ValueModel>, p: Seq<char>) -> Seq<ValueModel>
    decreases p.len(), s.len(),
{
    if s.len() == 0 {
        Seq::empty()
    } else {
        let prev = project(s.drop_last(), p);
        match path_lookup(s.last(), p) {
            Some(x) => prev.push(x),
            None => prev,
        }
    }
}

impl Value {
    /// A copy of this value.
    pub fn duplicate(&self) -> (r: Value)
        ensures
            r@ == self@,
        decreases self,
    {
        match self {
            Value::Int(i) => Value::Int(*i),
            Value::Float(t) => Value::Float(t.clone()),
            Value::Bool(b) => Value::Bool(*b),
            Value::String(s) => Value::String(s.clone()),
            Value::Array(a) => {
                let mut out: Vec<Value> = Vec::new();
                let mut i: usize = 0;
                while i < a.len()
                    invariant
                        i <= a.len(),
                        *self is Array,
                        self->Array_0 == *a,
                        out.len() == i,
                        forall|j: int| 0 <= j < i ==> (#[trigger] out@[j])@ == a@[j]@,
                    decreases a.len() - i,
                {
                    proof {
                        assert(decreases_to!(*self => self->Array_0));
                        assert(decreases_to!(self->Array_0 => self->Array_0@));
                        assert(decreases_to!(a@ => a@[i as int]));
                    }
                    let x = a[i].duplicate();
                    out.push(x);
                    i = i + 1;
                }
                proof {
                    lemma_models_pointwise(out@, a@);
                }
                Value::Array(out)
            },
            Value::Object(m) => {
                proof {
                    assert(decreases_to!(*self => self->Object_0));
                }
                Value::Object(m.duplicate())
            },
            Value::Null => Value::Null,
        }
    }

    /// Whether the value carries nothing: `Null`, an empty string, array or
    /// object, the integer 0, or a float that is zero.
    pub fn is_empty(&self) -> (r: bool)
        ensures
            r == model_is_empty(self@),
    {
        match self {
            Value::Null => true,
            Value::String(s) => s.as_str().unicode_len() == 0,
            Value::Array(a) => {
                proof {
                    lemma_models_of(a@);
                }
                a.len() == 0
            },
            Value::Object(m) => m.is_empty(),
            Value::Int(i) => *i == 0,
            Value::Float(t) => float_syntax(&chars_of(t.as_str())).1,
            Value::Bool(_) => false,
        }
    }

    /// The value that `path` leads to: its segments, separated by `.`, are
    /// object keys, array positions, or `#` (the length of an array as the
    /// last segment, else the rest of the path applied to every element).
    pub fn from_path(&self, path: &str) -> (r: Option<Value>)
        ensures
            opt_model(r) == path_lookup(self@, path@),
    {
        let cs = chars_of(path);
        proof {
            assert(cs@.subrange(0, cs.len() as int) == cs@);
        }
        self.lookup_from(&cs, 0)
    }

    fn lookup_from(&self, p: &Vec<char>, from: usize) -> (r: Option<Value>)
        requires
            from <= p.len(),
        ensures
            opt_model(r) == path_lookup(self@, p@.subrange(from as int, p.len() as int)),
        decreases p.len() - from, 0int,
    {
        let ghost q = p@.subrange(from as int, p.len() as int);
        let mut d: usize = from;
        while d < p.len() && p[d] != '.'
            invariant
                from <= d <= p.len(),
                forall|k: int| from <= k < d ==> p@[k] != '.',
            decreases p.len() - d,
        {
            d = d + 1;
        }
        proof {
            lemma_dot_at_is(q, (d - from) as int);
            assert(path_head(q) == p@.subrange(from as int, d as int));
            if d < p.len() {
                assert(path_rest(q) == Some(p@.subrange(d + 1, p.len() as int)));
            } else {
                assert(path_rest(q) is None);
            }
        }
        match self {
            Value::Object(m) => {
                let key = string_of(p, from, d);
                match m.get(key.as_str()) {
                    Some(v) => {
                        if d < p.len() {
                            v.lookup_from(p, d + 1)
                        } else {
                            Some(v.duplicate())
                        }
                    },
                    None => None,
                }
            },
            Value::Array(a) => {
                proof {
                    lemma_models_of(a@);
                }
                if d - from == 1 && p[from] == '#' {
                    proof {
                        assert(path_head(q) == seq!['#']);
                    }
                    if d < p.len() {
                        let x = project_from(a, p, d + 1);
                        Some(Value::Array(x))
                    } else {
                        Some(Value::Int(a.len() as i64))
                    }
                } else {
                    proof {
                        if path_head(q) == seq!['#'] {
                            assert(path_head(q).len() == 1);
                            assert(path_head(q)[0] == p@[from as int]);
                        }
                    }
                    let head = slice_to(p, from, d);
                    let n = a.len();
                    let plus = head.len() > 0 && head[0] == '+';
                    let start: usize = if plus {
                        1
                    } else {
                        0
                    };
                    proof {
                        if plus {
                            assert(head@.subrange(1, head.len() as int) == head@.drop_first());
                        } else {
                            assert(head@.subrange(0, head.len() as int) == head@);
                        }
                    }
                    match digits_up_to(&head, start, n as u64) {
                        Some(i) => {
                            if (i as usize) < n {
                                if d < p.len() {
                                    a[i as usize].lookup_from(p, d + 1)
                                } else {
                                    Some(a[i as usize].duplicate())
                                }
                            } else {
                                None
                            }
                        },
                        None => None,
                    }
                }
            },
            _ => None,
        }
    }
}

/// `p[from..]` applied to each of `items`, misses dropped.
fn project_from(items: &Vec<Value>, p: &Vec<char>, from: usize) -> (r: Vec<Value>)
    requires
        from <= p.len(),
    ensures
        models_of(r@) == project(models_of(items@), p@.subrange(from as int, p.len() as int)),
    decreases p.len() - from, 1int,
{
    let ghost q = p@.subrange(from as int, p.len() as int);
    let mut out: Vec<Value> = Vec::new();
    let mut i: usize = 0;
    proof {
        lemma_models_of(items@);
    }
    while i < items.len()
        invariant
            i <= items.len(),
            from <= p.len(),
            q == p@.subrange(from as int, p.len() as int),
            models_of(items@).len() == items.len(),
            forall|j: int| 0 <= j < items.len() ==> #[trigger] models_of(items@)[j] == items@[j]@,
            models_of(out@) == project(models_of(items@).subrange(0, i as int), q),
        decreases items.len() - i,
    {
        let ghost pre = models_of(items@).subrange(0, i as int);
        assert(models_of(items@).subrange(0, i + 1).drop_last() == pre);
        let ghost before = out@;
        match items[i].lookup_from(p, from) {
            Some(x) => {
                out.push(x);
                assert(out@.subrange(0, out.len() - 1) == before);
            },
            None => {},
        }
        i = i + 1;
    }
    assert(models_of(items@).subrange(0, items.len() as int) == models_of(items@));
    out
}

/// `cs[from..to]` as a vector.
fn slice_to(cs: &Vec<char>, from: usize, to: usize) -> (r: Vec<char>)
    requires
        from <= to <= cs.len(),
    ensures
        r@ == cs@.subrange(from as int, to as int),
{
    let mut r: Vec<char> = Vec::new();
    let mut i: usize = from;
    while i < to
        invariant
            from <= i <= to <= cs.len(),
            r@ == cs@.subrange(from as int, i as int),
        decreases to - i,
    {
        r.push(cs[i]);
        assert(cs@.subrange(from as int, i + 1) == cs@.subrange(from as int, i as int).push(cs@[i as int]));
        i = i + 1;
    }
    r
}

/// The path `#` on an array yields its length, for every length including 0.
pub proof fn law_count_path(items: Seq<ValueModel>)
    ensures
        path_lookup(ValueModel::Array(items), "#"@) == Some(ValueModel::Int(items.len() as i64)),
{
    reveal_strlit("#");
    let p = "#"@;
    assert(p.len() == 1 && p[0] == '#');
    assert(dot_at(p, 1) == 1);
    assert(dot_at(p, 0) == 1);
    assert(path_head(p) =~= seq!['#']);
}

impl Value {
    /// The text of a `String` value.
    pub fn as_str(&self) -> (r: Option<&str>)
        ensures
            match self@ {
                ValueModel::String(s) => r is Some && r->Some_0@ == s,
                _ => r is None,
            },
    {
        match self {
            Value::String(s) => Some(s.as_str()),
            _ => None,
        }
    }

    /// A `String` value's text, taken out.
    pub fn into_string(self) -> (r: Option<String>)
        ensures
            match self@ {
                ValueModel::String(s) => r is Some && r->Some_0@ == s,
                _ => r is None,
            },
    {
        match self {
            Value::String(s) => Some(s),
            _ => None,
        }
    }

    /// The integer of an `Int` value.
    pub fn as_i64(&self) -> (r: Option<i64>)
        ensures
            match self@ {
                ValueModel::Int(i) => r == Some(i),
                _ => r is None,
            },
    {
        match self {
            Value::Int(i) => Some(*i),
            _ => None,
        }
    }

    /// The flag of a `Bool` value.
    pub fn as_bool(&self) -> (r: Option<bool>)
        ensures
            match self@ {
                ValueModel::Bool(b) => r == Some(b),
                _ => r is None,
            },
    {
        match self {
            Value::Bool(b) => Some(*b),
            _ => None,
        }
    }

    /// The decimal text of a `Float` value.
    pub fn as_float_text(&self) -> (r: Option<&str>)
        ensures
            match self@ {
                ValueModel::Float(t) => r is Some && r->Some_0@ == t,
                _ => r is None,
            },
    {
        match self {
            Value::Float(t) => Some(t.as_str()),
            _ => None,
        }
    }

    /// The texts of an array whose elements are all `String` values.
    pub fn into_strings(self) -> (r: Option<Vec<String>>)
        ensures
            match self@ {
                ValueModel::Array(items) => match r {
                    Some(v) => v.len() == items.len() && forall|i: int|
                        0 <= i < v.len() ==> items[i] == ValueModel::String(#[trigger] v@[i]@),
                    None => exists|i: int| 0 <= i < items.len() && !(#[trigger] items[i] is String),
                },
                _ => r is None,
            },
    {
        match self {
            Value::Array(a) => {
                proof {
                    lemma_models_of(a@);
                }
                let mut out: Vec<String> = Vec::new();
                let mut i: usize = 0;
                while i < a.len()
                    invariant
                        i <= a.len(),
                        self@ == ValueModel::Array(models_of(a@)),
                        models_of(a@).len() == a.len(),
                        forall|j: int| 0 <= j < a.len() ==> #[trigger] models_of(a@)[j] == a@[j]@,
                        out.len() == i,
                        forall|j: int| 0 <= j < i ==> a@[j]@ == ValueModel::String(#[trigger] out@[j]@),
                    decreases a.len() - i,
                {
                    match &a[i] {
                        Value::String(s) => out.push(s.clone()),
                        _ => {
                            assert(!(models_of(a@)[i as int] is String));
                            return None;
                        },
                    }
                    i = i + 1;
                }
                Some(out)
            },
            _ => None,
        }
    }
}

proof fn lemma_entries_keys(s: Seq<(String, Value)>, k: Seq<char>)
    requires
        entries_model(s).contains_key(k),
    ensures
        exists|j: int| 0 <= j < s.len() && (#[trigger] s[j]).0@ == k,
    decreases s.len(),
{
    if s[0].0@ != k {
        let s1 = s.subrange(1, s.len() as int);
        lemma_entries_keys(s1, k);
        let j = choose|j: int| 0 <= j < s1.len() && (#[trigger] s1[j]).0@ == k;
        assert(s[j + 1] == s1[j]);
    }
}

impl Value {
    /// Whether the two values are equal: objects compare as maps, whatever
    /// the order of their entries.
    pub fn equals(&self, other: &Value) -> (r: bool)
        ensures
            r == (self@ == other@),
        decreases self,
    {
        match (self, other) {
            (Value::Int(a), Value::Int(b)) => *a == *b,
            (Value::Float(a), Value::Float(b)) => *a == *b,
            (Value::Bool(a), Value::Bool(b)) => *a == *b,
            (Value::String(a), Value::String(b)) => *a == *b,
            (Value::Null, Value::Null) => true,
            (Value::Array(a), Value::Array(b)) => {
                proof {
                    lemma_models_of(a@);
                    lemma_models_of(b@);
                }
                if a.len() != b.len() {
                    return false;
                }
                let mut i: usize = 0;
                while i < a.len()
                    invariant
                        i <= a.len() == b.len(),
                        *self is Array,
                        self->Array_0 == *a,
                        models_of(a@).len() == a.len(),
                        models_of(b@).len() == b.len(),
                        forall|j: int| 0 <= j < a.len() ==> #[trigger] models_of(a@)[j] == a@[j]@,
                        forall|j: int| 0 <= j < b.len() ==> #[trigger] models_of(b@)[j] == b@[j]@,
                        self@ == ValueModel::Array(models_of(a@)),
                        other@ == ValueModel::Array(models_of(b@)),
                        forall|j: int| 0 <= j < i ==> (#[trigger] a@[j])@ == b@[j]@,
                    decreases a.len() - i,
                {
                    proof {
                        assert(decreases_to!(*self => self->Array_0));
                        assert(decreases_to!(self->Array_0 => self->Array_0@));
                        assert(decreases_to!(a@ => a@[i as int]));
                    }
                    if !a[i].equals(&b[i]) {
                        assert(models_of(a@)[i as int] != models_of(b@)[i as int]);
                        return false;
                    }
                    i = i + 1;
                }
                assert(models_of(a@) =~= models_of(b@));
                true
            },
            (Value::Object(a), Value::Object(b)) => {
                proof {
                    assert(decreases_to!(*self => self->Object_0));
                }
                a.same_as(b)
            },
            _ => false,
        }
    }
}

impl InnerMap {
    /// Whether the two maps have the same keys with equal values.
    pub fn same_as(&self, other: &InnerMap) -> (r: bool)
        ensures
            r == (self@ == other@),
        decreases self,
    {
        let n = self.entries.len();
        let mut j: usize = 0;
        while j < n
            invariant
                j <= n == self.entries.len(),
                forall|i: int|
                    0 <= i < j ==> other@.contains_key(#[trigger] self.entries@[i].0@) && self@[self.entries@[i].0@]
                        == other@[self.entries@[i].0@],
            decreases n - j,
        {
            let k = &self.entries[j].0;
            let pa = self.first_position(k);
            proof {
                lemma_entries_first(self.entries@, pa as int, k@);
            }
            let pb = other.first_position(k);
            if pb == other.entries.len() {
                proof {
                    lemma_entries_none(other.entries@, k@);
                }
                return false;
            }
            proof {
                lemma_entries_first(other.entries@, pb as int, k@);
                assert(decreases_to!(*self => self.entries));
                assert(decreases_to!(self.entries => self.entries@));
                assert(decreases_to!(self.entries@ => self.entries@[pa as int]));
                assert(decreases_to!(self.entries@[pa as int] => self.entries@[pa as int].1));
            }
            if !self.entries[pa].1.equals(&other.entries[pb].1) {
                return false;
            }
            j = j + 1;
        }
        let m = other.entries.len();
        let mut i: usize = 0;
        while i < m
            invariant
                i <= m == other.entries.len(),
                n == self.entries.len(),
                forall|t: int|
                    0 <= t < n ==> other@.contains_key(#[trigger] self.entries@[t].0@) && self@[self.entries@[t].0@]
                        == other@[self.entries@[t].0@],
                forall|t: int| 0 <= t < i ==> self@.contains_key(#[trigger] other.entries@[t].0@),
            decreases m - i,
        {
            let k = &other.entries[i].0;
            let pa = self.first_position(k);
            if pa == self.entries.len() {
                let pb = other.first_position(k);
                proof {
                    lemma_entries_none(self.entries@, k@);
                    lemma_entries_first(other.entries@, pb as int, k@);
                }
                return false;
            }
            proof {
                lemma_entries_first(self.entries@, pa as int, k@);
            }
            i = i + 1;
        }
        proof {
            assert forall|k: Seq<char>| #[trigger] self@.dom().contains(k) implies other@.dom().contains(k) && self@[k] == other@[k] by {
                lemma_entries_keys(self.entries@, k);
                let t = choose|t: int| 0 <= t < self.entries.len() && (#[trigger] self.entries@[t]).0@ == k;
                assert(other@.contains_key(self.entries@[t].0@));
            }
            assert forall|k: Seq<char>| #[trigger] other@.dom().contains(k) implies self@.dom().contains(k) by {
                lemma_entries_keys(other.entries@, k);
                let t = choose|t: int| 0 <= t < other.entries.len() && (#[trigger] other.entries@[t]).0@ == k;
                assert(self@.contains_key(other.entries@[t].0@));
            }
            assert(self@.dom() =~= other@.dom());
            assert(self@ =~= other@);
        }
        true
    }
}

impl PartialEq for InnerMap {
    fn eq(&self, other: &InnerMap) -> (r: bool) {
        self.same_as(other)
    }
}

impl vstd::std_specs::cmp::PartialEqSpecImpl for InnerMap {
    open spec fn obeys_eq_spec() -> bool {
        true
    }

    open spec fn eq_spec(&self, other: &InnerMap) -> bool {
        self@ == other@
    }
}

} // verus!
