//! Configuration values: the tree that YAML and JSON configurations are read
//! into, with paths into it and the merge rules of inheritance.
use vstd::prelude::*;

verus! {

broadcast use vstd::std_specs::vec::axiom_vec_decreases_to_view;

/// A configuration value. Numbers are kept as the bits of their IEEE 754
/// double; a mapping keeps its entries in insertion order, each key once.
#[derive(Debug, PartialEq)]
pub enum Value {
    Null,
    Bool(bool),
    Number(u64),
    String(String),
    Sequence(Vec<Value>),
    Mapping(Vec<(String, Value)>),
}

/// The mathematical form of a value.
pub enum ValueView {
    Null,
    Bool(bool),
    Number(u64),
    Text(Seq<char>),
    List(Seq<ValueView>),
    Table(Seq<(Seq<char>, ValueView)>),
}

pub open spec fn vview(v: Value) -> ValueView
    decreases v,
{
    match v {
        Value::Null => ValueView::Null,
        Value::Bool(b) => ValueView::Bool(b),
        Value::Number(n) => ValueView::Number(n),
        Value::String(s) => ValueView::Text(s@),
        Value::Sequence(items) => ValueView::List(list_view(items@)),
        Value::Mapping(entries) => ValueView::Table(table_view(entries@)),
    }
}

pub open spec fn list_view(s: Seq<Value>) -> Seq<ValueView>
    decreases s,
{
    if s.len() == 0 {
        seq![]
    } else {
        seq![vview(s[0])] + list_view(s.drop_first())
    }
}

pub open spec fn table_view(s: Seq<(String, Value)>) -> Seq<(Seq<char>, ValueView)>
    decreases s,
{
    if s.len() == 0 {
        seq![]
    } else {
        seq![(s[0].0@, vview(s[0].1))] + table_view(s.drop_first())
    }
}

} // verus!

verus! {

pub proof fn lemma_list_view(s: Seq<Value>)
    ensures
        list_view(s).len() == s.len(),
        forall|i: int| 0 <= i < s.len() ==> #[trigger] list_view(s)[i] == vview(s[i]),
    decreases s.len(),
{
    if s.len() > 0 {
        lemma_list_view(s.drop_first());
        assert forall|i: int| 0 <= i < s.len() implies #[trigger] list_view(s)[i] == vview(s[i]) by {
            if i > 0 {
                assert(list_view(s.drop_first())[i - 1] == vview(s.drop_first()[i - 1]));
            }
        }
    }
}

pub proof fn lemma_table_view(s: Seq<(String, Value)>)
    ensures
        table_view(s).len() == s.len(),
        forall|i: int| 0 <= i < s.len() ==> #[trigger] table_view(s)[i] == (s[i].0@, vview(s[i].1)),
    decreases s.len(),
{
    if s.len() > 0 {
        lemma_table_view(s.drop_first());
        assert forall|i: int| 0 <= i < s.len() implies #[trigger] table_view(s)[i] == (
            s[i].0@,
            vview(s[i].1),
        ) by {
            if i > 0 {
                assert(table_view(s.drop_first())[i - 1] == (
                    s.drop_first()[i - 1].0@,
                    vview(s.drop_first()[i - 1].1),
                ));
            }
        }
    }
}

/// Sequences of values with the same views elementwise have the same view.
pub proof fn lemma_list_view_ext(a: Seq<Value>, b: Seq<Value>)
    requires
        a.len() == b.len(),
        forall|i: int| 0 <= i < a.len() ==> vview(#[trigger] a[i]) == vview(b[i]),
    ensures
        list_view(a) == list_view(b),
{
    lemma_list_view(a);
    lemma_list_view(b);
    assert(list_view(a) =~= list_view(b));
}

pub proof fn lemma_table_view_ext(a: Seq<(String, Value)>, b: Seq<(String, Value)>)
    requires
        a.len() == b.len(),
        forall|i: int| 0 <= i < a.len() ==> (#[trigger] a[i]).0@ == b[i].0@ && vview(a[i].1) == vview(b[i].1),
    ensures
        table_view(a) == table_view(b),
{
    lemma_table_view(a);
    lemma_table_view(b);
    assert(table_view(a) =~= table_view(b));
}

/// A deep copy of a value.
pub fn copy_value(v: &Value) -> (r: Value)
    ensures
        vview(r) == vview(*v),
    decreases v,
{
    match v {
        Value::Null => Value::Null,
        Value::Bool(b) => Value::Bool(*b),
        Value::Number(n) => Value::Number(*n),
        Value::String(s) => Value::String(s.clone()),
        Value::Sequence(items) => {
            let mut out: Vec<Value> = Vec::new();
            let mut i: usize = 0;
            while i < items.len()
                invariant
                    *v == Value::Sequence(*items),
                    i <= items.len(),
                    out@.len() == i,
                    forall|k: int| 0 <= k < i ==> vview(#[trigger] out@[k]) == vview(items@[k]),
                decreases items.len() - i,
            {
                assert(decreases_to!(*v => (*v)->Sequence_0));
                assert(decreases_to!(*items => items@));
                assert(decreases_to!(items@ => items@[i as int]));
                assert(decreases_to!(*v => items@[i as int]));
                let c = copy_value(&items[i]);
                out.push(c);
                i += 1;
            }
            proof {
                lemma_list_view_ext(out@, items@);
            }
            Value::Sequence(out)
        },
        Value::Mapping(entries) => {
            let mut out: Vec<(String, Value)> = Vec::new();
            let mut i: usize = 0;
            while i < entries.len()
                invariant
                    *v == Value::Mapping(*entries),
                    i <= entries.len(),
                    out@.len() == i,
                    forall|k: int|
                        0 <= k < i ==> (#[trigger] out@[k]).0@ == entries@[k].0@ && vview(out@[k].1)
                            == vview(entries@[k].1),
                decreases entries.len() - i,
            {
                assert(decreases_to!(*v => (*v)->Mapping_0));
                assert(decreases_to!(*entries => entries@));
                assert(decreases_to!(entries@ => entries@[i as int]));
                assert(decreases_to!(entries@[i as int] => entries@[i as int].1));
                assert(decreases_to!(*v => entries@[i as int].1));
                let c = copy_value(&entries[i].1);
                out.push((entries[i].0.clone(), c));
                i += 1;
            }
            proof {
                lemma_table_view_ext(out@, entries@);
            }
            Value::Mapping(out)
        },
    }
}

} // verus!

verus! {

/// Index of the first entry with key `k`, from index `i` on.
pub open spec fn entry_index(m: Seq<(Seq<char>, ValueView)>, k: Seq<char>, i: int) -> Option<int>
    decreases m.len() - i,
{
    if i < 0 || i >= m.len() {
        None
    } else if m[i].0 == k {
        Some(i)
    } else {
        entry_index(m, k, i + 1)
    }
}

/// The value of key `k`.
pub open spec fn table_get(m: Seq<(Seq<char>, ValueView)>, k: Seq<char>) -> Option<ValueView> {
    match entry_index(m, k, 0) {
        Some(i) => Some(m[i].1),
        None => None,
    }
}

/// `k` set to `v`: in place when the key is there, else appended.
pub open spec fn table_insert(m: Seq<(Seq<char>, ValueView)>, k: Seq<char>, v: ValueView) -> Seq<(Seq<char>, ValueView)> {
    match entry_index(m, k, 0) {
        Some(i) => m.update(i, (k, v)),
        None => m.push((k, v)),
    }
}

/// `k` removed, the other entries keeping their order.
pub open spec fn table_remove(m: Seq<(Seq<char>, ValueView)>, k: Seq<char>) -> Seq<(Seq<char>, ValueView)> {
    match entry_index(m, k, 0) {
        Some(i) => m.remove(i),
        None => m,
    }
}

pub proof fn lemma_entry_index(m: Seq<(Seq<char>, ValueView)>, k: Seq<char>, i: int)
    requires
        0 <= i,
    ensures
        match entry_index(m, k, i) {
            Some(j) => i <= j < m.len() && m[j].0 == k && forall|q: int| i <= q < j ==> m[q].0 != k,
            None => forall|q: int| i <= q < m.len() ==> m[q].0 != k,
        },
    decreases m.len() - i,
{
    if i < m.len() && m[i].0 != k {
        lemma_entry_index(m, k, i + 1);
    }
}

/// Reading a key after setting it gives the value set.
pub proof fn lemma_table_get_insert(m: Seq<(Seq<char>, ValueView)>, k: Seq<char>, v: ValueView)
    ensures
        table_get(table_insert(m, k, v), k) == Some(v),
{
    lemma_entry_index(m, k, 0);
    let m2 = table_insert(m, k, v);
    lemma_entry_index(m2, k, 0);
    match entry_index(m, k, 0) {
        Some(i) => {
            match entry_index(m2, k, 0) {
                Some(j) => {
                    if j < i {
                        assert(m2[j] == m[j]);
                    }
                    if j > i {
                        assert(m2[i].0 == k);
                    }
                },
                None => {
                    assert(m2[i].0 == k);
                },
            }
        },
        None => {
            match entry_index(m2, k, 0) {
                Some(j) => {
                    if j < m.len() {
                        assert(m2[j] == m[j]);
                    }
                },
                None => {
                    assert(m2[m.len() as int].0 == k);
                },
            }
        },
    }
}

/// The state of splitting a path at dots: the non-empty segments so far
/// and the current segment.
pub open spec fn seg_state(s: Seq<char>) -> (Seq<Seq<char>>, Seq<char>)
    decreases s.len(),
{
    if s.len() == 0 {
        (seq![], seq![])
    } else {
        let (d, c) = seg_state(s.drop_last());
        if s.last() == '.' {
            (if c.len() > 0 { d.push(c) } else { d }, seq![])
        } else {
            (d, c.push(s.last()))
        }
    }
}

/// The segments of a dotted path: split at `.`, empty pieces dropped.
pub open spec fn path_segments(s: Seq<char>) -> Seq<Seq<char>> {
    let (d, c) = seg_state(s);
    if c.len() > 0 {
        d.push(c)
    } else {
        d
    }
}

/// Splits a dotted path into its non-empty segments.
pub fn split_path(path: &str) -> (r: Vec<String>)
    ensures
        crate::jscad::string_views(r@) == path_segments(path@),
{
    let s = crate::text::chars_of(path);
    let mut done: Vec<String> = Vec::new();
    let mut cur: Vec<char> = Vec::new();
    let mut i: usize = 0;
    assert(s@.take(0) =~= Seq::<char>::empty());
    while i < s.len()
        invariant
            i <= s.len(),
            s@ == path@,
            (crate::jscad::string_views(done@), cur@) == seg_state(s@.take(i as int)),
        decreases s.len() - i,
    {
        assert(s@.take(i + 1).drop_last() =~= s@.take(i as int));
        let ghost before = crate::jscad::string_views(done@);
        if s[i] == '.' {
            if cur.len() > 0 {
                let piece = crate::text::string_of(cur.as_slice());
                done.push(piece);
                assert(crate::jscad::string_views(done@) =~= before.push(piece@));
            }
            cur = Vec::new();
        } else {
            cur.push(s[i]);
        }
        i += 1;
    }
    assert(s@.take(s.len() as int) =~= s@);
    if cur.len() > 0 {
        let ghost before = crate::jscad::string_views(done@);
        let piece = crate::text::string_of(cur.as_slice());
        done.push(piece);
        assert(crate::jscad::string_views(done@) =~= before.push(piece@));
    }
    done
}

/// The value at a path of segments, if every segment names an entry of a
/// mapping.
pub open spec fn get_path_spec(v: ValueView, segs: Seq<Seq<char>>) -> Option<ValueView>
    decreases segs.len(),
{
    if segs.len() == 0 {
        Some(v)
    } else {
        match v {
            ValueView::Table(m) => match table_get(m, segs[0]) {
                Some(x) => get_path_spec(x, segs.drop_first()),
                None => None,
            },
            _ => None,
        }
    }
}

/// `v` with `value` stored at the path, missing mappings on the way
/// created empty; `Err(i)` when segment `i` would have to be taken from a
/// value that is not a mapping.
pub open spec fn set_path_spec(v: ValueView, segs: Seq<Seq<char>>, value: ValueView) -> Result<ValueView, int>
    decreases segs.len(),
{
    if segs.len() == 0 {
        Ok(value)
    } else {
        match v {
            ValueView::Table(m) => {
                if segs.len() == 1 {
                    Ok(ValueView::Table(table_insert(m, segs[0], value)))
                } else {
                    let child = match table_get(m, segs[0]) {
                        Some(c) => c,
                        None => ValueView::Table(seq![]),
                    };
                    match set_path_spec(child, segs.drop_first(), value) {
                        Ok(c2) => Ok(ValueView::Table(table_insert(m, segs[0], c2))),
                        Err(i) => Err(i + 1),
                    }
                }
            },
            _ => Err(0),
        }
    }
}

/// After a successful write at a path, reading the path gives the value
/// written.
pub proof fn law_get_after_set(v: ValueView, segs: Seq<Seq<char>>, value: ValueView)
    requires
        set_path_spec(v, segs, value) is Ok,
    ensures
        get_path_spec(set_path_spec(v, segs, value)->Ok_0, segs) == Some(value),
    decreases segs.len(),
{
    if segs.len() > 0 {
        match v {
            ValueView::Table(m) => {
                if segs.len() == 1 {
                    lemma_table_get_insert(m, segs[0], value);
                    assert(segs.drop_first() =~= Seq::<Seq<char>>::empty());
                    let nv = ValueView::Table(table_insert(m, segs[0], value));
                    assert(set_path_spec(v, segs, value) == Ok::<ValueView, int>(nv));
                    assert(get_path_spec(value, segs.drop_first()) == Some(value));
                    assert(get_path_spec(nv, segs) == get_path_spec(value, segs.drop_first()));
                } else {
                    let child = match table_get(m, segs[0]) {
                        Some(c) => c,
                        None => ValueView::Table(seq![]),
                    };
                    law_get_after_set(child, segs.drop_first(), value);
                    let c2 = set_path_spec(child, segs.drop_first(), value)->Ok_0;
                    lemma_table_get_insert(m, segs[0], c2);
                    let nv = ValueView::Table(table_insert(m, segs[0], c2));
                    assert(set_path_spec(v, segs, value) == Ok::<ValueView, int>(nv));
                    assert(get_path_spec(nv, segs) == get_path_spec(c2, segs.drop_first()));
                }
            },
            _ => {},
        }
    }
}

} // verus!

verus! {

/// Index of the first entry with key `k`.
pub fn find_entry(entries: &[(String, Value)], k: &str) -> (r: Option<usize>)
    ensures
        match entry_index(table_view(entries@), k@, 0) {
            Some(i) => r matches Some(j) && j as int == i,
            None => r is None,
        },
{
    let ghost tv = table_view(entries@);
    proof {
        lemma_table_view(entries@);
    }
    let kv = crate::text::chars_of(k);
    let mut i: usize = 0;
    while i < entries.len()
        invariant
            i <= entries.len(),
            tv == table_view(entries@),
            tv.len() == entries@.len(),
            forall|q: int| 0 <= q < entries@.len() ==> #[trigger] tv[q] == (entries@[q].0@, vview(entries@[q].1)),
            kv@ == k@,
            entry_index(tv, k@, 0) == entry_index(tv, k@, i as int),
        decreases entries.len() - i,
    {
        let ek = crate::text::chars_of(entries[i].0.as_str());
        assert(tv[i as int].0 == ek@);
        if crate::expr::chars_eq(ek.as_slice(), k) {
            return Some(i);
        }
        i += 1;
    }
    None
}

/// A copy of `entries` with key `k` set to `v`.
/// The value of key `k` in a mapping's entries.
pub fn table_lookup<'a>(entries: &'a Vec<(String, Value)>, k: &str) -> (r: Option<&'a Value>)
    ensures
        match table_get(table_view(entries@), k@) {
            Some(x) => r matches Some(y) && vview(*y) == x,
            None => r is None,
        },
{
    proof {
        lemma_table_view(entries@);
        lemma_entry_index(table_view(entries@), k@, 0);
    }
    match find_entry(entries.as_slice(), k) {
        Some(j) => Some(&entries[j].1),
        None => None,
    }
}

pub(crate) fn table_insert_exec(entries: &Vec<(String, Value)>, k: &String, v: Value) -> (r: Vec<(String, Value)>)
    ensures
        table_view(r@) == table_insert(table_view(entries@), k@, vview(v)),
{
    proof {
        lemma_table_view(entries@);
    }
    let idx = find_entry(entries.as_slice(), k.as_str());
    proof {
        lemma_entry_index(table_view(entries@), k@, 0);
    }
    let mut out: Vec<(String, Value)> = Vec::new();
    let mut i: usize = 0;
    let mut v = Some(v);
    let ghost vv = vview(v->0);
    while i < entries.len()
        invariant
            i <= entries.len(),
            out@.len() == i,
            idx matches Some(j) ==> j < entries.len(),
            (idx is None || (idx matches Some(j) && i <= j)) ==> (v is Some && vview(v->0) == vv),
            forall|q: int| 0 <= q < i ==> (#[trigger] out@[q]).0@ == (if idx == Some(q as usize) {
                k@
            } else {
                entries@[q].0@
            }) && vview(out@[q].1) == (if idx == Some(q as usize) {
                vv
            } else {
                vview(entries@[q].1)
            }),
        decreases entries.len() - i,
    {
        if idx == Some(i) {
            let x = v.take().unwrap();
            out.push((k.clone(), x));
        } else {
            let c = copy_value(&entries[i].1);
            out.push((entries[i].0.clone(), c));
        }
        i += 1;
    }
    let ghost tv = table_view(entries@);
    proof {
        lemma_table_view(out@);
        lemma_entry_index(tv, k@, 0);
    }
    match idx {
        Some(j) => {
            assert(table_view(out@) =~= tv.update(j as int, (k@, vv)));
        },
        None => {
            let x = v.take().unwrap();
            let ghost before = out@;
            out.push((k.clone(), x));
            proof {
                lemma_table_view(out@);
                assert(table_view(out@) =~= tv.push((k@, vv)));
            }
        },
    }
    out
}

} // verus!

verus! {

fn set_in(v: &Value, segs: &[String], i: usize, value: Value) -> (r: Result<Value, usize>)
    requires
        i <= segs.len(),
    ensures
        match set_path_spec(vview(*v), crate::jscad::string_views(segs@).skip(i as int), vview(value)) {
            Ok(nv) => r matches Ok(x) && vview(x) == nv,
            Err(e) => r matches Err(j) && j as int == i + e,
        },
    decreases segs.len() - i,
{
    let ghost sv = crate::jscad::string_views(segs@);
    let ghost rest = sv.skip(i as int);
    if i == segs.len() {
        assert(rest.len() == 0);
        return Ok(value);
    }
    assert(rest[0] == segs@[i as int]@);
    match v {
        Value::Mapping(entries) => {
            proof {
                lemma_table_view(entries@);
            }
            if i + 1 == segs.len() {
                let e = table_insert_exec(entries, &segs[i], value);
                return Ok(Value::Mapping(e));
            }
            assert(rest.drop_first() =~= sv.skip(i + 1));
            let no_entries: Vec<(String, Value)> = Vec::new();
            assert(table_view(no_entries@) =~= Seq::<(Seq<char>, ValueView)>::empty());
            let empty = Value::Mapping(no_entries);
            proof {
                lemma_entry_index(table_view(entries@), segs@[i as int]@, 0);
            }
            let child: &Value = match find_entry(entries.as_slice(), segs[i].as_str()) {
                Some(j) => &entries[j].1,
                None => &empty,
            };
            assert(vview(*child) == match table_get(table_view(entries@), rest[0]) {
                Some(c) => c,
                None => ValueView::Table(seq![]),
            });
            match set_in(child, segs, i + 1, value) {
                Ok(c2) => {
                    let e = table_insert_exec(entries, &segs[i], c2);
                    Ok(Value::Mapping(e))
                },
                Err(j) => Err(j),
            }
        },
        _ => Err(i),
    }
}

impl Value {
    /// The entries of a mapping.
    pub fn as_map(&self) -> (r: Option<&Vec<(String, Value)>>)
        ensures
            match *self {
                Value::Mapping(m) => r == Some(&m),
                _ => r is None,
            },
    {
        match self {
            Value::Mapping(m) => Some(m),
            _ => None,
        }
    }

    /// The value at a dotted path (empty segments ignored), if each segment
    /// names an entry of a mapping.
    pub fn get_path(&self, path: &str) -> (r: Option<&Value>)
        ensures
            match get_path_spec(vview(*self), path_segments(path@)) {
                Some(x) => r matches Some(y) && vview(*y) == x,
                None => r is None,
            },
    {
        let segs = split_path(path);
        let ghost sv = crate::jscad::string_views(segs@);
        let mut cur: &Value = self;
        let mut i: usize = 0;
        assert(sv.skip(0) =~= sv);
        while i < segs.len()
            invariant
                i <= segs.len(),
                sv == crate::jscad::string_views(segs@),
                sv == path_segments(path@),
                get_path_spec(vview(*self), sv) == get_path_spec(vview(*cur), sv.skip(i as int)),
            decreases segs.len() - i,
        {
            let ghost rest = sv.skip(i as int);
            assert(rest[0] == segs@[i as int]@);
            assert(rest.drop_first() =~= sv.skip(i + 1));
            match cur {
                Value::Mapping(entries) => {
                    proof {
                        lemma_table_view(entries@);
                    }
                    proof {
                        lemma_entry_index(table_view(entries@), segs@[i as int]@, 0);
                    }
                    match find_entry(entries.as_slice(), segs[i].as_str()) {
                        Some(j) => {
                            cur = &entries[j].1;
                        },
                        None => {
                            return None;
                        },
                    }
                },
                _ => {
                    return None;
                },
            }
            i += 1;
        }
        assert(sv.skip(i as int) =~= Seq::<Seq<char>>::empty());
        Some(cur)
    }

    /// Stores `value` at a dotted path, creating missing mappings on the
    /// way. Fails, leaving the value unchanged, when a segment would have to
    /// be taken from a value that is not a mapping.
    pub fn set_path(&mut self, path: &str, value: Value) -> (r: Result<(), crate::error::Error>)
        ensures
            match set_path_spec(vview(*old(self)), path_segments(path@), vview(value)) {
                Ok(nv) => r is Ok && vview(*final(self)) == nv,
                Err(e) => r matches Err(crate::error::Error::InvalidPath { path: p, segment })
                    && p@ == path@ && segment@ == path_segments(path@)[e] && vview(*final(self))
                    == vview(*old(self)),
            },
    {
        let segs = split_path(path);
        let ghost sv = crate::jscad::string_views(segs@);
        assert(sv.skip(0) =~= sv);
        match set_in(self, segs.as_slice(), 0, value) {
            Ok(nv) => {
                *self = nv;
                Ok(())
            },
            Err(j) => {
                proof {
                    lemma_set_path_err_index(vview(*self), sv, vview(value));
                }
                assert(sv[j as int] == segs@[j as int]@);
                Err(
                    crate::error::Error::InvalidPath {
                        path: crate::expr::str_to_string(path),
                        segment: segs[j].clone(),
                    },
                )
            },
        }
    }
}

/// A failing write fails at one of the path's segments.
pub proof fn lemma_set_path_err_index(v: ValueView, segs: Seq<Seq<char>>, value: ValueView)
    ensures
        set_path_spec(v, segs, value) matches Err(e) ==> 0 <= e < segs.len(),
    decreases segs.len(),
{
    if segs.len() > 1 {
        match v {
            ValueView::Table(m) => {
                let child = match table_get(m, segs[0]) {
                    Some(c) => c,
                    None => ValueView::Table(seq![]),
                };
                lemma_set_path_err_index(child, segs.drop_first(), value);
            },
            _ => {},
        }
    }
}

} // verus!

verus! {

/// The marker that removes a key when merged in.
pub open spec fn is_unset(v: ValueView) -> bool {
    v == ValueView::Text("$unset"@)
}

/// Merges `from` into `to`: null keeps `to`; `$unset` gives nothing (the key
/// goes); two mappings merge key by key, two sequences index by index;
/// otherwise `from` replaces `to`.
pub open spec fn extend_spec(to: ValueView, from: ValueView) -> Option<ValueView>
    decreases from, 0nat,
{
    if from is Null {
        Some(to)
    } else if is_unset(from) {
        None
    } else {
        match (to, from) {
            (ValueView::Table(tm), ValueView::Table(fm)) => Some(
                ValueView::Table(merge_tables(tm, fm, fm.len())),
            ),
            (ValueView::List(ts), ValueView::List(fs)) => Some(
                ValueView::List(merge_lists(ts, fs, fs.len())),
            ),
            _ => Some(from),
        }
    }
}

/// `tm` with the first `n` entries of `fm` merged in, in order.
pub open spec fn merge_tables(
    tm: Seq<(Seq<char>, ValueView)>,
    fm: Seq<(Seq<char>, ValueView)>,
    n: nat,
) -> Seq<(Seq<char>, ValueView)>
    decreases fm, n,
{
    if n == 0 || n > fm.len() {
        tm
    } else {
        let res = merge_tables(tm, fm, (n - 1) as nat);
        let k = fm[n - 1].0;
        let existing = match table_get(res, k) {
            Some(x) => x,
            None => ValueView::Null,
        };
        match extend_spec(existing, fm[n - 1].1) {
            Some(x) => table_insert(res, k, x),
            None => table_remove(res, k),
        }
    }
}

/// `s` padded with nulls to length `n`.
pub open spec fn pad_nulls(s: Seq<ValueView>, n: int) -> Seq<ValueView> {
    if s.len() >= n {
        s
    } else {
        s + Seq::new((n - s.len()) as nat, |i: int| ValueView::Null)
    }
}

/// `ts` with the first `n` elements of `fs` merged in by index.
pub open spec fn merge_lists(ts: Seq<ValueView>, fs: Seq<ValueView>, n: nat) -> Seq<ValueView>
    decreases fs, n,
{
    if n == 0 || n > fs.len() {
        ts
    } else {
        let res = merge_lists(ts, fs, (n - 1) as nat);
        let i = n - 1;
        let existing = if i < res.len() {
            res[i]
        } else {
            ValueView::Null
        };
        let merged = match extend_spec(existing, fs[i]) {
            Some(x) => x,
            None => ValueView::Null,
        };
        pad_nulls(res, i + 1).update(i, merged)
    }
}

/// Merges values in order, each into the result so far; a value that
/// removes the whole result leaves null.
pub open spec fn extend_all_spec(vs: Seq<ValueView>) -> ValueView
    decreases vs.len(),
{
    if vs.len() == 0 {
        ValueView::Null
    } else if vs.len() == 1 {
        vs[0]
    } else {
        match extend_spec(extend_all_spec(vs.drop_last()), vs.last()) {
            Some(x) => x,
            None => ValueView::Null,
        }
    }
}

/// Merging in null keeps the target.
pub proof fn law_extend_null_keeps(to: ValueView)
    ensures
        extend_spec(to, ValueView::Null) == Some(to),
{
}

/// Merging in `$unset` removes the target.
pub proof fn law_extend_unset_removes(to: ValueView)
    ensures
        extend_spec(to, ValueView::Text("$unset"@)) is None,
{
}

/// A value of another kind than the target replaces it.
pub proof fn law_extend_mismatch_replaces(to: ValueView, from: ValueView)
    requires
        !(from is Null),
        !is_unset(from),
        !(to is Table && from is Table),
        !(to is List && from is List),
    ensures
        extend_spec(to, from) == Some(from),
{
}

} // verus!

verus! {

/// Element `i` of sequence `fs` merged into element `i` of `ts` (null
/// where `ts` is shorter; null where the merge removes it).
pub open spec fn merged_at(ts: Seq<ValueView>, fs: Seq<ValueView>, i: int) -> ValueView {
    let existing = if i < ts.len() {
        ts[i]
    } else {
        ValueView::Null
    };
    match extend_spec(existing, fs[i]) {
        Some(x) => x,
        None => ValueView::Null,
    }
}

proof fn lemma_merge_lists(ts: Seq<ValueView>, fs: Seq<ValueView>, n: nat)
    requires
        n <= fs.len(),
    ensures
        merge_lists(ts, fs, n).len() == if ts.len() > n { ts.len() } else { n as nat },
        forall|i: int| 0 <= i < n ==> #[trigger] merge_lists(ts, fs, n)[i] == merged_at(ts, fs, i),
        forall|i: int| n <= i < ts.len() ==> #[trigger] merge_lists(ts, fs, n)[i] == ts[i],
    decreases n,
{
    if n > 0 {
        lemma_merge_lists(ts, fs, (n - 1) as nat);
        let res = merge_lists(ts, fs, (n - 1) as nat);
        let i = n - 1;
        let r = merge_lists(ts, fs, n);
        if i < res.len() {
            assert(i < ts.len());
            assert(res[i] == ts[i]);
        }
        assert forall|j: int| 0 <= j < n implies #[trigger] r[j] == merged_at(ts, fs, j) by {
            if j < i {
                assert(pad_nulls(res, i + 1)[j] == res[j]);
            }
        }
        assert forall|j: int| n <= j < ts.len() implies #[trigger] r[j] == ts[j] by {
            assert(pad_nulls(res, i + 1)[j] == res[j]);
        }
    }
}

/// Two sequences merge index by index: the result is as long as the longer
/// one; each element of `from` merges into the element at the same index
/// (null where `to` is shorter), and the rest of `to` stays.
pub proof fn law_extend_lists_by_index(ts: Seq<ValueView>, fs: Seq<ValueView>)
    ensures
        extend_spec(ValueView::List(ts), ValueView::List(fs)) matches Some(ValueView::List(r)) && r.len()
            == (if ts.len() > fs.len() { ts.len() } else { fs.len() }) && (forall|i: int|
            0 <= i < fs.len() ==> #[trigger] r[i] == merged_at(ts, fs, i)) && (forall|i: int|
            fs.len() <= i < ts.len() ==> #[trigger] r[i] == ts[i]),
{
    lemma_merge_lists(ts, fs, fs.len());
}

pub proof fn lemma_table_get_insert_other(m: Seq<(Seq<char>, ValueView)>, k: Seq<char>, v: ValueView, k2: Seq<char>)
    requires
        k2 != k,
    ensures
        table_get(table_insert(m, k, v), k2) == table_get(m, k2),
{
    let m2 = table_insert(m, k, v);
    lemma_entry_index(m, k, 0);
    lemma_entry_index(m, k2, 0);
    lemma_entry_index(m2, k2, 0);
    match entry_index(m2, k2, 0) {
        Some(j) => {
            if j < m.len() {
                assert(m2[j] == m[j]);
                match entry_index(m, k2, 0) {
                    Some(q) => {
                        if q < j {
                            assert(m2[q] == m[q]);
                        }
                    },
                    None => {},
                }
            }
        },
        None => {
            match entry_index(m, k2, 0) {
                Some(q) => {
                    assert(m2[q] == m[q]);
                },
                None => {},
            }
        },
    }
}

proof fn lemma_table_get_remove(m: Seq<(Seq<char>, ValueView)>, k: Seq<char>, k2: Seq<char>)
    requires
        k2 != k || (forall|p: int, q: int| 0 <= p < q < m.len() ==> m[p].0 != m[q].0),
    ensures
        table_get(table_remove(m, k), k2) == if k2 == k { None } else { table_get(m, k2) },
{
    let m2 = table_remove(m, k);
    lemma_entry_index(m, k, 0);
    lemma_entry_index(m, k2, 0);
    lemma_entry_index(m2, k2, 0);
    match entry_index(m, k, 0) {
        None => {},
        Some(i) => {
            match entry_index(m2, k2, 0) {
                Some(j) => {
                    let oj = if j < i { j } else { j + 1 };
                    assert(m2[j] == m[oj]);
                    if k2 == k {
                        assert(m[oj].0 == k);
                        assert(oj != i);
                        if oj < i {
                        } else {
                            assert(m[i].0 == m[oj].0);
                        }
                    } else {
                        match entry_index(m, k2, 0) {
                            Some(q) => {
                                if q < oj {
                                    let nq = if q < i { q } else { q - 1 };
                                    assert(m2[nq] == m[q]);
                                }
                            },
                            None => {},
                        }
                    }
                },
                None => {
                    if k2 != k {
                        match entry_index(m, k2, 0) {
                            Some(q) => {
                                let nq = if q < i { q } else { q - 1 };
                                assert(m2[nq] == m[q]);
                            },
                            None => {},
                        }
                    }
                },
            }
        },
    }
}

} // verus!

verus! {

/// Each key occurs once.
pub open spec fn keys_unique(m: Seq<(Seq<char>, ValueView)>) -> bool {
    forall|p: int, q: int| 0 <= p < q < m.len() ==> m[p].0 != m[q].0
}

pub proof fn lemma_insert_unique(m: Seq<(Seq<char>, ValueView)>, k: Seq<char>, v: ValueView)
    requires
        keys_unique(m),
    ensures
        keys_unique(table_insert(m, k, v)),
{
    lemma_entry_index(m, k, 0);
    let m2 = table_insert(m, k, v);
    match entry_index(m, k, 0) {
        Some(i) => {
            assert forall|p: int, q: int| 0 <= p < q < m2.len() implies m2[p].0 != m2[q].0 by {
                assert(m2[p].0 == m[p].0 && m2[q].0 == m[q].0);
            }
        },
        None => {
            assert forall|p: int, q: int| 0 <= p < q < m2.len() implies m2[p].0 != m2[q].0 by {
                if q < m.len() {
                    assert(m2[p] == m[p] && m2[q] == m[q]);
                } else {
                    assert(m2[p] == m[p]);
                }
            }
        },
    }
}

proof fn lemma_remove_unique(m: Seq<(Seq<char>, ValueView)>, k: Seq<char>)
    requires
        keys_unique(m),
    ensures
        keys_unique(table_remove(m, k)),
{
    lemma_entry_index(m, k, 0);
    let m2 = table_remove(m, k);
    match entry_index(m, k, 0) {
        Some(i) => {
            assert forall|p: int, q: int| 0 <= p < q < m2.len() implies m2[p].0 != m2[q].0 by {
                let op = if p < i { p } else { p + 1 };
                let oq = if q < i { q } else { q + 1 };
                assert(m2[p] == m[op] && m2[q] == m[oq]);
            }
        },
        None => {},
    }
}

proof fn lemma_merge_unset(
    tm: Seq<(Seq<char>, ValueView)>,
    fm: Seq<(Seq<char>, ValueView)>,
    n: nat,
    k: Seq<char>,
    j: int,
)
    requires
        keys_unique(tm),
        keys_unique(fm),
        0 <= j < fm.len(),
        fm[j].0 == k,
        is_unset(fm[j].1),
        n <= fm.len(),
    ensures
        keys_unique(merge_tables(tm, fm, n)),
        j < n ==> table_get(merge_tables(tm, fm, n), k) is None,
    decreases n,
{
    if n > 0 {
        lemma_merge_unset(tm, fm, (n - 1) as nat, k, j);
        let res = merge_tables(tm, fm, (n - 1) as nat);
        let k2 = fm[n - 1].0;
        let existing = match table_get(res, k2) {
            Some(x) => x,
            None => ValueView::Null,
        };
        match extend_spec(existing, fm[n - 1].1) {
            Some(x) => {
                lemma_insert_unique(res, k2, x);
                if j < n {
                    if j == n - 1 {
                        assert(false);
                    }
                    assert(k2 != k);
                    lemma_table_get_insert_other(res, k2, x, k);
                }
            },
            None => {
                lemma_remove_unique(res, k2);
                if j < n {
                    lemma_table_get_remove(res, k2, k);
                }
            },
        }
    }
}

/// Merging a mapping that sets a key to `$unset` removes that key (keys of
/// each mapping taken once each).
pub proof fn law_extend_unset_key_removed(
    tm: Seq<(Seq<char>, ValueView)>,
    fm: Seq<(Seq<char>, ValueView)>,
    k: Seq<char>,
)
    requires
        keys_unique(tm),
        keys_unique(fm),
        table_get(fm, k) == Some(ValueView::Text("$unset"@)),
    ensures
        extend_spec(ValueView::Table(tm), ValueView::Table(fm)) matches Some(ValueView::Table(r))
            && table_get(r, k) is None,
{
    lemma_entry_index(fm, k, 0);
    let j = entry_index(fm, k, 0)->0;
    lemma_merge_unset(tm, fm, fm.len(), k, j);
}

} // verus!

verus! {

/// A copy of `entries` without key `k`.
pub(crate) fn table_remove_exec(entries: &Vec<(String, Value)>, k: &String) -> (r: Vec<(String, Value)>)
    ensures
        table_view(r@) == table_remove(table_view(entries@), k@),
{
    proof {
        lemma_table_view(entries@);
    }
    let idx = find_entry(entries.as_slice(), k.as_str());
    proof {
        lemma_entry_index(table_view(entries@), k@, 0);
    }
    let mut out: Vec<(String, Value)> = Vec::new();
    let mut i: usize = 0;
    while i < entries.len()
        invariant
            i <= entries.len(),
            out@.len() == (if idx matches Some(j) && j < i { i - 1 } else { i as int }),
            forall|q: int| 0 <= q < out@.len() ==> {
                let o = if idx matches Some(j) && q >= j { q + 1 } else { q };
                (#[trigger] out@[q]).0@ == entries@[o].0@ && vview(out@[q].1) == vview(entries@[o].1)
            },
        decreases entries.len() - i,
    {
        if idx != Some(i) {
            let c = copy_value(&entries[i].1);
            out.push((entries[i].0.clone(), c));
        }
        i += 1;
    }
    let ghost tv = table_view(entries@);
    proof {
        lemma_table_view(out@);
    }
    match idx {
        Some(j) => {
            assert(table_view(out@) =~= tv.remove(j as int));
        },
        None => {
            assert(table_view(out@) =~= tv);
        },
    }
    out
}

fn is_unset_exec(v: &Value) -> (b: bool)
    ensures
        b == is_unset(vview(*v)),
{
    match v {
        Value::String(s) => {
            let c = crate::text::chars_of(s.as_str());
            crate::expr::chars_eq(c.as_slice(), "$unset")
        },
        _ => false,
    }
}

/// Merges `from` into `to` (see `extend_spec`): `None` when `from` is
/// `$unset`.
pub fn extend_one(to: &Value, from: &Value) -> (r: Option<Value>)
    ensures
        match extend_spec(vview(*to), vview(*from)) {
            Some(x) => r matches Some(y) && vview(y) == x,
            None => r is None,
        },
    decreases from,
{
    if let Value::Null = from {
        return Some(copy_value(to));
    }
    if is_unset_exec(from) {
        return None;
    }
    match (to, from) {
        (Value::Mapping(tm), Value::Mapping(fm)) => {
            let ghost tv = table_view(tm@);
            let ghost fv = table_view(fm@);
            proof {
                lemma_table_view(fm@);
            }
            let copied = copy_value(to);
            let mut res: Vec<(String, Value)> = match copied {
                Value::Mapping(m) => m,
                _ => Vec::new(),
            };
            assert(table_view(res@) == tv);
            let mut i: usize = 0;
            while i < fm.len()
                invariant
                    *from == Value::Mapping(*fm),
                    fv == table_view(fm@),
                    fv.len() == fm@.len(),
                    forall|q: int| 0 <= q < fm@.len() ==> #[trigger] fv[q] == (fm@[q].0@, vview(fm@[q].1)),
                    i <= fm.len(),
                    table_view(res@) == merge_tables(tv, fv, i as nat),
                decreases fm.len() - i,
            {
                proof {
                    lemma_table_view(res@);
                    lemma_entry_index(table_view(res@), fm@[i as int].0@, 0);
                }
                let existing = match find_entry(res.as_slice(), fm[i].0.as_str()) {
                    Some(j) => copy_value(&res[j].1),
                    None => Value::Null,
                };
                assert(decreases_to!(*from => (*from)->Mapping_0));
                assert(decreases_to!(*fm => fm@));
                assert(decreases_to!(fm@ => fm@[i as int]));
                assert(decreases_to!(fm@[i as int] => fm@[i as int].1));
                let next = extend_one(&existing, &fm[i].1);
                match next {
                    Some(val) => {
                        res = table_insert_exec(&res, &fm[i].0, val);
                    },
                    None => {
                        res = table_remove_exec(&res, &fm[i].0);
                    },
                }
                i += 1;
            }
            Some(Value::Mapping(res))
        },
        (Value::Sequence(ts), Value::Sequence(fs)) => {
            let ghost tl = list_view(ts@);
            let ghost fl = list_view(fs@);
            proof {
                lemma_list_view(fs@);
            }
            let copied = copy_value(to);
            let mut res: Vec<Value> = match copied {
                Value::Sequence(s) => s,
                _ => Vec::new(),
            };
            assert(list_view(res@) == tl);
            let mut i: usize = 0;
            while i < fs.len()
                invariant
                    *from == Value::Sequence(*fs),
                    fl == list_view(fs@),
                    fl.len() == fs@.len(),
                    forall|q: int| 0 <= q < fs@.len() ==> #[trigger] fl[q] == vview(fs@[q]),
                    i <= fs.len(),
                    list_view(res@) == merge_lists(tl, fl, i as nat),
                decreases fs.len() - i,
            {
                proof {
                    lemma_list_view(res@);
                }
                let existing = if i < res.len() {
                    copy_value(&res[i])
                } else {
                    Value::Null
                };
                assert(decreases_to!(*from => (*from)->Sequence_0));
                assert(decreases_to!(*fs => fs@));
                assert(decreases_to!(fs@ => fs@[i as int]));
                let merged = match extend_one(&existing, &fs[i]) {
                    Some(x) => x,
                    None => Value::Null,
                };
                let ghost before = list_view(res@);
                proof {
                    lemma_merge_lists(tl, fl, i as nat);
                    assert(before.len() >= i);
                }
                if res.len() <= i {
                    res.push(Value::Null);
                    proof {
                        lemma_list_view(res@);
                        assert(list_view(res@) =~= pad_nulls(before, i + 1));
                    }
                } else {
                    assert(list_view(res@) =~= pad_nulls(before, i + 1));
                }
                res.set(i, merged);
                proof {
                    lemma_list_view(res@);
                    assert(list_view(res@) =~= pad_nulls(before, i + 1).update(i as int, vview(merged)));
                }
                i += 1;
            }
            Some(Value::Sequence(res))
        },
        _ => Some(copy_value(from)),
    }
}

} // verus!

verus! {

/// Merges the values in order (see `extend_all_spec`).
pub fn extend_all(values: &[Value]) -> (r: Value)
    ensures
        vview(r) == extend_all_spec(list_view(values@)),
{
    proof {
        lemma_list_view(values@);
    }
    let ghost lv = list_view(values@);
    if values.len() == 0 {
        return Value::Null;
    }
    let mut res = copy_value(&values[0]);
    let mut i: usize = 1;
    assert(lv.take(1) =~= seq![lv[0]]);
    while i < values.len()
        invariant
            1 <= i <= values.len(),
            lv == list_view(values@),
            lv.len() == values@.len(),
            forall|q: int| 0 <= q < values@.len() ==> #[trigger] lv[q] == vview(values@[q]),
            vview(res) == extend_all_spec(lv.take(i as int)),
        decreases values.len() - i,
    {
        let next = extend_one(&res, &values[i]);
        res = match next {
            Some(x) => x,
            None => Value::Null,
        };
        assert(lv.take(i + 1).drop_last() =~= lv.take(i as int));
        i += 1;
    }
    assert(lv.take(values.len() as int) =~= lv);
    res
}

} // verus!

verus! {

/// Dotted keys expanded into nested mappings, entries in order; `Err`
/// gives the key and segment of the first entry that cannot be placed.
pub open spec fn unnest_spec(v: ValueView) -> Result<ValueView, (Seq<char>, Seq<char>)>
    decreases v, 0nat,
{
    match v {
        ValueView::Table(m) => unnest_entries(m, m.len()),
        ValueView::List(s) => match unnest_list(s, s.len()) {
            Ok(l) => Ok(ValueView::List(l)),
            Err(e) => Err(e),
        },
        _ => Ok(v),
    }
}

/// The first `n` entries of `m` placed, each at the path its key spells.
pub open spec fn unnest_entries(m: Seq<(Seq<char>, ValueView)>, n: nat) -> Result<ValueView, (Seq<char>, Seq<char>)>
    decreases m, n,
{
    if n == 0 || n > m.len() {
        Ok(ValueView::Table(seq![]))
    } else {
        match unnest_entries(m, (n - 1) as nat) {
            Err(e) => Err(e),
            Ok(acc) => match unnest_spec(m[n - 1].1) {
                Err(e) => Err(e),
                Ok(nested) => match set_path_spec(acc, path_segments(m[n - 1].0), nested) {
                    Ok(x) => Ok(x),
                    Err(i) => Err((m[n - 1].0, path_segments(m[n - 1].0)[i])),
                },
            },
        }
    }
}

/// The first `n` elements of `s`, each unnested.
pub open spec fn unnest_list(s: Seq<ValueView>, n: nat) -> Result<Seq<ValueView>, (Seq<char>, Seq<char>)>
    decreases s, n,
{
    if n == 0 || n > s.len() {
        Ok(seq![])
    } else {
        match unnest_list(s, (n - 1) as nat) {
            Err(e) => Err(e),
            Ok(acc) => match unnest_spec(s[n - 1]) {
                Err(e) => Err(e),
                Ok(x) => Ok(acc.push(x)),
            },
        }
    }
}

proof fn lemma_unnest_entries_err(m: Seq<(Seq<char>, ValueView)>, n: nat, n2: nat)
    requires
        n <= n2 <= m.len(),
        unnest_entries(m, n) is Err,
    ensures
        unnest_entries(m, n2) == unnest_entries(m, n),
    decreases n2 - n,
{
    if n2 > n {
        lemma_unnest_entries_err(m, n, (n2 - 1) as nat);
    }
}

proof fn lemma_unnest_list_err(s: Seq<ValueView>, n: nat, n2: nat)
    requires
        n <= n2 <= s.len(),
        unnest_list(s, n) is Err,
    ensures
        unnest_list(s, n2) == unnest_list(s, n),
    decreases n2 - n,
{
    if n2 > n {
        lemma_unnest_list_err(s, n, (n2 - 1) as nat);
    }
}

/// Expands dotted keys into nested mappings, throughout the value.
pub fn unnest(config: &Value) -> (r: Result<Value, crate::error::Error>)
    ensures
        match unnest_spec(vview(*config)) {
            Ok(x) => r matches Ok(y) && vview(y) == x,
            Err((p, s)) => r matches Err(crate::error::Error::InvalidPath { path, segment })
                && path@ == p && segment@ == s,
        },
    decreases config,
{
    match config {
        Value::Mapping(m) => {
            let ghost tv = table_view(m@);
            proof {
                lemma_table_view(m@);
            }
            let no_entries: Vec<(String, Value)> = Vec::new();
            assert(table_view(no_entries@) =~= Seq::<(Seq<char>, ValueView)>::empty());
            let mut out = Value::Mapping(no_entries);
            let mut i: usize = 0;
            while i < m.len()
                invariant
                    *config == Value::Mapping(*m),
                    tv == table_view(m@),
                    tv.len() == m@.len(),
                    forall|q: int| 0 <= q < m@.len() ==> #[trigger] tv[q] == (m@[q].0@, vview(m@[q].1)),
                    i <= m.len(),
                    unnest_entries(tv, i as nat) == Ok::<ValueView, (Seq<char>, Seq<char>)>(vview(out)),
                decreases m.len() - i,
            {
                assert(decreases_to!(*config => (*config)->Mapping_0));
                assert(decreases_to!(*m => m@));
                assert(decreases_to!(m@ => m@[i as int]));
                assert(decreases_to!(m@[i as int] => m@[i as int].1));
                let nested = match unnest(&m[i].1) {
                    Ok(x) => x,
                    Err(e) => {
                        proof {
                            lemma_unnest_entries_err(tv, (i + 1) as nat, tv.len());
                        }
                        return Err(e);
                    },
                };
                match out.set_path(m[i].0.as_str(), nested) {
                    Ok(()) => {},
                    Err(e) => {
                        proof {
                            lemma_unnest_entries_err(tv, (i + 1) as nat, tv.len());
                        }
                        return Err(e);
                    },
                }
                i += 1;
            }
            Ok(out)
        },
        Value::Sequence(s) => {
            let ghost lv = list_view(s@);
            proof {
                lemma_list_view(s@);
            }
            let mut out: Vec<Value> = Vec::new();
            let mut i: usize = 0;
            while i < s.len()
                invariant
                    *config == Value::Sequence(*s),
                    lv == list_view(s@),
                    lv.len() == s@.len(),
                    forall|q: int| 0 <= q < s@.len() ==> #[trigger] lv[q] == vview(s@[q]),
                    i <= s.len(),
                    unnest_list(lv, i as nat) == Ok::<Seq<ValueView>, (Seq<char>, Seq<char>)>(list_view(out@)),
                decreases s.len() - i,
            {
                assert(decreases_to!(*config => (*config)->Sequence_0));
                assert(decreases_to!(*s => s@));
                assert(decreases_to!(s@ => s@[i as int]));
                let x = match unnest(&s[i]) {
                    Ok(x) => x,
                    Err(e) => {
                        proof {
                            lemma_unnest_list_err(lv, (i + 1) as nat, lv.len());
                        }
                        return Err(e);
                    },
                };
                let ghost before = list_view(out@);
                proof {
                    lemma_list_view(out@);
                }
                out.push(x);
                proof {
                    lemma_list_view(out@);
                    assert(list_view(out@) =~= before.push(vview(x)));
                }
                i += 1;
            }
            Ok(Value::Sequence(out))
        },
        _ => Ok(copy_value(config)),
    }
}

} // verus!
